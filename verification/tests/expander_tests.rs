use clap_help::expander::Expander;
use clap_help::expander::SubBinding;
use clap_help::expander::TemplateError;

#[test]
fn unbound_placeholder_resolves_to_default() {
    let mut ex = Expander::new();
    ex.set_default("D");
    let out = ex.expand("Hello ${x}!").unwrap();
    assert_eq!(out, "Hello D!");
}

#[test]
fn unbound_placeholder_default_is_independent_of_surrounding_text() {
    let mut ex = Expander::new();
    ex.set_default("D");
    assert_eq!(ex.expand("${x}").unwrap(), "D");
    assert_eq!(ex.expand("a${x}").unwrap(), "aD");
    assert_eq!(ex.expand("${x}b").unwrap(), "Db");
    assert_eq!(ex.expand("| ${x} |").unwrap(), "| D |");
}

#[test]
fn default_is_empty_until_configured() {
    let ex = Expander::new();
    assert_eq!(ex.expand("Hello ${x}!").unwrap(), "Hello !");
}

#[test]
fn scalar_substitution_last_write_wins() {
    let mut ex = Expander::new();
    ex.set_scalar("name", "first");
    ex.set_scalar("name", "area");
    assert_eq!(ex.expand("run ${name} now").unwrap(), "run area now");
}

#[test]
fn dollar_without_brace_is_literal() {
    let ex = Expander::new();
    assert_eq!(ex.expand("cost: 3$ or $4").unwrap(), "cost: 3$ or $4");
}

#[test]
fn block_emits_one_instance_per_row_in_order() {
    let mut ex = Expander::new();
    let mut r1 = SubBinding::new();
    r1.set_scalar("v", "one");
    ex.add_sub("rows", r1);
    let mut r2 = SubBinding::new();
    r2.set_scalar("v", "two");
    ex.add_sub("rows", r2);
    let mut r3 = SubBinding::new();
    r3.set_scalar("v", "three");
    ex.add_sub("rows", r3);
    let out = ex.expand("${rows\n<${v}>\n}").unwrap();
    assert_eq!(out, "<one>\n<two>\n<three>\n");
}

#[test]
fn row_binding_takes_precedence_over_top_level_in_its_row_only() {
    let mut ex = Expander::new();
    ex.set_scalar("v", "top");
    let mut r1 = SubBinding::new();
    r1.set_scalar("v", "local");
    ex.add_sub("rows", r1);
    ex.add_sub("rows", SubBinding::new());
    let out = ex.expand("${rows\n<${v}>\n}").unwrap();
    assert_eq!(out, "<local>\n<top>\n");
}

#[test]
fn block_with_no_rows_emits_nothing() {
    let ex = Expander::new();
    let out = ex.expand("a${rows\n<${v}>\n}b").unwrap();
    assert_eq!(out, "ab");
}

#[test]
fn text_around_block_is_kept() {
    let mut ex = Expander::new();
    let mut r = SubBinding::new();
    r.set_scalar("v", "x");
    ex.add_sub("rows", r);
    let out = ex.expand("head\n${rows\n- ${v}\n}\ntail").unwrap();
    assert_eq!(out, "head\n- x\n\ntail");
}

#[test]
fn unterminated_placeholder_is_an_error() {
    let ex = Expander::new();
    assert_eq!(
        ex.expand("oops ${x"),
        Err(TemplateError::UnterminatedPlaceholder)
    );
}

#[test]
fn unterminated_block_is_an_error() {
    let ex = Expander::new();
    assert_eq!(
        ex.expand("${rows\n<${v}>\n"),
        Err(TemplateError::UnterminatedBlock)
    );
}

#[test]
fn nested_block_is_an_error() {
    let ex = Expander::new();
    assert_eq!(ex.expand("${outer\n${inner\n}\n}"), Err(TemplateError::NestedBlock));
}

#[test]
fn expansion_is_pure_two_runs_are_byte_identical() {
    let mut ex = Expander::new();
    ex.set_default("");
    ex.set_scalar("name", "area");
    let mut r = SubBinding::new();
    r.set_scalar("v", "1");
    ex.add_sub("rows", r);
    let template = "# ${name}\n${rows\n* ${v} ${unset}\n}\n";
    let first = ex.expand(template).unwrap();
    let second = ex.expand(template).unwrap();
    assert_eq!(first.as_bytes(), second.as_bytes());
}
