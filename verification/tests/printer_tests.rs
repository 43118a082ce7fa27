use clap_help::expander::TemplateError;
use clap_help::meta::make_expander;
use clap_help::meta::usage_fragment;
use clap_help::meta::CommandMeta;
use clap_help::meta::OptionMeta;
use clap_help::meta::PositionalMeta;
use clap_help::printer::equalized_width;
use clap_help::printer::Printer;
use clap_help::printer::TEMPLATE_OPTIONS;
use clap_help::printer::TEMPLATE_TITLE;

fn opt(
    short: Option<char>,
    long: Option<&str>,
    help: &str,
    possible: &[&str],
    default: &[&str],
) -> OptionMeta {
    OptionMeta {
        short,
        long: long.map(|s| s.to_string()),
        help: Some(help.to_string()),
        value_names: Vec::new(),
        possible_values: possible.iter().map(|s| s.to_string()).collect(),
        default_values: default.iter().map(|s| s.to_string()).collect(),
        takes_value: false,
    }
}

fn pos(name: &str, required: bool, last: bool, help: &str) -> PositionalMeta {
    PositionalMeta {
        value_names: vec![name.to_string()],
        required,
        last,
        help: Some(help.to_string()),
    }
}

fn area_meta() -> CommandMeta {
    CommandMeta {
        name: "area".to_string(),
        author: Some("dys".to_string()),
        version: Some("1.0".to_string()),
        options: vec![
            opt(Some('h'), Some("height"), "Height", &[], &["9"]),
            opt(Some('w'), Some("width"), "Width", &[], &["3"]),
        ],
        positionals: Vec::new(),
    }
}

#[test]
fn optional_positional_is_bracketed() {
    let p = pos("WIDTH", false, false, "the width");
    assert_eq!(usage_fragment(&p), " [WIDTH]");
}

#[test]
fn required_positional_is_bare() {
    let p = pos("WIDTH", true, false, "the width");
    assert_eq!(usage_fragment(&p), " WIDTH");
}

#[test]
fn last_positional_carries_marker_required_or_not() {
    let required_last = pos("REST", true, true, "the rest");
    assert_eq!(usage_fragment(&required_last), " -- REST");
    let optional_last = pos("REST", false, true, "the rest");
    assert_eq!(usage_fragment(&optional_last), " [-- REST]");
}

#[test]
fn positional_args_concatenates_fragments_in_order() {
    let meta = CommandMeta {
        name: "prog".to_string(),
        author: None,
        version: None,
        options: Vec::new(),
        positionals: vec![
            pos("WIDTH", false, false, "w"),
            pos("HEIGHT", true, false, "h"),
        ],
    };
    let ex = make_expander(&meta);
    let out = ex.expand("${name}${positional-args}").unwrap();
    assert_eq!(out, "prog [WIDTH] HEIGHT");
}

#[test]
fn positional_rows_render_key_and_help() {
    let meta = CommandMeta {
        name: "prog".to_string(),
        author: None,
        version: None,
        options: Vec::new(),
        positionals: vec![pos("WIDTH", false, false, "the width")],
    };
    let ex = make_expander(&meta);
    let out = ex.expand("${positional-lines\n* `${key}` : ${help}\n}").unwrap();
    assert_eq!(out, "* `WIDTH` : the width\n");
}

#[test]
fn possible_values_render_as_quoted_bracketed_list_with_default() {
    let meta = CommandMeta {
        name: "prog".to_string(),
        author: None,
        version: None,
        options: vec![opt(
            None,
            Some("strategy"),
            "How to work",
            &["fast", "precise"],
            &["fast"],
        )],
        positionals: Vec::new(),
    };
    let ex = make_expander(&meta);
    let out = ex.expand(TEMPLATE_OPTIONS).unwrap();
    assert!(out.contains(" Possible values: [`fast`, `precise`]"));
    assert!(out.contains(" Default: `fast`"));
    assert!(out.contains("|--strategy|"));
}

#[test]
fn default_without_possible_values_is_not_rendered() {
    let meta = area_meta();
    let ex = make_expander(&meta);
    let out = ex.expand(TEMPLATE_OPTIONS).unwrap();
    assert!(!out.contains("Default"));
    assert!(out.contains("|-h|--height||Height|"));
    assert!(out.contains("|-w|--width||Width|"));
}

#[test]
fn option_without_short_and_long_gets_no_row() {
    let meta = CommandMeta {
        name: "prog".to_string(),
        author: None,
        version: None,
        options: vec![opt(None, None, "hidden", &[], &[])],
        positionals: Vec::new(),
    };
    let ex = make_expander(&meta);
    let out = ex.expand("${option-lines\n|${short}|${long}|\n}").unwrap();
    assert_eq!(out, "");
}

#[test]
fn value_name_appears_only_when_a_value_is_taken() {
    let mut with_value = opt(Some('f'), Some("file"), "the file", &[], &[]);
    with_value.value_names = vec!["PATH".to_string()];
    with_value.takes_value = true;
    let meta = CommandMeta {
        name: "prog".to_string(),
        author: None,
        version: None,
        options: vec![with_value],
        positionals: Vec::new(),
    };
    let ex = make_expander(&meta);
    let out = ex.expand("${option-lines\n|${short}|${long}|${value}|\n}").unwrap();
    assert_eq!(out, "|-f|--file|PATH|\n");
}

#[test]
fn area_help_sections_match_the_scenario() {
    let meta = area_meta();
    let printer = Printer::new(&meta);
    let texts = printer.expand_sections().unwrap();
    // title, author, usage, positionals, options: the five default templates
    // in the default key order (introduction and bugs have no template).
    assert_eq!(texts.len(), 5);
    assert!(texts[0].contains("area"));
    assert!(texts[0].contains("1.0"));
    assert!(texts[1].contains("dys"));
    assert!(texts[2].contains("`area [options]`"));
    assert!(texts[4].contains("|-h|--height||Height|"));
    assert!(texts[4].contains("|-w|--width||Width|"));
    assert!(!texts[4].contains("Default"));
}

#[test]
fn section_without_template_is_skipped_and_without_unregisters() {
    let meta = area_meta();
    let printer = Printer::new(&meta).without("options").without("author");
    let texts = printer.expand_sections().unwrap();
    assert_eq!(texts.len(), 3);
    assert!(!texts.iter().any(|t| t.contains("Options")));
}

#[test]
fn with_registers_and_replaces_templates() {
    let meta = area_meta();
    let printer = Printer::new(&meta)
        .with("introduction", "Computes ${name}s.")
        .with("title", "== ${name} ==");
    let texts = printer.expand_sections().unwrap();
    assert_eq!(texts[0], "== area ==");
    assert!(texts.iter().any(|t| t == "Computes areas."));
}

#[test]
fn template_getter_follows_registration() {
    let meta = area_meta();
    let mut printer = Printer::new(&meta);
    assert_eq!(printer.template("title").map(|s| s.as_str()), Some(TEMPLATE_TITLE));
    assert!(printer.template("introduction").is_none());
    printer.set_template("introduction", "hi");
    assert_eq!(printer.template("introduction").map(|s| s.as_str()), Some("hi"));
}

#[test]
fn key_order_governs_section_order() {
    let meta = area_meta();
    let mut printer = Printer::new(&meta);
    printer.template_keys_mut().clear();
    printer.template_keys_mut().push("usage".to_string());
    printer.template_keys_mut().push("title".to_string());
    let texts = printer.expand_sections().unwrap();
    assert_eq!(texts.len(), 2);
    assert!(texts[0].contains("Usage"));
    assert!(texts[1].contains("area"));
}

#[test]
fn expander_mut_adds_variables_for_custom_templates() {
    let meta = area_meta();
    let mut printer = Printer::new(&meta);
    printer.expander_mut().set_scalar("unit", "square meters");
    let printer = printer.with("introduction", "All in ${unit}.");
    let texts = printer.expand_sections().unwrap();
    assert!(texts.iter().any(|t| t == "All in square meters."));
}

#[test]
fn a_malformed_template_surfaces_from_print_help() {
    let meta = area_meta();
    let printer = Printer::new(&meta).with("usage", "broken ${oops");
    assert_eq!(printer.expand_sections(), Err(TemplateError::UnterminatedPlaceholder));
    assert_eq!(printer.print_help(), Err(TemplateError::UnterminatedPlaceholder));
}

#[test]
fn print_help_prints_in_both_modes() {
    let meta = area_meta();
    let mut printer = Printer::new(&meta).with_skin(termimad::MadSkin::no_style());
    assert_eq!(printer.print_help(), Ok(()));
    printer.full_width = true;
    assert_eq!(printer.print_help(), Ok(()));
    assert_eq!(printer.print_template("plain ${name}"), Ok(()));
    assert_eq!(
        printer.print_template("broken ${name"),
        Err(TemplateError::UnterminatedPlaceholder)
    );
}

#[test]
fn max_width_is_recorded() {
    let meta = area_meta();
    let printer = Printer::new(&meta).with_max_width(100);
    assert_eq!(printer.max_width, Some(100));
    assert_eq!(printer.print_help(), Ok(()));
}

#[test]
fn equalized_width_is_the_maximum_content_width() {
    assert_eq!(equalized_width(&vec![3, 7, 5]), 7);
    assert_eq!(equalized_width(&vec![4]), 4);
    assert_eq!(equalized_width(&Vec::new()), 0);
}

#[test]
fn laid_out_sections_fit_the_layout_width() {
    let meta = area_meta();
    let printer = Printer::new(&meta);
    let texts = printer.expand_sections().unwrap();
    let skin = termimad::MadSkin::no_style();
    let mut widest = 0;
    for text in &texts {
        let fmt = termimad::FmtText::from(&skin, text, Some(80));
        let cw = fmt.content_width();
        assert!(cw <= 80);
        widest = widest.max(cw);
    }
    let widths: Vec<usize> = texts
        .iter()
        .map(|t| termimad::FmtText::from(&skin, t, Some(80)).content_width())
        .collect();
    assert_eq!(equalized_width(&widths), widest);
}
