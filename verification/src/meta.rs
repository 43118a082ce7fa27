//! Command metadata as plain data, and its translation into template
//! bindings: one row per displayable option, one row per keyed positional,
//! and the synthesized usage-line fragment for the positionals.
use crate::expander::block_rows;
use crate::expander::EnvView;
use crate::expander::Expander;
use crate::expander::SubBinding;
use vstd::prelude::*;
use vstd::string::StringExecFns;

verus! {

/// One flag or option argument: how it is written, what it explains, and
/// what values it takes.
pub struct OptionMeta {
    /// The short flag character, if the option has a short form.
    pub short: Option<char>,
    /// The long flag name, without the leading dashes, if any.
    pub long: Option<String>,
    /// The help text, already rendered as markdown.
    pub help: Option<String>,
    /// The declared value names; the first one labels the value column.
    pub value_names: Vec<String>,
    /// The enumerated set of accepted values, when the option has one.
    pub possible_values: Vec<String>,
    /// The declared default values, when the option has any.
    pub default_values: Vec<String>,
    /// Whether the option consumes a value.
    pub takes_value: bool,
}

/// One positional argument.
pub struct PositionalMeta {
    /// The declared value names; the first one is the positional's key.
    pub value_names: Vec<String>,
    /// Whether the positional must be given.
    pub required: bool,
    /// Whether the positional is the greedy "last" one, written after `--`.
    pub last: bool,
    /// The help text.
    pub help: Option<String>,
}

/// Everything the help templates draw on: the program's identity and its
/// ordered option and positional descriptors.
pub struct CommandMeta {
    pub name: String,
    pub author: Option<String>,
    pub version: Option<String>,
    pub options: Vec<OptionMeta>,
    pub positionals: Vec<PositionalMeta>,
}

/// Relies on char::to_string: the returned string holds exactly the one
/// character.
#[verifier::external_body]
fn char_to_string(c: char) -> (r: String)
    ensures
        r@ == seq![c],
{
    c.to_string()
}

// ---------------------------------------------------------------------------
// What the bindings hold, as a mathematical model.
// ---------------------------------------------------------------------------

/// An option with neither a short nor a long form cannot be usefully
/// displayed and gets no row.
pub open spec fn displayable(o: OptionMeta) -> bool {
    o.short is Some || o.long is Some
}

/// A positional without a declared value name has no key and gets neither
/// a row nor a usage fragment.
pub open spec fn has_key(p: PositionalMeta) -> bool {
    p.value_names@.len() > 0
}

/// The comma-joined, backtick-quoted list of an option's accepted values.
pub open spec fn quoted_join(vs: Seq<String>) -> Seq<char>
    decreases vs.len(),
{
    if vs.len() == 0 {
        Seq::empty()
    } else if vs.len() == 1 {
        "`"@ + vs[0]@ + "`"@
    } else {
        quoted_join(vs.drop_last()) + ", "@ + "`"@ + vs.last()@ + "`"@
    }
}

/// The row an option contributes to the `option-lines` block: each cell is
/// present exactly when the option declares the data behind it, and the
/// default cell only beside an enumerated value set.
pub open spec fn option_row_map(o: OptionMeta) -> Map<Seq<char>, Seq<char>> {
    let m = Map::<Seq<char>, Seq<char>>::empty();
    let m = if o.short is Some {
        m.insert("short"@, "-"@ + seq![o.short->0])
    } else {
        m
    };
    let m = if o.long is Some {
        m.insert("long"@, "--"@ + o.long->0@)
    } else {
        m
    };
    let m = if o.help is Some {
        m.insert("help"@, o.help->0@)
    } else {
        m
    };
    let m = if o.takes_value && o.value_names@.len() > 0 {
        m.insert("value"@, o.value_names@[0]@)
    } else {
        m
    };
    let m = if o.possible_values@.len() > 0 {
        m.insert("possible_values"@, " Possible values: ["@ + quoted_join(o.possible_values@) + "]"@)
    } else {
        m
    };
    if o.possible_values@.len() > 0 && o.default_values@.len() > 0 {
        m.insert("default"@, " Default: `"@ + o.default_values@[0]@ + "`"@)
    } else {
        m
    }
}

/// The row a positional contributes to the `positional-lines` block.
pub open spec fn positional_row_map(p: PositionalMeta) -> Map<Seq<char>, Seq<char>> {
    let m = Map::<Seq<char>, Seq<char>>::empty().insert("key"@, p.value_names@[0]@);
    if p.help is Some {
        m.insert("help"@, p.help->0@)
    } else {
        m
    }
}

/// The usage-line fragment of one keyed positional: a leading space, then
/// the key, bracketed when the positional is optional, with the `-- `
/// marker when it is the greedy last one.
pub open spec fn usage_fragment_spec(p: PositionalMeta) -> Seq<char> {
    " "@ + (if !p.required {
        "["@
    } else {
        Seq::<char>::empty()
    }) + (if p.last {
        "-- "@
    } else {
        Seq::<char>::empty()
    }) + p.value_names@[0]@ + (if !p.required {
        "]"@
    } else {
        Seq::<char>::empty()
    })
}

/// The synthesized `positional-args` scalar: the keyed positionals'
/// fragments, in order.
pub open spec fn positional_args_spec(ps: Seq<PositionalMeta>) -> Seq<char>
    decreases ps.len(),
{
    if ps.len() == 0 {
        Seq::empty()
    } else {
        positional_args_spec(ps.drop_last()) + (if has_key(ps.last()) {
            usage_fragment_spec(ps.last())
        } else {
            Seq::<char>::empty()
        })
    }
}

/// The rows of the `option-lines` block: one per displayable option, in
/// the order the options were declared.
pub open spec fn option_rows(os: Seq<OptionMeta>) -> Seq<Map<Seq<char>, Seq<char>>>
    decreases os.len(),
{
    if os.len() == 0 {
        Seq::empty()
    } else {
        option_rows(os.drop_last()) + (if displayable(os.last()) {
            seq![option_row_map(os.last())]
        } else {
            Seq::<Map<Seq<char>, Seq<char>>>::empty()
        })
    }
}

/// The rows of the `positional-lines` block: one per keyed positional, in
/// declaration order.
pub open spec fn positional_rows(ps: Seq<PositionalMeta>) -> Seq<Map<Seq<char>, Seq<char>>>
    decreases ps.len(),
{
    if ps.len() == 0 {
        Seq::empty()
    } else {
        positional_rows(ps.drop_last()) + (if has_key(ps.last()) {
            seq![positional_row_map(ps.last())]
        } else {
            Seq::<Map<Seq<char>, Seq<char>>>::empty()
        })
    }
}

/// The top-level scalars the metadata seeds: the program name, the author
/// and version when known, and the synthesized usage fragment.
pub open spec fn command_scalars(meta: CommandMeta) -> Map<Seq<char>, Seq<char>> {
    let m = Map::<Seq<char>, Seq<char>>::empty().insert("name"@, meta.name@);
    let m = if meta.author is Some {
        m.insert("author"@, meta.author->0@)
    } else {
        m
    };
    let m = if meta.version is Some {
        m.insert("version"@, meta.version->0@)
    } else {
        m
    };
    m.insert("positional-args"@, positional_args_spec(meta.positionals@))
}

/// The blocks the metadata seeds; a block with no rows is simply absent.
pub open spec fn command_blocks(meta: CommandMeta) -> Map<
    Seq<char>,
    Seq<Map<Seq<char>, Seq<char>>>,
> {
    let m = Map::<Seq<char>, Seq<Map<Seq<char>, Seq<char>>>>::empty();
    let m = if option_rows(meta.options@).len() > 0 {
        m.insert("option-lines"@, option_rows(meta.options@))
    } else {
        m
    };
    if positional_rows(meta.positionals@).len() > 0 {
        m.insert("positional-lines"@, positional_rows(meta.positionals@))
    } else {
        m
    }
}

/// The whole binding environment the metadata seeds.
pub open spec fn command_env(meta: CommandMeta) -> EnvView {
    EnvView {
        default_value: ""@,
        scalars: command_scalars(meta),
        blocks: command_blocks(meta),
    }
}

// ---------------------------------------------------------------------------
// Building the bindings.
// ---------------------------------------------------------------------------

/// The comma-joined, backtick-quoted list of the given values.
pub fn quoted_join_string(vs: &Vec<String>) -> (r: String)
    ensures
        r@ == quoted_join(vs@),
{
    let n = vs.len();
    let mut out = String::new();
    let mut k: usize = 0;
    while k < n
        invariant
            n == vs@.len(),
            k <= n,
            out@ == quoted_join(vs@.take(k as int)),
        decreases n - k,
    {
        if k > 0 {
            out.append(", ");
        }
        out.append("`");
        out.append(vs[k].as_str());
        out.append("`");
        proof {
            assert(vs@.take(k as int + 1).drop_last() =~= vs@.take(k as int));
            assert(vs@.take(k as int + 1).last() == vs@[k as int]);
            if k == 0 {
                assert(out@ =~= "`"@ + vs@[0]@ + "`"@);
            }
        }
        k = k + 1;
    }
    proof {
        assert(vs@.take(n as int) =~= vs@);
    }
    out
}

/// The usage-line fragment of one keyed positional.
pub fn usage_fragment(p: &PositionalMeta) -> (r: String)
    requires
        has_key(*p),
    ensures
        r@ == usage_fragment_spec(*p),
{
    let mut out = " ".to_owned();
    if !p.required {
        out.append("[");
    }
    if p.last {
        out.append("-- ");
    }
    out.append(p.value_names[0].as_str());
    if !p.required {
        out.append("]");
    }
    proof {
        assert(out@ =~= usage_fragment_spec(*p));
    }
    out
}

/// The `option-lines` row of one displayable option.
pub fn option_row(o: &OptionMeta) -> (r: SubBinding)
    ensures
        r@ == option_row_map(*o),
{
    let mut row = SubBinding::new();
    match o.short {
        Some(c) => {
            let mut sf = "-".to_owned();
            let cs = char_to_string(c);
            sf.append(cs.as_str());
            row.set_scalar("short", sf.as_str());
        },
        None => {},
    }
    match &o.long {
        Some(l) => {
            let mut lf = "--".to_owned();
            lf.append(l.as_str());
            row.set_scalar("long", lf.as_str());
        },
        None => {},
    }
    match &o.help {
        Some(h) => {
            row.set_scalar("help", h.as_str());
        },
        None => {},
    }
    if o.takes_value && o.value_names.len() > 0 {
        row.set_scalar("value", o.value_names[0].as_str());
    }
    if o.possible_values.len() > 0 {
        let mut pv = " Possible values: [".to_owned();
        let joined = quoted_join_string(&o.possible_values);
        pv.append(joined.as_str());
        pv.append("]");
        row.set_scalar("possible_values", pv.as_str());
        if o.default_values.len() > 0 {
            let mut dv = " Default: `".to_owned();
            dv.append(o.default_values[0].as_str());
            dv.append("`");
            row.set_scalar("default", dv.as_str());
        }
    }
    row
}

/// The `positional-lines` row of one keyed positional.
pub fn positional_row(p: &PositionalMeta) -> (r: SubBinding)
    requires
        has_key(*p),
    ensures
        r@ == positional_row_map(*p),
{
    let mut row = SubBinding::new();
    row.set_scalar("key", p.value_names[0].as_str());
    match &p.help {
        Some(h) => {
            row.set_scalar("help", h.as_str());
        },
        None => {},
    }
    row
}

/// Translates the command metadata into the expander the help templates
/// are filled from, deterministically and without reordering either
/// descriptor list.
pub fn make_expander(meta: &CommandMeta) -> (r: Expander)
    ensures
        r@ == command_env(*meta),
{
    let mut ex = Expander::new();
    ex.set_default("");
    ex.set_scalar("name", meta.name.as_str());
    match &meta.author {
        Some(a) => {
            ex.set_scalar("author", a.as_str());
        },
        None => {},
    }
    match &meta.version {
        Some(v) => {
            ex.set_scalar("version", v.as_str());
        },
        None => {},
    }
    let ghost scalars0 = ex@.scalars;
    let ghost env_default = ex@.default_value;
    let on = meta.options.len();
    let mut k: usize = 0;
    while k < on
        invariant
            on == meta.options@.len(),
            k <= on,
            ex@.default_value == env_default,
            ex@.scalars == scalars0,
            ex@.blocks == (if option_rows(meta.options@.take(k as int)).len() > 0 {
                Map::<Seq<char>, Seq<Map<Seq<char>, Seq<char>>>>::empty().insert(
                    "option-lines"@,
                    option_rows(meta.options@.take(k as int)),
                )
            } else {
                Map::<Seq<char>, Seq<Map<Seq<char>, Seq<char>>>>::empty()
            }),
        decreases on - k,
    {
        let ghost taken = meta.options@.take(k as int);
        let ghost taken1 = meta.options@.take(k as int + 1);
        proof {
            assert(taken1.drop_last() =~= taken);
            assert(taken1.last() == meta.options@[k as int]);
        }
        let o = &meta.options[k];
        if o.short.is_some() || o.long.is_some() {
            let row = option_row(o);
            let ghost before = ex@;
            ex.add_sub("option-lines", row);
            proof {
                assert(option_rows(taken1) =~= option_rows(taken).push(
                    option_row_map(meta.options@[k as int]),
                ));
                assert(block_rows(before, "option-lines"@) == option_rows(taken));
                assert(ex@.blocks =~= (if option_rows(taken1).len() > 0 {
                    Map::<Seq<char>, Seq<Map<Seq<char>, Seq<char>>>>::empty().insert(
                        "option-lines"@,
                        option_rows(taken1),
                    )
                } else {
                    Map::<Seq<char>, Seq<Map<Seq<char>, Seq<char>>>>::empty()
                }));
            }
        } else {
            proof {
                assert(option_rows(taken1) =~= option_rows(taken));
            }
        }
        k = k + 1;
    }
    proof {
        assert(meta.options@.take(on as int) =~= meta.options@);
    }
    let ghost blocks1 = ex@.blocks;
    let mut args = String::new();
    let pn = meta.positionals.len();
    let mut k: usize = 0;
    while k < pn
        invariant
            pn == meta.positionals@.len(),
            k <= pn,
            ex@.default_value == env_default,
            ex@.scalars == scalars0,
            blocks1 == (if option_rows(meta.options@).len() > 0 {
                Map::<Seq<char>, Seq<Map<Seq<char>, Seq<char>>>>::empty().insert(
                    "option-lines"@,
                    option_rows(meta.options@),
                )
            } else {
                Map::<Seq<char>, Seq<Map<Seq<char>, Seq<char>>>>::empty()
            }),
            ex@.blocks == (if positional_rows(meta.positionals@.take(k as int)).len() > 0 {
                blocks1.insert(
                    "positional-lines"@,
                    positional_rows(meta.positionals@.take(k as int)),
                )
            } else {
                blocks1
            }),
            args@ == positional_args_spec(meta.positionals@.take(k as int)),
        decreases pn - k,
    {
        let ghost taken = meta.positionals@.take(k as int);
        let ghost taken1 = meta.positionals@.take(k as int + 1);
        proof {
            assert(taken1.drop_last() =~= taken);
            assert(taken1.last() == meta.positionals@[k as int]);
        }
        let p = &meta.positionals[k];
        if p.value_names.len() > 0 {
            let frag = usage_fragment(p);
            args.append(frag.as_str());
            let row = positional_row(p);
            let ghost before = ex@;
            ex.add_sub("positional-lines", row);
            proof {
                reveal_strlit("option-lines");
                reveal_strlit("positional-lines");
                assert("option-lines"@.len() == 12);
                assert("positional-lines"@.len() == 16);
                assert("option-lines"@ != "positional-lines"@);
                assert(positional_rows(taken1) =~= positional_rows(taken).push(
                    positional_row_map(meta.positionals@[k as int]),
                ));
                assert(block_rows(before, "positional-lines"@) == positional_rows(taken));
                assert(ex@.blocks =~= (if positional_rows(taken1).len() > 0 {
                    blocks1.insert("positional-lines"@, positional_rows(taken1))
                } else {
                    blocks1
                }));
            }
        } else {
            proof {
                assert(positional_rows(taken1) =~= positional_rows(taken));
                assert(args@ + Seq::<char>::empty() =~= args@);
            }
        }
        k = k + 1;
    }
    proof {
        assert(meta.positionals@.take(pn as int) =~= meta.positionals@);
    }
    ex.set_scalar("positional-args", args.as_str());
    proof {
        assert(ex@ =~= command_env(*meta));
    }
    ex
}

// ---------------------------------------------------------------------------
// Laws.
// ---------------------------------------------------------------------------

/// Law: an optional positional renders its usage fragment enclosed in
/// brackets and a required one renders it bare; the greedy "last" marker
/// `-- ` precedes the key either way.
pub proof fn lemma_usage_fragment_shape(p: PositionalMeta)
    requires
        has_key(p),
    ensures
        ({
            let marker: Seq<char> = if p.last {
                "-- "@
            } else {
                Seq::<char>::empty()
            };
            &&& (!p.required ==> usage_fragment_spec(p) == " "@ + "["@ + marker
                + p.value_names@[0]@ + "]"@)
            &&& (p.required ==> usage_fragment_spec(p) == " "@ + marker + p.value_names@[0]@)
        }),
{
    let marker: Seq<char> = if p.last {
        "-- "@
    } else {
        Seq::<char>::empty()
    };
    if p.required {
        assert(usage_fragment_spec(p) =~= " "@ + marker + p.value_names@[0]@);
    } else {
        assert(usage_fragment_spec(p) =~= " "@ + "["@ + marker + p.value_names@[0]@ + "]"@);
    }
}

/// Law: the possible-values cell is the bracketed, comma-joined,
/// backtick-quoted list of the declared values, and the default cell is
/// rendered only beside it: an option with a default value but no
/// enumerated values shows no default.
pub proof fn lemma_option_row_default_quirk(o: OptionMeta)
    ensures
        o.possible_values@.len() == 0 ==> !option_row_map(o).contains_key("default"@),
        o.possible_values@.len() > 0 ==> option_row_map(o)["possible_values"@]
            == " Possible values: ["@ + quoted_join(o.possible_values@) + "]"@,
        o.possible_values@.len() > 0 && o.default_values@.len() > 0 ==> option_row_map(o)[
            "default"@] == " Default: `"@ + o.default_values@[0]@ + "`"@,
{
    reveal_strlit("short");
    reveal_strlit("long");
    reveal_strlit("help");
    reveal_strlit("value");
    reveal_strlit("possible_values");
    reveal_strlit("default");
    assert("short"@.len() == 5);
    assert("long"@.len() == 4);
    assert("help"@.len() == 4);
    assert("value"@.len() == 5);
    assert("possible_values"@.len() == 15);
    assert("default"@.len() == 7);
    assert("long"@[0] == 'l' && "help"@[0] == 'h');
    assert("short"@[0] == 's' && "value"@[0] == 'v');
    assert("default"@ != "short"@ && "default"@ != "long"@ && "default"@ != "help"@
        && "default"@ != "value"@ && "default"@ != "possible_values"@);
    assert("possible_values"@ != "short"@ && "possible_values"@ != "long"@
        && "possible_values"@ != "help"@ && "possible_values"@ != "value"@);
}

} // verus!
