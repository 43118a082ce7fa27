//! The help printer: a registry of named section templates with an
//! explicit print order, the expander the sections are filled from, and
//! the two rendering modes — immediate full-width printing, and
//! content-width equalization across all sections.
use crate::expander::assoc_map;
use crate::expander::assoc_value;
use crate::expander::expansion;
use crate::expander::lemma_assoc_found;
use crate::expander::lemma_assoc_none;
use crate::expander::lemma_assoc_push;
use crate::expander::EnvView;
use crate::expander::Expander;
use crate::expander::TemplateError;
use crate::meta::command_env;
use crate::meta::make_expander;
use crate::meta::CommandMeta;
use crate::term::fmt_content_width;
use crate::term::fmt_set_rendering_width;
use crate::term::fmt_text_from;
use crate::term::print_fmt_text;
use crate::term::skin_default;
use crate::term::skin_print_text;
use crate::term::term_width;
use vstd::prelude::*;

verus! {

/// Default template for the "title" section.
pub const TEMPLATE_TITLE: &'static str = "# **${name}** ${version}";

/// Default template for the "author" section.
pub const TEMPLATE_AUTHOR: &'static str = "\n*by* ${author}\n";

/// Default template for the "usage" section.
pub const TEMPLATE_USAGE: &'static str = "\n**Usage: ** `${name} [options]${positional-args}`\n";

/// Default template for the "positionals" section.
pub const TEMPLATE_POSITIONALS: &'static str = "\n${positional-lines\n* `${key}` : ${help}\n}\n";

/// Default template for the "options" section.
pub const TEMPLATE_OPTIONS: &'static str = "\n**Options:**\n|:-:|:-:|:-:|:-|\n|short|long|value|description|\n|:-:|:-|:-:|:-|\n${option-lines\n|${short}|${long}|${value}|${help}${possible_values}${default}|\n}\n|-\n";

/// The views of an ordered key list.
pub open spec fn keys_view(keys: Seq<String>) -> Seq<Seq<char>> {
    keys.map_values(|k: String| k@)
}

/// The texts of the sections, in key order: for each key that has a
/// template, the template's expansion; keys without a template are
/// skipped; a malformed template is the first error met.
pub open spec fn render_sections(
    keys: Seq<String>,
    tmap: Map<Seq<char>, Seq<char>>,
    env: EnvView,
) -> Result<Seq<Seq<char>>, TemplateError>
    decreases keys.len(),
{
    if keys.len() == 0 {
        Ok(Seq::empty())
    } else if tmap.contains_key(keys.first()@) {
        match expansion(tmap[keys.first()@], env) {
            Ok(t) => match render_sections(keys.drop_first(), tmap, env) {
                Ok(rest) => Ok(seq![t] + rest),
                Err(e) => Err(e),
            },
            Err(e) => Err(e),
        }
    } else {
        render_sections(keys.drop_first(), tmap, env)
    }
}

/// The views of rendered section texts.
pub open spec fn texts_view(texts: Seq<String>) -> Seq<Seq<char>> {
    texts.map_values(|t: String| t@)
}

/// The largest value in a sequence of widths, or 0 when there is none.
pub open spec fn seq_max(s: Seq<usize>) -> int
    decreases s.len(),
{
    if s.len() == 0 {
        0
    } else {
        let rest = seq_max(s.drop_last());
        if s.last() as int > rest {
            s.last() as int
        } else {
            rest
        }
    }
}

/// The common rendering width for a set of measured content widths:
/// the widest block's content width.
pub fn equalized_width(widths: &Vec<usize>) -> (r: usize)
    ensures
        r as int == seq_max(widths@),
{
    let mut r: usize = 0;
    let mut i: usize = 0;
    while i < widths.len()
        invariant
            i <= widths.len(),
            r as int == seq_max(widths@.take(i as int)),
        decreases widths.len() - i,
    {
        assert(widths@.take(i as int + 1).drop_last() =~= widths@.take(i as int));
        if widths[i] > r {
            r = widths[i];
        }
        i = i + 1;
    }
    assert(widths@.take(widths@.len() as int) =~= widths@);
    r
}

/// Law: the equalized width is the widest measured content width: no
/// block's content width exceeds it, some block has exactly that width
/// when any block exists, and it stays within any bound — in particular
/// the width the blocks were laid out at — that bounds every block.
pub proof fn lemma_equalized_width_is_max(widths: Seq<usize>, cap: int)
    requires
        forall|j: int| 0 <= j < widths.len() ==> widths[j] <= cap,
    ensures
        forall|j: int| 0 <= j < widths.len() ==> widths[j] <= seq_max(widths),
        widths.len() > 0 ==> exists|j: int|
            0 <= j < widths.len() && widths[j] as int == seq_max(widths),
        widths.len() > 0 ==> seq_max(widths) <= cap,
    decreases widths.len(),
{
    if widths.len() > 0 {
        lemma_equalized_width_is_max(widths.drop_last(), cap);
        assert forall|j: int| 0 <= j < widths.len() implies widths[j] <= seq_max(widths) by {
            if j < widths.len() - 1 {
                assert(widths.drop_last()[j] == widths[j]);
            }
        }
        if widths.last() as int > seq_max(widths.drop_last()) {
            assert(widths[widths.len() - 1] as int == seq_max(widths));
        } else {
            if widths.len() == 1 {
                assert(seq_max(widths.drop_last()) == 0);
                assert(widths[0] as int == seq_max(widths));
            } else {
                let j = choose|j: int|
                    0 <= j < widths.drop_last().len() && widths.drop_last()[j] as int == seq_max(
                        widths.drop_last(),
                    );
                assert(widths[j] as int == seq_max(widths));
            }
        }
    }
}

/// An object configured once and asked to print the help of a command:
/// it owns the skin, the expander seeded from the command's metadata, the
/// registered templates and the order their sections print in.
pub struct Printer {
    /// The skin the markup engine styles the output with.
    pub skin: termimad::MadSkin,
    /// The bindings the templates are expanded against; add or override
    /// variables here for custom templates.
    pub expander: Expander,
    /// The ordered section keys; insert, remove or reorder them to change
    /// what prints. A key without a registered template is skipped.
    pub template_keys: Vec<String>,
    /// The registered templates, as (key, template) entries; a later entry
    /// shadows an earlier one of the same key. `set_template`, `with` and
    /// `without` keep this list consistent with `templates_map`.
    pub templates: Vec<(String, String)>,
    /// Print each section at the full terminal width instead of equalizing
    /// the sections' content widths.
    pub full_width: bool,
    /// An upper bound on the rendering width, for very wide terminals.
    pub max_width: Option<usize>,
}

impl Printer {
    /// The mapping from section key to registered template.
    pub open spec fn templates_map(&self) -> Map<Seq<char>, Seq<char>> {
        assoc_map(self.templates@)
    }

    /// The sections this printer renders, in order: what `print_help`
    /// prints, as text.
    pub open spec fn sections(&self) -> Result<Seq<Seq<char>>, TemplateError> {
        render_sections(self.template_keys@, self.templates_map(), self.expander@)
    }

    /// A printer for the given command metadata, with the default
    /// templates, the default key order, the default skin, equalized
    /// rendering and no width bound.
    pub fn new(meta: &CommandMeta) -> (r: Printer)
        ensures
            r.expander@ == command_env(*meta),
            r.templates_map() == Map::<Seq<char>, Seq<char>>::empty().insert(
                "title"@,
                TEMPLATE_TITLE@,
            ).insert("author"@, TEMPLATE_AUTHOR@).insert("usage"@, TEMPLATE_USAGE@).insert(
                "positionals"@,
                TEMPLATE_POSITIONALS@,
            ).insert("options"@, TEMPLATE_OPTIONS@),
            keys_view(r.template_keys@) == seq![
                "title"@,
                "author"@,
                "introduction"@,
                "usage"@,
                "positionals"@,
                "options"@,
                "bugs"@,
            ],
            r.full_width == false,
            r.max_width is None,
    {
        let expander = make_expander(meta);
        let mut templates: Vec<(String, String)> = Vec::new();
        proof {
            assert(assoc_map(templates@) =~= Map::<Seq<char>, Seq<char>>::empty());
        }
        let entry_title = ("title".to_owned(), TEMPLATE_TITLE.to_owned());
        proof {
            lemma_assoc_push(templates@, entry_title);
        }
        templates.push(entry_title);
        let entry_author = ("author".to_owned(), TEMPLATE_AUTHOR.to_owned());
        proof {
            lemma_assoc_push(templates@, entry_author);
        }
        templates.push(entry_author);
        let entry_usage = ("usage".to_owned(), TEMPLATE_USAGE.to_owned());
        proof {
            lemma_assoc_push(templates@, entry_usage);
        }
        templates.push(entry_usage);
        let entry_positionals = ("positionals".to_owned(), TEMPLATE_POSITIONALS.to_owned());
        proof {
            lemma_assoc_push(templates@, entry_positionals);
        }
        templates.push(entry_positionals);
        let entry_options = ("options".to_owned(), TEMPLATE_OPTIONS.to_owned());
        proof {
            lemma_assoc_push(templates@, entry_options);
        }
        templates.push(entry_options);
        let mut template_keys: Vec<String> = Vec::new();
        template_keys.push("title".to_owned());
        template_keys.push("author".to_owned());
        template_keys.push("introduction".to_owned());
        template_keys.push("usage".to_owned());
        template_keys.push("positionals".to_owned());
        template_keys.push("options".to_owned());
        template_keys.push("bugs".to_owned());
        proof {
            assert(keys_view(template_keys@) =~= seq![
                "title"@,
                "author"@,
                "introduction"@,
                "usage"@,
                "positionals"@,
                "options"@,
                "bugs"@,
            ]);
        }
        Printer {
            skin: skin_default(),
            expander,
            template_keys,
            templates,
            full_width: false,
            max_width: None,
        }
    }

    /// Registers `template` under `key`, inserting or replacing: no two
    /// templates ever share a key.
    pub fn set_template(&mut self, key: &str, template: &str)
        ensures
            final(self).templates_map() == old(self).templates_map().insert(key@, template@),
            final(self).skin == old(self).skin,
            final(self).expander == old(self).expander,
            final(self).template_keys == old(self).template_keys,
            final(self).full_width == old(self).full_width,
            final(self).max_width == old(self).max_width,
    {
        let entry = (key.to_owned(), template.to_owned());
        proof {
            lemma_assoc_push(self.templates@, entry);
        }
        self.templates.push(entry);
    }

    /// Registers `template` under `key` and hands the printer back, for
    /// chained configuration.
    pub fn with(self, key: &str, template: &str) -> (r: Printer)
        ensures
            r.templates_map() == self.templates_map().insert(key@, template@),
            r.skin == self.skin,
            r.expander == self.expander,
            r.template_keys == self.template_keys,
            r.full_width == self.full_width,
            r.max_width == self.max_width,
    {
        let mut p = self;
        p.set_template(key, template);
        p
    }

    /// Unregisters the template under `key`; its section prints nothing
    /// from then on, while the key may stay in the order list.
    pub fn without(self, key: &str) -> (r: Printer)
        ensures
            r.templates_map() == self.templates_map().remove(key@),
            r.skin == self.skin,
            r.expander == self.expander,
            r.template_keys == self.template_keys,
            r.full_width == self.full_width,
            r.max_width == self.max_width,
    {
        let mut p = self;
        let n = p.templates.len();
        let mut kept: Vec<(String, String)> = Vec::new();
        let mut i: usize = 0;
        while i < n
            invariant
                n == p.templates@.len(),
                i <= n,
                forall|nm: Seq<char>|
                    #[trigger] assoc_value(kept@, nm) == if nm == key@ {
                        None::<Seq<char>>
                    } else {
                        assoc_value(p.templates@.take(i as int), nm)
                    },
            decreases n - i,
        {
            let ghost kept0 = kept@;
            let e = &p.templates[i];
            let keep = !crate::expander::str_eq_str(e.0.as_str(), key);
            if keep {
                let entry = (e.0.clone(), e.1.clone());
                kept.push(entry);
            }
            proof {
                let taken1 = p.templates@.take(i as int + 1);
                assert(taken1.drop_last() =~= p.templates@.take(i as int));
                assert(taken1.last() == p.templates@[i as int]);
                if keep {
                    assert(kept@.drop_last() =~= kept0);
                }
                assert forall|nm: Seq<char>|
                    #[trigger] assoc_value(kept@, nm) == (if nm == key@ {
                        None::<Seq<char>>
                    } else {
                        assoc_value(taken1, nm)
                    }) by {
                    assert(assoc_value(kept0, nm) == (if nm == key@ {
                        None::<Seq<char>>
                    } else {
                        assoc_value(p.templates@.take(i as int), nm)
                    }));
                    if keep {
                        assert(kept@.last().0@ == p.templates@[i as int].0@);
                        assert(kept@.last().1@ == p.templates@[i as int].1@);
                    }
                }
            }
            i = i + 1;
        }
        proof {
            assert(p.templates@.take(n as int) =~= p.templates@);
            assert(assoc_map(kept@) =~= assoc_map(p.templates@).remove(key@));
        }
        p.templates = kept;
        p
    }

    /// Uses the provided skin in place of the current one.
    pub fn with_skin(self, skin: termimad::MadSkin) -> (r: Printer)
        ensures
            r.skin == skin,
            r.expander == self.expander,
            r.templates_map() == self.templates_map(),
            r.template_keys == self.template_keys,
            r.full_width == self.full_width,
            r.max_width == self.max_width,
    {
        let mut p = self;
        p.skin = skin;
        p
    }

    /// Bounds the rendering width, so that the whole terminal width is not
    /// used on very wide terminals.
    pub fn with_max_width(self, w: usize) -> (r: Printer)
        ensures
            r.max_width == Some(w),
            r.skin == self.skin,
            r.expander == self.expander,
            r.templates_map() == self.templates_map(),
            r.template_keys == self.template_keys,
            r.full_width == self.full_width,
    {
        let mut p = self;
        p.max_width = Some(w);
        p
    }

    /// A mutable reference to the current skin, so that it can be
    /// modified.
    pub fn skin_mut(&mut self) -> (r: &mut termimad::MadSkin)
        ensures
            *r == old(self).skin,
            final(self).skin == *final(r),
            final(self).expander == old(self).expander,
            final(self).templates == old(self).templates,
            final(self).template_keys == old(self).template_keys,
            final(self).full_width == old(self).full_width,
            final(self).max_width == old(self).max_width,
    {
        &mut self.skin
    }

    /// A mutable reference to the ordered list of section keys, so that
    /// new keys can be inserted or the order changed. A key without a
    /// matching template is just ignored.
    pub fn template_keys_mut(&mut self) -> (r: &mut Vec<String>)
        ensures
            *r == old(self).template_keys,
            final(self).template_keys == *final(r),
            final(self).skin == old(self).skin,
            final(self).expander == old(self).expander,
            final(self).templates == old(self).templates,
            final(self).full_width == old(self).full_width,
            final(self).max_width == old(self).max_width,
    {
        &mut self.template_keys
    }

    /// The earlier name of `template_keys_mut`, kept for callers that
    /// still use it.
    pub fn template_order_mut(&mut self) -> (r: &mut Vec<String>)
        ensures
            *r == old(self).template_keys,
            final(self).template_keys == *final(r),
            final(self).skin == old(self).skin,
            final(self).expander == old(self).expander,
            final(self).templates == old(self).templates,
            final(self).full_width == old(self).full_width,
            final(self).max_width == old(self).max_width,
    {
        &mut self.template_keys
    }

    /// A mutable reference to the expander, so that the variables the
    /// help templates use can be overloaded, or new variables added for
    /// custom templates.
    pub fn expander_mut(&mut self) -> (r: &mut Expander)
        ensures
            *r == old(self).expander,
            final(self).expander == *final(r),
            final(self).skin == old(self).skin,
            final(self).templates == old(self).templates,
            final(self).template_keys == old(self).template_keys,
            final(self).full_width == old(self).full_width,
            final(self).max_width == old(self).max_width,
    {
        &mut self.expander
    }

    /// The template registered under `key`, if any.
    pub fn template<'a>(&'a self, key: &str) -> (r: Option<&'a String>)
        ensures
            match r {
                Some(t) => self.templates_map().contains_key(key@) && self.templates_map()[key@]
                    == t@,
                None => !self.templates_map().contains_key(key@),
            },
    {
        let n = self.templates.len();
        let mut i: usize = n;
        while i > 0
            invariant
                n == self.templates@.len(),
                i <= n,
                forall|j: int| i <= j < n ==> self.templates@[j].0@ != key@,
            decreases i,
        {
            i = i - 1;
            if crate::expander::str_eq_str(self.templates[i].0.as_str(), key) {
                proof {
                    lemma_assoc_found(self.templates@, i as int, key@);
                }
                return Some(&self.templates[i].1);
            }
        }
        proof {
            lemma_assoc_none(self.templates@, key@);
        }
        None
    }

    /// Expands every section that has a template, in key order: the texts
    /// `print_help` prints, before the markup engine lays them out.
    pub fn expand_sections(&self) -> (r: Result<Vec<String>, TemplateError>)
        ensures
            match r {
                Ok(texts) => self.sections() == Ok::<Seq<Seq<char>>, TemplateError>(
                    texts_view(texts@),
                ),
                Err(e) => self.sections() == Err::<Seq<Seq<char>>, TemplateError>(e),
            },
    {
        let n = self.template_keys.len();
        let mut texts: Vec<String> = Vec::new();
        proof {
            assert(self.template_keys@.skip(0) =~= self.template_keys@);
            match render_sections(self.template_keys@, self.templates_map(), self.expander@) {
                Ok(rest) => {
                    assert(texts_view(texts@) =~= Seq::<Seq<char>>::empty());
                    assert(Seq::<Seq<char>>::empty() + rest =~= rest);
                },
                Err(_) => {},
            }
        }
        let mut i: usize = 0;
        while i < n
            invariant
                n == self.template_keys@.len(),
                match render_sections(
                    self.template_keys@.skip(i as int),
                    self.templates_map(),
                    self.expander@,
                ) {
                    Ok(rest) => self.sections() is Ok && self.sections()->Ok_0 == texts_view(
                        texts@,
                    ) + rest,
                    Err(e) => self.sections() == Err::<Seq<Seq<char>>, TemplateError>(e),
                },
                i <= n,
            decreases n - i,
        {
            let ghost keys = self.template_keys@;
            proof {
                assert(keys.skip(i as int).first() == keys[i as int]);
                assert(keys.skip(i as int).drop_first() =~= keys.skip(i as int + 1));
            }
            let key = &self.template_keys[i];
            match self.template(key.as_str()) {
                Some(tpl) => {
                    match self.expander.expand(tpl.as_str()) {
                        Ok(text) => {
                            let ghost texts0 = texts@;
                            texts.push(text);
                            proof {
                                assert(texts_view(texts@) =~= texts_view(texts0).push(
                                    texts@.last()@,
                                ));
                                assert(texts_view(texts0) + (seq![texts@.last()@]
                                    + render_sections(
                                    keys.skip(i as int + 1),
                                    self.templates_map(),
                                    self.expander@,
                                )->Ok_0) =~= texts_view(texts@) + render_sections(
                                    keys.skip(i as int + 1),
                                    self.templates_map(),
                                    self.expander@,
                                )->Ok_0);
                            }
                        },
                        Err(e) => {
                            return Err(e);
                        },
                    }
                },
                None => {},
            }
            i = i + 1;
        }
        proof {
            assert(self.template_keys@.skip(n as int) =~= Seq::<String>::empty());
            assert(texts_view(texts@) + Seq::<Seq<char>>::empty() =~= texts_view(texts@));
        }
        Ok(texts)
    }

    /// Expands the provided template with this printer's expander and
    /// prints it at the terminal's width. An error reports a malformed
    /// template; nothing was printed then.
    pub fn print_template(&self, template: &str) -> (r: Result<(), TemplateError>)
        ensures
            r is Ok <==> expansion(template@, self.expander@) is Ok,
            r is Err ==> expansion(template@, self.expander@) == Err::<Seq<char>, TemplateError>(
                r->Err_0,
            ),
    {
        match self.expander.expand(template) {
            Ok(text) => {
                skin_print_text(&self.skin, text.as_str());
                Ok(())
            },
            Err(e) => Err(e),
        }
    }

    /// Prints every section that has a template, in key order: each at
    /// the terminal's full width, or — by default — all re-rendered at
    /// the widest section's content width. An error reports the first
    /// malformed template.
    pub fn print_help(&self) -> (r: Result<(), TemplateError>)
        ensures
            r is Ok <==> self.sections() is Ok,
            r is Err ==> self.sections() == Err::<Seq<Seq<char>>, TemplateError>(r->Err_0),
    {
        if self.full_width {
            self.print_help_full_width()
        } else {
            self.print_help_content_width()
        }
    }

    /// The width sections are laid out at: the detected terminal width,
    /// bounded by the configured maximum when one is set.
    fn bounded_width(&self, detected: usize) -> (r: usize)
        ensures
            r == (match self.max_width {
                Some(m) => if m < detected {
                    m
                } else {
                    detected
                },
                None => detected,
            }),
            r <= detected,
    {
        match self.max_width {
            Some(m) => if m < detected {
                m
            } else {
                detected
            },
            None => detected,
        }
    }

    /// Immediate mode: each section prints independently at the terminal's
    /// width.
    fn print_help_full_width(&self) -> (r: Result<(), TemplateError>)
        ensures
            r is Ok <==> self.sections() is Ok,
            r is Err ==> self.sections() == Err::<Seq<Seq<char>>, TemplateError>(r->Err_0),
    {
        let texts = match self.expand_sections() {
            Ok(texts) => texts,
            Err(e) => {
                return Err(e);
            },
        };
        let detected = term_width();
        let width = self.bounded_width(detected);
        let n = texts.len();
        let mut i: usize = 0;
        while i < n
            invariant
                n == texts@.len(),
            decreases n - i,
        {
            let fmt = fmt_text_from(&self.skin, texts[i].as_str(), width);
            print_fmt_text(&fmt);
            i = i + 1;
        }
        Ok(())
    }

    /// Equalized mode: every section is laid out at the detected width
    /// (bounded by `max_width`), the widest content width is measured,
    /// and all sections are re-rendered at that one width, so that
    /// borders and wrapped text align across sections.
    fn print_help_content_width(&self) -> (r: Result<(), TemplateError>)
        ensures
            r is Ok <==> self.sections() is Ok,
            r is Err ==> self.sections() == Err::<Seq<Seq<char>>, TemplateError>(r->Err_0),
    {
        let texts = match self.expand_sections() {
            Ok(texts) => texts,
            Err(e) => {
                return Err(e);
            },
        };
        let detected = term_width();
        let width = self.bounded_width(detected);
        let n = texts.len();
        let mut fmts: Vec<termimad::FmtText> = Vec::new();
        let mut i: usize = 0;
        while i < n
            invariant
                n == texts@.len(),
                i == fmts@.len(),
                i <= n,
            decreases n - i,
        {
            fmts.push(fmt_text_from(&self.skin, texts[i].as_str(), width));
            i = i + 1;
        }
        let mut widths: Vec<usize> = Vec::new();
        let mut i: usize = 0;
        while i < n
            invariant
                n == fmts@.len(),
                i <= n,
            decreases n - i,
        {
            widths.push(fmt_content_width(&fmts[i]));
            i = i + 1;
        }
        let common = equalized_width(&widths);
        let count = fmts.len();
        let mut i: usize = 0;
        while i < count
            invariant
                count == fmts@.len(),
                i <= count,
            decreases count - i,
        {
            let f = &mut fmts[i];
            fmt_set_rendering_width(f, common);
            print_fmt_text(&fmts[i]);
            i = i + 1;
        }
        Ok(())
    }
}

} // verus!
