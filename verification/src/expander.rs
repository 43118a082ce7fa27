//! Template expansion: scalar placeholders `${name}`, a configured default for
//! unbound names, and one level of named repeated blocks
//! (`${name` newline, a row template, newline `}`), each block bound to an
//! ordered sequence of sub-bindings.
use vstd::prelude::*;
use vstd::string::StrSliceExecFns;

verus! {

/// A template-authoring mistake, surfaced to the caller at expansion time.
/// Data-dependent irregularities (unbound variables, blocks with no rows)
/// are never errors.
#[derive(Clone, Copy, Debug, PartialEq, Eq, Structural)]
pub enum TemplateError {
    /// `${` with no closing `}` (nor a newline opening a block) after it.
    UnterminatedPlaceholder,
    /// A block was opened but no closing line `}` follows.
    UnterminatedBlock,
    /// A block marker inside a row template: blocks do not nest.
    NestedBlock,
}

// ---------------------------------------------------------------------------
// The template grammar, as a mathematical model.
// ---------------------------------------------------------------------------

/// One token of a row template: literal text or a scalar placeholder.
pub enum RowTok {
    Lit(Seq<char>),
    Var(Seq<char>),
}

/// One item of a template: literal text, a scalar placeholder, or a named
/// block with its row template.
pub enum TplItem {
    Lit(Seq<char>),
    Scalar(Seq<char>),
    Block(Seq<char>, Seq<RowTok>),
}

/// Index of the first `}` or newline at or after `i`, or -1 when none
/// follows: the character that ends a placeholder name.
pub open spec fn placeholder_end(s: Seq<char>, i: int) -> int
    decreases s.len() - i,
{
    if i < 0 || i >= s.len() {
        -1
    } else if s[i] == '}' || s[i] == '\n' {
        i
    } else {
        placeholder_end(s, i + 1)
    }
}

/// Index of the first newline at or after `i` that is directly followed by
/// `}`, or -1 when none follows: the line that closes a block.
pub open spec fn block_close(s: Seq<char>, i: int) -> int
    decreases s.len() - i,
{
    if i < 0 || i + 1 >= s.len() {
        -1
    } else if s[i] == '\n' && s[i + 1] == '}' {
        i
    } else {
        block_close(s, i + 1)
    }
}

/// Parses a row template (the inside of a block) from position `i` on.
/// Only literal text and scalar placeholders may appear there: blocks do
/// not nest.
pub open spec fn parse_row_from(s: Seq<char>, i: int) -> Result<Seq<RowTok>, TemplateError>
    decreases s.len() - i,
{
    if i < 0 || i >= s.len() {
        Ok(Seq::empty())
    } else if s[i] == '$' && i + 1 < s.len() && s[i + 1] == '{' {
        let e = placeholder_end(s, i + 2);
        if !(i + 2 <= e && e < s.len()) {
            Err(TemplateError::UnterminatedPlaceholder)
        } else if s[e] == '\n' {
            Err(TemplateError::NestedBlock)
        } else {
            match parse_row_from(s, e + 1) {
                Ok(rest) => Ok(seq![RowTok::Var(s.subrange(i + 2, e))] + rest),
                Err(err) => Err(err),
            }
        }
    } else {
        match parse_row_from(s, i + 1) {
            Ok(rest) => Ok(seq![RowTok::Lit(seq![s[i]])] + rest),
            Err(err) => Err(err),
        }
    }
}

/// Parses a template from position `i` on. A `$` immediately followed by `{`
/// opens a placeholder; the name runs to the first `}` (a scalar) or to the
/// first newline (a block, whose row template runs to the next line starting
/// with `}`, that line's leading newline included). Any other character is
/// literal text.
pub open spec fn parse_from(s: Seq<char>, i: int) -> Result<Seq<TplItem>, TemplateError>
    decreases s.len() - i,
{
    if i < 0 || i >= s.len() {
        Ok(Seq::empty())
    } else if s[i] == '$' && i + 1 < s.len() && s[i + 1] == '{' {
        let e = placeholder_end(s, i + 2);
        if !(i + 2 <= e && e < s.len()) {
            Err(TemplateError::UnterminatedPlaceholder)
        } else if s[e] == '}' {
            match parse_from(s, e + 1) {
                Ok(rest) => Ok(seq![TplItem::Scalar(s.subrange(i + 2, e))] + rest),
                Err(err) => Err(err),
            }
        } else {
            let c = block_close(s, e + 1);
            if !(e + 1 <= c && c + 1 < s.len()) {
                Err(TemplateError::UnterminatedBlock)
            } else {
                match parse_row_from(s.subrange(e + 1, c + 1), 0) {
                    Ok(toks) => match parse_from(s, c + 2) {
                        Ok(rest) => Ok(seq![TplItem::Block(s.subrange(i + 2, e), toks)] + rest),
                        Err(err) => Err(err),
                    },
                    Err(err) => Err(err),
                }
            }
        }
    } else {
        match parse_from(s, i + 1) {
            Ok(rest) => Ok(seq![TplItem::Lit(seq![s[i]])] + rest),
            Err(err) => Err(err),
        }
    }
}

/// Parses a whole template.
pub open spec fn parse_template(s: Seq<char>) -> Result<Seq<TplItem>, TemplateError> {
    parse_from(s, 0)
}

// ---------------------------------------------------------------------------
// The binding environment, as a mathematical model.
// ---------------------------------------------------------------------------

/// The bindings an `Expander` holds: the default for unbound names, the
/// top-level scalars, and for each block name the ordered rows bound to it.
#[verifier::ext_equal]
pub struct EnvView {
    pub default_value: Seq<char>,
    pub scalars: Map<Seq<char>, Seq<char>>,
    pub blocks: Map<Seq<char>, Seq<Map<Seq<char>, Seq<char>>>>,
}

/// What a top-level scalar placeholder resolves to: its binding, or the
/// configured default when it was never bound.
pub open spec fn scalar_value(env: EnvView, name: Seq<char>) -> Seq<char> {
    if env.scalars.contains_key(name) {
        env.scalars[name]
    } else {
        env.default_value
    }
}

/// What a placeholder resolves to inside one row: the row's own binding
/// takes precedence; then the top-level scalars; then the default.
pub open spec fn row_value(env: EnvView, row: Map<Seq<char>, Seq<char>>, name: Seq<char>) -> Seq<
    char,
> {
    if row.contains_key(name) {
        row[name]
    } else {
        scalar_value(env, name)
    }
}

/// The ordered rows bound to a block name; a name never bound has no rows.
pub open spec fn block_rows(env: EnvView, name: Seq<char>) -> Seq<Map<Seq<char>, Seq<char>>> {
    if env.blocks.contains_key(name) {
        env.blocks[name]
    } else {
        Seq::empty()
    }
}

/// The text one row token contributes, under one row's bindings.
pub open spec fn row_tok_text(t: RowTok, env: EnvView, row: Map<Seq<char>, Seq<char>>) -> Seq<
    char,
> {
    match t {
        RowTok::Lit(s) => s,
        RowTok::Var(n) => row_value(env, row, n),
    }
}

/// The text of one instance of a row template, under one row's bindings.
pub open spec fn row_text(
    toks: Seq<RowTok>,
    env: EnvView,
    row: Map<Seq<char>, Seq<char>>,
) -> Seq<char>
    decreases toks.len(),
{
    if toks.len() == 0 {
        Seq::empty()
    } else {
        row_tok_text(toks[0], env, row) + row_text(toks.drop_first(), env, row)
    }
}

/// The text of a block: one instance of the row template per row, in row
/// order, concatenated.
pub open spec fn rows_text(
    toks: Seq<RowTok>,
    env: EnvView,
    rows: Seq<Map<Seq<char>, Seq<char>>>,
) -> Seq<char>
    decreases rows.len(),
{
    if rows.len() == 0 {
        Seq::empty()
    } else {
        row_text(toks, env, rows[0]) + rows_text(toks, env, rows.drop_first())
    }
}

/// The text one template item contributes.
pub open spec fn item_text(it: TplItem, env: EnvView) -> Seq<char> {
    match it {
        TplItem::Lit(s) => s,
        TplItem::Scalar(n) => scalar_value(env, n),
        TplItem::Block(n, toks) => rows_text(toks, env, block_rows(env, n)),
    }
}

/// The text of a parsed template: its items' texts, concatenated.
pub open spec fn items_text(items: Seq<TplItem>, env: EnvView) -> Seq<char>
    decreases items.len(),
{
    if items.len() == 0 {
        Seq::empty()
    } else {
        item_text(items[0], env) + items_text(items.drop_first(), env)
    }
}

/// What expanding a template under an environment yields: the concatenated
/// item texts, or the error the grammar gives for a malformed template.
pub open spec fn expansion(tpl: Seq<char>, env: EnvView) -> Result<Seq<char>, TemplateError> {
    match parse_template(tpl) {
        Ok(items) => Ok(items_text(items, env)),
        Err(e) => Err(e),
    }
}

// ---------------------------------------------------------------------------
// Binding state.
// ---------------------------------------------------------------------------

/// The value bound to `name` in an ordered list of (name, value) entries,
/// the last write winning, or `None` when the name was never bound.
pub open spec fn assoc_value(entries: Seq<(String, String)>, name: Seq<char>) -> Option<Seq<char>>
    decreases entries.len(),
{
    if entries.len() == 0 {
        None
    } else if entries.last().0@ == name {
        Some(entries.last().1@)
    } else {
        assoc_value(entries.drop_last(), name)
    }
}

/// The mapping an ordered list of (name, value) entries amounts to.
pub open spec fn assoc_map(entries: Seq<(String, String)>) -> Map<Seq<char>, Seq<char>> {
    Map::new(
        |n: Seq<char>| assoc_value(entries, n) is Some,
        |n: Seq<char>| assoc_value(entries, n)->0,
    )
}

pub(crate) proof fn lemma_assoc_push(entries: Seq<(String, String)>, p: (String, String))
    ensures
        assoc_map(entries.push(p)) == assoc_map(entries).insert(p.0@, p.1@),
{
    assert(entries.push(p).drop_last() =~= entries);
    assert(assoc_map(entries.push(p)) =~= assoc_map(entries).insert(p.0@, p.1@));
}

/// One row of a repeated block: its own (name, value) bindings, consulted
/// before the top-level scalars when the block's row template is expanded.
pub struct SubBinding {
    entries: Vec<(String, String)>,
}

impl View for SubBinding {
    type V = Map<Seq<char>, Seq<char>>;

    closed spec fn view(&self) -> Map<Seq<char>, Seq<char>> {
        assoc_map(self.entries@)
    }
}

impl SubBinding {
    /// A row with no bindings of its own.
    pub fn new() -> (r: SubBinding)
        ensures
            r@ == Map::<Seq<char>, Seq<char>>::empty(),
    {
        let r = SubBinding { entries: Vec::new() };
        proof {
            assert(r@ =~= Map::<Seq<char>, Seq<char>>::empty());
        }
        r
    }

    /// Binds `name` to `value` in this row; the last write wins.
    pub fn set_scalar(&mut self, name: &str, value: &str)
        ensures
            final(self)@ == old(self)@.insert(name@, value@),
    {
        let entry = (name.to_owned(), value.to_owned());
        proof {
            lemma_assoc_push(self.entries@, entry);
        }
        self.entries.push(entry);
    }
}

/// The sequence of row mappings a sequence of rows amounts to.
pub open spec fn rows_view(rows: Seq<SubBinding>) -> Seq<Map<Seq<char>, Seq<char>>> {
    rows.map_values(|r: SubBinding| r@)
}

/// The rows bound to `name` in an ordered list of named blocks, or `None`
/// when no block of that name exists. A name occurs at most once in the
/// lists the `Expander` builds, so the first occurrence is the only one.
pub open spec fn blocks_value(
    blocks: Seq<(String, Vec<SubBinding>)>,
    name: Seq<char>,
) -> Option<Seq<Map<Seq<char>, Seq<char>>>>
    decreases blocks.len(),
{
    if blocks.len() == 0 {
        None
    } else if blocks.first().0@ == name {
        Some(rows_view(blocks.first().1@))
    } else {
        blocks_value(blocks.drop_first(), name)
    }
}

/// The mapping an ordered list of named blocks amounts to.
pub open spec fn blocks_map(blocks: Seq<(String, Vec<SubBinding>)>) -> Map<
    Seq<char>,
    Seq<Map<Seq<char>, Seq<char>>>,
> {
    Map::new(
        |n: Seq<char>| blocks_value(blocks, n) is Some,
        |n: Seq<char>| blocks_value(blocks, n)->0,
    )
}

/// Holds a flat mapping from variable name to value, a default for names
/// never bound, and named repeated-block bindings, each an ordered sequence
/// of rows; expands templates against them.
pub struct Expander {
    default_value: String,
    scalars: Vec<(String, String)>,
    blocks: Vec<(String, Vec<SubBinding>)>,
}

impl View for Expander {
    type V = EnvView;

    closed spec fn view(&self) -> EnvView {
        EnvView {
            default_value: self.default_value@,
            scalars: assoc_map(self.scalars@),
            blocks: blocks_map(self.blocks@),
        }
    }
}

impl Expander {
    /// An expander with no bindings and the empty string as default.
    pub fn new() -> (r: Expander)
        ensures
            r@.default_value == Seq::<char>::empty(),
            r@.scalars == Map::<Seq<char>, Seq<char>>::empty(),
            r@.blocks == Map::<Seq<char>, Seq<Map<Seq<char>, Seq<char>>>>::empty(),
    {
        let r = Expander { default_value: String::new(), scalars: Vec::new(), blocks: Vec::new() };
        proof {
            assert(r@.scalars =~= Map::<Seq<char>, Seq<char>>::empty());
            assert(r@.blocks =~= Map::<Seq<char>, Seq<Map<Seq<char>, Seq<char>>>>::empty());
        }
        r
    }

    /// Sets the value substituted for any name bound nowhere.
    pub fn set_default(&mut self, value: &str)
        ensures
            final(self)@ == (EnvView { default_value: value@, ..old(self)@ }),
    {
        self.default_value = value.to_owned();
    }

    /// Binds `name` to `value` at top level; the last write wins.
    pub fn set_scalar(&mut self, name: &str, value: &str)
        ensures
            final(self)@ == (EnvView {
                scalars: old(self)@.scalars.insert(name@, value@),
                ..old(self)@
            }),
    {
        let entry = (name.to_owned(), value.to_owned());
        proof {
            lemma_assoc_push(self.scalars@, entry);
        }
        self.scalars.push(entry);
    }

    /// Appends `sub` as one more row of the block named `name`, after the
    /// rows already bound to it; rows expand in the order they were added.
    pub fn add_sub(&mut self, name: &str, sub: SubBinding)
        ensures
            final(self)@ == (EnvView {
                blocks: old(self)@.blocks.insert(
                    name@,
                    block_rows(old(self)@, name@).push(sub@),
                ),
                ..old(self)@
            }),
    {
        let ghost sub0 = sub;
        let ghost subv = sub@;
        match self.find_block_index(name) {
            Some(i) => {
                let ghost old_blocks = self.blocks@;
                let ghost old_rows = self.blocks@[i as int].1@;
                let entry = &mut self.blocks[i];
                entry.1.push(sub);
                proof {
                    let new_entry = self.blocks@[i as int];
                    assert(self.blocks@ =~= old_blocks.update(i as int, new_entry));
                    assert(new_entry.1@ =~= old_rows.push(sub0));
                    lemma_rows_view_push(old_rows, sub0);
                    lemma_blocks_found(old_blocks, i as int, name@);
                    assert(block_rows(old(self)@, name@) == rows_view(old_rows));
                    assert forall|nm: Seq<char>|
                        blocks_value(self.blocks@, nm) == (if nm == name@ {
                            Some(rows_view(new_entry.1@))
                        } else {
                            blocks_value(old_blocks, nm)
                        }) by {
                        lemma_blocks_update_at(old_blocks, i as int, new_entry, name@, nm);
                    }
                    assert(rows_view(new_entry.1@) == rows_view(old_rows).push(subv));
                    assert(blocks_map(self.blocks@) =~= blocks_map(old_blocks).insert(
                        name@,
                        rows_view(old_rows).push(subv),
                    ));
                    assert(self@ =~= (EnvView {
                        blocks: old(self)@.blocks.insert(
                            name@,
                            block_rows(old(self)@, name@).push(subv),
                        ),
                        ..old(self)@
                    }));
                }
            },
            None => {
                let ghost old_blocks = self.blocks@;
                let mut rows: Vec<SubBinding> = Vec::new();
                rows.push(sub);
                let entry = (name.to_owned(), rows);
                self.blocks.push(entry);
                proof {
                    let new_entry = self.blocks@.last();
                    lemma_blocks_none(old_blocks, name@);
                    assert(block_rows(old(self)@, name@) == Seq::<Map<Seq<char>, Seq<char>>>::empty());
                    lemma_rows_view_push(Seq::<SubBinding>::empty(), sub0);
                    assert(new_entry.1@ =~= Seq::<SubBinding>::empty().push(sub0));
                    assert(rows_view(Seq::<SubBinding>::empty()) =~= Seq::<
                        Map<Seq<char>, Seq<char>>,
                    >::empty());
                    assert(rows_view(new_entry.1@) == Seq::<Map<Seq<char>, Seq<char>>>::empty().push(
                        subv,
                    ));
                    assert forall|nm: Seq<char>|
                        blocks_value(self.blocks@, nm) == (if nm == name@ {
                            Some(rows_view(new_entry.1@))
                        } else {
                            blocks_value(old_blocks, nm)
                        }) by {
                        assert(self.blocks@ =~= old_blocks.push(new_entry));
                        lemma_blocks_push_new_at(old_blocks, new_entry, name@, nm);
                    }
                    assert(blocks_map(self.blocks@) =~= blocks_map(old_blocks).insert(
                        name@,
                        Seq::<Map<Seq<char>, Seq<char>>>::empty().push(subv),
                    ));
                    assert(self@ =~= (EnvView {
                        blocks: old(self)@.blocks.insert(
                            name@,
                            block_rows(old(self)@, name@).push(subv),
                        ),
                        ..old(self)@
                    }));
                }
            },
        }
    }

    /// Index of the entry for `name` in the block list, which holds each
    /// name at most once.
    fn find_block_index(&self, name: &str) -> (r: Option<usize>)
        ensures
            match r {
                Some(i) => i < self.blocks@.len() && self.blocks@[i as int].0@ == name@
                    && forall|j: int| 0 <= j < i ==> self.blocks@[j].0@ != name@,
                None => forall|j: int|
                    0 <= j < self.blocks@.len() ==> self.blocks@[j].0@ != name@,
            },
    {
        let n = self.blocks.len();
        let mut i: usize = 0;
        while i < n
            invariant
                n == self.blocks@.len(),
                i <= n,
                forall|j: int| 0 <= j < i ==> self.blocks@[j].0@ != name@,
            decreases n - i,
        {
            if str_eq_str(self.blocks[i].0.as_str(), name) {
                return Some(i);
            }
            i = i + 1;
        }
        None
    }
}

proof fn lemma_rows_view_push(rows: Seq<SubBinding>, s: SubBinding)
    ensures
        rows_view(rows.push(s)) == rows_view(rows).push(s@),
{
    assert forall|k: int| 0 <= k < rows.len() + 1 implies rows_view(rows.push(s))[k] == rows_view(
        rows,
    ).push(s@)[k] by {
        if k < rows.len() {
            assert(rows.push(s)[k] == rows[k]);
        } else {
            assert(rows.push(s)[k] == s);
        }
    }
    assert(rows_view(rows.push(s)) =~= rows_view(rows).push(s@));
}

proof fn lemma_blocks_found(blocks: Seq<(String, Vec<SubBinding>)>, i: int, name: Seq<char>)
    requires
        0 <= i < blocks.len(),
        blocks[i].0@ == name,
        forall|j: int| 0 <= j < i ==> blocks[j].0@ != name,
    ensures
        blocks_value(blocks, name) == Some(rows_view(blocks[i].1@)),
    decreases i,
{
    if i == 0 {
    } else {
        assert(blocks.drop_first()[i - 1] == blocks[i]);
        lemma_blocks_found(blocks.drop_first(), i - 1, name);
    }
}

proof fn lemma_blocks_none(blocks: Seq<(String, Vec<SubBinding>)>, name: Seq<char>)
    requires
        forall|j: int| 0 <= j < blocks.len() ==> blocks[j].0@ != name,
    ensures
        blocks_value(blocks, name) is None,
    decreases blocks.len(),
{
    if blocks.len() > 0 {
        lemma_blocks_none(blocks.drop_first(), name);
    }
}

/// Replacing the first entry of a given name changes the mapping at that
/// name alone.
proof fn lemma_blocks_update_at(
    blocks: Seq<(String, Vec<SubBinding>)>,
    i: int,
    entry: (String, Vec<SubBinding>),
    name: Seq<char>,
    n: Seq<char>,
)
    requires
        0 <= i < blocks.len(),
        blocks[i].0@ == name,
        entry.0@ == name,
        forall|j: int| 0 <= j < i ==> blocks[j].0@ != name,
    ensures
        blocks_value(blocks.update(i, entry), n) == if n == name {
            Some(rows_view(entry.1@))
        } else {
            blocks_value(blocks, n)
        },
    decreases i,
{
    let upd = blocks.update(i, entry);
    assert(upd.len() == blocks.len());
    if i == 0 {
        assert(upd.first() == entry);
        assert(upd.drop_first() =~= blocks.drop_first());
    } else {
        assert(upd.first() == blocks.first());
        assert(upd.drop_first() =~= blocks.drop_first().update(i - 1, entry));
        lemma_blocks_update_at(blocks.drop_first(), i - 1, entry, name, n);
    }
}

proof fn lemma_blocks_push_new_at(
    blocks: Seq<(String, Vec<SubBinding>)>,
    entry: (String, Vec<SubBinding>),
    name: Seq<char>,
    n: Seq<char>,
)
    requires
        entry.0@ == name,
        blocks_value(blocks, name) is None,
    ensures
        blocks_value(blocks.push(entry), n) == if n == name {
            Some(rows_view(entry.1@))
        } else {
            blocks_value(blocks, n)
        },
    decreases blocks.len(),
{
    let p = blocks.push(entry);
    assert(p.len() == blocks.len() + 1);
    if blocks.len() == 0 {
        assert(p.first() == entry);
        assert(p.drop_first() =~= Seq::<(String, Vec<SubBinding>)>::empty());
        assert(blocks_value(Seq::<(String, Vec<SubBinding>)>::empty(), n) is None);
    } else {
        assert(p.first() == blocks.first());
        assert(p.drop_first() =~= blocks.drop_first().push(entry));
        lemma_blocks_push_new_at(blocks.drop_first(), entry, name, n);
        assert(blocks_value(p.drop_first(), n) == blocks_value(blocks.drop_first().push(entry), n));
    }
}

// ---------------------------------------------------------------------------
// Expansion.
// ---------------------------------------------------------------------------

/// A row-template token as scanned from the template text: literal text or
/// a placeholder name, each borrowing the template.
#[derive(Clone, Copy)]
pub enum ParsedRowTok<'a> {
    Lit(&'a str),
    Var(&'a str),
}

impl<'a> View for ParsedRowTok<'a> {
    type V = RowTok;

    open spec fn view(&self) -> RowTok {
        match self {
            ParsedRowTok::Lit(s) => RowTok::Lit(s@),
            ParsedRowTok::Var(s) => RowTok::Var(s@),
        }
    }
}

/// The row tokens a scanned token list stands for.
pub open spec fn toks_view(toks: Seq<ParsedRowTok>) -> Seq<RowTok> {
    toks.map_values(|t: ParsedRowTok| t@)
}

proof fn lemma_toks_view_push(toks: Seq<ParsedRowTok>, t: ParsedRowTok)
    ensures
        toks_view(toks.push(t)) == toks_view(toks).push(t@),
{
    assert forall|k: int| 0 <= k < toks.len() + 1 implies toks_view(toks.push(t))[k] == toks_view(
        toks,
    ).push(t@)[k] by {
        if k < toks.len() {
            assert(toks.push(t)[k] == toks[k]);
        } else {
            assert(toks.push(t)[k] == t);
        }
    }
    assert(toks_view(toks.push(t)) =~= toks_view(toks).push(t@));
}

/// Concatenation distributes over the text of a row-token sequence.
pub proof fn lemma_row_text_concat(
    a: Seq<RowTok>,
    b: Seq<RowTok>,
    env: EnvView,
    row: Map<Seq<char>, Seq<char>>,
)
    ensures
        row_text(a + b, env, row) == row_text(a, env, row) + row_text(b, env, row),
    decreases a.len(),
{
    if a.len() == 0 {
        assert(a + b =~= b);
        assert(Seq::<char>::empty() + row_text(b, env, row) =~= row_text(b, env, row));
    } else {
        assert((a + b)[0] == a[0]);
        assert((a + b).len() > 0);
        assert((a + b).drop_first() =~= a.drop_first() + b);
        lemma_row_text_concat(a.drop_first(), b, env, row);
        assert(row_tok_text(a[0], env, row) + (row_text(a.drop_first(), env, row) + row_text(
            b,
            env,
            row,
        )) =~= (row_tok_text(a[0], env, row) + row_text(a.drop_first(), env, row)) + row_text(
            b,
            env,
            row,
        ));
    }
}

/// The text of a single row token, as a one-token row template.
pub proof fn lemma_row_text_singleton(t: RowTok, env: EnvView, row: Map<Seq<char>, Seq<char>>)
    ensures
        row_text(seq![t], env, row) == row_tok_text(t, env, row),
{
    assert(seq![t][0] == t);
    assert(seq![t].drop_first() =~= Seq::<RowTok>::empty());
    assert(row_text(Seq::<RowTok>::empty(), env, row) == Seq::<char>::empty());
    assert(row_text(seq![t], env, row) == row_tok_text(t, env, row) + Seq::<char>::empty());
    assert(row_tok_text(t, env, row) + Seq::<char>::empty() =~= row_tok_text(t, env, row));
}

/// Concatenation distributes over the text of an item sequence.
pub proof fn lemma_items_text_concat(a: Seq<TplItem>, b: Seq<TplItem>, env: EnvView)
    ensures
        items_text(a + b, env) == items_text(a, env) + items_text(b, env),
    decreases a.len(),
{
    if a.len() == 0 {
        assert(a + b =~= b);
        assert(Seq::<char>::empty() + items_text(b, env) =~= items_text(b, env));
    } else {
        assert((a + b)[0] == a[0]);
        assert((a + b).len() > 0);
        assert((a + b).drop_first() =~= a.drop_first() + b);
        lemma_items_text_concat(a.drop_first(), b, env);
        assert(item_text(a[0], env) + (items_text(a.drop_first(), env) + items_text(b, env))
            =~= (item_text(a[0], env) + items_text(a.drop_first(), env)) + items_text(b, env));
    }
}

/// The text of a single item, as a one-item template.
pub proof fn lemma_items_text_singleton(it: TplItem, env: EnvView)
    ensures
        items_text(seq![it], env) == item_text(it, env),
{
    assert(seq![it][0] == it);
    assert(seq![it].drop_first() =~= Seq::<TplItem>::empty());
    assert(items_text(Seq::<TplItem>::empty(), env) == Seq::<char>::empty());
    assert(items_text(seq![it], env) == item_text(it, env) + Seq::<char>::empty());
    assert(item_text(it, env) + Seq::<char>::empty() =~= item_text(it, env));
}

/// Appending one more row appends one more instance of the row template.
pub proof fn lemma_rows_text_snoc(
    toks: Seq<RowTok>,
    env: EnvView,
    rows: Seq<Map<Seq<char>, Seq<char>>>,
    k: int,
)
    requires
        0 <= k < rows.len(),
    ensures
        rows_text(toks, env, rows.take(k + 1)) == rows_text(toks, env, rows.take(k)) + row_text(
            toks,
            env,
            rows[k],
        ),
    decreases k,
{
    if k == 0 {
        assert(rows.take(1) =~= seq![rows[0]]);
        assert(rows.take(0) =~= Seq::<Map<Seq<char>, Seq<char>>>::empty());
        assert(seq![rows[0]].drop_first() =~= Seq::<Map<Seq<char>, Seq<char>>>::empty());
        assert(row_text(toks, env, rows[0]) + Seq::<char>::empty() =~= row_text(
            toks,
            env,
            rows[0],
        ));
        assert(Seq::<char>::empty() + row_text(toks, env, rows[0]) =~= row_text(
            toks,
            env,
            rows[0],
        ));
    } else {
        lemma_rows_text_snoc(toks, env, rows.drop_first(), k - 1);
        assert(rows.take(k + 1).drop_first() =~= rows.drop_first().take(k));
        assert(rows.take(k).drop_first() =~= rows.drop_first().take(k - 1));
        assert(rows.take(k + 1)[0] == rows[0]);
        assert(rows.take(k)[0] == rows[0]);
        assert(rows.drop_first()[k - 1] == rows[k]);
        assert(row_text(toks, env, rows[0]) + (rows_text(toks, env, rows.drop_first().take(k - 1))
            + row_text(toks, env, rows[k])) =~= (row_text(toks, env, rows[0]) + rows_text(
            toks,
            env,
            rows.drop_first().take(k - 1),
        )) + row_text(toks, env, rows[k]));
    }
}

/// Concatenation of row sequences distributes over the text of a block.
pub proof fn lemma_rows_text_concat(
    toks: Seq<RowTok>,
    env: EnvView,
    a: Seq<Map<Seq<char>, Seq<char>>>,
    b: Seq<Map<Seq<char>, Seq<char>>>,
)
    ensures
        rows_text(toks, env, a + b) == rows_text(toks, env, a) + rows_text(toks, env, b),
    decreases a.len(),
{
    if a.len() == 0 {
        assert(a + b =~= b);
        assert(Seq::<char>::empty() + rows_text(toks, env, b) =~= rows_text(toks, env, b));
    } else {
        assert((a + b)[0] == a[0]);
        assert((a + b).len() > 0);
        assert((a + b).drop_first() =~= a.drop_first() + b);
        lemma_rows_text_concat(toks, env, a.drop_first(), b);
        assert(row_text(toks, env, a[0]) + (rows_text(toks, env, a.drop_first()) + rows_text(
            toks,
            env,
            b,
        )) =~= (row_text(toks, env, a[0]) + rows_text(toks, env, a.drop_first())) + rows_text(
            toks,
            env,
            b,
        ));
    }
}

/// The text of a block with a single row is one instance of the row
/// template.
pub proof fn lemma_rows_text_singleton(
    toks: Seq<RowTok>,
    env: EnvView,
    row: Map<Seq<char>, Seq<char>>,
)
    ensures
        rows_text(toks, env, seq![row]) == row_text(toks, env, row),
{
    assert(seq![row][0] == row);
    assert(seq![row].drop_first() =~= Seq::<Map<Seq<char>, Seq<char>>>::empty());
    assert(rows_text(toks, env, Seq::<Map<Seq<char>, Seq<char>>>::empty()) == Seq::<
        char,
    >::empty());
    assert(row_text(toks, env, row) + Seq::<char>::empty() =~= row_text(toks, env, row));
}

// ---------------------------------------------------------------------------
// Laws.
// ---------------------------------------------------------------------------

/// Law: a placeholder whose name has no binding expands to the configured
/// default, substituted verbatim, whatever items surround it in the
/// template.
pub proof fn lemma_unbound_placeholder_default(
    env: EnvView,
    before: Seq<TplItem>,
    after: Seq<TplItem>,
    name: Seq<char>,
)
    requires
        !env.scalars.contains_key(name),
    ensures
        scalar_value(env, name) == env.default_value,
        items_text(before + seq![TplItem::Scalar(name)] + after, env) == items_text(before, env)
            + env.default_value + items_text(after, env),
{
    lemma_items_text_concat(before + seq![TplItem::Scalar(name)], after, env);
    lemma_items_text_concat(before, seq![TplItem::Scalar(name)], env);
    lemma_items_text_singleton(TplItem::Scalar(name), env);
}

/// Law: a block bound to an ordered sequence of rows emits exactly one
/// instance of its row template per row, in binding order: around the j-th
/// row's instance stand exactly the instances of the earlier and the later
/// rows.
pub proof fn lemma_block_emits_rows_in_order(
    env: EnvView,
    name: Seq<char>,
    toks: Seq<RowTok>,
    j: int,
)
    requires
        0 <= j < block_rows(env, name).len(),
    ensures
        item_text(TplItem::Block(name, toks), env) == rows_text(
            toks,
            env,
            block_rows(env, name).take(j),
        ) + row_text(toks, env, block_rows(env, name)[j]) + rows_text(
            toks,
            env,
            block_rows(env, name).skip(j + 1),
        ),
{
    let rows = block_rows(env, name);
    assert(rows =~= (rows.take(j) + seq![rows[j]]) + rows.skip(j + 1));
    lemma_rows_text_concat(toks, env, rows.take(j) + seq![rows[j]], rows.skip(j + 1));
    lemma_rows_text_concat(toks, env, rows.take(j), seq![rows[j]]);
    lemma_rows_text_singleton(toks, env, rows[j]);
}

/// Law: within one row, the row's own binding for a name takes precedence
/// over any top-level binding of the same name; a name the row does not
/// bind falls back to the top-level resolution, and from there to the
/// default.
pub proof fn lemma_row_precedence(env: EnvView, row: Map<Seq<char>, Seq<char>>, name: Seq<char>)
    ensures
        row.contains_key(name) ==> row_value(env, row, name) == row[name],
        !row.contains_key(name) && env.scalars.contains_key(name) ==> row_value(env, row, name)
            == env.scalars[name],
        !row.contains_key(name) && !env.scalars.contains_key(name) ==> row_value(env, row, name)
            == env.default_value,
{
}

/// Law: expansion is a pure function of the template and the bindings.
/// Two expansions of the same template against equal bindings yield the
/// same result, character for character; there is no hidden state.
pub proof fn lemma_expansion_deterministic(
    tpl: Seq<char>,
    env: EnvView,
    r1: Result<Seq<char>, TemplateError>,
    r2: Result<Seq<char>, TemplateError>,
)
    requires
        r1 == expansion(tpl, env),
        r2 == expansion(tpl, env),
    ensures
        r1 == r2,
{
}

impl Expander {
    /// The value a top-level placeholder resolves to: its binding, or the
    /// default when it was never bound.
    fn resolve_scalar<'a>(&'a self, name: &str) -> (r: &'a String)
        ensures
            r@ == scalar_value(self@, name@),
    {
        let n = self.scalars.len();
        let mut i: usize = n;
        while i > 0
            invariant
                n == self.scalars@.len(),
                i <= n,
                forall|j: int| i <= j < n ==> self.scalars@[j].0@ != name@,
            decreases i,
        {
            i = i - 1;
            if str_eq_str(self.scalars[i].0.as_str(), name) {
                proof {
                    lemma_assoc_found(self.scalars@, i as int, name@);
                }
                return &self.scalars[i].1;
            }
        }
        proof {
            lemma_assoc_none(self.scalars@, name@);
        }
        &self.default_value
    }

    /// The value a placeholder resolves to inside one row: the row's own
    /// binding first, then the top-level resolution.
    fn resolve_row<'a>(&'a self, row: &'a SubBinding, name: &str) -> (r: &'a String)
        ensures
            r@ == row_value(self@, row@, name@),
    {
        let n = row.entries.len();
        let mut i: usize = n;
        while i > 0
            invariant
                n == row.entries@.len(),
                i <= n,
                forall|j: int| i <= j < n ==> row.entries@[j].0@ != name@,
            decreases i,
        {
            i = i - 1;
            if str_eq_str(row.entries[i].0.as_str(), name) {
                proof {
                    lemma_assoc_found(row.entries@, i as int, name@);
                }
                return &row.entries[i].1;
            }
        }
        proof {
            lemma_assoc_none(row.entries@, name@);
        }
        self.resolve_scalar(name)
    }

    /// The rows bound to a block name, when any row was.
    fn block_rows_ref<'a>(&'a self, name: &str) -> (r: Option<&'a Vec<SubBinding>>)
        ensures
            match r {
                Some(rows) => block_rows(self@, name@) == rows_view(rows@),
                None => block_rows(self@, name@) == Seq::<Map<Seq<char>, Seq<char>>>::empty(),
            },
    {
        match self.find_block_index(name) {
            Some(i) => {
                proof {
                    lemma_blocks_found(self.blocks@, i as int, name@);
                }
                Some(&self.blocks[i].1)
            },
            None => {
                proof {
                    lemma_blocks_none(self.blocks@, name@);
                }
                None
            },
        }
    }

    /// Expands one instance of a row template under one row's bindings,
    /// appending the text to `out`.
    fn append_row(&self, toks: &Vec<ParsedRowTok>, row: &SubBinding, out: &mut String)
        ensures
            final(out)@ == old(out)@ + row_text(toks_view(toks@), self@, row@),
    {
        let m = toks.len();
        let mut k: usize = 0;
        while k < m
            invariant
                m == toks@.len(),
                k <= m,
                out@ == old(out)@ + row_text(toks_view(toks@).take(k as int), self@, row@),
            decreases m - k,
        {
            proof {
                assert(toks_view(toks@).take(k as int + 1) =~= toks_view(toks@).take(k as int)
                    + seq![toks@[k as int]@]);
                lemma_row_text_concat(
                    toks_view(toks@).take(k as int),
                    seq![toks@[k as int]@],
                    self@,
                    row@,
                );
                lemma_row_text_singleton(toks@[k as int]@, self@, row@);
            }
            let t = toks[k];
            match t {
                ParsedRowTok::Lit(piece) => {
                    out.append(piece);
                },
                ParsedRowTok::Var(nm) => {
                    let v = self.resolve_row(row, nm);
                    out.append(v.as_str());
                },
            }
            k = k + 1;
        }
        proof {
            assert(toks_view(toks@).take(m as int) =~= toks_view(toks@));
        }
    }

    /// Expands a template against this expander's bindings: scalar
    /// placeholders resolve to their bindings or the default, and each
    /// block re-emits its row template once per bound row, in row order.
    /// A malformed template is reported, never silently repaired.
    pub fn expand(&self, template: &str) -> (r: Result<String, TemplateError>)
        ensures
            match r {
                Ok(out) => expansion(template@, self@) == Ok::<Seq<char>, TemplateError>(out@),
                Err(e) => expansion(template@, self@) == Err::<Seq<char>, TemplateError>(e),
            },
    {
        let s = template;
        let n = s.unicode_len();
        let mut out = String::new();
        let mut i: usize = 0;
        while i < n
            invariant
                s@ == template@,
                n == s@.len(),
                i <= n,
                match parse_from(s@, i as int) {
                    Ok(rest) => parse_template(s@) is Ok && items_text(
                        parse_template(s@)->Ok_0,
                        self@,
                    ) == out@ + items_text(rest, self@),
                    Err(e) => parse_template(s@) == Err::<Seq<TplItem>, TemplateError>(e),
                },
            decreases n - i,
        {
            let ghost prev_out = out@;
            let c0 = s.get_char(i);
            if c0 == '$' && i + 1 < n && s.get_char(i + 1) == '{' {
                match placeholder_end_exec(s, i + 2, n) {
                    None => {
                        proof {
                            assert(parse_from(s@, i as int) == Err::<
                                Seq<TplItem>,
                                TemplateError,
                            >(TemplateError::UnterminatedPlaceholder));
                            assert(parse_template(s@) == Err::<Seq<TplItem>, TemplateError>(
                                TemplateError::UnterminatedPlaceholder,
                            ));
                            assert(expansion(template@, self@) == Err::<Seq<char>, TemplateError>(
                                TemplateError::UnterminatedPlaceholder,
                            ));
                        }
                        return Err(TemplateError::UnterminatedPlaceholder);
                    },
                    Some(e) => {
                        if s.get_char(e) == '}' {
                            let name = s.substring_char(i + 2, e);
                            let v = self.resolve_scalar(name);
                            out.append(v.as_str());
                            proof {
                                let it = TplItem::Scalar(s@.subrange(i + 2, e as int));
                                lemma_step_ok(s@, i as int, e as int + 1, it, self@, prev_out);
                            }
                            i = e + 1;
                        } else {
                            match block_close_exec(s, e + 1, n) {
                                None => {
                                    proof {
                                        assert(s@[e as int] == '\n');
                                        assert(parse_from(s@, i as int) == Err::<
                                            Seq<TplItem>,
                                            TemplateError,
                                        >(TemplateError::UnterminatedBlock));
                                    }
                                    return Err(TemplateError::UnterminatedBlock);
                                },
                                Some(c) => {
                                    let name = s.substring_char(i + 2, e);
                                    let inner = s.substring_char(e + 1, c + 1);
                                    let toks = match parse_row_exec(inner) {
                                        Ok(t) => t,
                                        Err(err) => {
                                            proof {
                                                assert(inner@ == s@.subrange(
                                                    e as int + 1,
                                                    c as int + 1,
                                                ));
                                                assert(parse_from(s@, i as int) == Err::<
                                                    Seq<TplItem>,
                                                    TemplateError,
                                                >(err));
                                                assert(parse_template(s@) == Err::<
                                                    Seq<TplItem>,
                                                    TemplateError,
                                                >(err));
                                                assert(expansion(template@, self@) == Err::<
                                                    Seq<char>,
                                                    TemplateError,
                                                >(err));
                                            }
                                            return Err(err);
                                        },
                                    };
                                    let ghost tv = toks_view(toks@);
                                    let ghost it = TplItem::Block(
                                        s@.subrange(i + 2, e as int),
                                        tv,
                                    );
                                    match self.block_rows_ref(name) {
                                        Some(rows) => {
                                            let ghost rv = rows_view(rows@);
                                            let rn = rows.len();
                                            let mut r: usize = 0;
                                            while r < rn
                                                invariant
                                                    rn == rows@.len(),
                                                    r <= rn,
                                                    rv == rows_view(rows@),
                                                    tv == toks_view(toks@),
                                                    out@ == prev_out + rows_text(
                                                        tv,
                                                        self@,
                                                        rv.take(r as int),
                                                    ),
                                                decreases rn - r,
                                            {
                                                self.append_row(&toks, &rows[r], &mut out);
                                                proof {
                                                    assert(rv[r as int] == rows@[r as int]@);
                                                    lemma_rows_text_snoc(
                                                        tv,
                                                        self@,
                                                        rv,
                                                        r as int,
                                                    );
                                                }
                                                r = r + 1;
                                            }
                                            proof {
                                                assert(rv.take(rn as int) =~= rv);
                                                assert(item_text(it, self@) == rows_text(
                                                    tv,
                                                    self@,
                                                    rv,
                                                ));
                                                lemma_step_ok(
                                                    s@,
                                                    i as int,
                                                    c as int + 2,
                                                    it,
                                                    self@,
                                                    prev_out,
                                                );
                                            }
                                        },
                                        None => {
                                            proof {
                                                assert(item_text(it, self@) == rows_text(
                                                    tv,
                                                    self@,
                                                    Seq::<Map<Seq<char>, Seq<char>>>::empty(),
                                                ));
                                                assert(item_text(it, self@) == Seq::<
                                                    char,
                                                >::empty());
                                                assert(out@ == prev_out + item_text(it, self@));
                                                lemma_step_ok(
                                                    s@,
                                                    i as int,
                                                    c as int + 2,
                                                    it,
                                                    self@,
                                                    prev_out,
                                                );
                                            }
                                        },
                                    }
                                    i = c + 2;
                                },
                            }
                        }
                    },
                }
            } else {
                let piece = s.substring_char(i, i + 1);
                out.append(piece);
                proof {
                    assert(s@.subrange(i as int, i as int + 1) =~= seq![s@[i as int]]);
                    let it = TplItem::Lit(seq![s@[i as int]]);
                    lemma_step_ok(s@, i as int, i as int + 1, it, self@, prev_out);
                }
                i = i + 1;
            }
        }
        proof {
            assert(items_text(Seq::<TplItem>::empty(), self@) == Seq::<char>::empty());
            assert(out@ + Seq::<char>::empty() =~= out@);
        }
        Ok(out)
    }
}

/// One parsing step: when the template at `i` parses as `it` followed by
/// the items from `next` on, the loop's accounting moves from `i` to
/// `next` by appending `it`'s text.
proof fn lemma_step_ok(
    s: Seq<char>,
    i: int,
    next: int,
    it: TplItem,
    env: EnvView,
    prev_out: Seq<char>,
)
    requires
        (match parse_from(s, next) {
            Ok(rest) => parse_from(s, i) == Ok::<Seq<TplItem>, TemplateError>(seq![it] + rest),
            Err(e) => parse_from(s, i) == Err::<Seq<TplItem>, TemplateError>(e),
        }),
        (match parse_from(s, i) {
            Ok(rest) => parse_template(s) is Ok && items_text(parse_template(s)->Ok_0, env)
                == prev_out + items_text(rest, env),
            Err(e) => parse_template(s) == Err::<Seq<TplItem>, TemplateError>(e),
        }),
    ensures
        (match parse_from(s, next) {
            Ok(rest) => parse_template(s) is Ok && items_text(parse_template(s)->Ok_0, env)
                == (prev_out + item_text(it, env)) + items_text(rest, env),
            Err(e) => parse_template(s) == Err::<Seq<TplItem>, TemplateError>(e),
        }),
{
    match parse_from(s, next) {
        Ok(rest) => {
            lemma_items_text_concat(seq![it], rest, env);
            lemma_items_text_singleton(it, env);
            assert(items_text(seq![it] + rest, env) == item_text(it, env) + items_text(rest, env));
            assert(prev_out + (item_text(it, env) + items_text(rest, env)) =~= (prev_out
                + item_text(it, env)) + items_text(rest, env));
        },
        Err(_) => {},
    }
}

/// Scans for the character that ends a placeholder name begun at `start`.
fn placeholder_end_exec(s: &str, start: usize, n: usize) -> (r: Option<usize>)
    requires
        n == s@.len(),
        start <= n,
    ensures
        match r {
            Some(e) => placeholder_end(s@, start as int) == e as int && start <= e && e < n && (
            s@[e as int] == '}' || s@[e as int] == '\n'),
            None => placeholder_end(s@, start as int) == -1,
        },
{
    let mut i = start;
    while i < n
        invariant
            n == s@.len(),
            start <= i <= n,
            placeholder_end(s@, start as int) == placeholder_end(s@, i as int),
        decreases n - i,
    {
        let c = s.get_char(i);
        if c == '}' || c == '\n' {
            return Some(i);
        }
        i = i + 1;
    }
    None
}

/// Scans for the newline-`}` pair that closes a block, at or after `start`.
fn block_close_exec(s: &str, start: usize, n: usize) -> (r: Option<usize>)
    requires
        n == s@.len(),
        start <= n,
    ensures
        match r {
            Some(c) => block_close(s@, start as int) == c as int && start <= c && c + 1 < n
                && s@[c as int] == '\n' && s@[c as int + 1] == '}',
            None => block_close(s@, start as int) == -1,
        },
{
    let mut i = start;
    while i < n
        invariant
            n == s@.len(),
            start <= i <= n,
            block_close(s@, start as int) == block_close(s@, i as int),
        decreases n - i,
    {
        if i + 1 >= n {
            return None;
        }
        if s.get_char(i) == '\n' && s.get_char(i + 1) == '}' {
            return Some(i);
        }
        i = i + 1;
    }
    None
}

/// Scans a row template (the inside of a block) into its tokens.
fn parse_row_exec<'a>(s: &'a str) -> (r: Result<Vec<ParsedRowTok<'a>>, TemplateError>)
    ensures
        match r {
            Ok(toks) => parse_row_from(s@, 0) == Ok::<Seq<RowTok>, TemplateError>(
                toks_view(toks@),
            ),
            Err(e) => parse_row_from(s@, 0) == Err::<Seq<RowTok>, TemplateError>(e),
        },
{
    let n = s.unicode_len();
    let mut toks: Vec<ParsedRowTok<'a>> = Vec::new();
    let mut i: usize = 0;
    while i < n
        invariant
            n == s@.len(),
            i <= n,
            match parse_row_from(s@, i as int) {
                Ok(rest) => parse_row_from(s@, 0) is Ok && parse_row_from(s@, 0)->Ok_0
                    == toks_view(toks@) + rest,
                Err(e) => parse_row_from(s@, 0) == Err::<Seq<RowTok>, TemplateError>(e),
            },
        decreases n - i,
    {
        let ghost prev = toks_view(toks@);
        let c0 = s.get_char(i);
        if c0 == '$' && i + 1 < n && s.get_char(i + 1) == '{' {
            match placeholder_end_exec(s, i + 2, n) {
                None => {
                    return Err(TemplateError::UnterminatedPlaceholder);
                },
                Some(e) => {
                    if s.get_char(e) == '\n' {
                        return Err(TemplateError::NestedBlock);
                    }
                    let name = s.substring_char(i + 2, e);
                    let t = ParsedRowTok::Var(name);
                    proof {
                        lemma_toks_view_push(toks@, t);
                    }
                    toks.push(t);
                    proof {
                        lemma_row_step(s@, i as int, e as int + 1, t@, prev);
                    }
                    i = e + 1;
                },
            }
        } else {
            let piece = s.substring_char(i, i + 1);
            let t = ParsedRowTok::Lit(piece);
            proof {
                lemma_toks_view_push(toks@, t);
            }
            toks.push(t);
            proof {
                assert(s@.subrange(i as int, i as int + 1) =~= seq![s@[i as int]]);
                lemma_row_step(s@, i as int, i as int + 1, t@, prev);
            }
            i = i + 1;
        }
    }
    proof {
        assert(toks_view(toks@) + Seq::<RowTok>::empty() =~= toks_view(toks@));
    }
    Ok(toks)
}

/// One row-scanning step, in the same shape as `lemma_step_ok`.
proof fn lemma_row_step(s: Seq<char>, i: int, next: int, t: RowTok, prev: Seq<RowTok>)
    requires
        (match parse_row_from(s, next) {
            Ok(rest) => parse_row_from(s, i) == Ok::<Seq<RowTok>, TemplateError>(seq![t] + rest),
            Err(e) => parse_row_from(s, i) == Err::<Seq<RowTok>, TemplateError>(e),
        }),
        (match parse_row_from(s, i) {
            Ok(rest) => parse_row_from(s, 0) is Ok && parse_row_from(s, 0)->Ok_0 == prev + rest,
            Err(e) => parse_row_from(s, 0) == Err::<Seq<RowTok>, TemplateError>(e),
        }),
    ensures
        (match parse_row_from(s, next) {
            Ok(rest) => parse_row_from(s, 0) is Ok && parse_row_from(s, 0)->Ok_0 == prev.push(t)
                + rest,
            Err(e) => parse_row_from(s, 0) == Err::<Seq<RowTok>, TemplateError>(e),
        }),
{
    match parse_row_from(s, next) {
        Ok(rest) => {
            assert(prev + (seq![t] + rest) =~= prev.push(t) + rest);
        },
        Err(_) => {},
    }
}

pub(crate) proof fn lemma_assoc_found(entries: Seq<(String, String)>, i: int, name: Seq<char>)
    requires
        0 <= i < entries.len(),
        entries[i].0@ == name,
        forall|j: int| i < j < entries.len() ==> entries[j].0@ != name,
    ensures
        assoc_value(entries, name) == Some(entries[i].1@),
    decreases entries.len(),
{
    if i == entries.len() - 1 {
    } else {
        assert(entries.drop_last()[i] == entries[i]);
        lemma_assoc_found(entries.drop_last(), i, name);
    }
}

pub(crate) proof fn lemma_assoc_none(entries: Seq<(String, String)>, name: Seq<char>)
    requires
        forall|j: int| 0 <= j < entries.len() ==> entries[j].0@ != name,
    ensures
        assoc_value(entries, name) is None,
    decreases entries.len(),
{
    if entries.len() > 0 {
        lemma_assoc_none(entries.drop_last(), name);
    }
}

/// Whether two string slices hold the same characters.
pub fn str_eq_str(a: &str, b: &str) -> (r: bool)
    ensures
        r == (a@ == b@),
{
    let an = a.unicode_len();
    let bn = b.unicode_len();
    if an != bn {
        return false;
    }
    let mut i: usize = 0;
    while i < an
        invariant
            an == a@.len(),
            bn == b@.len(),
            an == bn,
            i <= an,
            forall|j: int| 0 <= j < i ==> a@[j] == b@[j],
        decreases an - i,
    {
        if a.get_char(i) != b.get_char(i) {
            return false;
        }
        i = i + 1;
    }
    proof {
        assert(a@ =~= b@);
    }
    true
}

} // verus!
