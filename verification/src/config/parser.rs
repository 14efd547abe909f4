//! Parser of the configuration language.
//!
//! ```text
//! file       = item*
//! item       = source_directive | var_def | block | assignment
//! source_directive = "source" "=" string
//! var_def    = "$" ident "=" value
//! block      = ident label? "{" item* "}"
//! label      = string | ident
//! assignment = ident "=" value ("," value)*
//! value      = string | color | dimension | rgb_color | ident | array
//!            | var_ref | number
//! var_ref    = "$" ident
//! array      = "[" (value ("," value)*)? "]"
//! color      = "#" hex{6,8}
//! rgb_color  = "rgb(" hex{6} ")" | "rgba(" hex{8} ")"
//! dimension  = number unit        (unit = "px" | "hz" | "%" | "ms")
//! comment    = "//" [^\n]*
//! ```
//!
//! Variables are collected over each file before it is parsed, so they can be
//! used before their definition. Undefined variables are errors.
//!
//! `source = "path"` puts the items of another file in place of the directive.
//! The files come from a table; a file that the table lacks is reported as
//! missing, and the caller parses again with a table that holds it. A file
//! that was already read is an error.
//!
//! Unknown blocks and keys are accepted.

use vstd::prelude::*;
use vstd::utf8::encode_utf8;

use crate::config::lexer::{
    countable, ends_in_eof, lexemes, lexemes_are, tokenize, Lexeme, LexemeView, Tok, TokView,
};
use crate::config::value::{
    items_view, label_view, lemma_array_view, lemma_block_view, merged, spanned_view, truth,
    truth_of, values_view, word_view, Assignment, Block, BlockView, ConfigFile, ErrorView, Item,
    ItemView, ParseError, ParseResult, Span, Spanned, SpannedView, Value, ValueView, WordView,
};
use crate::config::vars::{
    collect_vars, definitions, find_var, variable, vars_view, Var, VarView,
};
use crate::text::{
    chars_of, found_at, has_at, lemma_byte_len_is_utf8, same, string_of, strings_view,
};

verus! {

// ── Sources ──────────────────────────────────────────────────────────────────

/// A file that a source directive can name.
pub struct SourceFile {
    /// The path by which directives name it.
    pub path: String,
    /// The path by which it is told apart from other files.
    pub canonical: String,
    /// The directory to which paths in it are relative.
    pub dir: String,
    /// Its text, or why it could not be read.
    pub content: Result<String, String>,
}

/// The files that source directives can name.
pub struct Sources {
    /// What `~/` stands for.
    pub home: String,
    pub files: Vec<SourceFile>,
}

pub struct SourceView {
    pub path: Seq<char>,
    pub canonical: Seq<char>,
    pub dir: Seq<char>,
    pub content: Result<Seq<char>, Seq<char>>,
}

pub open spec fn source_view(f: SourceFile) -> SourceView {
    SourceView {
        path: f.path@,
        canonical: f.canonical@,
        dir: f.dir@,
        content: match f.content {
            Ok(t) => Ok(t@),
            Err(e) => Err(e@),
        },
    }
}

pub struct SourcesView {
    pub home: Seq<char>,
    pub files: Seq<SourceView>,
}

pub open spec fn sources_view(s: Sources) -> SourcesView {
    SourcesView {
        home: s.home@,
        files: Seq::new(s.files@.len(), |i: int| source_view(s.files@[i])),
    }
}

/// Whether positions in every file fit their types.
pub open spec fn sources_countable(s: SourcesView) -> bool {
    forall|i: int|
        0 <= i < s.files.len() ==> ((#[trigger] s.files[i]).content matches Ok(t) ==> countable(t))
}

/// The first file whose path is `path`.
pub open spec fn find_source(files: Seq<SourceView>, path: Seq<char>) -> Option<SourceView>
    decreases files.len(),
{
    if files.len() == 0 {
        None
    } else if files[0].path == path {
        Some(files[0])
    } else {
        find_source(files.skip(1), path)
    }
}

/// The path `p` relative to the directory `dir`.
pub open spec fn joined(dir: Seq<char>, p: Seq<char>) -> Seq<char> {
    if dir.len() == 0 || dir.last() == '/' {
        dir + p
    } else {
        dir.push('/') + p
    }
}

/// The path that a directive's `raw` path means in a file in `dir`.
pub open spec fn resolved(raw: Seq<char>, home: Seq<char>, dir: Seq<char>) -> Seq<char> {
    let p = if has_at(raw, 0, "~/"@) {
        home.push('/') + raw.skip(2)
    } else {
        raw
    };
    if p.len() > 0 && p[0] == '/' {
        p
    } else {
        joined(dir, p)
    }
}

/// A string as std's `Debug` writes it.
pub uninterp spec fn debug_text(s: Seq<char>) -> Seq<char>;

/// `<str as Debug>::fmt`: the string in quotes, with escapes, a function of the
/// string alone.
#[verifier::external_body]
fn debug_string(s: &str) -> (r: String)
    ensures
        r@ == debug_text(s@),
{
    format!("{:?}", s)
}

pub fn resolve_source(raw: &str, home: &str, dir: &str) -> (r: String)
    ensures
        r@ == resolved(raw@, home@, dir@),
{
    let c = chars_of(raw);
    let mut p = String::new();
    proof {
        reveal_strlit("~/");
    }
    if found_at(c.as_slice(), 0, "~/") {
        p.append(home);
        p.push('/');
        let rest = vstd::slice::slice_subrange(c.as_slice(), 2, c.len());
        p.append(string_of(rest).as_str());
        assert(rest@ =~= raw@.skip(2));
        assert(p@ =~= home@.push('/') + raw@.skip(2));
    } else {
        p.append(raw);
        assert(p@ =~= raw@);
    }
    let pc = chars_of(p.as_str());
    if pc.len() > 0 && pc[0] == '/' {
        return p;
    }
    let d = chars_of(dir);
    let mut out = String::new();
    out.append(dir);
    assert(out@ =~= dir@);
    if d.len() > 0 && d[d.len() - 1] != '/' {
        out.push('/');
    }
    out.append(p.as_str());
    out
}

// ── The grammar ──────────────────────────────────────────────────────────────

/// What a file is parsed in: its tokens, its variables, and where it finds
/// sources, if it does.
pub struct Context {
    pub toks: Seq<LexemeView>,
    pub vars: Seq<VarView>,
    pub sources: Option<SourcesView>,
    pub dir: Seq<char>,
}

/// How far a parse has come: the index of the current token, the errors so
/// far, the files already read, and the files that were asked for in vain.
pub struct Progress {
    pub i: int,
    pub errors: Seq<ErrorView>,
    pub visited: Seq<Seq<char>>,
    pub missing: Seq<Seq<char>>,
}

impl Context {
    pub open spec fn tok(self, p: Progress) -> TokView {
        self.toks[p.i].tok
    }

    pub open spec fn span(self, p: Progress) -> Span {
        self.toks[p.i].span
    }

    /// Moves on to the next token; nothing follows the end of the input.
    pub open spec fn bump(self, p: Progress) -> Progress {
        if p.i + 1 < self.toks.len() {
            Progress { i: p.i + 1, errors: p.errors + self.toks[p.i + 1].errors, ..p }
        } else {
            p
        }
    }
}

pub open spec fn failed(p: Progress, message: Seq<char>, span: Span) -> Progress {
    Progress { errors: p.errors.push(ErrorView { message, span }), ..p }
}

pub open spec fn at(value: ValueView, span: Span) -> Option<SpannedView> {
    Some(SpannedView { value, span })
}

/// Parses one value.
pub open spec fn single(c: Context, p: Progress) -> (Option<SpannedView>, Progress)
    decreases c.toks.len() - p.i, 0int,
{
    let sp = c.span(p);
    match c.tok(p) {
        TokView::StringLit(s) => (at(ValueView::String(s), sp), c.bump(p)),
        TokView::Ident(s) => (
            at(
                match truth_of(s) {
                    Some(b) => ValueView::Bool(b),
                    None => ValueView::Ident(s),
                },
                sp,
            ),
            c.bump(p),
        ),
        TokView::VarRef(name) => match variable(c.vars, name) {
            Some(v) => (at(v, sp), c.bump(p)),
            None => (
                at(ValueView::Ident(Seq::empty()), sp),
                failed(c.bump(p), "undefined variable '$"@ + name + "'"@, sp),
            ),
        },
        TokView::Int(n) => (at(ValueView::Int(n), sp), c.bump(p)),
        TokView::Float(x) => (at(ValueView::Float(x), sp), c.bump(p)),
        TokView::Dimension(x, u) => (at(ValueView::Dimension(x, u), sp), c.bump(p)),
        TokView::Color(r, g, b, a) => (at(ValueView::Color(r, g, b, a), sp), c.bump(p)),
        TokView::LBracket => if p.i + 1 < c.toks.len() {
            let (items, q) = elements(c, c.bump(p), Seq::empty());
            let (end, r) = closing(c, q, TokView::RBracket, "expected RBracket, got Eof"@, sp);
            (at(ValueView::Array(items), merged(sp, end)), r)
        } else {
            (None, p)
        },
        _ => (None, p),
    }
}

/// Takes the closing token `t`, or reports that the input ended; gives the
/// span at which the construct ends, `otherwise` without its closing token.
pub open spec fn closing(
    c: Context,
    p: Progress,
    t: TokView,
    message: Seq<char>,
    otherwise: Span,
) -> (Span, Progress) {
    if c.tok(p) == t {
        (c.span(p), c.bump(p))
    } else {
        (otherwise, failed(p, message, c.span(p)))
    }
}

/// Parses the elements of an array up to its closing bracket. Commas between
/// them may be left out; what is no value is reported and skipped.
pub open spec fn elements(c: Context, p: Progress, acc: Seq<SpannedView>) -> (
    Seq<SpannedView>,
    Progress,
)
    decreases c.toks.len() - p.i, 1int,
{
    if c.tok(p) is RBracket || c.tok(p) is Eof {
        (acc, p)
    } else {
        let (v, q) = single(c, p);
        let found = match v {
            Some(x) => acc.push(x),
            None => acc,
        };
        let r = if c.tok(q) is Comma {
            c.bump(q)
        } else {
            q
        };
        let next = if r.i == p.i {
            c.bump(failed(r, "unexpected token in array"@, c.span(r)))
        } else {
            r
        };
        if p.i < next.i < c.toks.len() {
            elements(c, next, found)
        } else {
            (found, next)
        }
    }
}

/// Parses the values that follow commas.
pub open spec fn further(c: Context, p: Progress, acc: Seq<SpannedView>) -> (
    Seq<SpannedView>,
    Progress,
)
    decreases c.toks.len() - p.i,
{
    if !(c.tok(p) is Comma) {
        (acc, p)
    } else {
        let q = c.bump(p);
        if c.tok(q) is RBrace || c.tok(q) is Eof || c.tok(q) is LBrace {
            (acc, q)
        } else {
            match single(c, q) {
                (Some(v), r) => if p.i < r.i < c.toks.len() {
                    further(c, r, acc.push(v))
                } else {
                    (acc.push(v), r)
                },
                (None, r) => (acc, r),
            }
        }
    }
}

/// Parses the right-hand side of an assignment: one value, or several
/// separated by commas as an array.
pub open spec fn value_or_array(c: Context, p: Progress) -> (SpannedView, Progress) {
    match single(c, p) {
        (None, q) => (
            SpannedView { value: ValueView::Ident(Seq::empty()), span: c.span(q) },
            failed(q, "expected value after '='"@, c.span(q)),
        ),
        (Some(first), q) => if c.tok(q) is Comma {
            let (items, r) = further(c, q, seq![first]);
            (
                SpannedView {
                    value: ValueView::Array(items),
                    span: merged(first.span, items.last().span),
                },
                r,
            )
        } else {
            (first, q)
        },
    }
}

/// Skips to a closing bracket.
pub open spec fn to_bracket(c: Context, p: Progress) -> Progress
    decreases c.toks.len() - p.i,
{
    if c.tok(p) is RBracket || c.tok(p) is Eof || p.i + 1 >= c.toks.len() {
        p
    } else {
        to_bracket(c, c.bump(p))
    }
}

pub open spec fn is_value_tok(t: TokView) -> bool {
    t is Ident || t is VarRef || t is StringLit || t is Int || t is Float || t is Color
        || t is Dimension
}

/// Skips the right-hand side of a definition.
pub open spec fn skip_rhs(c: Context, p: Progress) -> Progress
    decreases c.toks.len() - p.i,
{
    let t = c.tok(p);
    if t is LBracket {
        c.bump(to_bracket(c, c.bump(p)))
    } else if is_value_tok(t) && p.i + 1 < c.toks.len() {
        let q = c.bump(p);
        if c.tok(q) is Comma {
            skip_rhs(c, c.bump(q))
        } else {
            q
        }
    } else {
        p
    }
}

/// Skips a definition, which was collected before.
pub open spec fn skip_definition(c: Context, p: Progress) -> Progress {
    let q = c.bump(p);
    skip_rhs(
        c,
        if c.tok(q) is Eq {
            c.bump(q)
        } else {
            q
        },
    )
}

/// The errors of a file, marked with the path by which it was named.
pub open spec fn marked(errors: Seq<ErrorView>, path: Seq<char>) -> Seq<ErrorView> {
    Seq::new(
        errors.len(),
        |i: int|
            ErrorView {
                message: "["@ + path + "] "@ + errors[i].message,
                span: errors[i].span,
            },
    )
}

/// The context in which the text of a sourced file is parsed.
pub open spec fn child_context(c: Context, s: SourcesView, f: SourceView, text: Seq<char>) -> Context {
    Context {
        toks: lexemes(text),
        vars: c.vars + definitions(text),
        sources: Some(s),
        dir: f.dir,
    }
}

/// The start of a parse.
pub open spec fn started(c: Context, visited: Seq<Seq<char>>, missing: Seq<Seq<char>>) -> Progress {
    Progress { i: 0, errors: c.toks[0].errors, visited, missing }
}

/// Puts in the items of the file that a directive at `span` names. Files can
/// nest at most `levels` deep.
pub open spec fn load(c: Context, p: Progress, raw: Seq<char>, span: Span, levels: nat) -> (
    Seq<ItemView>,
    Progress,
)
    decreases levels, 0int, 0int,
{
    match c.sources {
        None => (Seq::empty(), p),
        Some(s) => {
            let path = resolved(raw, s.home, c.dir);
            match find_source(s.files, path) {
                None => (Seq::empty(), Progress { missing: p.missing.push(path), ..p }),
                Some(f) => if p.visited.contains(f.canonical) || levels == 0 {
                    (
                        Seq::empty(),
                        failed(p, "source cycle detected: "@ + debug_text(path), span),
                    )
                } else {
                    let visited = p.visited.push(f.canonical);
                    match f.content {
                        Err(why) => (
                            Seq::empty(),
                            failed(
                                Progress { visited, ..p },
                                "cannot read source "@ + debug_text(path) + ": "@ + why,
                                span,
                            ),
                        ),
                        Ok(text) => {
                            let d = child_context(c, s, f, text);
                            let (items, q) = all_items(
                                d,
                                started(d, visited, p.missing),
                                false,
                                Seq::empty(),
                                (levels - 1) as nat,
                            );
                            (
                                items,
                                Progress {
                                    i: p.i,
                                    errors: p.errors + marked(q.errors, raw),
                                    visited: q.visited,
                                    missing: q.missing,
                                },
                            )
                        },
                    }
                },
            }
        },
    }
}

/// Parses a block or an assignment.
pub open spec fn one_item(c: Context, p: Progress, levels: nat) -> (Option<ItemView>, Progress)
    decreases levels, c.toks.len() - p.i, 1int,
{
    match c.tok(p) {
        TokView::Ident(s) if p.i + 1 < c.toks.len() => {
            let name = WordView { text: s, span: c.span(p) };
            let q = c.bump(p);
            match c.tok(q) {
                TokView::Eq => {
                    let (value, r) = value_or_array(c, c.bump(q));
                    (Some(ItemView::Assignment { key: name, value }), r)
                },
                TokView::LBrace => {
                    let (b, r) = braced(c, q, name, None, levels);
                    (Some(ItemView::Block(b)), r)
                },
                TokView::StringLit(l) => {
                    let (it, r) = labeled(c, q, name, WordView { text: l, span: c.span(q) }, levels);
                    (Some(it), r)
                },
                TokView::Ident(l) => {
                    let (it, r) = labeled(c, q, name, WordView { text: l, span: c.span(q) }, levels);
                    (Some(it), r)
                },
                _ => (
                    Some(
                        ItemView::Assignment {
                            key: name,
                            value: SpannedView { value: ValueView::Bool(true), span: name.span },
                        },
                    ),
                    q,
                ),
            }
        },
        _ => (None, p),
    }
}

/// Parses what follows a name and a label: the body of a block, or nothing,
/// in which case the label is the value of the name.
pub open spec fn labeled(c: Context, q: Progress, name: WordView, label: WordView, levels: nat) -> (
    ItemView,
    Progress,
)
    decreases levels, c.toks.len() - q.i, 1int,
{
    let r = c.bump(q);
    if c.tok(r) is LBrace {
        let (b, t) = braced(c, r, name, Some(label), levels);
        (ItemView::Block(b), t)
    } else {
        (
            ItemView::Assignment {
                key: name,
                value: SpannedView { value: ValueView::Ident(label.text), span: label.span },
            },
            r,
        )
    }
}

/// Parses a block from its opening brace on.
pub open spec fn braced(
    c: Context,
    p: Progress,
    name: WordView,
    label: Option<WordView>,
    levels: nat,
) -> (BlockView, Progress)
    decreases levels, c.toks.len() - p.i, 0int,
{
    if p.i + 1 < c.toks.len() {
        let (items, q) = all_items(c, c.bump(p), true, Seq::empty(), levels);
        let (end, r) = closing(c, q, TokView::RBrace, "expected RBrace, got Eof"@, c.span(q));
        (BlockView { name, label, items, span: merged(name.span, end) }, r)
    } else {
        (BlockView { name, label, items: Seq::empty(), span: name.span }, p)
    }
}

/// Parses a definition, a block or an assignment; skips a token that starts
/// none of these.
pub open spec fn plain_step(c: Context, p: Progress, levels: nat) -> (Seq<ItemView>, Progress)
    decreases levels, c.toks.len() - p.i, 2int,
{
    if c.tok(p) is VarDef {
        (Seq::empty(), skip_definition(c, p))
    } else {
        match one_item(c, p, levels) {
            (Some(it), q) => (seq![it], q),
            (None, q) => (Seq::empty(), c.bump(q)),
        }
    }
}

/// Parses one item, or a directive in its place.
pub open spec fn step(c: Context, p: Progress, levels: nat) -> (Seq<ItemView>, Progress)
    decreases levels, c.toks.len() - p.i, 3int,
{
    let sp = c.span(p);
    if c.tok(p) == TokView::Ident("source"@) {
        let q = c.bump(p);
        if c.tok(q) is Eq {
            let r = c.bump(q);
            match c.tok(r) {
                TokView::StringLit(raw) => load(c, c.bump(r), raw, sp, levels),
                _ => (
                    Seq::empty(),
                    c.bump(
                        failed(r, "source directive requires a quoted path string"@, c.span(r)),
                    ),
                ),
            }
        } else {
            plain_step(c, failed(q, "expected '=' after 'source'"@, sp), levels)
        }
    } else {
        plain_step(c, p, levels)
    }
}

/// Parses items up to the end of the input, in a block up to its closing
/// brace.
pub open spec fn all_items(
    c: Context,
    p: Progress,
    in_block: bool,
    acc: Seq<ItemView>,
    levels: nat,
) -> (Seq<ItemView>, Progress)
    decreases levels, c.toks.len() - p.i, 4int,
{
    if c.tok(p) is Eof || (in_block && c.tok(p) is RBrace) {
        (acc, p)
    } else {
        let (found, q) = step(c, p, levels);
        if p.i < q.i < c.toks.len() {
            all_items(c, q, in_block, acc + found, levels)
        } else {
            (acc + found, q)
        }
    }
}

// ── Parser ───────────────────────────────────────────────────────────────────

pub open spec fn error_view(e: ParseError) -> ErrorView {
    ErrorView { message: e.message@, span: e.span }
}

pub open spec fn errors_view(v: Seq<ParseError>) -> Seq<ErrorView> {
    Seq::new(v.len(), |i: int| error_view(v[i]))
}

/// Whether the line and column of each error are those of its span.
pub open spec fn located(v: Seq<ParseError>) -> bool {
    forall|i: int|
        0 <= i < v.len() ==> (#[trigger] v[i]).line == v[i].span.line && v[i].col == v[i].span.col
}

pub open spec fn lexeme_view(l: Lexeme) -> LexemeView {
    LexemeView { errors: errors_view(l.errors@), tok: l.tok@, span: l.span }
}

pub open spec fn lexemes_view(v: Seq<Lexeme>) -> Seq<LexemeView> {
    Seq::new(v.len(), |i: int| lexeme_view(v[i]))
}

proof fn lemma_lexemes_view(v: Seq<Lexeme>, t: Seq<LexemeView>)
    requires
        lexemes_are(v, t),
    ensures
        lexemes_view(v) == t,
        forall|i: int| 0 <= i < v.len() ==> located(#[trigger] v[i].errors@),
{
    assert forall|i: int| 0 <= i < v.len() implies lexeme_view(#[trigger] v[i]) == t[i] by {
        assert(v[i].is(t[i]));
        assert(errors_view(v[i].errors@) =~= t[i].errors) by {
            assert forall|k: int| 0 <= k < v[i].errors@.len() implies error_view(
                #[trigger] v[i].errors@[k],
            ) == t[i].errors[k] by {
                assert(v[i].errors@[k].at(t[i].errors[k]));
            }
        }
    }
    assert(lexemes_view(v) =~= t);
    assert forall|i: int| 0 <= i < v.len() implies located(#[trigger] v[i].errors@) by {
        assert(v[i].is(t[i]));
        assert forall|k: int| 0 <= k < v[i].errors@.len() implies (#[trigger] v[i].errors@[k]).line
            == v[i].errors@[k].span.line && v[i].errors@[k].col == v[i].errors@[k].span.col by {
            assert(v[i].errors@[k].at(t[i].errors[k]));
        }
    }
}

struct Parser<'a> {
    toks: Vec<Lexeme>,
    /// The index of the current token.
    i: usize,
    errors: Vec<ParseError>,
    vars: Vec<Var>,
    sources: Option<&'a Sources>,
    dir: String,
    visited: Vec<String>,
    missing: Vec<String>,
}

impl<'a> Parser<'a> {
    spec fn context(&self) -> Context {
        Context {
            toks: lexemes_view(self.toks@),
            vars: vars_view(self.vars@),
            sources: match self.sources {
                Some(s) => Some(sources_view(*s)),
                None => None,
            },
            dir: self.dir@,
        }
    }

    spec fn progress(&self) -> Progress {
        Progress {
            i: self.i as int,
            errors: errors_view(self.errors@),
            visited: strings_view(self.visited@),
            missing: strings_view(self.missing@),
        }
    }

    spec fn wf(&self) -> bool {
        &&& self.i < self.toks@.len()
        &&& ends_in_eof(lexemes_view(self.toks@))
        &&& located(self.errors@)
        &&& forall|i: int| 0 <= i < self.toks@.len() ==> located(#[trigger] self.toks@[i].errors@)
        &&& self.sources matches Some(s) ==> sources_countable(sources_view(*s))
    }

    /// What every method keeps.
    spec fn follows(&self, before: Self) -> bool {
        &&& self.wf()
        &&& self.toks == before.toks
        &&& self.vars == before.vars
        &&& self.sources == before.sources
        &&& self.dir == before.dir
        &&& self.i >= before.i
    }

    /// A parser at the first token of `src`.
    fn new(
        src: &[char],
        vars: Vec<Var>,
        sources: Option<&'a Sources>,
        dir: String,
        visited: Vec<String>,
        missing: Vec<String>,
    ) -> (r: Self)
        requires
            countable(src@),
            sources matches Some(s) ==> sources_countable(sources_view(*s)),
        ensures
            r.wf(),
            r.context() == (Context {
                toks: lexemes(src@),
                vars: vars_view(vars@),
                sources: match sources {
                    Some(s) => Some(sources_view(*s)),
                    None => None,
                },
                dir: dir@,
            }),
            r.progress() == started(
                r.context(),
                strings_view(visited@),
                strings_view(missing@),
            ),
    {
        let toks = tokenize(src);
        proof {
            lemma_lexemes_view(toks@, lexemes(src@));
        }
        let errors = copy_errors(&toks[0].errors);
        assert(located(toks@[0].errors@));
        Parser { toks, i: 0, errors, vars, sources, dir, visited, missing }
    }

    /// Moves on to the next token.
    fn bump(&mut self)
        requires
            old(self).wf(),
        ensures
            final(self).follows(*old(self)),
            final(self).progress() == old(self).context().bump(old(self).progress()),
            final(self).i == if old(self).i + 1 < old(self).toks@.len() {
                old(self).i + 1
            } else {
                old(self).i as int
            },
    {
        if self.i < self.toks.len() - 1 {
            self.i += 1;
            let mut e = copy_errors(&self.toks[self.i].errors);
            let ghost before = self.errors@;
            let ghost more = e@;
            assert(located(self.toks@[self.i as int].errors@));
            self.errors.append(&mut e);
            assert(self.errors@ =~= before + more);
            assert(errors_view(self.errors@) =~= errors_view(before) + errors_view(more));
            assert(located(self.errors@)) by {
                assert forall|k: int| 0 <= k < self.errors@.len() implies (
                #[trigger] self.errors@[k]).line == self.errors@[k].span.line && self.errors@[k].col
                    == self.errors@[k].span.col by {
                    if k < before.len() {
                        assert(self.errors@[k] == before[k]);
                    } else {
                        assert(self.errors@[k] == more[k - before.len()]);
                    }
                }
            }
        }
    }

    fn fail(&mut self, message: String, span: Span)
        requires
            old(self).wf(),
        ensures
            final(self).follows(*old(self)),
            final(self).i == old(self).i,
            final(self).progress() == failed(old(self).progress(), message@, span),
    {
        let ghost before = self.errors@;
        self.errors.push(ParseError::new(message, span));
        assert(errors_view(self.errors@) =~= errors_view(before).push(
            ErrorView { message: message@, span },
        ));
    }

    fn span(&self) -> (r: Span)
        requires
            self.wf(),
        ensures
            r == self.context().span(self.progress()),
    {
        self.toks[self.i].span
    }

    fn peek(&self) -> (r: &Tok)
        requires
            self.wf(),
        ensures
            r@ == self.context().tok(self.progress()),
            !(r@ is Eof) ==> self.i + 1 < self.toks@.len(),
    {
        assert(lexemes_view(self.toks@)[self.i as int].tok == self.toks@[self.i as int].tok@);
        assert(lexemes_view(self.toks@).last() == lexemes_view(self.toks@)[self.toks@.len() - 1]);
        &self.toks[self.i].tok
    }

    /// Takes a closing token, for which `close` says whether the current one
    /// is it.
    fn close(&mut self, close: bool, t: Ghost<TokView>, message: &str, otherwise: Span) -> (r: Span)
        requires
            old(self).wf(),
            close == (old(self).context().tok(old(self).progress()) == t@),
        ensures
            final(self).follows(*old(self)),
            (r, final(self).progress()) == closing(
                old(self).context(),
                old(self).progress(),
                t@,
                message@,
                otherwise,
            ),
    {
        let sp = self.span();
        if close {
            self.bump();
            sp
        } else {
            self.fail(message.to_owned(), sp);
            otherwise
        }
    }

    fn parse_single_value(&mut self) -> (r: Option<Spanned<Value>>)
        requires
            old(self).wf(),
        ensures
            final(self).follows(*old(self)),
            value_is(r, single(old(self).context(), old(self).progress()).0),
            final(self).progress() == single(old(self).context(), old(self).progress()).1,
            r is Some ==> final(self).i > old(self).i,
        decreases old(self).toks@.len() - old(self).i, 0int,
    {
        let sp = self.span();
        match self.peek() {
            Tok::StringLit(s) => {
                let v = Value::String(s.clone());
                self.bump();
                Some(Spanned::new(v, sp))
            },
            Tok::Ident(s) => {
                let v = match truth(s.as_str()) {
                    Some(b) => Value::Bool(b),
                    None => Value::Ident(s.clone()),
                };
                self.bump();
                Some(Spanned::new(v, sp))
            },
            Tok::VarRef(name) => {
                let found = match find_var(&self.vars, name.as_str()) {
                    Some(v) => Some(v.clone()),
                    None => None,
                };
                match found {
                    Some(v) => {
                        self.bump();
                        Some(Spanned::new(v, sp))
                    },
                    None => {
                        let mut m = "undefined variable '$".to_owned();
                        m.append(name.as_str());
                        m.append("'");
                        self.bump();
                        self.fail(m, sp);
                        let empty = String::new();
                        assert(empty@ =~= Seq::<char>::empty());
                        Some(Spanned::new(Value::Ident(empty), sp))
                    },
                }
            },
            Tok::Int(n) => {
                let v = Value::Int(*n);
                self.bump();
                Some(Spanned::new(v, sp))
            },
            Tok::Float(x) => {
                let v = Value::Float(x.clone());
                self.bump();
                Some(Spanned::new(v, sp))
            },
            Tok::Dimension(x, u) => {
                let v = Value::Dimension(x.clone(), *u);
                self.bump();
                Some(Spanned::new(v, sp))
            },
            Tok::Color(r, g, b, a) => {
                let v = Value::Color(*r, *g, *b, *a);
                self.bump();
                Some(Spanned::new(v, sp))
            },
            Tok::LBracket => {
                self.bump();
                let items = self.parse_elements();
                let close = matches!(self.peek(), Tok::RBracket);
                let end = self.close(
                    close,
                    Ghost(TokView::RBracket),
                    "expected RBracket, got Eof",
                    sp,
                );
                let v = Value::Array(items);
                proof {
                    lemma_array_view(v);
                }
                Some(Spanned::new(v, sp.merge(end)))
            },
            _ => None,
        }
    }

    /// The elements of an array up to its closing bracket.
    fn parse_elements(&mut self) -> (r: Vec<Spanned<Value>>)
        requires
            old(self).wf(),
        ensures
            final(self).follows(*old(self)),
            values_view(r@) == elements(
                old(self).context(),
                old(self).progress(),
                Seq::empty(),
            ).0,
            final(self).progress() == elements(
                old(self).context(),
                old(self).progress(),
                Seq::empty(),
            ).1,
        decreases old(self).toks@.len() - old(self).i, 1int,
    {
        let ghost c = self.context();
        let ghost p = self.progress();
        let mut items: Vec<Spanned<Value>> = Vec::new();
        assert(values_view(items@) =~= Seq::<SpannedView>::empty());
        while !matches!(self.peek(), Tok::RBracket | Tok::Eof)
            invariant
                self.follows(*old(self)),
                c == self.context(),
                c == old(self).context(),
                p == old(self).progress(),
                elements(c, p, Seq::empty()) == elements(
                    c,
                    self.progress(),
                    values_view(items@),
                ),
            decreases self.toks@.len() - self.i,
        {
            let before: usize = self.i;
            let ghost acc = values_view(items@);
            match self.parse_single_value() {
                Some(v) => {
                    items.push(v);
                    assert(values_view(items@) =~= acc.push(spanned_view(v)));
                },
                None => {},
            }
            if matches!(self.peek(), Tok::Comma) {
                self.bump();
            }
            if self.i == before {
                let sp = self.span();
                self.fail("unexpected token in array".to_owned(), sp);
                self.bump();
            }
        }
        items
    }

    fn parse_value_or_array(&mut self) -> (r: Spanned<Value>)
        requires
            old(self).wf(),
        ensures
            final(self).follows(*old(self)),
            spanned_view(r) == value_or_array(old(self).context(), old(self).progress()).0,
            final(self).progress() == value_or_array(old(self).context(), old(self).progress()).1,
    {
        let ghost c = self.context();
        let first = match self.parse_single_value() {
            Some(v) => v,
            None => {
                let sp = self.span();
                self.fail("expected value after '='".to_owned(), sp);
                let empty = String::new();
                assert(empty@ =~= Seq::<char>::empty());
                return Spanned::new(Value::Ident(empty), sp);
            },
        };
        if !matches!(self.peek(), Tok::Comma) {
            return first;
        }
        let start = first.span;
        let ghost q = self.progress();
        let ghost seed = seq![spanned_view(first)];
        let mut items: Vec<Spanned<Value>> = Vec::new();
        items.push(first);
        assert(values_view(items@) =~= seed);
        loop
            invariant_except_break
                further(c, q, seed) == further(c, self.progress(), values_view(items@)),
            invariant
                self.follows(*old(self)),
                c == self.context(),
                items@.len() > 0,
            ensures
                further(c, q, seed) == (values_view(items@), self.progress()),
            decreases self.toks@.len() - self.i,
        {
            if !matches!(self.peek(), Tok::Comma) {
                break;
            }
            self.bump();
            if matches!(self.peek(), Tok::RBrace | Tok::Eof | Tok::LBrace) {
                break;
            }
            let ghost acc = values_view(items@);
            match self.parse_single_value() {
                Some(v) => {
                    items.push(v);
                    assert(values_view(items@) =~= acc.push(spanned_view(v)));
                },
                None => {
                    break;
                },
            }
        }
        let end = items[items.len() - 1].span;
        let v = Value::Array(items);
        proof {
            lemma_array_view(v);
        }
        Spanned::new(v, start.merge(end))
    }

    fn skip_to_bracket(&mut self)
        requires
            old(self).wf(),
        ensures
            final(self).follows(*old(self)),
            final(self).progress() == to_bracket(old(self).context(), old(self).progress()),
    {
        let ghost c = self.context();
        let ghost p = self.progress();
        while !matches!(self.peek(), Tok::RBracket | Tok::Eof)
            invariant
                self.follows(*old(self)),
                c == self.context(),
                to_bracket(c, p) == to_bracket(c, self.progress()),
            decreases self.toks@.len() - self.i,
        {
            self.bump();
        }
    }

    fn skip_value_rhs(&mut self)
        requires
            old(self).wf(),
        ensures
            final(self).follows(*old(self)),
            final(self).progress() == skip_rhs(old(self).context(), old(self).progress()),
        decreases old(self).toks@.len() - old(self).i,
    {
        match self.peek() {
            Tok::LBracket => {
                self.bump();
                self.skip_to_bracket();
                self.bump();
            },
            Tok::Ident(_) | Tok::VarRef(_) | Tok::StringLit(_) | Tok::Int(_) | Tok::Float(_)
            | Tok::Color(_, _, _, _) | Tok::Dimension(_, _) => {
                self.bump();
                if matches!(self.peek(), Tok::Comma) {
                    self.bump();
                    self.skip_value_rhs();
                }
            },
            _ => {},
        }
    }

    fn skip_var_def(&mut self)
        requires
            old(self).wf(),
            old(self).context().tok(old(self).progress()) is VarDef,
        ensures
            final(self).follows(*old(self)),
            final(self).i > old(self).i,
            final(self).progress() == skip_definition(old(self).context(), old(self).progress()),
    {
        let _ = self.peek();
        self.bump();
        if matches!(self.peek(), Tok::Eq) {
            self.bump();
        }
        self.skip_value_rhs();
    }

    /// A block from its opening brace on.
    fn parse_braced(&mut self, name: Spanned<String>, label: Option<Spanned<String>>, levels: usize) -> (r:
        Item)
        requires
            old(self).wf(),
            old(self).context().tok(old(self).progress()) is LBrace,
        ensures
            final(self).follows(*old(self)),
            crate::config::value::item_view(r) == ItemView::Block(
                braced(
                    old(self).context(),
                    old(self).progress(),
                    word_view(name),
                    label_view(label),
                    levels as nat,
                ).0,
            ),
            final(self).progress() == braced(
                old(self).context(),
                old(self).progress(),
                word_view(name),
                label_view(label),
                levels as nat,
            ).1,
        decreases levels, old(self).toks@.len() - old(self).i, 0int,
    {
        let _ = self.peek();
        self.bump();
        let items = self.parse_items(true, levels);
        let close = matches!(self.peek(), Tok::RBrace);
        let sp = self.span();
        let end = self.close(close, Ghost(TokView::RBrace), "expected RBrace, got Eof", sp);
        let span = name.span.merge(end);
        let item = Item::Block(Block { name, label, items, span });
        proof {
            lemma_block_view(item);
        }
        item
    }

    /// What follows a name and a label.
    fn parse_labeled(&mut self, name: Spanned<String>, label: Spanned<String>, levels: usize) -> (r: Item)
        requires
            old(self).wf(),
            !(old(self).context().tok(old(self).progress()) is Eof),
        ensures
            final(self).follows(*old(self)),
            final(self).i > old(self).i,
            crate::config::value::item_view(r) == labeled(
                old(self).context(),
                old(self).progress(),
                word_view(name),
                word_view(label),
                levels as nat,
            ).0,
            final(self).progress() == labeled(
                old(self).context(),
                old(self).progress(),
                word_view(name),
                word_view(label),
                levels as nat,
            ).1,
        decreases levels, old(self).toks@.len() - old(self).i, 1int,
    {
        let _ = self.peek();
        self.bump();
        if matches!(self.peek(), Tok::LBrace) {
            self.parse_braced(name, Some(label), levels)
        } else {
            let span = label.span;
            Item::Assignment(
                Assignment { key: name, value: Spanned::new(Value::Ident(label.value), span) },
            )
        }
    }

    fn parse_item(&mut self, levels: usize) -> (r: Option<Item>)
        requires
            old(self).wf(),
        ensures
            final(self).follows(*old(self)),
            match r {
                Some(it) => one_item(
                    old(self).context(),
                    old(self).progress(),
                    levels as nat,
                ).0 == Some(crate::config::value::item_view(it)),
                None => one_item(
                    old(self).context(),
                    old(self).progress(),
                    levels as nat,
                ).0 is None,
            },
            final(self).progress() == one_item(
                old(self).context(),
                old(self).progress(),
                levels as nat,
            ).1,
            r is Some ==> final(self).i > old(self).i,
        decreases levels, old(self).toks@.len() - old(self).i, 1int,
    {
        let sp = self.span();
        let name = match self.peek() {
            Tok::Ident(s) => Spanned::new(s.clone(), sp),
            _ => {
                return None;
            },
        };
        self.bump();
        let sp2 = self.span();
        match self.peek() {
            Tok::Eq => {
                self.bump();
                let value = self.parse_value_or_array();
                Some(Item::Assignment(Assignment { key: name, value }))
            },
            Tok::LBrace => Some(self.parse_braced(name, None, levels)),
            Tok::StringLit(l) => {
                let label = Spanned::new(l.clone(), sp2);
                Some(self.parse_labeled(name, label, levels))
            },
            Tok::Ident(l) => {
                let label = Spanned::new(l.clone(), sp2);
                Some(self.parse_labeled(name, label, levels))
            },
            _ => {
                let span = name.span;
                Some(
                    Item::Assignment(
                        Assignment { key: name, value: Spanned::new(Value::Bool(true), span) },
                    ),
                )
            },
        }
    }

    /// Puts in the items of the file that a directive names.
    fn load(&mut self, raw: String, span: Span, levels: usize) -> (r: Vec<Item>)
        requires
            old(self).wf(),
        ensures
            final(self).follows(*old(self)),
            final(self).i == old(self).i,
            items_view(r@) == load(
                old(self).context(),
                old(self).progress(),
                raw@,
                span,
                levels as nat,
            ).0,
            final(self).progress() == load(
                old(self).context(),
                old(self).progress(),
                raw@,
                span,
                levels as nat,
            ).1,
        decreases levels, 0int, 0int,
    {
        let none: Vec<Item> = Vec::new();
        assert(items_view(none@) =~= Seq::<ItemView>::empty());
        let ghost c = self.context();
        let ghost p = self.progress();
        let sources: &'a Sources = match self.sources {
            Some(s) => s,
            None => {
                return none;
            },
        };
        let ghost sv = sources_view(*sources);
        let path = resolve_source(raw.as_str(), sources.home.as_str(), self.dir.as_str());
        let f: &'a SourceFile = match find_file(&sources.files, path.as_str()) {
            Some(k) => {
                assert(sv.files[k as int] == source_view(sources.files@[k as int]));
                &sources.files[k]
            },
            None => {
                let ghost before = self.missing@;
                self.missing.push(path);
                assert(strings_view(self.missing@) =~= strings_view(before).push(path@));
                return none;
            },
        };
        if levels == 0 || holds(&self.visited, f.canonical.as_str()) {
            let mut m = "source cycle detected: ".to_owned();
            m.append(debug_string(path.as_str()).as_str());
            self.fail(m, span);
            return none;
        }
        let ghost before = self.visited@;
        self.visited.push(f.canonical.clone());
        assert(strings_view(self.visited@) =~= strings_view(before).push(f.canonical@));
        match &f.content {
            Err(why) => {
                let mut m = "cannot read source ".to_owned();
                m.append(debug_string(path.as_str()).as_str());
                m.append(": ");
                m.append(why.as_str());
                self.fail(m, span);
                none
            },
            Ok(text) => {
                let chars = chars_of(text.as_str());
                let mut vars = copy_vars(&self.vars);
                let mut own = collect_vars(chars.as_slice());
                let ghost outer = vars@;
                let ghost inner = own@;
                vars.append(&mut own);
                assert(vars@ =~= outer + inner);
                assert(vars_view(vars@) =~= vars_view(outer) + vars_view(inner));
                let mut visited: Vec<String> = Vec::new();
                let mut missing: Vec<String> = Vec::new();
                std::mem::swap(&mut visited, &mut self.visited);
                std::mem::swap(&mut missing, &mut self.missing);
                let mut child = Parser::new(
                    chars.as_slice(),
                    vars,
                    Some(sources),
                    f.dir.clone(),
                    visited,
                    missing,
                );
                let ghost d = child.context();
                let ghost start = child.progress();
                assert(d == child_context(c, sv, source_view(*f), text@));
                let items = child.parse_items(false, levels - 1);
                self.visited = child.visited;
                self.missing = child.missing;
                let ghost before_errors = self.errors@;
                let ghost found = errors_view(child.errors@);
                let mut k: usize = 0;
                assert(errors_view(self.errors@) =~= errors_view(before_errors) + marked(
                    found,
                    raw@,
                ).take(0));
                while k < child.errors.len()
                    invariant
                        k <= child.errors@.len(),
                        found == errors_view(child.errors@),
                        self.toks == old(self).toks,
                        self.i == old(self).i,
                        self.vars == old(self).vars,
                        self.sources == old(self).sources,
                        self.dir == old(self).dir,
                        self.wf(),
                        self.visited == child.visited,
                        self.missing == child.missing,
                        errors_view(self.errors@) == errors_view(before_errors) + marked(
                            found,
                            raw@,
                        ).take(k as int),
                    decreases child.errors@.len() - k,
                {
                    let e = &child.errors[k];
                    let mut m = "[".to_owned();
                    m.append(raw.as_str());
                    m.append("] ");
                    m.append(e.message.as_str());
                    let ghost seen = self.errors@;
                    let sp = e.span;
                    self.errors.push(ParseError::new(m, sp));
                    k += 1;
                    proof {
                        assert(m@ =~= "["@ + raw@ + "] "@ + e.message@);
                        let all = marked(found, raw@);
                        assert(all.take(k as int) =~= all.take(k - 1).push(all[k - 1]));
                        assert(errors_view(self.errors@) =~= errors_view(seen).push(all[k - 1]));
                        assert(errors_view(self.errors@) =~= errors_view(before_errors)
                            + all.take(k as int));
                    }
                }
                assert(marked(found, raw@).take(k as int) =~= marked(found, raw@));
                items
            },
        }
    }

    fn parse_plain_step(&mut self, levels: usize) -> (r: Vec<Item>)
        requires
            old(self).wf(),
        ensures
            final(self).follows(*old(self)),
            items_view(r@) == plain_step(
                old(self).context(),
                old(self).progress(),
                levels as nat,
            ).0,
            final(self).progress() == plain_step(
                old(self).context(),
                old(self).progress(),
                levels as nat,
            ).1,
            !(old(self).context().tok(old(self).progress()) is Eof) ==> final(self).i > old(self).i,
        decreases levels, old(self).toks@.len() - old(self).i, 2int,
    {
        let mut items: Vec<Item> = Vec::new();
        assert(items_view(items@) =~= Seq::<ItemView>::empty());
        if matches!(self.peek(), Tok::VarDef(_)) {
            self.skip_var_def();
            return items;
        }
        match self.parse_item(levels) {
            Some(it) => {
                items.push(it);
                assert(items_view(items@) =~= seq![crate::config::value::item_view(it)]);
            },
            None => {
                let _ = self.peek();
                self.bump();
            },
        }
        items
    }

    #[verifier::spinoff_prover]
    #[verifier::rlimit(60)]
    fn parse_step(&mut self, levels: usize) -> (r: Vec<Item>)
        requires
            old(self).wf(),
            !(old(self).context().tok(old(self).progress()) is Eof),
        ensures
            final(self).follows(*old(self)),
            final(self).i > old(self).i,
            items_view(r@) == step(old(self).context(), old(self).progress(), levels as nat).0,
            final(self).progress() == step(
                old(self).context(),
                old(self).progress(),
                levels as nat,
            ).1,
        decreases levels, old(self).toks@.len() - old(self).i, 3int,
    {
        let span = self.span();
        let is_source = match self.peek() {
            Tok::Ident(s) => same(s.as_str(), "source"),
            _ => false,
        };
        if !is_source {
            return self.parse_plain_step(levels);
        }
        self.bump();
        if !matches!(self.peek(), Tok::Eq) {
            self.fail("expected '=' after 'source'".to_owned(), span);
            return self.parse_plain_step(levels);
        }
        self.bump();
        let raw = match self.peek() {
            Tok::StringLit(s) => Some(s.clone()),
            _ => None,
        };
        match raw {
            Some(raw) => {
                self.bump();
                self.load(raw, span, levels)
            },
            None => {
                let sp = self.span();
                self.fail("source directive requires a quoted path string".to_owned(), sp);
                self.bump();
                let none: Vec<Item> = Vec::new();
                assert(items_view(none@) =~= Seq::<ItemView>::empty());
                none
            },
        }
    }

    /// Items up to the end of the input, in a block up to its closing brace.
    fn parse_items(&mut self, in_block: bool, levels: usize) -> (r: Vec<Item>)
        requires
            old(self).wf(),
        ensures
            final(self).follows(*old(self)),
            items_view(r@) == all_items(
                old(self).context(),
                old(self).progress(),
                in_block,
                Seq::empty(),
                levels as nat,
            ).0,
            final(self).progress() == all_items(
                old(self).context(),
                old(self).progress(),
                in_block,
                Seq::empty(),
                levels as nat,
            ).1,
        decreases levels, old(self).toks@.len() - old(self).i, 4int,
    {
        let ghost c = self.context();
        let ghost p = self.progress();
        let mut items: Vec<Item> = Vec::new();
        assert(items_view(items@) =~= Seq::<ItemView>::empty());
        loop
            invariant_except_break
                all_items(c, p, in_block, Seq::empty(), levels as nat) == all_items(
                    c,
                    self.progress(),
                    in_block,
                    items_view(items@),
                    levels as nat,
                ),
            invariant
                self.follows(*old(self)),
                c == self.context(),
                c == old(self).context(),
                p == old(self).progress(),
            ensures
                all_items(c, p, in_block, Seq::empty(), levels as nat) == (
                    items_view(items@),
                    self.progress(),
                ),
            decreases self.toks@.len() - self.i,
        {
            let done = match self.peek() {
                Tok::Eof => true,
                Tok::RBrace => in_block,
                _ => false,
            };
            if done {
                break;
            }
            let ghost acc = items@;
            let mut found = self.parse_step(levels);
            let ghost more = found@;
            items.append(&mut found);
            assert(items@ =~= acc + more);
            assert(items_view(items@) =~= items_view(acc) + items_view(more));
        }
        items
    }
}

/// Whether `r` is the value that `v` describes.
pub open spec fn value_is(r: Option<Spanned<Value>>, v: Option<SpannedView>) -> bool {
    match r {
        Some(x) => v == Some(spanned_view(x)),
        None => v is None,
    }
}

fn copy_errors(v: &Vec<ParseError>) -> (r: Vec<ParseError>)
    ensures
        errors_view(r@) == errors_view(v@),
        located(v@) ==> located(r@),
{
    let mut r: Vec<ParseError> = Vec::new();
    let mut i: usize = 0;
    while i < v.len()
        invariant
            i <= v.len(),
            r@.len() == i,
            forall|k: int|
                0 <= k < i ==> error_view(#[trigger] r@[k]) == error_view(v@[k]) && r@[k].line
                    == v@[k].line && r@[k].col == v@[k].col,
        decreases v.len() - i,
    {
        r.push(v[i].clone());
        i += 1;
    }
    assert(errors_view(r@) =~= errors_view(v@));
    r
}

fn copy_vars(v: &Vec<Var>) -> (r: Vec<Var>)
    ensures
        vars_view(r@) == vars_view(v@),
{
    let mut r: Vec<Var> = Vec::new();
    let mut i: usize = 0;
    while i < v.len()
        invariant
            i <= v.len(),
            r@.len() == i,
            forall|k: int|
                0 <= k < i ==> crate::config::vars::var_view(#[trigger] r@[k])
                    == crate::config::vars::var_view(v@[k]),
        decreases v.len() - i,
    {
        r.push(Var { name: v[i].name.clone(), value: v[i].value.clone() });
        i += 1;
    }
    assert(vars_view(r@) =~= vars_view(v@));
    r
}

fn find_file(files: &Vec<SourceFile>, path: &str) -> (r: Option<usize>)
    ensures
        ({
            let all = Seq::new(files@.len(), |i: int| source_view(files@[i]));
            match r {
                Some(k) => k < files@.len() && find_source(all, path@) == Some(
                    source_view(files@[k as int]),
                ),
                None => find_source(all, path@) is None,
            }
        }),
{
    let ghost all = Seq::new(files@.len(), |i: int| source_view(files@[i]));
    let mut i: usize = 0;
    assert(all.skip(0) =~= all);
    while i < files.len()
        invariant
            i <= files.len(),
            all == Seq::new(files@.len(), |i: int| source_view(files@[i])),
            find_source(all, path@) == find_source(all.skip(i as int), path@),
        decreases files.len() - i,
    {
        assert(all.skip(i as int)[0] == source_view(files@[i as int]));
        assert(all.skip(i as int).skip(1) =~= all.skip(i + 1));
        if same(files[i].path.as_str(), path) {
            return Some(i);
        }
        i += 1;
    }
    None
}

fn holds(v: &Vec<String>, s: &str) -> (r: bool)
    ensures
        r == strings_view(v@).contains(s@),
{
    let mut i: usize = 0;
    while i < v.len()
        invariant
            i <= v.len(),
            forall|k: int| 0 <= k < i ==> (#[trigger] strings_view(v@)[k]) != s@,
        decreases v.len() - i,
    {
        if same(v[i].as_str(), s) {
            assert(strings_view(v@)[i as int] == s@);
            return true;
        }
        i += 1;
    }
    false
}

// ── Entry points ─────────────────────────────────────────────────────────────

/// The context of a text on its own: its directives name nothing.
pub open spec fn isolated(s: Seq<char>) -> Context {
    Context { toks: lexemes(s), vars: definitions(s), sources: None, dir: Seq::empty() }
}

/// The context of a file in `dir` among `sources`.
pub open spec fn among(s: Seq<char>, sources: SourcesView, dir: Seq<char>) -> Context {
    Context { toks: lexemes(s), vars: definitions(s), sources: Some(sources), dir }
}

/// The items of a text and how its parse ends.
pub open spec fn parsed(
    c: Context,
    visited: Seq<Seq<char>>,
    levels: nat,
) -> (Seq<ItemView>, Progress) {
    all_items(c, started(c, visited, Seq::empty()), false, Seq::empty(), levels)
}

/// Whether `r` holds the items and the errors that `p` states.
pub open spec fn is_parsed(r: ParseResult, p: (Seq<ItemView>, Progress)) -> bool {
    &&& items_view(r.file.items@) == p.0
    &&& errors_view(r.errors@) == p.1.errors
    &&& located(r.errors@)
}

/// A parse among files, with the paths of the files that it lacked.
pub struct SourcedResult {
    pub result: ParseResult,
    pub missing: Vec<String>,
}

proof fn lemma_countable(src: &str)
    requires
        encode_utf8(src@).len() <= usize::MAX,
    ensures
        countable(src@),
{
    lemma_byte_len_is_utf8(src@);
}

/// Positions in every file fit their types.
fn count_sources(sources: &Sources)
    ensures
        sources_countable(sources_view(*sources)),
{
    let ghost v = sources_view(*sources);
    let mut i: usize = 0;
    while i < sources.files.len()
        invariant
            i <= sources.files@.len(),
            v == sources_view(*sources),
            forall|k: int|
                0 <= k < i ==> ((#[trigger] v.files[k]).content matches Ok(t) ==> countable(t)),
        decreases sources.files@.len() - i,
    {
        assert(v.files[i as int] == source_view(sources.files@[i as int]));
        if let Ok(t) = &sources.files[i].content {
            let _bytes: usize = t.as_str().as_bytes().len();
            proof {
                lemma_byte_len_is_utf8(t@);
            }
        }
        i += 1;
    }
}

/// Parses `src` in isolation: source directives are not resolved.
pub fn parse(src: &str) -> (r: ParseResult)
    ensures
        is_parsed(r, parsed(isolated(src@), Seq::empty(), 0)),
{
    let _bytes: usize = src.as_bytes().len();
    proof {
        lemma_countable(src);
    }
    let chars = chars_of(src);
    let vars = collect_vars(chars.as_slice());
    let none: Vec<String> = Vec::new();
    assert(strings_view(none@) =~= Seq::<Seq<char>>::empty());
    let mut parser = Parser::new(
        chars.as_slice(),
        vars,
        None,
        String::new(),
        Vec::new(),
        Vec::new(),
    );
    proof {
        assert(parser.context() == isolated(src@));
        assert(parser.progress().visited =~= Seq::<Seq<char>>::empty());
        assert(parser.progress().missing =~= Seq::<Seq<char>>::empty());
    }
    let items = parser.parse_items(false, 0);
    ParseResult { file: ConfigFile { items }, errors: parser.errors }
}

/// Parses `src`, the text of the file `canonical` in `dir`, with the files
/// that its source directives name.
pub fn parse_with_context(src: &str, canonical: &str, dir: &str, sources: &Sources) -> (r:
    SourcedResult)
    ensures
        ({
            let p = parsed(
                among(src@, sources_view(*sources), dir@),
                seq![canonical@],
                sources.files@.len(),
            );
            is_parsed(r.result, p) && strings_view(r.missing@) == p.1.missing
        }),
{
    let _bytes: usize = src.as_bytes().len();
    proof {
        lemma_countable(src);
    }
    count_sources(sources);
    let chars = chars_of(src);
    let vars = collect_vars(chars.as_slice());
    let mut visited: Vec<String> = Vec::new();
    visited.push(canonical.to_owned());
    assert(strings_view(visited@) =~= seq![canonical@]);
    let mut parser = Parser::new(
        chars.as_slice(),
        vars,
        Some(sources),
        dir.to_owned(),
        visited,
        Vec::new(),
    );
    proof {
        assert(parser.context() == among(src@, sources_view(*sources), dir@));
        assert(parser.progress().missing =~= Seq::<Seq<char>>::empty());
    }
    let levels: usize = sources.files.len();
    let items = parser.parse_items(false, levels);
    SourcedResult {
        result: ParseResult { file: ConfigFile { items }, errors: parser.errors },
        missing: parser.missing,
    }
}

// ── Laws ─────────────────────────────────────────────────────────────────────

/// Where a variable is used that has no definition, an error says so.
pub proof fn law_undefined_variable_is_an_error(c: Context, p: Progress, name: Seq<char>)
    requires
        c.tok(p) == TokView::VarRef(name),
        variable(c.vars, name) is None,
    ensures
        single(c, p).1.errors.last() == (ErrorView {
            message: "undefined variable '$"@ + name + "'"@,
            span: c.span(p),
        }),
{
}

/// Where a variable has a definition, its use means the value of the last
/// one, wherever in the file that stands, and is no error.
pub proof fn law_variable_is_substituted(c: Context, p: Progress, name: Seq<char>, v: ValueView)
    requires
        c.tok(p) == TokView::VarRef(name),
        variable(c.vars, name) == Some(v),
    ensures
        single(c, p) == (Some(SpannedView { value: v, span: c.span(p) }), c.bump(p)),
{
}

/// A definition in a sourced file overrides one of the same name outside it;
/// the others stay in force.
pub proof fn law_inner_definitions_override(
    outer: Seq<VarView>,
    inner: Seq<VarView>,
    name: Seq<char>,
)
    ensures
        variable(outer + inner, name) == match variable(inner, name) {
            Some(v) => Some(v),
            None => variable(outer, name),
        },
    decreases inner.len(),
{
    if inner.len() == 0 {
        assert(outer + inner =~= outer);
    } else {
        assert((outer + inner).drop_last() =~= outer + inner.drop_last());
        law_inner_definitions_override(outer, inner.drop_last(), name);
    }
}

/// A directive that names a file already read gives an error and no items.
pub proof fn law_source_cycle_is_an_error(
    c: Context,
    p: Progress,
    raw: Seq<char>,
    span: Span,
    levels: nat,
)
    requires
        c.sources matches Some(s) && (find_source(
            s.files,
            resolved(raw, s.home, c.dir),
        ) matches Some(f) && p.visited.contains(f.canonical)),
    ensures
        load(c, p, raw, span, levels).0.len() == 0,
        load(c, p, raw, span, levels).1.errors == p.errors.push(
            ErrorView {
                message: "source cycle detected: "@ + debug_text(
                    resolved(raw, c.sources->0.home, c.dir),
                ),
                span,
            },
        ),
{
}

/// A block is accepted whatever its name, with whatever keys it holds: its
/// items are those between its braces.
pub proof fn law_unknown_blocks_are_accepted(c: Context, p: Progress, name: Seq<char>, levels: nat)
    requires
        c.tok(p) == TokView::Ident(name),
        p.i + 2 < c.toks.len(),
        c.tok(c.bump(p)) is LBrace,
        ({
            let (_, q) = all_items(c, c.bump(c.bump(p)), true, Seq::empty(), levels);
            c.tok(q) is RBrace
        }),
    ensures
        ({
            let (items, q) = all_items(c, c.bump(c.bump(p)), true, Seq::empty(), levels);
            let b = BlockView {
                name: WordView { text: name, span: c.span(p) },
                label: None,
                items,
                span: merged(c.span(p), c.span(q)),
            };
            one_item(c, p, levels) == (Some(ItemView::Block(b)), c.bump(q))
        }),
{
}

/// Whether no file was asked for between `p` and `q`.
spec fn same_files(p: Progress, q: Progress) -> bool {
    q.visited == p.visited && q.missing == p.missing
}

proof fn lemma_single_files(c: Context, p: Progress)
    ensures
        same_files(p, single(c, p).1),
    decreases c.toks.len() - p.i, 0int,
{
    if c.tok(p) is LBracket && p.i + 1 < c.toks.len() {
        lemma_elements_files(c, c.bump(p), Seq::empty());
    }
}

proof fn lemma_elements_files(c: Context, p: Progress, acc: Seq<SpannedView>)
    ensures
        same_files(p, elements(c, p, acc).1),
    decreases c.toks.len() - p.i, 1int,
{
    if !(c.tok(p) is RBracket || c.tok(p) is Eof) {
        lemma_single_files(c, p);
        let (v, q) = single(c, p);
        let found = match v {
            Some(x) => acc.push(x),
            None => acc,
        };
        let r = if c.tok(q) is Comma {
            c.bump(q)
        } else {
            q
        };
        let next = if r.i == p.i {
            c.bump(failed(r, "unexpected token in array"@, c.span(r)))
        } else {
            r
        };
        if p.i < next.i < c.toks.len() {
            lemma_elements_files(c, next, found);
        }
    }
}

proof fn lemma_further_files(c: Context, p: Progress, acc: Seq<SpannedView>)
    ensures
        same_files(p, further(c, p, acc).1),
    decreases c.toks.len() - p.i,
{
    if c.tok(p) is Comma {
        let q = c.bump(p);
        if !(c.tok(q) is RBrace || c.tok(q) is Eof || c.tok(q) is LBrace) {
            lemma_single_files(c, q);
            if let (Some(v), r) = single(c, q) {
                if p.i < r.i < c.toks.len() {
                    lemma_further_files(c, r, acc.push(v));
                }
            }
        }
    }
}

proof fn lemma_value_files(c: Context, p: Progress)
    ensures
        same_files(p, value_or_array(c, p).1),
{
    lemma_single_files(c, p);
    if let (Some(first), q) = single(c, p) {
        if c.tok(q) is Comma {
            lemma_further_files(c, q, seq![first]);
        }
    }
}

proof fn lemma_bracket_files(c: Context, p: Progress)
    ensures
        same_files(p, to_bracket(c, p)),
    decreases c.toks.len() - p.i,
{
    if !(c.tok(p) is RBracket || c.tok(p) is Eof || p.i + 1 >= c.toks.len()) {
        lemma_bracket_files(c, c.bump(p));
    }
}

proof fn lemma_rhs_files(c: Context, p: Progress)
    ensures
        same_files(p, skip_rhs(c, p)),
    decreases c.toks.len() - p.i,
{
    let t = c.tok(p);
    if t is LBracket {
        lemma_bracket_files(c, c.bump(p));
    } else if is_value_tok(t) && p.i + 1 < c.toks.len() {
        let q = c.bump(p);
        if c.tok(q) is Comma {
            lemma_rhs_files(c, c.bump(q));
        }
    }
}

proof fn lemma_braced_files(
    c: Context,
    p: Progress,
    name: WordView,
    label: Option<WordView>,
    levels: nat,
)
    requires
        c.sources is None,
    ensures
        same_files(p, braced(c, p, name, label, levels).1),
    decreases c.toks.len() - p.i, 0int,
{
    if p.i + 1 < c.toks.len() {
        lemma_items_files(c, c.bump(p), true, Seq::empty(), levels);
    }
}

proof fn lemma_item_files(c: Context, p: Progress, levels: nat)
    requires
        c.sources is None,
    ensures
        same_files(p, one_item(c, p, levels).1),
    decreases c.toks.len() - p.i, 1int,
{
    if let TokView::Ident(s) = c.tok(p) {
        if p.i + 1 < c.toks.len() {
            let name = WordView { text: s, span: c.span(p) };
            let q = c.bump(p);
            lemma_value_files(c, c.bump(q));
            lemma_braced_files(c, q, name, None, levels);
            let r = c.bump(q);
            match c.tok(q) {
                TokView::StringLit(l) | TokView::Ident(l) => {
                    let label = WordView { text: l, span: c.span(q) };
                    lemma_braced_files(c, r, name, Some(label), levels);
                },
                _ => {},
            }
        }
    }
}

proof fn lemma_step_files(c: Context, p: Progress, levels: nat)
    requires
        c.sources is None,
    ensures
        same_files(p, step(c, p, levels).1),
    decreases c.toks.len() - p.i, 3int,
{
    let q = c.bump(p);
    if c.tok(p) == TokView::Ident("source"@) && !(c.tok(q) is Eq) {
        let r = failed(q, "expected '=' after 'source'"@, c.span(p));
        lemma_plain_files(c, r, levels);
    } else if c.tok(p) != TokView::Ident("source"@) {
        lemma_plain_files(c, p, levels);
    }
}

proof fn lemma_plain_files(c: Context, p: Progress, levels: nat)
    requires
        c.sources is None,
    ensures
        same_files(p, plain_step(c, p, levels).1),
    decreases c.toks.len() - p.i, 2int,
{
    if c.tok(p) is VarDef {
        let q = c.bump(p);
        lemma_rhs_files(
            c,
            if c.tok(q) is Eq {
                c.bump(q)
            } else {
                q
            },
        );
    } else {
        lemma_item_files(c, p, levels);
    }
}

proof fn lemma_items_files(
    c: Context,
    p: Progress,
    in_block: bool,
    acc: Seq<ItemView>,
    levels: nat,
)
    requires
        c.sources is None,
    ensures
        same_files(p, all_items(c, p, in_block, acc, levels).1),
    decreases c.toks.len() - p.i, 4int,
{
    if !(c.tok(p) is Eof || (in_block && c.tok(p) is RBrace)) {
        lemma_step_files(c, p, levels);
        let (found, q) = step(c, p, levels);
        if p.i < q.i < c.toks.len() {
            lemma_items_files(c, q, in_block, acc + found, levels);
        }
    }
}

/// The parse of a text in isolation depends on the text alone, whatever files
/// there are: its directives ask for no file and read none, and two results for
/// one text hold the same items and errors.
pub proof fn law_parse_reads_no_file(src: Seq<char>, a: ParseResult, b: ParseResult)
    requires
        is_parsed(a, parsed(isolated(src), Seq::empty(), 0)),
        is_parsed(b, parsed(isolated(src), Seq::empty(), 0)),
    ensures
        items_view(a.file.items@) == items_view(b.file.items@),
        errors_view(a.errors@) == errors_view(b.errors@),
        parsed(isolated(src), Seq::empty(), 0).1.visited == Seq::<Seq<char>>::empty(),
        parsed(isolated(src), Seq::empty(), 0).1.missing == Seq::<Seq<char>>::empty(),
{
    let c = isolated(src);
    let p = started(c, Seq::empty(), Seq::empty());
    lemma_items_files(c, p, false, Seq::empty(), 0);
}

/// A directive in a text that is parsed in isolation puts in no items.
pub proof fn law_isolated_directive_is_not_resolved(
    c: Context,
    p: Progress,
    raw: Seq<char>,
    span: Span,
    levels: nat,
)
    requires
        c.sources is None,
    ensures
        load(c, p, raw, span, levels) == (Seq::<ItemView>::empty(), p),
{
}

} // verus!
