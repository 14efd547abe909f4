//! Tokens of the configuration language.

use vstd::prelude::*;
use vstd::slice::slice_subrange;

use crate::config::value::{
    errors_are, truth, truth_of, ErrorView, ParseError, Span, Spanned, Unit,
};
use crate::integer::{
    capped_numeral, decimal, digit_value, i64_of, numeral_value, parse_i64, push_decimal,
};
use crate::number::{reading, Number};
use crate::text::{
    alphabetic, byte_len, byte_offset, char_width, digit, found_at, has_at, is_alphabetic, is_digit,
    lemma_byte_offset_monotone, lemma_byte_offset_step, lemma_run_end, run, run_end, string_of,
    CharSet,
};

verus! {

// ── Positions ────────────────────────────────────────────────────────────────

/// The line, counted from one, of the character with index `i`.
pub open spec fn line_at(s: Seq<char>, i: int) -> int
    decreases i,
{
    if i <= 0 {
        1
    } else if s[i - 1] == '\n' {
        line_at(s, i - 1) + 1
    } else {
        line_at(s, i - 1)
    }
}

/// The column, counted from one, of the character with index `i`.
pub open spec fn col_at(s: Seq<char>, i: int) -> int
    decreases i,
{
    if i <= 0 || s[i - 1] == '\n' {
        1
    } else {
        col_at(s, i - 1) + 1
    }
}

/// What a counter of lines or columns shows at `n`: beyond its last number, it
/// starts anew.
pub open spec fn counter(n: int) -> u32 {
    (n % 0x1_0000_0000) as u32
}

/// The span of the characters from index `a` to index `b`.
pub open spec fn span_at(s: Seq<char>, a: int, b: int) -> Span {
    Span {
        start: byte_offset(s, a) as usize,
        end: byte_offset(s, b) as usize,
        line: counter(line_at(s, a)),
        col: counter(col_at(s, a)),
    }
}

// ── Tokens ───────────────────────────────────────────────────────────────────

#[derive(Debug)]
pub enum Tok {
    Ident(String),
    VarRef(String),
    VarDef(String),
    StringLit(String),
    Int(i64),
    Float(Number),
    Color(u8, u8, u8, u8),
    Dimension(Number, Unit),
    Eq,
    LBrace,
    RBrace,
    LBracket,
    RBracket,
    Comma,
    Eof,
}

/// What a [`Tok`] holds.
pub enum TokView {
    Ident(Seq<char>),
    VarRef(Seq<char>),
    VarDef(Seq<char>),
    StringLit(Seq<char>),
    Int(i64),
    Float(Seq<char>),
    Color(u8, u8, u8, u8),
    Dimension(Seq<char>, Unit),
    Eq,
    LBrace,
    RBrace,
    LBracket,
    RBracket,
    Comma,
    Eof,
}

impl View for Tok {
    type V = TokView;

    open spec fn view(&self) -> TokView {
        match *self {
            Tok::Ident(s) => TokView::Ident(s@),
            Tok::VarRef(s) => TokView::VarRef(s@),
            Tok::VarDef(s) => TokView::VarDef(s@),
            Tok::StringLit(s) => TokView::StringLit(s@),
            Tok::Int(n) => TokView::Int(n),
            Tok::Float(x) => TokView::Float(x@),
            Tok::Color(r, g, b, a) => TokView::Color(r, g, b, a),
            Tok::Dimension(x, u) => TokView::Dimension(x@, u),
            Tok::Eq => TokView::Eq,
            Tok::LBrace => TokView::LBrace,
            Tok::RBrace => TokView::RBrace,
            Tok::LBracket => TokView::LBracket,
            Tok::RBracket => TokView::RBracket,
            Tok::Comma => TokView::Comma,
            Tok::Eof => TokView::Eof,
        }
    }
}

// ── The grammar of tokens ────────────────────────────────────────────────────

/// Where white space and comments that start at `i` end. A comment runs from
/// `//` to the end of its line.
pub open spec fn skip_blank(s: Seq<char>, i: int) -> int
    decreases s.len() - i,
    when 0 <= i <= s.len()
    via skip_blank_decreases
{
    let j = run_end(s, i, CharSet::AsciiSpace);
    if has_at(s, j, "//"@) {
        skip_blank(s, run_end(s, j, CharSet::Not('\n')))
    } else {
        j
    }
}

#[via_fn]
proof fn skip_blank_decreases(s: Seq<char>, i: int) {
    let j = run_end(s, i, CharSet::AsciiSpace);
    lemma_run_end(s, i, CharSet::AsciiSpace);
    if has_at(s, j, "//"@) {
        lemma_comment_start(s, j);
        lemma_run_end(s, j, CharSet::Not('\n'));
        assert(run_end(s, j, CharSet::Not('\n')) == run_end(s, j + 1, CharSet::Not('\n')));
        lemma_run_end(s, j + 1, CharSet::Not('\n'));
    }
}

proof fn lemma_comment_start(s: Seq<char>, j: int)
    requires
        has_at(s, j, "//"@),
    ensures
        0 <= j < s.len(),
        s[j] == '/',
{
    reveal_strlit("//");
    assert(s.subrange(j, j + 2)[0] == s[j]);
}

proof fn lemma_skip_blank(s: Seq<char>, i: int)
    requires
        0 <= i <= s.len(),
    ensures
        i <= skip_blank(s, i) <= s.len(),
    decreases s.len() - i,
{
    let j = run_end(s, i, CharSet::AsciiSpace);
    lemma_run_end(s, i, CharSet::AsciiSpace);
    if has_at(s, j, "//"@) {
        lemma_comment_start(s, j);
        lemma_run_end(s, j + 1, CharSet::Not('\n'));
        lemma_skip_blank(s, run_end(s, j, CharSet::Not('\n')));
    }
}

proof fn lemma_skip_blank_step(s: Seq<char>, i: int)
    requires
        0 <= i <= s.len(),
    ensures
        ({
            let j = run_end(s, i, CharSet::AsciiSpace);
            skip_blank(s, i) == if has_at(s, j, "//"@) {
                skip_blank(s, run_end(s, j, CharSet::Not('\n')))
            } else {
                j
            }
        }),
{
    let j = run_end(s, i, CharSet::AsciiSpace);
    lemma_run_end(s, i, CharSet::AsciiSpace);
    lemma_run_end(s, j, CharSet::Not('\n'));
}

/// The outcome of reading one token: where it starts and ends, and the token
/// or what is wrong.
pub struct Lexed {
    pub start: int,
    pub end: int,
    pub tok: Result<TokView, Seq<char>>,
}

pub open spec fn escaped(c: char) -> char {
    if c == 'n' {
        '\n'
    } else if c == 't' {
        '\t'
    } else {
        c
    }
}

/// Reads the rest of a string literal from index `i`, after `acc`.
pub open spec fn string_rest(s: Seq<char>, i: int, acc: Seq<char>) -> (int, Result<
    Seq<char>,
    Seq<char>,
>)
    decreases s.len() - i,
{
    if i >= s.len() {
        (s.len() as int, Err("unterminated string"@))
    } else if s[i] == '"' {
        (i + 1, Ok(acc))
    } else if s[i] == '\\' {
        if i + 1 >= s.len() {
            (s.len() as int, Err("unterminated escape"@))
        } else {
            string_rest(s, i + 2, acc.push(escaped(s[i + 1])))
        }
    } else {
        string_rest(s, i + 1, acc.push(s[i]))
    }
}

proof fn lemma_string_rest(s: Seq<char>, i: int, acc: Seq<char>)
    requires
        0 <= i <= s.len(),
    ensures
        i <= string_rest(s, i, acc).0 <= s.len(),
    decreases s.len() - i,
{
    if i < s.len() && s[i] != '"' {
        if s[i] == '\\' {
            if i + 1 < s.len() {
                lemma_string_rest(s, i + 2, acc.push(escaped(s[i + 1])));
            }
        } else {
            lemma_string_rest(s, i + 1, acc.push(s[i]));
        }
    }
}

/// An opaque color from 24 bits.
pub open spec fn rgb_parts(v: nat) -> (u8, u8, u8, u8) {
    ((v / 0x1_0000 % 0x100) as u8, (v / 0x100 % 0x100) as u8, (v % 0x100) as u8, 255u8)
}

/// A color from 32 bits.
pub open spec fn rgba_parts(v: nat) -> (u8, u8, u8, u8) {
    (
        (v / 0x100_0000 % 0x100) as u8,
        (v / 0x1_0000 % 0x100) as u8,
        (v / 0x100 % 0x100) as u8,
        (v % 0x100) as u8,
    )
}

pub open spec fn color_tok(c: (u8, u8, u8, u8)) -> TokView {
    TokView::Color(c.0, c.1, c.2, c.3)
}

pub open spec fn lex_variable(s: Seq<char>, a: int) -> Lexed {
    let n = run_end(s, a + 1, CharSet::Name);
    let name = s.subrange(a + 1, n);
    let k = run_end(s, n, CharSet::LineSpace);
    Lexed {
        start: a,
        end: n,
        tok: if n == a + 1 {
            Err("expected variable name after '$'"@)
        } else if k < s.len() && s[k] == '=' && !(k + 1 < s.len() && s[k + 1] == '=') {
            Ok(TokView::VarDef(name))
        } else {
            Ok(TokView::VarRef(name))
        },
    }
}

pub open spec fn lex_string(s: Seq<char>, a: int) -> Lexed {
    let (end, r) = string_rest(s, a + 1, Seq::empty());
    Lexed {
        start: a,
        end,
        tok: match r {
            Ok(t) => Ok(TokView::StringLit(t)),
            Err(m) => Err(m),
        },
    }
}

pub open spec fn lex_rgb(s: Seq<char>, a: int) -> Lexed {
    let alpha = has_at(s, a, "rgba("@);
    let h = if alpha {
        a + 5
    } else {
        a + 4
    };
    let want: int = if alpha {
        8
    } else {
        6
    };
    let e = run_end(s, h, CharSet::Hex);
    let v = numeral_value(s.subrange(h, e), 16);
    if e >= s.len() || s[e] != ')' {
        Lexed { start: a, end: e, tok: Err("expected ')' after rgb/rgba color"@) }
    } else if e - h != want {
        Lexed {
            start: a,
            end: e + 1,
            tok: Err(
                "rgb color must be "@ + decimal(want as nat) + " hex digits, got "@ + decimal(
                    (e - h) as nat,
                ),
            ),
        }
    } else {
        Lexed {
            start: a,
            end: e + 1,
            tok: Ok(
                color_tok(
                    if alpha {
                        rgba_parts(v)
                    } else {
                        rgb_parts(v)
                    },
                ),
            ),
        }
    }
}

pub open spec fn lex_hash(s: Seq<char>, a: int) -> Lexed {
    let e = run_end(s, a + 1, CharSet::Hex);
    let v = numeral_value(s.subrange(a + 1, e), 16);
    Lexed {
        start: a,
        end: e,
        tok: if e - a - 1 == 6 {
            Ok(color_tok(rgb_parts(v)))
        } else if e - a - 1 == 8 {
            Ok(color_tok(rgba_parts(v)))
        } else {
            Err(
                "color must be #rrggbb or #rrggbbaa, got "@ + decimal((e - a - 1) as nat)
                    + " hex digits"@,
            )
        },
    }
}

/// The unit whose suffix stands at index `j`.
pub open spec fn unit_at(s: Seq<char>, j: int) -> Option<Unit> {
    if has_at(s, j, "px"@) {
        Some(Unit::Px)
    } else if has_at(s, j, "ms"@) {
        Some(Unit::Ms)
    } else if has_at(s, j, "hz"@) || has_at(s, j, "Hz"@) {
        Some(Unit::Hz)
    } else if j < s.len() && s[j] == '%' {
        Some(Unit::Percent)
    } else {
        None
    }
}

/// Where the digits of the number at index `a` start: behind its sign.
pub open spec fn digits_at(s: Seq<char>, a: int) -> int {
    if s[a] == '-' {
        a + 1
    } else {
        a
    }
}

/// Whether a number starts at index `a`: a digit, or a `-` before one.
pub open spec fn number_at(s: Seq<char>, a: int) -> bool {
    is_digit(s[a]) || (s[a] == '-' && a + 1 < s.len() && is_digit(s[a + 1]))
}

pub open spec fn lex_number(s: Seq<char>, a: int) -> Lexed {
    let d = digits_at(s, a);
    let i = run_end(s, d, CharSet::Digit);
    let point = i < s.len() && s[i] == '.';
    let j = if point {
        run_end(s, i + 1, CharSet::Digit)
    } else {
        i
    };
    let text = s.subrange(a, j);
    match unit_at(s, j) {
        Some(u) => Lexed {
            start: a,
            end: if u == Unit::Percent {
                j + 1
            } else {
                j + 2
            },
            tok: Ok(TokView::Dimension(text, u)),
        },
        None => Lexed {
            start: a,
            end: j,
            tok: if point {
                Ok(TokView::Float(text))
            } else {
                match i64_of(s.subrange(d, j)) {
                    Some(n) => Ok(
                        TokView::Int(
                            if d > a {
                                (-n) as i64
                            } else {
                                n
                            },
                        ),
                    ),
                    None => Err("invalid integer '"@ + text + "'"@),
                }
            },
        },
    }
}

/// A bare word; the words for true and false have one spelling each.
pub open spec fn lex_word(s: Seq<char>, a: int) -> Lexed {
    let e = run_end(s, a, CharSet::Word);
    let word = s.subrange(a, e);
    Lexed {
        start: a,
        end: e,
        tok: Ok(
            TokView::Ident(
                match truth_of(word) {
                    Some(true) => "true"@,
                    Some(false) => "false"@,
                    None => word,
                },
            ),
        ),
    }
}

pub open spec fn lex_mark(c: char) -> Option<TokView> {
    if c == '=' {
        Some(TokView::Eq)
    } else if c == '{' {
        Some(TokView::LBrace)
    } else if c == '}' {
        Some(TokView::RBrace)
    } else if c == '[' {
        Some(TokView::LBracket)
    } else if c == ']' {
        Some(TokView::RBracket)
    } else if c == ',' {
        Some(TokView::Comma)
    } else if c == '|' {
        Some(TokView::Ident("|"@))
    } else {
        None
    }
}

/// Reads the token that starts at index `a`.
pub open spec fn lex_at(s: Seq<char>, a: int) -> Lexed {
    if a >= s.len() {
        Lexed { start: a, end: a, tok: Ok(TokView::Eof) }
    } else if lex_mark(s[a]) is Some {
        Lexed { start: a, end: a + 1, tok: Ok(lex_mark(s[a])->0) }
    } else if s[a] == '$' {
        lex_variable(s, a)
    } else if s[a] == '"' {
        lex_string(s, a)
    } else if has_at(s, a, "rgb("@) || has_at(s, a, "rgba("@) {
        lex_rgb(s, a)
    } else if s[a] == '#' {
        lex_hash(s, a)
    } else if number_at(s, a) {
        lex_number(s, a)
    } else if s[a] == '-' {
        let e = run_end(s, a, CharSet::Word);
        Lexed { start: a, end: e, tok: Ok(TokView::Ident(s.subrange(a, e))) }
    } else if is_alphabetic(s[a]) || s[a] == '_' {
        lex_word(s, a)
    } else {
        Lexed { start: a, end: a, tok: Err("unexpected character '"@ + seq![s[a]] + "'"@) }
    }
}

/// Reads the next token from index `i` on.
pub open spec fn lex(s: Seq<char>, i: int) -> Lexed {
    lex_at(s, skip_blank(s, i))
}

/// A token only ends at its start where none was read.
proof fn lemma_lex_at(s: Seq<char>, a: int)
    requires
        0 <= a <= s.len(),
    ensures
        lex_at(s, a).start == a,
        a <= lex_at(s, a).end <= s.len(),
        lex_at(s, a).tok is Err ==> a < s.len(),
        lex_at(s, a).tok matches Ok(t) ==> (t is Eof <==> a == s.len()),
        lex_at(s, a).tok matches Ok(t) ==> t is Eof || lex_at(s, a).end > a,
{
    if a < s.len() {
        reveal_strlit("px");
        reveal_strlit("ms");
        reveal_strlit("hz");
        reveal_strlit("Hz");
        reveal_strlit("rgb(");
        reveal_strlit("rgba(");
        lemma_run_end(s, a + 1, CharSet::Name);
        lemma_string_rest(s, a + 1, Seq::empty());
        if has_at(s, a, "rgba("@) {
            lemma_run_end(s, a + 5, CharSet::Hex);
        } else if has_at(s, a, "rgb("@) {
            lemma_run_end(s, a + 4, CharSet::Hex);
        }
        lemma_run_end(s, a + 1, CharSet::Hex);
        lemma_run_end(s, a, CharSet::Word);
        lemma_run_end(s, a + 1, CharSet::Word);
        lemma_run_end(s, a, CharSet::Digit);
        lemma_run_end(s, a + 1, CharSet::Digit);
        let d = digits_at(s, a);
        lemma_run_end(s, d, CharSet::Digit);
        if d < s.len() {
            lemma_run_end(s, d + 1, CharSet::Digit);
        }
        let i = run_end(s, d, CharSet::Digit);
        if i < s.len() {
            lemma_run_end(s, i + 1, CharSet::Digit);
        }
    }
}

pub proof fn lemma_lex(s: Seq<char>, i: int)
    requires
        0 <= i <= s.len(),
    ensures
        i <= lex(s, i).start <= lex(s, i).end <= s.len(),
        lex(s, i).tok is Err ==> lex(s, i).start < s.len(),
        lex(s, i).tok matches Ok(t) ==> t is Eof || lex(s, i).end > i,
        lex(s, i).tok matches Ok(t) ==> (t is Eof <==> lex(s, i).end == s.len() && lex(s, i).start
            == s.len()),
{
    lemma_skip_blank(s, i);
    lemma_lex_at(s, skip_blank(s, i));
}

/// A token, the errors met before it, and where it stands.
pub struct LexemeView {
    pub errors: Seq<ErrorView>,
    pub tok: TokView,
    pub span: Span,
}

/// Where reading resumes after an error from index `i` on: behind what was
/// read, but at least one character on.
pub open spec fn resume(s: Seq<char>, i: int) -> int {
    if lex(s, i).end == i {
        i + 1
    } else {
        lex(s, i).end
    }
}

/// The errors from index `i` up to the next token.
pub open spec fn errors_from(s: Seq<char>, i: int) -> Seq<ErrorView>
    decreases s.len() - i,
    when 0 <= i <= s.len()
    via errors_from_decreases
{
    let r = lex(s, i);
    match r.tok {
        Ok(_) => Seq::empty(),
        Err(m) => seq![ErrorView { message: m, span: span_at(s, r.start, r.end) }] + errors_from(
            s,
            resume(s, i),
        ),
    }
}

#[via_fn]
proof fn errors_from_decreases(s: Seq<char>, i: int) {
    lemma_lex(s, i);
}

/// Where the next token after the errors from index `i` on is read from.
pub open spec fn token_from(s: Seq<char>, i: int) -> int
    decreases s.len() - i,
    when 0 <= i <= s.len()
    via token_from_decreases
{
    if lex(s, i).tok is Err {
        token_from(s, resume(s, i))
    } else {
        i
    }
}

#[via_fn]
proof fn token_from_decreases(s: Seq<char>, i: int) {
    lemma_lex(s, i);
}

proof fn lemma_token_from(s: Seq<char>, i: int)
    requires
        0 <= i <= s.len(),
    ensures
        i <= token_from(s, i) <= s.len(),
        lex(s, token_from(s, i)).tok is Ok,
    decreases s.len() - i,
{
    lemma_lex(s, i);
    if lex(s, i).tok is Err {
        lemma_token_from(s, resume(s, i));
    }
}

/// The next token from index `i` on.
pub open spec fn lexeme_from(s: Seq<char>, i: int) -> LexemeView {
    let r = lex(s, token_from(s, i));
    LexemeView {
        errors: errors_from(s, i),
        tok: r.tok->Ok_0,
        span: span_at(s, r.start, r.end),
    }
}

/// The tokens from index `i` on. The last one, and only that, is the end of
/// the input.
pub open spec fn lexemes_from(s: Seq<char>, i: int) -> Seq<LexemeView>
    decreases s.len() - i,
    when 0 <= i <= s.len()
    via lexemes_from_decreases
{
    let l = lexeme_from(s, i);
    if l.tok is Eof {
        seq![l]
    } else {
        seq![l] + lexemes_from(s, lex(s, token_from(s, i)).end)
    }
}

#[via_fn]
proof fn lexemes_from_decreases(s: Seq<char>, i: int) {
    lemma_token_from(s, i);
    lemma_lex(s, token_from(s, i));
}

/// The tokens of `s`.
pub open spec fn lexemes(s: Seq<char>) -> Seq<LexemeView> {
    lexemes_from(s, 0)
}

/// A sequence of tokens ends with the end of the input.
pub open spec fn ends_in_eof(t: Seq<LexemeView>) -> bool {
    &&& t.len() > 0
    &&& t.last().tok is Eof
    &&& forall|k: int| 0 <= k < t.len() - 1 ==> !((#[trigger] t[k]).tok is Eof)
}

pub proof fn lemma_lexemes_end(s: Seq<char>, i: int)
    requires
        0 <= i <= s.len(),
    ensures
        ends_in_eof(lexemes_from(s, i)),
    decreases s.len() - i,
{
    lemma_token_from(s, i);
    lemma_lex(s, token_from(s, i));
    let l = lexeme_from(s, i);
    if !(l.tok is Eof) {
        let rest = lexemes_from(s, lex(s, token_from(s, i)).end);
        lemma_lexemes_end(s, lex(s, token_from(s, i)).end);
        let t = lexemes_from(s, i);
        assert(t =~= seq![l] + rest);
        assert forall|k: int| 0 <= k < t.len() - 1 implies !((#[trigger] t[k]).tok is Eof) by {
            if k > 0 {
                assert(t[k] == rest[k - 1]);
            }
        }
        assert(t.last() == rest.last());
    }
}

// ── Lexer ────────────────────────────────────────────────────────────────────

/// Whether byte offsets in `s` fit their type, as they do in every string.
pub open spec fn countable(s: Seq<char>) -> bool {
    byte_len(s) <= usize::MAX
}

/// A position in source text.
pub struct Lexer<'a> {
    src: &'a [char],
    /// The index of the next character.
    idx: usize,
    /// Its byte offset.
    pos: usize,
    line: u32,
    col: u32,
}

/// Whether `r` is the outcome `l` of reading a token of `s`.
pub open spec fn is_lexed(s: Seq<char>, r: Result<Spanned<Tok>, ParseError>, l: Lexed) -> bool {
    match (r, l.tok) {
        (Ok(t), Ok(v)) => t.value@ == v && t.span == span_at(s, l.start, l.end),
        (Err(e), Err(m)) => e.at(ErrorView { message: m, span: span_at(s, l.start, l.end) }),
        _ => false,
    }
}

impl<'a> Lexer<'a> {
    pub closed spec fn source(&self) -> Seq<char> {
        self.src@
    }

    pub closed spec fn index(&self) -> int {
        self.idx as int
    }

    pub closed spec fn wf(&self) -> bool {
        &&& countable(self.src@)
        &&& self.src@.len() <= usize::MAX
        &&& self.idx <= self.src@.len()
        &&& self.pos == byte_offset(self.src@, self.idx as int)
        &&& self.line == counter(line_at(self.src@, self.idx as int))
        &&& self.col == counter(col_at(self.src@, self.idx as int))
    }

    pub fn new(src: &'a [char]) -> (r: Self)
        requires
            countable(src@),
        ensures
            r.wf(),
            r.source() == src@,
            r.index() == 0,
    {
        let _len: usize = src.len();
        Lexer { src, idx: 0, pos: 0, line: 1, col: 1 }
    }

    /// Moves on by one character, if there is one.
    fn advance(&mut self)
        requires
            old(self).wf(),
        ensures
            final(self).wf(),
            final(self).source() == old(self).source(),
            final(self).index() == if old(self).index() < old(self).source().len() {
                old(self).index() + 1
            } else {
                old(self).index()
            },
    {
        if self.idx < self.src.len() {
            let c: char = self.src[self.idx];
            proof {
                let s = self.src@;
                lemma_byte_offset_step(s, self.idx as int);
                lemma_byte_offset_monotone(s, self.idx + 1, s.len() as int);
                assert(s.take(s.len() as int) =~= s);
            }
            self.pos += char_width(c);
            self.idx += 1;
            if c == '\n' {
                self.line = self.line.wrapping_add(1);
                self.col = 1;
            } else {
                self.col = self.col.wrapping_add(1);
            }
        }
    }

    /// Moves on to index `end`.
    fn advance_to(&mut self, end: usize)
        requires
            old(self).wf(),
            old(self).index() <= end <= old(self).source().len(),
        ensures
            final(self).wf(),
            final(self).source() == old(self).source(),
            final(self).index() == end,
    {
        while self.idx < end
            invariant
                self.wf(),
                self.source() == old(self).source(),
                self.index() <= end <= self.source().len(),
            decreases end - self.idx,
        {
            self.advance();
        }
    }

    fn skip_ws_and_comments(&mut self)
        requires
            old(self).wf(),
        ensures
            final(self).wf(),
            final(self).source() == old(self).source(),
            final(self).index() == skip_blank(old(self).source(), old(self).index()),
            old(self).index() <= final(self).index(),
    {
        let mut i: usize = run(self.src, self.idx, CharSet::AsciiSpace);
        let ghost from = self.idx as int;
        proof {
            lemma_skip_blank(self.src@, from);
            lemma_skip_blank_step(self.src@, from);
        }
        while found_at(self.src, i, "//")
            invariant
                self.wf(),
                self.source() == old(self).source(),
                self.index() == from,
                from <= i <= self.src@.len(),
                from == old(self).index(),
                skip_blank(self.src@, from) == if has_at(self.src@, i as int, "//"@) {
                    skip_blank(self.src@, run_end(self.src@, i as int, CharSet::Not('\n')))
                } else {
                    i as int
                },
            decreases self.src@.len() - i,
        {
            proof {
                lemma_comment_start(self.src@, i as int);
                lemma_run_end(self.src@, i + 1, CharSet::Not('\n'));
            }
            let j: usize = run(self.src, i, CharSet::Not('\n'));
            proof {
                lemma_skip_blank_step(self.src@, j as int);
            }
            i = run(self.src, j, CharSet::AsciiSpace);
        }
        self.advance_to(i);
    }

    /// The characters from index `a` to index `b`.
    fn slice(&self, a: usize, b: usize) -> (r: &'a [char])
        requires
            a <= b <= self.source().len(),
        ensures
            r@ == self.source().subrange(a as int, b as int),
    {
        slice_subrange(self.src, a, b)
    }

    fn lex_variable(&self, a: usize) -> (r: (usize, Result<Tok, String>))
        requires
            self.wf(),
            a < self.source().len(),
        ensures
            outcome_is(r, lex_variable(self.source(), a as int)),
    {
        let s = self.src;
        let n: usize = run(s, a + 1, CharSet::Name);
        if n == a + 1 {
            return (n, Err("expected variable name after '$'".to_owned()));
        }
        let name = string_of(self.slice(a + 1, n));
        let k: usize = run(s, n, CharSet::LineSpace);
        if k < s.len() && s[k] == '=' && !(k + 1 < s.len() && s[k + 1] == '=') {
            (n, Ok(Tok::VarDef(name)))
        } else {
            (n, Ok(Tok::VarRef(name)))
        }
    }

    fn lex_string(&self, a: usize) -> (r: (usize, Result<Tok, String>))
        requires
            self.wf(),
            a < self.source().len(),
        ensures
            outcome_is(r, lex_string(self.source(), a as int)),
    {
        let s = self.src;
        let mut out = String::new();
        let mut i: usize = a + 1;
        while i < s.len()
            invariant
                i <= s@.len(),
                s@ == self.source(),
                string_rest(s@, a + 1, Seq::empty()) == string_rest(s@, i as int, out@),
            decreases s.len() - i,
        {
            let c: char = s[i];
            if c == '"' {
                return (i + 1, Ok(Tok::StringLit(out)));
            }
            if c == '\\' {
                if i + 1 >= s.len() {
                    return (s.len(), Err("unterminated escape".to_owned()));
                }
                let e: char = s[i + 1];
                out.push(
                    if e == 'n' {
                        '\n'
                    } else if e == 't' {
                        '\t'
                    } else {
                        e
                    },
                );
                i += 2;
            } else {
                out.push(c);
                i += 1;
            }
        }
        (s.len(), Err("unterminated string".to_owned()))
    }

    fn lex_rgb(&self, a: usize) -> (r: (usize, Result<Tok, String>))
        requires
            self.wf(),
            has_at(self.source(), a as int, "rgb("@) || has_at(self.source(), a as int, "rgba("@),
        ensures
            outcome_is(r, lex_rgb(self.source(), a as int)),
    {
        let s = self.src;
        proof {
            reveal_strlit("rgb(");
            reveal_strlit("rgba(");
        }
        let alpha = found_at(s, a, "rgba(");
        let h: usize = if alpha {
            a + 5
        } else {
            a + 4
        };
        let want: usize = if alpha {
            8
        } else {
            6
        };
        let e: usize = run(s, h, CharSet::Hex);
        if e >= s.len() || s[e] != ')' {
            return (e, Err("expected ')' after rgb/rgba color".to_owned()));
        }
        if e - h != want {
            let mut m = "rgb color must be ".to_owned();
            push_decimal(&mut m, want as u64);
            m.append(" hex digits, got ");
            push_decimal(&mut m, (e - h) as u64);
            return (e + 1, Err(m));
        }
        let v: u32 = hex_value(s, h, e);
        let tok = if alpha {
            rgba_tok(v)
        } else {
            rgb_tok(v)
        };
        (e + 1, Ok(tok))
    }

    fn lex_hash(&self, a: usize) -> (r: (usize, Result<Tok, String>))
        requires
            self.wf(),
            a < self.source().len(),
        ensures
            outcome_is(r, lex_hash(self.source(), a as int)),
    {
        let s = self.src;
        let e: usize = run(s, a + 1, CharSet::Hex);
        let n: usize = e - (a + 1);
        if n == 6 {
            (e, Ok(rgb_tok(hex_value(s, a + 1, e))))
        } else if n == 8 {
            (e, Ok(rgba_tok(hex_value(s, a + 1, e))))
        } else {
            let mut m = "color must be #rrggbb or #rrggbbaa, got ".to_owned();
            push_decimal(&mut m, n as u64);
            m.append(" hex digits");
            (e, Err(m))
        }
    }

    fn unit_at(&self, j: usize) -> (r: Option<Unit>)
        requires
            j <= self.source().len(),
        ensures
            r == unit_at(self.source(), j as int),
    {
        let s = self.src;
        if found_at(s, j, "px") {
            Some(Unit::Px)
        } else if found_at(s, j, "ms") {
            Some(Unit::Ms)
        } else if found_at(s, j, "hz") || found_at(s, j, "Hz") {
            Some(Unit::Hz)
        } else if j < s.len() && s[j] == '%' {
            Some(Unit::Percent)
        } else {
            None
        }
    }

    fn lex_number(&self, a: usize) -> (r: (usize, Result<Tok, String>))
        requires
            self.wf(),
            a < self.source().len(),
            number_at(self.source(), a as int),
        ensures
            outcome_is(r, lex_number(self.source(), a as int)),
    {
        let s = self.src;
        let d: usize = if s[a] == '-' {
            a + 1
        } else {
            a
        };
        let i: usize = run(s, d, CharSet::Digit);
        let point = i < s.len() && s[i] == '.';
        let j: usize = if point {
            run(s, i + 1, CharSet::Digit)
        } else {
            i
        };
        let text = self.slice(a, j);
        proof {
            lemma_run_end(s@, d as int, CharSet::Digit);
            lemma_run_end(s@, d + 1, CharSet::Digit);
            if point {
                lemma_run_end(s@, i + 1, CharSet::Digit);
            }
            lemma_signed_text(s@, a as int);
            reveal_strlit("px");
            reveal_strlit("ms");
            reveal_strlit("hz");
            reveal_strlit("Hz");
        }
        match self.unit_at(j) {
            Some(u) => {
                let end: usize = if u == Unit::Percent {
                    j + 1
                } else {
                    j + 2
                };
                match Number::parse(text) {
                    Some(x) => (end, Ok(Tok::Dimension(x, u))),
                    None => (end, Err(String::new())),
                }
            },
            None => if point {
                match Number::parse(text) {
                    Some(x) => (j, Ok(Tok::Float(x))),
                    None => (j, Err(String::new())),
                }
            } else {
                match parse_i64(self.slice(d, j)) {
                    Some(n) => {
                        assert(s@.subrange(d as int, j as int)[0] == s@[d as int]);
                        (
                            j,
                            Ok(
                                Tok::Int(
                                    if d > a {
                                        -n
                                    } else {
                                        n
                                    },
                                ),
                            ),
                        )
                    },
                    None => {
                        let mut m = "invalid integer '".to_owned();
                        m.append(string_of(text).as_str());
                        m.append("'");
                        (j, Err(m))
                    },
                }
            },
        }
    }

    fn lex_word(&self, a: usize) -> (r: (usize, Result<Tok, String>))
        requires
            self.wf(),
            a < self.source().len(),
        ensures
            outcome_is(r, lex_word(self.source(), a as int)),
    {
        let e: usize = run(self.src, a, CharSet::Word);
        let word = string_of(self.slice(a, e));
        match truth(word.as_str()) {
            Some(true) => (e, Ok(Tok::Ident("true".to_owned()))),
            Some(false) => (e, Ok(Tok::Ident("false".to_owned()))),
            None => (e, Ok(Tok::Ident(word))),
        }
    }

    fn lex_mark(c: char) -> (r: Option<Tok>)
        ensures
            match r {
                Some(t) => lex_mark(c) == Some(t@),
                None => lex_mark(c) is None,
            },
    {
        if c == '=' {
            Some(Tok::Eq)
        } else if c == '{' {
            Some(Tok::LBrace)
        } else if c == '}' {
            Some(Tok::RBrace)
        } else if c == '[' {
            Some(Tok::LBracket)
        } else if c == ']' {
            Some(Tok::RBracket)
        } else if c == ',' {
            Some(Tok::Comma)
        } else if c == '|' {
            Some(Tok::Ident("|".to_owned()))
        } else {
            None
        }
    }

    fn lex_at(&self, a: usize) -> (r: (usize, Result<Tok, String>))
        requires
            self.wf(),
            a <= self.source().len(),
        ensures
            outcome_is(r, lex_at(self.source(), a as int)),
    {
        let s = self.src;
        if a >= s.len() {
            return (a, Ok(Tok::Eof));
        }
        let c: char = s[a];
        if let Some(t) = Self::lex_mark(c) {
            return (a + 1, Ok(t));
        }
        if c == '$' {
            self.lex_variable(a)
        } else if c == '"' {
            self.lex_string(a)
        } else if found_at(s, a, "rgb(") || found_at(s, a, "rgba(") {
            self.lex_rgb(a)
        } else if c == '#' {
            self.lex_hash(a)
        } else if digit(c) || (c == '-' && a + 1 < s.len() && digit(s[a + 1])) {
            self.lex_number(a)
        } else if c == '-' {
            let e: usize = run(s, a, CharSet::Word);
            (e, Ok(Tok::Ident(string_of(self.slice(a, e)))))
        } else if alphabetic(c) || c == '_' {
            self.lex_word(a)
        } else {
            let mut m = "unexpected character '".to_owned();
            m.push(c);
            m.append("'");
            assert(m@ =~= "unexpected character '"@ + seq![c] + "'"@);
            (a, Err(m))
        }
    }

    /// Reads the next token.
    pub fn next_tok(&mut self) -> (r: Result<Spanned<Tok>, ParseError>)
        requires
            old(self).wf(),
        ensures
            final(self).wf(),
            final(self).source() == old(self).source(),
            final(self).index() == lex(old(self).source(), old(self).index()).end,
            is_lexed(old(self).source(), r, lex(old(self).source(), old(self).index())),
    {
        self.skip_ws_and_comments();
        let start: usize = self.pos;
        let line: u32 = self.line;
        let col: u32 = self.col;
        let a: usize = self.idx;
        proof {
            lemma_lex_at(self.src@, a as int);
        }
        let (end, r) = self.lex_at(a);
        self.advance_to(end);
        let span = Span::new(start, self.pos, line, col);
        proof {
            let s = self.src@;
            lemma_byte_offset_monotone(s, a as int, end as int);
            lemma_byte_offset_monotone(s, end as int, s.len() as int);
            assert(s.take(s.len() as int) =~= s);
        }
        match r {
            Ok(t) => Ok(Spanned::new(t, span)),
            Err(m) => Err(ParseError::new(m, span)),
        }
    }

    /// Reads up to the next token that can be read; the errors on the way are
    /// appended to `errors`.
    pub fn next_lexeme(&mut self) -> (r: Lexeme)
        requires
            old(self).wf(),
        ensures
            final(self).wf(),
            final(self).source() == old(self).source(),
            final(self).index() == lex(
                old(self).source(),
                token_from(old(self).source(), old(self).index()),
            ).end,
            r.is(lexeme_from(old(self).source(), old(self).index())),
    {
        let mut errors: Vec<ParseError> = Vec::new();
        let ghost s = self.source();
        let ghost from = self.index();
        proof {
            assert(errors_from(s, from) =~= Seq::<ErrorView>::empty() + errors_from(s, from));
        }
        let ghost mut done: Seq<ErrorView> = Seq::empty();
        loop
            invariant
                self.wf(),
                self.source() == s,
                s == old(self).source(),
                from == old(self).index(),
                0 <= from <= self.index() <= s.len(),
                errors_are(errors@, done),
                errors_from(s, from) == done + errors_from(s, self.index()),
                token_from(s, from) == token_from(s, self.index()),
            decreases s.len() - self.index(),
        {
            let before: usize = self.idx;
            proof {
                lemma_lex(s, before as int);
            }
            match self.next_tok() {
                Ok(t) => {
                    assert(done + errors_from(s, before as int) =~= done);
                    return Lexeme { errors, tok: t.value, span: t.span };
                },
                Err(e) => {
                    proof {
                        let l = lex(s, before as int);
                        let v = ErrorView { message: l.tok->Err_0, span: span_at(s, l.start, l.end) };
                        assert(done + errors_from(s, before as int) =~= done.push(v) + errors_from(
                            s,
                            resume(s, before as int),
                        ));
                        done = done.push(v);
                    }
                    errors.push(e);
                    if self.idx == before {
                        self.advance();
                    }
                },
            }
        }
    }
}

/// Whether `r` is the end and the outcome that `l` states.
spec fn outcome_is(r: (usize, Result<Tok, String>), l: Lexed) -> bool {
    &&& r.0 == l.end
    &&& match (r.1, l.tok) {
        (Ok(t), Ok(v)) => t@ == v,
        (Err(m), Err(v)) => m@ == v,
        _ => false,
    }
}

/// The text of a number token is a literal.
proof fn lemma_signed_text(s: Seq<char>, a: int)
    requires
        0 <= a < s.len(),
        number_at(s, a),
    ensures
        ({
            let i = run_end(s, digits_at(s, a), CharSet::Digit);
            let j = if i < s.len() && s[i] == '.' {
                run_end(s, i + 1, CharSet::Digit)
            } else {
                i
            };
            reading(s.subrange(a, j)) is Some
        }),
{
    let d = digits_at(s, a);
    let i = run_end(s, d, CharSet::Digit);
    let j = if i < s.len() && s[i] == '.' {
        run_end(s, i + 1, CharSet::Digit)
    } else {
        i
    };
    lemma_number_text(s, d);
    lemma_run_end(s, d, CharSet::Digit);
    lemma_run_end(s, d + 1, CharSet::Digit);
    if i < s.len() {
        lemma_run_end(s, i + 1, CharSet::Digit);
    }
    if d > a {
        assert(s.subrange(a, j).skip(1) =~= s.subrange(d, j));
        assert(s.subrange(a, j)[0] == '-');
        assert(s.subrange(d, j)[0] == s[d]);
    }
}

proof fn lemma_number_text(s: Seq<char>, a: int)
    requires
        0 <= a < s.len(),
        is_digit(s[a]),
    ensures
        ({
            let i = run_end(s, a, CharSet::Digit);
            let j = if i < s.len() && s[i] == '.' {
                run_end(s, i + 1, CharSet::Digit)
            } else {
                i
            };
            reading(s.subrange(a, j)) is Some
        }),
{
    let i = run_end(s, a, CharSet::Digit);
    let point = i < s.len() && s[i] == '.';
    let j = if point {
        run_end(s, i + 1, CharSet::Digit)
    } else {
        i
    };
    lemma_run_end(s, a, CharSet::Digit);
    lemma_run_end(s, a + 1, CharSet::Digit);
    if point {
        lemma_run_end(s, i + 1, CharSet::Digit);
    }
    let t = s.subrange(a, j);
    assert(t[0] == s[a]);
    reveal_strlit("nan");
    reveal_strlit("inf");
    reveal_strlit("infinity");
    lemma_run_prefix(s, a, j, a, CharSet::Digit);
    assert(run_end(t, 0, CharSet::Digit) == i - a);
    if point {
        assert(t[i - a] == '.');
        lemma_run_prefix(s, a, j, i + 1, CharSet::Digit);
    }
    assert(t.skip(j - a) =~= Seq::<char>::empty());
}

/// A run within a part of `s` that ends where the run does.
proof fn lemma_run_prefix(s: Seq<char>, a: int, b: int, i: int, set: CharSet)
    requires
        0 <= a <= i <= b <= s.len(),
        run_end(s, i, set) <= b,
    ensures
        run_end(s.subrange(a, b), i - a, set) == run_end(s, i, set) - a,
    decreases b - i,
{
    lemma_run_end(s, i, set);
    let t = s.subrange(a, b);
    if i < b {
        assert(t[i - a] == s[i]);
        if set.has(s[i]) {
            lemma_run_prefix(s, a, b, i + 1, set);
        }
    }
}

/// The value of the hexadecimal digits from index `a` to index `b`.
fn hex_value(s: &[char], a: usize, b: usize) -> (r: u32)
    requires
        a <= b <= s@.len(),
        b - a == 6 || b - a == 8,
        b == run_end(s@, a as int, CharSet::Hex),
    ensures
        r == numeral_value(s@.subrange(a as int, b as int), 16),
        b - a == 6 ==> r < 0x100_0000,
{
    let h = slice_subrange(s, a, b);
    proof {
        lemma_run_end(s@, a as int, CharSet::Hex);
        assert forall|i: int| 0 <= i < h@.len() implies digit_value(#[trigger] h@[i]) < 16 by {
            assert(CharSet::Hex.has(s@[a + i]));
        }
        lemma_hex_bound(h@);
    }
    match capped_numeral(h, 16, 0x1_0000_0000) {
        Some(v) => v as u32,
        None => 0,
    }
}

proof fn lemma_hex_bound(h: Seq<char>)
    requires
        h.len() == 6 || h.len() == 8,
        forall|i: int| 0 <= i < h.len() ==> digit_value(#[trigger] h[i]) < 16,
    ensures
        h.len() == 6 ==> numeral_value(h, 16) < 0x100_0000,
        numeral_value(h, 16) < 0x1_0000_0000,
{
    reveal_with_fuel(numeral_value, 9);
}

fn rgb_tok(v: u32) -> (r: Tok)
    ensures
        r@ == color_tok(rgb_parts(v as nat)),
{
    Tok::Color((v / 0x1_0000 % 0x100) as u8, (v / 0x100 % 0x100) as u8, (v % 0x100) as u8, 255)
}

fn rgba_tok(v: u32) -> (r: Tok)
    ensures
        r@ == color_tok(rgba_parts(v as nat)),
{
    Tok::Color(
        (v / 0x100_0000 % 0x100) as u8,
        (v / 0x1_0000 % 0x100) as u8,
        (v / 0x100 % 0x100) as u8,
        (v % 0x100) as u8,
    )
}

/// A token with the errors met before it.
pub struct Lexeme {
    pub errors: Vec<ParseError>,
    pub tok: Tok,
    pub span: Span,
}

impl Lexeme {
    pub open spec fn is(&self, v: LexemeView) -> bool {
        &&& errors_are(self.errors@, v.errors)
        &&& self.tok@ == v.tok
        &&& self.span == v.span
    }
}

/// Whether `v` holds the tokens `t`.
pub open spec fn lexemes_are(v: Seq<Lexeme>, t: Seq<LexemeView>) -> bool {
    v.len() == t.len() && forall|i: int| 0 <= i < v.len() ==> (#[trigger] v[i]).is(t[i])
}

proof fn lemma_lexemes_push(v: Seq<Lexeme>, t: Seq<LexemeView>, l: Lexeme, w: LexemeView)
    requires
        lexemes_are(v, t),
        l.is(w),
    ensures
        lexemes_are(v.push(l), t.push(w)),
{
    assert forall|i: int| 0 <= i < v.push(l).len() implies (#[trigger] v.push(l)[i]).is(
        t.push(w)[i],
    ) by {
        if i < v.len() {
            assert(v[i].is(t[i]));
        }
    }
}

proof fn lemma_lexemes_step(s: Seq<char>, i: int, done: Seq<LexemeView>)
    requires
        0 <= i <= s.len(),
    ensures
        lexeme_from(s, i).tok is Eof ==> done + lexemes_from(s, i) == done.push(lexeme_from(s, i)),
        !(lexeme_from(s, i).tok is Eof) ==> done + lexemes_from(s, i) == done.push(
            lexeme_from(s, i),
        ) + lexemes_from(s, lex(s, token_from(s, i)).end),
{
    lemma_token_from(s, i);
    lemma_lex(s, token_from(s, i));
    let v = lexeme_from(s, i);
    if v.tok is Eof {
        assert(done + lexemes_from(s, i) =~= done.push(v));
    } else {
        let rest = lexemes_from(s, lex(s, token_from(s, i)).end);
        assert(done + lexemes_from(s, i) =~= done.push(v) + rest);
    }
}

/// Splits source text into tokens.
pub fn tokenize(src: &[char]) -> (r: Vec<Lexeme>)
    requires
        countable(src@),
    ensures
        lexemes_are(r@, lexemes(src@)),
        ends_in_eof(lexemes(src@)),
{
    let ghost s = src@;
    let mut lexer = Lexer::new(src);
    let mut r: Vec<Lexeme> = Vec::new();
    let ghost mut done: Seq<LexemeView> = Seq::empty();
    proof {
        lemma_lexemes_end(s, 0);
        assert(lexemes(s) =~= done + lexemes_from(s, 0));
    }
    loop
        invariant_except_break
            lexemes(s) == done + lexemes_from(s, lexer.index()),
        invariant
            lexer.wf(),
            lexer.source() == s,
            s == src@,
            0 <= lexer.index() <= s.len(),
            lexemes_are(r@, done),
        ensures
            lexemes_are(r@, lexemes(s)),
        decreases s.len() - lexer.index(),
    {
        let ghost i = lexer.index();
        proof {
            lemma_token_from(s, i);
            lemma_lex(s, token_from(s, i));
        }
        let l = lexer.next_lexeme();
        let ghost v = lexeme_from(s, i);
        let last = matches!(l.tok, Tok::Eof);
        proof {
            lemma_lexemes_step(s, i, done);
            lemma_lexemes_push(r@, done, l, v);
            done = done.push(v);
        }
        r.push(l);
        if last {
            break;
        }
    }
    r
}

/// A comment reads like nothing: what follows its line follows.
pub proof fn law_comment_is_ignored(s: Seq<char>, j: int)
    requires
        has_at(s, j, "//"@),
    ensures
        lex(s, j) == lex(s, run_end(s, j, CharSet::Not('\n'))),
{
    lemma_comment_start(s, j);
    lemma_skip_blank_step(s, j);
}

} // verus!
