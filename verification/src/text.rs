//! Characters, character slices and number parsing.
//!
//! Parsers in this crate work on slices of `char`; the functions here are the
//! parts of text handling that they share.

use vstd::prelude::*;
use vstd::slice::slice_subrange;
use vstd::utf8::{char_is_scalar, encode_scalar, encode_utf8};

verus! {

// ── Bytes ────────────────────────────────────────────────────────────────────

/// The number of bytes that `c` takes in UTF-8.
pub open spec fn char_bytes(c: char) -> nat {
    if c as u32 <= 0x7F {
        1
    } else if c as u32 <= 0x7FF {
        2
    } else if c as u32 <= 0xFFFF {
        3
    } else {
        4
    }
}

/// The number of bytes that `s` takes in UTF-8.
pub open spec fn byte_len(s: Seq<char>) -> nat
    decreases s.len(),
{
    if s.len() == 0 {
        0
    } else {
        byte_len(s.drop_last()) + char_bytes(s.last())
    }
}

/// The byte offset of the character with index `i`.
pub open spec fn byte_offset(s: Seq<char>, i: int) -> nat {
    byte_len(s.take(i))
}

pub proof fn lemma_byte_offset_step(s: Seq<char>, i: int)
    requires
        0 <= i < s.len(),
    ensures
        byte_offset(s, i + 1) == byte_offset(s, i) + char_bytes(s[i]),
{
    assert(s.take(i + 1).drop_last() =~= s.take(i));
}

pub proof fn lemma_byte_len_front(s: Seq<char>)
    requires
        s.len() > 0,
    ensures
        byte_len(s) == char_bytes(s[0]) + byte_len(s.drop_first()),
    decreases s.len(),
{
    if s.len() == 1 {
        assert(s.drop_last() =~= Seq::<char>::empty());
        assert(s.drop_first() =~= Seq::<char>::empty());
        assert(byte_len(s.drop_last()) == 0);
    } else {
        lemma_byte_len_front(s.drop_last());
        assert(s.drop_last().drop_first() =~= s.drop_first().drop_last());
        assert(s.drop_first().last() == s.last());
    }
}

pub proof fn lemma_byte_len_is_utf8(s: Seq<char>)
    ensures
        byte_len(s) == encode_utf8(s).len(),
    decreases s.len(),
{
    if s.len() > 0 {
        lemma_byte_len_front(s);
        lemma_byte_len_is_utf8(s.drop_first());
        char_is_scalar(s[0]);
        assert(encode_scalar(s[0] as u32).len() == char_bytes(s[0]));
    }
}

pub proof fn lemma_byte_offset_monotone(s: Seq<char>, i: int, j: int)
    requires
        0 <= i <= j <= s.len(),
    ensures
        byte_offset(s, i) <= byte_offset(s, j),
        j - i <= byte_offset(s, j) - byte_offset(s, i),
    decreases j - i,
{
    if i < j {
        lemma_byte_offset_monotone(s, i, j - 1);
        lemma_byte_offset_step(s, j - 1);
    }
}

/// The number of bytes that `c` takes in UTF-8.
pub fn char_width(c: char) -> (n: usize)
    ensures
        n == char_bytes(c),
        1 <= n <= 4,
{
    let u: u32 = c as u32;
    if u <= 0x7F {
        1
    } else if u <= 0x7FF {
        2
    } else if u <= 0xFFFF {
        3
    } else {
        4
    }
}

// ── Character classes ────────────────────────────────────────────────────────

pub open spec fn is_digit(c: char) -> bool {
    '0' <= c <= '9'
}

pub open spec fn is_ascii_letter(c: char) -> bool {
    'a' <= c <= 'z' || 'A' <= c <= 'Z'
}

pub open spec fn is_hex_digit(c: char) -> bool {
    is_digit(c) || 'a' <= c <= 'f' || 'A' <= c <= 'F'
}

/// Space, tab, line feed, form feed and carriage return.
pub open spec fn is_ascii_space(c: char) -> bool {
    c == ' ' || c == '\t' || c == '\n' || c == '\u{C}' || c == '\r'
}

/// The characters with the Unicode property `White_Space`.
pub open spec fn is_space(c: char) -> bool {
    let u = c as u32;
    ||| 0x9 <= u <= 0xD
    ||| u == 0x20
    ||| u == 0x85
    ||| u == 0xA0
    ||| u == 0x1680
    ||| 0x2000 <= u <= 0x200A
    ||| u == 0x2028
    ||| u == 0x2029
    ||| u == 0x202F
    ||| u == 0x205F
    ||| u == 0x3000
}

/// Whether std calls a character beyond ASCII alphabetic.
pub uninterp spec fn unicode_alphabetic(c: char) -> bool;

/// Whether std calls a character beyond ASCII numeric.
pub uninterp spec fn unicode_numeric(c: char) -> bool;

pub open spec fn is_alphabetic(c: char) -> bool {
    if c as u32 <= 0x7F {
        is_ascii_letter(c)
    } else {
        unicode_alphabetic(c)
    }
}

pub open spec fn is_alphanumeric(c: char) -> bool {
    if c as u32 <= 0x7F {
        is_ascii_letter(c) || is_digit(c)
    } else {
        unicode_alphabetic(c) || unicode_numeric(c)
    }
}

/// `char::is_alphabetic`: whether `c` has the Unicode property `Alphabetic`,
/// a function of `c` alone.
#[verifier::external_body]
fn std_is_alphabetic(c: char) -> (r: bool)
    ensures
        r == unicode_alphabetic(c),
{
    c.is_alphabetic()
}

/// `char::is_numeric`: whether `c` belongs to one of the general categories
/// for numbers, a function of `c` alone.
#[verifier::external_body]
fn std_is_numeric(c: char) -> (r: bool)
    ensures
        r == unicode_numeric(c),
{
    c.is_numeric()
}

pub fn digit(c: char) -> (r: bool)
    ensures
        r == is_digit(c),
{
    '0' <= c && c <= '9'
}

pub fn hex_digit(c: char) -> (r: bool)
    ensures
        r == is_hex_digit(c),
{
    digit(c) || ('a' <= c && c <= 'f') || ('A' <= c && c <= 'F')
}

pub fn ascii_space(c: char) -> (r: bool)
    ensures
        r == is_ascii_space(c),
{
    c == ' ' || c == '\t' || c == '\n' || c == '\u{C}' || c == '\r'
}

pub fn space(c: char) -> (r: bool)
    ensures
        r == is_space(c),
{
    let u: u32 = c as u32;
    (0x9 <= u && u <= 0xD) || u == 0x20 || u == 0x85 || u == 0xA0 || u == 0x1680 || (0x2000 <= u
        && u <= 0x200A) || u == 0x2028 || u == 0x2029 || u == 0x202F || u == 0x205F || u == 0x3000
}

pub fn alphabetic(c: char) -> (r: bool)
    ensures
        r == is_alphabetic(c),
{
    if c as u32 <= 0x7F {
        ('a' <= c && c <= 'z') || ('A' <= c && c <= 'Z')
    } else {
        std_is_alphabetic(c)
    }
}

pub fn alphanumeric(c: char) -> (r: bool)
    ensures
        r == is_alphanumeric(c),
{
    if c as u32 <= 0x7F {
        ('a' <= c && c <= 'z') || ('A' <= c && c <= 'Z') || digit(c)
    } else {
        std_is_alphabetic(c) || std_is_numeric(c)
    }
}

// ── Strings and slices ───────────────────────────────────────────────────────

/// `String::push`: appends one character.
pub assume_specification[ std::string::String::push ](s: &mut std::string::String, ch: char)
    ensures
        final(s)@ == old(s)@.push(ch),
;

pub open spec fn strings_view(v: Seq<String>) -> Seq<Seq<char>> {
    Seq::new(v.len(), |i: int| v[i]@)
}

/// A copy of `v`.
pub fn copy_strings(v: &Vec<String>) -> (r: Vec<String>)
    ensures
        strings_view(r@) == strings_view(v@),
{
    let mut r: Vec<String> = Vec::new();
    let mut i: usize = 0;
    while i < v.len()
        invariant
            i <= v.len(),
            r@.len() == i,
            forall|k: int| 0 <= k < i ==> (#[trigger] r@[k])@ == v@[k]@,
        decreases v.len() - i,
    {
        r.push(v[i].clone());
        i += 1;
    }
    assert(strings_view(r@) =~= strings_view(v@));
    r
}

/// The characters of `s`.
pub fn chars_of(s: &str) -> (r: Vec<char>)
    ensures
        r@ == s@,
{
    let mut r: Vec<char> = Vec::new();
    for c in it: s.chars()
        invariant
            r@ == it.seq().take(it.index() as int),
            it.seq() == s@,
    {
        r.push(c);
    }
    r
}

/// The string that holds the characters `s`.
pub fn string_of(s: &[char]) -> (r: String)
    ensures
        r@ == s@,
{
    let mut r = String::new();
    let n: usize = s.len();
    let mut i: usize = 0;
    while i < n
        invariant
            n == s.len(),
            i <= n,
            r@ == s@.take(i as int),
        decreases n - i,
    {
        r.push(s[i]);
        i += 1;
        assert(s@.take(i as int) =~= s@.take(i - 1).push(s@[i - 1]));
    }
    assert(s@.take(n as int) =~= s@);
    r
}

/// Whether two strings hold the same characters.
pub fn same(a: &str, b: &str) -> (r: bool)
    ensures
        r == (a@ == b@),
{
    a.to_owned() == b.to_owned()
}

/// Whether `s` holds exactly the characters of `word`.
pub fn is_word(s: &[char], word: &str) -> (r: bool)
    ensures
        r == (s@ == word@),
{
    string_of(s) == word.to_owned()
}

/// Whether `prefix` stands in `s` at index `at`.
pub open spec fn has_at(s: Seq<char>, at: int, prefix: Seq<char>) -> bool {
    &&& 0 <= at
    &&& at + prefix.len() <= s.len()
    &&& s.subrange(at, at + prefix.len()) == prefix
}

pub fn found_at(s: &[char], at: usize, prefix: &str) -> (r: bool)
    requires
        at <= s.len(),
    ensures
        r == has_at(s@, at as int, prefix@),
{
    let p = chars_of(prefix);
    if p.len() > s.len() - at {
        return false;
    }
    let end: usize = at + p.len();
    is_word(slice_subrange(s, at, end), prefix)
}

/// A set of characters that a lexer runs over.
#[derive(Clone, Copy, PartialEq, Eq, Structural)]
pub enum CharSet {
    /// White space in the sense of Unicode.
    Space,
    /// White space within ASCII.
    AsciiSpace,
    /// White space within ASCII that does not end a line.
    LineSpace,
    Digit,
    Hex,
    /// What the name of a variable consists of.
    Name,
    /// What a bare word consists of.
    Word,
    /// All but white space.
    Ink,
    /// One character.
    Only(char),
    /// Every character but one.
    Not(char),
}

impl CharSet {
    pub open spec fn has(self, c: char) -> bool {
        match self {
            CharSet::Space => is_space(c),
            CharSet::AsciiSpace => is_ascii_space(c),
            CharSet::LineSpace => is_ascii_space(c) && c != '\n',
            CharSet::Digit => is_digit(c),
            CharSet::Hex => is_hex_digit(c),
            CharSet::Name => is_alphanumeric(c) || c == '_',
            CharSet::Word => is_alphanumeric(c) || c == '_' || c == '-' || c == '+' || c == ':'
                || c == '.' || c == '@' || c == '/',
            CharSet::Ink => !is_space(c),
            CharSet::Only(x) => c == x,
            CharSet::Not(x) => c != x,
        }
    }

    pub fn contains(self, c: char) -> (r: bool)
        ensures
            r == self.has(c),
    {
        match self {
            CharSet::Space => space(c),
            CharSet::AsciiSpace => ascii_space(c),
            CharSet::LineSpace => ascii_space(c) && c != '\n',
            CharSet::Digit => digit(c),
            CharSet::Hex => hex_digit(c),
            CharSet::Name => alphanumeric(c) || c == '_',
            CharSet::Word => alphanumeric(c) || c == '_' || c == '-' || c == '+' || c == ':' || c
                == '.' || c == '@' || c == '/',
            CharSet::Ink => !space(c),
            CharSet::Only(x) => c == x,
            CharSet::Not(x) => c != x,
        }
    }
}

/// The index of the first character at or after `i` that is not in `set`.
pub open spec fn run_end(s: Seq<char>, i: int, set: CharSet) -> int
    decreases s.len() - i,
{
    if 0 <= i < s.len() && set.has(s[i]) {
        run_end(s, i + 1, set)
    } else {
        i
    }
}

pub proof fn lemma_run_end(s: Seq<char>, i: int, set: CharSet)
    requires
        0 <= i <= s.len(),
    ensures
        i <= run_end(s, i, set) <= s.len(),
        forall|k: int| i <= k < run_end(s, i, set) ==> set.has(#[trigger] s[k]),
        run_end(s, i, set) < s.len() ==> !set.has(s[run_end(s, i, set)]),
    decreases s.len() - i,
{
    if i < s.len() && set.has(s[i]) {
        lemma_run_end(s, i + 1, set);
    }
}

/// The end of the run of characters in `set` that starts at `from`.
pub fn run(s: &[char], from: usize, set: CharSet) -> (r: usize)
    requires
        from <= s.len(),
    ensures
        r == run_end(s@, from as int, set),
        from <= r <= s.len(),
        r < s.len() ==> !set.has(s@[r as int]),
{
    let mut i: usize = from;
    while i < s.len() && set.contains(s[i])
        invariant
            from <= i <= s.len(),
            run_end(s@, from as int, set) == run_end(s@, i as int, set),
        decreases s.len() - i,
    {
        i += 1;
    }
    i
}

/// The start of the trailing run of white space of `s`.
pub open spec fn trimmed_end(s: Seq<char>) -> int
    decreases s.len(),
{
    if s.len() > 0 && is_space(s.last()) {
        trimmed_end(s.drop_last())
    } else {
        s.len() as int
    }
}

/// `s` without trailing white space.
pub open spec fn trim_end_spec(s: Seq<char>) -> Seq<char> {
    s.take(trimmed_end(s))
}

/// `s` without leading white space.
pub open spec fn trim_start_spec(s: Seq<char>) -> Seq<char> {
    s.skip(run_end(s, 0, CharSet::Space))
}

/// `s` without white space at either end.
pub open spec fn trim_spec(s: Seq<char>) -> Seq<char> {
    trim_end_spec(trim_start_spec(s))
}

pub proof fn lemma_trimmed_end(s: Seq<char>)
    ensures
        0 <= trimmed_end(s) <= s.len(),
        trimmed_end(s) > 0 ==> !is_space(s[trimmed_end(s) - 1]),
        forall|k: int| trimmed_end(s) <= k < s.len() ==> is_space(#[trigger] s[k]),
    decreases s.len(),
{
    if s.len() > 0 && is_space(s.last()) {
        lemma_trimmed_end(s.drop_last());
        assert forall|k: int| trimmed_end(s) <= k < s.len() implies is_space(#[trigger] s[k]) by {
            if k < s.len() - 1 {
                assert(s.drop_last()[k] == s[k]);
            }
        }
    }
}

pub fn trim_end(s: &[char]) -> (r: &[char])
    ensures
        r@ == trim_end_spec(s@),
{
    let mut n: usize = s.len();
    assert(s@.take(n as int) =~= s@);
    while n > 0 && space(s[n - 1])
        invariant
            n <= s.len(),
            trimmed_end(s@) == trimmed_end(s@.take(n as int)),
        decreases n,
    {
        assert(s@.take(n as int).drop_last() =~= s@.take(n - 1));
        n -= 1;
    }
    proof {
        assert(s@.take(n as int).len() == n);
        assert(n > 0 ==> s@.take(n as int).last() == s@[n - 1]);
        assert(s@.subrange(0, n as int) =~= s@.take(n as int));
    }
    slice_subrange(s, 0, n)
}

pub fn trim_start(s: &[char]) -> (r: &[char])
    ensures
        r@ == trim_start_spec(s@),
{
    let i: usize = run(s, 0, CharSet::Space);
    assert(s@.subrange(i as int, s@.len() as int) =~= s@.skip(i as int));
    slice_subrange(s, i, s.len())
}

pub fn trim(s: &[char]) -> (r: &[char])
    ensures
        r@ == trim_spec(s@),
{
    trim_end(trim_start(s))
}

/// The index of the first `c` in `s`, or the length of `s`.
pub open spec fn index_of(s: Seq<char>, c: char) -> int {
    run_end(s, 0, CharSet::Not(c))
}

pub fn find_char(s: &[char], c: char) -> (r: Option<usize>)
    ensures
        match r {
            Some(i) => i < s@.len() && i == index_of(s@, c) && s@[i as int] == c,
            None => index_of(s@, c) == s@.len(),
        },
{
    let i: usize = run(s, 0, CharSet::Not(c));
    if i < s.len() {
        Some(i)
    } else {
        None
    }
}

/// The index of the last `c` in `s`, or -1.
pub open spec fn last_index_of(s: Seq<char>, c: char) -> int
    decreases s.len(),
{
    if s.len() == 0 {
        -1
    } else if s.last() == c {
        s.len() - 1
    } else {
        last_index_of(s.drop_last(), c)
    }
}

pub fn rfind_char(s: &[char], c: char) -> (r: Option<usize>)
    ensures
        match r {
            Some(i) => i < s@.len() && i == last_index_of(s@, c) && s@[i as int] == c,
            None => last_index_of(s@, c) == -1,
        },
{
    let mut n: usize = s.len();
    assert(s@.take(n as int) =~= s@);
    while n > 0
        invariant
            n <= s.len(),
            last_index_of(s@, c) == last_index_of(s@.take(n as int), c),
        decreases n,
    {
        assert(s@.take(n as int).drop_last() =~= s@.take(n - 1));
        if s[n - 1] == c {
            return Some(n - 1);
        }
        n -= 1;
    }
    None
}

/// Whether `part` occurs in `s`.
pub open spec fn contains_text(s: Seq<char>, part: Seq<char>) -> bool {
    exists|i: int| #[trigger] has_at(s, i, part)
}

pub fn contains(s: &str, part: &str) -> (r: bool)
    ensures
        r == contains_text(s@, part@),
{
    let c = chars_of(s);
    let n: usize = c.len();
    let mut i: usize = 0;
    loop
        invariant
            c@ == s@,
            n == c@.len(),
            i <= n,
            forall|k: int| 0 <= k < i ==> !#[trigger] has_at(s@, k, part@),
        decreases n - i,
    {
        if found_at(c.as_slice(), i, part) {
            assert(has_at(s@, i as int, part@));
            return true;
        }
        if i == n {
            return false;
        }
        i += 1;
    }
}

/// The rest of `s` behind `prefix`, where `s` starts with it.
pub open spec fn after_prefix(s: Seq<char>, prefix: Seq<char>) -> Option<Seq<char>> {
    if has_at(s, 0, prefix) {
        Some(s.skip(prefix.len() as int))
    } else {
        None
    }
}

pub fn strip_prefix<'a>(s: &'a [char], prefix: &str) -> (r: Option<&'a [char]>)
    ensures
        match r {
            Some(t) => after_prefix(s@, prefix@) == Some(t@),
            None => after_prefix(s@, prefix@) is None,
        },
{
    if found_at(s, 0, prefix) {
        let n: usize = chars_of(prefix).len();
        assert(s@.subrange(n as int, s@.len() as int) =~= s@.skip(n as int));
        Some(slice_subrange(s, n, s.len()))
    } else {
        None
    }
}

/// The parts of `s` from index `i` on between the separators `c`.
pub open spec fn split_from(s: Seq<char>, i: int, c: char) -> Seq<Seq<char>>
    decreases s.len() - i,
    when 0 <= i <= s.len()
    via split_from_decreases
{
    let e = run_end(s, i, CharSet::Not(c));
    if e < s.len() {
        seq![s.subrange(i, e)] + split_from(s, e + 1, c)
    } else {
        seq![s.subrange(i, e)]
    }
}

#[via_fn]
proof fn split_from_decreases(s: Seq<char>, i: int, c: char) {
    lemma_run_end(s, i, CharSet::Not(c));
}

/// The parts of `s` between the separators `c`.
pub open spec fn split_spec(s: Seq<char>, c: char) -> Seq<Seq<char>> {
    split_from(s, 0, c)
}

pub open spec fn slices_view(v: Seq<&[char]>) -> Seq<Seq<char>> {
    Seq::new(v.len(), |i: int| v[i]@)
}

pub fn split<'a>(s: &'a [char], c: char) -> (r: Vec<&'a [char]>)
    ensures
        slices_view(r@) == split_spec(s@, c),
        r@.len() > 0,
{
    let mut r: Vec<&'a [char]> = Vec::new();
    let mut i: usize = 0;
    assert(slices_view(r@) + split_from(s@, 0, c) =~= split_spec(s@, c));
    loop
        invariant_except_break
            split_spec(s@, c) == slices_view(r@) + split_from(s@, i as int, c),
        invariant
            i <= s.len(),
        ensures
            split_spec(s@, c) == slices_view(r@),
            r@.len() > 0,
        decreases s.len() - i,
    {
        let ghost before = r@;
        let e: usize = run(s, i, CharSet::Not(c));
        let part = slice_subrange(s, i, e);
        r.push(part);
        proof {
            assert(slices_view(r@) =~= slices_view(before).push(part@));
            if e < s@.len() {
                assert(slices_view(before) + split_from(s@, i as int, c) =~= slices_view(r@)
                    + split_from(s@, e + 1, c));
            } else {
                assert(slices_view(before) + split_from(s@, i as int, c) =~= slices_view(r@));
            }
        }
        if e >= s.len() {
            break;
        }
        i = e + 1;
    }
    r
}

/// The words of `s` from index `i` on, which white space separates.
pub open spec fn words_from(s: Seq<char>, i: int) -> Seq<Seq<char>>
    decreases s.len() - i,
    when 0 <= i <= s.len()
    via words_from_decreases
{
    let a = run_end(s, i, CharSet::Space);
    let b = run_end(s, a, CharSet::Ink);
    if a >= s.len() {
        Seq::empty()
    } else {
        seq![s.subrange(a, b)] + words_from(s, b)
    }
}

#[via_fn]
proof fn words_from_decreases(s: Seq<char>, i: int) {
    let a = run_end(s, i, CharSet::Space);
    lemma_run_end(s, i, CharSet::Space);
    if a < s.len() {
        lemma_run_end(s, a, CharSet::Ink);
        lemma_run_end(s, a + 1, CharSet::Ink);
    }
}

/// The words of `s`.
pub open spec fn words_spec(s: Seq<char>) -> Seq<Seq<char>> {
    words_from(s, 0)
}

pub fn words<'a>(s: &'a [char]) -> (r: Vec<&'a [char]>)
    ensures
        slices_view(r@) == words_spec(s@),
{
    let mut r: Vec<&'a [char]> = Vec::new();
    let mut i: usize = 0;
    assert(slices_view(r@) + words_from(s@, 0) =~= words_spec(s@));
    loop
        invariant_except_break
            words_spec(s@) == slices_view(r@) + words_from(s@, i as int),
        invariant
            i <= s.len(),
        ensures
            words_spec(s@) == slices_view(r@),
        decreases s.len() - i,
    {
        let ghost before = r@;
        let a: usize = run(s, i, CharSet::Space);
        if a >= s.len() {
            assert(slices_view(r@) + words_from(s@, i as int) =~= slices_view(r@));
            break;
        }
        proof {
            lemma_run_end(s@, a + 1, CharSet::Ink);
        }
        let b: usize = run(s, a, CharSet::Ink);
        let part = slice_subrange(s, a, b);
        r.push(part);
        proof {
            assert(slices_view(r@) =~= slices_view(before).push(part@));
            assert(slices_view(before) + words_from(s@, i as int) =~= slices_view(r@) + words_from(
                s@,
                b as int,
            ));
        }
        i = b;
    }
    r
}

// ── Case ─────────────────────────────────────────────────────────────────────

pub open spec fn ascii_lower(c: char) -> char {
    if 'A' <= c <= 'Z' {
        (c as u32 + 32) as char
    } else {
        c
    }
}

pub fn to_ascii_lower(c: char) -> (r: char)
    ensures
        r == ascii_lower(c),
{
    if 'A' <= c && c <= 'Z' {
        (c as u8 + 32) as char
    } else {
        c
    }
}

/// What std makes of a string with characters beyond ASCII in lower case.
pub uninterp spec fn unicode_lowercase(s: Seq<char>) -> Seq<char>;

/// `str::to_lowercase`: the mapping of Unicode, a function of the string
/// alone.
#[verifier::external_body]
fn std_to_lowercase(s: &str) -> (r: String)
    ensures
        r@ == unicode_lowercase(s@),
{
    s.to_lowercase()
}

pub open spec fn all_ascii(s: Seq<char>) -> bool {
    forall|i: int| 0 <= i < s.len() ==> #[trigger] s[i] as u32 <= 0x7F
}

/// `s` in lower case.
pub open spec fn lowercase(s: Seq<char>) -> Seq<char> {
    if all_ascii(s) {
        Seq::new(s.len(), |i: int| ascii_lower(s[i]))
    } else {
        unicode_lowercase(s)
    }
}

pub fn to_lowercase(s: &[char]) -> (r: String)
    ensures
        r@ == lowercase(s@),
{
    let mut r = String::new();
    let mut i: usize = 0;
    assert(r@ =~= lowercase(s@).take(0) || !all_ascii(s@));
    while i < s.len()
        invariant
            i <= s.len(),
            forall|k: int| 0 <= k < i ==> #[trigger] s@[k] as u32 <= 0x7F,
            r@ == Seq::new(i as nat, |k: int| ascii_lower(s@[k])),
        decreases s.len() - i,
    {
        let c: char = s[i];
        if c as u32 > 0x7F {
            assert(s@[i as int] as u32 > 0x7F);
            return std_to_lowercase(string_of(s).as_str());
        }
        r.push(to_ascii_lower(c));
        i += 1;
        assert(r@ =~= Seq::new(i as nat, |k: int| ascii_lower(s@[k])));
    }
    assert(r@ =~= lowercase(s@));
    r
}

} // verus!
