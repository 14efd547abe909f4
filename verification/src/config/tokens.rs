//! How values are written: what stands in a file is read as it is meant.

use vstd::prelude::*;

use crate::config::lexer::{
    col_at, lex_at, lex_hash, lex_mark, lex_rgb, line_at, rgb_parts, rgba_parts, string_rest,
    TokView,
};
use crate::config::value::{truth_of, Unit};
use crate::integer::{
    decimal, digit_value, law_decimal_reads_back, lemma_decimal_numeral, numeral_value,
};
use crate::text::{has_at, is_digit, is_hex_digit, run_end, CharSet};

verus! {

pub proof fn lemma_run_is(s: Seq<char>, i: int, e: int, set: CharSet)
    requires
        0 <= i <= e <= s.len(),
        forall|k: int| i <= k < e ==> set.has(#[trigger] s[k]),
        e < s.len() ==> !set.has(s[e]),
    ensures
        run_end(s, i, set) == e,
    decreases e - i,
{
    if i < e {
        assert(set.has(s[i]));
        lemma_run_is(s, i + 1, e, set);
    }
}

// ── Colors ───────────────────────────────────────────────────────────────────

proof fn lemma_pairs(d: Seq<char>, n: nat)
    requires
        d.len() == 2 * n,
        n > 0,
        forall|k: int| 0 <= k < d.len() ==> digit_value(#[trigger] d[k]) < 16,
    ensures
        ({
            let m = d.len() as int;
            numeral_value(d, 16) == numeral_value(d.take(m - 2), 16) * 256 + 16 * digit_value(
                d[m - 2],
            ) + digit_value(d[m - 1])
        }),
{
    let m = d.len() as int;
    assert(d.drop_last().drop_last() =~= d.take(m - 2));
    assert(d.drop_last().last() == d[m - 2]);
    reveal_with_fuel(numeral_value, 3);
}

/// The number that two hexadecimal digits write.
pub open spec fn pair(d: Seq<char>, i: int) -> nat {
    16 * digit_value(d[2 * i]) + digit_value(d[2 * i + 1])
}

pub proof fn lemma_value(d: Seq<char>)
    requires
        d.len() == 6 || d.len() == 8,
        forall|k: int| 0 <= k < d.len() ==> digit_value(#[trigger] d[k]) < 16,
    ensures
        d.len() == 6 ==> numeral_value(d, 16) == 0x1_0000 * pair(d, 0) + 0x100 * pair(d, 1) + pair(
            d,
            2,
        ),
        d.len() == 8 ==> numeral_value(d, 16) == 0x100_0000 * pair(d, 0) + 0x1_0000 * pair(d, 1)
            + 0x100 * pair(d, 2) + pair(d, 3),
{
    let a = d.take(2);
    let b = d.take(4);
    let c = d.take(6);
    assert(c.take(4) =~= b);
    assert(b.take(2) =~= a);
    assert(a.take(0) =~= Seq::<char>::empty());
    assert(d.len() == 6 ==> c =~= d);
    assert(d.len() == 8 ==> d.take(6) =~= c);
    lemma_pairs(a, 1);
    lemma_pairs(b, 2);
    lemma_pairs(c, 3);
    if d.len() == 8 {
        lemma_pairs(d, 4);
    }
    assert(numeral_value(Seq::<char>::empty(), 16) == 0);
}

proof fn lemma_rgb(v: nat, r: nat, g: nat, b: nat)
    requires
        r < 256 && g < 256 && b < 256,
        v == 0x1_0000 * r + 0x100 * g + b,
    ensures
        rgb_parts(v) == (r as u8, g as u8, b as u8, 255u8),
{
    assert(v / 0x100 == 0x100 * r + g);
    assert(v / 0x1_0000 == r);
}

proof fn lemma_rgba(v: nat, r: nat, g: nat, b: nat, a: nat)
    requires
        r < 256 && g < 256 && b < 256 && a < 256,
        v == 0x100_0000 * r + 0x1_0000 * g + 0x100 * b + a,
    ensures
        rgba_parts(v) == (r as u8, g as u8, b as u8, a as u8),
{
    assert(v / 0x100 == 0x1_0000 * r + 0x100 * g + b);
    assert(v / 0x1_0000 == 0x100 * r + g);
    assert(v / 0x100_0000 == r);
}

/// The parts of a color that is written with these digits.
pub proof fn lemma_color(d: Seq<char>)
    requires
        d.len() == 6 || d.len() == 8,
        forall|k: int| 0 <= k < d.len() ==> is_hex_digit(#[trigger] d[k]),
    ensures
        pair(d, 0) < 256 && pair(d, 1) < 256 && pair(d, 2) < 256,
        d.len() == 6 ==> rgb_parts(numeral_value(d, 16)) == (
            pair(d, 0) as u8,
            pair(d, 1) as u8,
            pair(d, 2) as u8,
            255u8,
        ),
        d.len() == 8 ==> pair(d, 3) < 256 && rgba_parts(numeral_value(d, 16)) == (
            pair(d, 0) as u8,
            pair(d, 1) as u8,
            pair(d, 2) as u8,
            pair(d, 3) as u8,
        ),
{
    assert forall|k: int| 0 <= k < d.len() implies digit_value(#[trigger] d[k]) < 16 by {
        lemma_hex(d[k]);
    }
    lemma_value(d);
    assert(digit_value(d[0]) < 16 && digit_value(d[1]) < 16 && digit_value(d[2]) < 16
        && digit_value(d[3]) < 16 && digit_value(d[4]) < 16 && digit_value(d[5]) < 16);
    if d.len() == 6 {
        lemma_rgb(numeral_value(d, 16), pair(d, 0), pair(d, 1), pair(d, 2));
    } else {
        assert(digit_value(d[6]) < 16 && digit_value(d[7]) < 16);
        lemma_rgba(numeral_value(d, 16), pair(d, 0), pair(d, 1), pair(d, 2), pair(d, 3));
    }
}

proof fn lemma_hex(c: char)
    ensures
        is_hex_digit(c) ==> digit_value(c) < 16,
{
}

/// A color is read as it is written: two hexadecimal digits each for red, green and blue
/// behind a number sign, and two more for alpha. Without these it is opaque.
#[verifier::spinoff_prover]
pub proof fn law_hash_colors_are_read(s: Seq<char>, a: int, d: Seq<char>)
    requires
        d.len() == 6 || d.len() == 8,
        0 <= a,
        a + 1 + d.len() <= s.len(),
        s[a] == '#',
        s.subrange(a + 1, a + 1 + d.len()) == d,
        forall|k: int| 0 <= k < d.len() ==> is_hex_digit(#[trigger] d[k]),
        a + 1 + d.len() < s.len() ==> !is_hex_digit(s[a + 1 + d.len()]),
    ensures
        lex_at(s, a).end == a + 1 + d.len(),
        lex_at(s, a).tok matches Ok(TokView::Color(r, g, b, al)) && r == pair(d, 0) && g == pair(d, 1)
            && b == pair(d, 2) && al == (if d.len() == 8 {
            pair(d, 3)
        } else {
            255
        }),
{
    reveal_strlit("rgb(");
    reveal_strlit("rgba(");
    if has_at(s, a, "rgb("@) {
        assert(s.subrange(a, a + 4)[0] == s[a]);
    }
    if has_at(s, a, "rgba("@) {
        assert(s.subrange(a, a + 5)[0] == s[a]);
    }
    let e = a + 1 + d.len();
    assert forall|k: int| a + 1 <= k < e implies CharSet::Hex.has(#[trigger] s[k]) by {
        assert(d[k - a - 1] == s[k]);
    }
    lemma_run_is(s, a + 1, e, CharSet::Hex);
    lemma_color(d);
    assert(s.subrange(a + 1, e) == d);
    assert(lex_at(s, a) == lex_hash(s, a));
}

/// The same color can be written as `rgb(..)` with six digits or `rgba(..)` with eight.
#[verifier::spinoff_prover]
pub proof fn law_rgb_colors_are_read(s: Seq<char>, a: int, d: Seq<char>)
    requires
        d.len() == 6 || d.len() == 8,
        0 <= a,
        d.len() == 6 ==> a + 5 + d.len() <= s.len() && s.subrange(a, a + 4) == "rgb("@ && s.subrange(
            a + 4,
            a + 4 + d.len(),
        ) == d && s[a + 4 + d.len()] == ')',
        d.len() == 8 ==> a + 6 + d.len() <= s.len() && s.subrange(a, a + 5) == "rgba("@
            && s.subrange(a + 5, a + 5 + d.len()) == d && s[a + 5 + d.len()] == ')',
        forall|k: int| 0 <= k < d.len() ==> is_hex_digit(#[trigger] d[k]),
    ensures
        lex_at(s, a).tok matches Ok(TokView::Color(r, g, b, al)) && r == pair(d, 0) && g == pair(d, 1)
            && b == pair(d, 2) && al == (if d.len() == 8 {
            pair(d, 3)
        } else {
            255
        }),
{
    reveal_strlit("rgb(");
    reveal_strlit("rgba(");
    let h = if d.len() == 8 {
        a + 5
    } else {
        a + 4
    };
    if d.len() == 6 {
        assert(s[a] == s.subrange(a, a + 4)[0]);
        assert(s[a + 3] == s.subrange(a, a + 4)[3]);
        if has_at(s, a, "rgba("@) {
            assert(s.subrange(a, a + 5)[3] == s[a + 3]);
        }
        assert(has_at(s, a, "rgb("@));
    } else {
        assert(s[a] == s.subrange(a, a + 5)[0]);
        assert(has_at(s, a, "rgba("@));
    }
    let e = h + d.len();
    assert forall|k: int| h <= k < e implies CharSet::Hex.has(#[trigger] s[k]) by {
        assert(d[k - h] == s[k]);
    }
    assert(!is_hex_digit(')'));
    lemma_run_is(s, h, e, CharSet::Hex);
    lemma_color(d);
    assert(s.subrange(h, e) == d);
    assert(lex_at(s, a) == lex_rgb(s, a));
}

// ── Strings ──────────────────────────────────────────────────────────────────

/// How a character is written in a string.
pub open spec fn in_string(c: char) -> Seq<char> {
    if c == '"' {
        seq!['\\', '"']
    } else if c == '\\' {
        seq!['\\', '\\']
    } else if c == '\n' {
        seq!['\\', 'n']
    } else if c == '\t' {
        seq!['\\', 't']
    } else {
        seq![c]
    }
}

/// How a text is written in a string.
pub open spec fn string_text(t: Seq<char>) -> Seq<char>
    decreases t.len(),
{
    if t.len() == 0 {
        Seq::empty()
    } else {
        in_string(t[0]) + string_text(t.skip(1))
    }
}

proof fn lemma_string(s: Seq<char>, i: int, t: Seq<char>, acc: Seq<char>)
    requires
        0 <= i,
        i + string_text(t).len() < s.len(),
        s.subrange(i, i + string_text(t).len()) == string_text(t),
        s[i + string_text(t).len()] == '"',
    ensures
        string_rest(s, i, acc) == (
            i + string_text(t).len() + 1,
            Ok::<Seq<char>, Seq<char>>(acc + t),
        ),
    decreases t.len(),
{
    let all = string_text(t);
    if t.len() == 0 {
        assert(acc + t =~= acc);
    } else {
        let head = in_string(t[0]);
        let rest = string_text(t.skip(1));
        assert(all == head + rest);
        assert(s[i] == s.subrange(i, i + all.len())[0]);
        assert(s[i] == all[0]);
        if head.len() == 2 {
            assert(s[i + 1] == s.subrange(i, i + all.len())[1]);
            assert(s[i + 1] == all[1]);
        }
        let j = i + head.len();
        assert(s.subrange(j, j + rest.len()) =~= rest) by {
            assert forall|k: int| 0 <= k < rest.len() implies s[j + k] == rest[k] by {
                assert(s.subrange(i, i + all.len())[head.len() + k] == s[j + k]);
                assert(all[head.len() + k] == rest[k]);
            }
        }
        lemma_string(s, j, t.skip(1), acc.push(t[0]));
        assert(acc.push(t[0]) + t.skip(1) =~= acc + t);
    }
}

/// A string is read as it is written, whatever it holds.
pub proof fn law_strings_are_read(s: Seq<char>, a: int, t: Seq<char>)
    requires
        0 <= a,
        a + 1 + string_text(t).len() < s.len(),
        s[a] == '"',
        s.subrange(a + 1, a + 1 + string_text(t).len()) == string_text(t),
        s[a + 1 + string_text(t).len()] == '"',
    ensures
        lex_at(s, a).tok == Ok::<TokView, Seq<char>>(TokView::StringLit(t)),
        lex_at(s, a).end == a + string_text(t).len() + 2,
{
    lemma_string(s, a + 1, t, Seq::empty());
    assert(Seq::<char>::empty() + t =~= t);
}

// ── Marks and words ──────────────────────────────────────────────────────────

/// Each mark is read as its own token, and nothing else is a mark.
pub proof fn law_marks_are_told_apart(c: char)
    ensures
        lex_mark(c) == Some(TokView::Eq) <==> c == '=',
        lex_mark(c) == Some(TokView::LBrace) <==> c == '{',
        lex_mark(c) == Some(TokView::RBrace) <==> c == '}',
        lex_mark(c) == Some(TokView::LBracket) <==> c == '[',
        lex_mark(c) == Some(TokView::RBracket) <==> c == ']',
        lex_mark(c) == Some(TokView::Comma) <==> c == ',',
        lex_mark(c) matches Some(TokView::Ident(w)) ==> c == '|',
{
}

/// The words for true and for false.
#[verifier::spinoff_prover]
pub proof fn law_words_for_truth(w: Seq<char>)
    ensures
        truth_of(w) == Some(true) <==> w == "true"@ || w == "yes"@ || w == "on"@,
        truth_of(w) == Some(false) <==> w == "false"@ || w == "no"@ || w == "off"@,
{
    reveal_strlit("true");
    reveal_strlit("yes");
    reveal_strlit("on");
    reveal_strlit("false");
    reveal_strlit("no");
    reveal_strlit("off");
    assert("on"@.len() == 2 && "off"@.len() == 3 && "true"@.len() == 4 && "yes"@.len() == 3
        && "false"@.len() == 5 && "no"@.len() == 2);
    assert("on"@[0] == 'o' && "no"@[0] == 'n' && "off"@[0] == 'o' && "yes"@[0] == 'y');
}

// ── Numbers ──────────────────────────────────────────────────────────────────

proof fn lemma_decimal_digits(n: nat, k: int)
    requires
        0 <= k < decimal(n).len(),
    ensures
        is_digit(decimal(n)[k]),
{
    lemma_decimal_numeral(n);
    assert(digit_value(decimal(n)[k]) < 10);
}

/// A whole number is read as it is written; with a unit behind it, it is a length, a time,
/// a rate or a share.
#[verifier::spinoff_prover]
pub proof fn law_numbers_are_read(s: Seq<char>, a: int, n: i64, u: Option<Unit>)
    requires
        n >= 0,
        0 <= a,
        a + decimal(n as nat).len() <= s.len(),
        s.subrange(a, a + decimal(n as nat).len()) == decimal(n as nat),
        ({
            let e = a + decimal(n as nat).len();
            &&& u == Some(Unit::Px) ==> has_at(s, e, "px"@)
            &&& u == Some(Unit::Ms) ==> has_at(s, e, "ms"@)
            &&& u == Some(Unit::Hz) ==> has_at(s, e, "hz"@)
            &&& u == Some(Unit::Percent) ==> e < s.len() && s[e] == '%'
            &&& u is None ==> e == s.len() || (!is_digit(s[e]) && s[e] != '.' && s[e] != 'p' && s[e]
                != 'm' && s[e] != 'h' && s[e] != 'H' && s[e] != '%')
        }),
    ensures
        lex_at(s, a).start == a,
        u is None ==> lex_at(s, a).tok == Ok::<TokView, Seq<char>>(TokView::Int(n)) && lex_at(
            s,
            a,
        ).end == a + decimal(n as nat).len(),
        u matches Some(unit) ==> lex_at(s, a).tok == Ok::<TokView, Seq<char>>(
            TokView::Dimension(decimal(n as nat), unit),
        ),
        u matches Some(unit) ==> lex_at(s, a).end == a + decimal(n as nat).len() + (if unit
            == Unit::Percent {
            1int
        } else {
            2
        }),
{
    reveal_strlit("rgb(");
    reveal_strlit("rgba(");
    reveal_strlit("px");
    reveal_strlit("ms");
    reveal_strlit("hz");
    reveal_strlit("Hz");
    let d = decimal(n as nat);
    let e = a + d.len();
    lemma_decimal_numeral(n as nat);
    assert forall|k: int| a <= k < e implies is_digit(#[trigger] s[k]) by {
        assert(s.subrange(a, e)[k - a] == s[k]);
        lemma_decimal_digits(n as nat, k - a);
    }
    assert(is_digit(s[a]));
    if has_at(s, a, "rgb("@) {
        assert(s.subrange(a, a + 4)[0] == s[a]);
    }
    if has_at(s, a, "rgba("@) {
        assert(s.subrange(a, a + 5)[0] == s[a]);
    }
    if has_at(s, e, "px"@) {
        assert(s.subrange(e, e + 2)[0] == s[e]);
    }
    if has_at(s, e, "ms"@) {
        assert(s.subrange(e, e + 2)[0] == s[e]);
    }
    if has_at(s, e, "hz"@) {
        assert(s.subrange(e, e + 2)[0] == s[e]);
    }
    if has_at(s, e, "Hz"@) {
        assert(s.subrange(e, e + 2)[0] == s[e]);
    }
    lemma_run_is(s, a, e, CharSet::Digit);
    law_decimal_reads_back(n);
}

// ── Places ───────────────────────────────────────────────────────────────────

proof fn lemma_newlines(s: Seq<char>, i: int)
    requires
        0 <= i <= s.len(),
    ensures
        line_at(s, i) == 1 + s.take(i).filter(|c: char| c == '\n').len(),
    decreases i,
{
    reveal(Seq::filter);
    if i > 0 {
        lemma_newlines(s, i - 1);
        assert(s.take(i).drop_last() =~= s.take(i - 1));
        assert(s.take(i).last() == s[i - 1]);
    }
}

/// The line of a character is one more than the number of ends of lines before it.
pub proof fn law_lines_are_counted(s: Seq<char>, i: int)
    requires
        0 <= i <= s.len(),
    ensures
        line_at(s, i) == 1 + s.take(i).filter(|c: char| c == '\n').len(),
{
    lemma_newlines(s, i);
}

/// The column of a character is its place behind the last end of a line before it.
pub proof fn law_columns_are_counted(s: Seq<char>, i: int)
    requires
        0 <= i <= s.len(),
    ensures
        1 <= col_at(s, i) <= i + 1,
        col_at(s, i) <= i ==> s[i - col_at(s, i)] == '\n',
        forall|k: int| i - col_at(s, i) < k < i ==> #[trigger] s[k] != '\n',
    decreases i,
{
    if i > 0 && s[i - 1] != '\n' {
        law_columns_are_counted(s, i - 1);
    }
}

} // verus!
