//! What numbers and values that are written stand for.

use vstd::prelude::*;

use crate::config::tokens::{lemma_color, lemma_run_is, lemma_value, pair};
use crate::config::value::{merged, Span, ValueView};
use crate::config::vars::{comment_start, definition, inline_value, rgb_value, unit_suffix};
use crate::integer::{
    decimal, digit_value, law_decimal_reads_back, lemma_decimal_numeral, numeral_value,
};
use crate::number::{
    bit_length, double_part, integer_of, lemma_bit_length, lemma_two_monotone, lemma_two_pos,
    lemma_two_values, plain, reading, round_even, spells, ten, two, zeros, zeros_cut, Reading,
};
use crate::single::clamped_units;
use crate::text::{ascii_lower, has_at, is_digit, is_hex_digit, is_space, trim_spec, CharSet};
use crate::twm::motion::{lemma_even_at_least, lemma_even_at_most};
use crate::writing::{is_word, law_trimmed_is_white_space};

verus! {

// ── Numbers ──────────────────────────────────────────────────────────────────

proof fn lemma_digits_of(n: nat)
    ensures
        decimal(n).len() > 0,
        forall|k: int| 0 <= k < decimal(n).len() ==> is_digit(#[trigger] decimal(n)[k]),
        numeral_value(decimal(n), 10) == n,
{
    lemma_decimal_numeral(n);
    assert forall|k: int| 0 <= k < decimal(n).len() implies is_digit(#[trigger] decimal(n)[k]) by {
        assert(digit_value(decimal(n)[k]) < 10);
    }
}

proof fn lemma_no_word(s: Seq<char>, word: Seq<char>)
    requires
        s.len() > 0,
        is_digit(s[0]) || s[0] == '.',
        word.len() > 0,
        'a' <= word[0] <= 'z',
    ensures
        !spells(s, word),
{
    if spells(s, word) {
        assert(ascii_lower(s[0]) == word[0]);
    }
}

/// A literal of digits is read as those digits.
proof fn lemma_reading(n: nat)
    ensures
        reading(decimal(n)) == Some(
            Reading::Finite { negative: false, digits: decimal(n), exp: 0 },
        ),
{
    let s = decimal(n);
    lemma_digits_of(n);
    assert(is_digit(s[0]));
    reveal_strlit("nan");
    reveal_strlit("inf");
    reveal_strlit("infinity");
    lemma_no_word(s, "nan"@);
    lemma_no_word(s, "inf"@);
    lemma_no_word(s, "infinity"@);
    lemma_run_is(s, 0, s.len() as int, CharSet::Digit);
    assert(s.skip(s.len() as int).len() == 0);
    assert(s.take(s.len() as int) + Seq::<char>::empty() =~= s);
}

proof fn lemma_whole(n: nat)
    requires
        n < 0x20_0000_0000_0000,
    ensures
        double_part(n, 1) == n,
{
    let k = bit_length(n);
    lemma_bit_length(n);
    lemma_two_values();
    assert(n / 1 == n);
    if k > 53 {
        lemma_two_monotone(53, (k - 1) as nat);
    }
    let unit = two((53 - k) as nat);
    lemma_two_pos((53 - k) as nat);
    let x = n * unit;
    assert(x / 1 == x && x % 1 == 0);
    assert(round_even(x, 1) == x);
    assert((unit * n) / unit == n) by {
        vstd::arithmetic::div_mod::lemma_div_multiples_vanish(n as int, unit as int);
    }
    assert(n * unit == unit * n) by (nonlinear_arith);
}

/// A whole number is what it says, held between the bounds.
pub proof fn law_whole_numbers(n: nat, lo: int, hi: int)
    requires
        n < 0x20_0000_0000_0000,
    ensures
        lo <= n <= hi ==> integer_of(decimal(n), lo, hi) == n,
        n < lo <= hi ==> integer_of(decimal(n), lo, hi) == lo,
        n > hi ==> lo <= hi ==> integer_of(decimal(n), lo, hi) == hi,
{
    lemma_reading(n);
    lemma_digits_of(n);
    reveal_with_fuel(ten, 2);
    assert(n * 1 == n);
    lemma_whole(n);
}

/// A number behind a minus sign is the opposite of the number without it.
pub proof fn law_signs_turn_numbers_round(s: Seq<char>, lo: int, hi: int)
    requires
        s.len() > 0,
        s[0] != '-' && s[0] != '+',
        reading(s) matches Some(r) && r is Finite,
    ensures
        integer_of(seq!['-'] + s, -hi, -lo) == -integer_of(s, lo, hi) || lo > hi,
        integer_of(seq!['+'] + s, lo, hi) == integer_of(s, lo, hi),
{
    assert((seq!['-'] + s).skip(1) =~= s);
    assert((seq!['+'] + s).skip(1) =~= s);
}

proof fn lemma_joined_value(a: Seq<char>, b: Seq<char>)
    ensures
        numeral_value(a + b, 10) == numeral_value(a, 10) * ten(b.len()) + numeral_value(b, 10),
    decreases b.len(),
{
    if b.len() == 0 {
        assert(a + b =~= a);
        assert(numeral_value(a, 10) * 1 == numeral_value(a, 10));
    } else {
        let c = b.drop_last();
        assert((a + b).drop_last() =~= a + c);
        assert((a + b).last() == b.last());
        lemma_joined_value(a, c);
        let v = numeral_value(a, 10);
        assert((v * ten(c.len()) + numeral_value(c, 10)) * 10 == v * (10 * ten(c.len()))
            + numeral_value(c, 10) * 10) by (nonlinear_arith);
    }
}

proof fn lemma_below_ten(s: Seq<char>)
    requires
        forall|k: int| 0 <= k < s.len() ==> is_digit(#[trigger] s[k]),
    ensures
        numeral_value(s, 10) < ten(s.len()),
    decreases s.len(),
{
    if s.len() > 0 {
        assert forall|k: int| 0 <= k < s.len() - 1 implies is_digit(#[trigger] s.drop_last()[k]) by {
            assert(s.drop_last()[k] == s[k]);
        }
        lemma_below_ten(s.drop_last());
        assert(is_digit(s[s.len() - 1]));
        assert(digit_value(s.last()) < 10);
    }
}

/// The digits behind the point are dropped, unless so many of them are nines that no double
/// is nearer than the next whole number.
pub proof fn law_fractions_are_dropped(n: nat, f: Seq<char>, lo: int, hi: int)
    requires
        n < 0x20_0000_0000_0000,
        forall|k: int| 0 <= k < f.len() ==> is_digit(#[trigger] f[k]),
        lo <= n,
        n + 1 <= hi,
    ensures
        n <= integer_of(decimal(n) + seq!['.'] + f, lo, hi) <= n + 1,
{
    let d = decimal(n);
    let s = d + seq!['.'] + f;
    lemma_digits_of(n);
    assert(s[0] == d[0]);
    reveal_strlit("nan");
    reveal_strlit("inf");
    reveal_strlit("infinity");
    assert(is_digit(s[0]));
    lemma_no_word(s, "nan"@);
    lemma_no_word(s, "inf"@);
    lemma_no_word(s, "infinity"@);
    let i = d.len() as int;
    assert forall|k: int| 0 <= k < i implies CharSet::Digit.has(#[trigger] s[k]) by {
        assert(s[k] == d[k]);
    }
    assert(s[i] == '.');
    lemma_run_is(s, 0, i, CharSet::Digit);
    assert forall|k: int| i + 1 <= k < s.len() implies CharSet::Digit.has(#[trigger] s[k]) by {
        assert(s[k] == f[k - i - 1]);
    }
    lemma_run_is(s, i + 1, s.len() as int, CharSet::Digit);
    assert(s.take(i) =~= d);
    assert(s.subrange(i + 1, s.len() as int) =~= f);
    assert(s.skip(s.len() as int).len() == 0);
    let e = -(f.len() as int);
    assert(reading(s) == Some(Reading::Finite { negative: false, digits: d + f, exp: e }));
    lemma_joined_value(d, f);
    lemma_below_ten(f);
    let b = ten(f.len());
    let a = numeral_value(d + f, 10);
    assert(a == n * b + numeral_value(f, 10));
    if f.len() == 0 {
        assert(b == 1);
        assert(numeral_value(f, 10) == 0);
        assert(n * 1 == n);
        lemma_whole(n);
    } else {
        lemma_part(a, b, n);
    }
}

proof fn lemma_part(a: nat, b: nat, n: nat)
    requires
        n < 0x20_0000_0000_0000,
        b > 0,
        n * b <= a < n * b + b,
    ensures
        n <= double_part(a, b) <= n + 1,
{
    assert(n * b == b * n) by (nonlinear_arith);
    vstd::arithmetic::div_mod::lemma_fundamental_div_mod_converse(
        a as int,
        b as int,
        n as int,
        (a - b * n) as int,
    );
    assert(a / b == n);
    let k = bit_length(n);
    lemma_bit_length(n);
    lemma_two_values();
    if k > 53 {
        lemma_two_monotone(53, (k - 1) as nat);
    }
    lemma_two_pos((53 - k) as nat);
    lemma_scaled_part(a, b, n, two((53 - k) as nat));
}

proof fn lemma_scaled_part(a: nat, b: nat, n: nat, unit: nat)
    requires
        unit > 0,
        b > 0,
        n * b <= a < n * b + b,
    ensures
        n <= round_even(a * unit, b) / unit <= n + 1,
{
    let x = a * unit;
    let low = n * unit;
    let high = (n + 1) * unit;
    assert(x >= b * low) by (nonlinear_arith)
        requires
            x == a * unit,
            low == n * unit,
            a >= n * b,
    ;
    assert(x <= b * high) by (nonlinear_arith)
        requires
            x == a * unit,
            high == (n + 1) * unit,
            a < n * b + b,
    ;
    lemma_even_at_least(x, b, low);
    lemma_even_at_most(x, b, high);
    let r = round_even(x, b);
    vstd::arithmetic::div_mod::lemma_div_is_ordered(low as int, r as int, unit as int);
    vstd::arithmetic::div_mod::lemma_div_is_ordered(r as int, high as int, unit as int);
    vstd::arithmetic::div_mod::lemma_div_by_multiple(n as int, unit as int);
    vstd::arithmetic::div_mod::lemma_div_by_multiple(n as int + 1, unit as int);
}

// ── Shares ───────────────────────────────────────────────────────────────────

proof fn lemma_units(bits: u32, e: int)
    requires
        123 <= e <= 126,
        bits / 0x80_0000 == e,
    ensures
        ({
            let m = 0x80_0000 + bits - 0x80_0000 * e;
            let f = if e == 126 {
                16int
            } else if e == 125 {
                8
            } else if e == 124 {
                4
            } else {
                2
            };
            clamped_units(bits) == if f * m > 26843546 {
                f * m
            } else {
                26843546
            }
        }),
{
    reveal_with_fuel(two, 6);
    assert(two(4) == 16 && two(3) == 8 && two(2) == 4 && two(1) == 2);
    assert(bits % 0x8000_0000 == bits);
    let m = (0x80_0000 + bits % 0x80_0000) as nat;
    assert(m == 0x80_0000 + bits - 0x80_0000 * e);
    assert(m * two(4) == 16 * m && m * two(3) == 8 * m && m * two(2) == 4 * m && m * two(1) == 2
        * m);
}

/// What a bit pattern stands for as a share, in parts of 2^28: one and more is one, what is
/// less than a tenth is a tenth, from a half to one each step of the pattern is sixteen parts,
/// and a pattern with an exponent that is less by one stands for half as much.
pub proof fn law_shares_are_numbers(bits: u32)
    ensures
        0x3F80_0000 <= bits <= 0x7F80_0000 ==> clamped_units(bits) == 0x1000_0000,
        0x3F00_0000 <= bits < 0x3F80_0000 ==> clamped_units(bits) == 16 * (0x80_0000 + (bits
            - 0x3F00_0000)),
        0x3E80_0000 <= bits < 0x3F00_0000 ==> 2 * clamped_units(bits) == clamped_units(
            (bits + 0x80_0000) as u32,
        ),
        bits < 0x3D80_0000 || 0x8000_0000 <= bits <= 0xFF80_0000 ==> clamped_units(bits) * 10
            - 0x1000_0000 <= 10 && clamped_units(bits) * 10 >= 0x1000_0000,
        clamped_units(bits) <= 0x1000_0000,
{
    reveal_with_fuel(two, 6);
    assert(two(4) == 16 && two(3) == 8);
    if 0x3F00_0000 <= bits < 0x3F80_0000 {
        lemma_units(bits, 126);
    }
    if 0x3E80_0000 <= bits < 0x3F00_0000 {
        lemma_units(bits, 125);
        lemma_units((bits + 0x80_0000) as u32, 126);
    }
    if 0x3D80_0000 <= bits < 0x3E80_0000 {
        let e = if bits < 0x3E00_0000 {
            123
        } else {
            124
        };
        lemma_units(bits, e);
    }
}

// ── Values ───────────────────────────────────────────────────────────────────

/// What two places cover together starts with the first of them and ends with the last.
pub proof fn law_places_are_covered(a: Span, b: Span)
    ensures
        merged(a, b).start <= a.start && merged(a, b).start <= b.start,
        merged(a, b).end >= a.end && merged(a, b).end >= b.end,
        merged(a, b).start == a.start || merged(a, b).start == b.start,
        merged(a, b).end == a.end || merged(a, b).end == b.end,
        merged(a, b).line <= a.line && merged(a, b).line <= b.line,
{
}

// ── Definitions ──────────────────────────────────────────────────────────────

proof fn lemma_no_comment(s: Seq<char>, i: int, quoted: bool)
    requires
        0 <= i <= s.len(),
        !s.contains('/'),
    ensures
        comment_start(s, i, quoted) == s.len(),
    decreases s.len() - i,
{
    if i < s.len() {
        assert(s[i] != '/') by {
            if s[i] == '/' {
                assert(s.contains('/'));
            }
        }
        if s[i] == '"' {
            lemma_no_comment(s, i + 1, !quoted);
        } else {
            lemma_no_comment(s, i + 1, quoted);
        }
    }
}

proof fn lemma_not_trimmed(s: Seq<char>)
    requires
        s.len() > 0,
        !is_space(s[0]),
        !is_space(s.last()),
    ensures
        trim_spec(s) == s,
{
    let r = law_trimmed_is_white_space(s);
    if r.0 > 0 {
        assert(is_space(s[0]));
    }
    if r.1 < s.len() {
        assert(is_space(s[s.len() - 1]));
    }
    assert(s.subrange(0, s.len() as int) =~= s);
}

proof fn lemma_no_rgb(s: Seq<char>)
    requires
        s.len() > 0,
        s[0] != 'r',
        !is_space(s[0]),
        !is_space(s.last()),
    ensures
        rgb_value(s) is None,
{
    lemma_not_trimmed(s);
    reveal_strlit("rgb(");
    reveal_strlit("rgba(");
    if has_at(s, 0, "rgb("@) {
        assert(s.subrange(0, 4)[0] == s[0]);
    }
    if has_at(s, 0, "rgba("@) {
        assert(s.subrange(0, 5)[0] == s[0]);
    }
}

proof fn lemma_no_unit(s: Seq<char>)
    requires
        s.len() > 0,
        s.last() != 'x' && s.last() != 's' && s.last() != 'z' && s.last() != '%',
    ensures
        unit_suffix(s) is None,
{
    reveal_strlit("px");
    reveal_strlit("ms");
    reveal_strlit("hz");
    reveal_strlit("Hz");
    let n = s.len() as int;
    if has_at(s, n - 2, "px"@) {
        assert(s.subrange(n - 2, n)[1] == s[n - 1]);
    }
    if has_at(s, n - 2, "ms"@) {
        assert(s.subrange(n - 2, n)[1] == s[n - 1]);
    }
    if has_at(s, n - 2, "hz"@) {
        assert(s.subrange(n - 2, n)[1] == s[n - 1]);
    }
    if has_at(s, n - 2, "Hz"@) {
        assert(s.subrange(n - 2, n)[1] == s[n - 1]);
    }
}

/// A variable that is defined as a whole number is that number.
pub proof fn law_defined_numbers(n: i64)
    requires
        n >= 0,
    ensures
        inline_value(decimal(n as nat)) == Some(ValueView::Int(n)),
{
    let s = decimal(n as nat);
    lemma_digits_of(n as nat);
    assert(is_digit(s[0]) && is_digit(s[s.len() - 1]));
    assert(!s.contains('/')) by {
        if s.contains('/') {
            let k = choose|k: int| 0 <= k < s.len() && s[k] == '/';
            assert(is_digit(s[k]));
        }
    }
    lemma_no_comment(s, 0, false);
    lemma_not_trimmed(s);
    lemma_no_rgb(s);
    lemma_no_unit(s);
    reveal_strlit("true");
    reveal_strlit("yes");
    reveal_strlit("on");
    reveal_strlit("false");
    reveal_strlit("no");
    reveal_strlit("off");
    assert("true"@[0] == 't' && "yes"@[0] == 'y' && "on"@[0] == 'o' && "false"@[0] == 'f' && "no"@[0]
        == 'n' && "off"@[0] == 'o');
    law_decimal_reads_back(n);
}

/// A variable that is defined as a text in quotes is that text.
pub proof fn law_defined_texts(t: Seq<char>)
    requires
        !t.contains('/'),
    ensures
        inline_value(seq!['"'] + t + seq!['"']) == Some(ValueView::String(t)),
{
    let s = seq!['"'] + t + seq!['"'];
    assert(!s.contains('/')) by {
        if s.contains('/') {
            let k = choose|k: int| 0 <= k < s.len() && s[k] == '/';
            assert(t[k - 1] == '/');
        }
    }
    assert(s[0] == '"' && s.last() == '"');
    lemma_no_comment(s, 0, false);
    lemma_not_trimmed(s);
    lemma_no_rgb(s);
    assert(s.subrange(1, s.len() - 1) =~= t);
}

/// A variable that is defined as a color behind a number sign is that color.
pub proof fn law_defined_colors(d: Seq<char>)
    requires
        d.len() == 6 || d.len() == 8,
        forall|k: int| 0 <= k < d.len() ==> is_hex_digit(#[trigger] d[k]),
    ensures
        inline_value(seq!['#'] + d) matches Some(ValueView::Color(r, g, b, a)) && r == pair(d, 0)
            && g == pair(d, 1) && b == pair(d, 2) && a == (if d.len() == 8 {
            pair(d, 3)
        } else {
            255
        }),
{
    let s = seq!['#'] + d;
    assert(!s.contains('/')) by {
        if s.contains('/') {
            let k = choose|k: int| 0 <= k < s.len() && s[k] == '/';
            assert(is_hex_digit(d[k - 1]));
        }
    }
    assert(s[0] == '#');
    assert(s.last() == d[d.len() - 1]);
    assert(is_hex_digit(d[d.len() - 1]));
    lemma_no_comment(s, 0, false);
    lemma_not_trimmed(s);
    lemma_no_rgb(s);
    assert(s.skip(1) =~= d);
    lemma_color(d);
    assert(is_hex_digit(d[0]) && d[0] != '+');
    assert forall|k: int| 0 <= k < d.len() implies digit_value(#[trigger] d[k]) < 16 by {
        assert(is_hex_digit(d[k]));
    }
    lemma_value_bound(d);
}

proof fn lemma_value_bound(d: Seq<char>)
    requires
        d.len() == 6 || d.len() == 8,
        forall|k: int| 0 <= k < d.len() ==> digit_value(#[trigger] d[k]) < 16,
    ensures
        numeral_value(d, 16) <= u32::MAX,
{
    lemma_value(d);
    assert(digit_value(d[0]) < 16 && digit_value(d[1]) < 16 && digit_value(d[2]) < 16
        && digit_value(d[3]) < 16 && digit_value(d[4]) < 16 && digit_value(d[5]) < 16);
    if d.len() == 8 {
        assert(digit_value(d[6]) < 16 && digit_value(d[7]) < 16);
    }
}

// ── Plain notation ───────────────────────────────────────────────────────────

proof fn lemma_first_digit(n: nat)
    requires
        n > 0,
    ensures
        decimal(n)[0] != '0',
    decreases n,
{
    if n >= 10 {
        lemma_first_digit(n / 10);
        lemma_decimal_numeral(n / 10);
        assert(decimal(n)[0] == decimal(n / 10)[0]);
    }
}

proof fn lemma_zeros_cut(s: Seq<char>)
    ensures
        0 <= zeros_cut(s) <= s.len(),
        s == s.take(zeros_cut(s)) + zeros((s.len() - zeros_cut(s)) as nat),
    decreases s.len(),
{
    let c = zeros_cut(s);
    if s.len() > 0 && s.last() == '0' {
        let t = s.drop_last();
        lemma_zeros_cut(t);
        assert(s =~= s.take(c) + zeros((s.len() - c) as nat)) by {
            assert forall|k: int| 0 <= k < s.len() implies s[k] == (s.take(c) + zeros(
                (s.len() - c) as nat,
            ))[k] by {
                if k < s.len() - 1 {
                    assert(t[k] == (t.take(c) + zeros((t.len() - c) as nat))[k]);
                }
            }
        }
    } else {
        assert(s =~= s.take(c) + zeros(0));
    }
}

/// A whole number is shown with the digits that it is written with.
pub proof fn law_whole_numbers_are_plain(n: nat)
    requires
        decimal(n).len() <= 309,
    ensures
        plain(decimal(n)) == decimal(n),
{
    let s = decimal(n);
    lemma_reading(n);
    lemma_digits_of(n);
    if n == 0 {
        assert(s =~= seq!['0']);
        lemma_run_is(s, 0, 1, CharSet::Only('0'));
        reveal_strlit("0");
        assert("0"@ =~= s);
    } else {
        lemma_first_digit(n);
        lemma_run_is(s, 0, 0, CharSet::Only('0'));
        lemma_zeros_cut(s);
        assert(s.subrange(0, zeros_cut(s)) =~= s.take(zeros_cut(s)));
    }
}

// ── Lines of definitions ─────────────────────────────────────────────────────

proof fn lemma_trim_to(s: Seq<char>, a: int, b: int)
    requires
        0 <= a < b <= s.len(),
        forall|k: int| 0 <= k < a ==> is_space(#[trigger] s[k]),
        forall|k: int| b <= k < s.len() ==> is_space(#[trigger] s[k]),
        !is_space(s[a]),
        !is_space(s[b - 1]),
    ensures
        trim_spec(s) == s.subrange(a, b),
{
    let r = law_trimmed_is_white_space(s);
    if r.0 > a {
        assert(is_space(s[a]));
    }
    if r.1 < b {
        assert(is_space(s[b - 1]));
    }
    if r.0 < a {
        assert(is_space(s[r.0]));
    }
    if r.1 > b {
        assert(is_space(s[r.1 - 1]));
    }
}

/// A line that starts with a dollar sign defines the variable of that name as what stands
/// behind the sign of assignment.
#[verifier::spinoff_prover]
pub proof fn law_lines_define_variables(name: Seq<char>, v: Seq<char>)
    requires
        is_word(name),
        !name.contains('='),
        !name.contains('/'),
        !v.contains('/'),
        v.len() > 0,
        !is_space(v[0]),
        !is_space(v.last()),
        inline_value(v) is Some,
    ensures
        ({
            let line = seq!['$'] + name + seq![' ', '=', ' '] + v;
            definition(line) matches Some(d) && d.name == name && Some(d.value) == inline_value(v)
        }),
{
    let line = seq!['$'] + name + seq![' ', '=', ' '] + v;
    let n = name.len() as int;
    assert(line[0] == '$');
    assert(line.last() == v.last());
    lemma_not_trimmed(line);
    assert(!line.contains('/')) by {
        if line.contains('/') {
            let k = choose|k: int| 0 <= k < line.len() && line[k] == '/';
            if 1 <= k < n + 1 {
                assert(name[k - 1] == '/');
            } else if k >= n + 4 {
                assert(v[k - n - 4] == '/');
            }
        }
    }
    lemma_no_comment(line, 0, false);
    let d = line.skip(1);
    assert forall|k: int| 0 <= k < n + 1 implies CharSet::Not('=').has(#[trigger] d[k]) by {
        if k < n {
            assert(d[k] == name[k]);
            if name[k] == '=' {
                assert(name.contains('='));
            }
        }
    }
    assert(d[n + 1] == '=');
    lemma_run_is(d, 0, n + 1, CharSet::Not('='));
    let left = d.take(n + 1);
    assert(left[n] == ' ');
    assert forall|k: int| 0 <= k < n implies left[k] == name[k] by {}
    assert(is_space(' '));
    assert(!is_space(name[0]) && !is_space(name[n - 1]));
    lemma_trim_to(left, 0, n);
    assert(left.subrange(0, n) =~= name);
    let right = d.skip(n + 2);
    assert(right[0] == ' ');
    assert forall|k: int| 0 <= k < v.len() implies right[k + 1] == v[k] by {}
    assert(right.len() == v.len() + 1);
    assert(right[1] == v[0] && right[v.len() as int] == v[v.len() - 1]);
    lemma_trim_to(right, 1, right.len() as int);
    assert(right.subrange(1, right.len() as int) =~= v);
}

} // verus!
