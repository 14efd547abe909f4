//! Numbers that are written with a decimal point or an exponent.
//!
//! A [`Number`] keeps the literal it was written as. Its meaning is that of the
//! double-precision number nearest to the literal, so its conversions to
//! integers round the literal to a double first and then drop the fraction.

use vstd::prelude::*;
use vstd::slice::slice_subrange;

use crate::integer::{capped_numeral, decimal_int, digit_value, i64_text, is_numeral, numeral_value};
use crate::text::{
    ascii_lower, chars_of, is_digit, run, run_end, string_of, to_ascii_lower, CharSet,
};

verus! {

// ── Literals ─────────────────────────────────────────────────────────────────

/// What a literal says.
pub enum Reading {
    NotANumber,
    /// An infinity, negative or not.
    Infinite(bool),
    /// The number that `digits` writes, times ten to the power `exp`, negated
    /// where `negative`.
    Finite { negative: bool, digits: Seq<char>, exp: int },
}

/// Whether `s` spells `word`, which is in lower case, in any case.
pub open spec fn spells(s: Seq<char>, word: Seq<char>) -> bool {
    s.len() == word.len() && forall|i: int| 0 <= i < s.len() ==> ascii_lower(#[trigger] s[i]) == word[i]
}

/// The exponent that `s`, which follows the digits of a literal, states.
pub open spec fn exponent_of(s: Seq<char>) -> Option<int> {
    if s.len() == 0 {
        Some(0)
    } else if s[0] != 'e' && s[0] != 'E' {
        None
    } else {
        let t = s.skip(1);
        let signed = t.len() > 0 && (t[0] == '+' || t[0] == '-');
        let d = if signed {
            t.skip(1)
        } else {
            t
        };
        if is_numeral(d, 10) {
            let v = numeral_value(d, 10) as int;
            Some(
                if signed && t[0] == '-' {
                    -v
                } else {
                    v
                },
            )
        } else {
            None
        }
    }
}

/// Reads `s`, a literal without its sign: digits with at most one decimal
/// point among them, then an optional exponent.
pub open spec fn finite_reading(s: Seq<char>, negative: bool) -> Option<Reading> {
    let i = run_end(s, 0, CharSet::Digit);
    let point = i < s.len() && s[i] == '.';
    let j = if point {
        run_end(s, i + 1, CharSet::Digit)
    } else {
        i
    };
    let fraction = if point {
        s.subrange(i + 1, j)
    } else {
        Seq::empty()
    };
    let digits = s.take(i) + fraction;
    match exponent_of(s.skip(j)) {
        Some(e) if digits.len() > 0 => Some(
            Reading::Finite { negative, digits, exp: e - fraction.len() },
        ),
        _ => None,
    }
}

/// The grammar of `f64::from_str`.
pub open spec fn reading(s: Seq<char>) -> Option<Reading> {
    let negative = s.len() > 0 && s[0] == '-';
    let t = if s.len() > 0 && (s[0] == '-' || s[0] == '+') {
        s.skip(1)
    } else {
        s
    };
    if spells(t, "nan"@) {
        Some(Reading::NotANumber)
    } else if spells(t, "inf"@) || spells(t, "infinity"@) {
        Some(Reading::Infinite(negative))
    } else {
        finite_reading(t, negative)
    }
}

/// A literal in parts.
enum Parts {
    NotANumber,
    Infinite(bool),
    Finite { negative: bool, digits: Vec<char>, fraction: usize, exp_negative: bool, exp: u128 },
}

/// Exponents are read up to this bound, beyond which every number with an
/// exponent overflows or vanishes.
const EXP_CAP: u128 = 0x1_0000_0000_0000_0000_0000_0000;

impl Parts {
    /// Whether `self` is the reading `r`, up to the bound on the exponent.
    spec fn matches_reading(self, r: Reading) -> bool {
        match (self, r) {
            (Parts::NotANumber, Reading::NotANumber) => true,
            (Parts::Infinite(a), Reading::Infinite(b)) => a == b,
            (
                Parts::Finite { negative, digits, fraction, exp_negative, exp },
                Reading::Finite { negative: n, digits: d, exp: e },
            ) => {
                &&& negative == n
                &&& digits@ == d
                &&& is_numeral(d, 10)
                &&& fraction <= digits@.len()
                &&& exp <= EXP_CAP
                &&& exp < EXP_CAP ==> e == (if exp_negative {
                    -(exp as int)
                } else {
                    exp as int
                }) - fraction
                &&& exp == EXP_CAP ==> if exp_negative {
                    e <= -(exp as int) - fraction
                } else {
                    e >= exp - fraction
                }
            },
            _ => false,
        }
    }
}

fn spelled(s: &[char], word: &str) -> (r: bool)
    ensures
        r == spells(s@, word@),
{
    let w = chars_of(word);
    if s.len() != w.len() {
        return false;
    }
    let mut i: usize = 0;
    while i < s.len()
        invariant
            i <= s.len(),
            s.len() == w.len(),
            w@ == word@,
            forall|k: int| 0 <= k < i ==> ascii_lower(#[trigger] s@[k]) == word@[k],
        decreases s.len() - i,
    {
        if to_ascii_lower(s[i]) != w[i] {
            assert(ascii_lower(s@[i as int]) != word@[i as int]);
            return false;
        }
        i += 1;
    }
    true
}

/// The sign and the size of an exponent, the latter up to [`EXP_CAP`].
fn read_exponent(s: &[char]) -> (r: Option<(bool, u128)>)
    ensures
        r is Some <==> exponent_of(s@) is Some,
        r matches Some((neg, v)) ==> {
            let e = exponent_of(s@)->0;
            &&& v <= EXP_CAP
            &&& v < EXP_CAP ==> e == if neg {
                -(v as int)
            } else {
                v as int
            }
            &&& v == EXP_CAP ==> if neg {
                e <= -(v as int)
            } else {
                e >= v
            }
        },
{
    if s.len() == 0 {
        return Some((false, 0));
    }
    if s[0] != 'e' && s[0] != 'E' {
        return None;
    }
    let t = slice_subrange(s, 1, s.len());
    assert(t@ =~= s@.skip(1));
    let signed = t.len() > 0 && (t[0] == '+' || t[0] == '-');
    let neg = signed && t[0] == '-';
    let d = if signed {
        assert(t@.subrange(1, t@.len() as int) =~= t@.skip(1));
        slice_subrange(t, 1, t.len())
    } else {
        t
    };
    match capped_numeral(d, 10, EXP_CAP) {
        Some(v) => Some((neg, v)),
        None => None,
    }
}

proof fn lemma_digits_are_numeral(s: Seq<char>)
    requires
        s.len() > 0,
        forall|k: int| 0 <= k < s.len() ==> is_digit(#[trigger] s[k]),
    ensures
        is_numeral(s, 10),
{
}

fn read_finite(s: &[char], negative: bool) -> (r: Option<Parts>)
    ensures
        r is Some <==> finite_reading(s@, negative) is Some,
        r matches Some(p) ==> p.matches_reading(finite_reading(s@, negative)->0),
{
    let i: usize = run(s, 0, CharSet::Digit);
    let point = i < s.len() && s[i] == '.';
    let j: usize = if point {
        run(s, i + 1, CharSet::Digit)
    } else {
        i
    };
    let mut digits: Vec<char> = Vec::new();
    let mut k: usize = 0;
    while k < j
        invariant
            k <= j <= s.len(),
            i <= j,
            point ==> i < j && s@[i as int] == '.',
            !point ==> i == j,
            k <= i ==> digits@ == s@.take(k as int),
            k > i ==> digits@ == s@.take(i as int) + s@.subrange(i + 1, k as int),
        decreases j - k,
    {
        if k != i {
            digits.push(s[k]);
        }
        k += 1;
        proof {
            if k <= i {
                assert(s@.take(k as int) =~= s@.take(k - 1).push(s@[k - 1]));
            } else if k == i + 1 {
                assert(s@.take(i as int) + s@.subrange(i + 1, k as int) =~= s@.take(i as int));
            } else {
                assert(s@.subrange(i + 1, k as int) =~= s@.subrange(i + 1, k - 1).push(s@[k - 1]));
            }
        }
    }
    let fraction: usize = if point {
        j - i - 1
    } else {
        0
    };
    proof {
        let f = if point {
            s@.subrange(i + 1, j as int)
        } else {
            Seq::empty()
        };
        assert(digits@ =~= s@.take(i as int) + f);
        crate::text::lemma_run_end(s@, 0, CharSet::Digit);
        if point {
            crate::text::lemma_run_end(s@, i + 1, CharSet::Digit);
        }
        assert forall|q: int| 0 <= q < digits@.len() implies is_digit(#[trigger] digits@[q]) by {
            if q < i {
                assert(CharSet::Digit.has(s@[q]));
            } else {
                assert(CharSet::Digit.has(s@[q + 1]));
            }
        }
        if digits@.len() > 0 {
            lemma_digits_are_numeral(digits@);
        }
        assert(s@.subrange(j as int, s@.len() as int) =~= s@.skip(j as int));
    }
    match read_exponent(slice_subrange(s, j, s.len())) {
        Some((exp_negative, exp)) => if digits.len() > 0 {
            Some(Parts::Finite { negative, digits, fraction, exp_negative, exp })
        } else {
            None
        },
        None => None,
    }
}

fn read(s: &[char]) -> (r: Option<Parts>)
    ensures
        r is Some <==> reading(s@) is Some,
        r matches Some(p) ==> p.matches_reading(reading(s@)->0),
{
    let negative = s.len() > 0 && s[0] == '-';
    let t = if s.len() > 0 && (s[0] == '-' || s[0] == '+') {
        assert(s@.subrange(1, s@.len() as int) =~= s@.skip(1));
        slice_subrange(s, 1, s.len())
    } else {
        s
    };
    if spelled(t, "nan") {
        Some(Parts::NotANumber)
    } else if spelled(t, "inf") || spelled(t, "infinity") {
        Some(Parts::Infinite(negative))
    } else {
        read_finite(t, negative)
    }
}

// ── The nearest double ───────────────────────────────────────────────────────

/// Two to the power `n`.
pub open spec fn two(n: nat) -> nat
    decreases n,
{
    if n == 0 {
        1
    } else {
        2 * two((n - 1) as nat)
    }
}

/// Ten to the power `n`.
pub open spec fn ten(n: nat) -> nat
    decreases n,
{
    if n == 0 {
        1
    } else {
        10 * ten((n - 1) as nat)
    }
}

/// The number of binary digits of `n`, none for zero.
pub open spec fn bit_length(n: nat) -> nat
    decreases n,
{
    if n == 0 {
        0
    } else {
        1 + bit_length(n / 2)
    }
}

/// `a / b` rounded to an integer, halves to the even one.
pub open spec fn round_even(a: nat, b: nat) -> nat {
    let q = a / b;
    let r = a % b;
    if 2 * r < b || (2 * r == b && q % 2 == 0) {
        q
    } else {
        q + 1
    }
}

/// The integer part of the double nearest to `a / b`.
///
/// Between `two(k - 1)` and `two(k)` the doubles are the multiples of
/// `two(k - 53)`. Below one they lie at least as dense as the multiples of
/// `1 / two(53)`, and no other double matters for the integer part.
pub open spec fn double_part(a: nat, b: nat) -> nat {
    let k = bit_length(a / b);
    if k <= 53 {
        let unit = two((53 - k) as nat);
        round_even(a * unit, b) / unit
    } else {
        let unit = two((k - 53) as nat);
        round_even(a, b * unit) * unit
    }
}

/// The size of `digits` times ten to the power `exp` as a fraction.
pub open spec fn fraction_of(digits: Seq<char>, exp: int) -> (nat, nat) {
    if exp >= 0 {
        (numeral_value(digits, 10) * ten(exp as nat), 1)
    } else {
        (numeral_value(digits, 10), ten((-exp) as nat))
    }
}

pub open spec fn clamp(v: int, lo: int, hi: int) -> int {
    if v < lo {
        lo
    } else if v > hi {
        hi
    } else {
        v
    }
}

/// The literal `s` as an integer between `lo` and `hi`: rounded to a double,
/// its fraction dropped, then held within the bounds. What is not a number
/// counts as zero.
pub open spec fn integer_of(s: Seq<char>, lo: int, hi: int) -> int {
    match reading(s) {
        Some(Reading::Finite { negative, digits, exp }) => {
            let (a, b) = fraction_of(digits, exp);
            clamp(
                if negative {
                    -(double_part(a, b) as int)
                } else {
                    double_part(a, b) as int
                },
                lo,
                hi,
            )
        },
        Some(Reading::Infinite(negative)) => if negative {
            lo
        } else {
            hi
        },
        _ => 0,
    }
}

pub proof fn lemma_two_pos(n: nat)
    ensures
        two(n) > 0,
    decreases n,
{
    if n > 0 {
        lemma_two_pos((n - 1) as nat);
    }
}

proof fn lemma_ten_pos(n: nat)
    ensures
        ten(n) > 0,
    decreases n,
{
    if n > 0 {
        lemma_ten_pos((n - 1) as nat);
    }
}

proof fn lemma_ten_add(a: nat, b: nat)
    ensures
        ten(a + b) == ten(a) * ten(b),
    decreases a,
{
    if a > 0 {
        lemma_ten_add((a - 1) as nat, b);
        assert((a + b - 1) as nat == (a - 1) as nat + b);
        assert(10 * (ten((a - 1) as nat) * ten(b)) == (10 * ten((a - 1) as nat)) * ten(b))
            by (nonlinear_arith);
    } else {
        assert(1 * ten(b) == ten(b)) by (nonlinear_arith);
    }
}

proof fn lemma_ten_monotone(a: nat, b: nat)
    requires
        a <= b,
    ensures
        ten(a) <= ten(b),
    decreases b - a,
{
    lemma_ten_pos(b);
    if a < b {
        lemma_ten_monotone(a, (b - 1) as nat);
    }
}

proof fn lemma_numeral_append(s: Seq<char>, t: Seq<char>)
    ensures
        numeral_value(s + t, 10) == numeral_value(s, 10) * ten(t.len()) + numeral_value(t, 10),
    decreases t.len(),
{
    if t.len() == 0 {
        assert(s + t =~= s);
        assert(numeral_value(s, 10) * 1 == numeral_value(s, 10)) by (nonlinear_arith);
    } else {
        lemma_numeral_append(s, t.drop_last());
        assert((s + t).drop_last() =~= s + t.drop_last());
        let v = numeral_value(s, 10);
        let w = numeral_value(t.drop_last(), 10);
        let p = ten((t.len() - 1) as nat);
        assert((v * p + w) * 10 == v * (10 * p) + w * 10) by (nonlinear_arith);
    }
}

proof fn lemma_numeral_bound(s: Seq<char>)
    requires
        forall|i: int| 0 <= i < s.len() ==> digit_value(#[trigger] s[i]) < 10,
    ensures
        numeral_value(s, 10) < ten(s.len()),
    decreases s.len(),
{
    if s.len() > 0 {
        assert forall|i: int| 0 <= i < s.drop_last().len() implies digit_value(
            #[trigger] s.drop_last()[i],
        ) < 10 by {
            assert(s.drop_last()[i] == s[i]);
        }
        lemma_numeral_bound(s.drop_last());
    }
}

proof fn lemma_leading_zeros(s: Seq<char>, z: int)
    requires
        0 <= z <= s.len(),
        forall|i: int| 0 <= i < z ==> #[trigger] s[i] == '0',
    ensures
        numeral_value(s.take(z), 10) == 0,
        numeral_value(s, 10) == numeral_value(s.skip(z), 10),
    decreases z,
{
    if z > 0 {
        lemma_leading_zeros(s.take(z), z - 1);
        assert(s.take(z).take(z - 1) =~= s.take(z).drop_last());
    }
    lemma_numeral_append(s.take(z), s.skip(z));
    assert(s.take(z) + s.skip(z) =~= s);
    assert(0 * ten(s.skip(z).len()) == 0) by (nonlinear_arith);
}

/// The value of a numeral whose first digit is not zero.
proof fn lemma_numeral_lower(s: Seq<char>)
    requires
        s.len() > 0,
        digit_value(s[0]) > 0,
    ensures
        numeral_value(s, 10) >= ten((s.len() - 1) as nat),
{
    lemma_numeral_append(s.take(1), s.skip(1));
    assert(s.take(1) + s.skip(1) =~= s);
    assert(s.take(1).drop_last() =~= Seq::<char>::empty());
    let d = digit_value(s[0]);
    assert(numeral_value(s.take(1).drop_last(), 10) == 0);
    assert(numeral_value(s.take(1), 10) == d);
    lemma_ten_pos((s.len() - 1) as nat);
    assert(d * ten((s.len() - 1) as nat) >= ten((s.len() - 1) as nat)) by (nonlinear_arith)
        requires
            d >= 1,
            ten((s.len() - 1) as nat) > 0,
    ;
}

pub proof fn lemma_bit_length(n: nat)
    ensures
        n < two(bit_length(n)),
        n > 0 ==> bit_length(n) > 0 && two((bit_length(n) - 1) as nat) <= n,
    decreases n,
{
    if n > 0 {
        lemma_bit_length(n / 2);
    }
}

pub proof fn lemma_two_monotone(a: nat, b: nat)
    requires
        a <= b,
    ensures
        two(a) <= two(b),
    decreases b - a,
{
    lemma_two_pos(b);
    if a < b {
        lemma_two_monotone(a, (b - 1) as nat);
    }
}

pub proof fn lemma_two_add(a: nat, b: nat)
    ensures
        two(a + b) == two(a) * two(b),
    decreases a,
{
    if a > 0 {
        lemma_two_add((a - 1) as nat, b);
        assert((a + b - 1) as nat == (a - 1) as nat + b);
        assert(2 * (two((a - 1) as nat) * two(b)) == (2 * two((a - 1) as nat)) * two(b))
            by (nonlinear_arith);
    } else {
        assert(1 * two(b) == two(b)) by (nonlinear_arith);
    }
}

pub proof fn lemma_two_values()
    ensures
        two(11) == 0x800,
        two(53) == 0x20_0000_0000_0000,
        two(64) == 0x1_0000_0000_0000_0000,
{
    reveal_with_fuel(two, 12);
    assert(two(11) == 0x800);
    lemma_two_add(11, 11);
    assert(two(22) == 0x40_0000);
    lemma_two_add(22, 22);
    assert(two(44) == 0x1000_0000_0000);
    assert(two(9) == 512);
    lemma_two_add(44, 9);
    lemma_two_add(53, 11);
}

/// A value of at least `two(64)` keeps an integer part of that size.
proof fn lemma_double_large(a: nat, b: nat)
    requires
        b > 0,
        a / b >= two(64),
    ensures
        double_part(a, b) >= two(64),
{
    let q = a / b;
    let k = bit_length(q);
    lemma_bit_length(q);
    if k <= 64 {
        lemma_two_monotone(k, 64);
        assert(false);
    }
    let s = (k - 53) as nat;
    let unit = two(s);
    lemma_two_pos(s);
    let d = b * unit;
    assert(d > 0) by (nonlinear_arith)
        requires
            b > 0,
            unit > 0,
            d == b * unit,
    ;
    lemma_two_add(52, s);
    // a >= q * b >= two(52) * unit * b
    assert(a / d >= two(52)) by {
        vstd::arithmetic::div_mod::lemma_fundamental_div_mod(a as int, b as int);
        let m = two(52);
        assert(m * d <= a) by (nonlinear_arith)
            requires
                d == b * unit,
                m * unit <= q,
                b * q <= a,
        ;
        vstd::arithmetic::div_mod::lemma_div_is_ordered((m * d) as int, a as int, d as int);
        vstd::arithmetic::div_mod::lemma_div_multiples_vanish(m as int, d as int);
        assert(d * m == m * d) by (nonlinear_arith);
    }
    let m = round_even(a, d);
    assert(m >= two(52));
    assert(m * unit >= two(52) * unit) by (nonlinear_arith)
        requires
            m >= two(52),
            unit > 0,
    ;
    lemma_two_monotone(64, (k - 1) as nat);
}

/// A value below a tenth has no integer part.
proof fn lemma_double_small(a: nat, b: nat)
    requires
        10 * a < b,
    ensures
        double_part(a, b) == 0,
{
    vstd::arithmetic::div_mod::lemma_fundamental_div_mod_converse(a as int, b as int, 0, a as int);
    assert(a / b == 0);
    let unit = two(53);
    lemma_two_values();
    assert(10 * (a * unit) < b * unit) by (nonlinear_arith)
        requires
            10 * a < b,
            unit > 0,
    ;
    let x = a * unit;
    let q = x / b;
    let r = x % b;
    vstd::arithmetic::div_mod::lemma_fundamental_div_mod(x as int, b as int);
    assert(10 * q < unit) by (nonlinear_arith)
        requires
            10 * x < b * unit,
            x == b * q + r,
            r >= 0,
            b > 0,
    ;
    assert(round_even(x, b) <= q + 1);
    vstd::arithmetic::div_mod::lemma_fundamental_div_mod_converse(
        round_even(x, b) as int,
        unit as int,
        0,
        round_even(x, b) as int,
    );
}

// ── Fractions as decimal digits ──────────────────────────────────────────────

/// The number that the digits `s` write, most significant first.
spec fn digits_number(s: Seq<u8>) -> nat
    decreases s.len(),
{
    if s.len() == 0 {
        0
    } else {
        s[0] as nat * ten((s.len() - 1) as nat) + digits_number(s.drop_first())
    }
}

spec fn all_decimal(s: Seq<u8>) -> bool {
    forall|i: int| 0 <= i < s.len() ==> #[trigger] s[i] < 10
}

proof fn lemma_digits_number_bound(s: Seq<u8>)
    requires
        all_decimal(s),
    ensures
        digits_number(s) < ten(s.len()),
    decreases s.len(),
{
    if s.len() > 0 {
        assert(all_decimal(s.drop_first())) by {
            assert forall|i: int| 0 <= i < s.drop_first().len() implies #[trigger] s.drop_first()[i]
                < 10 by {
                assert(s.drop_first()[i] == s[i + 1]);
            }
        }
        lemma_digits_number_bound(s.drop_first());
        let d = s[0] as nat;
        let p = ten((s.len() - 1) as nat);
        assert(d * p <= 9 * p) by (nonlinear_arith)
            requires
                d <= 9,
        ;
    }
}

proof fn lemma_digits_number_zero(s: Seq<u8>)
    requires
        all_decimal(s),
    ensures
        digits_number(s) == 0 <==> forall|i: int| 0 <= i < s.len() ==> #[trigger] s[i] == 0,
    decreases s.len(),
{
    if s.len() > 0 {
        let t = s.drop_first();
        assert forall|i: int| 0 <= i < t.len() implies #[trigger] t[i] < 10 by {
            assert(t[i] == s[i + 1]);
        }
        lemma_digits_number_zero(t);
        lemma_ten_pos((s.len() - 1) as nat);
        let d = s[0] as nat;
        let p = ten((s.len() - 1) as nat);
        assert(d * p == 0 <==> d == 0) by (nonlinear_arith)
            requires
                p > 0,
        ;
        if digits_number(s) == 0 {
            assert forall|i: int| 0 <= i < s.len() implies #[trigger] s[i] == 0 by {
                if i > 0 {
                    assert(t[i - 1] == s[i]);
                }
            }
        } else if forall|i: int| 0 <= i < s.len() ==> #[trigger] s[i] == 0 {
            assert forall|i: int| 0 <= i < t.len() implies #[trigger] t[i] == 0 by {
                assert(t[i] == s[i + 1]);
            }
        }
    }
}

/// Doubles the fraction whose decimal digits are `v`; returns the integer part.
fn double_digits(v: &mut Vec<u8>) -> (carry: u64)
    requires
        all_decimal(old(v)@),
    ensures
        final(v)@.len() == old(v)@.len(),
        all_decimal(final(v)@),
        carry <= 1,
        2 * digits_number(old(v)@) == carry * ten(old(v)@.len()) + digits_number(final(v)@),
{
    let mut carry: u8 = 0;
    let n: usize = v.len();
    let mut i: usize = n;
    assert(v@.skip(n as int) =~= Seq::<u8>::empty());
    while i > 0
        invariant
            i <= n,
            v@.len() == n,
            old(v)@.len() == n,
            carry <= 1,
            all_decimal(v@),
            all_decimal(old(v)@),
            forall|k: int| 0 <= k < i ==> #[trigger] v@[k] == old(v)@[k],
            2 * digits_number(old(v)@.skip(i as int)) == carry as nat * ten((n - i) as nat)
                + digits_number(v@.skip(i as int)),
        decreases i,
    {
        let ghost before = v@;
        i -= 1;
        let d: u8 = v[i];
        let t: u8 = 2 * d + carry;
        let ghost c0 = carry as nat;
        let (high, low): (u8, u8) = if t >= 10 {
            (1, t - 10)
        } else {
            (0, t)
        };
        v.set(i, low);
        carry = high;
        proof {
            let o = old(v)@;
            assert(o.skip(i as int).drop_first() =~= o.skip(i + 1));
            assert(v@.skip(i as int).drop_first() =~= before.skip(i + 1));
            let p = ten((n - i - 1) as nat);
            assert(digits_number(o.skip(i as int)) == d as nat * p + digits_number(o.skip(i + 1)));
            assert(digits_number(v@.skip(i as int)) == low as nat * p + digits_number(
                before.skip(i + 1),
            ));
            assert(2 * (d as nat * p) + c0 * p == carry as nat * (10 * p) + low as nat * p)
                by (nonlinear_arith)
                requires
                    2 * d + c0 == carry * 10 + low,
            ;
        }
    }
    assert(v@.skip(0) =~= v@);
    assert(old(v)@.skip(0) =~= old(v)@);
    carry as u64
}

fn all_zero(v: &Vec<u8>) -> (r: bool)
    requires
        all_decimal(v@),
    ensures
        r == (digits_number(v@) == 0),
{
    let mut i: usize = 0;
    while i < v.len()
        invariant
            i <= v.len(),
            all_decimal(v@),
            forall|k: int| 0 <= k < i ==> #[trigger] v@[k] == 0,
        decreases v.len() - i,
    {
        if v[i] != 0 {
            proof {
                lemma_digits_number_zero(v@);
            }
            return false;
        }
        i += 1;
    }
    proof {
        lemma_digits_number_zero(v@);
    }
    true
}

proof fn lemma_same_number(s: Seq<char>, v: Seq<u8>)
    requires
        s.len() == v.len(),
        forall|i: int| 0 <= i < s.len() ==> #[trigger] v[i] as nat == digit_value(s[i]),
    ensures
        digits_number(v) == numeral_value(s, 10),
    decreases s.len(),
{
    if s.len() > 0 {
        let t = s.skip(1);
        assert forall|i: int| 0 <= i < t.len() implies #[trigger] v.drop_first()[i] as nat
            == digit_value(t[i]) by {
            assert(v.drop_first()[i] == v[i + 1]);
        }
        lemma_same_number(t, v.drop_first());
        lemma_numeral_append(s.take(1), t);
        assert(s.take(1) + t =~= s);
        assert(s.take(1).drop_last() =~= Seq::<char>::empty());
        assert(numeral_value(s.take(1).drop_last(), 10) == 0);
    }
}

/// The nearest double's integer part for a value below `two(53)` of which
/// `units` and a remainder are known.
proof fn lemma_double_fine(a: nat, b: nat, q: nat, f: nat, units: nat, rem: nat)
    requires
        b > 0,
        a == q * b + f,
        f < b,
        bit_length(q) <= 53,
        f * two((53 - bit_length(q)) as nat) == units * b + rem,
        rem < b,
    ensures
        units < two((53 - bit_length(q)) as nat),
        double_part(a, b) == q + (if units + 1 == two((53 - bit_length(q)) as nat) && (2 * rem > b || (2
            * rem == b && (q * two((53 - bit_length(q)) as nat) + units) % 2 == 1)) {
            1nat
        } else {
            0
        }),
{
    let unit = two((53 - bit_length(q)) as nat);
    lemma_two_pos((53 - bit_length(q)) as nat);
    vstd::arithmetic::div_mod::lemma_fundamental_div_mod_converse(
        a as int,
        b as int,
        q as int,
        f as int,
    );
    assert(a / b == q);
    assert(units < unit) by (nonlinear_arith)
        requires
            f * unit == units * b + rem,
            rem >= 0,
            f < b,
            unit > 0,
            b > 0,
    ;
    let x = a * unit;
    let m = q * unit + units;
    assert(x == b * m + rem) by (nonlinear_arith)
        requires
            x == a * unit,
            a == q * b + f,
            f * unit == units * b + rem,
            m == q * unit + units,
    ;
    assert(m * b == b * m) by (nonlinear_arith);
    vstd::arithmetic::div_mod::lemma_fundamental_div_mod_converse(
        x as int,
        b as int,
        m as int,
        rem as int,
    );
    let up = 2 * rem > b || (2 * rem == b && m % 2 == 1);
    let rounded = round_even(x, b);
    assert(rounded == if up {
        m + 1
    } else {
        m
    });
    if up && units + 1 == unit {
        assert(rounded == unit * (q + 1)) by (nonlinear_arith)
            requires
                rounded == q * unit + units + 1,
                units + 1 == unit,
        ;
        vstd::arithmetic::div_mod::lemma_fundamental_div_mod_converse(
            rounded as int,
            unit as int,
            (q + 1) as int,
            0,
        );
    } else {
        let r = rounded - q * unit;
        assert(unit * q == q * unit) by (nonlinear_arith);
        vstd::arithmetic::div_mod::lemma_fundamental_div_mod_converse(
            rounded as int,
            unit as int,
            q as int,
            r,
        );
    }
}

/// The nearest double's integer part for a value of at least `two(53)`.
proof fn lemma_double_coarse(a: nat, b: nat, q: nat, f: nat, unit: nat)
    requires
        b > 0,
        a == q * b + f,
        f < b,
        bit_length(q) > 53,
        unit == two((bit_length(q) - 53) as nat),
    ensures
        unit >= 2,
        double_part(a, b) == (if 2 * (q % unit) > unit || (2 * (q % unit) == unit && (f > 0 || (q
            / unit) % 2 == 1)) {
            q / unit + 1
        } else {
            q / unit
        }) * unit,
{
    lemma_two_pos((bit_length(q) - 54) as nat);
    vstd::arithmetic::div_mod::lemma_fundamental_div_mod_converse(
        a as int,
        b as int,
        q as int,
        f as int,
    );
    let d = b * unit;
    let m = q / unit;
    let r = q % unit;
    vstd::arithmetic::div_mod::lemma_fundamental_div_mod(q as int, unit as int);
    let rem = r * b + f;
    assert(a == d * m + rem && rem < d) by (nonlinear_arith)
        requires
            a == q * b + f,
            q == unit * m + r,
            r < unit,
            f < b,
            d == b * unit,
            rem == r * b + f,
    ;
    assert(m * d == d * m) by (nonlinear_arith);
    vstd::arithmetic::div_mod::lemma_fundamental_div_mod_converse(
        a as int,
        d as int,
        m as int,
        rem as int,
    );
    // unit is even, so half of it is an integer
    let half = two((bit_length(q) - 54) as nat);
    assert(unit == 2 * half);
    if r < half {
        assert(2 * rem < d) by (nonlinear_arith)
            requires
                r + 1 <= half,
                unit == 2 * half,
                d == b * unit,
                rem == r * b + f,
                f < b,
        ;
    } else if r > half {
        assert(2 * rem > d) by (nonlinear_arith)
            requires
                r >= half + 1,
                unit == 2 * half,
                d == b * unit,
                rem == r * b + f,
                b > 0,
        ;
    } else {
        assert(2 * rem == d + 2 * f) by (nonlinear_arith)
            requires
                r == half,
                unit == 2 * half,
                d == b * unit,
                rem == r * b + f,
        ;
    }
}

/// The integer part of the double nearest to `q` plus the fraction whose
/// decimal digits are `fraction`.
fn nearest_part(q: u64, fraction: Vec<u8>) -> (r: u128)
    requires
        all_decimal(fraction@),
    ensures
        r == double_part(
            q as nat * ten(fraction@.len()) + digits_number(fraction@),
            ten(fraction@.len()),
        ),
{
    let ghost b = ten(fraction@.len());
    let ghost f = digits_number(fraction@);
    let ghost a = q as nat * b + f;
    proof {
        lemma_ten_pos(fraction@.len());
        lemma_digits_number_bound(fraction@);
        lemma_bit_length(q as nat);
        lemma_two_values();
    }
    assert(bit_length(q as nat) <= 64) by {
        if bit_length(q as nat) > 64 {
            lemma_two_monotone(64, (bit_length(q as nat) - 1) as nat);
        }
    }
    let mut k: u32 = 0;
    let mut rest: u64 = q;
    while rest > 0
        invariant
            bit_length(q as nat) == k + bit_length(rest as nat),
            bit_length(q as nat) <= 64,
        decreases rest,
    {
        rest = rest / 2;
        k += 1;
    }
    if k <= 53 {
        let n: u32 = 53 - k;
        let mut v = fraction;
        let mut units: u64 = 0;
        let mut j: u32 = 0;
        let mut unit: u64 = 1;
        assert(f * 1 == 0 * b + f) by (nonlinear_arith);
        while j < n
            invariant
                j <= n <= 53,
                all_decimal(v@),
                v@.len() == fraction@.len(),
                b == ten(fraction@.len()),
                b > 0,
                f < b,
                unit == two(j as nat),
                unit <= two(53),
                two(53) == 0x20_0000_0000_0000,
                units < unit,
                f * two(j as nat) == units as nat * b + digits_number(v@),
            decreases n - j,
        {
            let ghost before = digits_number(v@);
            let ghost u0 = units as nat;
            proof {
                lemma_two_monotone((j + 1) as nat, 53);
            }
            let c: u64 = double_digits(&mut v);
            units = 2 * units + c;
            unit = 2 * unit;
            proof {
                let after = digits_number(v@);
                assert(f * (2 * two(j as nat)) == units as nat * b + after) by (nonlinear_arith)
                    requires
                        f * two(j as nat) == u0 * b + before,
                        2 * before == c as nat * b + after,
                        units as nat == 2 * u0 + c as nat,
                ;
            }
            j += 1;
        }
        let ghost rem = digits_number(v@);
        proof {
            lemma_digits_number_bound(v@);
            lemma_double_fine(a, b, q as nat, f, units as nat, rem);
        }
        if units + 1 != unit {
            return q as u128;
        }
        // The fraction is all ones down to the last binary digit that a
        // double keeps; what follows decides.
        let odd = if n == 0 {
            q % 2 == 1
        } else {
            true
        };
        proof {
            let whole = q as nat * unit as nat + units as nat;
            if n == 0 {
                assert(unit == 1 && units == 0);
                assert(whole == q as nat) by (nonlinear_arith)
                    requires
                        whole == q as nat * unit as nat + units as nat,
                        unit == 1,
                        units == 0,
                ;
            } else {
                let half = two((n - 1) as nat);
                assert(unit == 2 * half);
                assert(whole == 2 * (q as nat * half + half - 1) + 1) by (nonlinear_arith)
                    requires
                        whole == q as nat * unit as nat + units as nat,
                        unit as nat == 2 * half,
                        units + 1 == unit,
                ;
            }
            assert(odd == (whole % 2 == 1));
        }
        let c: u64 = double_digits(&mut v);
        let exact = all_zero(&v);
        assert(c == 0 ==> 2 * rem < b) by {
            lemma_digits_number_bound(v@);
        }
        if c == 1 && (!exact || odd) {
            q as u128 + 1
        } else {
            q as u128
        }
    } else {
        let s: u32 = k - 53;
        let mut unit: u64 = 1;
        let mut j: u32 = 0;
        while j < s
            invariant
                j <= s <= 11,
                unit == two(j as nat),
                unit <= 0x800,
                two(11) == 0x800,
            decreases s - j,
        {
            proof {
                lemma_two_monotone((j + 1) as nat, 11);
            }
            unit = 2 * unit;
            j += 1;
        }
        proof {
            lemma_double_coarse(a, b, q as nat, f, unit as nat);
        }
        let m: u64 = q / unit;
        let r: u64 = q % unit;
        assert(m < 0xFFFF_FFFF_FFFF_FFFF) by (nonlinear_arith)
            requires
                m == q / unit,
                unit >= 2,
        ;
        let up = 2 * r > unit || (2 * r == unit && (!all_zero(&fraction) || m % 2 == 1));
        let rounded: u64 = if up {
            m + 1
        } else {
            m
        };
        assert(rounded * unit <= 0xFFFF_FFFF_FFFF_FFFF * 0x800) by (nonlinear_arith)
            requires
                rounded <= 0xFFFF_FFFF_FFFF_FFFF,
                unit <= 0x800,
        ;
        rounded as u128 * unit as u128
    }
}

// ── Placing the decimal point ────────────────────────────────────────────────

/// A numeral whose decimal point stands more than twenty digits behind its
/// first digit other than zero writes a number of at least `two(64)`.
proof fn lemma_far_right(digits: Seq<char>, exp: int, z: int)
    requires
        is_numeral(digits, 10),
        0 <= z < digits.len(),
        forall|i: int| 0 <= i < z ==> #[trigger] digits[i] == '0',
        digit_value(digits[z]) > 0,
        digits.len() + exp - z > 20,
    ensures
        double_part(fraction_of(digits, exp).0, fraction_of(digits, exp).1) >= two(64),
{
    let (a, b) = fraction_of(digits, exp);
    let v = numeral_value(digits, 10);
    let lead = (digits.len() - z - 1) as nat;
    lemma_leading_zeros(digits, z);
    lemma_numeral_lower(digits.skip(z));
    assert(v >= ten(lead));
    lemma_ten_monotone(20, (lead + exp) as nat);
    assert(ten(20) == 0x5_6BC7_5E2D_6310_0000) by {
        reveal_with_fuel(ten, 21);
    }
    lemma_two_values();
    let big = ten((lead + exp) as nat);
    if exp >= 0 {
        let e = ten(exp as nat);
        lemma_ten_add(lead, exp as nat);
        lemma_ten_pos(exp as nat);
        assert(v * e >= ten(lead) * e) by (nonlinear_arith)
            requires
                v >= ten(lead),
                e > 0,
        ;
        assert(a / b == a);
    } else {
        let e = (-exp) as nat;
        lemma_ten_pos(e);
        lemma_ten_add(e, (lead + exp) as nat);
        assert(e + (lead + exp) as nat == lead);
        assert(v >= b * big);
        vstd::arithmetic::div_mod::lemma_div_is_ordered((b * big) as int, v as int, b as int);
        vstd::arithmetic::div_mod::lemma_div_multiples_vanish(big as int, b as int);
        assert(a / b >= big);
    }
    lemma_double_large(a, b);
}

/// A numeral whose decimal point stands before its first digit other than
/// zero, with a zero in between, has no integer part.
proof fn lemma_far_left(digits: Seq<char>, exp: int, z: int)
    requires
        is_numeral(digits, 10),
        0 <= z < digits.len(),
        forall|i: int| 0 <= i < z ==> #[trigger] digits[i] == '0',
        digits.len() + exp - z < 0,
    ensures
        double_part(fraction_of(digits, exp).0, fraction_of(digits, exp).1) == 0,
{
    let (a, b) = fraction_of(digits, exp);
    let tail = digits.skip(z);
    lemma_leading_zeros(digits, z);
    lemma_numeral_bound(tail);
    let e = (-exp) as nat;
    let gap = (e - tail.len()) as nat;
    lemma_ten_add(tail.len(), gap);
    lemma_ten_monotone(1, gap);
    assert(ten(1) == 10 * ten(0));
    assert(10 * a < b) by (nonlinear_arith)
        requires
            a < ten(tail.len()),
            b == ten(tail.len()) * ten(gap),
            ten(gap) >= 10,
    ;
    lemma_double_small(a, b);
}

/// The size of a finite number, its fraction dropped, up to `u64::MAX`.
#[verifier::spinoff_prover]
#[verifier::rlimit(60)]
fn magnitude(
    digits: &Vec<char>,
    fraction: usize,
    exp_negative: bool,
    exp: u128,
    Ghost(e): Ghost<int>,
) -> (r: u64)
    requires
        is_numeral(digits@, 10),
        fraction <= digits@.len(),
        exp <= EXP_CAP,
        exp < EXP_CAP ==> e == (if exp_negative {
            -(exp as int)
        } else {
            exp as int
        }) - fraction,
        exp == EXP_CAP ==> if exp_negative {
            e <= -(exp as int) - fraction
        } else {
            e >= exp - fraction
        },
    ensures
        ({
            let (a, b) = fraction_of(digits@, e);
            r == if double_part(a, b) < u64::MAX {
                double_part(a, b)
            } else {
                u64::MAX as nat
            }
        }),
{
    let n: usize = digits.len();
    let mut z: usize = 0;
    while z < n && digits[z] == '0'
        invariant
            n == digits.len(),
            z <= n,
            forall|i: int| 0 <= i < z ==> #[trigger] digits@[i] == '0',
        decreases n - z,
    {
        z += 1;
    }
    if z == n {
        proof {
            lemma_leading_zeros(digits@, n as int);
            assert(digits@.take(n as int) =~= digits@);
            let (a, b) = fraction_of(digits@, e);
            if e >= 0 {
                assert(0 * ten(e as nat) == 0) by (nonlinear_arith);
            } else {
                lemma_ten_pos((-e) as nat);
            }
            lemma_double_small(a, b);
        }
        return 0;
    }
    proof {
        assert(digit_value(digits@[z as int]) < 10);
        assert(digit_value(digits@[z as int]) > 0);
    }
    let point: i128 = if exp_negative {
        n as i128 - fraction as i128 - exp as i128
    } else {
        n as i128 - fraction as i128 + exp as i128
    };
    let left: i128 = point - z as i128;
    if left > 20 {
        proof {
            lemma_far_right(digits@, e, z as int);
            lemma_two_values();
        }
        return u64::MAX;
    }
    if left < 0 {
        proof {
            lemma_far_left(digits@, e, z as int);
        }
        return 0;
    }
    assert(point == n + e);
    let mut q: u128 = 0;
    let mut i: i128 = z as i128;
    proof {
        lemma_leading_zeros(digits@, z as int);
        assert(ten(20) == 0x5_6BC7_5E2D_6310_0000) by {
            reveal_with_fuel(ten, 21);
        }
    }
    while i < point
        invariant
            is_numeral(digits@, 10),
            n == digits@.len(),
            z < n,
            z <= i <= point <= z + 20,
            i <= n ==> q == numeral_value(digits@.take(i as int), 10),
            i > n ==> q == numeral_value(digits@, 10) * ten((i - n) as nat),
            q < ten((i - z) as nat),
            ten(20) == 0x5_6BC7_5E2D_6310_0000,
        decreases point - i,
    {
        let ghost q0 = q as nat;
        proof {
            lemma_ten_monotone((i - z) as nat, 20);
        }
        let d: u128 = if i < n as i128 {
            let c: char = digits[i as usize];
            proof {
                assert(digits@.take(i + 1).drop_last() =~= digits@.take(i as int));
                assert(digit_value(digits@[i as int]) < 10);
            }
            (c as u32 - '0' as u32) as u128
        } else {
            proof {
                let v = numeral_value(digits@, 10);
                assert(digits@.take(n as int) =~= digits@);
                if i == n {
                    assert(q0 * 10 == v * (10 * 1)) by (nonlinear_arith)
                        requires
                            q0 == v,
                    ;
                    assert(ten(1) == 10 * ten(0));
                } else {
                    let p = ten((i - n) as nat);
                    assert(v * p * 10 == v * (10 * p)) by (nonlinear_arith);
                }
            }
            0
        };
        q = q * 10 + d;
        i += 1;
        assert((i - 1 - n + 1) as nat == (i - n) as nat);
    }
    proof {
        lemma_ten_monotone((point - z) as nat, 20);
    }
    let mut rest: Vec<u8> = Vec::new();
    let start: i128 = if point < n as i128 {
        point
    } else {
        n as i128
    };
    let mut k: usize = start as usize;
    let ghost tail = digits@.skip(start as int);
    while k < n
        invariant
            is_numeral(digits@, 10),
            n == digits@.len(),
            0 <= start <= k <= n,
            tail == digits@.skip(start as int),
            rest@.len() == k - start,
            forall|j: int| 0 <= j < rest@.len() ==> #[trigger] rest@[j] as nat == digit_value(tail[j]),
            all_decimal(rest@),
        decreases n - k,
    {
        assert(digit_value(digits@[k as int]) < 10);
        assert(tail[k - start] == digits@[k as int]);
        rest.push((digits[k] as u32 - '0' as u32) as u8);
        k += 1;
    }
    let ghost f = rest@.len();
    proof {
        lemma_same_number(tail, rest@);
        if point <= n {
            lemma_numeral_append(digits@.take(point as int), tail);
            assert(digits@.take(point as int) + tail =~= digits@);
            if e == 0 {
                assert(numeral_value(digits@, 10) * ten(0) == numeral_value(digits@, 10))
                    by (nonlinear_arith)
                    requires
                        ten(0) == 1,
                ;
            }
        } else {
            assert(tail.len() == 0);
            assert(q as nat * ten(0) == q as nat) by (nonlinear_arith)
                requires
                    ten(0) == 1,
            ;
        }
        let (a, b) = fraction_of(digits@, e);
        assert(b == ten(f));
        assert(a == q as nat * ten(f) + digits_number(rest@));
        lemma_ten_pos(f);
        lemma_digits_number_bound(rest@);
        if q >= two(64) {
            assert(q as nat * b == b * q as nat) by (nonlinear_arith);
            vstd::arithmetic::div_mod::lemma_fundamental_div_mod_converse(
                a as int,
                b as int,
                q as int,
                digits_number(rest@) as int,
            );
            lemma_double_large(a, b);
        }
        lemma_two_values();
    }
    if q > u64::MAX as u128 {
        return u64::MAX;
    }
    let r: u128 = nearest_part(q as u64, rest);
    if r < u64::MAX as u128 {
        r as u64
    } else {
        u64::MAX
    }
}

// ── Plain notation ───────────────────────────────────────────────────────────

pub open spec fn zeros(n: nat) -> Seq<char> {
    Seq::new(n, |i: int| '0')
}

/// The end of `s` without its trailing zeros.
pub open spec fn zeros_cut(s: Seq<char>) -> int
    decreases s.len(),
{
    if s.len() > 0 && s.last() == '0' {
        zeros_cut(s.drop_last())
    } else {
        s.len() as int
    }
}

/// `digits` times ten to the power `exp` in plain notation: no exponent, no
/// zeros but those that the decimal point calls for. What is beyond the range
/// of doubles overflows to `inf` or vanishes to `0`.
pub open spec fn plain_size(digits: Seq<char>, exp: int) -> Seq<char> {
    let z = run_end(digits, 0, CharSet::Only('0'));
    let significant = digits.subrange(z, zeros_cut(digits));
    let point = digits.len() + exp - z;
    if z >= digits.len() || point < -322 {
        "0"@
    } else if point > 309 {
        "inf"@
    } else if point <= 0 {
        "0."@ + zeros((-point) as nat) + significant
    } else if significant.len() <= point {
        significant + zeros((point - significant.len()) as nat)
    } else {
        significant.take(point) + "."@ + significant.skip(point)
    }
}

/// The literal `s` in plain notation.
pub open spec fn plain(s: Seq<char>) -> Seq<char> {
    match reading(s) {
        Some(Reading::Finite { negative, digits, exp }) => if negative {
            "-"@ + plain_size(digits, exp)
        } else {
            plain_size(digits, exp)
        },
        Some(Reading::Infinite(negative)) => if negative {
            "-inf"@
        } else {
            "inf"@
        },
        _ => "NaN"@,
    }
}

fn push_zeros(out: &mut String, n: usize)
    ensures
        final(out)@ == old(out)@ + zeros(n as nat),
{
    let mut i: usize = 0;
    assert(out@ =~= old(out)@ + zeros(0));
    while i < n
        invariant
            i <= n,
            out@ == old(out)@ + zeros(i as nat),
        decreases n - i,
    {
        out.push('0');
        i += 1;
        assert(out@ =~= old(out)@ + zeros(i as nat));
    }
}

fn push_chars(out: &mut String, s: &[char])
    ensures
        final(out)@ == old(out)@ + s@,
{
    out.append(string_of(s).as_str());
}

proof fn lemma_zeros_cut(s: Seq<char>, k: int)
    requires
        0 <= k < s.len(),
        s[k] != '0',
    ensures
        k < zeros_cut(s) <= s.len(),
    decreases s.len(),
{
    if s.last() == '0' {
        assert(s.drop_last()[k] == s[k]);
        lemma_zeros_cut(s.drop_last(), k);
    }
}

/// Appends a finite number in plain notation.
fn push_plain(
    out: &mut String,
    digits: &Vec<char>,
    fraction: usize,
    exp_negative: bool,
    exp: u128,
    Ghost(e): Ghost<int>,
)
    requires
        is_numeral(digits@, 10),
        fraction <= digits@.len(),
        exp <= EXP_CAP,
        exp < EXP_CAP ==> e == (if exp_negative {
            -(exp as int)
        } else {
            exp as int
        }) - fraction,
        exp == EXP_CAP ==> if exp_negative {
            e <= -(exp as int) - fraction
        } else {
            e >= exp - fraction
        },
    ensures
        final(out)@ == old(out)@ + plain_size(digits@, e),
{
    let n: usize = digits.len();
    let z: usize = run(digits.as_slice(), 0, CharSet::Only('0'));
    let point: i128 = if exp_negative {
        n as i128 - fraction as i128 - exp as i128 - z as i128
    } else {
        n as i128 - fraction as i128 + exp as i128 - z as i128
    };
    if z >= n || point < -322 {
        out.append("0");
        return;
    }
    if point > 309 {
        out.append("inf");
        return;
    }
    assert(point == n + e - z);
    let mut cut: usize = n;
    assert(digits@.take(n as int) =~= digits@);
    proof {
        lemma_zeros_cut(digits@, z as int);
    }
    while cut > 0 && digits[cut - 1] == '0'
        invariant
            n == digits@.len(),
            cut <= n,
            zeros_cut(digits@) == zeros_cut(digits@.take(cut as int)),
        decreases cut,
    {
        assert(digits@.take(cut as int).drop_last() =~= digits@.take(cut - 1));
        cut -= 1;
    }
    assert(cut > 0 ==> digits@.take(cut as int).last() == digits@[cut - 1]);
    let significant = slice_subrange(digits.as_slice(), z, cut);
    let len: usize = significant.len();
    if point <= 0 {
        out.append("0.");
        push_zeros(out, (-point) as usize);
        push_chars(out, significant);
        assert(out@ =~= old(out)@ + ("0."@ + zeros((-point) as nat) + significant@));
    } else if len as i128 <= point {
        push_chars(out, significant);
        push_zeros(out, point as usize - len);
        assert(out@ =~= old(out)@ + (significant@ + zeros((point - len) as nat)));
    } else {
        let p: usize = point as usize;
        assert(significant@.subrange(0, p as int) =~= significant@.take(p as int));
        assert(significant@.subrange(p as int, len as int) =~= significant@.skip(p as int));
        push_chars(out, slice_subrange(significant, 0, p));
        out.append(".");
        push_chars(out, slice_subrange(significant, p, len));
        assert(out@ =~= old(out)@ + (significant@.take(point as int) + "."@ + significant@.skip(
            point as int,
        )));
    }
}

// ── Number ───────────────────────────────────────────────────────────────────

/// A number as it was written.
#[derive(Debug)]
pub struct Number {
    text: String,
}

impl View for Number {
    type V = Seq<char>;

    closed spec fn view(&self) -> Seq<char> {
        self.text@
    }
}

impl Clone for Number {
    fn clone(&self) -> (r: Self)
        ensures
            r@ == self@,
    {
        Number { text: self.text.clone() }
    }
}

impl Number {
    /// The number that `s` writes, where it writes one.
    pub fn parse(s: &[char]) -> (r: Option<Number>)
        ensures
            r is Some <==> reading(s@) is Some,
            r matches Some(n) ==> n@ == s@,
    {
        match read(s) {
            Some(_) => Some(Number { text: string_of(s) }),
            None => None,
        }
    }

    /// The number `n`.
    pub fn from_int(n: i64) -> (r: Number)
        ensures
            r@ == decimal_int(n as int),
    {
        Number { text: i64_text(n) }
    }

    /// The literal, which `f64::from_str` reads.
    pub fn text(&self) -> (r: &str)
        ensures
            r@ == self@,
    {
        self.text.as_str()
    }

    /// The sign and the size, up to `u64::MAX`, of the integer part; nothing
    /// for what is not a number.
    fn parts(&self) -> (r: Option<(bool, u64)>)
        ensures
            forall|lo: int, hi: int|
                #![trigger integer_of(self@, lo, hi)]
                -u64::MAX <= lo <= 0 <= hi <= u64::MAX ==> integer_of(self@, lo, hi) == match r {
                    Some((true, m)) => clamp(-(m as int), lo, hi),
                    Some((false, m)) => clamp(m as int, lo, hi),
                    None => 0,
                },
    {
        let s = chars_of(self.text.as_str());
        match read(s.as_slice()) {
            Some(Parts::Finite { negative, digits, fraction, exp_negative, exp }) => {
                let ghost e = reading(self@)->0->exp;
                Some((negative, magnitude(&digits, fraction, exp_negative, exp, Ghost(e))))
            },
            Some(Parts::Infinite(negative)) => Some((negative, u64::MAX)),
            Some(Parts::NotANumber) => None,
            None => None,
        }
    }

    /// The number in plain notation. Up to fifteen significant digits this is
    /// the shortest notation of the double; more digits are kept as written.
    pub fn plain_text(&self) -> (r: String)
        ensures
            r@ == plain(self@),
    {
        let s = chars_of(self.text.as_str());
        match read(s.as_slice()) {
            Some(Parts::Finite { negative, digits, fraction, exp_negative, exp }) => {
                let ghost e = reading(self@)->0->exp;
                let mut out = String::new();
                if negative {
                    out.append("-");
                }
                push_plain(&mut out, &digits, fraction, exp_negative, exp, Ghost(e));
                assert(out@ =~= plain(self@));
                out
            },
            Some(Parts::Infinite(negative)) => if negative {
                "-inf".to_owned()
            } else {
                "inf".to_owned()
            },
            _ => "NaN".to_owned(),
        }
    }

    /// The integer part, held within `i64`.
    pub fn to_i64(&self) -> (r: i64)
        ensures
            r == integer_of(self@, i64::MIN as int, i64::MAX as int),
    {
        match self.parts() {
            Some((true, m)) => if m >= 0x8000_0000_0000_0000 {
                i64::MIN
            } else {
                -(m as i64)
            },
            Some((false, m)) => if m > 0x7FFF_FFFF_FFFF_FFFF {
                i64::MAX
            } else {
                m as i64
            },
            None => 0,
        }
    }

    /// The integer part, held within `u64`.
    pub fn to_u64(&self) -> (r: u64)
        ensures
            r == integer_of(self@, 0, u64::MAX as int),
    {
        match self.parts() {
            Some((false, m)) => m,
            _ => 0,
        }
    }

    /// The integer part, held within `u32`.
    pub fn to_u32(&self) -> (r: u32)
        ensures
            r == integer_of(self@, 0, u32::MAX as int),
    {
        match self.parts() {
            Some((false, m)) => if m > 0xFFFF_FFFF {
                u32::MAX
            } else {
                m as u32
            },
            _ => 0,
        }
    }
}

} // verus!
