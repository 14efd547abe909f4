//! Single-precision arithmetic on shares of a length.
//!
//! A [`Ratio`] is a single-precision number between zero and one, held as a
//! whole number of units of one part in `two(28)`, of which every such number
//! of at least a tenth is a multiple. Sums and products are rounded to the 24
//! significant bits that single precision keeps.

use vstd::prelude::*;

use crate::number::{
    bit_length, lemma_bit_length, lemma_two_add, lemma_two_monotone, lemma_two_pos, round_even, two,
};

verus! {

/// `n` rounded to 24 significant bits, halves to the even one.
pub open spec fn round24(n: nat) -> nat {
    let k = bit_length(n);
    if k <= 24 {
        n
    } else {
        let unit = two((k - 24) as nat);
        round_even(n, unit) * unit
    }
}

proof fn lemma_two_small()
    ensures
        two(24) == 0x100_0000,
        two(28) == 0x1000_0000,
        two(62) == 0x4000_0000_0000_0000,
        two(63) == 0x8000_0000_0000_0000,
{
    reveal_with_fuel(two, 15);
    assert(two(12) == 0x1000);
    assert(two(14) == 0x4000);
    lemma_two_add(12, 12);
    assert(two(24) == 0x100_0000);
    lemma_two_add(14, 14);
    lemma_two_add(24, 14);
    assert(two(38) == 0x40_0000_0000);
    lemma_two_add(38, 24);
    assert(two(62) == 0x4000_0000_0000_0000);
    assert(two(63) == 2 * two(62));
}

/// Rounding does not pass a number that needs no rounding.
pub proof fn lemma_round24_bound(n: nat, w: nat)
    requires
        n <= w * two(28),
        w < two(24),
    ensures
        round24(n) <= w * two(28),
{
    let k = bit_length(n);
    lemma_bit_length(n);
    lemma_two_small();
    if k > 24 {
        let s = (k - 24) as nat;
        let unit = two(s);
        lemma_two_pos(s);
        assert(s <= 28) by {
            if s >= 29 {
                lemma_two_add(24, 28);
                lemma_two_monotone(52, (k - 1) as nat);
                assert(w * two(28) < two(24) * two(28)) by (nonlinear_arith)
                    requires
                        w < two(24),
                        two(28) > 0,
                ;
            }
        }
        let rest = (28 - s) as nat;
        lemma_two_add(s, rest);
        let m = w * two(rest);
        assert(w * two(28) == m * unit) by (nonlinear_arith)
            requires
                two(28) == unit * two(rest),
                m == w * two(rest),
        ;
        let q = n / unit;
        let r = n % unit;
        vstd::arithmetic::div_mod::lemma_fundamental_div_mod(n as int, unit as int);
        assert(q <= m) by (nonlinear_arith)
            requires
                n == unit * q + r,
                r >= 0,
                n <= m * unit,
                unit > 0,
        ;
        if q == m {
            assert(r == 0) by (nonlinear_arith)
                requires
                    n == unit * q + r,
                    n <= m * unit,
                    q == m,
                    r >= 0,
            ;
            assert(round_even(n, unit) == q);
        }
        assert(round_even(n, unit) <= m);
        assert(round_even(n, unit) * unit <= m * unit) by (nonlinear_arith)
            requires
                round_even(n, unit) <= m,
        ;
    }
}

/// The number of binary digits of `n`.
fn count_bits(n: u128) -> (k: u32)
    requires
        n <= 0x10_0000_0000_0000_0000_0000_0000,
    ensures
        k == bit_length(n as nat),
        k <= 101,
{
    let mut k: u32 = 0;
    let mut rest: u128 = n;
    proof {
        lemma_bit_length(n as nat);
        lemma_two_100();
        if bit_length(n as nat) > 101 {
            lemma_two_monotone(101, (bit_length(n as nat) - 1) as nat);
            lemma_two_add(1, 100);
            assert(two(1) == 2 * two(0));
        }
    }
    while rest > 0
        invariant
            bit_length(n as nat) == k + bit_length(rest as nat),
            bit_length(n as nat) <= 101,
        decreases rest,
    {
        rest = rest / 2;
        k += 1;
    }
    k
}

proof fn lemma_two_100()
    ensures
        two(77) == 0x2000_0000_0000_0000_0000,
        two(100) == 0x10_0000_0000_0000_0000_0000_0000,
{
    lemma_two_small();
    reveal_with_fuel(two, 16);
    assert(two(15) == 0x8000);
    lemma_two_add(62, 15);
    assert(two(77) == 0x2000_0000_0000_0000_0000);
    assert(two(9) == 0x200);
    lemma_two_add(14, 9);
    assert(two(23) == 0x80_0000);
    lemma_two_add(77, 23);
}

/// Two to the power `n`.
pub fn power(n: u32) -> (r: u128)
    requires
        n <= 77,
    ensures
        r == two(n as nat),
        r <= 0x2000_0000_0000_0000_0000,
{
    let mut r: u128 = 1;
    let mut j: u32 = 0;
    while j < n
        invariant
            j <= n <= 77,
            r == two(j as nat),
            r <= 0x2000_0000_0000_0000_0000,
        decreases n - j,
    {
        proof {
            lemma_two_monotone((j + 1) as nat, 77);
            lemma_two_100();
        }
        r = 2 * r;
        j += 1;
    }
    r
}

/// `a / b` rounded to an integer, halves to the even one.
pub fn round_quotient(a: u128, b: u128) -> (r: u128)
    requires
        0 < b,
        b <= 0x40_0000_0000_0000_0000_0000_0000,
    ensures
        r == round_even(a as nat, b as nat),
{
    let q: u128 = a / b;
    let r: u128 = a % b;
    proof {
        vstd::arithmetic::div_mod::lemma_fundamental_div_mod(a as int, b as int);
        if b == 1 {
            assert(r == 0);
        } else {
            assert(q <= 0x8000_0000_0000_0000_0000_0000_0000_0000) by (nonlinear_arith)
                requires
                    a == b * q + r,
                    r >= 0,
                    b >= 2,
                    a <= 0xFFFF_FFFF_FFFF_FFFF_FFFF_FFFF_FFFF_FFFF,
            ;
        }
    }
    if 2 * r < b || (2 * r == b && q % 2 == 0) {
        q
    } else {
        q + 1
    }
}

/// `n` rounded to 24 significant bits.
pub fn round_single(n: u128) -> (r: u128)
    requires
        n <= 0x10_0000_0000_0000_0000_0000_0000,
    ensures
        r == round24(n as nat),
        r <= n + 0x2000_0000_0000_0000_0000,
{
    let k: u32 = count_bits(n);
    if k <= 24 {
        return n;
    }
    let unit: u128 = power(k - 24);
    proof {
        lemma_two_pos((k - 24) as nat);
        let q = n as nat / unit as nat;
        let r = n as nat % unit as nat;
        vstd::arithmetic::div_mod::lemma_fundamental_div_mod(n as int, unit as int);
        assert((q + 1) * unit <= n + unit) by (nonlinear_arith)
            requires
                n as nat == unit as nat * q + r,
                r >= 0,
        ;
        assert(q * unit <= n) by (nonlinear_arith)
            requires
                n as nat == unit as nat * q + r,
                r >= 0,
        ;
    }
    round_quotient(n, unit) * unit
}

// ── Ratio ────────────────────────────────────────────────────────────────────

/// One, in units.
pub const ONE: u32 = 0x1000_0000;

/// The single-precision numbers nearest to 0.1, 0.05, 0.55, 0.6 and 0.9, in
/// units.
pub const TENTH: u32 = 26843546;

pub const STEP: u32 = 13421773;

pub const MAIN: u32 = 147639504;

pub const PAD: u32 = 161061280;

pub const NINE_TENTHS: u32 = 241591904;

/// A share of a length.
#[derive(Debug, Clone, Copy, PartialEq, Eq, Structural)]
pub struct Ratio {
    pub units: u32,
}

/// The part of `n` that `units` make up, as single precision computes it,
/// without its fraction.
pub open spec fn share(n: u32, units: u32) -> nat {
    round24(round24(n as nat) * units as nat) / two(28)
}

pub open spec fn min_of(a: int, b: int) -> int {
    if a <= b {
        a
    } else {
        b
    }
}

pub open spec fn max_of(a: int, b: int) -> int {
    if a >= b {
        a
    } else {
        b
    }
}

/// The number with the single-precision bit pattern `bits`, held between 0.1
/// and 1. What is not a number leaves nothing of a length, as zero does.
pub open spec fn clamped_units(bits: u32) -> int {
    let magnitude = bits % 0x8000_0000;
    let exponent = magnitude / 0x80_0000;
    let mantissa = 0x80_0000 + magnitude % 0x80_0000;
    if magnitude > 0x7F80_0000 {
        0
    } else if bits >= 0x8000_0000 || exponent <= 122 {
        TENTH as int
    } else if exponent >= 127 {
        ONE as int
    } else {
        max_of((mantissa * two((exponent - 122) as nat)) as int, TENTH as int)
    }
}

impl Ratio {
    pub open spec fn wf(self) -> bool {
        self.units <= ONE
    }

    /// The share of a main pane at first.
    pub fn main() -> (r: Ratio)
        ensures
            r.units == MAIN,
    {
        Ratio { units: MAIN }
    }

    /// The share of the screen that a scratchpad takes at first.
    pub fn pad() -> (r: Ratio)
        ensures
            r.units == PAD,
    {
        Ratio { units: PAD }
    }

    /// The share with the single-precision bit pattern `bits`, held between
    /// 0.1 and 1.
    pub fn clamped(bits: u32) -> (r: Ratio)
        ensures
            r.units == clamped_units(bits),
            r.wf(),
    {
        let magnitude: u32 = bits % 0x8000_0000;
        let exponent: u32 = magnitude / 0x80_0000;
        let mantissa: u32 = 0x80_0000 + magnitude % 0x80_0000;
        if magnitude > 0x7F80_0000 {
            return Ratio { units: 0 };
        }
        if bits >= 0x8000_0000 || exponent <= 122 {
            return Ratio { units: TENTH };
        }
        if exponent >= 127 {
            return Ratio { units: ONE };
        }
        proof {
            reveal_with_fuel(two, 5);
        }
        let factor: u32 = if exponent == 123 {
            2
        } else if exponent == 124 {
            4
        } else if exponent == 125 {
            8
        } else {
            16
        };
        assert(mantissa * factor <= 0x100_0000 * 16) by (nonlinear_arith)
            requires
                mantissa <= 0x100_0000,
                factor <= 16,
        ;
        let u: u32 = mantissa * factor;
        if u < TENTH {
            Ratio { units: TENTH }
        } else {
            Ratio { units: u }
        }
    }

    /// A step more, up to 0.9.
    pub fn grown(self) -> (r: Ratio)
        requires
            self.wf(),
        ensures
            r.units == min_of(round24((self.units + STEP) as nat) as int, NINE_TENTHS as int),
            r.wf(),
    {
        let s: u128 = round_single(self.units as u128 + STEP as u128);
        if s <= NINE_TENTHS as u128 {
            Ratio { units: s as u32 }
        } else {
            Ratio { units: NINE_TENTHS }
        }
    }

    /// A step less, down to 0.1.
    pub fn shrunk(self) -> (r: Ratio)
        requires
            self.wf(),
        ensures
            r.units == if self.units <= STEP {
                TENTH as int
            } else {
                max_of(round24((self.units - STEP) as nat) as int, TENTH as int)
            },
            r.wf(),
    {
        if self.units <= STEP {
            return Ratio { units: TENTH };
        }
        let d: u32 = self.units - STEP;
        let s: u128 = round_single(d as u128);
        proof {
            assert(d as nat <= 1 * two(28)) by {
                lemma_two_small();
            }
            lemma_two_small();
            lemma_round24_bound(d as nat, 1);
        }
        if s >= TENTH as u128 {
            Ratio { units: s as u32 }
        } else {
            Ratio { units: TENTH }
        }
    }

    /// This share of `n`.
    pub fn of(self, n: u32) -> (r: u32)
        requires
            self.wf(),
        ensures
            r == min_of(share(n, self.units) as int, u32::MAX as int),
    {
        let w: u128 = round_single(n as u128);
        proof {
            lemma_two_small();
            lemma_two_add(4, 28);
            reveal_with_fuel(two, 5);
            assert(n as nat <= 16 * two(28));
            lemma_two_monotone(4, 24);
            lemma_round24_bound(n as nat, 16);
        }
        assert(w as nat * self.units as nat <= 0x1_0000_0000 * 0x1000_0000) by (nonlinear_arith)
            requires
                w <= 0x1_0000_0000,
                self.units <= 0x1000_0000,
        ;
        let p: u128 = round_single(w * self.units as u128);
        let q: u128 = p / 0x1000_0000;
        if q > 0xFFFF_FFFF {
            0xFFFF_FFFF
        } else {
            q as u32
        }
    }
}

/// A share of a length is no longer than the length.
pub proof fn law_share_is_part(n: u32, r: Ratio)
    requires
        r.wf(),
        n < 0x100_0000,
    ensures
        share(n, r.units) <= n,
{
    lemma_two_small();
    lemma_bit_length(n as nat);
    if bit_length(n as nat) > 24 {
        lemma_two_monotone(24, (bit_length(n as nat) - 1) as nat);
    }
    let w = round24(n as nat);
    assert(w == n);
    assert(w * r.units as nat <= n as nat * two(28)) by (nonlinear_arith)
        requires
            w == n,
            r.units <= two(28),
    ;
    lemma_round24_bound(w * r.units as nat, n as nat);
    let p = round24(w * r.units as nat);
    vstd::arithmetic::div_mod::lemma_div_is_ordered(
        p as int,
        (n as nat * two(28)) as int,
        two(28) as int,
    );
    vstd::arithmetic::div_mod::lemma_div_multiples_vanish(n as int, two(28) as int);
    assert(two(28) * n as nat == n as nat * two(28)) by (nonlinear_arith);
}

/// A share of a length is what the ratio says, to the pixel.
pub proof fn law_share_is_close(n: u32, r: Ratio)
    requires
        r.wf(),
        n < 0x100_0000,
    ensures
        n * r.units - 2 * 0x1000_0000 < share(n, r.units) * 0x1000_0000 <= n * r.units
            + 0x1000_0000,
{
    lemma_two_small();
    lemma_bit_length(n as nat);
    if bit_length(n as nat) > 24 {
        lemma_two_monotone(24, (bit_length(n as nat) - 1) as nat);
    }
    let x = n as nat * r.units as nat;
    assert(x < 0x100_0000 * 0x1000_0000) by (nonlinear_arith)
        requires
            n < 0x100_0000,
            r.units <= 0x1000_0000,
            x == n as nat * r.units as nat,
    ;
    lemma_two_add(24, 28);
    lemma_bit_length(x);
    let k = bit_length(x);
    if k > 52 {
        lemma_two_monotone(52, (k - 1) as nat);
    }
    let p = round24(x);
    if k > 24 {
        let unit = two((k - 24) as nat);
        lemma_two_pos((k - 24) as nat);
        lemma_two_monotone((k - 24) as nat, 28);
        lemma_round_even_close(x, unit);
    }
    assert(x - 0x800_0000 <= p <= x + 0x800_0000);
    vstd::arithmetic::div_mod::lemma_fundamental_div_mod(p as int, 0x1000_0000);
}

/// Rounding a number below 2^29 changes it by at most sixteen.
pub proof fn lemma_round24_close(n: nat)
    requires
        n < 0x2000_0000,
    ensures
        n <= round24(n) + 16,
        round24(n) <= n + 16,
{
    lemma_two_small();
    lemma_bit_length(n);
    let k = bit_length(n);
    lemma_two_add(1, 28);
    reveal_with_fuel(two, 6);
    if k > 29 {
        lemma_two_monotone(29, (k - 1) as nat);
    }
    if k > 24 {
        let unit = two((k - 24) as nat);
        lemma_two_pos((k - 24) as nat);
        lemma_two_monotone((k - 24) as nat, 5);
        lemma_round_even_close(n, unit);
    }
}

proof fn lemma_round_even_close(a: nat, b: nat)
    requires
        b > 0,
    ensures
        2 * a - b <= 2 * (round_even(a, b) * b) <= 2 * a + b,
{
    let q = a / b;
    vstd::arithmetic::div_mod::lemma_fundamental_div_mod(a as int, b as int);
    assert(q * b == b * q && (q + 1) * b == b * q + b) by (nonlinear_arith);
}

} // verus!
