//! Integers as text: the readings that `FromStr` and `from_str_radix` of the
//! standard integer types define, and decimal notation.

use vstd::prelude::*;
use vstd::slice::slice_subrange;

verus! {

/// The value of a digit, whatever the base.
pub open spec fn digit_value(c: char) -> nat {
    if '0' <= c <= '9' {
        (c as u32 - '0' as u32) as nat
    } else if 'a' <= c <= 'z' {
        (c as u32 - 'a' as u32 + 10) as nat
    } else if 'A' <= c <= 'Z' {
        (c as u32 - 'A' as u32 + 10) as nat
    } else {
        99
    }
}

/// Whether `s` is one or more digits in base `radix`.
pub open spec fn is_numeral(s: Seq<char>, radix: nat) -> bool {
    s.len() > 0 && forall|i: int| 0 <= i < s.len() ==> digit_value(#[trigger] s[i]) < radix
}

/// The number that the digits `s` write in base `radix`.
pub open spec fn numeral_value(s: Seq<char>, radix: nat) -> nat
    decreases s.len(),
{
    if s.len() == 0 {
        0
    } else {
        numeral_value(s.drop_last(), radix) * radix + digit_value(s.last())
    }
}

/// `s` without a leading plus sign.
pub open spec fn without_plus(s: Seq<char>) -> Seq<char> {
    if s.len() > 0 && s[0] == '+' {
        s.skip(1)
    } else {
        s
    }
}

/// The unsigned integer up to `max` that `s` writes in base `radix`.
pub open spec fn unsigned_of(s: Seq<char>, radix: nat, max: nat) -> Option<nat> {
    let d = without_plus(s);
    if is_numeral(d, radix) && numeral_value(d, radix) <= max {
        Some(numeral_value(d, radix))
    } else {
        None
    }
}

/// The `u64` that `s` writes in decimal, with an optional plus sign.
pub fn parse_u64(s: &[char]) -> (r: Option<u64>)
    ensures
        r is Some <==> unsigned_of(s@, 10, u64::MAX as nat) is Some,
        r matches Some(v) ==> unsigned_of(s@, 10, u64::MAX as nat) == Some(v as nat),
{
    let d = if s.len() > 0 && s[0] == '+' {
        assert(s@.subrange(1, s@.len() as int) =~= s@.skip(1));
        slice_subrange(s, 1, s.len())
    } else {
        s
    };
    match capped_numeral(d, 10, 0x1_0000_0000_0000_0000) {
        Some(v) => if v <= 0xFFFF_FFFF_FFFF_FFFF {
            Some(v as u64)
        } else {
            None
        },
        None => None,
    }
}

/// The `i64` that `s` writes in decimal.
pub open spec fn i64_of(s: Seq<char>) -> Option<i64> {
    if s.len() > 0 && s[0] == '-' {
        let d = s.skip(1);
        if is_numeral(d, 10) && numeral_value(d, 10) <= 0x8000_0000_0000_0000 {
            Some((-(numeral_value(d, 10) as int)) as i64)
        } else {
            None
        }
    } else {
        let d = without_plus(s);
        if is_numeral(d, 10) && numeral_value(d, 10) <= i64::MAX {
            Some(numeral_value(d, 10) as i64)
        } else {
            None
        }
    }
}

fn digit_number(c: char) -> (r: u32)
    ensures
        r == digit_value(c),
        r <= 99,
{
    if '0' <= c && c <= '9' {
        c as u32 - '0' as u32
    } else if 'a' <= c && c <= 'z' {
        c as u32 - 'a' as u32 + 10
    } else if 'A' <= c && c <= 'Z' {
        c as u32 - 'A' as u32 + 10
    } else {
        99
    }
}

/// The value of a numeral, cut off at `cap`.
pub fn capped_numeral(s: &[char], radix: u32, cap: u128) -> (r: Option<u128>)
    requires
        2 <= radix <= 36,
        cap <= 0x1_0000_0000_0000_0000_0000_0000,
    ensures
        r is Some <==> is_numeral(s@, radix as nat),
        r matches Some(v) ==> v == if numeral_value(s@, radix as nat) < cap {
            numeral_value(s@, radix as nat)
        } else {
            cap as nat
        },
{
    if s.len() == 0 {
        return None;
    }
    let mut acc: u128 = 0;
    let mut i: usize = 0;
    while i < s.len()
        invariant
            2 <= radix <= 36,
            cap <= 0x1_0000_0000_0000_0000_0000_0000,
            i <= s.len(),
            acc <= cap,
            forall|k: int| 0 <= k < i ==> digit_value(#[trigger] s@[k]) < radix,
            acc == if numeral_value(s@.take(i as int), radix as nat) < cap {
                numeral_value(s@.take(i as int), radix as nat)
            } else {
                cap as nat
            },
        decreases s.len() - i,
    {
        let d: u32 = digit_number(s[i]);
        if d >= radix {
            return None;
        }
        assert(acc * radix <= 0x1_0000_0000_0000_0000_0000_0000 * 36) by (nonlinear_arith)
            requires
                radix <= 36,
                acc <= 0x1_0000_0000_0000_0000_0000_0000,
        ;
        let next: u128 = acc * radix as u128 + d as u128;
        proof {
            let before = numeral_value(s@.take(i as int), radix as nat);
            assert(s@.take(i + 1).drop_last() =~= s@.take(i as int));
            assert(numeral_value(s@.take(i + 1), radix as nat) == before * radix as nat + d);
            assert(before >= cap ==> before * radix as nat >= cap && cap * radix as nat >= cap)
                by (nonlinear_arith)
                requires
                    radix >= 2,
                    cap >= 0,
                    before >= 0,
            ;
        }
        acc = if next < cap {
            next
        } else {
            cap
        };
        i += 1;
    }
    assert(s@.take(i as int) =~= s@);
    Some(acc)
}

/// The unsigned integer up to `max` that `s` writes in base `radix`, with an
/// optional plus sign.
pub fn parse_unsigned(s: &[char], radix: u32, max: u32) -> (r: Option<u32>)
    requires
        2 <= radix <= 36,
    ensures
        r is Some <==> unsigned_of(s@, radix as nat, max as nat) is Some,
        r matches Some(v) ==> unsigned_of(s@, radix as nat, max as nat) == Some(v as nat),
{
    let d = if s.len() > 0 && s[0] == '+' {
        assert(s@.subrange(1, s@.len() as int) =~= s@.skip(1));
        slice_subrange(s, 1, s.len())
    } else {
        s
    };
    match capped_numeral(d, radix, max as u128 + 1) {
        Some(v) => if v <= max as u128 {
            Some(v as u32)
        } else {
            None
        },
        None => None,
    }
}

/// The `i64` that `s` writes in decimal, with an optional sign.
pub fn parse_i64(s: &[char]) -> (r: Option<i64>)
    ensures
        r == i64_of(s@),
{
    if s.len() > 0 && s[0] == '-' {
        assert(s@.subrange(1, s@.len() as int) =~= s@.skip(1));
        match capped_numeral(slice_subrange(s, 1, s.len()), 10, 0x8000_0000_0000_0001) {
            Some(v) => if v == 0x8000_0000_0000_0000 {
                Some(i64::MIN)
            } else if v < 0x8000_0000_0000_0000 {
                Some(-(v as i64))
            } else {
                None
            },
            None => None,
        }
    } else {
        let d = if s.len() > 0 && s[0] == '+' {
            assert(s@.subrange(1, s@.len() as int) =~= s@.skip(1));
            slice_subrange(s, 1, s.len())
        } else {
            s
        };
        match capped_numeral(d, 10, 0x8000_0000_0000_0000) {
            Some(v) => if v < 0x8000_0000_0000_0000 {
                Some(v as i64)
            } else {
                None
            },
            None => None,
        }
    }
}

// ── Decimal notation ─────────────────────────────────────────────────────────

/// The decimal digit for `d`.
pub open spec fn decimal_digit(d: nat) -> char {
    ('0' as u32 + d) as char
}

/// `n` in decimal.
pub open spec fn decimal(n: nat) -> Seq<char>
    decreases n,
{
    if n < 10 {
        seq![decimal_digit(n)]
    } else {
        decimal(n / 10).push(decimal_digit(n % 10))
    }
}

/// `n` in decimal, with a minus sign where it is negative.
pub open spec fn decimal_int(n: int) -> Seq<char> {
    if n < 0 {
        seq!['-'] + decimal((-n) as nat)
    } else {
        decimal(n as nat)
    }
}

fn digit_char(d: u64) -> (c: char)
    requires
        d < 10,
    ensures
        c == decimal_digit(d as nat),
{
    (48u8 + d as u8) as char
}

/// Appends `n` in decimal.
pub fn push_decimal(out: &mut String, n: u64)
    ensures
        final(out)@ == old(out)@ + decimal(n as nat),
    decreases n,
{
    if n >= 10 {
        push_decimal(out, n / 10);
    }
    out.push(digit_char(n % 10));
    proof {
        if n < 10 {
            assert(old(out)@.push(decimal_digit(n as nat)) =~= old(out)@ + decimal(n as nat));
        } else {
            assert((old(out)@ + decimal((n / 10) as nat)).push(decimal_digit((n % 10) as nat))
                =~= old(out)@ + decimal(n as nat));
        }
    }
}

/// `n` in decimal.
pub fn i64_text(n: i64) -> (r: String)
    ensures
        r@ == decimal_int(n as int),
{
    let mut r = String::new();
    if n < 0 {
        r.push('-');
        let m: u64 = if n == i64::MIN {
            0x8000_0000_0000_0000
        } else {
            (-n) as u64
        };
        push_decimal(&mut r, m);
        assert(r@ =~= seq!['-'] + decimal(m as nat));
    } else {
        push_decimal(&mut r, n as u64);
        assert(r@ =~= decimal(n as nat));
    }
    r
}

pub proof fn lemma_decimal_numeral(n: nat)
    ensures
        is_numeral(decimal(n), 10),
        numeral_value(decimal(n), 10) == n,
    decreases n,
{
    if n < 10 {
        let s = seq![decimal_digit(n)];
        assert(s.drop_last() =~= Seq::<char>::empty());
        assert(numeral_value(s.drop_last(), 10) == 0);
    } else {
        lemma_decimal_numeral(n / 10);
        let s = decimal(n);
        assert(s.drop_last() =~= decimal(n / 10));
        assert forall|i: int| 0 <= i < s.len() implies digit_value(#[trigger] s[i]) < 10 by {
            if i < s.len() - 1 {
                assert(decimal(n / 10)[i] == s[i]);
            }
        }
    }
}

/// Reading an `i64` back from its decimal notation gives the same `i64`.
pub proof fn law_decimal_reads_back(n: i64)
    ensures
        i64_of(decimal_int(n as int)) == Some(n),
{
    if n < 0 {
        let m = (-(n as int)) as nat;
        lemma_decimal_numeral(m);
        assert((seq!['-'] + decimal(m)).skip(1) =~= decimal(m));
    } else {
        lemma_decimal_numeral(n as nat);
        assert(digit_value(decimal(n as nat)[0]) < 10);
        assert(digit_value('-') == 99 && digit_value('+') == 99);
    }
}

/// A number that is not too large is read as it is written.
pub proof fn lemma_decimal_is_read(n: nat, max: nat)
    requires
        n <= max,
    ensures
        unsigned_of(decimal(n), 10, max) == Some(n),
{
    lemma_decimal_numeral(n);
    assert(digit_value(decimal(n)[0]) < 10);
    assert(digit_value('+') == 99);
}

} // verus!
