//! Animations: panes slide in from and out to the nearest edge of the screen,
//! workspaces slide past each other, and panes move between the places that
//! layouts give them.
//!
//! Time is in milliseconds on a clock that the caller reads. How far a motion
//! has come is eased by a curve; the caller evaluates the curve, and hands the
//! result in as a [`Blend`].

use vstd::prelude::*;
use std::collections::HashMap;

use crate::number::{bit_length, round_even, two};
use crate::single::{max_of, power, round24, round_quotient, round_single};
use crate::twm::pane::PaneId;
use crate::twm::rect::Rect;

verus! {

broadcast use vstd::std_specs::hash::group_hash_axioms;

// ── Blends ───────────────────────────────────────────────────────────────────

/// A single-precision number between zero and one: `mantissa / two(shift)`.
#[derive(Debug, Clone, Copy, PartialEq, Eq, Structural)]
pub struct Blend {
    pub mantissa: u32,
    pub shift: u32,
}

impl Blend {
    pub open spec fn wf(self) -> bool {
        &&& self.mantissa <= 0x100_0000
        &&& self.shift <= 63
        &&& self.mantissa <= two(self.shift as nat)
    }

    /// The number with the single-precision bit pattern `bits`, held between
    /// zero and one. Numbers so small that they move no coordinate by half a
    /// pixel count as zero, and so does what is not a number.
    pub fn from_bits(bits: u32) -> (r: Blend)
        ensures
            r.wf(),
            r == blend_of(bits),
    {
        let magnitude: u32 = bits % 0x8000_0000;
        let exponent: u32 = magnitude / 0x80_0000;
        let mantissa: u32 = 0x80_0000 + magnitude % 0x80_0000;
        if magnitude > 0x7F80_0000 || bits >= 0x8000_0000 || exponent < 87 {
            return Blend { mantissa: 0, shift: 0 };
        }
        if exponent >= 127 {
            assert(two(0) == 1);
            return Blend { mantissa: 1, shift: 0 };
        }
        proof {
            crate::number::lemma_two_monotone(24, (150 - exponent) as nat);
            reveal_with_fuel(two, 13);
            crate::number::lemma_two_add(12, 12);
        }
        Blend { mantissa, shift: 150 - exponent }
    }
}

pub open spec fn blend_of(bits: u32) -> Blend {
    let magnitude = bits % 0x8000_0000;
    let exponent = magnitude / 0x80_0000;
    if magnitude > 0x7F80_0000 || bits >= 0x8000_0000 || exponent < 87 {
        Blend { mantissa: 0, shift: 0 }
    } else if exponent >= 127 {
        Blend { mantissa: 1, shift: 0 }
    } else {
        Blend {
            mantissa: (0x80_0000 + magnitude % 0x80_0000) as u32,
            shift: (150 - exponent) as u32,
        }
    }
}

/// `n` rounded to 24 significant bits.
pub open spec fn signed24(n: int) -> int {
    if n < 0 {
        -(round24((-n) as nat) as int)
    } else {
        round24(n as nat) as int
    }
}

/// `n / two(s)` rounded to an integer, halves away from zero, held within
/// `i32`.
pub open spec fn to_pixel(n: int, s: nat) -> i32 {
    let size = if n < 0 {
        -n
    } else {
        n
    };
    let r = (2 * size + two(s)) / (2 * two(s) as int);
    if n < 0 {
        if r > 0x8000_0000 {
            i32::MIN
        } else {
            (-r) as i32
        }
    } else if r > 0x7FFF_FFFF {
        i32::MAX
    } else {
        r as i32
    }
}

/// The coordinate on the way from `a` to `b`, in single precision.
pub open spec fn lerp(a: i32, b: i32, t: Blend) -> i32 {
    let start = signed24(a as int);
    let way = signed24(signed24(b as int) - start);
    let gone = signed24(way * t.mantissa);
    to_pixel(signed24(start * two(t.shift as nat) + gone), t.shift as nat)
}

proof fn lemma_two_63()
    ensures
        two(63) == 0x8000_0000_0000_0000,
        two(62) == 0x4000_0000_0000_0000,
        two(59) == 0x800_0000_0000_0000,
        two(60) == 0x1000_0000_0000_0000,
        two(31) == 0x8000_0000,
{
    reveal_with_fuel(two, 17);
    assert(two(15) == 0x8000);
    assert(two(16) == 0x1_0000);
    crate::number::lemma_two_add(15, 16);
    assert(two(31) == 0x8000_0000);
    crate::number::lemma_two_add(31, 31);
    assert(two(62) == 0x4000_0000_0000_0000);
    assert(two(63) == 2 * two(62));
    assert(two(62) == 2 * two(61));
    assert(two(61) == 2 * two(60));
    assert(two(60) == 2 * two(59));
}

fn round_signed(n: i128) -> (r: i128)
    requires
        -0x8_0000_0000_0000_0000_0000_0000 <= n <= 0x8_0000_0000_0000_0000_0000_0000,
    ensures
        r == signed24(n as int),
        n >= 0 ==> 0 <= r <= n + 0x2000_0000_0000_0000_0000,
        n < 0 ==> n - 0x2000_0000_0000_0000_0000 <= r <= 0,
{
    if n < 0 {
        -(round_single((-n) as u128) as i128)
    } else {
        round_single(n as u128) as i128
    }
}

fn pixel(n: i128, s: u32) -> (r: i32)
    requires
        s <= 63,
        -0x10_0000_0000_0000_0000_0000_0000 <= n <= 0x10_0000_0000_0000_0000_0000_0000,
    ensures
        r == to_pixel(n as int, s as nat),
{
    let unit: u128 = power(s);
    proof {
        crate::number::lemma_two_pos(s as nat);
        crate::number::lemma_two_monotone(s as nat, 63);
        lemma_two_63();
    }
    let size: u128 = if n < 0 {
        (-n) as u128
    } else {
        n as u128
    };
    let q: u128 = (2 * size + unit) / (2 * unit);
    if n < 0 {
        if q > 0x8000_0000 {
            i32::MIN
        } else if q == 0x8000_0000 {
            i32::MIN
        } else {
            -(q as i32)
        }
    } else if q > 0x7FFF_FFFF {
        i32::MAX
    } else {
        q as i32
    }
}

/// Rounding does not pass a multiple of a large power of two.
proof fn lemma_near(n: nat, w: nat)
    requires
        n <= w * 0x1000_0000,
        w < 0x100_0000,
    ensures
        round24(n) <= w * 0x1000_0000,
{
    assert(two(28) == 0x1000_0000 && two(24) == 0x100_0000) by {
        reveal_with_fuel(two, 15);
        assert(two(14) == 0x4000);
        assert(two(12) == 0x1000);
        crate::number::lemma_two_add(14, 14);
        crate::number::lemma_two_add(12, 12);
    }
    crate::single::lemma_round24_bound(n, w);
}

pub open spec fn size_of(n: int) -> nat {
    if n < 0 {
        (-n) as nat
    } else {
        n as nat
    }
}

fn lerp_i32(a: i32, b: i32, t: Blend) -> (r: i32)
    requires
        t.wf(),
    ensures
        r == lerp(a, b, t),
{
    proof {
        lemma_near(size_of(a as int), 8);
        lemma_near(size_of(b as int), 8);
    }
    let start: i128 = round_signed(a as i128);
    let end: i128 = round_signed(b as i128);
    proof {
        lemma_near(size_of(end - start), 16);
    }
    let way: i128 = round_signed(end - start);
    let unit: i128 = power(t.shift) as i128;
    proof {
        crate::number::lemma_two_monotone(t.shift as nat, 63);
        lemma_two_63();
        assert(-0x1_0000_0000 * 0x100_0000 <= way * t.mantissa <= 0x1_0000_0000 * 0x100_0000)
            by (nonlinear_arith)
            requires
                -0x1_0000_0000 <= way <= 0x1_0000_0000,
                t.mantissa <= 0x100_0000,
        ;
        assert(-0x8000_0000 * 0x8000_0000_0000_0000 <= start * unit <= 0x8000_0000
            * 0x8000_0000_0000_0000) by (nonlinear_arith)
            requires
                -0x8000_0000 <= start <= 0x8000_0000,
                0 <= unit <= 0x8000_0000_0000_0000,
        ;
    }
    let gone: i128 = round_signed(way * t.mantissa as i128);
    let sum: i128 = round_signed(start * unit + gone);
    pixel(sum, t.shift)
}

// ── Edges ────────────────────────────────────────────────────────────────────

/// A rectangle that may start left of or above the screen.
#[derive(Debug, Clone, Copy, PartialEq, Eq, Structural)]
pub struct SignedRect {
    pub x: i32,
    pub y: i32,
    pub w: i32,
    pub h: i32,
}

pub open spec fn signed(r: Rect) -> SignedRect {
    SignedRect { x: r.x as i32, y: r.y as i32, w: r.w as i32, h: r.h as i32 }
}

fn to_signed(r: Rect) -> (s: SignedRect)
    ensures
        s == signed(r),
{
    SignedRect {
        x: #[verifier::truncate] (r.x as i32),
        y: #[verifier::truncate] (r.y as i32),
        w: #[verifier::truncate] (r.w as i32),
        h: #[verifier::truncate] (r.h as i32),
    }
}

#[derive(Debug, Clone, Copy, PartialEq, Eq, Structural)]
pub enum Edge {
    Top,
    Bottom,
    Left,
    Right,
}

/// `a / b` in single precision, in units of one part in `two(60)`.
pub open spec fn quotient24(a: nat, b: nat) -> nat {
    let scaled = a * two(60);
    let k = bit_length(scaled / b);
    if k <= 24 {
        round_even(scaled, b)
    } else {
        let unit = two((k - 24) as nat);
        round_even(scaled, b * unit) * unit
    }
}

/// How far `c` is from the middle of a length `len`, as a part of it, in
/// units of one part in `two(60)`.
pub open spec fn off_middle(c: nat, len: u32) -> int {
    let whole = max_of(len as int, 1) as nat;
    signed24(quotient24(round24(c), round24(whole)) - two(59))
}

/// The edge of the screen that the middle of `rect` is nearest to. Of two, an
/// edge at the side goes first, and from the very middle the lower one.
pub open spec fn edge_near(rect: Rect, screen_w: u32, screen_h: u32) -> Edge {
    let dx = off_middle((rect.x + rect.w / 2) as nat, screen_w);
    let dy = off_middle((rect.y + rect.h / 2) as nat, screen_h);
    let ax = max_of(dx, -dx);
    let ay = max_of(dy, -dy);
    if dx == 0 && dy == 0 {
        Edge::Bottom
    } else if ax >= ay {
        if dx >= 0 {
            Edge::Right
        } else {
            Edge::Left
        }
    } else if dy >= 0 {
        Edge::Bottom
    } else {
        Edge::Top
    }
}

pub open spec fn negated(n: i32) -> i32 {
    if n == i32::MIN {
        i32::MAX
    } else {
        (-n) as i32
    }
}

/// `rect` moved out of the screen over `edge`.
pub open spec fn beyond(rect: Rect, edge: Edge, screen_w: u32, screen_h: u32) -> SignedRect {
    let s = signed(rect);
    match edge {
        Edge::Top => SignedRect { y: negated(s.h), ..s },
        Edge::Bottom => SignedRect { y: screen_h as i32, ..s },
        Edge::Left => SignedRect { x: negated(s.w), ..s },
        Edge::Right => SignedRect { x: screen_w as i32, ..s },
    }
}

proof fn lemma_quotient(a: nat, b: nat, k: nat)
    requires
        a <= 0x4_0000_0000,
        0 < b,
        b <= 0x4_0000_0000,
        k == bit_length((a * two(60)) / b),
    ensures
        a * two(60) <= 0x4_0000_0000 * 0x1000_0000_0000_0000,
        k <= 95,
{
    lemma_two_63();
    assert(a * two(60) <= 0x4_0000_0000 * 0x1000_0000_0000_0000) by (nonlinear_arith)
        requires
            a <= 0x4_0000_0000,
            two(60) == 0x1000_0000_0000_0000,
    ;
    let q = (a * two(60)) / b;
    assert(q <= a * two(60)) by (nonlinear_arith)
        requires
            q == (a * two(60)) / b,
            b >= 1,
            a * two(60) >= 0,
    ;
    crate::number::lemma_bit_length(q);
    if k > 95 {
        crate::number::lemma_two_monotone(95, (k - 1) as nat);
        crate::number::lemma_two_add(32, 63);
        assert(two(32) == 2 * two(31));
    }
}

fn quotient(a: u128, b: u128) -> (r: u128)
    requires
        a <= 0x4_0000_0000,
        0 < b,
        b <= 0x4_0000_0000,
    ensures
        r == quotient24(a as nat, b as nat),
        r <= 0x8_0000_0000 * 0x1000_0000_0000_0000,
{
    let ghost k = bit_length((a as nat * two(60)) / b as nat);
    proof {
        lemma_quotient(a as nat, b as nat, k);
        lemma_two_63();
    }
    let scaled: u128 = a * 0x1000_0000_0000_0000;
    let mut bits: u32 = 0;
    let mut rest: u128 = scaled / b;
    while rest > 0
        invariant
            k == bits + bit_length(rest as nat),
            k <= 95,
        decreases rest,
    {
        rest = rest / 2;
        bits += 1;
    }
    if bits <= 24 {
        proof {
            lemma_round_even_bound(scaled as nat, b as nat, 1);
        }
        return round_quotient(scaled, b);
    }
    let unit: u128 = power(bits - 24);
    proof {
        let u = unit as nat;
        crate::number::lemma_two_pos((bits - 24) as nat);
        let q = scaled as nat / b as nat;
        crate::number::lemma_bit_length(q);
        // The unit is at most the quotient, so divisor and unit together are
        // at most the dividend.
        crate::number::lemma_two_monotone((bits - 24) as nat, (bits - 1) as nat);
        vstd::arithmetic::div_mod::lemma_fundamental_div_mod(scaled as int, b as int);
        assert(b as nat * u <= scaled as nat) by (nonlinear_arith)
            requires
                u <= q,
                b as nat * q <= scaled as nat,
        ;
        assert(b as nat * u > 0) by (nonlinear_arith)
            requires
                b > 0,
                u > 0,
        ;
        assert(u <= b as nat * u) by (nonlinear_arith)
            requires
                b >= 1,
                u >= 0,
        ;
        lemma_round_even_bound(scaled as nat, b as nat * u, u);
    }
    round_quotient(scaled, b * unit) * unit
}

/// A rounded quotient by `d`, times `u` where that is a factor of `d`, is at
/// most the dividend and `u` together.
proof fn lemma_round_even_bound(n: nat, d: nat, u: nat)
    requires
        d > 0,
        0 < u <= d,
    ensures
        round_even(n, d) * u <= n + u,
{
    let q = n / d;
    let r = n % d;
    vstd::arithmetic::div_mod::lemma_fundamental_div_mod(n as int, d as int);
    assert(q * u <= n) by (nonlinear_arith)
        requires
            n == d * q + r,
            r >= 0,
            u <= d,
    ;
    assert((q + 1) * u == q * u + u) by (nonlinear_arith);
}

fn offset_from_middle(c: u64, len: u32) -> (r: i128)
    requires
        c <= 0x2_0000_0000,
    ensures
        r == off_middle(c as nat, len),
        -0x1_0000_0000_0000_0000_0000_0000 <= r <= 0x1_0000_0000_0000_0000_0000_0000,
{
    let whole: u32 = if len >= 1 {
        len
    } else {
        1
    };
    proof {
        lemma_near(c as nat, 32);
        lemma_near(whole as nat, 16);
        lemma_positive(whole as nat);
        lemma_two_63();
    }
    let q: u128 = quotient(round_single(c as u128), round_single(whole as u128));
    round_signed(q as i128 - 0x800_0000_0000_0000)
}

/// What is not zero does not become zero by rounding.
proof fn lemma_positive(n: nat)
    requires
        n > 0,
    ensures
        round24(n) > 0,
{
    let k = bit_length(n);
    if k > 24 {
        let unit = two((k - 24) as nat);
        crate::number::lemma_two_pos((k - 24) as nat);
        crate::number::lemma_bit_length(n);
        crate::number::lemma_two_monotone((k - 24) as nat, (k - 1) as nat);
        vstd::arithmetic::div_mod::lemma_div_is_ordered(unit as int, n as int, unit as int);
        assert(unit as int / unit as int == 1) by (nonlinear_arith)
            requires
                unit > 0,
        ;
        assert(round_even(n, unit) >= 1);
        assert(round_even(n, unit) * unit > 0) by (nonlinear_arith)
            requires
                round_even(n, unit) >= 1,
                unit > 0,
        ;
    }
}

pub fn nearest_edge(rect: Rect, screen_w: u32, screen_h: u32) -> (r: Edge)
    ensures
        r == edge_near(rect, screen_w, screen_h),
{
    let dx: i128 = offset_from_middle(rect.x as u64 + (rect.w / 2) as u64, screen_w);
    let dy: i128 = offset_from_middle(rect.y as u64 + (rect.h / 2) as u64, screen_h);
    let ax: i128 = if dx >= 0 {
        dx
    } else {
        -dx
    };
    let ay: i128 = if dy >= 0 {
        dy
    } else {
        -dy
    };
    if dx == 0 && dy == 0 {
        Edge::Bottom
    } else if ax >= ay {
        if dx >= 0 {
            Edge::Right
        } else {
            Edge::Left
        }
    } else if dy >= 0 {
        Edge::Bottom
    } else {
        Edge::Top
    }
}

fn minus_of(n: i32) -> (r: i32)
    ensures
        r == negated(n),
{
    if n == i32::MIN {
        i32::MAX
    } else {
        -n
    }
}

pub fn edge_rect_signed(rect: Rect, edge: Edge, screen_w: u32, screen_h: u32) -> (r: SignedRect)
    ensures
        r == beyond(rect, edge, screen_w, screen_h),
{
    let s = to_signed(rect);
    match edge {
        Edge::Top => SignedRect { y: minus_of(s.h), ..s },
        Edge::Bottom => SignedRect { y: #[verifier::truncate] (screen_h as i32), ..s },
        Edge::Left => SignedRect { x: minus_of(s.w), ..s },
        Edge::Right => SignedRect { x: #[verifier::truncate] (screen_w as i32), ..s },
    }
}

/// The rectangle on the way from `a` to `b`; it is at least one pixel wide
/// and high.
pub open spec fn lerp_rect(a: SignedRect, b: SignedRect, t: Blend) -> Rect {
    Rect {
        x: lerp(a.x, b.x, t) as u32,
        y: lerp(a.y, b.y, t) as u32,
        w: max_of(lerp(a.w, b.w, t) as int, 1) as u32,
        h: max_of(lerp(a.h, b.h, t) as int, 1) as u32,
    }
}

fn at_least_one(n: i32) -> (r: u32)
    ensures
        r == max_of(n as int, 1) as u32,
{
    if n >= 1 {
        n as u32
    } else {
        1
    }
}

pub fn lerp_rect_render(a: SignedRect, b: SignedRect, t: Blend) -> (r: Rect)
    requires
        t.wf(),
    ensures
        r == lerp_rect(a, b, t),
{
    Rect::new(
        #[verifier::truncate] (lerp_i32(a.x, b.x, t) as u32),
        #[verifier::truncate] (lerp_i32(a.y, b.y, t) as u32),
        at_least_one(lerp_i32(a.w, b.w, t)),
        at_least_one(lerp_i32(a.h, b.h, t)),
    )
}

// ── Motions ──────────────────────────────────────────────────────────────────

#[derive(Debug, Clone, Copy, PartialEq, Eq, Structural)]
pub enum AnimKind {
    Open,
    Close,
    /// A pane moves between the places that layouts give it.
    LayoutMorph,
}

/// The curve by which a motion is eased.
#[derive(Debug, Clone, Copy, PartialEq, Eq, Structural)]
pub enum Easing {
    OutCubic,
    InCubic,
    OutQuint,
}

/// How far a motion has come: so many milliseconds of so many, on a curve.
#[derive(Debug, Clone, Copy, PartialEq, Eq, Structural)]
pub struct Motion {
    pub easing: Easing,
    pub elapsed_ms: u64,
    pub duration_ms: u64,
}

#[derive(Debug, Clone, Copy, PartialEq, Eq, Structural)]
pub struct PaneAnim {
    pub kind: AnimKind,
    pub start_ms: u64,
    pub duration_ms: u64,
    /// Where the pane is on the screen: at the end, or for a pane that closes
    /// at the start.
    pub target_rect: Rect,
    /// The other end: off the screen, or the previous place.
    pub from_rect: SignedRect,
}

pub open spec fn elapsed(start_ms: u64, now_ms: u64) -> int {
    if now_ms >= start_ms {
        now_ms - start_ms
    } else {
        0
    }
}

impl PaneAnim {
    pub open spec fn done(self, now_ms: u64) -> bool {
        elapsed(self.start_ms, now_ms) >= self.duration_ms
    }

    pub open spec fn rect_at(self, t: Blend) -> Rect {
        match self.kind {
            AnimKind::Close => lerp_rect(signed(self.target_rect), self.from_rect, t),
            _ => lerp_rect(self.from_rect, signed(self.target_rect), t),
        }
    }

    pub open spec fn curve(self) -> Easing {
        match self.kind {
            AnimKind::Open => Easing::OutCubic,
            AnimKind::Close => Easing::InCubic,
            AnimKind::LayoutMorph => Easing::OutCubic,
        }
    }

    fn is_done(&self, now_ms: u64) -> (r: bool)
        ensures
            r == self.done(now_ms),
    {
        now_ms.saturating_sub(self.start_ms) >= self.duration_ms
    }

    fn current_rect(&self, t: Blend) -> (r: Rect)
        requires
            t.wf(),
        ensures
            r == self.rect_at(t),
    {
        let target = to_signed(self.target_rect);
        match self.kind {
            AnimKind::Open => lerp_rect_render(self.from_rect, target, t),
            AnimKind::Close => lerp_rect_render(target, self.from_rect, t),
            AnimKind::LayoutMorph => lerp_rect_render(self.from_rect, target, t),
        }
    }
}

// ── Workspaces ───────────────────────────────────────────────────────────────

/// Which way the view goes when the workspace changes.
#[derive(Debug, Clone, Copy, PartialEq, Eq, Structural)]
pub enum WsDir {
    /// To a workspace with a lower number.
    Left,
    /// To a workspace with a higher number.
    Right,
}

#[derive(Debug, Clone, Copy, PartialEq, Eq, Structural)]
pub struct WsTransition {
    pub dir: WsDir,
    pub start_ms: u64,
    pub duration_ms: u64,
    pub screen_w: u32,
}

/// A width of the screen that `part / two(shift)` of has passed, in single
/// precision.
pub open spec fn passed(screen_w: u32, part: nat, shift: nat) -> i32 {
    to_pixel(signed24(signed24((screen_w as i32) as int) * round24(part)), shift)
}

pub open spec fn opposite(screen_w: u32, part: nat, shift: nat) -> i32 {
    to_pixel(signed24(-signed24((screen_w as i32) as int) * round24(part)), shift)
}

impl WsTransition {
    pub open spec fn done(self, now_ms: u64) -> bool {
        elapsed(self.start_ms, now_ms) >= self.duration_ms
    }

    /// Where the new workspace is: it comes in from the side to which the
    /// view goes.
    pub open spec fn incoming(self, t: Blend) -> i32 {
        let left = (two(t.shift as nat) - t.mantissa) as nat;
        match self.dir {
            WsDir::Right => passed(self.screen_w, left, t.shift as nat),
            WsDir::Left => opposite(self.screen_w, left, t.shift as nat),
        }
    }

    /// Where the old workspace is: it goes out at the other side.
    pub open spec fn outgoing(self, t: Blend) -> i32 {
        match self.dir {
            WsDir::Right => opposite(self.screen_w, t.mantissa as nat, t.shift as nat),
            WsDir::Left => passed(self.screen_w, t.mantissa as nat, t.shift as nat),
        }
    }

    pub fn is_done(&self, now_ms: u64) -> (r: bool)
        ensures
            r == self.done(now_ms),
    {
        now_ms.saturating_sub(self.start_ms) >= self.duration_ms
    }

    fn shifted(&self, part: u128, shift: u32, negative: bool) -> (r: i32)
        requires
            shift <= 63,
            part <= 0x8000_0000_0000_0000,
        ensures
            r == if negative {
                opposite(self.screen_w, part as nat, shift as nat)
            } else {
                passed(self.screen_w, part as nat, shift as nat)
            },
    {
        let w: i32 = #[verifier::truncate] (self.screen_w as i32);
        proof {
            lemma_near(size_of(w as int), 8);
        }
        let size: i128 = round_signed(w as i128);
        let p: i128 = round_single(part) as i128;
        let s: i128 = if negative {
            -size
        } else {
            size
        };
        proof {
            lemma_round_part(part as nat);
        }
        assert(-0x4_0000_0000 * 0x1_0000_0000_0000_0000 <= s * p <= 0x4_0000_0000
            * 0x1_0000_0000_0000_0000) by (nonlinear_arith)
            requires
                -0x4_0000_0000 <= s <= 0x4_0000_0000,
                0 <= p <= 0x1_0000_0000_0000_0000,
        ;
        pixel(round_signed(s * p), shift)
    }

    /// The shift of the new workspace when the motion has come to `t`.
    pub fn incoming_offset_x(&self, t: Blend) -> (r: i32)
        requires
            t.wf(),
        ensures
            r == self.incoming(t),
    {
        proof {
            crate::number::lemma_two_monotone(t.shift as nat, 63);
            lemma_two_63();
        }
        let left: u128 = power(t.shift) - t.mantissa as u128;
        self.shifted(left, t.shift, self.dir == WsDir::Left)
    }

    /// The shift of the old workspace when the motion has come to `t`.
    pub fn outgoing_offset_x(&self, t: Blend) -> (r: i32)
        requires
            t.wf(),
        ensures
            r == self.outgoing(t),
    {
        self.shifted(t.mantissa as u128, t.shift, self.dir == WsDir::Right)
    }
}

proof fn lemma_round_part(n: nat)
    requires
        n <= 0x8000_0000_0000_0000,
    ensures
        round24(n) <= 0x1_0000_0000_0000_0000,
{
    let k = bit_length(n);
    if k > 24 {
        let unit = two((k - 24) as nat);
        crate::number::lemma_two_pos((k - 24) as nat);
        crate::number::lemma_bit_length(n);
        crate::number::lemma_two_monotone((k - 24) as nat, (k - 1) as nat);
        lemma_round_even_bound(n, unit, unit);
    }
}

// ── The set of animations ────────────────────────────────────────────────────

#[derive(Debug)]
pub struct AnimSet {
    pub panes: HashMap<PaneId, PaneAnim>,
    pub ws_transition: Option<WsTransition>,
    pub screen_w: u32,
    pub screen_h: u32,
}

/// What an [`AnimSet`] holds.
pub struct AnimView {
    pub panes: Map<PaneId, PaneAnim>,
    pub ws_transition: Option<WsTransition>,
    pub screen_w: u32,
    pub screen_h: u32,
}

impl View for AnimSet {
    type V = AnimView;

    open spec fn view(&self) -> AnimView {
        AnimView {
            panes: self.panes@,
            ws_transition: self.ws_transition,
            screen_w: self.screen_w,
            screen_h: self.screen_h,
        }
    }
}

impl Default for AnimSet {
    fn default() -> (r: Self)
        ensures
            r@ == (AnimView {
                panes: Map::empty(),
                ws_transition: None,
                screen_w: 0,
                screen_h: 0,
            }),
    {
        AnimSet { panes: HashMap::new(), ws_transition: None, screen_w: 0, screen_h: 0 }
    }
}

impl AnimView {
    /// The motion of a pane in or out over the nearest edge.
    pub open spec fn slide(self, kind: AnimKind, rect: Rect, now_ms: u64) -> PaneAnim {
        PaneAnim {
            kind,
            start_ms: now_ms,
            duration_ms: if kind == AnimKind::Close {
                150
            } else {
                200
            },
            target_rect: rect,
            from_rect: beyond(
                rect,
                edge_near(rect, self.screen_w, self.screen_h),
                self.screen_w,
                self.screen_h,
            ),
        }
    }

    /// The set once the pane `id` moves from `from` to `to`. A pane that opens
    /// or closes goes on doing so.
    pub open spec fn morphed(self, id: PaneId, from: Rect, to: Rect, now_ms: u64) -> AnimView {
        if self.panes.contains_key(id) && self.panes[id].kind != AnimKind::LayoutMorph {
            self
        } else {
            AnimView {
                panes: self.panes.insert(
                    id,
                    PaneAnim {
                        kind: AnimKind::LayoutMorph,
                        start_ms: now_ms,
                        duration_ms: 200,
                        target_rect: to,
                        from_rect: signed(from),
                    },
                ),
                ..self
            }
        }
    }

    /// The set without the motions that are over.
    pub open spec fn ticked(self, now_ms: u64) -> AnimView {
        AnimView {
            panes: Map::new(
                |id: PaneId| self.panes.contains_key(id) && !self.panes[id].done(now_ms),
                |id: PaneId| self.panes[id],
            ),
            ws_transition: match self.ws_transition {
                Some(t) => if t.done(now_ms) {
                    None
                } else {
                    Some(t)
                },
                None => None,
            },
            ..self
        }
    }

    pub open spec fn running(self) -> bool {
        !self.panes.is_empty() || self.ws_transition is Some
    }
}

fn drop_anim(m: &mut HashMap<PaneId, PaneAnim>, id: PaneId)
    ensures
        final(m)@ == old(m)@.remove(id),
{
    m.remove(&id);
}

impl AnimSet {
    pub fn resize(&mut self, screen_w: u32, screen_h: u32)
        ensures
            final(self)@ == (AnimView { screen_w, screen_h, ..old(self)@ }),
    {
        self.screen_w = screen_w;
        self.screen_h = screen_h;
    }

    fn slide(&mut self, id: PaneId, kind: AnimKind, rect: Rect, now_ms: u64)
        ensures
            final(self)@ == (AnimView {
                panes: old(self)@.panes.insert(id, old(self)@.slide(kind, rect, now_ms)),
                ..old(self)@
            }),
    {
        let edge = nearest_edge(rect, self.screen_w, self.screen_h);
        let from_rect = edge_rect_signed(rect, edge, self.screen_w, self.screen_h);
        let duration_ms: u64 = if kind == AnimKind::Close {
            150
        } else {
            200
        };
        self.panes.insert(
            id,
            PaneAnim { kind, start_ms: now_ms, duration_ms, target_rect: rect, from_rect },
        );
    }

    /// Lets the pane `id` slide in to `rect`.
    pub fn open(&mut self, id: PaneId, rect: Rect, now_ms: u64)
        ensures
            final(self)@ == (AnimView {
                panes: old(self)@.panes.insert(id, old(self)@.slide(AnimKind::Open, rect, now_ms)),
                ..old(self)@
            }),
    {
        self.slide(id, AnimKind::Open, rect, now_ms);
    }

    /// Lets the pane `id` slide out from `rect`.
    pub fn close(&mut self, id: PaneId, rect: Rect, now_ms: u64)
        ensures
            final(self)@ == (AnimView {
                panes: old(self)@.panes.insert(
                    id,
                    old(self)@.slide(AnimKind::Close, rect, now_ms),
                ),
                ..old(self)@
            }),
    {
        self.slide(id, AnimKind::Close, rect, now_ms);
    }

    /// Lets the pane `id` move from `old_rect` to `new_rect`.
    pub fn layout_morph(&mut self, id: PaneId, old_rect: Rect, new_rect: Rect, now_ms: u64)
        ensures
            final(self)@ == old(self)@.morphed(id, old_rect, new_rect, now_ms),
    {
        if let Some(existing) = self.panes.get(&id) {
            if existing.kind != AnimKind::LayoutMorph {
                return;
            }
        }
        self.panes.insert(
            id,
            PaneAnim {
                kind: AnimKind::LayoutMorph,
                start_ms: now_ms,
                duration_ms: 200,
                target_rect: new_rect,
                from_rect: to_signed(old_rect),
            },
        );
    }

    /// Lets the workspaces slide past each other.
    pub fn workspace_transition(&mut self, dir: WsDir, now_ms: u64)
        ensures
            final(self)@ == (AnimView {
                ws_transition: Some(
                    WsTransition {
                        dir,
                        start_ms: now_ms,
                        duration_ms: 250,
                        screen_w: old(self)@.screen_w,
                    },
                ),
                ..old(self)@
            }),
    {
        self.ws_transition = Some(
            WsTransition { dir, start_ms: now_ms, duration_ms: 250, screen_w: self.screen_w },
        );
    }

    /// How far the motion of the workspaces has come.
    pub fn ws_motion(&self, now_ms: u64) -> (r: Option<Motion>)
        ensures
            r == match self@.ws_transition {
                Some(t) => Some(
                    Motion {
                        easing: Easing::OutQuint,
                        elapsed_ms: elapsed(t.start_ms, now_ms) as u64,
                        duration_ms: t.duration_ms,
                    },
                ),
                None => None,
            },
    {
        match self.ws_transition {
            Some(t) => Some(
                Motion {
                    easing: Easing::OutQuint,
                    elapsed_ms: now_ms.saturating_sub(t.start_ms),
                    duration_ms: t.duration_ms,
                },
            ),
            None => None,
        }
    }

    /// The shifts of the new and the old workspace when their motion has come
    /// to `t`; none when they do not move.
    pub fn ws_offsets(&self, t: Blend) -> (r: (i32, i32))
        requires
            t.wf(),
        ensures
            r == match self@.ws_transition {
                Some(w) => (w.incoming(t), w.outgoing(t)),
                None => (0i32, 0i32),
            },
    {
        match &self.ws_transition {
            Some(w) => (w.incoming_offset_x(t), w.outgoing_offset_x(t)),
            None => (0, 0),
        }
    }

    /// Whether the workspaces are moving.
    pub fn ws_transitioning(&self) -> (r: bool)
        ensures
            r == (self@.ws_transition is Some),
    {
        self.ws_transition.is_some()
    }

    /// Ends the motions that are over; whether any go on.
    pub fn tick(&mut self, now_ms: u64) -> (r: bool)
        ensures
            final(self)@ == old(self)@.ticked(now_ms),
            r == final(self)@.running(),
    {
        let ghost before = self@;
        let over = self.ids_where(Some(now_ms));
        let mut i: usize = 0;
        assert(over@.take(0).to_set() =~= Set::empty());
        assert(self@.panes =~= before.panes.remove_keys(over@.take(0).to_set()));
        while i < over.len()
            invariant
                i <= over@.len(),
                self@ == (AnimView { panes: self@.panes, ..before }),
                self@.panes == before.panes.remove_keys(over@.take(i as int).to_set()),
            decreases over@.len() - i,
        {
            let ghost was = over@.take(i as int);
            drop_anim(&mut self.panes, over[i]);
            i += 1;
            proof {
                let now = over@.take(i as int);
                assert(now =~= was.push(over@[i - 1]));
                assert forall|x: PaneId| now.to_set().contains(x) <==> was.to_set().contains(x) || x
                    == over@[i - 1] by {
                    if was.contains(x) {
                        let m = choose|m: int| 0 <= m < was.len() && was[m] == x;
                        assert(now[m] == x);
                    }
                    if x == over@[i - 1] {
                        assert(now[i - 1] == x);
                    }
                    if now.contains(x) && x != over@[i - 1] {
                        let m = choose|m: int| 0 <= m < now.len() && now[m] == x;
                        assert(was[m] == x);
                    }
                }
                assert(self@.panes =~= before.panes.remove_keys(now.to_set()));
            }
        }
        assert(over@.take(i as int) =~= over@);
        if let Some(t) = self.ws_transition {
            if t.is_done(now_ms) {
                self.ws_transition = None;
            }
        }
        proof {
            assert(self@.panes =~= before.ticked(now_ms).panes);
        }
        self.any_animating()
    }

    /// The panes whose motion is over at a time, or without a time those that
    /// move between layouts, in no particular order.
    fn ids_where(&self, over_at: Option<u64>) -> (r: Vec<PaneId>)
        ensures
            r@.to_set() == Set::new(
                |id: PaneId| self@.panes.contains_key(id) && picked(self@.panes[id], over_at),
            ),
            r@.no_duplicates(),
    {
        let ghost want = Set::new(
            |id: PaneId| self@.panes.contains_key(id) && picked(self@.panes[id], over_at),
        );
        let mut r: Vec<PaneId> = Vec::new();
        for id in it: self.panes.keys()
            invariant
                want == Set::new(
                    |id: PaneId| self@.panes.contains_key(id) && picked(self@.panes[id], over_at),
                ),
                it.seq().unref().to_set() == self.panes@.dom(),
                it.seq().no_duplicates(),
                r@.no_duplicates(),
                forall|m: int| 0 <= m < r@.len() ==> want.contains(#[trigger] r@[m]),
                forall|k: int|
                    it.index() <= k < it.seq().len() ==> !r@.contains(*#[trigger] it.seq()[k]),
                forall|k: int|
                    0 <= k < it.index() && want.contains(*it.seq()[k]) ==> r@.contains(
                        *#[trigger] it.seq()[k],
                    ),
        {
            let ghost before = r@;
            proof {
                let n = it.index() as int;
                assert(it.seq().unref()[n] == *id);
                assert(it.seq().unref().to_set().contains(*id));
                assert(!before.contains(*it.seq()[n]));
            }
            match self.panes.get(id) {
                Some(p) => {
                    let pick = match over_at {
                        Some(now_ms) => p.is_done(now_ms),
                        None => p.kind == AnimKind::LayoutMorph,
                    };
                    if pick {
                        r.push(*id);
                        assert(r@.last() == *id);
                        assert forall|x: PaneId| r@.contains(x) <==> before.contains(x) || x
                            == *id by {
                            if before.contains(x) {
                                let m = choose|m: int| 0 <= m < before.len() && before[m] == x;
                                assert(r@[m] == x);
                            }
                            if r@.contains(x) && x != *id {
                                let m = choose|m: int| 0 <= m < r@.len() && r@[m] == x;
                                assert(before[m] == x);
                            }
                        }
                    }
                },
                None => {},
            }
        }
        assert forall|x: PaneId| want.contains(x) implies r@.contains(x) by {
            assert(self.panes@.dom().contains(x));
        }
        assert forall|x: PaneId| r@.contains(x) implies want.contains(x) by {
            let m = choose|m: int| 0 <= m < r@.len() && r@[m] == x;
            assert(want.contains(r@[m]));
        }
        assert(r@.to_set() =~= want);
        r
    }

    /// How far the motion of the pane `id` has come.
    pub fn motion(&self, id: PaneId, now_ms: u64) -> (r: Option<Motion>)
        ensures
            r == if self@.panes.contains_key(id) {
                let a = self@.panes[id];
                Some(
                    Motion {
                        easing: a.curve(),
                        elapsed_ms: elapsed(a.start_ms, now_ms) as u64,
                        duration_ms: a.duration_ms,
                    },
                )
            } else {
                None
            },
    {
        match self.panes.get(&id) {
            Some(a) => Some(
                Motion {
                    easing: match a.kind {
                        AnimKind::Open => Easing::OutCubic,
                        AnimKind::Close => Easing::InCubic,
                        AnimKind::LayoutMorph => Easing::OutCubic,
                    },
                    elapsed_ms: now_ms.saturating_sub(a.start_ms),
                    duration_ms: a.duration_ms,
                },
            ),
            None => None,
        }
    }

    /// Where the pane `id` is when its motion has come to `t`; `twm_rect` when
    /// it does not move.
    pub fn get_rect(&self, id: PaneId, twm_rect: Rect, t: Blend) -> (r: Rect)
        requires
            t.wf(),
        ensures
            r == if self@.panes.contains_key(id) {
                self@.panes[id].rect_at(t)
            } else {
                twm_rect
            },
    {
        match self.panes.get(&id) {
            Some(a) => a.current_rect(t),
            None => twm_rect,
        }
    }

    /// Whether the pane `id` moves.
    pub fn is_animating(&self, id: PaneId) -> (r: bool)
        ensures
            r == self@.panes.contains_key(id),
    {
        self.panes.contains_key(&id)
    }

    /// Whether anything moves.
    pub fn any_animating(&self) -> (r: bool)
        ensures
            r == self@.running(),
    {
        !self.panes.is_empty() || self.ws_transition.is_some()
    }

    /// Whether the pane `id` slides out.
    pub fn is_closing(&self, id: PaneId) -> (r: bool)
        ensures
            r == (self@.panes.contains_key(id) && self@.panes[id].kind == AnimKind::Close),
    {
        match self.panes.get(&id) {
            Some(a) => a.kind == AnimKind::Close,
            None => false,
        }
    }

    /// The panes that move between layouts, each once, in no particular order.
    pub fn morphing_panes(&self) -> (r: Vec<PaneId>)
        ensures
            r@.no_duplicates(),
            r@.to_set() == Set::new(
                |id: PaneId|
                    self@.panes.contains_key(id) && self@.panes[id].kind == AnimKind::LayoutMorph,
            ),
    {
        let r = self.ids_where(None);
        assert(r@.to_set() =~= Set::new(
            |id: PaneId|
                self@.panes.contains_key(id) && self@.panes[id].kind == AnimKind::LayoutMorph,
        ));
        r
    }
}

/// Whether the motion of a pane is over at a time, or without a time whether
/// the pane moves between layouts.
pub open spec fn picked(a: PaneAnim, over_at: Option<u64>) -> bool {
    match over_at {
        Some(now_ms) => a.done(now_ms),
        None => a.kind == AnimKind::LayoutMorph,
    }
}

// ── Changes of layout ────────────────────────────────────────────────────────

/// The last rectangle of the pane `id` in `rects`.
pub open spec fn rect_of(rects: Seq<(PaneId, Rect)>, id: PaneId) -> Option<Rect>
    decreases rects.len(),
{
    if rects.len() == 0 {
        None
    } else if rects.last().0 == id {
        Some(rects.last().1)
    } else {
        rect_of(rects.drop_last(), id)
    }
}

/// The set once the first `n` panes of `after` have started from where they
/// were in `before`, as far as that is elsewhere.
pub open spec fn all_morphed(
    a: AnimView,
    before: Seq<(PaneId, Rect)>,
    after: Seq<(PaneId, Rect)>,
    n: int,
    now_ms: u64,
) -> AnimView
    decreases n,
{
    if n <= 0 {
        a
    } else {
        let m = all_morphed(a, before, after, n - 1, now_ms);
        let (id, to) = after[n - 1];
        match rect_of(before, id) {
            Some(from) => if from != to {
                m.morphed(id, from, to, now_ms)
            } else {
                m
            },
            None => m,
        }
    }
}

fn find_rect(rects: &[(PaneId, Rect)], id: PaneId) -> (r: Option<Rect>)
    ensures
        r == rect_of(rects@, id),
{
    let mut n: usize = rects.len();
    assert(rects@.take(n as int) =~= rects@);
    while n > 0
        invariant
            n <= rects.len(),
            rect_of(rects@, id) == rect_of(rects@.take(n as int), id),
        decreases n,
    {
        assert(rects@.take(n as int).drop_last() =~= rects@.take(n - 1));
        if rects[n - 1].0 == id {
            return Some(rects[n - 1].1);
        }
        n -= 1;
    }
    None
}

/// Starts a motion for every pane that a change of layout has moved.
pub fn diff_and_morph(
    anim: &mut AnimSet,
    old_rects: &[(PaneId, Rect)],
    new_rects: &[(PaneId, Rect)],
    now_ms: u64,
)
    ensures
        final(anim)@ == all_morphed(
            old(anim)@,
            old_rects@,
            new_rects@,
            new_rects@.len() as int,
            now_ms,
        ),
{
    let mut i: usize = 0;
    while i < new_rects.len()
        invariant
            i <= new_rects@.len(),
            anim@ == all_morphed(old(anim)@, old_rects@, new_rects@, i as int, now_ms),
        decreases new_rects@.len() - i,
    {
        let (id, to): (PaneId, Rect) = new_rects[i];
        if let Some(from) = find_rect(old_rects, id) {
            if from != to {
                anim.layout_morph(id, from, to, now_ms);
            }
        }
        i += 1;
    }
}

// ── Laws ─────────────────────────────────────────────────────────────────────

proof fn lemma_bit_length_shift(n: nat, s: nat)
    requires
        n > 0,
    ensures
        bit_length(n * two(s)) == bit_length(n) + s,
    decreases s,
{
    if s == 0 {
        assert(n * two(0) == n) by (nonlinear_arith)
            requires
                two(0) == 1,
        ;
    } else {
        lemma_bit_length_shift(n, (s - 1) as nat);
        let m = n * two((s - 1) as nat);
        assert(n * two(s) == 2 * m) by (nonlinear_arith)
            requires
                two(s) == 2 * two((s - 1) as nat),
                m == n * two((s - 1) as nat),
        ;
        crate::number::lemma_two_pos((s - 1) as nat);
        assert(m > 0) by (nonlinear_arith)
            requires
                m == n * two((s - 1) as nat),
                n > 0,
                two((s - 1) as nat) > 0,
        ;
        assert((2 * m) / 2 == m);
    }
}

/// A number of 24 bits, shifted, needs no rounding.
pub proof fn lemma_exact(n: nat, s: nat)
    requires
        n < 0x100_0000,
    ensures
        round24(n * two(s)) == n * two(s),
{
    if n == 0 {
        assert(0 * two(s) == 0) by (nonlinear_arith);
    } else {
        let x = n * two(s);
        lemma_bit_length_shift(n, s);
        crate::number::lemma_bit_length(n);
        assert(two(24) == 0x100_0000) by {
            reveal_with_fuel(two, 13);
            crate::number::lemma_two_add(12, 12);
        }
        if bit_length(n) > 24 {
            crate::number::lemma_two_monotone(24, (bit_length(n) - 1) as nat);
        }
        let k = bit_length(x);
        if k > 24 {
            let e = (k - 24) as nat;
            let unit = two(e);
            let rest = (s - e) as nat;
            crate::number::lemma_two_add(e, rest);
            crate::number::lemma_two_pos(e);
            let m = n * two(rest);
            assert(x == unit * m) by (nonlinear_arith)
                requires
                    x == n * two(s),
                    two(s) == unit * two(rest),
                    m == n * two(rest),
            ;
            assert(m * unit == unit * m) by (nonlinear_arith);
            vstd::arithmetic::div_mod::lemma_fundamental_div_mod_converse(
                x as int,
                unit as int,
                m as int,
                0,
            );
            assert(round_even(x, unit) == m);
        }
    }
}

pub proof fn lemma_exact_signed(n: int, s: nat)
    requires
        -0x100_0000 < n < 0x100_0000,
    ensures
        signed24(n * two(s)) == n * two(s),
        to_pixel(n * two(s), s) == n,
{
    crate::number::lemma_two_pos(s);
    let u = two(s);
    lemma_exact(size_of(n), s);
    assert(n < 0 ==> n * u < 0 && (-n) * u == -(n * u)) by (nonlinear_arith)
        requires
            u > 0,
    ;
    assert(n >= 0 ==> n * u >= 0) by (nonlinear_arith)
        requires
            u > 0,
    ;
    let size = size_of(n) as int;
    assert(2 * (size * u) + u == (2 * u) * size + u) by (nonlinear_arith);
    assert(size * (2 * u) == (2 * u) * size) by (nonlinear_arith);
    vstd::arithmetic::div_mod::lemma_fundamental_div_mod_converse(
        2 * (size * u) + u,
        2 * u as int,
        size,
        u as int,
    );
}

/// A motion starts where it starts and, where the way is short enough for single
/// precision, ends where it ends. A way between two places on the screen is.
pub proof fn law_motion_ends(a: i32, b: i32, t: Blend)
    requires
        -0x100_0000 < a < 0x100_0000,
        t.wf(),
    ensures
        t.mantissa == 0 ==> lerp(a, b, t) == a,
        t.mantissa == two(t.shift as nat) && -0x100_0000 < b < 0x100_0000 && -0x100_0000 < b - a
            < 0x100_0000 ==> lerp(a, b, t) == b,
{
    let s = t.shift as nat;
    let u = two(s);
    assert(two(0) == 1);
    lemma_exact_signed(a as int, 0);
    assert(a * 1 == a);
    if t.mantissa == 0 {
        let way = signed24(signed24(b as int) - a);
        assert(way * 0 == 0);
        lemma_exact_signed(0, 0);
        lemma_exact_signed(a as int, s);
        assert(signed24(0) == 0) by {
            assert(0 * two(0) == 0);
        }
    }
    if t.mantissa == u && -0x100_0000 < b < 0x100_0000 && -0x100_0000 < b - a < 0x100_0000 {
        let way = b - a;
        lemma_exact_signed(b as int, 0);
        lemma_exact_signed(way, 0);
        assert(b * 1 == b && way * 1 == way);
        lemma_exact_signed(way, s);
        assert(a * u + way * u == b * u) by (nonlinear_arith)
            requires
                way == b - a,
        ;
        lemma_exact_signed(b as int, s);
    }
}

/// A change of layout starts and ends at the rectangles that it leads between.
pub proof fn law_morph_ends(from: Rect, to: Rect, start_ms: u64, duration_ms: u64, t: Blend)
    requires
        from.x < 0x100_0000 && from.y < 0x100_0000,
        to.x < 0x100_0000 && to.y < 0x100_0000,
        0 < from.w < 0x100_0000 && 0 < from.h < 0x100_0000,
        0 < to.w < 0x100_0000 && 0 < to.h < 0x100_0000,
        t.wf(),
    ensures
        ({
            let m = PaneAnim {
                kind: AnimKind::LayoutMorph,
                start_ms,
                duration_ms,
                target_rect: to,
                from_rect: signed(from),
            };
            &&& t.mantissa == 0 ==> m.rect_at(t) == from
            &&& t.mantissa == two(t.shift as nat) ==> m.rect_at(t) == to
        }),
{
    law_motion_ends(from.x as i32, to.x as i32, t);
    law_motion_ends(from.y as i32, to.y as i32, t);
    law_motion_ends(from.w as i32, to.w as i32, t);
    law_motion_ends(from.h as i32, to.h as i32, t);
}

/// A change of layout leaves a pane alone that opens or closes.
pub proof fn law_opening_and_closing_go_on(
    a: AnimView,
    before: Seq<(PaneId, Rect)>,
    after: Seq<(PaneId, Rect)>,
    n: int,
    now_ms: u64,
    id: PaneId,
)
    requires
        a.panes.contains_key(id),
        a.panes[id].kind != AnimKind::LayoutMorph,
        0 <= n <= after.len(),
    ensures
        all_morphed(a, before, after, n, now_ms).panes.contains_key(id),
        all_morphed(a, before, after, n, now_ms).panes[id] == a.panes[id],
    decreases n,
{
    if n > 0 {
        law_opening_and_closing_go_on(a, before, after, n - 1, now_ms, id);
    }
}

/// A change of layout starts a motion for every pane that it moves, unless the
/// pane opens or closes, and for no other.
pub proof fn law_moved_panes_move(
    a: AnimView,
    before: Seq<(PaneId, Rect)>,
    after: Seq<(PaneId, Rect)>,
    n: int,
    now_ms: u64,
    id: PaneId,
)
    requires
        !a.panes.contains_key(id),
        0 <= n <= after.len(),
    ensures
        all_morphed(a, before, after, n, now_ms).panes.contains_key(id) <==> exists|k: int|
            0 <= k < n && (#[trigger] after[k]).0 == id && (rect_of(before, id) matches Some(from)
                && from != after[k].1),
    decreases n,
{
    if n > 0 {
        law_moved_panes_move(a, before, after, n - 1, now_ms, id);
        let m = all_morphed(a, before, after, n - 1, now_ms);
        if after[n - 1].0 == id {
            if let Some(from) = rect_of(before, id) {
                if from != after[n - 1].1 {
                    assert(all_morphed(a, before, after, n, now_ms).panes.contains_key(id));
                }
            }
        }
    }
}

/// Ending motions twice at one time is ending them once, and after a motion's
/// duration it is over.
pub proof fn law_tick_ends_motions(a: AnimView, now_ms: u64)
    ensures
        a.ticked(now_ms).ticked(now_ms) == a.ticked(now_ms),
        forall|id: PaneId| #[trigger]
            a.ticked(now_ms).panes.contains_key(id) ==> now_ms < a.panes[id].start_ms
                + a.panes[id].duration_ms,
{
    assert(a.ticked(now_ms).ticked(now_ms).panes =~= a.ticked(now_ms).panes);
}

} // verus!
