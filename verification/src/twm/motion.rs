//! Where animations lead.

use vstd::prelude::*;

use crate::number::{
    bit_length, lemma_bit_length, lemma_two_add, lemma_two_monotone, lemma_two_pos, round_even, two,
};
use crate::single::round24;
use crate::twm::anim::{
    all_morphed, beyond, blend_of, edge_near, elapsed, law_motion_ends, lemma_exact,
    lemma_exact_signed, lerp_rect, off_middle, quotient24, rect_of, signed, signed24, to_pixel,
    AnimKind, AnimView, Blend, Easing, Edge, PaneAnim, SignedRect, WsDir, WsTransition,
};
use crate::twm::pane::PaneId;
use crate::twm::rect::Rect;

verus! {

// ── Edges ────────────────────────────────────────────────────────────────────

/// A pane that is moved out over an edge touches that edge from outside, and is as
/// large as it was and as far along the edge.
pub proof fn law_beyond_the_edge(rect: Rect, edge: Edge, screen_w: u32, screen_h: u32)
    requires
        rect.x < 0x8000_0000 && rect.y < 0x8000_0000,
        rect.w < 0x8000_0000 && rect.h < 0x8000_0000,
        screen_w < 0x8000_0000 && screen_h < 0x8000_0000,
    ensures
        ({
            let r = beyond(rect, edge, screen_w, screen_h);
            &&& r.w == rect.w && r.h == rect.h
            &&& edge == Edge::Top ==> r.y + r.h == 0 && r.x == rect.x
            &&& edge == Edge::Bottom ==> r.y == screen_h && r.x == rect.x
            &&& edge == Edge::Left ==> r.x + r.w == 0 && r.y == rect.y
            &&& edge == Edge::Right ==> r.x == screen_w && r.y == rect.y
        }),
{
    assert(rect.x as i32 == rect.x && rect.y as i32 == rect.y);
    assert(rect.w as i32 == rect.w && rect.h as i32 == rect.h);
    assert(screen_w as i32 == screen_w && screen_h as i32 == screen_h);
}

pub proof fn lemma_even_at_least(a: nat, b: nat, k: nat)
    requires
        b > 0,
        a >= b * k,
    ensures
        round_even(a, b) >= k,
{
    vstd::arithmetic::div_mod::lemma_div_is_ordered((b * k) as int, a as int, b as int);
    vstd::arithmetic::div_mod::lemma_div_multiples_vanish(k as int, b as int);
}

pub proof fn lemma_even_at_most(a: nat, b: nat, k: nat)
    requires
        b > 0,
        a <= b * k,
    ensures
        round_even(a, b) <= k,
{
    let q = a / b;
    vstd::arithmetic::div_mod::lemma_fundamental_div_mod(a as int, b as int);
    assert(q <= k) by (nonlinear_arith)
        requires
            b * q <= a,
            a <= b * k,
            b > 0,
    ;
    if q == k {
        assert(a as int % b as int == 0) by (nonlinear_arith)
            requires
                a == b * q + a % b,
                a <= b * k,
                q == k,
                0 <= a % b,
        ;
    }
}

/// Half of the length and more is half and more in single precision, and half and less
/// is half and less.
proof fn lemma_half(c: nat, len: nat)
    requires
        0 < len,
        c <= len,
    ensures
        2 * c >= len ==> quotient24(c, len) >= two(59),
        2 * c <= len ==> quotient24(c, len) <= two(59),
{
    let x = c * two(60);
    lemma_two_add(1, 59);
    assert(two(1) == 2) by {
        reveal_with_fuel(two, 2);
    }
    lemma_two_pos(59);
    lemma_two_pos(60);
    let h = two(59);
    assert(two(60) == 2 * h);
    assert(2 * c >= len ==> x >= len * h) by (nonlinear_arith)
        requires
            x == c * (2 * h),
    ;
    assert(2 * c <= len ==> x <= len * h) by (nonlinear_arith)
        requires
            x == c * (2 * h),
    ;
    assert(x <= len * two(60)) by (nonlinear_arith)
        requires
            x == c * two(60),
            c <= len,
    ;
    let q = x / len;
    let k = bit_length(q);
    lemma_bit_length(q);
    vstd::arithmetic::div_mod::lemma_div_is_ordered(
        x as int,
        (len * two(60)) as int,
        len as int,
    );
    vstd::arithmetic::div_mod::lemma_div_multiples_vanish(two(60) as int, len as int);
    assert(q <= two(60));
    if k > 61 {
        lemma_two_monotone(61, (k - 1) as nat);
        lemma_two_add(1, 60);
    }
    if 2 * c >= len {
        vstd::arithmetic::div_mod::lemma_div_is_ordered((len * h) as int, x as int, len as int);
        vstd::arithmetic::div_mod::lemma_div_multiples_vanish(h as int, len as int);
        assert(q >= h);
        if k < 60 {
            lemma_two_monotone(k, 59);
        }
    }
    if k <= 24 {
        if 2 * c <= len {
            lemma_even_at_most(x, len, h);
        }
    } else {
        let e = (k - 24) as nat;
        let unit = two(e);
        lemma_two_pos(e);
        let rest = (59 - e) as nat;
        lemma_two_add(e, rest);
        let m = two(rest);
        assert(h == unit * m);
        assert(len * unit > 0) by (nonlinear_arith)
            requires
                len > 0,
                unit > 0,
        ;
        assert((len * unit) * m == len * h) by (nonlinear_arith)
            requires
                h == unit * m,
        ;
        if 2 * c >= len {
            lemma_even_at_least(x, len * unit, m);
        }
        if 2 * c <= len {
            lemma_even_at_most(x, len * unit, m);
        }
        let r = round_even(x, len * unit);
        assert(r >= m ==> r * unit >= h) by (nonlinear_arith)
            requires
                h == unit * m,
        ;
        assert(r <= m ==> r * unit <= h) by (nonlinear_arith)
            requires
                h == unit * m,
        ;
    }
}

/// More than half of the length is more than half in single precision, and less than half
/// is less.
proof fn lemma_not_half(c: nat, len: nat)
    requires
        0 < len < 0x100_0000,
        c <= len,
    ensures
        2 * c > len ==> quotient24(c, len) > two(59),
        2 * c < len ==> quotient24(c, len) < two(59),
{
    let x = c * two(60);
    lemma_two_add(1, 59);
    assert(two(1) == 2) by {
        reveal_with_fuel(two, 2);
    }
    lemma_two_pos(59);
    let h = two(59);
    assert(two(60) == 2 * h);
    assert(two(24) == 0x100_0000 && two(23) == 0x80_0000) by {
        reveal_with_fuel(two, 13);
        lemma_two_add(12, 12);
        lemma_two_add(11, 12);
    }
    assert(2 * c > len ==> x >= len * h + h) by (nonlinear_arith)
        requires
            x == c * (2 * h),
    ;
    assert(2 * c < len ==> x + h <= len * h) by (nonlinear_arith)
        requires
            x == c * (2 * h),
    ;
    assert(x <= len * two(60)) by (nonlinear_arith)
        requires
            x == c * two(60),
            c <= len,
    ;
    let q = x / len;
    let k = bit_length(q);
    lemma_bit_length(q);
    vstd::arithmetic::div_mod::lemma_div_is_ordered(
        x as int,
        (len * two(60)) as int,
        len as int,
    );
    vstd::arithmetic::div_mod::lemma_div_multiples_vanish(two(60) as int, len as int);
    assert(q <= two(60));
    if k > 61 {
        lemma_two_monotone(61, (k - 1) as nat);
        lemma_two_add(1, 60);
    }
    if 2 * c > len {
        vstd::arithmetic::div_mod::lemma_div_is_ordered((len * h) as int, x as int, len as int);
        vstd::arithmetic::div_mod::lemma_div_multiples_vanish(h as int, len as int);
        if k < 60 {
            lemma_two_monotone(k, 59);
        }
    }
    if 2 * c < len {
        vstd::arithmetic::div_mod::lemma_fundamental_div_mod(x as int, len as int);
        assert(q < h) by (nonlinear_arith)
            requires
                len * q <= x,
                x + h <= len * h,
                h > 0,
                len > 0,
        ;
        if k > 59 {
            lemma_two_monotone(59, (k - 1) as nat);
        }
    }
    lemma_two_monotone(24, 59);
    if k <= 24 {
        if 2 * c < len {
            assert(x <= len * ((h - 1) as nat)) by (nonlinear_arith)
                requires
                    x + h <= len * h,
                    h >= len,
            ;
            lemma_even_at_most(x, len, (h - 1) as nat);
        }
    } else {
        let e = (k - 24) as nat;
        let unit = two(e);
        lemma_two_pos(e);
        let rest = (59 - e) as nat;
        lemma_two_add(e, rest);
        let m = two(rest);
        lemma_two_pos(rest);
        let b = len * unit;
        assert(b > 0) by (nonlinear_arith)
            requires
                len > 0,
                unit > 0,
                b == len * unit,
        ;
        assert(b * m == len * h) by (nonlinear_arith)
            requires
                h == unit * m,
                b == len * unit,
        ;
        let r = round_even(x, b);
        if 2 * c > len {
            if k == 60 {
                assert(m == two(23));
                // More than half a unit beyond the middle.
                assert(2 * x > 2 * (b * m) + b) by (nonlinear_arith)
                    requires
                        x >= b * m + h,
                        h == unit * 0x80_0000,
                        b == len * unit,
                        len < 0x100_0000,
                        unit > 0,
                ;
                lemma_even_above(x, b, m);
            } else {
                assert(k == 61);
                lemma_two_add(1, 59);
                assert(q >= two(60));
                assert(x >= len * two(60)) by {
                    vstd::arithmetic::div_mod::lemma_fundamental_div_mod(x as int, len as int);
                    assert(len * q >= len * two(60)) by (nonlinear_arith)
                        requires
                            q >= two(60),
                    ;
                }
                assert(x >= b * (2 * m)) by (nonlinear_arith)
                    requires
                        x >= len * (2 * h),
                        b * m == len * h,
                ;
                lemma_even_at_least(x, b, 2 * m);
            }
            assert(r >= m + 1);
            assert(r * unit >= (m + 1) * unit) by (nonlinear_arith)
                requires
                    r >= m + 1,
            ;
            assert((m + 1) * unit == unit * m + unit) by (nonlinear_arith);
        }
        if 2 * c < len {
            lemma_two_monotone(24, rest);
            assert(b <= h) by (nonlinear_arith)
                requires
                    b == len * unit,
                    h == unit * m,
                    len <= m,
            ;
            assert(x <= b * ((m - 1) as nat)) by (nonlinear_arith)
                requires
                    x + h <= b * m,
                    b <= h,
                    m > 0,
            ;
            lemma_even_at_most(x, b, (m - 1) as nat);
            assert(r * unit <= (m - 1) * unit) by (nonlinear_arith)
                requires
                    r <= m - 1,
            ;
            assert((m - 1) * unit == unit * m - unit) by (nonlinear_arith);
        }
    }
}

proof fn lemma_even_above(a: nat, b: nat, k: nat)
    requires
        b > 0,
        2 * a > 2 * (b * k) + b,
    ensures
        round_even(a, b) >= k + 1,
{
    lemma_even_at_least(a, b, k);
    let q = a / b;
    vstd::arithmetic::div_mod::lemma_fundamental_div_mod(a as int, b as int);
    vstd::arithmetic::div_mod::lemma_div_is_ordered((b * k) as int, a as int, b as int);
    vstd::arithmetic::div_mod::lemma_div_multiples_vanish(k as int, b as int);
    if q == k {
        assert(2 * (a % b) > b);
    }
}

proof fn lemma_sign(n: int)
    ensures
        n == 0 ==> signed24(n) == 0,
        n > 0 ==> signed24(n) > 0,
        n < 0 ==> signed24(n) < 0,
{
    assert(round24(0) == 0) by {
        lemma_exact(0, 0);
        assert(0 * two(0) == 0);
    }
    if n != 0 {
        let m = if n < 0 {
            (-n) as nat
        } else {
            n as nat
        };
        let k = bit_length(m);
        if k > 24 {
            let unit = two((k - 24) as nat);
            lemma_two_pos((k - 24) as nat);
            lemma_bit_length(m);
            lemma_two_monotone((k - 24) as nat, (k - 1) as nat);
            lemma_even_at_least(m, unit, 1);
            let r = round_even(m, unit);
            assert(r * unit > 0) by (nonlinear_arith)
                requires
                    r >= 1,
                    unit > 0,
            ;
        }
    }
}

proof fn lemma_off(c: nat, len: u32)
    requires
        0 < len < 0x100_0000,
        c <= len,
    ensures
        2 * c > len <==> off_middle(c, len) > 0,
        2 * c < len <==> off_middle(c, len) < 0,
{
    lemma_exact(c, 0);
    lemma_exact(len as nat, 0);
    assert(two(0) == 1);
    assert(c * 1 == c && len as nat * 1 == len);
    lemma_half(c, len as nat);
    lemma_not_half(c, len as nat);
    lemma_sign(quotient24(c, len as nat) - two(59));
}

/// A pane comes from the side of the screen on which its middle is: from the left only
/// where that is left of the middle of the screen, and so on. One that is half way across
/// comes from above or from below, one that is half way down from the side, and one in the
/// very middle from below.
pub proof fn law_nearest_edge(rect: Rect, screen_w: u32, screen_h: u32)
    requires
        0 < screen_w < 0x100_0000,
        0 < screen_h < 0x100_0000,
        rect.x + rect.w <= screen_w,
        rect.y + rect.h <= screen_h,
    ensures
        ({
            let cx = rect.x + rect.w / 2;
            let cy = rect.y + rect.h / 2;
            let e = edge_near(rect, screen_w, screen_h);
            let middle = 2 * cx == screen_w && 2 * cy == screen_h;
            &&& e == Edge::Left ==> 2 * cx < screen_w
            &&& e == Edge::Right ==> 2 * cx > screen_w
            &&& e == Edge::Top ==> 2 * cy < screen_h
            &&& e == Edge::Bottom ==> 2 * cy > screen_h || middle
            &&& 2 * cx == screen_w ==> e == Edge::Top || e == Edge::Bottom
            &&& 2 * cy == screen_h && !middle ==> e == Edge::Left || e == Edge::Right
            &&& middle ==> e == Edge::Bottom
        }),
{
    let cx = (rect.x + rect.w / 2) as nat;
    let cy = (rect.y + rect.h / 2) as nat;
    lemma_off(cx, screen_w);
    lemma_off(cy, screen_h);
}

// ── Motions ──────────────────────────────────────────────────────────────────

proof fn lemma_cast(n: i32)
    ensures
        (n as u32) as i32 == n,
{
    assert((n as u32) as i32 == n) by (bit_vector);
}

spec fn small(r: SignedRect) -> bool {
    &&& -0x80_0000 < r.x < 0x80_0000 && -0x80_0000 < r.y < 0x80_0000
    &&& 0 < r.w < 0x80_0000 && 0 < r.h < 0x80_0000
}

proof fn lemma_way(a: SignedRect, b: SignedRect, t: Blend)
    requires
        t.wf(),
        small(a),
        small(b),
    ensures
        ({
            let r = lerp_rect(a, b, t);
            &&& t.mantissa == 0 ==> r.x == a.x as u32 && r.y == a.y as u32 && r.w == a.w && r.h
                == a.h
            &&& t.mantissa == two(t.shift as nat) ==> r.x == b.x as u32 && r.y == b.y as u32 && r.w
                == b.w && r.h == b.h
        }),
{
    law_motion_ends(a.x, b.x, t);
    law_motion_ends(a.y, b.y, t);
    law_motion_ends(a.w, b.w, t);
    law_motion_ends(a.h, b.h, t);
}

/// A pane that opens ends at its place; one that closes starts there. At the other end
/// it is off the screen.
#[verifier::spinoff_prover]
pub proof fn law_slides_in_and_out(a: PaneAnim, t: Blend)
    requires
        t.wf(),
        a.target_rect.x < 0x80_0000 && a.target_rect.y < 0x80_0000,
        0 < a.target_rect.w < 0x80_0000 && 0 < a.target_rect.h < 0x80_0000,
        -0x80_0000 < a.from_rect.x < 0x80_0000 && -0x80_0000 < a.from_rect.y < 0x80_0000,
        0 < a.from_rect.w < 0x80_0000 && 0 < a.from_rect.h < 0x80_0000,
    ensures
        ({
            let r = a.rect_at(t);
            let start = t.mantissa == 0;
            let end = t.mantissa == two(t.shift as nat);
            let closes = a.kind == AnimKind::Close;
            &&& (!closes && end) || (closes && start) ==> r == a.target_rect
            &&& (!closes && start) || (closes && end) ==> r.x as i32 == a.from_rect.x && r.y as i32
                == a.from_rect.y && r.w == a.from_rect.w && r.h == a.from_rect.h
        }),
{
    let f = a.from_rect;
    let g = signed(a.target_rect);
    assert(small(f));
    assert(small(g));
    lemma_way(f, g, t);
    lemma_way(g, f, t);
    lemma_cast(f.x);
    lemma_cast(f.y);
}

/// The motion of a pane in or out is between its place and the nearest edge, and begins
/// now; to come in takes longer.
pub proof fn law_slides_begin_now(a: AnimView, kind: AnimKind, rect: Rect, now_ms: u64)
    ensures
        ({
            let s = a.slide(kind, rect, now_ms);
            &&& s.kind == kind && s.start_ms == now_ms && s.target_rect == rect
            &&& s.from_rect == beyond(
                rect,
                edge_near(rect, a.screen_w, a.screen_h),
                a.screen_w,
                a.screen_h,
            )
            &&& kind == AnimKind::Close ==> s.duration_ms == 150
            &&& kind == AnimKind::Open ==> s.duration_ms == 200
        }),
{
}

proof fn lemma_scaled(w: int, s: nat)
    requires
        0 <= w < 0x100_0000,
    ensures
        to_pixel(signed24(w * two(s)), s) == w,
        to_pixel(signed24(-w * two(s)), s) == -w,
{
    lemma_exact_signed(w, s);
    lemma_exact_signed(-w, s);
}

/// While the view goes to the right, the new workspace comes in from the right end of the
/// screen and the old one goes out at its left end; to the left the other way round. The
/// new one ends where the old one began.
pub proof fn law_workspaces_pass_each_other(w: WsTransition, shift: u32)
    requires
        w.screen_w < 0x100_0000,
        shift <= 24,
    ensures
        ({
            let start = Blend { mantissa: 0, shift };
            let end = Blend { mantissa: two(shift as nat) as u32, shift };
            &&& w.dir == WsDir::Right ==> w.incoming(start) == w.screen_w && w.outgoing(end)
                == -w.screen_w
            &&& w.dir == WsDir::Left ==> w.incoming(start) == -w.screen_w && w.outgoing(end)
                == w.screen_w
            &&& w.incoming(end) == 0
            &&& w.outgoing(start) == 0
        }),
{
    let s = shift as nat;
    let n = w.screen_w as int;
    lemma_two_pos(s);
    lemma_two_monotone(s, 24);
    assert(two(24) == 0x100_0000) by {
        reveal_with_fuel(two, 13);
        lemma_two_add(12, 12);
    }
    assert(w.screen_w as i32 == n);
    lemma_exact_signed(n, 0);
    assert(two(0) == 1);
    assert(n * 1 == n);
    assert(signed24(n) == n);
    lemma_exact(1, s);
    assert(1 * two(s) == two(s));
    assert(round24(two(s)) == two(s));
    lemma_exact(0, 0);
    assert(0 * 1 == 0);
    assert(round24(0) == 0);
    lemma_scaled(n, s);
    lemma_exact_signed(0, s);
    assert(0 * two(s) == 0) by (nonlinear_arith);
    assert(n * 0 == 0 && -n * 0 == 0);
    assert((two(s) - two(s)) as nat == 0);
}

/// A motion goes on while less than its duration has passed since it began, and no longer.
pub proof fn law_motions_last_their_time(a: AnimView, now_ms: u64, id: PaneId)
    requires
        a.panes.contains_key(id),
        a.panes[id].duration_ms > 0,
    ensures
        a.ticked(now_ms).panes.contains_key(id) <==> now_ms < a.panes[id].start_ms
            + a.panes[id].duration_ms,
        a.ticked(now_ms).panes.contains_key(id) ==> a.ticked(now_ms).panes[id] == a.panes[id],
        a.ws_transition matches Some(t) ==> t.duration_ms > 0 ==> a.ticked(now_ms).ws_transition
            == (if now_ms < t.start_ms + t.duration_ms {
            Some(t)
        } else {
            None
        }),
        a.ticked(now_ms).screen_w == a.screen_w,
        a.ticked(now_ms).screen_h == a.screen_h,
{
}

proof fn lemma_rect_of(rects: Seq<(PaneId, Rect)>, j: int)
    requires
        0 <= j < rects.len(),
        forall|k: int| j < k < rects.len() ==> (#[trigger] rects[k]).0 != rects[j].0,
    ensures
        rect_of(rects, rects[j].0) == Some(rects[j].1),
    decreases rects.len(),
{
    if j < rects.len() - 1 {
        assert(rects[rects.len() - 1].0 != rects[j].0);
        assert forall|k: int| j < k < rects.len() - 1 implies (
        #[trigger] rects.drop_last()[k]).0 != rects.drop_last()[j].0 by {
            assert(rects.drop_last()[k] == rects[k]);
        }
        lemma_rect_of(rects.drop_last(), j);
    }
}

proof fn lemma_not_after(
    a: AnimView,
    before: Seq<(PaneId, Rect)>,
    after: Seq<(PaneId, Rect)>,
    k: int,
    n: int,
    now_ms: u64,
)
    requires
        0 <= k < n <= after.len(),
        forall|i: int| k < i < n ==> (#[trigger] after[i]).0 != after[k].0,
    ensures
        ({
            let id = after[k].0;
            let m = all_morphed(a, before, after, k + 1, now_ms);
            let u = all_morphed(a, before, after, n, now_ms);
            &&& u.panes.contains_key(id) == m.panes.contains_key(id)
            &&& m.panes.contains_key(id) ==> u.panes[id] == m.panes[id]
        }),
    decreases n,
{
    if n > k + 1 {
        assert(after[n - 1].0 != after[k].0);
        lemma_not_after(a, before, after, k, n - 1, now_ms);
    }
}

/// A pane that a change of layout has moved moves from where it was to where it is, from
/// now on.
pub proof fn law_moved_panes_move_there(
    a: AnimView,
    before: Seq<(PaneId, Rect)>,
    after: Seq<(PaneId, Rect)>,
    j: int,
    k: int,
    now_ms: u64,
)
    requires
        0 <= j < before.len(),
        0 <= k < after.len(),
        before[j].0 == after[k].0,
        before[j].1 != after[k].1,
        forall|i: int| j < i < before.len() ==> (#[trigger] before[i]).0 != before[j].0,
        forall|i: int| 0 <= i < after.len() && i != k ==> (#[trigger] after[i]).0 != after[k].0,
        !a.panes.contains_key(after[k].0),
    ensures
        ({
            let u = all_morphed(a, before, after, after.len() as int, now_ms);
            let id = after[k].0;
            &&& u.panes.contains_key(id)
            &&& u.panes[id].kind == AnimKind::LayoutMorph
            &&& u.panes[id].start_ms == now_ms
            &&& u.panes[id].duration_ms == 200
            &&& u.panes[id].target_rect == after[k].1
            &&& u.panes[id].from_rect == signed(before[j].1)
        }),
{
    let id = after[k].0;
    lemma_rect_of(before, j);
    crate::twm::anim::law_moved_panes_move(a, before, after, k, now_ms, id);
    let m = all_morphed(a, before, after, k, now_ms);
    assert(!m.panes.contains_key(id));
    assert(after[k] == (id, after[k].1));
    lemma_not_after(a, before, after, k, after.len() as int, now_ms);
}

// ── Blends ───────────────────────────────────────────────────────────────────

/// What a bit pattern stands for: one and more is one, what is negative is nothing, and a
/// pattern with an exponent that is less by one stands for half as much.
pub proof fn law_blends_are_numbers(bits: u32)
    ensures
        0x3F80_0000 <= bits <= 0x7F80_0000 ==> blend_of(bits).mantissa == two(
            blend_of(bits).shift as nat,
        ),
        bits >= 0x8000_0000 ==> blend_of(bits).mantissa == 0,
        0x3F00_0000 <= bits < 0x3F80_0000 ==> blend_of(bits).shift == 24 && blend_of(bits).mantissa
            == 0x80_0000 + (bits - 0x3F00_0000),
        0x2C00_0000 <= bits < 0x3F80_0000 ==> blend_of((bits - 0x80_0000) as u32).mantissa
            == blend_of(bits).mantissa && blend_of((bits - 0x80_0000) as u32).shift == blend_of(
            bits,
        ).shift + 1,
{
    assert(two(0) == 1);
}

// ── Time ─────────────────────────────────────────────────────────────────────

/// A motion has come as far as the time that has passed since it began; before that it has
/// not moved. Panes slow down as they come in or move, and speed up as they go out.
pub proof fn law_motions_follow_the_clock(a: PaneAnim, now_ms: u64)
    ensures
        now_ms >= a.start_ms ==> elapsed(a.start_ms, now_ms) == now_ms - a.start_ms,
        now_ms < a.start_ms ==> elapsed(a.start_ms, now_ms) == 0,
        a.kind == AnimKind::Close ==> a.curve() == Easing::InCubic,
        a.kind != AnimKind::Close ==> a.curve() == Easing::OutCubic,
{
}

/// Anything moves just where a pane does or the workspaces do.
pub proof fn law_something_moves(a: AnimView)
    ensures
        a.running() <==> (exists|id: PaneId| #[trigger] a.panes.contains_key(id)) || a.ws_transition
            is Some,
{
    if !a.panes.is_empty() {
        assert(a.panes.dom() != Set::<PaneId>::empty());
        if forall|id: PaneId| !(#[trigger] a.panes.contains_key(id)) {
            assert(a.panes =~= Map::<PaneId, PaneAnim>::empty());
        }
    }
}

} // verus!
