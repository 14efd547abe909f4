//! What holds of the rectangles that a layout gives: which pane is where, how
//! large it is, and that nothing of the area is lost.

use vstd::prelude::*;

use crate::single::{law_share_is_close, law_share_is_part, share, Ratio};
use crate::twm::layout::{
    bsp_rects, law_one_rect_for_each_pane, lined_up, main_len, moderate, part_len, part_size,
    part_start, rects_of, stacked, Layout,
};
use crate::twm::rect::{cap, minus, Rect};

verus! {

// ── Stacks and lines ─────────────────────────────────────────────────────────

/// Whether the panes from index `from` up to `to` stand below each other, `gap`
/// pixels apart, from the top of `area` to its bottom. They are equally high, but
/// for the last, which takes the few pixels that are left.
pub open spec fn fill_down(r: Seq<Rect>, from: int, to: int, area: Rect, gap: u32) -> bool {
    &&& r[from].y == area.y
    &&& forall|i: int|
        from <= i < to - 1 ==> (#[trigger] r[i]).y + r[i].h + gap == r[i + 1].y
    &&& forall|i: int| from <= i < to - 1 ==> (#[trigger] r[i]).h == r[from].h
    &&& r[to - 1].y + r[to - 1].h == area.y + area.h
    &&& r[from].h <= r[to - 1].h < r[from].h + (to - from)
}

/// The same from left to right.
pub open spec fn fill_across(r: Seq<Rect>, from: int, to: int, area: Rect, gap: u32) -> bool {
    &&& r[from].x == area.x
    &&& forall|i: int|
        from <= i < to - 1 ==> (#[trigger] r[i]).x + r[i].w + gap == r[i + 1].x
    &&& forall|i: int| from <= i < to - 1 ==> (#[trigger] r[i]).w == r[from].w
    &&& r[to - 1].x + r[to - 1].w == area.x + area.w
    &&& r[from].w <= r[to - 1].w < r[from].w + (to - from)
}

/// The parts of a length with their gaps make up the length.
proof fn lemma_parts_fill(len: u32, count: int, gap: u32)
    requires
        count >= 1,
        gap * (count - 1) <= len,
    ensures
        part_start(len, count, gap, 0) == 0,
        forall|i: int|
            0 <= i < count - 1 ==> #[trigger] part_start(len, count, gap, i) + part_len(
                len,
                count,
                gap,
            ) + gap == part_start(len, count, gap, i + 1),
        0 <= part_len(len, count, gap) <= len,
        forall|i: int|
            0 <= i < count ==> 0 <= #[trigger] part_start(len, count, gap, i) <= len,
        part_start(len, count, gap, count - 1) + part_size(len, count, gap, count - 1) == len,
        part_len(len, count, gap) <= part_size(len, count, gap, count - 1) < part_len(
            len,
            count,
            gap,
        ) + count,
{
    let free = len - gap * (count - 1);
    let each = part_len(len, count, gap);
    let step = each + gap;
    assert(each == free / count);
    vstd::arithmetic::div_mod::lemma_fundamental_div_mod(free, count);
    assert(0 <= free % count < count);
    assert(count * each == each * count) by (nonlinear_arith);
    assert(0 <= each) by (nonlinear_arith)
        requires
            each == free / count,
            free >= 0,
            count >= 1,
    ;
    assert(each <= free) by (nonlinear_arith)
        requires
            each == free / count,
            free >= 0,
            count >= 1,
    ;
    assert(gap * (count - 1) >= 0) by (nonlinear_arith)
        requires
            count >= 1,
            gap >= 0,
    ;
    assert forall|i: int| 0 <= i < count - 1 implies #[trigger] part_start(len, count, gap, i)
        + each + gap == part_start(len, count, gap, i + 1) by {
        assert(i * step + step == (i + 1) * step) by (nonlinear_arith);
    }
    assert((count - 1) * step + each == each * count + gap * (count - 1)) by (nonlinear_arith)
        requires
            step == each + gap,
    ;
    assert forall|i: int| 0 <= i < count implies 0 <= #[trigger] part_start(len, count, gap, i)
        <= len by {
        assert(0 <= i * step <= (count - 1) * step) by (nonlinear_arith)
            requires
                0 <= i <= count - 1,
                step >= 0,
        ;
    }
    assert(0 * step == 0);
}

proof fn lemma_stack_fills(area: Rect, x: u32, w: u32, count: nat, gap: u32)
    requires
        moderate(area),
        count >= 1,
        gap * (count - 1) <= area.h,
    ensures
        fill_down(stacked(area, x, w, count, gap), 0, count as int, area, gap),
        forall|i: int|
            0 <= i < count ==> (#[trigger] stacked(area, x, w, count, gap)[i]).x == x && stacked(
                area,
                x,
                w,
                count,
                gap,
            )[i].w == w,
{
    lemma_parts_fill(area.h, count as int, gap);
    let r = stacked(area, x, w, count, gap);
    assert forall|i: int| 0 <= i < count - 1 implies (#[trigger] r[i]).y + r[i].h + gap == r[i
        + 1].y by {
        assert(part_start(area.h, count as int, gap, i) + part_len(area.h, count as int, gap) + gap
            == part_start(area.h, count as int, gap, i + 1));
    }
    assert(part_start(area.h, count as int, gap, 0) <= area.h);
    assert(part_start(area.h, count as int, gap, count - 1) <= area.h);
}

proof fn lemma_line_fills(area: Rect, y: u32, h: u32, count: nat, gap: u32)
    requires
        moderate(area),
        count >= 1,
        gap * (count - 1) <= area.w,
    ensures
        fill_across(lined_up(area, y, h, count, gap), 0, count as int, area, gap),
        forall|i: int|
            0 <= i < count ==> (#[trigger] lined_up(area, y, h, count, gap)[i]).y == y && lined_up(
                area,
                y,
                h,
                count,
                gap,
            )[i].h == h,
{
    lemma_parts_fill(area.w, count as int, gap);
    let r = lined_up(area, y, h, count, gap);
    assert forall|i: int| 0 <= i < count - 1 implies (#[trigger] r[i]).x + r[i].w + gap == r[i
        + 1].x by {
        assert(part_start(area.w, count as int, gap, i) + part_len(area.w, count as int, gap) + gap
            == part_start(area.w, count as int, gap, i + 1));
    }
    assert(part_start(area.w, count as int, gap, 0) <= area.w);
    assert(part_start(area.w, count as int, gap, count - 1) <= area.w);
}

/// Whether a main pane has the length that its ratio says, to the pixel; it has
/// `least` pixels where that is less.
pub open spec fn has_share(main: u32, len: u32, ratio: Ratio, least: u32) -> bool {
    ||| main == least && len * ratio.units < (least + 2) * 0x1000_0000
    ||| main >= least && len * ratio.units - 2 * 0x1000_0000 < main * 0x1000_0000 <= len
        * ratio.units + 0x1000_0000
}

proof fn lemma_main(len: u32, ratio: Ratio, least: u32)
    requires
        len < 0x100_0000,
        ratio.wf(),
        least <= 4,
    ensures
        has_share(main_len(len, ratio, least as int) as u32, len, ratio, least),
        least <= main_len(len, ratio, least as int) < 0x100_0000,
        main_len(len, ratio, least as int) <= len || main_len(len, ratio, least as int) == least,
{
    law_share_is_part(len, ratio);
    law_share_is_close(len, ratio);
}

// ── Columns and rows ─────────────────────────────────────────────────────────

/// One pane takes the whole area, in every layout.
pub proof fn law_one_pane_takes_all(layout: Layout, area: Rect, ratio: Ratio, gap: u32)
    ensures
        rects_of(layout, area, 1, ratio, gap).len() == 1,
        rects_of(layout, area, 1, ratio, gap)[0] == area,
{
}

/// Where one pane is shown at a time, every pane takes the whole area.
pub proof fn law_monocle_takes_all(area: Rect, n: nat, ratio: Ratio, gap: u32, i: int)
    requires
        0 <= i < n,
    ensures
        rects_of(Layout::Monocle, area, n, ratio, gap).len() == n,
        rects_of(Layout::Monocle, area, n, ratio, gap)[i] == area,
{
}

/// In columns, the first pane stands on the left as high as the area and takes
/// its share of the width. The others fill the rest of the width on its right,
/// one below the other.
pub proof fn law_columns(area: Rect, n: nat, ratio: Ratio, gap: u32)
    requires
        moderate(area),
        gap < 0x100_0000,
        ratio.wf(),
        n >= 2,
        gap * (n - 2) <= area.h,
    ensures
        ({
            let r = rects_of(Layout::Columns, area, n, ratio, gap);
            &&& r.len() == n
            &&& r[0].x == area.x && r[0].y == area.y && r[0].h == area.h
            &&& has_share(r[0].w, area.w, ratio, 4)
            &&& forall|i: int|
                1 <= i < n ==> (#[trigger] r[i]).x == r[0].x + r[0].w + gap && r[i].w == r[1].w
            &&& r[0].w + gap <= area.w ==> r[1].x + r[1].w == area.x + area.w
            &&& r[0].w + gap > area.w ==> r[1].w == 0
            &&& fill_down(r, 1, n as int, area, gap)
        }),
{
    let r = rects_of(Layout::Columns, area, n, ratio, gap);
    lemma_main(area.w, ratio, 4);
    let main = main_len(area.w, ratio, 4);
    let side = minus(area.w as int, main + gap);
    let x = cap(area.x + main + gap);
    lemma_stack_fills(area, x, side as u32, (n - 1) as nat, gap);
    let s = stacked(area, x, side as u32, (n - 1) as nat, gap);
    assert(forall|i: int| 1 <= i < n ==> #[trigger] r[i] == s[i - 1]);
    assert forall|i: int| 1 <= i < n - 1 implies (#[trigger] r[i]).y + r[i].h + gap == r[i + 1].y
        && r[i].h == r[1].h by {
        assert(s[i - 1].y + s[i - 1].h + gap == s[i - 1 + 1].y);
        assert(s[i - 1].h == s[0].h);
    }
    assert forall|i: int| 1 <= i < n implies (#[trigger] r[i]).x == r[0].x + r[0].w + gap && r[i].w
        == r[1].w by {
        assert(s[i - 1].x == x);
    }
    assert(r[n - 1] == s[n - 2]);
    assert(r[1] == s[0]);
}

/// In rows, the first pane stands on top as wide as the area and takes its share
/// of the height. The others fill the rest of the height below it, next to each
/// other.
pub proof fn law_rows(area: Rect, n: nat, ratio: Ratio, gap: u32)
    requires
        moderate(area),
        gap < 0x100_0000,
        ratio.wf(),
        n >= 2,
        gap * (n - 2) <= area.w,
    ensures
        ({
            let r = rects_of(Layout::Rows, area, n, ratio, gap);
            &&& r.len() == n
            &&& r[0].x == area.x && r[0].y == area.y && r[0].w == area.w
            &&& has_share(r[0].h, area.h, ratio, 3)
            &&& forall|i: int|
                1 <= i < n ==> (#[trigger] r[i]).y == r[0].y + r[0].h + gap && r[i].h == r[1].h
            &&& r[0].h + gap <= area.h ==> r[1].y + r[1].h == area.y + area.h
            &&& r[0].h + gap > area.h ==> r[1].h == 0
            &&& fill_across(r, 1, n as int, area, gap)
        }),
{
    let r = rects_of(Layout::Rows, area, n, ratio, gap);
    lemma_main(area.h, ratio, 3);
    let main = main_len(area.h, ratio, 3);
    let side = minus(area.h as int, main + gap);
    let y = cap(area.y + main + gap);
    lemma_line_fills(area, y, side as u32, (n - 1) as nat, gap);
    let s = lined_up(area, y, side as u32, (n - 1) as nat, gap);
    assert(forall|i: int| 1 <= i < n ==> #[trigger] r[i] == s[i - 1]);
    assert forall|i: int| 1 <= i < n - 1 implies (#[trigger] r[i]).x + r[i].w + gap == r[i + 1].x
        && r[i].w == r[1].w by {
        assert(s[i - 1].x + s[i - 1].w + gap == s[i - 1 + 1].x);
        assert(s[i - 1].w == s[0].w);
    }
    assert forall|i: int| 1 <= i < n implies (#[trigger] r[i]).y == r[0].y + r[0].h + gap && r[i].h
        == r[1].h by {
        assert(s[i - 1].y == y);
    }
    assert(r[n - 1] == s[n - 2]);
    assert(r[1] == s[0]);
}

// ── Three columns ────────────────────────────────────────────────────────────

/// How many of the first `n` rectangles start to the left of `x`.
pub open spec fn starting_left(r: Seq<Rect>, n: int, x: u32) -> int
    decreases n,
{
    if n <= 0 {
        0
    } else {
        starting_left(r, n - 1, x) + (if r[n - 1].x < x {
            1int
        } else {
            0
        })
    }
}

/// How many of the first `n` rectangles start to the right of `x`.
pub open spec fn starting_right(r: Seq<Rect>, n: int, x: u32) -> int
    decreases n,
{
    if n <= 0 {
        0
    } else {
        starting_right(r, n - 1, x) + (if r[n - 1].x > x {
            1int
        } else {
            0
        })
    }
}

proof fn lemma_sides(r: Seq<Rect>, n: int, x: u32, left: int)
    requires
        0 <= left,
        1 <= n <= r.len(),
        r[0].x == x,
        forall|i: int| 1 <= i <= left && i < r.len() ==> (#[trigger] r[i]).x < x,
        forall|i: int| left < i < r.len() && 1 <= i ==> (#[trigger] r[i]).x > x,
    ensures
        starting_left(r, n, x) == (if n - 1 < left {
            n - 1
        } else {
            left
        }),
        starting_right(r, n, x) == (if n - 1 < left {
            0
        } else {
            n - 1 - left
        }),
    decreases n,
{
    if n > 1 {
        lemma_sides(r, n - 1, x, left);
        assert(r[n - 1].x < x || r[n - 1].x > x);
    } else {
        assert(starting_left(r, 0, x) == 0);
        assert(starting_right(r, 0, x) == 0);
    }
}

/// The rectangles of three columns, apart from how many stand on each side.
spec fn three_placed(r: Seq<Rect>, area: Rect, n: nat, gap: u32) -> bool {
    let left = (n - 1) / 2;
    &&& r.len() == n
    &&& r[0].y == area.y && r[0].h == area.h
    &&& forall|i: int|
        1 <= i <= left ==> (#[trigger] r[i]).w == r[1].w && r[i].x == area.x && r[i].x + r[i].w + gap
            == r[0].x
    &&& forall|i: int|
        left < i < n ==> (#[trigger] r[i]).w == r[1].w && r[i].x == r[0].x + r[0].w + gap
    &&& r[0].w + 2 * gap <= area.w ==> area.w - 1 <= 2 * r[1].w + r[0].w + 2 * gap <= area.w
    &&& fill_down(r, 1, left + 1, area, gap)
    &&& fill_down(r, left + 1, n as int, area, gap)
}

#[verifier::spinoff_prover]
#[verifier::rlimit(60)]
proof fn lemma_three_placed(area: Rect, n: nat, ratio: Ratio, gap: u32)
    requires
        moderate(area),
        gap < 0x100_0000,
        ratio.wf(),
        n > 2,
        gap * (n - 2) <= area.h,
    ensures
        three_placed(rects_of(Layout::ThreeCol, area, n, ratio, gap), area, n, gap),
        rects_of(Layout::ThreeCol, area, n, ratio, gap)[0].w == main_len(area.w, ratio, 4),
        rects_of(Layout::ThreeCol, area, n, ratio, gap)[0].w >= 4,
{
    let r = rects_of(Layout::ThreeCol, area, n, ratio, gap);
    lemma_main(area.w, ratio, 4);
    let main = main_len(area.w, ratio, 4);
    let side = minus(area.w as int, main + 2 * gap) / 2;
    let cx = area.x + side + gap;
    let left = (n - 1) / 2;
    let right = (n - 1) - left;
    assert(gap * (left - 1) <= gap * (n - 2) && gap * (right - 1) <= gap * (n - 2))
        by (nonlinear_arith)
        requires
            left <= n - 1,
            right <= n - 1,
            gap >= 0,
    ;
    lemma_stack_fills(area, area.x, side as u32, left as nat, gap);
    lemma_stack_fills(area, cap(cx + main + gap), side as u32, right as nat, gap);
    let l = stacked(area, area.x, side as u32, left as nat, gap);
    let q = stacked(area, cap(cx + main + gap), side as u32, right as nat, gap);
    assert(forall|i: int| 1 <= i <= left ==> #[trigger] r[i] == l[i - 1]);
    assert(forall|i: int| left < i < n ==> #[trigger] r[i] == q[i - 1 - left]);
    assert(r[1] == l[0] && r[left] == l[left - 1]);
    assert(r[left + 1] == q[0] && r[n - 1] == q[right - 1]);
    assert forall|i: int| 1 <= i <= left implies (#[trigger] r[i]).w == r[1].w && r[i].x == area.x
        && r[i].x + r[i].w + gap == r[0].x by {
        assert(l[i - 1].x == area.x);
    }
    assert forall|i: int| left < i < n implies (#[trigger] r[i]).w == r[1].w && r[i].x == r[0].x
        + r[0].w + gap by {
        assert(q[i - 1 - left].x == cap(cx + main + gap));
    }
    assert forall|i: int| 1 <= i < left implies (#[trigger] r[i]).y + r[i].h + gap == r[i + 1].y by {
        assert(l[i - 1].y + l[i - 1].h + gap == l[i - 1 + 1].y);
    }
    assert forall|i: int| 1 <= i < left implies (#[trigger] r[i]).h == r[1].h by {
        assert(l[i - 1].h == l[0].h);
    }
    assert forall|i: int| left < i < n - 1 implies (#[trigger] r[i]).y + r[i].h + gap == r[i
        + 1].y by {
        assert(q[i - 1 - left].y + q[i - 1 - left].h + gap == q[i - 1 - left + 1].y);
    }
    assert forall|i: int| left < i < n - 1 implies (#[trigger] r[i]).h == r[left + 1].h by {
        assert(q[i - 1 - left].h == q[0].h);
    }
    assert(fill_down(r, 1, left + 1, area, gap));
    assert(fill_down(r, left + 1, n as int, area, gap));
}

/// In three columns, the first pane stands in the middle as high as the area and
/// takes its share of the width. The others stand on its left and on its right,
/// one more on the right where they cannot be as many; on each side they fill the
/// height, one below the other, and both sides are equally wide.
#[verifier::spinoff_prover]
pub proof fn law_three_columns(area: Rect, n: nat, ratio: Ratio, gap: u32)
    requires
        moderate(area),
        gap < 0x100_0000,
        ratio.wf(),
        n > 2,
        gap * (n - 2) <= area.h,
    ensures
        ({
            let r = rects_of(Layout::ThreeCol, area, n, ratio, gap);
            let x = r[0].x;
            &&& r.len() == n
            &&& r[0].y == area.y && r[0].h == area.h
            &&& has_share(r[0].w, area.w, ratio, 4)
            // The sides are balanced, wherever something can stand on the left.
            &&& gap > 0 || (area.w >= 6 && share(area.w, ratio.units) + 2 <= area.w) ==> {
                &&& starting_left(r, n as int, x) + starting_right(r, n as int, x) == n - 1
                &&& starting_left(r, n as int, x) <= starting_right(r, n as int, x)
                    <= starting_left(r, n as int, x) + 1
            }
            // What is on the left starts with the area and ends before the main pane;
            // what is on the right starts behind it.
            &&& forall|i: int|
                1 <= i < n ==> (#[trigger] r[i]).w == r[1].w && if 2 * i <= n - 1 {
                    r[i].x == area.x && r[i].x + r[i].w + gap == x
                } else {
                    r[i].x == x + r[0].w + gap
                }
            &&& r[0].w + 2 * gap <= area.w ==> area.x + area.w - 1 <= r[n - 1].x + r[n - 1].w
                <= area.x + area.w
            &&& fill_down(r, 1, (n - 1) / 2 + 1, area, gap)
            &&& fill_down(r, (n - 1) / 2 + 1, n as int, area, gap)
        }),
{
    let r = rects_of(Layout::ThreeCol, area, n, ratio, gap);
    lemma_main(area.w, ratio, 4);
    law_share_is_part(area.w, ratio);
    lemma_three_placed(area, n, ratio, gap);
    let left = (n - 1) / 2;
    assert(r[1].x == area.x && r[1].x + r[1].w + gap == r[0].x);
    assert(r[n - 1].x == r[0].x + r[0].w + gap && r[n - 1].w == r[1].w);
    if gap > 0 || (area.w >= 6 && share(area.w, ratio.units) + 2 <= area.w) {
        assert(r[0].x > area.x);
        lemma_sides(r, n as int, r[0].x, left);
    }
}

/// Two panes stand next to each other in three columns as in columns.
pub proof fn law_two_of_three_columns(area: Rect, ratio: Ratio, gap: u32)
    ensures
        rects_of(Layout::ThreeCol, area, 2, ratio, gap) == rects_of(
            Layout::Columns,
            area,
            2,
            ratio,
            gap,
        ),
{
}

// ── Halves ───────────────────────────────────────────────────────────────────

/// Where areas are halved, each pane takes the left or the upper half of what is
/// left, and the next stands in the other half, right behind the gap. The cuts go
/// across and along in turn, the first one across the longer side. The two halves
/// differ by a pixel at most, and the last pane takes all of its half.
pub proof fn law_halves(area: Rect, n: nat, ratio: Ratio, gap: u32, i: int)
    requires
        area.fits(),
        0 <= i < n - 1,
        !rects_of(Layout::Bsp, area, n, ratio, gap)[i + 1].empty(),
    ensures
        ({
            let r = rects_of(Layout::Bsp, area, n, ratio, gap);
            let beside = (i % 2 == 0) == (area.w >= area.h);
            &&& r.len() == n
            &&& r[0].x == area.x && r[0].y == area.y
            &&& beside ==> {
                &&& r[i + 1].x == r[i].x + r[i].w + gap && r[i + 1].y == r[i].y
                &&& i + 2 == n ==> r[i + 1].h == r[i].h && r[i].w <= r[i + 1].w <= r[i].w + 1
            }
            &&& !beside ==> {
                &&& r[i + 1].y == r[i].y + r[i].h + gap && r[i + 1].x == r[i].x
                &&& i + 2 == n ==> r[i + 1].w == r[i].w && r[i].h <= r[i + 1].h <= r[i].h + 1
            }
            &&& i == 0 && area.w >= area.h ==> r[0].h == area.h && area.w - 1 <= 2 * r[0].w + gap
                <= area.w
            &&& i == 0 && area.w < area.h ==> r[0].w == area.w && area.h - 1 <= 2 * r[0].h + gap
                <= area.h
        }),
{
    lemma_halves(area, n, gap, area.w >= area.h, i);
    law_one_rect_for_each_pane(Layout::Bsp, area, n, ratio, gap);
}

proof fn lemma_halves(area: Rect, n: nat, gap: u32, across: bool, i: int)
    requires
        area.fits(),
        0 <= i < n - 1,
        bsp_rects(area, n, gap, across).len() == n ==> !bsp_rects(area, n, gap, across)[i
            + 1].empty(),
    ensures
        bsp_rects(area, n, gap, across).len() == n,
        ({
            let r = bsp_rects(area, n, gap, across);
            let beside = (i % 2 == 0) == across;
            &&& r[0].x == area.x && r[0].y == area.y
            &&& beside ==> {
                &&& r[i + 1].x == r[i].x + r[i].w + gap && r[i + 1].y == r[i].y
                &&& i + 2 == n ==> r[i + 1].h == r[i].h && r[i].w <= r[i + 1].w <= r[i].w + 1
            }
            &&& !beside ==> {
                &&& r[i + 1].y == r[i].y + r[i].h + gap && r[i + 1].x == r[i].x
                &&& i + 2 == n ==> r[i + 1].w == r[i].w && r[i].h <= r[i + 1].h <= r[i].h + 1
            }
            &&& i == 0 && across ==> r[0].h == area.h && area.w - 1 <= 2 * r[0].w + gap <= area.w
            &&& i == 0 && !across ==> r[0].w == area.w && area.h - 1 <= 2 * r[0].h + gap <= area.h
        }),
    decreases n,
{
    let r = bsp_rects(area, n, gap, across);
    lemma_bsp_count(area, n, gap, across);
    let other = other_half(area, gap, across);
    let rest = bsp_rects(other, (n - 1) as nat, gap, !across);
    lemma_bsp_count(other, (n - 1) as nat, gap, !across);
    assert(forall|k: int| 1 <= k < n ==> #[trigger] r[k] == rest[k - 1]);
    lemma_bsp_first(other, (n - 1) as nat, gap, !across);
    if i == 0 {
        assert(r[1] == rest[0]);
        assert(rest[0].w <= other.w && rest[0].h <= other.h);
    } else {
        assert(r[i] == rest[i - 1] && r[i + 1] == rest[i]);
        lemma_halves(other, (n - 1) as nat, gap, !across, i - 1);
        assert(((i - 1) % 2 == 0) == (i % 2 != 0));
    }
}

spec fn other_half(area: Rect, gap: u32, across: bool) -> Rect {
    if across {
        let half = minus(area.w as int, gap as int) / 2;
        Rect {
            x: cap(area.x + half + gap),
            w: minus(area.w as int, half + gap) as u32,
            ..area
        }
    } else {
        let half = minus(area.h as int, gap as int) / 2;
        Rect {
            y: cap(area.y + half + gap),
            h: minus(area.h as int, half + gap) as u32,
            ..area
        }
    }
}

proof fn lemma_bsp_count(area: Rect, n: nat, gap: u32, across: bool)
    ensures
        bsp_rects(area, n, gap, across).len() == n,
    decreases n,
{
    if n > 1 {
        lemma_bsp_count(other_half(area, gap, across), (n - 1) as nat, gap, !across);
    }
}

proof fn lemma_bsp_first(area: Rect, n: nat, gap: u32, across: bool)
    requires
        n >= 1,
    ensures
        bsp_rects(area, n, gap, across).len() == n,
        ({
            let f = bsp_rects(area, n, gap, across)[0];
            &&& f.x == area.x && f.y == area.y && f.w <= area.w && f.h <= area.h
            &&& n == 1 ==> f == area
        }),
{
    lemma_bsp_count(area, n, gap, across);
}

/// Whether some of `r` holds the point.
pub open spec fn covered(r: Seq<Rect>, px: int, py: int) -> bool {
    exists|i: int| 0 <= i < r.len() && (#[trigger] r[i]).has(px, py)
}

proof fn lemma_bsp_covers(area: Rect, n: nat, across: bool, px: int, py: int)
    requires
        area.fits(),
        n >= 1,
        area.has(px, py),
    ensures
        covered(bsp_rects(area, n, 0, across), px, py),
    decreases n,
{
    let r = bsp_rects(area, n, 0, across);
    if n == 1 {
        assert(r[0].has(px, py));
    } else {
        let other = other_half(area, 0, across);
        let rest = bsp_rects(other, (n - 1) as nat, 0, !across);
        if r[0].has(px, py) {
        } else {
            assert(other.has(px, py));
            lemma_bsp_covers(other, (n - 1) as nat, !across, px, py);
            let k = choose|k: int| 0 <= k < rest.len() && (#[trigger] rest[k]).has(px, py);
            assert(r[k + 1] == rest[k]);
        }
    }
}

/// The pane of a filled stack that holds a line of the area.
proof fn lemma_stack_covers(r: Seq<Rect>, from: int, to: int, area: Rect, py: int)
    requires
        fill_down(r, from, to, area, 0),
        0 <= from < to <= r.len(),
        area.y <= py < area.y + area.h,
    ensures
        exists|i: int| from <= i < to && (#[trigger] r[i]).y <= py < r[i].y + r[i].h,
{
    lemma_reach_down(r, from, to, area, py, to - 1);
    if !(exists|i: int| from <= i < to && (#[trigger] r[i]).y <= py < r[i].y + r[i].h) {
        assert(!(r[to - 1].y <= py < r[to - 1].y + r[to - 1].h));
    }
}

proof fn lemma_reach_down(r: Seq<Rect>, from: int, to: int, area: Rect, py: int, k: int)
    requires
        fill_down(r, from, to, area, 0),
        0 <= from <= k < to <= r.len(),
        area.y <= py < area.y + area.h,
    ensures
        (exists|i: int| from <= i < to && (#[trigger] r[i]).y <= py < r[i].y + r[i].h) || py >= r[k].y,
    decreases k - from,
{
    if k > from {
        lemma_reach_down(r, from, to, area, py, k - 1);
        assert(r[k - 1].y + r[k - 1].h + 0 == r[k - 1 + 1].y);
        if py >= r[k - 1].y && py < r[k].y {
            assert(r[k - 1].y <= py < r[k - 1].y + r[k - 1].h);
        }
    }
}

proof fn lemma_line_covers(r: Seq<Rect>, from: int, to: int, area: Rect, px: int)
    requires
        fill_across(r, from, to, area, 0),
        0 <= from < to <= r.len(),
        area.x <= px < area.x + area.w,
    ensures
        exists|i: int| from <= i < to && (#[trigger] r[i]).x <= px < r[i].x + r[i].w,
{
    lemma_reach_across(r, from, to, area, px, to - 1);
    if !(exists|i: int| from <= i < to && (#[trigger] r[i]).x <= px < r[i].x + r[i].w) {
        assert(!(r[to - 1].x <= px < r[to - 1].x + r[to - 1].w));
    }
}

proof fn lemma_reach_across(r: Seq<Rect>, from: int, to: int, area: Rect, px: int, k: int)
    requires
        fill_across(r, from, to, area, 0),
        0 <= from <= k < to <= r.len(),
        area.x <= px < area.x + area.w,
    ensures
        (exists|i: int| from <= i < to && (#[trigger] r[i]).x <= px < r[i].x + r[i].w) || px >= r[k].x,
    decreases k - from,
{
    if k > from {
        lemma_reach_across(r, from, to, area, px, k - 1);
        assert(r[k - 1].x + r[k - 1].w + 0 == r[k - 1 + 1].x);
        if px >= r[k - 1].x && px < r[k].x {
            assert(r[k - 1].x <= px < r[k - 1].x + r[k - 1].w);
        }
    }
}

/// Without gaps, nothing of the area is lost: every point of it is in some pane.
/// Only three columns can leave the last pixel on the right.
pub proof fn law_area_is_covered(layout: Layout, area: Rect, n: nat, ratio: Ratio, px: int, py: int)
    requires
        moderate(area),
        ratio.wf(),
        n >= 1,
        area.has(px, py),
        layout == Layout::ThreeCol ==> px < area.x + area.w - 1,
    ensures
        covered(rects_of(layout, area, n, ratio, 0), px, py),
{
    let r = rects_of(layout, area, n, ratio, 0);
    law_one_rect_for_each_pane(layout, area, n, ratio, 0);
    assert(0 * (n - 2) == 0) by (nonlinear_arith);
    if n == 1 {
        assert(r[0] == area);
    } else if layout == Layout::Bsp {
        lemma_bsp_covers(area, n, area.w >= area.h, px, py);
    } else if layout == Layout::Monocle {
        assert(r[0].has(px, py));
    } else if layout == Layout::Rows {
        law_rows(area, n, ratio, 0);
        if !r[0].has(px, py) {
            lemma_line_covers(r, 1, n as int, area, px);
            let k = choose|k: int| 1 <= k < n && (#[trigger] r[k]).x <= px < r[k].x + r[k].w;
            assert(r[k].has(px, py));
        }
    } else if layout == Layout::Columns || n == 2 {
        law_columns(area, n, ratio, 0);
        law_two_of_three_columns(area, ratio, 0);
        if !r[0].has(px, py) {
            lemma_stack_covers(r, 1, n as int, area, py);
            let k = choose|k: int| 1 <= k < n && (#[trigger] r[k]).y <= py < r[k].y + r[k].h;
            assert(r[k].has(px, py));
        }
    } else {
        law_three_columns(area, n, ratio, 0);
        lemma_main(area.w, ratio, 4);
        if !r[0].has(px, py) {
            if px < r[0].x {
                lemma_stack_covers(r, 1, (n - 1) / 2 + 1, area, py);
                let k = choose|k: int|
                    1 <= k < (n - 1) / 2 + 1 && (#[trigger] r[k]).y <= py < r[k].y + r[k].h;
                assert(r[k].has(px, py));
            } else {
                lemma_stack_covers(r, (n - 1) / 2 + 1, n as int, area, py);
                let k = choose|k: int|
                    (n - 1) / 2 + 1 <= k < n && (#[trigger] r[k]).y <= py < r[k].y + r[k].h;
                assert(r[k].w == r[n - 1].w && r[k].x == r[n - 1].x);
                assert(r[k].has(px, py));
            }
        }
    }
}

/// The layouts follow each other in this order, round and round.
pub proof fn law_order_of_layouts(i: int)
    requires
        0 <= i < 5,
    ensures
        ({
            let order = seq![
                Layout::Bsp,
                Layout::Columns,
                Layout::Rows,
                Layout::ThreeCol,
                Layout::Monocle,
            ];
            &&& order[i].spec_next() == order[(i + 1) % 5]
            &&& order[(i + 1) % 5].spec_prev() == order[i]
        }),
{
}

} // verus!
