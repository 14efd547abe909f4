//! Layouts: how an area is divided among panes.
//!
//! Coordinates beyond the range of `u32` are held at its end.

use vstd::prelude::*;

use crate::single::{law_share_is_part, max_of, min_of, share, Ratio};
use crate::twm::rect::{cap, capped, minus, Rect};

verus! {

#[derive(Debug, Clone, Copy, PartialEq, Eq, Structural)]
pub enum Layout {
    Bsp,
    Columns,
    Rows,
    Monocle,
    ThreeCol,
}

impl Default for Layout {
    fn default() -> (r: Self)
        ensures
            r == Layout::Bsp,
    {
        Layout::Bsp
    }
}

impl Layout {
    pub open spec fn spec_next(self) -> Layout {
        match self {
            Layout::Bsp => Layout::Columns,
            Layout::Columns => Layout::Rows,
            Layout::Rows => Layout::ThreeCol,
            Layout::ThreeCol => Layout::Monocle,
            Layout::Monocle => Layout::Bsp,
        }
    }

    pub open spec fn spec_prev(self) -> Layout {
        match self {
            Layout::Bsp => Layout::Monocle,
            Layout::Columns => Layout::Bsp,
            Layout::Rows => Layout::Columns,
            Layout::ThreeCol => Layout::Rows,
            Layout::Monocle => Layout::ThreeCol,
        }
    }

    pub open spec fn spec_label(self) -> Seq<char> {
        match self {
            Layout::Bsp => "BSP"@,
            Layout::Columns => "Columns"@,
            Layout::Rows => "Rows"@,
            Layout::ThreeCol => "ThreeCol"@,
            Layout::Monocle => "Monocle"@,
        }
    }

    pub fn next(self) -> (r: Self)
        ensures
            r == self.spec_next(),
    {
        match self {
            Layout::Bsp => Layout::Columns,
            Layout::Columns => Layout::Rows,
            Layout::Rows => Layout::ThreeCol,
            Layout::ThreeCol => Layout::Monocle,
            Layout::Monocle => Layout::Bsp,
        }
    }

    pub fn prev(self) -> (r: Self)
        ensures
            r == self.spec_prev(),
    {
        match self {
            Layout::Bsp => Layout::Monocle,
            Layout::Columns => Layout::Bsp,
            Layout::Rows => Layout::Columns,
            Layout::ThreeCol => Layout::Rows,
            Layout::Monocle => Layout::ThreeCol,
        }
    }

    pub fn label(self) -> (r: &'static str)
        ensures
            r@ == self.spec_label(),
    {
        match self {
            Layout::Bsp => "BSP",
            Layout::Columns => "Columns",
            Layout::Rows => "Rows",
            Layout::ThreeCol => "ThreeCol",
            Layout::Monocle => "Monocle",
        }
    }
}

/// Each of `next` and `prev` undoes the other, and five steps go round.
pub proof fn law_next_and_prev_are_inverse(l: Layout)
    ensures
        l.spec_next().spec_prev() == l,
        l.spec_prev().spec_next() == l,
        l.spec_next().spec_next().spec_next().spec_next().spec_next() == l,
{
}

// ── What the layouts are ─────────────────────────────────────────────────────

/// Halves the area again and again, across and along in turn: each pane takes
/// the left or upper half, the rest share the other one.
pub open spec fn bsp_rects(area: Rect, n: nat, gap: u32, across: bool) -> Seq<Rect>
    decreases n,
{
    if n == 0 {
        Seq::empty()
    } else if n == 1 {
        seq![area]
    } else if across {
        let half = minus(area.w as int, gap as int) / 2;
        let rest = minus(area.w as int, half + gap);
        let right = Rect { x: cap(area.x + half + gap), w: rest as u32, ..area };
        seq![Rect { w: half as u32, ..area }] + bsp_rects(right, (n - 1) as nat, gap, false)
    } else {
        let half = minus(area.h as int, gap as int) / 2;
        let rest = minus(area.h as int, half + gap);
        let low = Rect { y: cap(area.y + half + gap), h: rest as u32, ..area };
        seq![Rect { h: half as u32, ..area }] + bsp_rects(low, (n - 1) as nat, gap, true)
    }
}

/// The length of each of `count` parts of `len` with gaps in between.
pub open spec fn part_len(len: u32, count: int, gap: u32) -> int {
    minus(len as int, gap * (count - 1)) / count
}

/// Where part `i` starts, from the start of the whole.
pub open spec fn part_start(len: u32, count: int, gap: u32, i: int) -> int {
    i * (part_len(len, count, gap) + gap)
}

/// How long part `i` is: the last one takes what is left.
pub open spec fn part_size(len: u32, count: int, gap: u32, i: int) -> int {
    if i + 1 == count {
        minus(len as int, part_start(len, count, gap, i))
    } else {
        part_len(len, count, gap)
    }
}

/// `count` panes below each other.
pub open spec fn stacked(area: Rect, x: u32, w: u32, count: nat, gap: u32) -> Seq<Rect> {
    Seq::new(
        count,
        |i: int|
            Rect {
                x,
                y: cap(area.y + part_start(area.h, count as int, gap, i)),
                w,
                h: part_size(area.h, count as int, gap, i) as u32,
            },
    )
}

/// `count` panes next to each other.
pub open spec fn lined_up(area: Rect, y: u32, h: u32, count: nat, gap: u32) -> Seq<Rect> {
    Seq::new(
        count,
        |i: int|
            Rect {
                x: cap(area.x + part_start(area.w, count as int, gap, i)),
                y,
                w: part_size(area.w, count as int, gap, i) as u32,
                h,
            },
    )
}

/// The length of a main pane, at least `least`.
pub open spec fn main_len(len: u32, ratio: Ratio, least: int) -> int {
    max_of(min_of(share(len, ratio.units) as int, u32::MAX as int), least)
}

/// The main pane on the left, the others stacked on the right.
pub open spec fn column_rects(area: Rect, n: nat, ratio: Ratio, gap: u32) -> Seq<Rect> {
    if n == 1 {
        seq![area]
    } else {
        let main = main_len(area.w, ratio, 4);
        let side = minus(area.w as int, main + gap);
        seq![Rect { w: main as u32, ..area }] + stacked(
            area,
            cap(area.x + main + gap),
            side as u32,
            (n - 1) as nat,
            gap,
        )
    }
}

/// The main pane on top, the others in a row below.
pub open spec fn row_rects(area: Rect, n: nat, ratio: Ratio, gap: u32) -> Seq<Rect> {
    if n == 1 {
        seq![area]
    } else {
        let main = main_len(area.h, ratio, 3);
        let side = minus(area.h as int, main + gap);
        seq![Rect { h: main as u32, ..area }] + lined_up(
            area,
            cap(area.y + main + gap),
            side as u32,
            (n - 1) as nat,
            gap,
        )
    }
}

/// The main pane in the middle, the others stacked on its left and right.
pub open spec fn three_col_rects(area: Rect, n: nat, ratio: Ratio, gap: u32) -> Seq<Rect> {
    if n == 1 {
        seq![area]
    } else if n == 2 {
        column_rects(area, n, ratio, gap)
    } else {
        let main = main_len(area.w, ratio, 4);
        let side = minus(area.w as int, main + 2 * gap) / 2;
        let cx = area.x + side + gap;
        let left = (n - 1) as nat / 2;
        let right = ((n - 1) - left) as nat;
        seq![Rect { x: cap(cx), w: main as u32, ..area }] + stacked(
            area,
            area.x,
            side as u32,
            left,
            gap,
        ) + stacked(area, cap(cx + main + gap), side as u32, right, gap)
    }
}

/// The rectangles of `n` panes in `area`.
pub open spec fn rects_of(layout: Layout, area: Rect, n: nat, ratio: Ratio, gap: u32) -> Seq<Rect> {
    if n == 0 {
        Seq::empty()
    } else {
        match layout {
            Layout::Bsp => bsp_rects(area, n, gap, area.w >= area.h),
            Layout::Columns => column_rects(area, n, ratio, gap),
            Layout::Rows => row_rects(area, n, ratio, gap),
            Layout::ThreeCol => three_col_rects(area, n, ratio, gap),
            Layout::Monocle => Seq::new(n, |i: int| area),
        }
    }
}

// ── Their computation ────────────────────────────────────────────────────────

/// Computes the rectangles of `n` tiled panes in `area`.
pub fn compute(layout: Layout, area: Rect, n: usize, main_ratio: Ratio, gap: u32) -> (r: Vec<Rect>)
    requires
        main_ratio.wf(),
    ensures
        r@ == rects_of(layout, area, n as nat, main_ratio, gap),
{
    if n == 0 {
        return Vec::new();
    }
    match layout {
        Layout::Bsp => bsp(area, n, gap),
        Layout::Columns => columns(area, n, main_ratio, gap),
        Layout::Rows => rows(area, n, main_ratio, gap),
        Layout::ThreeCol => three_col(area, n, main_ratio, gap),
        Layout::Monocle => {
            let mut out: Vec<Rect> = Vec::new();
            let mut i: usize = 0;
            while i < n
                invariant
                    i <= n,
                    out@ == Seq::new(i as nat, |k: int| area),
                decreases n - i,
            {
                out.push(area);
                i += 1;
                assert(out@ =~= Seq::new(i as nat, |k: int| area));
            }
            assert(out@ =~= Seq::new(n as nat, |k: int| area));
            out
        },
    }
}

fn bsp(area: Rect, n: usize, gap: u32) -> (r: Vec<Rect>)
    ensures
        r@ == bsp_rects(area, n as nat, gap, area.w >= area.h),
{
    let mut out: Vec<Rect> = Vec::new();
    bsp_inner(&mut out, area, n, gap, area.w >= area.h);
    assert(out@ =~= bsp_rects(area, n as nat, gap, area.w >= area.h));
    out
}

fn bsp_inner(out: &mut Vec<Rect>, area: Rect, n: usize, gap: u32, across: bool)
    ensures
        final(out)@ == old(out)@ + bsp_rects(area, n as nat, gap, across),
    decreases n,
{
    if n == 0 {
        assert(out@ =~= old(out)@ + Seq::<Rect>::empty());
        return;
    }
    if n == 1 {
        out.push(area);
        assert(out@ =~= old(out)@ + seq![area]);
        return;
    }
    let len: u32 = if across {
        area.w
    } else {
        area.h
    };
    let half: u32 = len.saturating_sub(gap) / 2;
    let used: u64 = half as u64 + gap as u64;
    let rest: u32 = if len as u64 >= used {
        (len as u64 - used) as u32
    } else {
        0
    };
    if across {
        let first = Rect::new(area.x, area.y, half, area.h);
        let other = Rect::new(capped(area.x as u128 + used as u128), area.y, rest, area.h);
        out.push(first);
        bsp_inner(out, other, n - 1, gap, false);
        assert(out@ =~= old(out)@ + bsp_rects(area, n as nat, gap, across));
    } else {
        let first = Rect::new(area.x, area.y, area.w, half);
        let other = Rect::new(area.x, capped(area.y as u128 + used as u128), area.w, rest);
        out.push(first);
        bsp_inner(out, other, n - 1, gap, true);
        assert(out@ =~= old(out)@ + bsp_rects(area, n as nat, gap, across));
    }
}

/// Start and size of part `i` of `count` parts of `len`.
fn part(len: u32, count: usize, gap: u32, i: usize) -> (r: (u128, u32))
    requires
        i < count,
    ensures
        r.0 == part_start(len, count as int, gap, i as int),
        r.1 == part_size(len, count as int, gap, i as int),
        r.0 <= 0x1_0000_0000_0000_0000 * 0x2_0000_0000,
{
    assert(gap * (count - 1) <= 0xFFFF_FFFF * 0xFFFF_FFFF_FFFF_FFFF) by (nonlinear_arith)
        requires
            gap <= 0xFFFF_FFFF,
            1 <= count <= 0xFFFF_FFFF_FFFF_FFFF,
    ;
    assert(0 <= gap * (count - 1)) by (nonlinear_arith)
        requires
            count >= 1,
            gap >= 0,
    ;
    let gaps: u128 = gap as u128 * (count as u128 - 1);
    let free: u128 = if len as u128 >= gaps {
        len as u128 - gaps
    } else {
        0
    };
    let each: u128 = free / count as u128;
    assert(each <= free) by (nonlinear_arith)
        requires
            each == free / count as u128,
            count >= 1,
    ;
    let step: u128 = each + gap as u128;
    assert(0 <= i * step <= 0x1_0000_0000_0000_0000 * 0x2_0000_0000) by (nonlinear_arith)
        requires
            0 <= i <= 0x1_0000_0000_0000_0000,
            0 <= step <= 0x2_0000_0000,
    ;
    let start: u128 = i as u128 * step;
    assert(start == part_start(len, count as int, gap, i as int));
    let size: u32 = if i == count - 1 {
        if len as u128 >= start {
            (len as u128 - start) as u32
        } else {
            0
        }
    } else {
        each as u32
    };
    (start, size)
}

/// Appends `count` panes below each other.
fn push_stack(out: &mut Vec<Rect>, area: Rect, x: u32, w: u32, count: usize, gap: u32)
    ensures
        final(out)@ == old(out)@ + stacked(area, x, w, count as nat, gap),
{
    let ghost all = stacked(area, x, w, count as nat, gap);
    let mut i: usize = 0;
    assert(out@ =~= old(out)@ + all.take(0));
    while i < count
        invariant
            i <= count,
            all == stacked(area, x, w, count as nat, gap),
            out@ == old(out)@ + all.take(i as int),
        decreases count - i,
    {
        let (start, size): (u128, u32) = part(area.h, count, gap, i);
        let r = Rect::new(x, capped(area.y as u128 + start), w, size);
        assert(r == all[i as int]);
        out.push(r);
        i += 1;
        assert(all.take(i as int) =~= all.take(i - 1).push(all[i - 1]));
        assert(out@ =~= old(out)@ + all.take(i as int));
    }
    assert(all.take(i as int) =~= all);
}

/// Appends `count` panes next to each other.
fn push_line(out: &mut Vec<Rect>, area: Rect, y: u32, h: u32, count: usize, gap: u32)
    ensures
        final(out)@ == old(out)@ + lined_up(area, y, h, count as nat, gap),
{
    let ghost all = lined_up(area, y, h, count as nat, gap);
    let mut i: usize = 0;
    assert(out@ =~= old(out)@ + all.take(0));
    while i < count
        invariant
            i <= count,
            all == lined_up(area, y, h, count as nat, gap),
            out@ == old(out)@ + all.take(i as int),
        decreases count - i,
    {
        let (start, size): (u128, u32) = part(area.w, count, gap, i);
        let r = Rect::new(capped(area.x as u128 + start), y, size, h);
        assert(r == all[i as int]);
        out.push(r);
        i += 1;
        assert(all.take(i as int) =~= all.take(i - 1).push(all[i - 1]));
        assert(out@ =~= old(out)@ + all.take(i as int));
    }
    assert(all.take(i as int) =~= all);
}

fn at_least(n: u32, least: u32) -> (r: u32)
    ensures
        r == max_of(n as int, least as int),
{
    if n >= least {
        n
    } else {
        least
    }
}

/// `len` without a main pane and `gaps`.
fn left_over(len: u32, main: u32, gaps: u64) -> (r: u32)
    requires
        gaps <= 0x2_0000_0000,
    ensures
        r == minus(len as int, main + gaps),
{
    let used: u64 = main as u64 + gaps;
    if len as u64 >= used {
        (len as u64 - used) as u32
    } else {
        0
    }
}

fn columns(area: Rect, n: usize, ratio: Ratio, gap: u32) -> (r: Vec<Rect>)
    requires
        n > 0,
        ratio.wf(),
    ensures
        r@ == column_rects(area, n as nat, ratio, gap),
{
    let mut out: Vec<Rect> = Vec::new();
    if n == 1 {
        out.push(area);
        assert(out@ =~= seq![area]);
        return out;
    }
    let main: u32 = at_least(ratio.of(area.w), 4);
    let side: u32 = left_over(area.w, main, gap as u64);
    out.push(Rect::new(area.x, area.y, main, area.h));
    let x: u32 = capped(area.x as u128 + main as u128 + gap as u128);
    push_stack(&mut out, area, x, side, n - 1, gap);
    assert(out@ =~= column_rects(area, n as nat, ratio, gap));
    out
}

fn rows(area: Rect, n: usize, ratio: Ratio, gap: u32) -> (r: Vec<Rect>)
    requires
        n > 0,
        ratio.wf(),
    ensures
        r@ == row_rects(area, n as nat, ratio, gap),
{
    let mut out: Vec<Rect> = Vec::new();
    if n == 1 {
        out.push(area);
        assert(out@ =~= seq![area]);
        return out;
    }
    let main: u32 = at_least(ratio.of(area.h), 3);
    let side: u32 = left_over(area.h, main, gap as u64);
    out.push(Rect::new(area.x, area.y, area.w, main));
    let y: u32 = capped(area.y as u128 + main as u128 + gap as u128);
    push_line(&mut out, area, y, side, n - 1, gap);
    assert(out@ =~= row_rects(area, n as nat, ratio, gap));
    out
}

fn three_col(area: Rect, n: usize, ratio: Ratio, gap: u32) -> (r: Vec<Rect>)
    requires
        n > 0,
        ratio.wf(),
    ensures
        r@ == three_col_rects(area, n as nat, ratio, gap),
{
    if n <= 2 {
        return columns(area, n, ratio, gap);
    }
    let mut out: Vec<Rect> = Vec::new();
    let main: u32 = at_least(ratio.of(area.w), 4);
    let side: u32 = left_over(area.w, main, 2 * gap as u64) / 2;
    let cx: u128 = area.x as u128 + side as u128 + gap as u128;
    let left: usize = (n - 1) / 2;
    let right: usize = (n - 1) - left;
    out.push(Rect::new(capped(cx), area.y, main, area.h));
    push_stack(&mut out, area, area.x, side, left, gap);
    push_stack(&mut out, area, capped(cx + main as u128 + gap as u128), side, right, gap);
    assert(out@ =~= three_col_rects(area, n as nat, ratio, gap));
    out
}

// ── Laws ─────────────────────────────────────────────────────────────────────

/// Every layout gives each pane a rectangle.
pub proof fn law_one_rect_for_each_pane(
    layout: Layout,
    area: Rect,
    n: nat,
    ratio: Ratio,
    gap: u32,
)
    ensures
        rects_of(layout, area, n, ratio, gap).len() == n,
{
    if layout == Layout::Bsp {
        lemma_bsp_len(area, n, gap, area.w >= area.h);
    }
}

proof fn lemma_bsp_len(area: Rect, n: nat, gap: u32, across: bool)
    ensures
        bsp_rects(area, n, gap, across).len() == n,
    decreases n,
{
    if n > 1 {
        if across {
            let half = minus(area.w as int, gap as int) / 2;
            let rest = minus(area.w as int, half + gap);
            let right = Rect { x: cap(area.x + half + gap), w: rest as u32, ..area };
            lemma_bsp_len(right, (n - 1) as nat, gap, false);
        } else {
            let half = minus(area.h as int, gap as int) / 2;
            let rest = minus(area.h as int, half + gap);
            let low = Rect { y: cap(area.y + half + gap), h: rest as u32, ..area };
            lemma_bsp_len(low, (n - 1) as nat, gap, true);
        }
    }
}

/// Whether `r` starts inside `area`, is no larger, and is inside it unless it
/// is empty.
pub open spec fn placed(r: Rect, area: Rect) -> bool {
    &&& r.x >= area.x
    &&& r.y >= area.y
    &&& r.empty() || r.within(area)
}

proof fn lemma_bsp_placed(area: Rect, n: nat, gap: u32, across: bool, i: int)
    requires
        area.fits(),
        0 <= i < bsp_rects(area, n, gap, across).len(),
    ensures
        placed(bsp_rects(area, n, gap, across)[i], area),
        bsp_rects(area, n, gap, across)[i].w <= area.w,
        bsp_rects(area, n, gap, across)[i].h <= area.h,
    decreases n,
{
    if n > 1 && i > 0 {
        if across {
            let half = minus(area.w as int, gap as int) / 2;
            let rest = minus(area.w as int, half + gap);
            let right = Rect { x: cap(area.x + half + gap), w: rest as u32, ..area };
            lemma_bsp_placed(right, (n - 1) as nat, gap, false, i - 1);
        } else {
            let half = minus(area.h as int, gap as int) / 2;
            let rest = minus(area.h as int, half + gap);
            let low = Rect { y: cap(area.y + half + gap), h: rest as u32, ..area };
            lemma_bsp_placed(low, (n - 1) as nat, gap, true, i - 1);
        }
    }
}

proof fn lemma_bsp_apart(area: Rect, n: nat, gap: u32, across: bool, i: int, j: int)
    requires
        area.fits(),
        0 <= i < j < bsp_rects(area, n, gap, across).len(),
    ensures
        bsp_rects(area, n, gap, across)[i].apart(bsp_rects(area, n, gap, across)[j]),
    decreases n,
{
    if n > 1 {
        if across {
            let half = minus(area.w as int, gap as int) / 2;
            let rest = minus(area.w as int, half + gap);
            let right = Rect { x: cap(area.x + half + gap), w: rest as u32, ..area };
            if i == 0 {
                lemma_bsp_placed(right, (n - 1) as nat, gap, false, j - 1);
            } else {
                lemma_bsp_apart(right, (n - 1) as nat, gap, false, i - 1, j - 1);
            }
        } else {
            let half = minus(area.h as int, gap as int) / 2;
            let rest = minus(area.h as int, half + gap);
            let low = Rect { y: cap(area.y + half + gap), h: rest as u32, ..area };
            if i == 0 {
                lemma_bsp_placed(low, (n - 1) as nat, gap, true, j - 1);
            } else {
                lemma_bsp_apart(low, (n - 1) as nat, gap, true, i - 1, j - 1);
            }
        }
    }
}

/// Parts come one after the other, and end with the whole.
proof fn lemma_parts(len: u32, count: int, gap: u32, i: int, j: int)
    requires
        0 <= i < j < count,
    ensures
        0 <= part_start(len, count, gap, i),
        part_start(len, count, gap, i) + part_size(len, count, gap, i) <= part_start(
            len,
            count,
            gap,
            j,
        ),
        part_len(len, count, gap) > 0 ==> part_start(len, count, gap, j) <= len,
{
    lemma_part(len, count, gap, j);
    let step = part_len(len, count, gap) + gap;
    assert(0 <= i * step && (i + 1) * step <= j * step && (i + 1) * step == i * step + step)
        by (nonlinear_arith)
        requires
            0 <= i,
            i + 1 <= j,
            step >= 0,
    ;
}

proof fn lemma_part(len: u32, count: int, gap: u32, i: int)
    requires
        0 <= i < count,
    ensures
        0 <= part_len(len, count, gap) <= len,
        0 <= part_start(len, count, gap, i),
        0 <= part_size(len, count, gap, i) <= len,
        part_size(len, count, gap, i) > 0 ==> part_start(len, count, gap, i) + part_size(
            len,
            count,
            gap,
            i,
        ) <= len,
        part_len(len, count, gap) > 0 ==> part_start(len, count, gap, i) <= len,
{
    let gaps = gap * (count - 1);
    assert(gaps >= 0) by (nonlinear_arith)
        requires
            gaps == gap * (count - 1),
            gap >= 0,
            count >= 1,
    ;
    let free = minus(len as int, gaps);
    let each = part_len(len, count, gap);
    assert(each == free / count);
    assert(0 <= each && each <= free && count * each <= free) by (nonlinear_arith)
        requires
            each == free / count,
            count >= 1,
            free >= 0,
    ;
    let start = part_start(len, count, gap, i);
    assert(start == i * (each + gap));
    assert(0 <= start) by (nonlinear_arith)
        requires
            start == i * (each + gap),
            0 <= i,
            each >= 0,
            gap >= 0,
    ;
    if each > 0 {
        assert(free == len - gaps);
        assert(start + each <= len) by (nonlinear_arith)
            requires
                start == i * (each + gap),
                i <= count - 1,
                0 <= i,
                count * each <= len - gaps,
                gaps == gap * (count - 1),
                each >= 0,
                gap >= 0,
        ;
    }
}

/// Whether precision does not affect lengths in `area`.
pub open spec fn moderate(area: Rect) -> bool {
    area.x < 0x100_0000 && area.y < 0x100_0000 && area.w < 0x100_0000 && area.h < 0x100_0000
}

proof fn lemma_stacked_apart(area: Rect, x: u32, w: u32, count: nat, gap: u32, i: int, j: int)
    requires
        moderate(area),
        0 <= i < j < count,
    ensures
        stacked(area, x, w, count, gap)[i].apart(stacked(area, x, w, count, gap)[j]),
{
    lemma_parts(area.h, count as int, gap, i, j);
    lemma_part(area.h, count as int, gap, i);
    lemma_part(area.h, count as int, gap, j);
}

proof fn lemma_lined_up_apart(area: Rect, y: u32, h: u32, count: nat, gap: u32, i: int, j: int)
    requires
        moderate(area),
        0 <= i < j < count,
    ensures
        lined_up(area, y, h, count, gap)[i].apart(lined_up(area, y, h, count, gap)[j]),
{
    lemma_parts(area.w, count as int, gap, i, j);
    lemma_part(area.w, count as int, gap, i);
    lemma_part(area.w, count as int, gap, j);
}

proof fn lemma_columns_apart(area: Rect, n: nat, ratio: Ratio, gap: u32, i: int, j: int)
    requires
        moderate(area),
        ratio.wf(),
        0 <= i < j < n,
    ensures
        column_rects(area, n, ratio, gap)[i].apart(column_rects(area, n, ratio, gap)[j]),
{
    law_share_is_part(area.w, ratio);
    if i > 0 {
        let main = main_len(area.w, ratio, 4);
        let side = minus(area.w as int, main + gap);
        lemma_stacked_apart(
            area,
            cap(area.x + main + gap),
            side as u32,
            (n - 1) as nat,
            gap,
            i - 1,
            j - 1,
        );
    }
}

proof fn lemma_rows_apart(area: Rect, n: nat, ratio: Ratio, gap: u32, i: int, j: int)
    requires
        moderate(area),
        ratio.wf(),
        0 <= i < j < n,
    ensures
        row_rects(area, n, ratio, gap)[i].apart(row_rects(area, n, ratio, gap)[j]),
{
    law_share_is_part(area.h, ratio);
    if i > 0 {
        let main = main_len(area.h, ratio, 3);
        let side = minus(area.h as int, main + gap);
        lemma_lined_up_apart(
            area,
            cap(area.y + main + gap),
            side as u32,
            (n - 1) as nat,
            gap,
            i - 1,
            j - 1,
        );
    }
}

proof fn lemma_three_col_apart(area: Rect, n: nat, ratio: Ratio, gap: u32, i: int, j: int)
    requires
        moderate(area),
        gap < 0x100_0000,
        ratio.wf(),
        n > 2,
        0 <= i < j < n,
    ensures
        three_col_rects(area, n, ratio, gap)[i].apart(three_col_rects(area, n, ratio, gap)[j]),
{
    law_share_is_part(area.w, ratio);
    let main = main_len(area.w, ratio, 4);
    let side = minus(area.w as int, main + 2 * gap) / 2;
    let cx = area.x + side + gap;
    let left = (n - 1) as nat / 2;
    let right = ((n - 1) - left) as nat;
    let all = three_col_rects(area, n, ratio, gap);
    let l = stacked(area, area.x, side as u32, left, gap);
    let r = stacked(area, cap(cx + main + gap), side as u32, right, gap);
    assert(forall|k: int| 1 <= k <= left ==> #[trigger] all[k] == l[k - 1]);
    assert(forall|k: int| left < k < n ==> #[trigger] all[k] == r[k - 1 - left]);
    if i > 0 && j <= left {
        lemma_stacked_apart(area, area.x, side as u32, left, gap, i - 1, j - 1);
    } else if i > left {
        lemma_stacked_apart(
            area,
            cap(cx + main + gap),
            side as u32,
            right,
            gap,
            i - 1 - left,
            j - 1 - left,
        );
    }
}

/// Tiled panes do not overlap. Only in the layout that shows one pane at a
/// time do all of them cover the area.
pub proof fn law_tiles_do_not_overlap(
    layout: Layout,
    area: Rect,
    n: nat,
    ratio: Ratio,
    gap: u32,
    i: int,
    j: int,
)
    requires
        layout != Layout::Monocle,
        moderate(area),
        gap < 0x100_0000,
        ratio.wf(),
        0 <= i < n,
        0 <= j < n,
        i != j,
    ensures
        rects_of(layout, area, n, ratio, gap)[i].apart(rects_of(layout, area, n, ratio, gap)[j]),
{
    law_one_rect_for_each_pane(layout, area, n, ratio, gap);
    let (a, b) = if i < j {
        (i, j)
    } else {
        (j, i)
    };
    match layout {
        Layout::Bsp => {
            lemma_bsp_apart(area, n, gap, area.w >= area.h, a, b);
        },
        Layout::Columns => {
            lemma_columns_apart(area, n, ratio, gap, a, b);
        },
        Layout::Rows => {
            lemma_rows_apart(area, n, ratio, gap, a, b);
        },
        Layout::ThreeCol => {
            if n == 2 {
                lemma_columns_apart(area, n, ratio, gap, a, b);
            } else {
                lemma_three_col_apart(area, n, ratio, gap, a, b);
            }
        },
        Layout::Monocle => {},
    }
}

/// Whether the area has room for the main pane, which has a least length, and
/// for the gap before it where there is one.
pub open spec fn main_fits(layout: Layout, area: Rect, n: nat, ratio: Ratio, gap: u32) -> bool {
    match layout {
        Layout::Columns => n <= 1 || area.w >= 4,
        Layout::Rows => n <= 1 || area.h >= 3,
        Layout::ThreeCol => if n <= 2 {
            n <= 1 || area.w >= 4
        } else {
            main_len(area.w, ratio, 4) + gap <= area.w
        },
        _ => true,
    }
}

/// Tiled panes stay inside the area, unless they are empty, where the main
/// pane fits.
pub proof fn law_tiles_stay_inside(
    layout: Layout,
    area: Rect,
    n: nat,
    ratio: Ratio,
    gap: u32,
    i: int,
)
    requires
        moderate(area),
        gap < 0x100_0000,
        main_fits(layout, area, n, ratio, gap),
        ratio.wf(),
        0 <= i < n,
    ensures
        placed(rects_of(layout, area, n, ratio, gap)[i], area),
{
    law_one_rect_for_each_pane(layout, area, n, ratio, gap);
    law_share_is_part(area.w, ratio);
    law_share_is_part(area.h, ratio);
    match layout {
        Layout::Bsp => {
            lemma_bsp_placed(area, n, gap, area.w >= area.h, i);
        },
        Layout::Columns => {
            if i > 0 {
                lemma_part(area.h, n - 1, gap, i - 1);
            }
        },
        Layout::Rows => {
            if i > 0 {
                lemma_part(area.w, n - 1, gap, i - 1);
            }
        },
        Layout::ThreeCol => {
            if n == 2 {
                if i > 0 {
                    lemma_part(area.h, n - 1, gap, i - 1);
                }
            } else if n > 2 {
                let left = (n - 1) as nat / 2;
                let right = ((n - 1) - left) as nat;
                if 1 <= i <= left {
                    lemma_part(area.h, left as int, gap, i - 1);
                } else if i > left {
                    lemma_part(area.h, right as int, gap, i - 1 - left);
                }
            }
        },
        Layout::Monocle => {},
    }
}

} // verus!
