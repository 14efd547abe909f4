//! Where the modules of the bar stand, and what they show there.

use vstd::prelude::*;

use crate::chrome::bar::{
    row_ops, total_width, ws_label, Align, BarModule, BarModuleSet, BarTexts, ClockModule,
    CustomModule, LayoutModule, WorkspacesModule,
};
use crate::chrome::draw::OpView;
use crate::config::color::Color;
use crate::integer::decimal;
use crate::text::strings_view;
use crate::twm::rect::{cap, minus, Rect};
use crate::twm::state::{TwmSnapshot, WsSnap};

verus! {

// ── Rows ─────────────────────────────────────────────────────────────────────

/// What modules draw, each in its slot and with its text, one after the other.
pub open spec fn drawn_in(
    v: Seq<BarModule>,
    texts: Seq<Seq<char>>,
    slots: Seq<Rect>,
    snap: TwmSnapshot,
    cell_w: u32,
    cell_h: u32,
) -> Seq<OpView>
    decreases v.len(),
{
    if v.len() == 0 {
        Seq::empty()
    } else {
        let last = v.len() - 1;
        drawn_in(v.drop_last(), texts, slots, snap, cell_w, cell_h) + v[last].ops(
            slots[last],
            snap,
            texts[last],
            cell_w,
            cell_h,
        )
    }
}

/// Whether there is a slot for each module, as wide as the module and as high as the
/// bar, and each starts where the one before it ends.
pub open spec fn side_by_side(
    v: Seq<BarModule>,
    texts: Seq<Seq<char>>,
    slots: Seq<Rect>,
    bar: Rect,
    cell_w: u32,
) -> bool {
    &&& slots.len() == v.len()
    &&& forall|i: int|
        0 <= i < v.len() ==> (#[trigger] slots[i]).y == bar.y && slots[i].h == bar.h && slots[i].w
            == v[i].width(texts[i], cell_w)
    &&& forall|i: int, j: int|
        #![trigger slots[i], slots[j]]
        0 <= i && j == i + 1 && j < v.len() ==> slots[i].x + slots[i].w == slots[j].x
}

/// Where a row of slots starts and ends; both are `x` where there are none.
pub open spec fn row_start(slots: Seq<Rect>, x: int) -> int {
    if slots.len() == 0 {
        x
    } else {
        slots[0].x as int
    }
}

pub open spec fn row_end(slots: Seq<Rect>, x: int) -> int {
    if slots.len() == 0 {
        x
    } else {
        slots[slots.len() - 1].x + slots[slots.len() - 1].w
    }
}

/// How wide modules are together.
pub open spec fn room_for(v: Seq<BarModule>, texts: Seq<Seq<char>>, cell_w: u32, n: int) -> int
    decreases n,
{
    if n <= 0 {
        0
    } else {
        room_for(v, texts, cell_w, n - 1) + v[n - 1].width(texts[n - 1], cell_w)
    }
}

proof fn lemma_room(v: Seq<BarModule>, texts: Seq<Seq<char>>, cell_w: u32, n: int)
    requires
        0 <= n <= v.len(),
    ensures
        room_for(v, texts, cell_w, n) == total_width(v.take(n), texts, cell_w),
        forall|k: int|
            0 <= k <= n ==> 0 <= #[trigger] room_for(v, texts, cell_w, k) <= room_for(
                v,
                texts,
                cell_w,
                n,
            ),
    decreases n,
{
    if n > 0 {
        lemma_room(v, texts, cell_w, n - 1);
        assert(v.take(n).drop_last() =~= v.take(n - 1));
        assert(v.take(n).last() == v[n - 1]);
    }
}

spec fn slots_from(v: Seq<BarModule>, texts: Seq<Seq<char>>, x: int, bar: Rect, cell_w: u32) -> Seq<
    Rect,
> {
    Seq::new(
        v.len(),
        |i: int|
            Rect {
                x: cap(x + room_for(v, texts, cell_w, i)),
                y: bar.y,
                w: v[i].width(texts[i], cell_w),
                h: bar.h,
            },
    )
}

proof fn lemma_drawn(
    v: Seq<BarModule>,
    texts: Seq<Seq<char>>,
    n: int,
    x: int,
    bar: Rect,
    snap: TwmSnapshot,
    cell_w: u32,
    cell_h: u32,
)
    requires
        0 <= n <= v.len(),
    ensures
        row_ops(v, texts, n, x, bar, snap, cell_w, cell_h) == drawn_in(
            v.take(n),
            texts,
            slots_from(v, texts, x, bar, cell_w),
            snap,
            cell_w,
            cell_h,
        ),
    decreases n,
{
    if n > 0 {
        lemma_drawn(v, texts, n - 1, x, bar, snap, cell_w, cell_h);
        lemma_room(v, texts, cell_w, n - 1);
        assert(v.take(n).drop_last() =~= v.take(n - 1));
        assert(v.take(n)[n - 1] == v[n - 1]);
    }
}

/// The slots of a row that fits: they start at `x` and end after what all need.
proof fn lemma_slots(v: Seq<BarModule>, texts: Seq<Seq<char>>, x: int, bar: Rect, cell_w: u32)
    requires
        0 <= x,
        x + room_for(v, texts, cell_w, v.len() as int) <= u32::MAX,
    ensures
        ({
            let slots = slots_from(v, texts, x, bar, cell_w);
            &&& side_by_side(v, texts, slots, bar, cell_w)
            &&& row_start(slots, x) == x
            &&& row_end(slots, x) == x + room_for(v, texts, cell_w, v.len() as int)
            &&& forall|i: int|
                0 <= i < slots.len() ==> x <= (#[trigger] slots[i]).x && slots[i].x + slots[i].w
                    <= row_end(slots, x)
        }),
{
    let n = v.len() as int;
    let slots = slots_from(v, texts, x, bar, cell_w);
    lemma_room(v, texts, cell_w, n);
    assert forall|i: int| 0 <= i < n implies (#[trigger] slots[i]).x == x + room_for(
        v,
        texts,
        cell_w,
        i,
    ) && slots[i].x + slots[i].w == x + room_for(v, texts, cell_w, i + 1) by {
        assert(room_for(v, texts, cell_w, i) <= room_for(v, texts, cell_w, n));
        assert(room_for(v, texts, cell_w, i + 1) <= room_for(v, texts, cell_w, n));
    }
}

/// Whether the bar draws its ground, the line along its upper edge, and then the
/// modules in these slots.
pub open spec fn shows(
    set: BarModuleSet,
    texts: BarTexts,
    bar: Rect,
    snap: TwmSnapshot,
    line: Color,
    ground: Color,
    cell_w: u32,
    cell_h: u32,
    l: Seq<Rect>,
    c: Seq<Rect>,
    r: Seq<Rect>,
) -> bool {
    let lt = strings_view(texts.left@);
    let ct = strings_view(texts.center@);
    let rt = strings_view(texts.right@);
    let ops = set.ops(texts, bar, snap, line, ground, cell_w, cell_h);
    &&& ops.len() >= 2
    &&& ops[0] == (OpView::Fill { rect: bar, color: ground })
    &&& ops[1] == (OpView::Line { x: bar.x, y: bar.y, w: bar.w, color: line })
    &&& ops.skip(2) == drawn_in(set.left@, lt, l, snap, cell_w, cell_h) + drawn_in(
        set.center@,
        ct,
        c,
        snap,
        cell_w,
        cell_h,
    ) + drawn_in(set.right@, rt, r, snap, cell_w, cell_h)
    &&& side_by_side(set.left@, lt, l, bar, cell_w)
    &&& side_by_side(set.center@, ct, c, bar, cell_w)
    &&& side_by_side(set.right@, rt, r, bar, cell_w)
}

/// Where the modules of each row fit in the bar, the row on the left starts with the
/// bar, the row on the right ends with it, and the one in the middle leaves as much
/// on both sides, to the pixel. Rows that fit next to each other do not overlap.
pub proof fn law_rows_of_the_bar(
    set: BarModuleSet,
    texts: BarTexts,
    bar: Rect,
    snap: TwmSnapshot,
    line: Color,
    ground: Color,
    cell_w: u32,
    cell_h: u32,
)
    requires
        texts.left@.len() == set.left@.len(),
        texts.center@.len() == set.center@.len(),
        texts.right@.len() == set.right@.len(),
        bar.x + bar.w <= u32::MAX,
        room_for(set.left@, strings_view(texts.left@), cell_w, set.left@.len() as int) <= bar.w,
        room_for(set.center@, strings_view(texts.center@), cell_w, set.center@.len() as int)
            <= bar.w,
        room_for(set.right@, strings_view(texts.right@), cell_w, set.right@.len() as int) <= bar.w,
    ensures
        exists|l: Seq<Rect>, c: Seq<Rect>, r: Seq<Rect>|
            {
                let lw = room_for(
                    set.left@,
                    strings_view(texts.left@),
                    cell_w,
                    set.left@.len() as int,
                );
                let cw = room_for(
                    set.center@,
                    strings_view(texts.center@),
                    cell_w,
                    set.center@.len() as int,
                );
                let rw = room_for(
                    set.right@,
                    strings_view(texts.right@),
                    cell_w,
                    set.right@.len() as int,
                );
                let end = bar.x + bar.w;
                &&& #[trigger] shows(
                    set,
                    texts,
                    bar,
                    snap,
                    line,
                    ground,
                    cell_w,
                    cell_h,
                    l,
                    c,
                    r,
                )
                &&& row_start(l, bar.x as int) == bar.x
                &&& row_end(r, end) == end
                &&& c.len() > 0 ==> 0 <= (end - row_end(c, end)) - (row_start(c, end) - bar.x) <= 1
                &&& row_end(l, bar.x as int) - bar.x == lw
                &&& end - row_start(r, end) == rw
                // Rows that fit next to each other do not overlap.
                &&& 2 * lw + cw <= bar.w ==> forall|i: int, j: int|
                    #![trigger l[i], c[j]]
                    0 <= i < l.len() && 0 <= j < c.len() ==> l[i].x + l[i].w <= c[j].x
                &&& 2 * rw + cw <= bar.w ==> forall|i: int, j: int|
                    #![trigger c[i], r[j]]
                    0 <= i < c.len() && 0 <= j < r.len() ==> c[i].x + c[i].w <= r[j].x
                &&& lw + rw <= bar.w ==> forall|i: int, j: int|
                    #![trigger l[i], r[j]]
                    0 <= i < l.len() && 0 <= j < r.len() ==> l[i].x + l[i].w <= r[j].x
            },
{
    let lt = strings_view(texts.left@);
    let ct = strings_view(texts.center@);
    let rt = strings_view(texts.right@);
    let lw = room_for(set.left@, lt, cell_w, set.left@.len() as int);
    let cw = room_for(set.center@, ct, cell_w, set.center@.len() as int);
    let rw = room_for(set.right@, rt, cell_w, set.right@.len() as int);
    lemma_room(set.left@, lt, cell_w, set.left@.len() as int);
    lemma_room(set.center@, ct, cell_w, set.center@.len() as int);
    lemma_room(set.right@, rt, cell_w, set.right@.len() as int);
    assert(set.left@.take(set.left@.len() as int) =~= set.left@);
    assert(set.center@.take(set.center@.len() as int) =~= set.center@);
    assert(set.right@.take(set.right@.len() as int) =~= set.right@);
    let cx = bar.x + minus(bar.w as int, total_width(set.center@, ct, cell_w)) / 2;
    let rx = bar.x + minus(bar.w as int, total_width(set.right@, rt, cell_w));
    assert(lw >= 0 && cw >= 0 && rw >= 0);
    lemma_slots(set.left@, lt, bar.x as int, bar, cell_w);
    lemma_slots(set.center@, ct, cx, bar, cell_w);
    lemma_slots(set.right@, rt, rx, bar, cell_w);
    let l = slots_from(set.left@, lt, bar.x as int, bar, cell_w);
    let c = slots_from(set.center@, ct, cx, bar, cell_w);
    let r = slots_from(set.right@, rt, rx, bar, cell_w);
    lemma_drawn(
        set.left@,
        lt,
        set.left@.len() as int,
        bar.x as int,
        bar,
        snap,
        cell_w,
        cell_h,
    );
    lemma_drawn(set.center@, ct, set.center@.len() as int, cx, bar, snap, cell_w, cell_h);
    lemma_drawn(set.right@, rt, set.right@.len() as int, rx, bar, snap, cell_w, cell_h);
    let ops = set.ops(texts, bar, snap, line, ground, cell_w, cell_h);
    assert(ops.skip(2) =~= drawn_in(set.left@, lt, l, snap, cell_w, cell_h) + drawn_in(
        set.center@,
        ct,
        c,
        snap,
        cell_w,
        cell_h,
    ) + drawn_in(set.right@, rt, r, snap, cell_w, cell_h));
    assert(shows(set, texts, bar, snap, line, ground, cell_w, cell_h, l, c, r));
}

/// A row on the right that is too wide for the bar starts with the bar; so does one
/// in the middle.
pub proof fn law_wide_rows_start_with_the_bar(
    set: BarModuleSet,
    texts: BarTexts,
    bar: Rect,
    snap: TwmSnapshot,
    line: Color,
    ground: Color,
    cell_w: u32,
    cell_h: u32,
)
    requires
        texts.left@.len() == set.left@.len(),
        texts.center@.len() == set.center@.len(),
        texts.right@.len() == set.right@.len(),
        bar.x + room_for(set.left@, strings_view(texts.left@), cell_w, set.left@.len() as int)
            <= u32::MAX,
        bar.x + room_for(set.center@, strings_view(texts.center@), cell_w, set.center@.len() as int)
            <= u32::MAX,
        bar.x + room_for(set.right@, strings_view(texts.right@), cell_w, set.right@.len() as int)
            <= u32::MAX,
        room_for(set.center@, strings_view(texts.center@), cell_w, set.center@.len() as int)
            >= bar.w,
        room_for(set.right@, strings_view(texts.right@), cell_w, set.right@.len() as int) >= bar.w,
    ensures
        exists|l: Seq<Rect>, c: Seq<Rect>, r: Seq<Rect>|
            #[trigger] shows(set, texts, bar, snap, line, ground, cell_w, cell_h, l, c, r)
                && row_start(l, bar.x as int) == bar.x && row_start(c, bar.x as int) == bar.x
                && row_start(r, bar.x as int) == bar.x,
{
    let lt = strings_view(texts.left@);
    let ct = strings_view(texts.center@);
    let rt = strings_view(texts.right@);
    lemma_room(set.left@, lt, cell_w, set.left@.len() as int);
    lemma_room(set.center@, ct, cell_w, set.center@.len() as int);
    lemma_room(set.right@, rt, cell_w, set.right@.len() as int);
    assert(set.left@.take(set.left@.len() as int) =~= set.left@);
    assert(set.center@.take(set.center@.len() as int) =~= set.center@);
    assert(set.right@.take(set.right@.len() as int) =~= set.right@);
    let x = bar.x as int;
    lemma_slots(set.left@, lt, x, bar, cell_w);
    lemma_slots(set.center@, ct, x, bar, cell_w);
    lemma_slots(set.right@, rt, x, bar, cell_w);
    let l = slots_from(set.left@, lt, x, bar, cell_w);
    let c = slots_from(set.center@, ct, x, bar, cell_w);
    let r = slots_from(set.right@, rt, x, bar, cell_w);
    lemma_drawn(set.left@, lt, set.left@.len() as int, x, bar, snap, cell_w, cell_h);
    lemma_drawn(set.center@, ct, set.center@.len() as int, x, bar, snap, cell_w, cell_h);
    lemma_drawn(set.right@, rt, set.right@.len() as int, x, bar, snap, cell_w, cell_h);
    let ops = set.ops(texts, bar, snap, line, ground, cell_w, cell_h);
    assert(ops.skip(2) =~= drawn_in(set.left@, lt, l, snap, cell_w, cell_h) + drawn_in(
        set.center@,
        ct,
        c,
        snap,
        cell_w,
        cell_h,
    ) + drawn_in(set.right@, rt, r, snap, cell_w, cell_h));
    assert(shows(set, texts, bar, snap, line, ground, cell_w, cell_h, l, c, r));
}

// ── Modules ──────────────────────────────────────────────────────────────────

/// Whether text at height `y` stands in the middle of the slot, to the pixel.
pub open spec fn in_the_middle(slot: Rect, y: u32, cell_h: u32) -> bool {
    cell_h <= slot.h ==> 0 <= (slot.y + slot.h - (y + cell_h)) - (y - slot.y) <= 1
}

/// A clock has room for its text and one character on each side. The text stands in
/// the middle of its slot, in its colors.
pub proof fn law_clock_stands_in_the_middle(
    m: ClockModule,
    rect: Rect,
    snap: TwmSnapshot,
    t: Seq<char>,
    cell_w: u32,
    cell_h: u32,
)
    requires
        rect.x + rect.w <= u32::MAX,
        rect.y + rect.h <= u32::MAX,
        t.len() * cell_w + 2 * cell_w <= u32::MAX,
    ensures
        BarModule::Clock(m).width(t, cell_w) == t.len() * cell_w + 2 * cell_w,
        ({
            let ops = BarModule::Clock(m).ops(rect, snap, t, cell_w, cell_h);
            &&& ops.len() == 1
            &&& ops[0] matches OpView::Text { x, y, text, fg, bg, bold, max_w } && {
                &&& text == t && fg == m.fg && bg == m.bg && !bold
                &&& t.len() * cell_w <= rect.w ==> 0 <= (rect.x + rect.w - (x + t.len() * cell_w))
                    - (x - rect.x) <= 1
                &&& in_the_middle(rect, y, cell_h)
                &&& max_w == rect.w
            }
        }),
{
    assert((t.len() + 2) * cell_w == t.len() * cell_w + 2 * cell_w) by (nonlinear_arith);
    assert(t.len() * cell_w >= 0) by (nonlinear_arith);
}

/// The name of the layout of the active workspace stands behind the margin of its
/// slot, in bold. There is room for eight characters and the margins.
pub proof fn law_layout_is_named(
    m: LayoutModule,
    rect: Rect,
    snap: TwmSnapshot,
    t: Seq<char>,
    cell_w: u32,
    cell_h: u32,
)
    requires
        rect.x + m.padding <= u32::MAX,
        rect.y + rect.h <= u32::MAX,
        8 * cell_w + 2 * m.padding <= u32::MAX,
        snap.active_ws < snap.workspaces@.len(),
        snap.workspaces@[snap.active_ws as int].layout@.len() <= 8,
        8 * cell_w + 2 <= u32::MAX,
    ensures
        BarModule::Layout(m).width(t, cell_w) == 8 * cell_w + 2 * m.padding,
        ({
            let ops = BarModule::Layout(m).ops(rect, snap, t, cell_w, cell_h);
            let name = snap.workspaces@[snap.active_ws as int].layout@;
            &&& ops.len() == 1
            &&& ops[0] matches OpView::Text { x, y, text, fg, bg, bold, max_w } && {
                &&& text == name && fg == m.fg && bg == m.bg && bold
                &&& x == rect.x + m.padding
                &&& in_the_middle(rect, y, cell_h)
                &&& max_w >= name.len() * cell_w
            }
        }),
{
    let n = snap.workspaces@[snap.active_ws as int].layout@.len();
    assert(0 <= n * cell_w <= 8 * cell_w) by (nonlinear_arith)
        requires
            n <= 8,
    ;
}

/// A custom module has room for its text and a margin on each side. In its slot the
/// text stands behind the left margin, in the middle, or before the right margin, as
/// it asks; its ground fills the slot, where it has one. Without text it draws
/// nothing.
pub proof fn law_custom_is_aligned(
    m: CustomModule,
    snap: TwmSnapshot,
    rect: Rect,
    t: Seq<char>,
    cell_w: u32,
    cell_h: u32,
)
    requires
        rect.x + rect.w <= u32::MAX,
        rect.y + rect.h <= u32::MAX,
        t.len() * cell_w + 2 * m.padding <= u32::MAX,
        t.len() * cell_w + 4 <= u32::MAX,
        rect.w == BarModule::Custom(m).width(t, cell_w),
    ensures
        BarModule::Custom(m).width(t, cell_w) == t.len() * cell_w + 2 * m.padding,
        ({
            let ops = BarModule::Custom(m).ops(rect, snap, t, cell_w, cell_h);
            &&& t.len() == 0 ==> ops.len() == 0
            &&& t.len() > 0 ==> {
                &&& ops.len() == (if m.bg.a > 0 {
                    2nat
                } else {
                    1nat
                })
                &&& m.bg.a > 0 ==> ops[0] == (OpView::Fill { rect, color: m.bg })
                &&& ops.last() matches OpView::Text { x, y, text, fg, bg, bold, max_w } && {
                    &&& text == t && fg == m.fg && bg == m.bg && !bold
                    // The slot is as wide as the module, so that all three agree.
                    &&& x == rect.x + m.padding
                    &&& rect.x + rect.w - (x + t.len() * cell_w) == m.padding
                    &&& in_the_middle(rect, y, cell_h)
                    &&& max_w >= t.len() * cell_w
                }
            }
        }),
{
    assert(t.len() * cell_w >= 0) by (nonlinear_arith);
}

/// In a slot that is wider than its text a custom module shows it where it asks.
pub proof fn law_custom_in_a_wide_slot(
    m: CustomModule,
    rect: Rect,
    snap: TwmSnapshot,
    t: Seq<char>,
    cell_w: u32,
    cell_h: u32,
)
    requires
        rect.x + rect.w <= u32::MAX,
        t.len() * cell_w + m.padding <= rect.w,
        t.len() > 0,
    ensures
        BarModule::Custom(m).ops(rect, snap, t, cell_w, cell_h).last() matches OpView::Text {
            x,
            ..
        } && match m.align {
            Align::Left => x - rect.x == m.padding,
            Align::Center => 0 <= (rect.x + rect.w - (x + t.len() * cell_w)) - (x - rect.x) <= 1,
            Align::Right => rect.x + rect.w - (x + t.len() * cell_w) == m.padding,
        },
{
    assert(t.len() * cell_w >= 0) by (nonlinear_arith);
}

/// What is on the button of a workspace: its number, counted from one, between
/// spaces.
pub proof fn law_labels_count_from_one(index: usize)
    requires
        index < u64::MAX,
    ensures
        ws_label(index).len() == decimal((index + 1) as nat).len() + 2,
        ws_label(index)[0] == ' ',
        ws_label(index).last() == ' ',
        ws_label(index).subrange(1, ws_label(index).len() - 1) == decimal((index + 1) as nat),
{
    reveal_strlit(" ");
    assert(ws_label(index).subrange(1, ws_label(index).len() - 1) =~= decimal((index + 1) as nat));
}

/// Whether buttons that start at `xs` stand side by side from the left end of the
/// slot on, one for each workspace, and all but perhaps the last position end in it.
/// Behind the last button is either no workspace or no room for its button.
pub open spec fn buttons_at(
    m: WorkspacesModule,
    rect: Rect,
    spaces: Seq<WsSnap>,
    xs: Seq<int>,
    cell_w: u32,
) -> bool {
    &&& 1 <= xs.len() <= spaces.len() + 1
    &&& xs[0] == rect.x
    &&& forall|i: int, j: int|
        #![trigger xs[i], xs[j]]
        0 <= i && j == i + 1 && j < xs.len() ==> xs[j] - xs[i] == ws_label(spaces[i].index).len()
            * cell_w + 2 * m.padding && xs[j] <= rect.x + rect.w
    &&& xs.len() <= spaces.len() ==> xs.last() + ws_label(spaces[xs.len() - 1].index).len() * cell_w
        + 2 * m.padding > rect.x + rect.w
}

/// What a button at `x` draws: its ground, where it has one, and its label behind
/// its margin; the active workspace and those with windows have colors of their own.
pub open spec fn is_button(
    m: WorkspacesModule,
    rect: Rect,
    w: WsSnap,
    active: usize,
    x: int,
    cell_w: u32,
    cell_h: u32,
    ops: Seq<OpView>,
) -> bool {
    let ground = if w.index == active {
        m.active_bg
    } else {
        m.inactive_bg
    };
    let width = ws_label(w.index).len() * cell_w + 2 * m.padding;
    &&& ops.len() == (if ground.a > 0 {
        2nat
    } else {
        1nat
    })
    &&& ground.a > 0 ==> (ops[0] matches OpView::Fill { rect: r, color } && r.x == x && r.y
        == rect.y && r.w == width && r.h == rect.h && color == ground)
    &&& ops.last() matches OpView::Text { x: tx, y, text, fg, bg, bold, max_w } && {
        &&& text == ws_label(w.index) && bg == ground && !bold
        &&& tx == x + m.padding
        &&& in_the_middle(rect, y, cell_h)
        &&& max_w >= ws_label(w.index).len() * cell_w
        &&& w.index == active ==> fg == m.active_fg
        &&& w.index != active && w.occupied ==> fg == m.occupied_fg
        &&& w.index != active && !w.occupied ==> fg == m.inactive_fg
    }
}

/// All of `parts`, one after the other.
pub open spec fn joined(parts: Seq<Seq<OpView>>) -> Seq<OpView>
    decreases parts.len(),
{
    if parts.len() == 0 {
        Seq::empty()
    } else {
        parts[0] + joined(parts.skip(1))
    }
}

/// Whether each part draws its button.
pub open spec fn are_buttons(
    m: WorkspacesModule,
    rect: Rect,
    snap: TwmSnapshot,
    xs: Seq<int>,
    cell_w: u32,
    cell_h: u32,
    parts: Seq<Seq<OpView>>,
) -> bool {
    &&& parts.len() == xs.len() - 1
    &&& forall|i: int|
        0 <= i < parts.len() ==> is_button(
            m,
            rect,
            snap.workspaces@[i],
            snap.active_ws,
            xs[i],
            cell_w,
            cell_h,
            #[trigger] parts[i],
        )
}

spec fn button_xs(m: WorkspacesModule, rect: Rect, spaces: Seq<WsSnap>, i: int, x: int, cell_w: u32) -> Seq<
    int,
>
    decreases spaces.len() - i,
{
    if i >= spaces.len() || i < 0 || x + m.button_w(spaces[i].index, cell_w) > rect.x + rect.w {
        seq![x]
    } else {
        seq![x] + button_xs(
            m,
            rect,
            spaces,
            i + 1,
            x + m.button_w(spaces[i].index, cell_w),
            cell_w,
        )
    }
}

spec fn button_parts(
    m: WorkspacesModule,
    rect: Rect,
    snap: TwmSnapshot,
    i: int,
    x: int,
    cell_w: u32,
    cell_h: u32,
) -> Seq<Seq<OpView>>
    decreases snap.workspaces@.len() - i,
{
    let spaces = snap.workspaces@;
    if i >= spaces.len() || i < 0 || x + m.button_w(spaces[i].index, cell_w) > rect.x + rect.w {
        Seq::empty()
    } else {
        seq![m.button_ops(rect, spaces[i], snap.active_ws, x, cell_w, cell_h)] + button_parts(
            m,
            rect,
            snap,
            i + 1,
            x + m.button_w(spaces[i].index, cell_w),
            cell_w,
            cell_h,
        )
    }
}

proof fn lemma_is_button(
    m: WorkspacesModule,
    rect: Rect,
    w: WsSnap,
    active: usize,
    x: int,
    cell_w: u32,
    cell_h: u32,
)
    requires
        0 <= x,
        x + m.button_w(w.index, cell_w) <= rect.x + rect.w,
        rect.x + rect.w + 2 <= u32::MAX,
        rect.y + rect.h <= u32::MAX,
    ensures
        is_button(
            m,
            rect,
            w,
            active,
            x,
            cell_w,
            cell_h,
            m.button_ops(rect, w, active, x, cell_w, cell_h),
        ),
{
    let n = ws_label(w.index).len();
    assert(n * cell_w >= 0) by (nonlinear_arith);
}

proof fn lemma_buttons(
    m: WorkspacesModule,
    rect: Rect,
    snap: TwmSnapshot,
    i: int,
    x: int,
    cell_w: u32,
    cell_h: u32,
)
    requires
        0 <= i <= snap.workspaces@.len(),
        0 <= x,
        rect.x + rect.w + 2 <= u32::MAX,
        rect.y + rect.h <= u32::MAX,
    ensures
        ({
            let spaces = snap.workspaces@;
            let xs = button_xs(m, rect, spaces, i, x, cell_w);
            let parts = button_parts(m, rect, snap, i, x, cell_w, cell_h);
            &&& m.ops_from(rect, spaces, snap.active_ws, i, x, cell_w, cell_h) == joined(parts)
            &&& 1 <= xs.len() <= spaces.len() - i + 1
            &&& xs[0] == x
            &&& parts.len() == xs.len() - 1
            &&& forall|k: int, j: int|
                #![trigger xs[k], xs[j]]
                0 <= k && j == k + 1 && j < xs.len() ==> xs[j] - xs[k] == ws_label(
                    spaces[i + k].index,
                ).len() * cell_w + 2 * m.padding && xs[j] <= rect.x + rect.w
            &&& xs.len() <= spaces.len() - i ==> xs.last() + ws_label(
                spaces[i + xs.len() - 1].index,
            ).len() * cell_w + 2 * m.padding > rect.x + rect.w
            &&& forall|k: int|
                0 <= k < parts.len() ==> is_button(
                    m,
                    rect,
                    spaces[i + k],
                    snap.active_ws,
                    xs[k],
                    cell_w,
                    cell_h,
                    #[trigger] parts[k],
                )
        }),
    decreases snap.workspaces@.len() - i,
{
    let spaces = snap.workspaces@;
    let xs = button_xs(m, rect, spaces, i, x, cell_w);
    let parts = button_parts(m, rect, snap, i, x, cell_w, cell_h);
    if i < spaces.len() && x + m.button_w(spaces[i].index, cell_w) <= rect.x + rect.w {
        let bw = m.button_w(spaces[i].index, cell_w);
        let n = ws_label(spaces[i].index).len();
        assert(n * cell_w >= 0) by (nonlinear_arith);
        lemma_is_button(m, rect, spaces[i], snap.active_ws, x, cell_w, cell_h);
        lemma_buttons(m, rect, snap, i + 1, x + bw, cell_w, cell_h);
        let rest = button_xs(m, rect, spaces, i + 1, x + bw, cell_w);
        let later = button_parts(m, rect, snap, i + 1, x + bw, cell_w, cell_h);
        assert(parts.skip(1) =~= later);
        assert forall|k: int, j: int|
            #![trigger xs[k], xs[j]]
            0 <= k && j == k + 1 && j < xs.len() implies xs[j] - xs[k] == ws_label(
            spaces[i + k].index,
        ).len() * cell_w + 2 * m.padding && xs[j] <= rect.x + rect.w by {
            assert(xs[j] == rest[j - 1]);
            if k > 0 {
                assert(xs[k] == rest[k - 1]);
                assert(spaces[i + 1 + (k - 1)] == spaces[i + k]);
            }
        }
        assert forall|k: int| 0 <= k < parts.len() implies is_button(
            m,
            rect,
            spaces[i + k],
            snap.active_ws,
            xs[k],
            cell_w,
            cell_h,
            #[trigger] parts[k],
        ) by {
            if k > 0 {
                assert(parts[k] == later[k - 1] && xs[k] == rest[k - 1]);
                assert(spaces[i + 1 + (k - 1)] == spaces[i + k]);
            }
        }
        assert(xs.last() == rest.last());
    }
}

/// The buttons of the workspaces stand side by side from the left end of their slot
/// on, in the order of the workspaces, as far as they fit.
pub proof fn law_buttons_stand_side_by_side(
    m: WorkspacesModule,
    rect: Rect,
    snap: TwmSnapshot,
    t: Seq<char>,
    cell_w: u32,
    cell_h: u32,
)
    requires
        rect.x + rect.w + 2 <= u32::MAX,
        rect.y + rect.h <= u32::MAX,
    ensures
        exists|xs: Seq<int>, parts: Seq<Seq<OpView>>|
            BarModule::Workspaces(m).ops(rect, snap, t, cell_w, cell_h) == joined(parts)
                && buttons_at(m, rect, snap.workspaces@, xs, cell_w) && #[trigger] are_buttons(
                m,
                rect,
                snap,
                xs,
                cell_w,
                cell_h,
                parts,
            ),
{
    lemma_buttons(m, rect, snap, 0, rect.x as int, cell_w, cell_h);
    let xs = button_xs(m, rect, snap.workspaces@, 0, rect.x as int, cell_w);
    let parts = button_parts(m, rect, snap, 0, rect.x as int, cell_w, cell_h);
    let spaces = snap.workspaces@;
    assert forall|k: int, j: int|
        #![trigger xs[k], xs[j]]
        0 <= k && j == k + 1 && j < xs.len() implies xs[j] - xs[k] == ws_label(
        spaces[k].index,
    ).len() * cell_w + 2 * m.padding && xs[j] <= rect.x + rect.w by {
        let n = ws_label(spaces[0 + k].index).len();
        assert(xs[j] - xs[k] == n * cell_w + 2 * m.padding);
    }
    assert(buttons_at(m, rect, spaces, xs, cell_w));
    assert forall|k: int| 0 <= k < parts.len() implies is_button(
        m,
        rect,
        spaces[k],
        snap.active_ws,
        xs[k],
        cell_w,
        cell_h,
        #[trigger] parts[k],
    ) by {
        assert(spaces[0 + k] == spaces[k]);
    }
    assert(are_buttons(m, rect, snap, xs, cell_w, cell_h, parts));
}

/// There is room for nine buttons with labels of one character.
pub proof fn law_room_for_buttons(m: WorkspacesModule, t: Seq<char>, cell_w: u32)
    requires
        9 * cell_w + 18 * m.padding <= u32::MAX,
    ensures
        BarModule::Workspaces(m).width(t, cell_w) == 9 * cell_w + 18 * m.padding,
{
}

} // verus!
