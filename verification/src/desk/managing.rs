//! What the window manager of the desktop does, seen from outside.

use vstd::prelude::*;

use crate::desk::manager::{
    focus_action, layout_of, put_on, windows_in, windows_of, with_config, with_float,
    with_fullscreen, with_layout,
};
use crate::desk::script::WmConfig;
use crate::desk::windows::{WindowId, WindowView};
use crate::twm::actions::{
    law_focus_goes_there, law_screen_is_split, lemma_others, lemma_reflow_keeps,
    lemma_without_filter, lies_toward, middle_fits, other_panes_same, same_panes, same_screen,
};
use crate::twm::laws::law_special_panes_are_placed;
use crate::twm::layout::Layout;
use crate::twm::pane::{first_index, lemma_first_index, PaneId, PaneView, WsView};
use crate::twm::rect::Rect;
use crate::twm::state::{dispatched, resplit, TwmView};

verus! {

/// A window that is told to fill the screen has all of it where it is shown, and is told
/// so; nothing else is told.
pub proof fn law_fullscreen_is_set(t: TwmView, id: WindowId, on: bool)
    requires
        t.wf(),
        t.panes.contains_key(id),
    ensures
        ({
            let u = with_fullscreen(t, id, on);
            let p = t.panes[id];
            let q = u.panes[id];
            &&& u.panes.contains_key(id)
            &&& q.fullscreen == on
            &&& q.floating == p.floating && q.float_rect == p.float_rect && q.content == p.content
                && q.id == p.id
            &&& on && t.ws().panes.contains(id) ==> q.rect.x == 0 && q.rect.y == 0 && q.rect.w
                == t.screen_w && q.rect.h == t.screen_h
            &&& other_panes_same(t, u, id)
            &&& u.workspaces == t.workspaces && u.active == t.active
            &&& same_screen(t, u)
            &&& u.pads == t.pads && u.next_id == t.next_id
        }),
{
    let x = TwmView {
        panes: t.panes.insert(id, PaneView { fullscreen: on, ..t.panes[id] }),
        ..t
    };
    lemma_reflow_keeps(x);
    assert(x.panes.contains_key(id));
    lemma_others(t, x, with_fullscreen(t, id, on), id);
    if t.ws().panes.contains(id) {
        law_special_panes_are_placed(x, id);
    }
}

/// A window floats as it is told: where it last did, or where it is.
pub proof fn law_float_is_set(t: TwmView, id: WindowId, on: bool)
    requires
        t.wf(),
        t.panes.contains_key(id),
    ensures
        ({
            let u = with_float(t, id, on);
            let p = t.panes[id];
            let q = u.panes[id];
            &&& u.panes.contains_key(id)
            &&& q.floating == on
            &&& q.fullscreen == p.fullscreen && q.content == p.content && q.id == p.id
            &&& on && !p.floating ==> q.float_rect == (if p.float_rect.w == 0 || p.float_rect.h
                == 0 {
                p.rect
            } else {
                p.float_rect
            })
            &&& !on || p.floating ==> q.float_rect == p.float_rect
            &&& on && !q.fullscreen && t.ws().panes.contains(id) ==> q.rect == q.float_rect
            &&& other_panes_same(t, u, id)
            &&& u.workspaces == t.workspaces && u.active == t.active
            &&& same_screen(t, u)
            &&& u.pads == t.pads && u.next_id == t.next_id
        }),
{
    let p = t.panes[id];
    let at = if p.float_rect.empty() {
        p.rect
    } else {
        p.float_rect
    };
    let q = if on && !p.floating {
        PaneView { floating: true, rect: at, float_rect: at, ..p }
    } else {
        PaneView { floating: on, ..p }
    };
    let x = TwmView { panes: t.panes.insert(id, q), ..t };
    lemma_reflow_keeps(x);
    assert(x.panes.contains_key(id));
    lemma_others(t, x, with_float(t, id, on), id);
    if t.ws().panes.contains(id) {
        law_special_panes_are_placed(x, id);
    }
}

/// A window that goes to a workspace stands behind the windows there, with the focus on
/// it; from every other one it is gone, and a focus on it goes to the last window there.
pub proof fn law_window_is_put_there(t: TwmView, id: WindowId, k: int)
    requires
        t.wf(),
        t.panes.contains_key(id),
        0 <= k < t.workspaces.len(),
    ensures
        ({
            let u = put_on(t, id, k);
            &&& u.workspaces.len() == t.workspaces.len()
            &&& forall|i: int|
                0 <= i < t.workspaces.len() ==> {
                    let v = t.workspaces[i];
                    let w = #[trigger] u.workspaces[i];
                    let others = v.panes.filter(|x: PaneId| x != id);
                    &&& w.index == v.index && w.layout == v.layout && w.main_ratio == v.main_ratio
                        && w.gap == v.gap
                    &&& i == k ==> w.panes == others + seq![id] && w.focused == Some(id)
                    &&& i != k ==> w.panes == others
                    &&& i != k && v.focused != Some(id) ==> w.focused == v.focused
                    &&& i != k && v.focused == Some(id) ==> w.focused == (if others.len() > 0 {
                        Some(others.last())
                    } else {
                        None
                    })
                }
            &&& same_panes(t, u)
            &&& u.active == t.active
            &&& same_screen(t, u)
            &&& u.pads == t.pads && u.next_id == t.next_id
        }),
{
    let spaces = Seq::new(t.workspaces.len(), |i: int| t.workspaces[i].left_by(id));
    let w = spaces[k];
    let x = TwmView {
        workspaces: spaces.update(k, WsView { panes: w.panes.push(id), focused: Some(id), ..w }),
        ..t
    };
    lemma_reflow_keeps(x);
    let u = put_on(t, id, k);
    assert forall|i: int| 0 <= i < t.workspaces.len() implies ({
        let v = t.workspaces[i];
        let w = #[trigger] u.workspaces[i];
        let others = v.panes.filter(|x: PaneId| x != id);
        &&& w.index == v.index && w.layout == v.layout && w.main_ratio == v.main_ratio && w.gap
            == v.gap
        &&& i == k ==> w.panes == others + seq![id] && w.focused == Some(id)
        &&& i != k ==> w.panes == others
        &&& i != k && v.focused != Some(id) ==> w.focused == v.focused
        &&& i != k && v.focused == Some(id) ==> w.focused == (if others.len() > 0 {
            Some(others.last())
        } else {
            None
        })
    }) by {
        let v = t.workspaces[i];
        lemma_without_filter(v.panes, id);
        let others = v.panes.filter(|x: PaneId| x != id);
        assert(others + seq![id] =~= others.push(id));
    }
}

/// A workspace gets the layout that it is told, and no other does.
pub proof fn law_layout_is_set(t: TwmView, k: int, layout: Layout)
    requires
        t.wf(),
        0 <= k < t.workspaces.len(),
    ensures
        ({
            let u = with_layout(t, k, layout);
            &&& u.workspaces[k] == (WsView { layout, ..t.workspaces[k] })
            &&& u.workspaces.len() == t.workspaces.len()
            &&& forall|i: int|
                0 <= i < t.workspaces.len() && i != k ==> #[trigger] u.workspaces[i]
                    == t.workspaces[i]
            &&& same_panes(t, u)
            &&& u.active == t.active
            &&& same_screen(t, u)
            &&& u.pads == t.pads && u.next_id == t.next_id
        }),
{
    lemma_reflow_keeps(
        TwmView {
            workspaces: t.workspaces.update(k, WsView { layout, ..t.workspaces[k] }),
            ..t
        },
    );
}

/// Each layout has its name, and what is no name of one is the first.
pub proof fn law_layouts_have_names(name: Seq<char>)
    ensures
        layout_of(name) == Layout::Columns <==> name == "columns"@,
        layout_of(name) == Layout::Rows <==> name == "rows"@,
        layout_of(name) == Layout::Monocle <==> name == "monocle"@,
        layout_of(name) == Layout::ThreeCol <==> name == "threecol"@,
{
    reveal_strlit("columns");
    reveal_strlit("rows");
    reveal_strlit("monocle");
    reveal_strlit("threecol");
    assert("columns"@.len() == 7 && "rows"@.len() == 4 && "monocle"@.len() == 7 && "threecol"@.len()
        == 8);
    assert("columns"@[0] == 'c' && "monocle"@[0] == 'm');
}

/// The directions by their numbers, from zero: left, right, up, down. The focus goes to a
/// window in that direction, where there is one.
pub proof fn law_directions_by_number(t: TwmView, d: u8, f: PaneId)
    requires
        t.wf(),
        d < 4,
        t.ws().focused == Some(f),
        t.panes.contains_key(f),
        middle_fits(t.panes[f].rect),
        forall|i: int|
            0 <= i < t.ws().panes.len() ==> (t.panes.contains_key(#[trigger] t.ws().panes[i])
                ==> middle_fits(t.panes[t.ws().panes[i]].rect)),
    ensures
        ({
            let u = dispatched(t, focus_action(d));
            let ids = t.ws().panes;
            let from = t.panes[f].rect;
            &&& u.ws().focused != Some(f) ==> (u.ws().focused matches Some(g)
                && t.panes.contains_key(g) && lies_by_number(d, from, t.panes[g].rect))
            &&& forall|i: int|
                #![trigger ids[i]]
                0 <= i < ids.len() && t.panes.contains_key(ids[i]) && lies_by_number(
                    d,
                    from,
                    t.panes[ids[i]].rect,
                ) ==> u.ws().focused != Some(f)
        }),
{
    law_focus_goes_there(t, focus_action(d), f);
    assert forall|r: Rect, s: Rect| #[trigger]
        lies_by_number(d, r, s) == lies_toward(focus_action(d), r, s) by {}
}

/// Whether the middle of `to` lies from that of `from` in the direction with this number.
pub open spec fn lies_by_number(d: u8, from: Rect, to: Rect) -> bool {
    let dx = (to.x + to.w / 2) - (from.x + from.w / 2);
    let dy = (to.y + to.h / 2) - (from.y + from.h / 2);
    if d == 0 {
        dx < 0
    } else if d == 1 {
        dx > 0
    } else if d == 2 {
        dy < 0
    } else {
        dy > 0
    }
}

/// The focus goes on by so many windows, round and round: so many places further in the
/// list of windows, but for full rounds. From no window it goes on from the first.
pub proof fn law_focus_cycles(w: WsView, delta: int, at: int) -> (rounds: int)
    requires
        0 <= at < w.panes.len(),
        w.focused == Some(w.panes[at]),
        forall|k: int| 0 <= k < at ==> #[trigger] w.panes[k] != w.panes[at],
    ensures
        ({
            let n = w.panes.len() as int;
            let to = at + delta - rounds * n;
            &&& 0 <= to < n
            &&& w.cycled(delta) == (WsView { focused: Some(w.panes[to]), ..w })
        }),
{
    let n = w.panes.len() as int;
    lemma_first_index(w.panes, w.panes[at]);
    assert(first_index(w.panes, w.panes[at]) == at);
    vstd::arithmetic::div_mod::lemma_fundamental_div_mod(at + delta, n);
    assert(((at + delta) / n) * n == n * ((at + delta) / n)) by (nonlinear_arith);
    (at + delta) / n
}

// ── Settings ─────────────────────────────────────────────────────────────────

/// Settings take effect at once: the gap between the windows, their borders, the margin
/// and the bar. Windows that are open stay where they belong.
pub proof fn law_settings_take_effect(t: TwmView, c: WmConfig, id: WindowId)
    requires
        t.wf(),
        t.panes.contains_key(id),
        c.bar_height > 0,
        2 * c.outer_gap <= t.screen_w,
        2 * c.outer_gap + c.bar_height <= t.screen_h,
    ensures
        ({
            let u = with_config(t, c);
            &&& u.gap == c.gap && u.border_w == c.border_w && u.padding == c.outer_gap
            &&& u.bar.h == c.bar_height && u.bar.w == t.screen_w && u.bar.x == 0
            &&& u.content.x == c.outer_gap && u.content.w == t.screen_w - 2 * c.outer_gap
            &&& u.content.h == t.screen_h - c.bar_height - 2 * c.outer_gap
            &&& c.bar_at_bottom ==> u.bar.y + u.bar.h == t.screen_h && u.content.y == c.outer_gap
            &&& !c.bar_at_bottom ==> u.bar.y == 0 && u.content.y == c.bar_height + c.outer_gap
            &&& u.workspaces == t.workspaces && u.active == t.active
            &&& same_panes(t, u)
            &&& u.screen_w == t.screen_w && u.screen_h == t.screen_h
        }),
{
    let x = TwmView { gap: c.gap, border_w: c.border_w, padding: c.outer_gap, ..t };
    law_screen_is_split(t.screen_w, t.screen_h, c.bar_height, c.bar_at_bottom, c.outer_gap);
    lemma_reflow_keeps(resplit(x, c.bar_height, c.bar_at_bottom));
    assert(t.panes.contains_key(id));
}

/// Without windows settings also say how many workspaces there are, from one to 255, and
/// the first of them is shown.
pub proof fn law_settings_without_windows(t: TwmView, c: WmConfig)
    requires
        forall|id: WindowId| !(#[trigger] t.panes.contains_key(id)),
    ensures
        ({
            let u = with_config(t, c);
            let n = u.workspaces.len();
            &&& 1 <= c.workspaces_count <= 255 ==> n == c.workspaces_count
            &&& c.workspaces_count < 1 ==> n == 1
            &&& c.workspaces_count > 255 ==> n == 255
            &&& u.count == n
            &&& u.active == 0
            &&& u.screen_w == t.screen_w && u.screen_h == t.screen_h
            &&& u.gap == c.gap && u.border_w == c.border_w && u.padding == c.outer_gap
            &&& u.bar_visible
            &&& forall|i: int|
                0 <= i < n ==> (#[trigger] u.workspaces[i]).index == i
                    && u.workspaces[i].panes.len() == 0 && u.workspaces[i].focused is None
                    && u.workspaces[i].gap == c.gap
        }),
{
}

// ── What there is to see ─────────────────────────────────────────────────────

/// Whether a window is told as it is: on the workspace `k`, with its own id, title, place
/// and state.
pub open spec fn is_told(
    t: TwmView,
    k: int,
    id: WindowId,
    app_ids: Map<WindowId, String>,
    maximized: Set<WindowId>,
    w: WindowView,
) -> bool {
    let p = t.panes[id];
    &&& w.id == id && w.workspace == k
    &&& app_ids.contains_key(id) ==> w.app_id == app_ids[id]@
    &&& !app_ids.contains_key(id) ==> w.app_id.len() == 0
    &&& w.title == p.content.name()
    &&& p.rect.x <= i32::MAX ==> w.rect.x == p.rect.x
    &&& p.rect.y <= i32::MAX ==> w.rect.y == p.rect.y
    &&& p.rect.w <= i32::MAX ==> w.rect.w == p.rect.w
    &&& p.rect.h <= i32::MAX ==> w.rect.h == p.rect.h
    &&& w.floating == p.floating && w.fullscreen == p.fullscreen
    &&& w.maximized == maximized.contains(id)
}

proof fn lemma_told_in(
    t: TwmView,
    k: int,
    n: int,
    app_ids: Map<WindowId, String>,
    maximized: Set<WindowId>,
    i: int,
) -> (m: int)
    requires
        0 <= k < t.workspaces.len() <= usize::MAX,
        0 <= i < n <= t.workspaces[k].panes.len(),
        t.panes.contains_key(t.workspaces[k].panes[i]),
    ensures
        0 <= m < windows_in(t, k, n, app_ids, maximized).len(),
        is_told(
            t,
            k,
            t.workspaces[k].panes[i],
            app_ids,
            maximized,
            windows_in(t, k, n, app_ids, maximized)[m],
        ),
    decreases n,
{
    if i == n - 1 {
        windows_in(t, k, n - 1, app_ids, maximized).len() as int
    } else {
        lemma_told_in(t, k, n - 1, app_ids, maximized, i)
    }
}

proof fn lemma_told(
    t: TwmView,
    n: int,
    app_ids: Map<WindowId, String>,
    maximized: Set<WindowId>,
    k: int,
    i: int,
) -> (m: int)
    requires
        0 <= k < n <= t.workspaces.len() <= usize::MAX,
        0 <= i < t.workspaces[k].panes.len(),
        t.panes.contains_key(t.workspaces[k].panes[i]),
    ensures
        0 <= m < windows_of(t, n, app_ids, maximized).len(),
        is_told(
            t,
            k,
            t.workspaces[k].panes[i],
            app_ids,
            maximized,
            windows_of(t, n, app_ids, maximized)[m],
        ),
    decreases n,
{
    if k == n - 1 {
        let at = lemma_told_in(
            t,
            k,
            t.workspaces[k].panes.len() as int,
            app_ids,
            maximized,
            i,
        );
        windows_of(t, n - 1, app_ids, maximized).len() + at
    } else {
        lemma_told(t, n - 1, app_ids, maximized, k, i)
    }
}

/// Every window on a workspace is there to see, as it is.
pub proof fn law_windows_are_told(
    t: TwmView,
    app_ids: Map<WindowId, String>,
    maximized: Set<WindowId>,
    k: int,
    i: int,
)
    requires
        0 <= k < t.workspaces.len() <= usize::MAX,
        0 <= i < t.workspaces[k].panes.len(),
        t.panes.contains_key(t.workspaces[k].panes[i]),
    ensures
        exists|m: int|
            0 <= m < windows_of(t, t.workspaces.len() as int, app_ids, maximized).len() && is_told(
                t,
                k,
                t.workspaces[k].panes[i],
                app_ids,
                maximized,
                #[trigger] windows_of(t, t.workspaces.len() as int, app_ids, maximized)[m],
            ),
{
    let m = lemma_told(t, t.workspaces.len() as int, app_ids, maximized, k, i);
    assert(is_told(
        t,
        k,
        t.workspaces[k].panes[i],
        app_ids,
        maximized,
        windows_of(t, t.workspaces.len() as int, app_ids, maximized)[m],
    ));
}

spec fn on_one(
    t: TwmView,
    n: int,
    app_ids: Map<WindowId, String>,
    maximized: Set<WindowId>,
    w: WindowView,
    k: int,
    i: int,
) -> bool {
    &&& 0 <= k < n
    &&& 0 <= i < t.workspaces[k].panes.len()
    &&& t.panes.contains_key(t.workspaces[k].panes[i])
    &&& is_told(t, k, t.workspaces[k].panes[i], app_ids, maximized, w)
}

proof fn lemma_only_in(
    t: TwmView,
    k: int,
    n: int,
    app_ids: Map<WindowId, String>,
    maximized: Set<WindowId>,
    m: int,
) -> (i: int)
    requires
        0 <= k < t.workspaces.len() <= usize::MAX,
        0 <= n <= t.workspaces[k].panes.len(),
        0 <= m < windows_in(t, k, n, app_ids, maximized).len(),
    ensures
        on_one(
            t,
            k + 1,
            app_ids,
            maximized,
            windows_in(t, k, n, app_ids, maximized)[m],
            k,
            i,
        ),
    decreases n,
{
    if m < windows_in(t, k, n - 1, app_ids, maximized).len() {
        lemma_only_in(t, k, n - 1, app_ids, maximized, m)
    } else {
        n - 1
    }
}

proof fn lemma_only(
    t: TwmView,
    n: int,
    app_ids: Map<WindowId, String>,
    maximized: Set<WindowId>,
    m: int,
) -> (r: (int, int))
    requires
        0 <= n <= t.workspaces.len() <= usize::MAX,
        0 <= m < windows_of(t, n, app_ids, maximized).len(),
    ensures
        on_one(t, n, app_ids, maximized, windows_of(t, n, app_ids, maximized)[m], r.0, r.1),
    decreases n,
{
    let before = windows_of(t, n - 1, app_ids, maximized).len();
    if m < before {
        let r = lemma_only(t, n - 1, app_ids, maximized, m);
        r
    } else {
        let i = lemma_only_in(
            t,
            n - 1,
            t.workspaces[n - 1].panes.len() as int,
            app_ids,
            maximized,
            m - before,
        );
        (n - 1, i)
    }
}

/// What is there to see is a window on a workspace.
pub proof fn law_only_windows_are_told(
    t: TwmView,
    app_ids: Map<WindowId, String>,
    maximized: Set<WindowId>,
    m: int,
) -> (r: (int, int))
    requires
        t.workspaces.len() <= usize::MAX,
        0 <= m < windows_of(t, t.workspaces.len() as int, app_ids, maximized).len(),
    ensures
        ({
            let w = windows_of(t, t.workspaces.len() as int, app_ids, maximized)[m];
            &&& 0 <= r.0 < t.workspaces.len()
            &&& 0 <= r.1 < t.workspaces[r.0].panes.len()
            &&& t.panes.contains_key(t.workspaces[r.0].panes[r.1])
            &&& is_told(t, r.0, t.workspaces[r.0].panes[r.1], app_ids, maximized, w)
        }),
{
    lemma_only(t, t.workspaces.len() as int, app_ids, maximized, m)
}

} // verus!
