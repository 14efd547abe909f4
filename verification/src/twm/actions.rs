//! What each action does, seen from outside.

use vstd::prelude::*;

use crate::single::{law_share_is_close, law_share_is_part, lemma_round24_close, STEP};
use crate::twm::laws::{
    law_reflow_is_idempotent, law_reflow_only_moves, law_special_panes_are_placed, lemma_laid_out,
    lemma_laid_out_at, lemma_step, lemma_tiled, lemma_tiled_unique,
};
use crate::twm::layout::{law_one_rect_for_each_pane, rects_of, Layout};
use crate::twm::pads::{lemma_pad_for, lemma_pad_named};
use crate::twm::pane::{
    first_index, lemma_first_index, without, ContentView, PadView, PaneId, PaneView, WsView,
};
use crate::twm::rect::Rect;
use crate::twm::state::{
    ahead, bar_toggled, center_of, dispatched, distance, embedded, focus_moved, forgotten,
    fullscreen_toggled, grown, laid_out, nearest, opened, pad_assigned, pad_for, pad_hidden,
    pad_named, pad_rect, pad_shown, pads_hidden, pads_swept, panes_of, reflowed, sent_to,
    shell_content, shrunk, split_screen, tiled_ids, without_all, ws_left, ws_place, TwmAction,
    TwmView,
};

verus! {

// ── What stays ───────────────────────────────────────────────────────────────

/// Whether the settings of the screen are the same.
pub open spec fn same_screen(t: TwmView, u: TwmView) -> bool {
    &&& t.screen_w == u.screen_w && t.screen_h == u.screen_h
    &&& t.content == u.content && t.bar == u.bar && t.bar_visible == u.bar_visible
    &&& t.gap == u.gap && t.border_w == u.border_w && t.padding == u.padding
    &&& t.count == u.count
}

/// Whether two states have the same panes, which may have moved.
pub open spec fn same_panes(t: TwmView, u: TwmView) -> bool {
    &&& forall|id: PaneId| #[trigger] t.panes.contains_key(id) <==> u.panes.contains_key(id)
    &&& forall|id: PaneId| #[trigger]
        t.panes.contains_key(id) ==> {
            &&& u.panes[id].id == t.panes[id].id
            &&& u.panes[id].content == t.panes[id].content
            &&& u.panes[id].fullscreen == t.panes[id].fullscreen
            &&& u.panes[id].floating == t.panes[id].floating
            &&& u.panes[id].float_rect == t.panes[id].float_rect
        }
}

/// Whether two states have the same panes but for the pane `but`.
pub open spec fn other_panes_same(t: TwmView, u: TwmView, but: PaneId) -> bool {
    &&& forall|id: PaneId|
        id != but ==> (#[trigger] t.panes.contains_key(id) <==> u.panes.contains_key(id))
    &&& forall|id: PaneId|
        id != but && #[trigger] t.panes.contains_key(id) ==> {
            &&& u.panes[id].id == t.panes[id].id
            &&& u.panes[id].content == t.panes[id].content
            &&& u.panes[id].fullscreen == t.panes[id].fullscreen
            &&& u.panes[id].floating == t.panes[id].floating
            &&& u.panes[id].float_rect == t.panes[id].float_rect
        }
}

/// Whether all workspaces but the active one are the same.
pub open spec fn other_spaces_same(t: TwmView, u: TwmView) -> bool {
    &&& u.active == t.active
    &&& u.workspaces.len() == t.workspaces.len()
    &&& forall|i: int|
        0 <= i < t.workspaces.len() && i != t.active ==> #[trigger] u.workspaces[i]
            == t.workspaces[i]
}

pub proof fn lemma_reflow_keeps(t: TwmView)
    ensures
        same_panes(t, reflowed(t)),
        same_screen(t, reflowed(t)),
        reflowed(t).workspaces == t.workspaces,
        reflowed(t).active == t.active,
        reflowed(t).pads == t.pads,
        reflowed(t).next_id == t.next_id,
{
    law_reflow_only_moves(t);
    let u = reflowed(t);
    assert forall|id: PaneId| #[trigger] t.panes.contains_key(id) <==> u.panes.contains_key(id) by {
        assert(t.panes.dom().contains(id) <==> u.panes.dom().contains(id));
    }
    assert forall|id: PaneId| #[trigger] t.panes.contains_key(id) implies {
        &&& u.panes[id].id == t.panes[id].id
        &&& u.panes[id].content == t.panes[id].content
        &&& u.panes[id].fullscreen == t.panes[id].fullscreen
        &&& u.panes[id].floating == t.panes[id].floating
        &&& u.panes[id].float_rect == t.panes[id].float_rect
    } by {
        assert(u.panes.contains_key(id));
    }
}

// ── Placing ──────────────────────────────────────────────────────────────────

/// How many of the first `n` panes of `ids` neither float nor fill the screen.
pub open spec fn tiles_before(panes: Map<PaneId, PaneView>, ids: Seq<PaneId>, n: int) -> nat
    decreases n,
{
    if n <= 0 {
        0
    } else if panes.contains_key(ids[n - 1]) && !panes[ids[n - 1]].floating && !panes[ids[n
        - 1]].fullscreen {
        tiles_before(panes, ids, n - 1) + 1
    } else {
        tiles_before(panes, ids, n - 1)
    }
}

proof fn lemma_tiles_before(panes: Map<PaneId, PaneView>, ids: Seq<PaneId>, n: int)
    requires
        0 <= n <= ids.len(),
    ensures
        tiled_ids(panes, ids.take(n)).len() == tiles_before(panes, ids, n),
        forall|k: int| #![trigger ids[k]]
            0 <= k < n && panes.contains_key(ids[k]) && !panes[ids[k]].floating
                && !panes[ids[k]].fullscreen ==> tiles_before(panes, ids, k) < tiles_before(
                panes,
                ids,
                n,
            ) && tiled_ids(panes, ids.take(n))[tiles_before(panes, ids, k) as int] == ids[k],
    decreases n,
{
    if n > 0 {
        lemma_tiles_before(panes, ids, n - 1);
        assert(ids.take(n).drop_last() =~= ids.take(n - 1));
        assert(ids.take(n).last() == ids[n - 1]);
    }
}

/// The panes of the active workspace that neither float nor fill the screen take
/// the rectangles of its layout, in their order.
pub proof fn law_tiles_take_the_layout(t: TwmView, i: int)
    requires
        t.wf(),
        t.ws().panes.no_duplicates(),
        0 <= i < t.ws().panes.len(),
        t.panes.contains_key(t.ws().panes[i]),
        !t.panes[t.ws().panes[i]].floating,
        !t.panes[t.ws().panes[i]].fullscreen,
    ensures
        reflowed(t).panes[t.ws().panes[i]].rect == rects_of(
            t.ws().layout,
            t.content,
            tiles_before(t.panes, t.ws().panes, t.ws().panes.len() as int),
            t.ws().main_ratio,
            t.gap,
        )[tiles_before(t.panes, t.ws().panes, i) as int],
{
    let w = t.ws();
    let ids = tiled_ids(t.panes, w.panes);
    let rects = rects_of(w.layout, t.content, ids.len(), w.main_ratio, t.gap);
    law_one_rect_for_each_pane(w.layout, t.content, ids.len(), w.main_ratio, t.gap);
    lemma_tiles_before(t.panes, w.panes, w.panes.len() as int);
    assert(w.panes.take(w.panes.len() as int) =~= w.panes);
    lemma_tiled_unique(t.panes, w.panes);
    let k = tiles_before(t.panes, w.panes, i) as int;
    assert(ids[k] == w.panes[i]);
    lemma_laid_out_at(t.panes, ids, rects, ids.len() as int, k);
    assert forall|k: int| 0 <= k < ids.len() implies w.panes.contains(#[trigger] ids[k]) by {
        assert(ids.contains(ids[k]));
        lemma_tiled(t.panes, w.panes, ids[k]);
    }
    lemma_laid_out(t.panes, ids, rects, ids.len() as int, w.panes);
    let l = laid_out(t.panes, ids, rects, ids.len() as int);
    assert(l.contains_key(w.panes[i]));
}

/// After an action every pane of the active workspace is where it belongs. Those
/// that change nothing, a title or one floating pane leave the others alone.
pub proof fn law_actions_place_panes(t: TwmView, a: TwmAction)
    requires
        !(a is SetTitle) && !(a is FloatMove) && !(a is FloatResize),
    ensures
        dispatched(t, a) == reflowed(dispatched(t, a)) || (dispatched(t, a) == t && match a {
            TwmAction::Close => t.ws().focused is None,
            TwmAction::ToggleFloat => t.ws().focused matches Some(f) ==> !t.panes.contains_key(f),
            TwmAction::ToggleScratchpad(name) => forall|i: int|
                0 <= i < t.pads.len() && (#[trigger] t.pads[i]).name == name@ && (forall|k: int|
                    0 <= k < i ==> (#[trigger] t.pads[k]).name != name@) ==> t.pads[i].pane_id
                    is None,
            TwmAction::CloseAppId(app_id) => forall|id: PaneId| #[trigger]
                t.panes.contains_key(id) ==> t.panes[id].content.app() != app_id@,
            _ => false,
        }),
{
    let u = dispatched(t, a);
    match a {
        TwmAction::FocusLeft => law_reflow_is_idempotent(focus_moved(t, -1, 0)),
        TwmAction::FocusRight => law_reflow_is_idempotent(focus_moved(t, 1, 0)),
        TwmAction::FocusUp => law_reflow_is_idempotent(focus_moved(t, 0, -1)),
        TwmAction::FocusDown => law_reflow_is_idempotent(focus_moved(t, 0, 1)),
        TwmAction::MoveLeft | TwmAction::MoveUp => {
            law_reflow_is_idempotent(t.with_ws(t.ws().swapped(false)));
        },
        TwmAction::MoveRight | TwmAction::MoveDown => {
            law_reflow_is_idempotent(t.with_ws(t.ws().swapped(true)));
        },
        TwmAction::Close => {
            if let Some(id) = t.ws().focused {
                law_reflow_is_idempotent(forgotten(t, set![id]));
            }
        },
        TwmAction::Fullscreen => law_reflow_is_idempotent(fullscreen_toggled(t)),
        TwmAction::ToggleFloat => {
            if let Some(id) = t.ws().focused {
                if t.panes.contains_key(id) {
                    law_reflow_is_idempotent(float_flipped(t, id));
                }
            }
        },
        TwmAction::ToggleScratchpad(name) => {
            lemma_pad_named(t.pads, name@);
            let i = pad_named(t.pads, name@);
            if i < t.pads.len() {
                if let Some(id) = t.pads[i].pane_id {
                    law_reflow_is_idempotent(pad_hidden(t, i, id));
                    law_reflow_is_idempotent(pad_shown(t, i, id));
                } else {
                    assert forall|j: int|
                        0 <= j < t.pads.len() && (#[trigger] t.pads[j]).name == name@ && (forall|
                            k: int,
                        |
                            0 <= k < j ==> (#[trigger] t.pads[k]).name != name@) implies t.pads[j].pane_id
                        is None by {
                        if j > i {
                            assert(t.pads[i].name != name@);
                        }
                        assert(t.pads[j].name == name@);
                    }
                }
            }
        },
        TwmAction::NextLayout => law_reflow_is_idempotent(
            t.with_ws(WsView { layout: t.ws().layout.spec_next(), ..t.ws() }),
        ),
        TwmAction::PrevLayout => law_reflow_is_idempotent(
            t.with_ws(WsView { layout: t.ws().layout.spec_prev(), ..t.ws() }),
        ),
        TwmAction::GrowMain => law_reflow_is_idempotent(t.with_ws(grown(t.ws()))),
        TwmAction::ShrinkMain => law_reflow_is_idempotent(t.with_ws(shrunk(t.ws()))),
        TwmAction::Workspace(n) => law_reflow_is_idempotent(
            TwmView { active: ws_place(n, t.workspaces.len() as int), ..pads_hidden(t) },
        ),
        TwmAction::MoveToWorkspace(n) => law_reflow_is_idempotent(sent_to(t, n)),
        TwmAction::NextWorkspace => law_reflow_is_idempotent(
            TwmView { active: (t.active + 1) % (t.workspaces.len() as int), ..t },
        ),
        TwmAction::PrevWorkspace => law_reflow_is_idempotent(
            TwmView {
                active: (t.active + t.workspaces.len() - 1) % (t.workspaces.len() as int),
                ..t
            },
        ),
        TwmAction::ToggleBar => law_reflow_is_idempotent(bar_toggled(t)),
        TwmAction::OpenShell(app_id) => law_reflow_is_idempotent(
            before_open(t, shell_content(app_id@)),
        ),
        TwmAction::AssignEmbedded(app_id) => {
            law_reflow_is_idempotent(before_open(t, ContentView::Embedded { app_id: app_id@ }));
            if let Some(f) = t.ws().focused {
                law_reflow_is_idempotent(filled(t, f, app_id@));
            }
        },
        TwmAction::CloseAppId(app_id) => {
            let gone = panes_of(t, app_id@);
            law_reflow_is_idempotent(forgotten(t, gone));
            if gone.is_empty() {
                assert forall|id: PaneId| #[trigger]
                    t.panes.contains_key(id) implies t.panes[id].content.app() != app_id@ by {
                    assert(!gone.contains(id));
                }
            }
        },
        _ => {},
    }
}

spec fn float_flipped(t: TwmView, id: PaneId) -> TwmView {
    let p = t.panes[id];
    let at = if p.float_rect.empty() {
        p.rect
    } else {
        p.float_rect
    };
    let q = if p.floating {
        PaneView { floating: false, ..p }
    } else {
        PaneView { floating: true, rect: at, float_rect: at, ..p }
    };
    TwmView { panes: t.panes.insert(id, q), ..t }
}

spec fn before_open(t: TwmView, content: ContentView) -> TwmView {
    let id = t.next_id;
    let w = t.ws();
    TwmView {
        panes: t.panes.insert(id, crate::twm::pane::fresh_pane(id, content)),
        next_id: crate::twm::state::next_of(id),
        ..t.with_ws(WsView { panes: w.panes.push(id), focused: Some(id), ..w })
    }
}

spec fn filled(t: TwmView, f: PaneId, app_id: Seq<char>) -> TwmView {
    let p = PaneView { content: ContentView::Embedded { app_id }, ..t.panes[f] };
    TwmView { panes: t.panes.insert(f, p), ..t }
}

// ── Focus ────────────────────────────────────────────────────────────────────

/// Whether the middle of `to` lies from that of `from` where a focus action
/// looks: to its left or right, above or below it.
pub open spec fn lies_toward(a: TwmAction, from: Rect, to: Rect) -> bool {
    match a {
        TwmAction::FocusLeft => to.x + to.w / 2 < from.x + from.w / 2,
        TwmAction::FocusRight => to.x + to.w / 2 > from.x + from.w / 2,
        TwmAction::FocusUp => to.y + to.h / 2 < from.y + from.h / 2,
        TwmAction::FocusDown => to.y + to.h / 2 > from.y + from.h / 2,
        _ => false,
    }
}

/// How far the middles of two rectangles are apart, squared.
pub open spec fn apart_squared(a: Rect, b: Rect) -> int {
    let dx = (b.x + b.w / 2) - (a.x + a.w / 2);
    let dy = (b.y + b.h / 2) - (a.y + a.h / 2);
    dx * dx + dy * dy
}

/// Whether the middle of `r` has coordinates that a signed number of 32 bits
/// holds.
pub open spec fn middle_fits(r: Rect) -> bool {
    r.x + r.w / 2 < 0x8000_0000 && r.y + r.h / 2 < 0x8000_0000
}

spec fn dir(a: TwmAction) -> (int, int) {
    match a {
        TwmAction::FocusLeft => (-1, 0),
        TwmAction::FocusRight => (1, 0),
        TwmAction::FocusUp => (0, -1),
        _ => (0, 1),
    }
}

proof fn lemma_center(r: Rect)
    requires
        middle_fits(r),
    ensures
        center_of(r) == (r.x + r.w / 2, r.y + r.h / 2),
{
    assert(((r.x + r.w / 2) as u32) as i32 == r.x + r.w / 2);
    assert(((r.y + r.h / 2) as u32) as i32 == r.y + r.h / 2);
}

/// Whether the pane at `i` lies in a direction.
#[verifier::opaque]
spec fn seen(t: TwmView, ids: Seq<PaneId>, f: PaneId, a: TwmAction, i: int) -> bool {
    t.panes.contains_key(ids[i]) && lies_toward(a, t.panes[f].rect, t.panes[ids[i]].rect)
}

#[verifier::opaque]
spec fn far(t: TwmView, ids: Seq<PaneId>, f: PaneId, i: int) -> int {
    apart_squared(t.panes[f].rect, t.panes[ids[i]].rect)
}

#[verifier::opaque]
spec fn found(t: TwmView, ids: Seq<PaneId>, n: int, f: PaneId, a: TwmAction) -> Option<PaneId> {
    nearest(t.panes, ids, n, f, dir(a).0, dir(a).1)
}

proof fn lemma_seen(a: TwmAction, from: Rect, to: Rect)
    requires
        a is FocusLeft || a is FocusRight || a is FocusUp || a is FocusDown,
        middle_fits(from),
        middle_fits(to),
    ensures
        ahead(to, center_of(from).0, center_of(from).1, dir(a).0, dir(a).1) <==> lies_toward(
            a,
            from,
            to,
        ),
        distance(to, center_of(from).0, center_of(from).1) == apart_squared(from, to),
{
    lemma_center(from);
    lemma_center(to);
    let (cx, cy) = center_of(from);
    let (nx, ny) = center_of(to);
    assert((nx - cx) * 0 == 0 && (ny - cy) * 0 == 0);
    assert((nx - cx) * 1 == nx - cx && (ny - cy) * 1 == ny - cy);
    assert((nx - cx) * -1 == cx - nx && (ny - cy) * -1 == cy - ny);
}

spec fn all_fit(t: TwmView, ids: Seq<PaneId>, f: PaneId) -> bool {
    &&& t.panes.contains_key(f)
    &&& middle_fits(t.panes[f].rect)
    &&& forall|i: int|
        0 <= i < ids.len() ==> (t.panes.contains_key(#[trigger] ids[i]) ==> middle_fits(
            t.panes[ids[i]].rect,
        ))
}

#[verifier::spinoff_prover]
proof fn lemma_found(t: TwmView, ids: Seq<PaneId>, n: int, f: PaneId, a: TwmAction, j: int)
    requires
        0 < n <= ids.len(),
        a is FocusLeft || a is FocusRight || a is FocusUp || a is FocusDown,
        all_fit(t, ids, f),
        found(t, ids, n - 1, f, a) is Some ==> 0 <= j < ids.len() && found(t, ids, n - 1, f, a)
            == Some(ids[j]) && t.panes.contains_key(ids[j]),
    ensures
        found(t, ids, n, f, a) == (if seen(t, ids, f, a, n - 1) && (found(t, ids, n - 1, f, a)
            is None || far(t, ids, f, n - 1) < far(t, ids, f, j)) {
            Some(ids[n - 1])
        } else {
            found(t, ids, n - 1, f, a)
        }),
{
    reveal(seen);
    reveal(far);
    reveal(found);
    let from = t.panes[f].rect;
    let id = ids[n - 1];
    if t.panes.contains_key(id) {
        lemma_seen(a, from, t.panes[id].rect);
    }
    if found(t, ids, n - 1, f, a) is Some {
        lemma_seen(a, from, t.panes[ids[j]].rect);
    }
}

proof fn lemma_nearest(t: TwmView, ids: Seq<PaneId>, n: int, f: PaneId, a: TwmAction) -> (r: Option<
    int,
>)
    requires
        0 <= n <= ids.len(),
        a is FocusLeft || a is FocusRight || a is FocusUp || a is FocusDown,
        all_fit(t, ids, f),
    ensures
        match r {
            Some(j) => 0 <= j < n && seen(t, ids, f, a, j) && (forall|i: int|
                0 <= i < n && #[trigger] seen(t, ids, f, a, i) ==> far(t, ids, f, j) <= far(
                    t,
                    ids,
                    f,
                    i,
                ) && (i < j ==> far(t, ids, f, j) < far(t, ids, f, i))),
            None => forall|i: int| 0 <= i < n ==> !#[trigger] seen(t, ids, f, a, i),
        },
        found(t, ids, n, f, a) == (match r {
            Some(j) => Some(ids[j]),
            None => None,
        }),
    decreases n,
{
    if n <= 0 {
        reveal(found);
        None
    } else {
        let before = lemma_nearest(t, ids, n - 1, f, a);
        let j = match before {
            Some(j) => j,
            None => 0,
        };
        if before is Some {
            assert(t.panes.contains_key(ids[j])) by {
                reveal(seen);
            }
        }
        lemma_found(t, ids, n, f, a, j);
        if seen(t, ids, f, a, n - 1) && (before is None || far(t, ids, f, n - 1) < far(
            t,
            ids,
            f,
            j,
        )) {
            Some(n - 1)
        } else {
            before
        }
    }
}

/// A focus action looks for the panes of the workspace whose middle lies in its
/// direction. Where there are none, the focus stays; else it goes to the nearest
/// of them, the first one of several that are equally near. Nothing else changes.
pub proof fn law_focus_goes_there(t: TwmView, a: TwmAction, f: PaneId)
    requires
        t.wf(),
        a is FocusLeft || a is FocusRight || a is FocusUp || a is FocusDown,
        t.ws().focused == Some(f),
        t.panes.contains_key(f),
        middle_fits(t.panes[f].rect),
        forall|i: int|
            0 <= i < t.ws().panes.len() ==> (t.panes.contains_key(#[trigger] t.ws().panes[i])
                ==> middle_fits(t.panes[t.ws().panes[i]].rect)),
    ensures
        ({
            let u = dispatched(t, a);
            let ids = t.ws().panes;
            let from = t.panes[f].rect;
            &&& u.ws().focused != t.ws().focused ==> {
                &&& u.ws().focused matches Some(g) && t.panes.contains_key(g) && lies_toward(
                    a,
                    from,
                    t.panes[g].rect,
                ) && exists|j: int|
                    0 <= j < ids.len() && #[trigger] ids[j] == g && forall|i: int|
                        #![trigger ids[i]]
                        0 <= i < ids.len() && t.panes.contains_key(ids[i]) && lies_toward(
                            a,
                            from,
                            t.panes[ids[i]].rect,
                        ) ==> apart_squared(from, t.panes[g].rect) <= apart_squared(
                            from,
                            t.panes[ids[i]].rect,
                        ) && (i < j ==> apart_squared(from, t.panes[g].rect) < apart_squared(
                            from,
                            t.panes[ids[i]].rect,
                        ))
            }
            &&& forall|i: int|
                #![trigger ids[i]]
                0 <= i < ids.len() && t.panes.contains_key(ids[i]) && lies_toward(
                    a,
                    from,
                    t.panes[ids[i]].rect,
                ) ==> u.ws().focused != t.ws().focused
            &&& u.ws() == (WsView { focused: u.ws().focused, ..t.ws() })
            &&& other_spaces_same(t, u)
            &&& same_panes(t, u)
            &&& same_screen(t, u)
            &&& u.pads == t.pads
            &&& u.next_id == t.next_id
        }),
{
    let (dx, dy) = dir(a);
    lemma_reflow_keeps(focus_moved(t, dx, dy));
    let ids = t.ws().panes;
    let at = lemma_nearest(t, ids, ids.len() as int, f, a);
    assert(dispatched(t, a) == reflowed(focus_moved(t, dx, dy)));
    assert(found(t, ids, ids.len() as int, f, a) == nearest(
        t.panes,
        ids,
        ids.len() as int,
        f,
        dx,
        dy,
    )) by {
        reveal(found);
    }
    let from = t.panes[f].rect;
    assert forall|i: int| #![trigger ids[i]] 0 <= i < ids.len() implies seen(t, ids, f, a, i) == (
    t.panes.contains_key(ids[i]) && lies_toward(a, from, t.panes[ids[i]].rect)) && far(
        t,
        ids,
        f,
        i,
    ) == apart_squared(from, t.panes[ids[i]].rect) by {
        reveal(seen);
        reveal(far);
    }
    if let Some(j) = at {
        assert(ids[j] != f);
    }
}

/// Without a focused pane there is nowhere to look from.
pub proof fn law_no_focus_to_move(t: TwmView, a: TwmAction)
    requires
        a is FocusLeft || a is FocusRight || a is FocusUp || a is FocusDown,
        t.ws().focused matches Some(f) ==> !t.panes.contains_key(f),
    ensures
        dispatched(t, a) == reflowed(t),
{
}

// ── Order ────────────────────────────────────────────────────────────────────

/// The focused pane changes places with the one before it when it moves left or
/// up, and with the one behind it when it moves right or down; the first and the
/// last one are neighbours too. The focus stays on it.
pub proof fn law_move_goes_one_place(t: TwmView, a: TwmAction, at: int)
    requires
        t.wf(),
        a is MoveLeft || a is MoveRight || a is MoveUp || a is MoveDown,
        t.ws().panes.len() >= 2,
        0 <= at < t.ws().panes.len(),
        t.ws().focused == Some(t.ws().panes[at]),
        forall|k: int| 0 <= k < at ==> #[trigger] t.ws().panes[k] != t.ws().panes[at],
    ensures
        ({
            let u = dispatched(t, a);
            let old_ids = t.ws().panes;
            let ids = u.ws().panes;
            let n = old_ids.len() as int;
            let other = if a is MoveLeft || a is MoveUp {
                if at == 0 {
                    n - 1
                } else {
                    at - 1
                }
            } else if at == n - 1 {
                0
            } else {
                at + 1
            };
            &&& ids.len() == n
            &&& ids[other] == old_ids[at]
            &&& ids[at] == old_ids[other]
            &&& forall|k: int| 0 <= k < n && k != at && k != other ==> ids[k] == old_ids[k]
            &&& u.ws() == (WsView { panes: ids, ..t.ws() })
            &&& other_spaces_same(t, u)
            &&& same_panes(t, u)
            &&& same_screen(t, u)
            &&& u.pads == t.pads
            &&& u.next_id == t.next_id
        }),
{
    let f = t.ws().panes[at];
    lemma_first_index(t.ws().panes, f);
    assert(first_index(t.ws().panes, f) == at);
    lemma_step(at, t.ws().panes.len() as int);
    lemma_reflow_keeps(t.with_ws(t.ws().swapped(false)));
    lemma_reflow_keeps(t.with_ws(t.ws().swapped(true)));
}

/// A pane alone, or one that is not on the workspace, does not move.
pub proof fn law_nothing_to_change_places(t: TwmView, a: TwmAction)
    requires
        t.wf(),
        a is MoveLeft || a is MoveRight || a is MoveUp || a is MoveDown,
        t.ws().panes.len() < 2 || (t.ws().focused matches Some(f) ==> !t.ws().panes.contains(f)),
    ensures
        dispatched(t, a) == reflowed(t),
{
    if let Some(f) = t.ws().focused {
        lemma_first_index(t.ws().panes, f);
        let i = first_index(t.ws().panes, f);
        if i < t.ws().panes.len() {
            assert(t.ws().panes.contains(t.ws().panes[i]));
        }
    }
    assert(t.workspaces.update(t.active, t.ws()) =~= t.workspaces);
}

/// The next layout follows the one in use in the list of layouts, and the previous
/// one precedes it; behind the last one comes the first. Nothing else changes.
pub proof fn law_layouts_go_round(t: TwmView, i: int)
    requires
        t.wf(),
        0 <= i < 5,
        t.ws().layout == seq![
            Layout::Bsp,
            Layout::Columns,
            Layout::Rows,
            Layout::ThreeCol,
            Layout::Monocle,
        ][i],
    ensures
        ({
            let order = seq![
                Layout::Bsp,
                Layout::Columns,
                Layout::Rows,
                Layout::ThreeCol,
                Layout::Monocle,
            ];
            let u = dispatched(t, TwmAction::NextLayout);
            let v = dispatched(t, TwmAction::PrevLayout);
            &&& u.ws() == (WsView { layout: order[(i + 1) % 5], ..t.ws() })
            &&& v.ws() == (WsView { layout: order[(i + 4) % 5], ..t.ws() })
            &&& other_spaces_same(t, u) && other_spaces_same(t, v)
            &&& same_panes(t, u) && same_panes(t, v)
            &&& same_screen(t, u) && same_screen(t, v)
            &&& u.pads == t.pads && v.pads == t.pads
            &&& u.next_id == t.next_id && v.next_id == t.next_id
        }),
{
    lemma_reflow_keeps(t.with_ws(WsView { layout: t.ws().layout.spec_next(), ..t.ws() }));
    lemma_reflow_keeps(t.with_ws(WsView { layout: t.ws().layout.spec_prev(), ..t.ws() }));
}

/// The main pane grows and shrinks by five hundredths, to the precision of the
/// shares, and has from one to nine tenths.
pub proof fn law_main_grows_and_shrinks(t: TwmView)
    requires
        t.wf(),
    ensures
        ({
            let u = dispatched(t, TwmAction::GrowMain);
            let v = dispatched(t, TwmAction::ShrinkMain);
            let old_units = t.ws().main_ratio.units as int;
            let more = u.ws().main_ratio.units as int;
            let less = v.ws().main_ratio.units as int;
            // In parts of a whole of 2^28.
            &&& more * 10 <= 9 * 0x1000_0000
            &&& less * 10 >= 0x1000_0000
            &&& (old_units + 20) * 20 <= 17 * 0x1000_0000 ==> -400 <= (more - old_units) * 20
                - 0x1000_0000 <= 400
            &&& (old_units + 20) * 20 > 17 * 0x1000_0000 ==> -400 <= more * 10 - 9 * 0x1000_0000
                <= 400
            &&& (old_units - 20) * 20 >= 3 * 0x1000_0000 ==> -400 <= (old_units - less) * 20
                - 0x1000_0000 <= 400
            &&& (old_units - 20) * 20 < 3 * 0x1000_0000 ==> -400 <= less * 10 - 0x1000_0000 <= 400
            &&& u.ws() == (WsView { main_ratio: u.ws().main_ratio, ..t.ws() })
            &&& v.ws() == (WsView { main_ratio: v.ws().main_ratio, ..t.ws() })
            &&& other_spaces_same(t, u) && other_spaces_same(t, v)
            &&& same_panes(t, u) && same_panes(t, v)
            &&& same_screen(t, u) && same_screen(t, v)
            &&& u.pads == t.pads && v.pads == t.pads
            &&& u.next_id == t.next_id && v.next_id == t.next_id
        }),
{
    lemma_reflow_keeps(t.with_ws(grown(t.ws())));
    lemma_reflow_keeps(t.with_ws(shrunk(t.ws())));
    let x = t.ws().main_ratio.units;
    assert(t.ws() == t.workspaces[t.active]);
    lemma_round24_close((x + STEP) as nat);
    if x > STEP {
        lemma_round24_close((x - STEP) as nat);
    }
}

// ── Closing ──────────────────────────────────────────────────────────────────

pub proof fn lemma_without_filter(s: Seq<PaneId>, id: PaneId)
    ensures
        without(s, id) == s.filter(|x: PaneId| x != id),
    decreases s.len(),
{
    reveal(Seq::filter);
    if s.len() > 0 {
        lemma_without_filter(s.drop_last(), id);
    } else {
        assert(s =~= Seq::<PaneId>::empty());
    }
}

proof fn lemma_without_all_filter(s: Seq<PaneId>, gone: Set<PaneId>)
    ensures
        without_all(s, gone) == s.filter(|x: PaneId| !gone.contains(x)),
    decreases s.len(),
{
    reveal(Seq::filter);
    if s.len() > 0 {
        lemma_without_all_filter(s.drop_last(), gone);
    } else {
        assert(s =~= Seq::<PaneId>::empty());
    }
}

/// Whether `u` is `t` without the panes `gone`: no workspace and no scratchpad has
/// them, the others stand in their order, and a focus on one of them is on the last
/// pane that is left.
pub open spec fn is_without(t: TwmView, u: TwmView, gone: Set<PaneId>) -> bool {
    &&& forall|id: PaneId| #[trigger]
        u.panes.contains_key(id) <==> t.panes.contains_key(id) && !gone.contains(id)
    &&& forall|id: PaneId| #[trigger]
        u.panes.contains_key(id) ==> {
            &&& u.panes[id].id == t.panes[id].id
            &&& u.panes[id].content == t.panes[id].content
            &&& u.panes[id].fullscreen == t.panes[id].fullscreen
            &&& u.panes[id].floating == t.panes[id].floating
            &&& u.panes[id].float_rect == t.panes[id].float_rect
        }
    &&& u.active == t.active
    &&& u.workspaces.len() == t.workspaces.len()
    &&& forall|i: int|
        0 <= i < t.workspaces.len() ==> {
            let v = t.workspaces[i];
            let w = #[trigger] u.workspaces[i];
            &&& w.panes == v.panes.filter(|id: PaneId| !gone.contains(id))
            &&& w.focused == (if v.focused matches Some(f) && gone.contains(f) {
                if w.panes.len() > 0 {
                    Some(w.panes.last())
                } else {
                    None
                }
            } else {
                v.focused
            })
            &&& w.index == v.index && w.layout == v.layout && w.main_ratio == v.main_ratio
                && w.gap == v.gap
        }
    &&& u.pads.len() == t.pads.len()
    &&& forall|i: int|
        0 <= i < t.pads.len() ==> {
            let p = t.pads[i];
            let q = #[trigger] u.pads[i];
            if p.pane_id matches Some(id) && gone.contains(id) {
                q == (PadView { pane_id: None, visible: false, ..p })
            } else {
                q == p
            }
        }
    &&& same_screen(t, u)
    &&& u.next_id == t.next_id
}

pub proof fn lemma_forgotten_is_without(t: TwmView, gone: Set<PaneId>)
    ensures
        is_without(t, reflowed(forgotten(t, gone)), gone),
{
    let f = forgotten(t, gone);
    lemma_reflow_keeps(f);
    let u = reflowed(f);
    assert forall|id: PaneId| #[trigger] u.panes.contains_key(id) <==> t.panes.contains_key(id)
        && !gone.contains(id) by {
        assert(f.panes.contains_key(id) <==> u.panes.contains_key(id));
    }
    assert forall|id: PaneId| #[trigger] u.panes.contains_key(id) implies {
        &&& u.panes[id].id == t.panes[id].id
        &&& u.panes[id].content == t.panes[id].content
        &&& u.panes[id].fullscreen == t.panes[id].fullscreen
        &&& u.panes[id].floating == t.panes[id].floating
        &&& u.panes[id].float_rect == t.panes[id].float_rect
    } by {
        assert(f.panes.contains_key(id));
    }
    assert forall|i: int| 0 <= i < t.workspaces.len() implies ({
        let v = t.workspaces[i];
        let w = #[trigger] u.workspaces[i];
        &&& w.panes == v.panes.filter(|id: PaneId| !gone.contains(id))
        &&& w.focused == (if v.focused matches Some(f) && gone.contains(f) {
            if w.panes.len() > 0 {
                Some(w.panes.last())
            } else {
                None
            }
        } else {
            v.focused
        })
        &&& w.index == v.index && w.layout == v.layout && w.main_ratio == v.main_ratio && w.gap
            == v.gap
    }) by {
        lemma_without_all_filter(t.workspaces[i].panes, gone);
        assert(f.workspaces[i] == ws_left(t.workspaces[i], gone));
    }
}

/// Closing takes the focused pane away, and nothing else.
pub proof fn law_close_takes_the_focused(t: TwmView)
    ensures
        match t.ws().focused {
            Some(f) => is_without(t, dispatched(t, TwmAction::Close), set![f]),
            None => dispatched(t, TwmAction::Close) == t,
        },
{
    if let Some(f) = t.ws().focused {
        lemma_forgotten_is_without(t, set![f]);
    }
}

/// Closing a program takes all of its panes away, and no others.
pub proof fn law_close_takes_the_program(t: TwmView, app_id: String, gone: Set<PaneId>)
    requires
        forall|id: PaneId| #[trigger]
            gone.contains(id) <==> t.panes.contains_key(id) && (match t.panes[id].content {
                ContentView::Shell { app_id: a, .. } => a == app_id@,
                ContentView::Embedded { app_id: a } => a == app_id@,
                ContentView::Empty => app_id@.len() == 0,
            }),
    ensures
        gone.is_empty() ==> dispatched(t, TwmAction::CloseAppId(app_id)) == t,
        !gone.is_empty() ==> is_without(t, dispatched(t, TwmAction::CloseAppId(app_id)), gone),
{
    assert(app_id@.len() == 0 ==> app_id@ =~= Seq::<char>::empty());
    assert(panes_of(t, app_id@) =~= gone);
    lemma_forgotten_is_without(t, gone);
}

// ── Special panes ────────────────────────────────────────────────────────────

/// The focused pane fills the screen where it did not, and the other way round;
/// when it does, it has the whole screen.
pub proof fn law_fullscreen_flips(t: TwmView, f: PaneId)
    requires
        t.wf(),
        t.ws().focused == Some(f),
        t.panes.contains_key(f),
    ensures
        ({
            let u = dispatched(t, TwmAction::Fullscreen);
            let p = t.panes[f];
            let q = u.panes[f];
            &&& u.panes.contains_key(f)
            &&& q.fullscreen == !p.fullscreen
            &&& q.floating == p.floating && q.float_rect == p.float_rect && q.content == p.content
                && q.id == p.id
            &&& q.fullscreen && t.ws().panes.contains(f) ==> q.rect.x == 0 && q.rect.y == 0
                && q.rect.w == t.screen_w && q.rect.h == t.screen_h
            &&& other_panes_same(t, u, f)
            &&& u.workspaces == t.workspaces && u.active == t.active
            &&& same_screen(t, u)
            &&& u.pads == t.pads && u.next_id == t.next_id
        }),
{
    let x = fullscreen_toggled(t);
    lemma_reflow_keeps(x);
    assert(x.panes.contains_key(f));
    lemma_others(t, x, reflowed(x), f);
    if t.ws().panes.contains(f) {
        law_special_panes_are_placed(x, f);
    }
}

/// What is the same but for one pane, and then moved, is the same but for it.
pub proof fn lemma_others(t: TwmView, x: TwmView, u: TwmView, f: PaneId)
    requires
        x.panes == t.panes.insert(f, x.panes[f]),
        same_panes(x, u),
    ensures
        other_panes_same(t, u, f),
        u.panes.contains_key(f),
{
    assert(x.panes.contains_key(f));
    assert forall|id: PaneId|
        id != f implies (#[trigger] t.panes.contains_key(id) <==> u.panes.contains_key(id)) by {
        assert(x.panes.contains_key(id) <==> t.panes.contains_key(id));
    }
    assert forall|id: PaneId| id != f && #[trigger] t.panes.contains_key(id) implies {
        &&& u.panes[id].id == t.panes[id].id
        &&& u.panes[id].content == t.panes[id].content
        &&& u.panes[id].fullscreen == t.panes[id].fullscreen
        &&& u.panes[id].floating == t.panes[id].floating
        &&& u.panes[id].float_rect == t.panes[id].float_rect
    } by {
        assert(x.panes.contains_key(id));
    }
}

/// The focused pane floats where it did not, and the other way round. It floats
/// where it last floated, and the first time where it is. Back among the tiles it
/// keeps the place for the next time.
pub proof fn law_float_flips(t: TwmView, f: PaneId)
    requires
        t.wf(),
        t.ws().focused == Some(f),
        t.panes.contains_key(f),
    ensures
        ({
            let u = dispatched(t, TwmAction::ToggleFloat);
            let p = t.panes[f];
            let q = u.panes[f];
            &&& u.panes.contains_key(f)
            &&& q.floating == !p.floating
            &&& q.fullscreen == p.fullscreen && q.content == p.content && q.id == p.id
            &&& q.float_rect == (if !p.floating && (p.float_rect.w == 0 || p.float_rect.h == 0) {
                p.rect
            } else {
                p.float_rect
            })
            &&& q.floating && !q.fullscreen && t.ws().panes.contains(f) ==> q.rect == q.float_rect
            &&& other_panes_same(t, u, f)
            &&& u.workspaces == t.workspaces && u.active == t.active
            &&& same_screen(t, u)
            &&& u.pads == t.pads && u.next_id == t.next_id
        }),
{
    let x = float_flipped(t, f);
    lemma_reflow_keeps(x);
    assert(x.panes.contains_key(f));
    lemma_others(t, x, reflowed(x), f);
    if t.ws().panes.contains(f) {
        law_special_panes_are_placed(x, f);
    }
}

/// A floating pane moves by what it is told, as far as it stays on the screen; its
/// size stays, and so does everything else.
pub proof fn law_float_moves(t: TwmView, id: PaneId, dx: i32, dy: i32)
    requires
        t.panes.contains_key(id),
        t.panes[id].floating,
        t.panes[id].rect.x < 0x8000_0000,
        t.panes[id].rect.y < 0x8000_0000,
    ensures
        ({
            let u = dispatched(t, TwmAction::FloatMove(id, dx, dy));
            let p = t.panes[id].rect;
            let q = u.panes[id].rect;
            &&& q.w == p.w && q.h == p.h
            &&& 0 <= p.x + dx && p.x + dx + p.w <= t.screen_w ==> q.x == p.x + dx
            &&& p.x + dx < 0 ==> q.x == 0
            &&& p.x + dx >= 0 && p.x + dx + p.w > t.screen_w ==> q.x == (if p.w <= t.screen_w {
                t.screen_w - p.w
            } else {
                0
            })
            &&& 0 <= p.y + dy && p.y + dy + p.h <= t.screen_h ==> q.y == p.y + dy
            &&& p.y + dy < 0 ==> q.y == 0
            &&& p.y + dy >= 0 && p.y + dy + p.h > t.screen_h ==> q.y == (if p.h <= t.screen_h {
                t.screen_h - p.h
            } else {
                0
            })
            &&& u == (TwmView {
                panes: t.panes.insert(id, (PaneView { rect: q, float_rect: q, ..t.panes[id] })),
                ..t
            })
        }),
{
    assert(t.panes[id].rect.x as i32 == t.panes[id].rect.x);
    assert(t.panes[id].rect.y as i32 == t.panes[id].rect.y);
}

/// A floating pane grows and shrinks by what it is told, down to a least size and
/// up to that of the screen; its corner stays, and so does everything else.
pub proof fn law_float_resizes(t: TwmView, id: PaneId, dw: i32, dh: i32)
    requires
        t.panes.contains_key(id),
        t.panes[id].floating,
        t.panes[id].rect.w < 0x8000_0000,
        t.panes[id].rect.h < 0x8000_0000,
        t.screen_w >= 80,
        t.screen_h >= 60,
    ensures
        ({
            let u = dispatched(t, TwmAction::FloatResize(id, dw, dh));
            let p = t.panes[id].rect;
            let q = u.panes[id].rect;
            &&& q.x == p.x && q.y == p.y
            &&& 80 <= p.w + dw <= t.screen_w ==> q.w == p.w + dw
            &&& p.w + dw < 80 ==> q.w == 80
            &&& p.w + dw > t.screen_w ==> q.w == t.screen_w
            &&& 60 <= p.h + dh <= t.screen_h ==> q.h == p.h + dh
            &&& p.h + dh < 60 ==> q.h == 60
            &&& p.h + dh > t.screen_h ==> q.h == t.screen_h
            &&& u == (TwmView {
                panes: t.panes.insert(id, (PaneView { rect: q, float_rect: q, ..t.panes[id] })),
                ..t
            })
        }),
{
    assert(t.panes[id].rect.w as i32 == t.panes[id].rect.w);
    assert(t.panes[id].rect.h as i32 == t.panes[id].rect.h);
}

/// Panes that do not float are not moved about.
pub proof fn law_tiles_are_not_moved(t: TwmView, id: PaneId, x: i32, y: i32)
    requires
        !t.panes.contains_key(id) || !t.panes[id].floating,
    ensures
        dispatched(t, TwmAction::FloatMove(id, x, y)) == t,
        dispatched(t, TwmAction::FloatResize(id, x, y)) == t,
{
}

// ── Workspaces ───────────────────────────────────────────────────────────────

/// The next workspace and the previous one, counted round. Nothing else changes.
pub proof fn law_workspaces_go_round(t: TwmView)
    requires
        t.wf(),
    ensures
        ({
            let u = dispatched(t, TwmAction::NextWorkspace);
            let v = dispatched(t, TwmAction::PrevWorkspace);
            let n = t.workspaces.len() as int;
            &&& u.active == (if t.active == n - 1 {
                0
            } else {
                t.active + 1
            })
            &&& v.active == (if t.active == 0 {
                n - 1
            } else {
                t.active - 1
            })
            &&& u.workspaces == t.workspaces && v.workspaces == t.workspaces
            &&& same_panes(t, u) && same_panes(t, v)
            &&& same_screen(t, u) && same_screen(t, v)
            &&& u.pads == t.pads && v.pads == t.pads
            &&& u.next_id == t.next_id && v.next_id == t.next_id
        }),
{
    let n = t.workspaces.len() as int;
    lemma_step(t.active, n);
    lemma_reflow_keeps(TwmView { active: (t.active + 1) % n, ..t });
    lemma_reflow_keeps(TwmView { active: (t.active + n - 1) % n, ..t });
}

/// Whether `id` is the pane of a scratchpad that shows.
pub open spec fn in_shown_pad(pads: Seq<PadView>, id: PaneId) -> bool {
    exists|i: int| 0 <= i < pads.len() && (#[trigger] pads[i]).visible && pads[i].pane_id == Some(id)
}

proof fn lemma_filter_twice(s: Seq<PaneId>, p: spec_fn(PaneId) -> bool, id: PaneId)
    ensures
        s.filter(p).filter(|x: PaneId| x != id) == s.filter(|x: PaneId| p(x) && x != id),
    decreases s.len(),
{
    reveal(Seq::filter);
    if s.len() > 0 {
        lemma_filter_twice(s.drop_last(), p, id);
        let a = s.drop_last().filter(p);
        if p(s.last()) {
            assert(a.push(s.last()).drop_last() =~= a);
        }
    }
}

proof fn lemma_filter_same(s: Seq<PaneId>, p: spec_fn(PaneId) -> bool, q: spec_fn(PaneId) -> bool)
    requires
        forall|x: PaneId| #[trigger] p(x) == q(x),
    ensures
        s.filter(p) == s.filter(q),
    decreases s.len(),
{
    reveal(Seq::filter);
    if s.len() > 0 {
        lemma_filter_same(s.drop_last(), p, q);
        assert(p(s.last()) == q(s.last()));
    }
}

proof fn lemma_filter_all(s: Seq<PaneId>, p: spec_fn(PaneId) -> bool)
    requires
        forall|x: PaneId| #[trigger] p(x),
    ensures
        s.filter(p) == s,
    decreases s.len(),
{
    reveal(Seq::filter);
    if s.len() > 0 {
        lemma_filter_all(s.drop_last(), p);
        assert(p(s.last()));
        assert(s.drop_last().push(s.last()) =~= s);
    }
}

proof fn lemma_swept_filter(w: WsView, pads: Seq<PadView>, n: int)
    requires
        0 <= n <= pads.len(),
    ensures
        ({
            let v = pads_swept(w, pads, n);
            &&& v.panes == w.panes.filter(|x: PaneId| !in_shown_pad(pads.take(n), x))
            &&& (w.focused matches Some(f) ==> !in_shown_pad(pads.take(n), f)) ==> v.focused
                == w.focused
            &&& v.focused != w.focused ==> (v.focused matches Some(g) ==> !in_shown_pad(
                pads.take(n),
                g,
            ) && w.panes.contains(g))
            &&& w.focused matches Some(f) ==> in_shown_pad(pads.take(n), f) ==> v.focused
                != w.focused
            &&& v.index == w.index && v.layout == w.layout && v.main_ratio == w.main_ratio && v.gap
                == w.gap
        }),
    decreases n,
{
    if n <= 0 {
        lemma_filter_all(w.panes, |x: PaneId| !in_shown_pad(pads.take(n), x));
    } else {
        lemma_swept_filter(w, pads, n - 1);
        let before = pads_swept(w, pads, n - 1);
        let p = |x: PaneId| !in_shown_pad(pads.take(n - 1), x);
        let q = |x: PaneId| !in_shown_pad(pads.take(n), x);
        let last = pads[n - 1];
        assert forall|x: PaneId| #[trigger]
            in_shown_pad(pads.take(n), x) <==> in_shown_pad(pads.take(n - 1), x) || (last.visible
            && last.pane_id == Some(x)) by {
            if in_shown_pad(pads.take(n), x) {
                let i = choose|i: int|
                    0 <= i < pads.take(n).len() && (#[trigger] pads.take(n)[i]).visible
                        && pads.take(n)[i].pane_id == Some(x);
                if i < n - 1 {
                    assert(pads.take(n - 1)[i] == pads.take(n)[i]);
                }
            }
            if in_shown_pad(pads.take(n - 1), x) {
                let i = choose|i: int|
                    0 <= i < pads.take(n - 1).len() && (#[trigger] pads.take(n - 1)[i]).visible
                        && pads.take(n - 1)[i].pane_id == Some(x);
                assert(pads.take(n)[i] == pads.take(n - 1)[i]);
            }
            if last.visible && last.pane_id == Some(x) {
                assert(pads.take(n)[n - 1] == last);
            }
        }
        if last.visible && last.pane_id is Some {
            let id = last.pane_id->0;
            lemma_without_filter(before.panes, id);
            lemma_filter_twice(w.panes, p, id);
            let r = |x: PaneId| p(x) && x != id;
            lemma_filter_same(w.panes, r, q);
            let after = before.left_by(id);
            assert(after.panes == w.panes.filter(q));
            if before.focused == Some(id) && after.panes.len() > 0 {
                let g = after.panes.last();
                assert(after.panes.contains(g)) by {
                    assert(after.panes[after.panes.len() - 1] == g);
                }
                lemma_in_filter(w.panes, q, g);
            }
        } else {
            lemma_filter_same(w.panes, p, q);
        }
    }
}

proof fn lemma_in_filter(s: Seq<PaneId>, p: spec_fn(PaneId) -> bool, x: PaneId)
    requires
        s.filter(p).contains(x),
    ensures
        s.contains(x),
        p(x),
    decreases s.len(),
{
    reveal(Seq::filter);
    if s.len() > 0 {
        let rest = s.drop_last();
        let k = choose|k: int| 0 <= k < s.filter(p).len() && s.filter(p)[k] == x;
        if k < rest.filter(p).len() {
            assert(rest.filter(p)[k] == x);
            assert(rest.filter(p).contains(x));
            lemma_in_filter(rest, p, x);
            let j = choose|j: int| 0 <= j < rest.len() && rest[j] == x;
            assert(s[j] == x);
        } else {
            assert(s[s.len() - 1] == x);
        }
    }
}

/// Going to a workspace by its number, counted from one, leads there; a number that
/// is too small or too large leads to the first or the last one. All scratchpads are
/// hidden: their panes leave the workspaces. Nothing else changes.
pub proof fn law_workspace_by_number(t: TwmView, n: u8)
    requires
        t.wf(),
    ensures
        ({
            let u = dispatched(t, TwmAction::Workspace(n));
            let count = t.workspaces.len() as int;
            &&& 1 <= n <= count ==> u.active == n - 1
            &&& n == 0 ==> u.active == 0
            &&& n > count ==> u.active == count - 1
            &&& u.pads.len() == t.pads.len()
            &&& forall|i: int|
                0 <= i < t.pads.len() ==> #[trigger] u.pads[i] == (PadView {
                    visible: false,
                    ..t.pads[i]
                })
            &&& u.workspaces.len() == count
            &&& forall|i: int|
                0 <= i < count ==> {
                    let v = t.workspaces[i];
                    let w = #[trigger] u.workspaces[i];
                    &&& w.panes == v.panes.filter(|x: PaneId| !in_shown_pad(t.pads, x))
                    &&& v.focused matches Some(f) ==> !in_shown_pad(t.pads, f) ==> w.focused
                        == v.focused
                    &&& v.focused matches Some(f) ==> in_shown_pad(t.pads, f) ==> (
                    w.focused matches Some(g) ==> w.panes.contains(g))
                    &&& v.focused is None ==> w.focused is None
                    &&& w.index == v.index && w.layout == v.layout && w.main_ratio == v.main_ratio
                        && w.gap == v.gap
                }
            &&& same_panes(t, u)
            &&& same_screen(t, u)
            &&& u.next_id == t.next_id
        }),
{
    let count = t.workspaces.len() as int;
    let x = TwmView { active: ws_place(n, count), ..pads_hidden(t) };
    lemma_reflow_keeps(x);
    let u = reflowed(x);
    assert(t.pads.take(t.pads.len() as int) =~= t.pads);
    assert forall|i: int| 0 <= i < count implies ({
        let v = t.workspaces[i];
        let w = #[trigger] u.workspaces[i];
        &&& w.panes == v.panes.filter(|x: PaneId| !in_shown_pad(t.pads, x))
        &&& v.focused matches Some(f) ==> !in_shown_pad(t.pads, f) ==> w.focused == v.focused
        &&& v.focused matches Some(f) ==> in_shown_pad(t.pads, f) ==> (w.focused matches Some(g)
            ==> w.panes.contains(g))
        &&& v.focused is None ==> w.focused is None
        &&& w.index == v.index && w.layout == v.layout && w.main_ratio == v.main_ratio && w.gap
            == v.gap
    }) by {
        let v = t.workspaces[i];
        let w = u.workspaces[i];
        lemma_swept_filter(v, t.pads, t.pads.len() as int);
        lemma_filter_same(
            v.panes,
            |x: PaneId| !in_shown_pad(t.pads.take(t.pads.len() as int), x),
            |x: PaneId| !in_shown_pad(t.pads, x),
        );
        if v.focused is Some && in_shown_pad(t.pads, v.focused->0) {
            if let Some(g) = w.focused {
                lemma_keeps_in_filter(v.panes, |x: PaneId| !in_shown_pad(t.pads, x), g);
            }
        }
    }
}

proof fn lemma_keeps_in_filter(s: Seq<PaneId>, p: spec_fn(PaneId) -> bool, x: PaneId)
    requires
        s.contains(x),
        p(x),
    ensures
        s.filter(p).contains(x),
    decreases s.len(),
{
    reveal(Seq::filter);
    let k = choose|k: int| 0 <= k < s.len() && s[k] == x;
    let rest = s.drop_last();
    if k < rest.len() {
        assert(rest[k] == x);
        lemma_keeps_in_filter(rest, p, x);
        let j = choose|j: int| 0 <= j < rest.filter(p).len() && rest.filter(p)[j] == x;
        assert(s.filter(p)[j] == x);
    } else {
        assert(s.filter(p).last() == x);
    }
}

/// The focused pane goes to the workspace with a number, counted from one as for
/// going there, behind the panes that it has, and gets its focus. The workspace that
/// it leaves stays active, with the focus on its last pane.
pub proof fn law_pane_is_sent(t: TwmView, n: u8, at: int, f: PaneId)
    requires
        t.wf(),
        t.ws().focused == Some(f),
        0 <= at < t.workspaces.len(),
        at == n - 1 || (at == 0 && n == 0) || (at == t.workspaces.len() - 1 && n > at),
    ensures
        ({
            let u = dispatched(t, TwmAction::MoveToWorkspace(n));
            let here = u.workspaces[t.active];
            &&& at != t.active ==> {
                &&& u.workspaces[at] == (WsView {
                    panes: t.workspaces[at].panes + seq![f],
                    focused: Some(f),
                    ..t.workspaces[at]
                })
                &&& here == (WsView {
                    panes: t.ws().panes.filter(|x: PaneId| x != f),
                    focused: here.focused,
                    ..t.ws()
                })
                &&& here.focused == (if here.panes.len() > 0 {
                    Some(here.panes[here.panes.len() - 1])
                } else {
                    None
                })
            }
            &&& at == t.active ==> u.workspaces == t.workspaces
            &&& u.workspaces.len() == t.workspaces.len()
            &&& forall|i: int|
                0 <= i < t.workspaces.len() && i != at && i != t.active
                    ==> #[trigger] u.workspaces[i] == t.workspaces[i]
            &&& u.active == t.active
            &&& same_panes(t, u)
            &&& same_screen(t, u)
            &&& u.pads == t.pads && u.next_id == t.next_id
        }),
{
    lemma_reflow_keeps(sent_to(t, n));
    lemma_without_filter(t.ws().panes, f);
    assert(t.workspaces[at].panes + seq![f] =~= t.workspaces[at].panes.push(f));
}

/// Without a focused pane there is nothing to send.
pub proof fn law_nothing_to_send(t: TwmView, n: u8)
    requires
        t.ws().focused is None,
    ensures
        dispatched(t, TwmAction::MoveToWorkspace(n)) == reflowed(t),
{
}

// ── Opening ──────────────────────────────────────────────────────────────────

/// Whether `u` is `t` with one pane more: on the active workspace behind the
/// others, with the focus on it, and neither floating nor filling the screen.
pub open spec fn has_opened(t: TwmView, u: TwmView, content: ContentView) -> bool {
    let id = t.next_id;
    &&& u.panes.contains_key(id)
    &&& u.panes[id].id == id && u.panes[id].content == content
    &&& !u.panes[id].fullscreen && !u.panes[id].floating
    &&& u.panes[id].float_rect.w == 0 && u.panes[id].float_rect.h == 0
    &&& u.ws() == (WsView { panes: t.ws().panes + seq![id], focused: Some(id), ..t.ws() })
    &&& u.next_id == (if id == u32::MAX {
        0
    } else {
        id + 1
    })
    &&& other_panes_same(t, u, id)
    &&& other_spaces_same(t, u)
    &&& same_screen(t, u)
    &&& u.pads == t.pads
}

pub proof fn lemma_opened(t: TwmView, content: ContentView)
    requires
        t.wf(),
    ensures
        has_opened(t, opened(t, content), content),
{
    let x = before_open(t, content);
    lemma_reflow_keeps(x);
    assert(opened(t, content) == reflowed(x));
    lemma_others(t, x, reflowed(x), t.next_id);
    assert(t.ws().panes + seq![t.next_id] =~= t.ws().panes.push(t.next_id));
}

/// A shell opens in a pane of its own, which bears its name until it has a title.
pub proof fn law_shell_opens(t: TwmView, app_id: String)
    requires
        t.wf(),
    ensures
        has_opened(
            t,
            dispatched(t, TwmAction::OpenShell(app_id)),
            (ContentView::Shell { app_id: app_id@, title: app_id@ }),
        ),
{
    lemma_opened(t, ContentView::Shell { app_id: app_id@, title: app_id@ });
}

/// A program takes the focused pane where that is empty, and else opens one.
pub proof fn law_program_is_embedded(t: TwmView, app_id: String)
    requires
        t.wf(),
    ensures
        ({
            let u = dispatched(t, TwmAction::AssignEmbedded(app_id));
            let content = ContentView::Embedded { app_id: app_id@ };
            if t.ws().focused matches Some(f) && t.panes.contains_key(f) && t.panes[f].content
                is Empty {
                let f = t.ws().focused->0;
                &&& embedded(t, app_id@).1 == f
                &&& u.panes.contains_key(f)
                &&& u.panes[f].content == content
                &&& u.panes[f].id == t.panes[f].id
                &&& u.panes[f].fullscreen == t.panes[f].fullscreen
                &&& u.panes[f].floating == t.panes[f].floating
                &&& u.panes[f].float_rect == t.panes[f].float_rect
                &&& other_panes_same(t, u, f)
                &&& u.workspaces == t.workspaces && u.active == t.active
                &&& same_screen(t, u)
                &&& u.pads == t.pads && u.next_id == t.next_id
            } else {
                has_opened(t, u, content) && embedded(t, app_id@).1 == t.next_id
            }
        }),
{
    lemma_opened(t, ContentView::Embedded { app_id: app_id@ });
    if let Some(f) = t.ws().focused {
        if t.panes.contains_key(f) {
            let x = filled(t, f, app_id@);
            lemma_reflow_keeps(x);
            lemma_others(t, x, reflowed(x), f);
            assert(x.panes.contains_key(f));
        }
    }
}

/// A title is the title of one shell, and changes nothing else.
pub proof fn law_title_is_set(t: TwmView, id: PaneId, title: String)
    ensures
        ({
            let u = dispatched(t, TwmAction::SetTitle(id, title));
            if t.panes.contains_key(id) && t.panes[id].content is Shell {
                u == (TwmView {
                    panes: t.panes.insert(
                        id,
                        (PaneView {
                            content: (ContentView::Shell {
                                app_id: t.panes[id].content->Shell_app_id,
                                title: title@,
                            }),
                            ..t.panes[id]
                        }),
                    ),
                    ..t
                })
            } else {
                u == t
            }
        }),
{
}

// ── Bar ──────────────────────────────────────────────────────────────────────

/// The bar shows where it did not, and the other way round. Without it the panes
/// have the whole screen but its margin, with it what is left above or below it.
pub proof fn law_bar_flips(t: TwmView)
    requires
        t.wf(),
        2 * t.padding <= t.screen_w,
        2 * t.padding + t.bar.h <= t.screen_h,
        // The bar is at the top, or at the bottom.
        t.bar.y == 0 || t.bar.y + t.bar.h == t.screen_h,
    ensures
        ({
            let u = dispatched(t, TwmAction::ToggleBar);
            &&& u.bar_visible == !t.bar_visible
            &&& u.bar == t.bar
            &&& u.content.x == t.padding && u.content.w == t.screen_w - 2 * t.padding
            &&& !u.bar_visible ==> u.content.y == t.padding && u.content.h == t.screen_h - 2
                * t.padding
            &&& u.bar_visible ==> u.content.h == t.screen_h - 2 * t.padding - t.bar.h
            &&& u.bar_visible && t.bar.y == 0 ==> u.content.y == t.bar.h + t.padding
            &&& u.bar_visible && t.bar.y > 0 ==> u.content.y == t.padding && u.content.y
                + u.content.h + t.padding == t.bar.y
            &&& same_panes(t, u)
            &&& u.workspaces == t.workspaces && u.active == t.active
            &&& u.screen_w == t.screen_w && u.screen_h == t.screen_h
            &&& u.gap == t.gap && u.border_w == t.border_w && u.padding == t.padding && u.count
                == t.count
            &&& u.pads == t.pads && u.next_id == t.next_id
        }),
{
    lemma_reflow_keeps(bar_toggled(t));
}

/// The areas of a screen: a bar as high as it is told, across the screen, at the
/// top or at the bottom, and the rest for the panes, less a margin on each side.
pub proof fn law_screen_is_split(sw: u32, sh: u32, bar_h: u32, at_bottom: bool, padding: u32)
    requires
        2 * padding <= sw,
        2 * padding + bar_h <= sh,
        bar_h > 0,
    ensures
        ({
            let (content, bar) = split_screen(sw, sh, bar_h, at_bottom, padding);
            &&& bar.x == 0 && bar.w == sw && bar.h == bar_h
            &&& content.x == padding && content.w == sw - 2 * padding
            &&& content.h == sh - bar_h - 2 * padding
            &&& at_bottom ==> bar.y == sh - bar_h && content.y == padding
            &&& !at_bottom ==> bar.y == 0 && content.y == bar_h + padding
        }),
{
}

// ── Scratchpads ──────────────────────────────────────────────────────────────

/// Whether a rectangle is in the middle of the screen, to the pixel, and as large
/// as the shares of the scratchpad say.
pub open spec fn is_centred(t: TwmView, p: PadView, r: Rect) -> bool {
    &&& 0 <= t.screen_w - (2 * r.x + r.w) <= 1
    &&& 0 <= t.screen_h - (2 * r.y + r.h) <= 1
    &&& t.screen_w * p.width_pct.units - 2 * 0x1000_0000 < r.w * 0x1000_0000 <= t.screen_w
        * p.width_pct.units + 0x1000_0000
    &&& t.screen_h * p.height_pct.units - 2 * 0x1000_0000 < r.h * 0x1000_0000 <= t.screen_h
        * p.height_pct.units + 0x1000_0000
}

proof fn lemma_pad_rect(t: TwmView, p: PadView)
    requires
        t.screen_w < 0x100_0000,
        t.screen_h < 0x100_0000,
        p.width_pct.wf(),
        p.height_pct.wf(),
    ensures
        is_centred(t, p, pad_rect(t, p)),
{
    law_share_is_close(t.screen_w, p.width_pct);
    law_share_is_close(t.screen_h, p.height_pct);
    law_share_is_part(t.screen_w, p.width_pct);
    law_share_is_part(t.screen_h, p.height_pct);
}

/// A scratchpad that shows is hidden: its pane leaves every workspace, and a focus
/// on it goes to the last pane there.
pub proof fn law_pad_is_hidden(t: TwmView, name: String, i: int, id: PaneId)
    requires
        t.wf(),
        0 <= i < t.pads.len(),
        t.pads[i].name == name@,
        forall|k: int| 0 <= k < i ==> (#[trigger] t.pads[k]).name != name@,
        t.pads[i].pane_id == Some(id),
        t.pads[i].visible,
    ensures
        ({
            let u = dispatched(t, TwmAction::ToggleScratchpad(name));
            &&& u.pads.len() == t.pads.len()
            &&& u.pads[i] == (PadView { visible: false, ..t.pads[i] })
            &&& forall|k: int|
                0 <= k < t.pads.len() && k != i ==> #[trigger] u.pads[k] == t.pads[k]
            &&& u.active == t.active
            &&& u.workspaces.len() == t.workspaces.len()
            &&& forall|k: int|
                0 <= k < t.workspaces.len() ==> {
                    let v = t.workspaces[k];
                    let w = #[trigger] u.workspaces[k];
                    &&& w.panes == v.panes.filter(|x: PaneId| x != id)
                    &&& v.focused != Some(id) ==> w.focused == v.focused
                    &&& v.focused == Some(id) ==> w.focused == (if w.panes.len() > 0 {
                        Some(w.panes.last())
                    } else {
                        None
                    })
                    &&& w.index == v.index && w.layout == v.layout && w.main_ratio == v.main_ratio
                        && w.gap == v.gap
                }
            &&& same_panes(t, u)
            &&& same_screen(t, u)
            &&& u.next_id == t.next_id
        }),
{
    lemma_pad_named(t.pads, name@);
    let j = pad_named(t.pads, name@);
    assert(j == i) by {
        if j < i {
            assert(t.pads[j].name != name@);
        }
        if i < j {
            assert(t.pads[i].name == name@);
        }
    }
    let x = pad_hidden(t, i, id);
    lemma_reflow_keeps(x);
    let u = reflowed(x);
    assert forall|k: int| 0 <= k < t.workspaces.len() implies ({
        let v = t.workspaces[k];
        let w = #[trigger] u.workspaces[k];
        &&& w.panes == v.panes.filter(|x: PaneId| x != id)
        &&& v.focused != Some(id) ==> w.focused == v.focused
        &&& v.focused == Some(id) ==> w.focused == (if w.panes.len() > 0 {
            Some(w.panes.last())
        } else {
            None
        })
        &&& w.index == v.index && w.layout == v.layout && w.main_ratio == v.main_ratio && w.gap
            == v.gap
    }) by {
        lemma_without_filter(t.workspaces[k].panes, id);
    }
}

/// A hidden scratchpad shows: its pane is on the active workspace and on no other,
/// behind the panes there, with the focus on it, in the middle of the screen.
pub proof fn law_pad_is_shown(t: TwmView, name: String, i: int, id: PaneId)
    requires
        t.wf(),
        t.screen_w < 0x100_0000,
        t.screen_h < 0x100_0000,
        0 <= i < t.pads.len(),
        t.pads[i].name == name@,
        forall|k: int| 0 <= k < i ==> (#[trigger] t.pads[k]).name != name@,
        t.pads[i].pane_id == Some(id),
        !t.pads[i].visible,
    ensures
        ({
            let u = dispatched(t, TwmAction::ToggleScratchpad(name));
            &&& u.pads.len() == t.pads.len()
            &&& u.pads[i] == (PadView { visible: true, ..t.pads[i] })
            &&& forall|k: int|
                0 <= k < t.pads.len() && k != i ==> #[trigger] u.pads[k] == t.pads[k]
            &&& u.active == t.active
            &&& u.workspaces.len() == t.workspaces.len()
            &&& forall|k: int|
                0 <= k < t.workspaces.len() ==> {
                    let v = t.workspaces[k];
                    let others = v.panes.filter(|x: PaneId| x != id);
                    if k == t.active {
                        #[trigger] u.workspaces[k] == (WsView {
                            panes: others + seq![id],
                            focused: Some(id),
                            ..v
                        })
                    } else {
                        u.workspaces[k] == (WsView { panes: others, ..v })
                    }
                }
            &&& t.panes.contains_key(id) ==> {
                &&& u.panes.contains_key(id)
                &&& is_centred(t, t.pads[i], u.panes[id].float_rect)
                &&& t.panes[id].floating && !t.panes[id].fullscreen ==> u.panes[id].rect
                    == u.panes[id].float_rect
                &&& u.panes[id].id == t.panes[id].id
                &&& u.panes[id].content == t.panes[id].content
                &&& u.panes[id].floating == t.panes[id].floating
                &&& u.panes[id].fullscreen == t.panes[id].fullscreen
            }
            &&& other_panes_same(t, u, id)
            &&& same_screen(t, u)
            &&& u.next_id == t.next_id
        }),
{
    lemma_pad_named(t.pads, name@);
    let j = pad_named(t.pads, name@);
    assert(j == i) by {
        if j < i {
            assert(t.pads[j].name != name@);
        }
        if i < j {
            assert(t.pads[i].name == name@);
        }
    }
    let x = pad_shown(t, i, id);
    lemma_reflow_keeps(x);
    let u = reflowed(x);
    lemma_pad_rect(t, t.pads[i]);
    if t.panes.contains_key(id) {
        lemma_others(t, x, u, id);
        let w = x.ws();
        assert(w.panes.contains(id)) by {
            assert(w.panes[w.panes.len() - 1] == id);
        }
        law_special_panes_are_placed(x, id);
        assert(x.panes.contains_key(id));
    } else {
        assert(x.panes == t.panes);
    }
    assert forall|k: int| 0 <= k < t.workspaces.len() implies ({
        let v = t.workspaces[k];
        let others = v.panes.filter(|x: PaneId| x != id);
        if k == t.active {
            #[trigger] u.workspaces[k] == (WsView {
                panes: others + seq![id],
                focused: Some(id),
                ..v
            })
        } else {
            u.workspaces[k] == (WsView { panes: others, ..v })
        }
    }) by {
        lemma_without_filter(t.workspaces[k].panes, id);
        let others = t.workspaces[k].panes.filter(|x: PaneId| x != id);
        assert(others + seq![id] =~= others.push(id));
    }
}

/// A scratchpad that has no pane, or that there is not, changes nothing.
pub proof fn law_no_pad_to_show(t: TwmView, name: String)
    requires
        forall|i: int|
            0 <= i < t.pads.len() && (#[trigger] t.pads[i]).name == name@ ==> t.pads[i].pane_id
                is None,
    ensures
        dispatched(t, TwmAction::ToggleScratchpad(name)) == t,
{
    lemma_pad_named(t.pads, name@);
    let i = pad_named(t.pads, name@);
    if i < t.pads.len() {
        assert(t.pads[i].name == name@);
    }
}

/// A pane of a program goes to the first scratchpad for that program that has none.
/// It leaves every workspace, and floats in the middle of the screen from then on.
pub proof fn law_pad_takes_its_program(t: TwmView, id: PaneId, app_id: Seq<char>, i: int)
    requires
        t.wf(),
        t.screen_w < 0x100_0000,
        t.screen_h < 0x100_0000,
        0 <= i < t.pads.len(),
        t.pads[i].app_id == app_id,
        t.pads[i].pane_id is None,
        forall|k: int|
            0 <= k < i ==> (#[trigger] t.pads[k]).app_id != app_id || t.pads[k].pane_id is Some,
    ensures
        ({
            let (u, taken) = pad_assigned(t, id, app_id);
            &&& taken
            &&& u.pads.len() == t.pads.len()
            &&& u.pads[i] == (PadView { pane_id: Some(id), ..t.pads[i] })
            &&& forall|k: int|
                0 <= k < t.pads.len() && k != i ==> #[trigger] u.pads[k] == t.pads[k]
            &&& u.active == t.active
            &&& u.workspaces.len() == t.workspaces.len()
            &&& forall|k: int|
                0 <= k < t.workspaces.len() ==> {
                    let v = t.workspaces[k];
                    let w = #[trigger] u.workspaces[k];
                    &&& w.panes == v.panes.filter(|x: PaneId| x != id)
                    &&& v.focused != Some(id) ==> w.focused == v.focused
                    &&& v.focused == Some(id) ==> w.focused == (if w.panes.len() > 0 {
                        Some(w.panes.last())
                    } else {
                        None
                    })
                    &&& w.index == v.index && w.layout == v.layout && w.main_ratio == v.main_ratio
                        && w.gap == v.gap
                }
            &&& t.panes.contains_key(id) ==> {
                &&& u.panes.contains_key(id)
                &&& u.panes[id].floating
                &&& is_centred(t, t.pads[i], u.panes[id].rect)
                &&& u.panes[id].float_rect == u.panes[id].rect
                &&& u.panes[id].id == t.panes[id].id
                &&& u.panes[id].content == t.panes[id].content
                &&& u.panes[id].fullscreen == t.panes[id].fullscreen
            }
            &&& other_panes_same(t, u, id)
            &&& same_screen(t, u)
            &&& u.next_id == t.next_id
        }),
{
    lemma_pad_for(t.pads, app_id);
    let j = pad_for(t.pads, app_id);
    assert(j == i) by {
        if j < i {
            assert(t.pads[j].app_id != app_id || t.pads[j].pane_id is Some);
        }
        if i < j {
            assert(t.pads[i].app_id == app_id);
        }
    }
    lemma_pad_rect(t, t.pads[i]);
    let u = pad_assigned(t, id, app_id).0;
    assert forall|k: int| 0 <= k < t.workspaces.len() implies ({
        let v = t.workspaces[k];
        let w = #[trigger] u.workspaces[k];
        &&& w.panes == v.panes.filter(|x: PaneId| x != id)
        &&& v.focused != Some(id) ==> w.focused == v.focused
        &&& v.focused == Some(id) ==> w.focused == (if w.panes.len() > 0 {
            Some(w.panes.last())
        } else {
            None
        })
        &&& w.index == v.index && w.layout == v.layout && w.main_ratio == v.main_ratio && w.gap
            == v.gap
    }) by {
        lemma_without_filter(t.workspaces[k].panes, id);
    }
    if t.panes.contains_key(id) {
        lemma_others(t, u, u, id);
    }
}

/// A pane for which there is no scratchpad, or none that is free, stays as it is.
pub proof fn law_no_pad_to_take(t: TwmView, id: PaneId, app_id: Seq<char>)
    requires
        forall|i: int|
            0 <= i < t.pads.len() && (#[trigger] t.pads[i]).app_id == app_id ==> t.pads[i].pane_id
                is Some,
    ensures
        pad_assigned(t, id, app_id) == (t, false),
{
    lemma_pad_for(t.pads, app_id);
    let i = pad_for(t.pads, app_id);
    if i < t.pads.len() {
        assert(t.pads[i].app_id == app_id);
    }
}

} // verus!
