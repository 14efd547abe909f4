//! What holds of scratchpads: the pane of a hidden one is in no workspace.

use vstd::prelude::*;

use crate::config::value::last_of;
use crate::twm::laws::{law_reflow_only_moves, lemma_without_all};
use crate::twm::pane::{
    fresh_pane, lemma_first_index, lemma_without, without, ContentView, PadView, PaneId, PaneView,
    WsView,
};
use crate::twm::state::{
    all_closed, bar_toggled, dispatched, embedded, focus_is_empty, focus_moved, forgotten,
    fullscreen_toggled, grown, nearest, next_of, opened, pad_assigned, pad_for, pad_hidden,
    pad_named, pad_shown, pad_toggled, pads_hidden, pads_swept, panes_of, reflowed, registered,
    sent_to, shell_content, shrunk, without_all, ws_left, ws_place, TwmAction, TwmView,
};

verus! {

/// Whether the focus of a workspace is on one of its panes.
pub open spec fn focus_in(w: WsView) -> bool {
    w.focused matches Some(f) ==> w.panes.contains(f)
}

/// Whether a workspace has the pane of a scratchpad.
pub open spec fn has_pad(w: WsView, p: PadView) -> bool {
    p.pane_id matches Some(id) && w.panes.contains(id)
}

/// Whether no workspace has the pane of a hidden scratchpad.
pub open spec fn hidden_nowhere(t: TwmView) -> bool {
    forall|i: int, k: int|
        #![trigger t.pads[i], t.workspaces[k]]
        0 <= i < t.pads.len() && 0 <= k < t.workspaces.len() && !t.pads[i].visible ==> !has_pad(
            t.workspaces[k],
            t.pads[i],
        )
}

/// Whether scratchpads are kept in order: no workspace has the pane of a hidden
/// one, their panes exist and are different ones, and the focus of a workspace is
/// on one of its panes.
pub open spec fn pads_kept(t: TwmView) -> bool {
    &&& hidden_nowhere(t)
    &&& forall|k: int| 0 <= k < t.workspaces.len() ==> focus_in(#[trigger] t.workspaces[k])
    &&& forall|i: int, j: int|
        #![trigger t.pads[i], t.pads[j]]
        0 <= i < t.pads.len() && 0 <= j < t.pads.len() && i != j && t.pads[i].pane_id is Some
            ==> t.pads[i].pane_id != t.pads[j].pane_id
    &&& forall|i: int|
        0 <= i < t.pads.len() ==> ((#[trigger] t.pads[i]).pane_id matches Some(id)
            ==> t.panes.contains_key(id))
}

/// Whether all panes of `t` exist in `u`.
spec fn keeps_panes(t: TwmView, u: TwmView) -> bool {
    forall|x: PaneId| #[trigger] t.panes.contains_key(x) ==> u.panes.contains_key(x)
}

/// Whether every workspace of `u` has only panes that it has in `t`.
spec fn loses_panes(t: TwmView, u: TwmView) -> bool {
    &&& u.workspaces.len() == t.workspaces.len()
    &&& forall|k: int, x: PaneId|
        #![trigger u.workspaces[k].panes.contains(x)]
        0 <= k < t.workspaces.len() && u.workspaces[k].panes.contains(x)
            ==> t.workspaces[k].panes.contains(x)
}

proof fn lemma_reflow(t: TwmView)
    requires
        pads_kept(t),
    ensures
        pads_kept(reflowed(t)),
{
    law_reflow_only_moves(t);
    let u = reflowed(t);
    assert(u.pads == t.pads && u.workspaces == t.workspaces);
    assert forall|i: int| 0 <= i < u.pads.len() implies ((#[trigger] u.pads[i]).pane_id matches Some(
        id,
    ) ==> u.panes.contains_key(id)) by {
        if let Some(id) = t.pads[i].pane_id {
            assert(t.panes.contains_key(id));
            assert(u.panes.dom().contains(id) <==> t.panes.dom().contains(id));
        }
    }
}

/// What changes no scratchpad and takes panes at most away keeps them in order.
proof fn lemma_fewer(t: TwmView, u: TwmView)
    requires
        pads_kept(t),
        u.pads == t.pads,
        keeps_panes(t, u),
        loses_panes(t, u),
        forall|k: int| 0 <= k < u.workspaces.len() ==> focus_in(#[trigger] u.workspaces[k]),
    ensures
        pads_kept(u),
{
    assert forall|i: int, k: int|
        #![trigger u.pads[i], u.workspaces[k]]
        0 <= i < u.pads.len() && 0 <= k < u.workspaces.len() && !u.pads[i].visible implies !has_pad(
        u.workspaces[k],
        u.pads[i],
    ) by {
        assert(!has_pad(t.workspaces[k], t.pads[i]));
    }
    assert forall|i: int| 0 <= i < u.pads.len() implies ((#[trigger] u.pads[i]).pane_id matches Some(
        id,
    ) ==> u.panes.contains_key(id)) by {
        assert(t.pads[i] == u.pads[i]);
    }
}

proof fn lemma_last_is_in(s: Seq<PaneId>)
    ensures
        last_of(s) matches Some(l) ==> s.contains(l),
{
    if s.len() > 0 {
        assert(s[s.len() - 1] == s.last());
    }
}

proof fn lemma_pushed(s: Seq<PaneId>, id: PaneId, x: PaneId)
    ensures
        s.push(id).contains(x) <==> s.contains(x) || x == id,
{
    if s.push(id).contains(x) {
        let k = choose|k: int| 0 <= k < s.push(id).len() && s.push(id)[k] == x;
        if k < s.len() {
            assert(s[k] == x);
        }
    }
    if s.contains(x) {
        let k = choose|k: int| 0 <= k < s.len() && s[k] == x;
        assert(s.push(id)[k] == x);
    }
    assert(s.push(id)[s.len() as int] == id);
}

proof fn lemma_left(w: WsView, id: PaneId)
    requires
        focus_in(w),
    ensures
        focus_in(w.left_by(id)),
        !w.left_by(id).panes.contains(id),
        forall|x: PaneId| #[trigger] w.left_by(id).panes.contains(x) ==> w.panes.contains(x),
{
    lemma_without(w.panes, id);
    lemma_last_is_in(without(w.panes, id));
    assert forall|x: PaneId| #[trigger] w.left_by(id).panes.contains(x) implies w.panes.contains(
        x,
    ) by {
        assert(x != id);
    }
    if let Some(f) = w.focused {
        if f != id {
            assert(without(w.panes, id).contains(f));
        }
    }
}

proof fn lemma_nearest(
    panes: Map<PaneId, PaneView>,
    ids: Seq<PaneId>,
    n: int,
    from: PaneId,
    dx: int,
    dy: int,
)
    requires
        n <= ids.len(),
    ensures
        nearest(panes, ids, n, from, dx, dy) matches Some(id) ==> ids.contains(id),
    decreases n,
{
    if n > 0 {
        lemma_nearest(panes, ids, n - 1, from, dx, dy);
        assert(ids.contains(ids[n - 1]));
    }
}

proof fn lemma_focus(t: TwmView, dx: int, dy: int)
    requires
        t.wf(),
        pads_kept(t),
    ensures
        pads_kept(focus_moved(t, dx, dy)),
{
    let w = t.ws();
    if let Some(f) = w.focused {
        lemma_nearest(t.panes, w.panes, w.panes.len() as int, f, dx, dy);
    }
    lemma_fewer(t, focus_moved(t, dx, dy));
}

/// A workspace whose panes are the same ones, in another order.
proof fn lemma_swap(t: TwmView, forward: bool)
    requires
        t.wf(),
        pads_kept(t),
    ensures
        pads_kept(t.with_ws(t.ws().swapped(forward))),
{
    let w = t.ws();
    let v = w.swapped(forward);
    let u = t.with_ws(v);
    assert forall|x: PaneId| #[trigger] v.panes.contains(x) <==> w.panes.contains(x) by {
        let n = w.panes.len() as int;
        if let Some(cur) = w.focus_at() {
            lemma_first_index(w.panes, w.focused->0);
            if n >= 2 {
                let other = if forward {
                    (cur + 1) % n
                } else {
                    (cur + n - 1) % n
                };
                assert(0 <= other < n) by (nonlinear_arith)
                    requires
                        n >= 2,
                        other == (cur + 1) % n || other == (cur + n - 1) % n,
                ;
                assert(v.panes.len() == n);
                assert(v.panes[cur] == w.panes[other]);
                assert(v.panes[other] == w.panes[cur]);
                if v.panes.contains(x) {
                    let k = choose|k: int| 0 <= k < n && v.panes[k] == x;
                    if k != cur && k != other {
                        assert(w.panes[k] == x);
                    }
                }
                if w.panes.contains(x) {
                    let k = choose|k: int| 0 <= k < n && w.panes[k] == x;
                    if k != cur && k != other {
                        assert(v.panes[k] == x);
                    }
                }
            }
        }
    }
    assert(focus_in(w));
    lemma_fewer(t, u);
}

proof fn lemma_forgotten(t: TwmView, gone: Set<PaneId>)
    requires
        pads_kept(t),
    ensures
        pads_kept(forgotten(t, gone)),
{
    let u = forgotten(t, gone);
    assert forall|k: int| 0 <= k < u.workspaces.len() implies focus_in(
        #[trigger] u.workspaces[k],
    ) by {
        let w = t.workspaces[k];
        assert(u.workspaces[k] == ws_left(w, gone));
        lemma_last_is_in(without_all(w.panes, gone));
        assert(focus_in(w));
        if let Some(f) = w.focused {
            lemma_without_all(w.panes, gone, f);
        }
    }
    assert forall|i: int, k: int|
        #![trigger u.pads[i], u.workspaces[k]]
        0 <= i < u.pads.len() && 0 <= k < u.workspaces.len() && !u.pads[i].visible implies !has_pad(
        u.workspaces[k],
        u.pads[i],
    ) by {
        if let Some(id) = u.pads[i].pane_id {
            lemma_without_all(t.workspaces[k].panes, gone, id);
            assert(!has_pad(t.workspaces[k], t.pads[i]));
        }
    }
    assert forall|i: int, j: int|
        #![trigger u.pads[i], u.pads[j]]
        0 <= i < u.pads.len() && 0 <= j < u.pads.len() && i != j && u.pads[i].pane_id is Some implies
        u.pads[i].pane_id != u.pads[j].pane_id by {
        assert(t.pads[i].pane_id != t.pads[j].pane_id);
    }
    assert forall|i: int| 0 <= i < u.pads.len() implies ((#[trigger] u.pads[i]).pane_id matches Some(
        id,
    ) ==> u.panes.contains_key(id)) by {
        if let Some(id) = u.pads[i].pane_id {
            assert(t.pads[i].pane_id == Some(id));
            assert(t.panes.contains_key(id));
        }
    }
}

proof fn lemma_opened(t: TwmView, content: ContentView)
    requires
        t.wf(),
        pads_kept(t),
        !t.panes.contains_key(t.next_id),
    ensures
        pads_kept(opened(t, content)),
{
    let id = t.next_id;
    let w = t.ws();
    let v = WsView { panes: w.panes.push(id), focused: Some(id), ..w };
    let u = TwmView {
        panes: t.panes.insert(id, fresh_pane(id, content)),
        next_id: next_of(id),
        ..t.with_ws(v)
    };
    lemma_pushed(w.panes, id, id);
    assert forall|i: int, k: int|
        #![trigger u.pads[i], u.workspaces[k]]
        0 <= i < u.pads.len() && 0 <= k < u.workspaces.len() && !u.pads[i].visible implies !has_pad(
        u.workspaces[k],
        u.pads[i],
    ) by {
        assert(!has_pad(t.workspaces[k], t.pads[i]));
        if let Some(x) = t.pads[i].pane_id {
            assert(t.panes.contains_key(x));
            lemma_pushed(w.panes, id, x);
        }
    }
    assert(pads_kept(u));
    lemma_reflow(u);
}

pub proof fn lemma_pad_named(pads: Seq<PadView>, name: Seq<char>)
    ensures
        0 <= pad_named(pads, name) <= pads.len(),
        pad_named(pads, name) < pads.len() ==> pads[pad_named(pads, name)].name == name,
        forall|k: int| 0 <= k < pad_named(pads, name) ==> (#[trigger] pads[k]).name != name,
    decreases pads.len(),
{
    if pads.len() > 0 && pads[0].name != name {
        lemma_pad_named(pads.skip(1), name);
        assert forall|k: int| 0 <= k < pad_named(pads, name) implies (
        #[trigger] pads[k]).name != name by {
            if k > 0 {
                assert(pads.skip(1)[k - 1] == pads[k]);
            }
        }
    }
}

pub proof fn lemma_pad_for(pads: Seq<PadView>, app_id: Seq<char>)
    ensures
        0 <= pad_for(pads, app_id) <= pads.len(),
        pad_for(pads, app_id) < pads.len() ==> pads[pad_for(pads, app_id)].pane_id is None
            && pads[pad_for(pads, app_id)].app_id == app_id,
        forall|k: int|
            0 <= k < pad_for(pads, app_id) ==> (#[trigger] pads[k]).app_id != app_id
                || pads[k].pane_id is Some,
    decreases pads.len(),
{
    if pads.len() > 0 && !(pads[0].app_id == app_id && pads[0].pane_id is None) {
        lemma_pad_for(pads.skip(1), app_id);
        assert forall|k: int| 0 <= k < pad_for(pads, app_id) implies (#[trigger] pads[k]).app_id
            != app_id || pads[k].pane_id is Some by {
            if k > 0 {
                assert(pads.skip(1)[k - 1] == pads[k]);
            }
        }
    }
}

proof fn lemma_hide(t: TwmView, i: int, id: PaneId)
    requires
        pads_kept(t),
        0 <= i < t.pads.len(),
        t.pads[i].pane_id == Some(id),
    ensures
        pads_kept(pad_hidden(t, i, id)),
{
    let u = pad_hidden(t, i, id);
    assert forall|k: int| 0 <= k < u.workspaces.len() implies focus_in(
        #[trigger] u.workspaces[k],
    ) by {
        lemma_left(t.workspaces[k], id);
    }
    assert forall|j: int, k: int|
        #![trigger u.pads[j], u.workspaces[k]]
        0 <= j < u.pads.len() && 0 <= k < u.workspaces.len() && !u.pads[j].visible implies !has_pad(
        u.workspaces[k],
        u.pads[j],
    ) by {
        lemma_left(t.workspaces[k], id);
        if j != i {
            assert(!has_pad(t.workspaces[k], t.pads[j]));
        }
    }
    lemma_same_ids(t, u);
}

/// The part of the order that concerns the panes of scratchpads alone.
proof fn lemma_same_ids(t: TwmView, u: TwmView)
    requires
        pads_kept(t),
        u.pads.len() == t.pads.len(),
        forall|i: int| 0 <= i < t.pads.len() ==> (#[trigger] u.pads[i]).pane_id == t.pads[i].pane_id,
        keeps_panes(t, u),
    ensures
        forall|i: int, j: int|
            #![trigger u.pads[i], u.pads[j]]
            0 <= i < u.pads.len() && 0 <= j < u.pads.len() && i != j && u.pads[i].pane_id is Some
                ==> u.pads[i].pane_id != u.pads[j].pane_id,
        forall|i: int|
            0 <= i < u.pads.len() ==> ((#[trigger] u.pads[i]).pane_id matches Some(id)
                ==> u.panes.contains_key(id)),
{
    assert forall|i: int, j: int|
        #![trigger u.pads[i], u.pads[j]]
        0 <= i < u.pads.len() && 0 <= j < u.pads.len() && i != j && u.pads[i].pane_id is Some implies
        u.pads[i].pane_id != u.pads[j].pane_id by {
        assert(t.pads[i].pane_id != t.pads[j].pane_id);
    }
    assert forall|i: int| 0 <= i < u.pads.len() implies ((#[trigger] u.pads[i]).pane_id matches Some(
        id,
    ) ==> u.panes.contains_key(id)) by {
        assert(u.pads[i].pane_id == t.pads[i].pane_id);
    }
}

proof fn lemma_show(t: TwmView, i: int, id: PaneId)
    requires
        t.wf(),
        pads_kept(t),
        0 <= i < t.pads.len(),
        t.pads[i].pane_id == Some(id),
        !t.pads[i].visible,
    ensures
        pads_kept(pad_shown(t, i, id)),
{
    let u = pad_shown(t, i, id);
    assert forall|k: int| 0 <= k < t.workspaces.len() implies (#[trigger] u.workspaces[k]).panes
        == (if k == t.active {
        t.workspaces[k].panes.push(id)
    } else {
        t.workspaces[k].panes
    }) by {
        assert(!has_pad(t.workspaces[k], t.pads[i]));
        lemma_without(t.workspaces[k].panes, id);
    }
    assert forall|k: int| 0 <= k < u.workspaces.len() implies focus_in(
        #[trigger] u.workspaces[k],
    ) by {
        assert(focus_in(t.workspaces[k]));
        lemma_pushed(t.workspaces[k].panes, id, id);
    }
    assert forall|j: int, k: int|
        #![trigger u.pads[j], u.workspaces[k]]
        0 <= j < u.pads.len() && 0 <= k < u.workspaces.len() && !u.pads[j].visible implies !has_pad(
        u.workspaces[k],
        u.pads[j],
    ) by {
        assert(j != i);
        assert(!has_pad(t.workspaces[k], t.pads[j]));
        if let Some(x) = t.pads[j].pane_id {
            assert(t.pads[j].pane_id != t.pads[i].pane_id);
            lemma_pushed(t.workspaces[k].panes, id, x);
        }
    }
    lemma_same_ids(t, u);
}

proof fn lemma_toggle(t: TwmView, name: Seq<char>)
    requires
        t.wf(),
        pads_kept(t),
    ensures
        pads_kept(pad_toggled(t, name)),
{
    lemma_pad_named(t.pads, name);
    let i = pad_named(t.pads, name);
    if i < t.pads.len() {
        if let Some(id) = t.pads[i].pane_id {
            if t.pads[i].visible {
                lemma_hide(t, i, id);
                lemma_reflow(pad_hidden(t, i, id));
            } else {
                lemma_show(t, i, id);
                lemma_reflow(pad_shown(t, i, id));
            }
        }
    }
}

proof fn lemma_swept(w: WsView, pads: Seq<PadView>, n: int)
    requires
        focus_in(w),
        0 <= n <= pads.len(),
    ensures
        focus_in(pads_swept(w, pads, n)),
        forall|x: PaneId| #[trigger]
            pads_swept(w, pads, n).panes.contains(x) ==> w.panes.contains(x),
        forall|i: int|
            0 <= i < n && (#[trigger] pads[i]).visible ==> !has_pad(pads_swept(w, pads, n), pads[i]),
    decreases n,
{
    if n > 0 {
        lemma_swept(w, pads, n - 1);
        let before = pads_swept(w, pads, n - 1);
        if let Some(id) = pads[n - 1].pane_id {
            lemma_left(before, id);
        }
        let after = pads_swept(w, pads, n);
        assert forall|i: int| 0 <= i < n && (#[trigger] pads[i]).visible implies !has_pad(
            after,
            pads[i],
        ) by {
            if i < n - 1 {
                assert(!has_pad(before, pads[i]));
            }
        }
    }
}

proof fn lemma_hide_all(t: TwmView)
    requires
        pads_kept(t),
    ensures
        pads_kept(pads_hidden(t)),
{
    let u = pads_hidden(t);
    let n = t.pads.len() as int;
    assert forall|k: int| 0 <= k < u.workspaces.len() implies focus_in(
        #[trigger] u.workspaces[k],
    ) by {
        assert(focus_in(t.workspaces[k]));
        lemma_swept(t.workspaces[k], t.pads, n);
    }
    assert forall|j: int, k: int|
        #![trigger u.pads[j], u.workspaces[k]]
        0 <= j < u.pads.len() && 0 <= k < u.workspaces.len() && !u.pads[j].visible implies !has_pad(
        u.workspaces[k],
        u.pads[j],
    ) by {
        assert(focus_in(t.workspaces[k]));
        lemma_swept(t.workspaces[k], t.pads, n);
        if !t.pads[j].visible {
            assert(!has_pad(t.workspaces[k], t.pads[j]));
        }
    }
    lemma_same_ids(t, u);
}

proof fn lemma_sent(t: TwmView, n: u8)
    requires
        t.wf(),
        pads_kept(t),
    ensures
        pads_kept(sent_to(t, n)),
{
    let u = sent_to(t, n);
    let at = ws_place(n, t.workspaces.len() as int);
    if let Some(id) = t.ws().focused {
        if at != t.active {
            let rest = without(t.ws().panes, id);
            assert(focus_in(t.ws()));
            lemma_without(t.ws().panes, id);
            lemma_last_is_in(rest);
            lemma_pushed(t.workspaces[at].panes, id, id);
            assert forall|k: int| 0 <= k < u.workspaces.len() implies focus_in(
                #[trigger] u.workspaces[k],
            ) by {
                assert(focus_in(t.workspaces[k]));
            }
            assert forall|j: int, k: int|
                #![trigger u.pads[j], u.workspaces[k]]
                0 <= j < u.pads.len() && 0 <= k < u.workspaces.len()
                    && !u.pads[j].visible implies !has_pad(u.workspaces[k], u.pads[j]) by {
                assert(!has_pad(t.workspaces[k], t.pads[j]));
                assert(!has_pad(t.workspaces[t.active], t.pads[j]));
                if let Some(x) = t.pads[j].pane_id {
                    assert(x != id);
                    lemma_pushed(t.workspaces[at].panes, id, x);
                }
            }
            lemma_same_ids(t, u);
        }
    }
}

/// While a scratchpad is hidden, its pane is in no workspace: an action that
/// finds the scratchpads in order leaves them so, whatever it is. A pane that it
/// opens has to be a new one.
pub proof fn law_hidden_pads_are_nowhere(t: TwmView, a: TwmAction)
    requires
        t.wf(),
        pads_kept(t),
        !t.panes.contains_key(t.next_id),
    ensures
        pads_kept(dispatched(t, a)),
        hidden_nowhere(dispatched(t, a)),
{
    match a {
        TwmAction::FocusLeft => {
            lemma_focus(t, -1, 0);
            lemma_reflow(focus_moved(t, -1, 0));
        },
        TwmAction::FocusRight => {
            lemma_focus(t, 1, 0);
            lemma_reflow(focus_moved(t, 1, 0));
        },
        TwmAction::FocusUp => {
            lemma_focus(t, 0, -1);
            lemma_reflow(focus_moved(t, 0, -1));
        },
        TwmAction::FocusDown => {
            lemma_focus(t, 0, 1);
            lemma_reflow(focus_moved(t, 0, 1));
        },
        TwmAction::MoveLeft | TwmAction::MoveUp => {
            lemma_swap(t, false);
            lemma_reflow(t.with_ws(t.ws().swapped(false)));
        },
        TwmAction::MoveRight | TwmAction::MoveDown => {
            lemma_swap(t, true);
            lemma_reflow(t.with_ws(t.ws().swapped(true)));
        },
        TwmAction::Close => {
            if let Some(id) = t.ws().focused {
                lemma_forgotten(t, set![id]);
                lemma_reflow(forgotten(t, set![id]));
            }
        },
        TwmAction::CloseAppId(app_id) => {
            let gone = panes_of(t, app_id@);
            lemma_forgotten(t, gone);
            lemma_reflow(forgotten(t, gone));
            assert(pads_kept(all_closed(t, gone)));
        },
        TwmAction::ToggleScratchpad(name) => {
            lemma_toggle(t, name@);
        },
        TwmAction::Workspace(n) => {
            lemma_hide_all(t);
            let u = TwmView { active: ws_place(n, t.workspaces.len() as int), ..pads_hidden(t) };
            lemma_fewer(pads_hidden(t), u);
            lemma_reflow(u);
        },
        TwmAction::MoveToWorkspace(n) => {
            lemma_sent(t, n);
            lemma_reflow(sent_to(t, n));
        },
        TwmAction::OpenShell(app_id) => {
            lemma_opened(t, shell_content(app_id@));
        },
        TwmAction::AssignEmbedded(app_id) => {
            lemma_embedded(t, app_id@);
        },
        _ => {
            lemma_stays(t, a);
        },
    }
}

proof fn lemma_embedded(t: TwmView, app_id: Seq<char>)
    requires
        t.wf(),
        pads_kept(t),
        !t.panes.contains_key(t.next_id),
    ensures
        pads_kept(embedded(t, app_id).0),
{
    if focus_is_empty(t) {
        let f = t.ws().focused->0;
        let p = PaneView {
            content: ContentView::Embedded { app_id },
            ..t.panes[f]
        };
        let u = TwmView { panes: t.panes.insert(f, p), ..t };
        lemma_fewer(t, u);
        lemma_reflow(u);
    } else {
        lemma_opened(t, ContentView::Embedded { app_id });
    }
}

/// The actions that leave every workspace the panes that it has.
proof fn lemma_stays(t: TwmView, a: TwmAction)
    requires
        t.wf(),
        pads_kept(t),
        a is Fullscreen || a is ToggleFloat || a is FloatMove || a is FloatResize || a is NextLayout
            || a is PrevLayout || a is GrowMain || a is ShrinkMain || a is NextWorkspace
            || a is PrevWorkspace || a is ToggleBar || a is SetTitle,
    ensures
        pads_kept(dispatched(t, a)),
{
    let u = dispatched(t, a);
    assert(focus_in(t.ws()));
    law_reflow_only_moves(fullscreen_toggled(t));
    law_reflow_only_moves(t.with_ws(WsView { layout: t.ws().layout.spec_next(), ..t.ws() }));
    law_reflow_only_moves(t.with_ws(WsView { layout: t.ws().layout.spec_prev(), ..t.ws() }));
    law_reflow_only_moves(t.with_ws(grown(t.ws())));
    law_reflow_only_moves(t.with_ws(shrunk(t.ws())));
    law_reflow_only_moves(bar_toggled(t));
    let n = t.workspaces.len() as int;
    law_reflow_only_moves(TwmView { active: (t.active + 1) % n, ..t });
    law_reflow_only_moves(TwmView { active: (t.active + n - 1) % n, ..t });
    if let Some(id) = t.ws().focused {
        if t.panes.contains_key(id) {
            let p = t.panes[id];
            let at = if p.float_rect.empty() {
                p.rect
            } else {
                p.float_rect
            };
            let q = if p.floating {
                PaneView { floating: false, ..p }
            } else {
                PaneView { floating: true, rect: at, float_rect: at, ..p }
            };
            law_reflow_only_moves(TwmView { panes: t.panes.insert(id, q), ..t });
        }
    }
    assert(u.pads == t.pads);
    assert forall|x: PaneId| #[trigger] t.panes.contains_key(x) implies u.panes.contains_key(x) by {
        assert(t.panes.dom().contains(x));
        assert(u.panes.dom().contains(x));
    }
    assert(u.workspaces.len() == t.workspaces.len());
    assert forall|k: int| 0 <= k < t.workspaces.len() implies (#[trigger] u.workspaces[k]).panes
        == t.workspaces[k].panes && u.workspaces[k].focused == t.workspaces[k].focused by {}
    assert forall|k: int| 0 <= k < u.workspaces.len() implies focus_in(
        #[trigger] u.workspaces[k],
    ) by {
        assert(focus_in(t.workspaces[k]));
    }
    lemma_fewer(t, u);
}

/// A pane that a scratchpad takes is in no workspace until it is shown. It has to
/// be the pane of no other.
pub proof fn law_assigned_pad_is_nowhere(t: TwmView, id: PaneId, app_id: Seq<char>)
    requires
        t.wf(),
        pads_kept(t),
        t.panes.contains_key(id),
        forall|i: int| 0 <= i < t.pads.len() ==> (#[trigger] t.pads[i]).pane_id != Some(id),
    ensures
        pads_kept(pad_assigned(t, id, app_id).0),
{
    lemma_pad_for(t.pads, app_id);
    let i = pad_for(t.pads, app_id);
    if i < t.pads.len() {
        let u = pad_assigned(t, id, app_id).0;
        assert forall|k: int| 0 <= k < u.workspaces.len() implies focus_in(
            #[trigger] u.workspaces[k],
        ) by {
            assert(focus_in(t.workspaces[k]));
            lemma_left(t.workspaces[k], id);
        }
        assert forall|j: int, k: int|
            #![trigger u.pads[j], u.workspaces[k]]
            0 <= j < u.pads.len() && 0 <= k < u.workspaces.len()
                && !u.pads[j].visible implies !has_pad(u.workspaces[k], u.pads[j]) by {
            assert(focus_in(t.workspaces[k]));
            lemma_left(t.workspaces[k], id);
            if j != i {
                assert(!has_pad(t.workspaces[k], t.pads[j]));
            }
        }
        assert forall|j: int, k: int|
            #![trigger u.pads[j], u.pads[k]]
            0 <= j < u.pads.len() && 0 <= k < u.pads.len() && j != k
                && u.pads[j].pane_id is Some implies u.pads[j].pane_id != u.pads[k].pane_id by {
            assert(t.pads[j].pane_id != Some(id) && t.pads[k].pane_id != Some(id));
        }
        assert forall|j: int| 0 <= j < u.pads.len() implies ((
        #[trigger] u.pads[j]).pane_id matches Some(x) ==> u.panes.contains_key(x)) by {
            if j != i {
                assert(t.pads[j] == u.pads[j]);
            }
        }
    }
}

/// Scratchpads are in order before there are any, and a new one leaves them so.
pub proof fn law_new_pads_are_in_order(t: TwmView, p: PadView)
    requires
        forall|k: int|
            0 <= k < t.workspaces.len() ==> focus_in(#[trigger] t.workspaces[k]),
        p.pane_id is None,
    ensures
        t.pads.len() == 0 ==> pads_kept(t),
        pads_kept(t) ==> pads_kept(registered(t, p)),
{
    let u = registered(t, p);
    if pads_kept(t) && u != t {
        assert forall|i: int, k: int|
            #![trigger u.pads[i], u.workspaces[k]]
            0 <= i < u.pads.len() && 0 <= k < u.workspaces.len()
                && !u.pads[i].visible implies !has_pad(u.workspaces[k], u.pads[i]) by {
            if i < t.pads.len() {
                assert(!has_pad(t.workspaces[k], t.pads[i]));
            }
        }
        assert forall|i: int, j: int|
            #![trigger u.pads[i], u.pads[j]]
            0 <= i < u.pads.len() && 0 <= j < u.pads.len() && i != j
                && u.pads[i].pane_id is Some implies u.pads[i].pane_id != u.pads[j].pane_id by {
            if j < t.pads.len() {
                assert(t.pads[i].pane_id != t.pads[j].pane_id);
            }
        }
        assert forall|i: int| 0 <= i < u.pads.len() implies ((
        #[trigger] u.pads[i]).pane_id matches Some(id) ==> u.panes.contains_key(id)) by {
            if i < t.pads.len() {
                assert(t.pads[i] == u.pads[i]);
            }
        }
    }
}

} // verus!
