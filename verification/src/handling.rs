//! What holds of keys and of the pointer.

use vstd::prelude::*;

use crate::config::keys::{ActionView, BindView, ComboView, Modifiers};
use crate::input::{
    acted, bound_action, dragged, first_shown, inner_of, key_action, pane_inner, pane_under,
    pressed, topmost, window_at, DragState, EffectView,
};
use crate::shell::{SurfaceId, SurfacesView};
use crate::text::lowercase;
use crate::twm::actions::{
    law_float_moves, law_float_resizes, law_focus_goes_there, law_workspace_by_number,
    law_workspaces_go_round, lies_toward, middle_fits,
};
use crate::twm::anim::{AnimView, WsDir, WsTransition};
use crate::twm::pane::{PaneId, PaneView, WsView};
use crate::twm::rect::Rect;
use crate::twm::state::{dispatched, TwmAction, TwmView};

verus! {

// ── Keys ─────────────────────────────────────────────────────────────────────

proof fn lemma_bound(binds: Seq<BindView>, combo: ComboView, i: int)
    requires
        0 <= i <= binds.len(),
        forall|k: int| 0 <= k < i ==> (#[trigger] binds[k]).combo != combo,
        i < binds.len() ==> binds[i].combo == combo,
    ensures
        bound_action(binds, combo) == (if i < binds.len() {
            Some(binds[i].action)
        } else {
            None
        }),
    decreases binds.len(),
{
    if binds.len() > 0 && i > 0 {
        assert(binds[0].combo != combo);
        assert forall|k: int| 0 <= k < i - 1 implies (#[trigger] binds.skip(1)[k]).combo
            != combo by {
            assert(binds.skip(1)[k] == binds[k + 1]);
        }
        lemma_bound(binds.skip(1), combo, i - 1);
    }
}

/// A key acts as the first binding says that asks for it with just the modifiers that
/// are held; without such a binding it does not act.
pub proof fn law_first_binding_acts(
    binds: Seq<BindView>,
    mods: Modifiers,
    sym: u32,
    name: Seq<char>,
    i: int,
)
    requires
        !(mods.ctrl && mods.alt),
        !(mods.logo && mods.shift && sym == 0xff61),
        lowercase(name).len() > 0,
        lowercase(name) != "nosymbol"@,
        0 <= i <= binds.len(),
        forall|k: int|
            0 <= k < i ==> (#[trigger] binds[k]).combo.mods != mods || binds[k].combo.key != lowercase(
                name,
            ),
        i < binds.len() ==> binds[i].combo.mods == mods && binds[i].combo.key == lowercase(name),
    ensures
        key_action(binds, mods, sym, name) == (if i < binds.len() {
            Some(binds[i].action)
        } else {
            None
        }),
{
    let c = ComboView { mods, key: lowercase(name) };
    if i < binds.len() {
        assert(binds[i].combo == c);
    }
    lemma_bound(binds, c, i);
}

/// The keys of the virtual terminals switch to them with control and alt, each to its
/// own; print leaves at once with super and shift.
pub proof fn law_escapes(binds: Seq<BindView>, mods: Modifiers, name: Seq<char>, n: int)
    requires
        1 <= n <= 12,
    ensures
        mods.ctrl && mods.alt ==> key_action(binds, mods, (0x1008_FE00 + n) as u32, name) == Some(
            ActionView::SwitchVt(n as i32),
        ),
        mods.logo && mods.shift ==> key_action(binds, mods, 0xff61, name) == Some(
            ActionView::EmergencyQuit,
        ),
{
}

// ── Actions ──────────────────────────────────────────────────────────────────

/// Whether the middle of `to` lies from that of `from` where a key looks.
pub open spec fn lies_where(k: ActionView, from: Rect, to: Rect) -> bool {
    match k {
        ActionView::FocusLeft => to.x + to.w / 2 < from.x + from.w / 2,
        ActionView::FocusRight => to.x + to.w / 2 > from.x + from.w / 2,
        ActionView::FocusUp => to.y + to.h / 2 < from.y + from.h / 2,
        ActionView::FocusDown => to.y + to.h / 2 > from.y + from.h / 2,
        _ => false,
    }
}

/// A key that moves the focus moves it to a pane in its direction, where there is one.
pub proof fn law_keys_move_the_focus(t: TwmView, a: AnimView, k: ActionView, now_ms: u64, f: PaneId)
    requires
        t.wf(),
        k is FocusLeft || k is FocusRight || k is FocusUp || k is FocusDown,
        t.ws().focused == Some(f),
        t.panes.contains_key(f),
        middle_fits(t.panes[f].rect),
        forall|i: int|
            0 <= i < t.ws().panes.len() ==> (t.panes.contains_key(#[trigger] t.ws().panes[i])
                ==> middle_fits(t.panes[t.ws().panes[i]].rect)),
    ensures
        ({
            let (u, b, e) = acted(t, a, k, now_ms);
            let ids = t.ws().panes;
            &&& u.ws().focused != Some(f) ==> (u.ws().focused matches Some(g)
                && t.panes.contains_key(g) && lies_where(k, t.panes[f].rect, t.panes[g].rect))
            &&& forall|i: int|
                #![trigger ids[i]]
                0 <= i < ids.len() && t.panes.contains_key(ids[i]) && lies_where(
                    k,
                    t.panes[f].rect,
                    t.panes[ids[i]].rect,
                ) ==> u.ws().focused != Some(f)
            &&& b == a
            &&& e is SyncFocus
        }),
{
    let x = match k {
        ActionView::FocusLeft => TwmAction::FocusLeft,
        ActionView::FocusRight => TwmAction::FocusRight,
        ActionView::FocusUp => TwmAction::FocusUp,
        _ => TwmAction::FocusDown,
    };
    law_focus_goes_there(t, x, f);
    assert forall|r: Rect, s: Rect| #[trigger]
        lies_where(k, r, s) == lies_toward(x, r, s) by {}
    assert(acted(t, a, k, now_ms).0 == dispatched(t, x));
}

/// A key that asks for what only the compositor can do changes no window: quitting,
/// reading the configuration again, another terminal, or a program.
pub proof fn law_keys_for_the_compositor(t: TwmView, a: AnimView, k: ActionView, now_ms: u64)
    ensures
        ({
            let (u, b, e) = acted(t, a, k, now_ms);
            &&& e is Quit <==> k is Quit || k is EmergencyQuit
            &&& e is Reload <==> k is Reload
            &&& e matches EffectView::SwitchVt(n) ==> k == ActionView::SwitchVt(n)
            &&& k is SwitchVt ==> e is SwitchVt
            &&& e matches EffectView::Spawn(c, args) ==> k == ActionView::Exec(c, args)
            &&& k is Exec ==> e is Spawn
            &&& e is Nothing <==> k is Custom
            &&& !(e is SyncFocus) ==> u == t && b == a
        }),
{
}

/// A key that is for the window manager does there what it says.
pub proof fn law_keys_for_windows(t: TwmView, a: AnimView, k: ActionView, x: TwmAction, now_ms: u64)
    requires
        match x {
            TwmAction::MoveLeft => k is MoveLeft,
            TwmAction::MoveRight => k is MoveRight,
            TwmAction::MoveUp => k is MoveUp,
            TwmAction::MoveDown => k is MoveDown,
            TwmAction::Close => k is Close,
            TwmAction::Fullscreen => k is Fullscreen,
            TwmAction::NextLayout => k is NextLayout,
            TwmAction::PrevLayout => k is PrevLayout,
            TwmAction::GrowMain => k is GrowMain,
            TwmAction::ShrinkMain => k is ShrinkMain,
            TwmAction::Workspace(n) => k == ActionView::Workspace(n),
            TwmAction::MoveToWorkspace(n) => k == ActionView::MoveToWorkspace(n),
            TwmAction::NextWorkspace => k is NextWorkspace,
            TwmAction::PrevWorkspace => k is PrevWorkspace,
            TwmAction::ToggleBar => k is ToggleBar,
            _ => false,
        },
    ensures
        acted(t, a, k, now_ms).0 == dispatched(t, x),
        acted(t, a, k, now_ms).2 is SyncFocus,
{
}

/// Whether the workspaces slide in a direction from now on.
pub open spec fn slides(a: AnimView, b: AnimView, dir: WsDir, now_ms: u64) -> bool {
    b == (AnimView {
        ws_transition: Some(
            WsTransition { dir, start_ms: now_ms, duration_ms: 250, screen_w: a.screen_w },
        ),
        ..a
    })
}

/// The view slides the way that it goes: to the right to a workspace with a higher
/// number and to the next one, to the left to a lower one and to the previous one. It
/// does not slide where it stays.
pub proof fn law_view_slides_that_way(t: TwmView, a: AnimView, n: u8, now_ms: u64)
    requires
        t.wf(),
    ensures
        ({
            let (u, b, e) = acted(t, a, ActionView::Workspace(n), now_ms);
            &&& n > t.active + 1 && t.workspaces.len() > t.active + 1 ==> slides(
                a,
                b,
                WsDir::Right,
                now_ms,
            )
            &&& n < t.active + 1 && t.active > 0 ==> slides(a, b, WsDir::Left, now_ms)
            &&& n == t.active + 1 ==> b == a
        }),
        t.workspaces.len() > 1 ==> slides(
            a,
            acted(t, a, ActionView::NextWorkspace, now_ms).1,
            WsDir::Right,
            now_ms,
        ),
        t.workspaces.len() > 1 ==> slides(
            a,
            acted(t, a, ActionView::PrevWorkspace, now_ms).1,
            WsDir::Left,
            now_ms,
        ),
{
    law_workspace_by_number(t, n);
    law_workspaces_go_round(t);
}

// ── Pointer ──────────────────────────────────────────────────────────────────

/// What is inside the border of a pane: the pane without a margin on each side.
pub proof fn law_inside_the_border(rect: Rect, border: u32)
    requires
        rect.x + border <= u32::MAX,
        rect.y + border <= u32::MAX,
        2 * border <= rect.w,
        2 * border <= rect.h,
    ensures
        ({
            let r = inner_of(rect, border);
            &&& r.x - rect.x == border && r.y - rect.y == border
            &&& (rect.x + rect.w) - (r.x + r.w) == border
            &&& (rect.y + rect.h) - (r.y + r.h) == border
        }),
{
}

/// Whether the inside of a pane holds a point; one that fills the screen has no border.
pub open spec fn at_point(p: PaneView, border: int, px: int, py: int) -> bool {
    let b = if p.fullscreen {
        0
    } else {
        border
    };
    &&& p.rect.x + b <= px < p.rect.x + p.rect.w - b
    &&& p.rect.y + b <= py < p.rect.y + p.rect.h - b
}

proof fn lemma_at_point(p: PaneView, border: u32, px: int, py: int)
    requires
        p.rect.x + border <= u32::MAX,
        p.rect.y + border <= u32::MAX,
    ensures
        pane_inner(p, border).has(px, py) == at_point(p, border as int, px, py),
{
}

proof fn lemma_last(
    panes: Map<PaneId, PaneView>,
    ids: Seq<PaneId>,
    n: int,
    border: u32,
    floats: bool,
    px: int,
    py: int,
) -> (j: int)
    requires
        0 <= n <= ids.len(),
    ensures
        match topmost(panes, ids, n, border, floats, px, py) {
            Some(id) => 0 <= j < n && ids[j] == id && panes.contains_key(id) && (floats
                ==> panes[id].floating) && pane_inner(panes[id], border).has(px, py),
            None => j == -1,
        },
        forall|k: int|
            j < k < n && panes.contains_key(#[trigger] ids[k]) && (floats
                ==> panes[ids[k]].floating) ==> !pane_inner(panes[ids[k]], border).has(px, py),
    decreases n,
{
    if n <= 0 {
        -1
    } else {
        let id = ids[n - 1];
        if panes.contains_key(id) && (floats ==> panes[id].floating) && pane_inner(
            panes[id],
            border,
        ).has(px, py) {
            n - 1
        } else {
            lemma_last(panes, ids, n - 1, border, floats, px, py)
        }
    }
}

/// The pane at a point is the last one on the workspace whose inside is there, among
/// those that float where one of these is there. None is found only where none is.
pub proof fn law_topmost_pane_is_found(t: TwmView, px: int, py: int) -> (j: int)
    requires
        forall|k: int|
            0 <= k < t.ws().panes.len() && t.panes.contains_key(#[trigger] t.ws().panes[k])
                ==> t.panes[t.ws().panes[k]].rect.x + t.border_w <= u32::MAX
                && t.panes[t.ws().panes[k]].rect.y + t.border_w <= u32::MAX,
    ensures
        ({
            let ids = t.ws().panes;
            match pane_under(t, px, py) {
                Some(id) => {
                    &&& 0 <= j < ids.len() && ids[j] == id && t.panes.contains_key(id)
                    &&& at_point(t.panes[id], t.border_w as int, px, py)
                    &&& forall|k: int|
                        #![trigger ids[k]]
                        j < k < ids.len() && t.panes.contains_key(ids[k]) && at_point(
                            t.panes[ids[k]],
                            t.border_w as int,
                            px,
                            py,
                        ) ==> t.panes[id].floating && !t.panes[ids[k]].floating
                    &&& forall|k: int|
                        #![trigger ids[k]]
                        0 <= k < ids.len() && t.panes.contains_key(ids[k]) && at_point(
                            t.panes[ids[k]],
                            t.border_w as int,
                            px,
                            py,
                        ) && t.panes[ids[k]].floating ==> t.panes[id].floating
                },
                None => forall|k: int|
                    #![trigger ids[k]]
                    0 <= k < ids.len() && t.panes.contains_key(ids[k]) ==> !at_point(
                        t.panes[ids[k]],
                        t.border_w as int,
                        px,
                        py,
                    ),
            }
        }),
{
    let ids = t.ws().panes;
    let n = ids.len() as int;
    let a = lemma_last(t.panes, ids, n, t.border_w, true, px, py);
    let b = lemma_last(t.panes, ids, n, t.border_w, false, px, py);
    assert forall|k: int|
        #![trigger ids[k]]
        0 <= k < ids.len() && t.panes.contains_key(ids[k]) implies pane_inner(
        t.panes[ids[k]],
        t.border_w,
    ).has(px, py) == at_point(t.panes[ids[k]], t.border_w as int, px, py) by {
        lemma_at_point(t.panes[ids[k]], t.border_w, px, py);
    }
    if a >= 0 {
        a
    } else {
        b
    }
}

/// A press focuses the pane under it and nothing else changes. With the logo key held,
/// the left button moves a floating pane and the right one resizes it; the surface of
/// the pane gets the keyboard in all other cases. A press beside all panes does nothing.
pub proof fn law_press(
    t: TwmView,
    drag: DragState,
    button: u32,
    logo: bool,
    px: int,
    py: int,
)
    requires
        t.wf(),
    ensures
        ({
            let (u, d, k) = pressed(t, drag, button, logo, px, py);
            match pane_under(t, px, py) {
                Some(id) => {
                    let grabs = logo && t.panes[id].floating && (button == 272 || button == 273);
                    &&& u.ws().focused == Some(id)
                    &&& u.ws() == (WsView { focused: Some(id), ..t.ws() })
                    &&& u == (TwmView { workspaces: u.workspaces, ..t })
                    &&& u.workspaces == t.workspaces.update(t.active, u.ws())
                    &&& grabs && button == 272 ==> d == DragState::Moving(id)
                    &&& grabs && button == 273 ==> d == DragState::Resizing(id)
                    &&& grabs ==> k is None
                    &&& !grabs ==> d == drag && k == Some(id)
                },
                None => u == t && d == drag && k is None,
            }
        }),
{
}

/// While a floating pane is dragged, it moves or grows as the pointer moves, as far as
/// the screen reaches; the other panes stay.
pub proof fn law_drag(t: TwmView, id: PaneId, dx: i32, dy: i32)
    requires
        t.panes.contains_key(id),
        t.panes[id].floating,
        t.panes[id].rect.x + t.panes[id].rect.w <= t.screen_w,
        t.panes[id].rect.y + t.panes[id].rect.h <= t.screen_h,
        t.screen_w < 0x8000_0000,
        t.screen_h < 0x8000_0000,
    ensures
        ({
            let r = t.panes[id].rect;
            let m = dragged(t, DragState::Moving(id), dx, dy).panes[id].rect;
            let s = dragged(t, DragState::Resizing(id), dx, dy).panes[id].rect;
            &&& 0 <= r.x + dx <= t.screen_w - r.w ==> m.x == r.x + dx
            &&& 0 <= r.y + dy <= t.screen_h - r.h ==> m.y == r.y + dy
            &&& m.w == r.w && m.h == r.h
            &&& 80 <= r.w + dx <= t.screen_w ==> s.w == r.w + dx
            &&& 60 <= r.h + dy <= t.screen_h ==> s.h == r.h + dy
            &&& s.x == r.x && s.y == r.y
        }),
        forall|o: PaneId|
            o != id && #[trigger] t.panes.contains_key(o) ==> dragged(
                t,
                DragState::Moving(id),
                dx,
                dy,
            ).panes[o] == t.panes[o] && dragged(t, DragState::Resizing(id), dx, dy).panes[o]
                == t.panes[o],
        dragged(t, DragState::Idle, dx, dy) == t,
{
    law_float_moves(t, id, dx, dy);
    if t.screen_w >= 80 && t.screen_h >= 60 {
        law_float_resizes(t, id, dx, dy);
    } else {
        assert(t.panes[id].rect.w as i32 == t.panes[id].rect.w);
        assert(t.panes[id].rect.h as i32 == t.panes[id].rect.h);
    }
}

proof fn lemma_first_shown(
    panes: Map<SurfaceId, PaneId>,
    windows: Seq<SurfaceId>,
    id: PaneId,
    i: int,
)
    requires
        0 <= i <= windows.len(),
        forall|k: int|
            0 <= k < i ==> !(panes.contains_key(#[trigger] windows[k]) && panes[windows[k]] == id),
        i < windows.len() ==> panes.contains_key(windows[i]) && panes[windows[i]] == id,
    ensures
        first_shown(panes, windows, id) == (if i < windows.len() {
            Some(windows[i])
        } else {
            None
        }),
    decreases windows.len(),
{
    if windows.len() > 0 && i > 0 {
        assert(!(panes.contains_key(windows[0]) && panes[windows[0]] == id));
        assert forall|k: int| 0 <= k < i - 1 implies !(panes.contains_key(
            #[trigger] windows.skip(1)[k],
        ) && panes[windows.skip(1)[k]] == id) by {
            assert(windows.skip(1)[k] == windows[k + 1]);
        }
        lemma_first_shown(panes, windows.skip(1), id, i - 1);
    }
}

/// The window at a point is the first one that the pane there shows.
pub proof fn law_window_of_the_pane(
    t: TwmView,
    s: SurfacesView,
    windows: Seq<SurfaceId>,
    px: int,
    py: int,
    i: int,
)
    requires
        pane_under(t, px, py) is Some,
        0 <= i <= windows.len(),
        forall|k: int|
            0 <= k < i ==> !(s.panes.contains_key(#[trigger] windows[k]) && s.panes[windows[k]]
                == pane_under(t, px, py)->0),
        i < windows.len() ==> s.panes.contains_key(windows[i]) && s.panes[windows[i]] == pane_under(
            t,
            px,
            py,
        )->0,
    ensures
        i < windows.len() ==> (window_at(t, s, windows, px, py) matches Some(w) && w.0
            == windows[i]),
        i == windows.len() ==> window_at(t, s, windows, px, py) is None,
{
    lemma_first_shown(s.panes, windows, pane_under(t, px, py)->0, i);
}

} // verus!
