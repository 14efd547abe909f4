//! What keys and pointer buttons do.

use vstd::prelude::*;

use crate::config::keys::{
    bind_view, binds_view, ActionView, BindView, ComboView, KeyAction, KeyCombo, Modifiers,
};
use crate::shell::{SurfaceId, Surfaces, SurfacesView};
use crate::text::{chars_of, lowercase, same, strings_view, to_lowercase};
use crate::twm::anim::{
    all_morphed, diff_and_morph, AnimSet, AnimView, WsDir, WsTransition,
};
use crate::twm::pane::{PaneId, PaneView, WsView};
use crate::twm::rect::{cap, capped, minus, Rect};
use crate::twm::state::{
    dispatched, float_moved, float_resized, rects_seen, TwmAction, TwmState, TwmView,
};

verus! {

broadcast use vstd::std_specs::hash::group_hash_axioms;

// ── Keys ─────────────────────────────────────────────────────────────────────

/// The keysym of the first virtual terminal; those of the others follow.
pub const VT_FIRST: u32 = 0x1008FE01;

pub const PRINT: u32 = 0xff61;

/// A key press: the modifiers that are held, the keysym with and the name of
/// the keysym without them.
pub struct KeyPress<'a> {
    pub mods: Modifiers,
    pub sym: u32,
    pub name: &'a str,
}

/// The action of the first binding to `combo`.
pub open spec fn bound_action(binds: Seq<BindView>, combo: ComboView) -> Option<ActionView>
    decreases binds.len(),
{
    if binds.len() == 0 {
        None
    } else if binds[0].combo == combo {
        Some(binds[0].action)
    } else {
        bound_action(binds.skip(1), combo)
    }
}

/// The combination that a key press makes; a key without a symbol makes none.
pub open spec fn combo_pressed(mods: Modifiers, name: Seq<char>) -> Option<ComboView> {
    let key = lowercase(name);
    if key == "nosymbol"@ || key.len() == 0 {
        None
    } else {
        Some(ComboView { mods, key })
    }
}

/// The action of a key press, if it is not for the client: switching virtual
/// terminals and the emergency exit go before the bindings.
pub open spec fn key_action(binds: Seq<BindView>, mods: Modifiers, sym: u32, name: Seq<char>) -> Option<
    ActionView,
> {
    if mods.ctrl && mods.alt && VT_FIRST <= sym <= VT_FIRST + 11 {
        Some(ActionView::SwitchVt((sym - VT_FIRST + 1) as i32))
    } else if mods.logo && mods.shift && sym == PRINT {
        Some(ActionView::EmergencyQuit)
    } else {
        match combo_pressed(mods, name) {
            Some(c) => bound_action(binds, c),
            None => None,
        }
    }
}

pub fn keysym_to_combo(mods: Modifiers, name: &str) -> (r: Option<KeyCombo>)
    ensures
        match r {
            Some(c) => combo_pressed(mods, name@) == Some(c@),
            None => combo_pressed(mods, name@) is None,
        },
{
    let c = chars_of(name);
    let key = to_lowercase(c.as_slice());
    if same(key.as_str(), "nosymbol") || key.as_str().is_empty() {
        None
    } else {
        Some(KeyCombo { mods, key })
    }
}

/// What a key event does: an action, or nothing where the key is for the
/// client, as all releases are.
pub fn handle_key(binds: &Vec<(KeyCombo, KeyAction)>, pressed: bool, press: KeyPress<'_>) -> (r:
    Option<KeyAction>)
    ensures
        match r {
            Some(a) => pressed && key_action(
                binds_view(binds@),
                press.mods,
                press.sym,
                press.name@,
            ) == Some(a@),
            None => !pressed || key_action(
                binds_view(binds@),
                press.mods,
                press.sym,
                press.name@,
            ) is None,
        },
{
    if !pressed {
        return None;
    }
    let mods = press.mods;
    if mods.ctrl && mods.alt && press.sym >= VT_FIRST && press.sym <= VT_FIRST + 11 {
        return Some(KeyAction::SwitchVt((press.sym - VT_FIRST + 1) as i32));
    }
    if mods.logo && mods.shift && press.sym == PRINT {
        return Some(KeyAction::EmergencyQuit);
    }
    let combo = match keysym_to_combo(mods, press.name) {
        Some(c) => c,
        None => {
            return None;
        },
    };
    let ghost all = binds_view(binds@);
    let mut i: usize = 0;
    assert(all.skip(0) =~= all);
    while i < binds.len()
        invariant
            i <= binds@.len(),
            all == binds_view(binds@),
            pressed,
            key_action(all, press.mods, press.sym, press.name@) == bound_action(all, combo@),
            bound_action(all, combo@) == bound_action(all.skip(i as int), combo@),
        decreases binds@.len() - i,
    {
        assert(all.skip(i as int)[0] == bind_view(binds@[i as int]));
        assert(all.skip(i as int).skip(1) =~= all.skip(i + 1));
        if binds[i].0.mods == combo.mods && same(binds[i].0.key.as_str(), combo.key.as_str()) {
            return Some(binds[i].1.clone());
        }
        i += 1;
    }
    None
}

// ── Actions ──────────────────────────────────────────────────────────────────

/// What is left to do for an action outside the window manager.
#[derive(Debug)]
pub enum Effect {
    /// Nothing: the action has no meaning.
    Nothing,
    /// The focus may have changed.
    SyncFocus,
    Quit,
    Reload,
    SwitchVt(i32),
    Spawn(String, Vec<String>),
}

/// What an [`Effect`] holds.
pub enum EffectView {
    Nothing,
    SyncFocus,
    Quit,
    Reload,
    SwitchVt(i32),
    Spawn(Seq<char>, Seq<Seq<char>>),
}

impl View for Effect {
    type V = EffectView;

    open spec fn view(&self) -> EffectView {
        match *self {
            Effect::Nothing => EffectView::Nothing,
            Effect::SyncFocus => EffectView::SyncFocus,
            Effect::Quit => EffectView::Quit,
            Effect::Reload => EffectView::Reload,
            Effect::SwitchVt(n) => EffectView::SwitchVt(n),
            Effect::Spawn(c, a) => EffectView::Spawn(c@, strings_view(a@)),
        }
    }
}

/// The action of the window manager that a key action stands for.
pub open spec fn twm_action(a: ActionView) -> Option<TwmAction> {
    match a {
        ActionView::FocusLeft => Some(TwmAction::FocusLeft),
        ActionView::FocusRight => Some(TwmAction::FocusRight),
        ActionView::FocusUp => Some(TwmAction::FocusUp),
        ActionView::FocusDown => Some(TwmAction::FocusDown),
        ActionView::MoveLeft => Some(TwmAction::MoveLeft),
        ActionView::MoveRight => Some(TwmAction::MoveRight),
        ActionView::MoveUp => Some(TwmAction::MoveUp),
        ActionView::MoveDown => Some(TwmAction::MoveDown),
        ActionView::Close => Some(TwmAction::Close),
        ActionView::Fullscreen => Some(TwmAction::Fullscreen),
        ActionView::NextLayout => Some(TwmAction::NextLayout),
        ActionView::PrevLayout => Some(TwmAction::PrevLayout),
        ActionView::GrowMain => Some(TwmAction::GrowMain),
        ActionView::ShrinkMain => Some(TwmAction::ShrinkMain),
        ActionView::MoveToWorkspace(n) => Some(TwmAction::MoveToWorkspace(n)),
        ActionView::ToggleBar => Some(TwmAction::ToggleBar),
        _ => None,
    }
}

pub fn key_to_twm(action: &KeyAction) -> (r: Option<TwmAction>)
    ensures
        r == twm_action(action@),
{
    match action {
        KeyAction::FocusLeft => Some(TwmAction::FocusLeft),
        KeyAction::FocusRight => Some(TwmAction::FocusRight),
        KeyAction::FocusUp => Some(TwmAction::FocusUp),
        KeyAction::FocusDown => Some(TwmAction::FocusDown),
        KeyAction::MoveLeft => Some(TwmAction::MoveLeft),
        KeyAction::MoveRight => Some(TwmAction::MoveRight),
        KeyAction::MoveUp => Some(TwmAction::MoveUp),
        KeyAction::MoveDown => Some(TwmAction::MoveDown),
        KeyAction::Close => Some(TwmAction::Close),
        KeyAction::Fullscreen => Some(TwmAction::Fullscreen),
        KeyAction::NextLayout => Some(TwmAction::NextLayout),
        KeyAction::PrevLayout => Some(TwmAction::PrevLayout),
        KeyAction::GrowMain => Some(TwmAction::GrowMain),
        KeyAction::ShrinkMain => Some(TwmAction::ShrinkMain),
        KeyAction::MoveToWorkspace(n) => Some(TwmAction::MoveToWorkspace(*n)),
        KeyAction::ToggleBar => Some(TwmAction::ToggleBar),
        _ => None,
    }
}

/// Whether an action of the window manager may move tiled panes about.
pub open spec fn changes_layout(a: TwmAction) -> bool {
    a is NextLayout || a is PrevLayout || a is GrowMain || a is ShrinkMain || a is ToggleFloat
}

/// The animations once the workspaces slide past each other.
pub open spec fn sliding(a: AnimView, dir: WsDir, now_ms: u64) -> AnimView {
    AnimView {
        ws_transition: Some(
            WsTransition { dir, start_ms: now_ms, duration_ms: 250, screen_w: a.screen_w },
        ),
        ..a
    }
}

/// The animations once the view has gone from workspace `from` to workspace
/// `to`; `way` is the direction where it is not that of the numbers.
pub open spec fn slid(a: AnimView, from: int, to: int, way: Option<WsDir>, now_ms: u64) -> AnimView {
    if from == to {
        a
    } else {
        match way {
            Some(dir) => sliding(a, dir, now_ms),
            None => if to > from {
                sliding(a, WsDir::Right, now_ms)
            } else {
                sliding(a, WsDir::Left, now_ms)
            },
        }
    }
}

/// The state, the animations and what is left to do after a key action.
pub open spec fn acted(t: TwmView, a: AnimView, k: ActionView, now_ms: u64) -> (
    TwmView,
    AnimView,
    EffectView,
) {
    match k {
        ActionView::EmergencyQuit => (t, a, EffectView::Quit),
        ActionView::Quit => (t, a, EffectView::Quit),
        ActionView::SwitchVt(n) => (t, a, EffectView::SwitchVt(n)),
        ActionView::Exec(c, args) => (t, a, EffectView::Spawn(c, args)),
        ActionView::Reload => (t, a, EffectView::Reload),
        ActionView::Workspace(n) => {
            let u = dispatched(t, TwmAction::Workspace(n));
            (u, slid(a, t.active, u.active, None, now_ms), EffectView::SyncFocus)
        },
        ActionView::NextWorkspace => {
            let u = dispatched(t, TwmAction::NextWorkspace);
            (u, slid(a, t.active, u.active, Some(WsDir::Right), now_ms), EffectView::SyncFocus)
        },
        ActionView::PrevWorkspace => {
            let u = dispatched(t, TwmAction::PrevWorkspace);
            (u, slid(a, t.active, u.active, Some(WsDir::Left), now_ms), EffectView::SyncFocus)
        },
        _ => match twm_action(k) {
            Some(x) => {
                let u = dispatched(t, x);
                let before = rects_seen(t.panes, t.ws().panes);
                let after = rects_seen(u.panes, u.ws().panes);
                let b = if changes_layout(x) && before.len() > 0 {
                    all_morphed(a, before, after, after.len() as int, now_ms)
                } else {
                    a
                };
                (u, b, EffectView::SyncFocus)
            },
            None => (t, a, EffectView::Nothing),
        },
    }
}

fn switch_workspace(
    twm: &mut TwmState,
    anim: &mut AnimSet,
    action: TwmAction,
    way: Option<WsDir>,
    now_ms: u64,
)
    requires
        old(twm)@.wf(),
    ensures
        final(twm)@ == dispatched(old(twm)@, action),
        final(twm)@.wf(),
        final(anim)@ == slid(
            old(anim)@,
            old(twm)@.active,
            final(twm)@.active,
            way,
            now_ms,
        ),
{
    let before: usize = twm.active_ws;
    twm.dispatch(action);
    let after: usize = twm.active_ws;
    if after != before {
        let dir = match way {
            Some(dir) => dir,
            None => if after > before {
                WsDir::Right
            } else {
                WsDir::Left
            },
        };
        anim.workspace_transition(dir, now_ms);
    }
}

/// Performs a key action on the window manager and its animations; says what
/// is left to do.
pub fn dispatch_action(twm: &mut TwmState, anim: &mut AnimSet, action: KeyAction, now_ms: u64) -> (r:
    Effect)
    requires
        old(twm)@.wf(),
    ensures
        (final(twm)@, final(anim)@, r@) == acted(old(twm)@, old(anim)@, action@, now_ms),
        final(twm)@.wf(),
{
    match action {
        KeyAction::EmergencyQuit => Effect::Quit,
        KeyAction::Quit => Effect::Quit,
        KeyAction::SwitchVt(n) => Effect::SwitchVt(n),
        KeyAction::Exec(command, args) => Effect::Spawn(command, args),
        KeyAction::Reload => Effect::Reload,
        KeyAction::Workspace(n) => {
            switch_workspace(twm, anim, TwmAction::Workspace(n), None, now_ms);
            Effect::SyncFocus
        },
        KeyAction::NextWorkspace => {
            switch_workspace(twm, anim, TwmAction::NextWorkspace, Some(WsDir::Right), now_ms);
            Effect::SyncFocus
        },
        KeyAction::PrevWorkspace => {
            switch_workspace(twm, anim, TwmAction::PrevWorkspace, Some(WsDir::Left), now_ms);
            Effect::SyncFocus
        },
        other => match key_to_twm(&other) {
            Some(a) => {
                let moves = matches!(
                    &a,
                    TwmAction::NextLayout | TwmAction::PrevLayout | TwmAction::GrowMain
                        | TwmAction::ShrinkMain | TwmAction::ToggleFloat
                );
                let before = twm.pane_rects_snapshot();
                twm.dispatch(a);
                if moves && before.len() > 0 {
                    let after = twm.pane_rects_snapshot();
                    diff_and_morph(anim, before.as_slice(), after.as_slice(), now_ms);
                }
                Effect::SyncFocus
            },
            None => Effect::Nothing,
        },
    }
}

// ── Pointer ──────────────────────────────────────────────────────────────────

/// What is inside the border of a pane.
pub open spec fn inner_of(rect: Rect, border: u32) -> Rect {
    if border == 0 {
        rect
    } else {
        Rect {
            x: cap(rect.x + border),
            y: cap(rect.y + border),
            w: minus(rect.w as int, 2 * border) as u32,
            h: minus(rect.h as int, 2 * border) as u32,
        }
    }
}

/// What is inside the border of a pane, which has none when it fills the
/// screen.
pub open spec fn pane_inner(p: PaneView, border: u32) -> Rect {
    if p.fullscreen {
        p.rect
    } else {
        inner_of(p.rect, border)
    }
}

pub fn inner_rect(rect: Rect, border: u32) -> (r: Rect)
    ensures
        r == inner_of(rect, border),
{
    if border == 0 {
        return rect;
    }
    let twice: u64 = 2 * border as u64;
    Rect::new(
        capped(rect.x as u128 + border as u128),
        capped(rect.y as u128 + border as u128),
        if rect.w as u64 >= twice {
            (rect.w as u64 - twice) as u32
        } else {
            0
        },
        if rect.h as u64 >= twice {
            (rect.h as u64 - twice) as u32
        } else {
            0
        },
    )
}

/// The last of the first `n` panes of `ids` whose inside holds the point; of
/// those that float, where `floats`.
pub open spec fn topmost(
    panes: Map<PaneId, PaneView>,
    ids: Seq<PaneId>,
    n: int,
    border: u32,
    floats: bool,
    px: int,
    py: int,
) -> Option<PaneId>
    decreases n,
{
    if n <= 0 {
        None
    } else {
        let id = ids[n - 1];
        if panes.contains_key(id) && (floats ==> panes[id].floating) && pane_inner(
            panes[id],
            border,
        ).has(px, py) {
            Some(id)
        } else {
            topmost(panes, ids, n - 1, border, floats, px, py)
        }
    }
}

/// The pane at a point of the active workspace. Panes that float are on top of
/// those that are tiled.
pub open spec fn pane_under(t: TwmView, px: int, py: int) -> Option<PaneId> {
    let n = t.ws().panes.len() as int;
    match topmost(t.panes, t.ws().panes, n, t.border_w, true, px, py) {
        Some(id) => Some(id),
        None => topmost(t.panes, t.ws().panes, n, t.border_w, false, px, py),
    }
}

fn holds_point(r: Rect, px: u32, py: u32) -> (b: bool)
    ensures
        b == r.has(px as int, py as int),
{
    px >= r.x && py >= r.y && (px as u64) < r.x as u64 + r.w as u64 && (py as u64) < r.y as u64
        + r.h as u64
}

fn topmost_at(twm: &TwmState, floats: bool, px: u32, py: u32) -> (r: Option<PaneId>)
    requires
        twm@.wf(),
    ensures
        r == topmost(
            twm@.panes,
            twm@.ws().panes,
            twm@.ws().panes.len() as int,
            twm@.border_w,
            floats,
            px as int,
            py as int,
        ),
{
    let ghost t = twm@;
    let a: usize = twm.active_ws;
    assert(t.ws() == twm.workspaces@[a as int]@);
    let mut n: usize = twm.workspaces[a].panes.len();
    while n > 0
        invariant
            t == twm@,
            t.wf(),
            a == twm.active_ws,
            t.ws() == twm.workspaces@[a as int]@,
            n <= t.ws().panes.len(),
            topmost(
                t.panes,
                t.ws().panes,
                t.ws().panes.len() as int,
                t.border_w,
                floats,
                px as int,
                py as int,
            ) == topmost(
                t.panes,
                t.ws().panes,
                n as int,
                t.border_w,
                floats,
                px as int,
                py as int,
            ),
        decreases n,
    {
        let id: PaneId = twm.workspaces[a].panes[n - 1];
        if let Some(p) = twm.panes.get(&id) {
            assert(t.panes[id] == p@);
            let inner = if p.fullscreen {
                p.rect
            } else {
                inner_rect(p.rect, twm.border_w)
            };
            if (!floats || p.floating) && holds_point(inner, px, py) {
                return Some(id);
            }
        }
        n -= 1;
    }
    None
}

/// The pane at a point; one that floats goes first, then the last one that was
/// added.
pub fn pane_at(twm: &TwmState, px: u32, py: u32) -> (r: Option<PaneId>)
    requires
        twm@.wf(),
    ensures
        r == pane_under(twm@, px as int, py as int),
{
    match topmost_at(twm, true, px, py) {
        Some(id) => Some(id),
        None => topmost_at(twm, false, px, py),
    }
}

/// The first of `windows` that is shown in the pane `id`.
pub open spec fn first_shown(panes: Map<SurfaceId, PaneId>, windows: Seq<SurfaceId>, id: PaneId) -> Option<
    SurfaceId,
>
    decreases windows.len(),
{
    if windows.len() == 0 {
        None
    } else if panes.contains_key(windows[0]) && panes[windows[0]] == id {
        Some(windows[0])
    } else {
        first_shown(panes, windows.skip(1), id)
    }
}

/// The window at a point, and what is inside its frame.
pub open spec fn window_at(
    t: TwmView,
    s: SurfacesView,
    windows: Seq<SurfaceId>,
    px: int,
    py: int,
) -> Option<(SurfaceId, Rect)> {
    match pane_under(t, px, py) {
        Some(id) => match first_shown(s.panes, windows, id) {
            Some(w) => Some((w, pane_inner(t.panes[id], t.border_w))),
            None => None,
        },
        None => None,
    }
}

/// The window at a point, and what is inside its frame; `windows` are those that
/// there are.
pub fn window_under(
    twm: &TwmState,
    surfaces: &Surfaces,
    windows: &Vec<SurfaceId>,
    px: u32,
    py: u32,
) -> (r: Option<(SurfaceId, Rect)>)
    requires
        twm@.wf(),
    ensures
        r == window_at(twm@, surfaces@, windows@, px as int, py as int),
{
    let ghost t = twm@;
    let id: PaneId = match pane_at(twm, px, py) {
        Some(id) => id,
        None => {
            return None;
        },
    };
    let ghost all = windows@;
    let mut i: usize = 0;
    assert(all.skip(0) =~= all);
    while i < windows.len()
        invariant
            all == windows@,
            i <= all.len(),
            t == twm@,
            t.wf(),
            pane_under(t, px as int, py as int) == Some(id),
            first_shown(surfaces@.panes, all.skip(i as int), id) == first_shown(
                surfaces@.panes,
                all,
                id,
            ),
        decreases all.len() - i,
    {
        let w: SurfaceId = windows[i];
        assert(all.skip(i as int)[0] == w);
        assert(all.skip(i as int).skip(1) =~= all.skip(i + 1));
        if let Some(shown) = surfaces.panes.get(&w) {
            if *shown == id {
                proof {
                    lemma_pane_under(t, px as int, py as int);
                }
                return match twm.panes.get(&id) {
                    Some(p) => {
                        assert(t.panes[id] == p@);
                        let inner = if p.fullscreen {
                            p.rect
                        } else {
                            inner_rect(p.rect, twm.border_w)
                        };
                        Some((w, inner))
                    },
                    None => None,
                };
            }
        }
        i += 1;
    }
    assert(all.skip(i as int).len() == 0);
    None
}

/// What the pointer drags.
#[derive(Debug, Clone, Copy, PartialEq, Eq, Structural)]
pub enum DragState {
    Idle,
    Moving(PaneId),
    Resizing(PaneId),
}

pub const BTN_LEFT: u32 = 272;

pub const BTN_RIGHT: u32 = 273;

/// The state after a button press at a point, what is dragged then, and the
/// pane whose surface gets the keyboard. A press focuses the pane under it;
/// with the logo key held, the left and right buttons start to move and to
/// resize a floating pane.
pub open spec fn pressed(
    t: TwmView,
    drag: DragState,
    button: u32,
    logo: bool,
    px: int,
    py: int,
) -> (TwmView, DragState, Option<PaneId>) {
    match pane_under(t, px, py) {
        Some(id) => {
            let u = t.with_ws(WsView { focused: Some(id), ..t.ws() });
            if logo && button == BTN_LEFT && t.panes[id].floating {
                (u, DragState::Moving(id), None)
            } else if logo && button == BTN_RIGHT && t.panes[id].floating {
                (u, DragState::Resizing(id), None)
            } else {
                (u, drag, Some(id))
            }
        },
        None => (t, drag, None),
    }
}

proof fn lemma_topmost(
    panes: Map<PaneId, PaneView>,
    ids: Seq<PaneId>,
    n: int,
    border: u32,
    floats: bool,
    px: int,
    py: int,
)
    requires
        0 <= n <= ids.len(),
    ensures
        match topmost(panes, ids, n, border, floats, px, py) {
            Some(id) => {
                &&& ids.contains(id) && panes.contains_key(id)
                &&& floats ==> panes[id].floating
                &&& pane_inner(panes[id], border).has(px, py)
            },
            None => forall|k: int|
                0 <= k < n && panes.contains_key(#[trigger] ids[k]) && (floats
                    ==> panes[ids[k]].floating) ==> !pane_inner(panes[ids[k]], border).has(px, py),
        },
    decreases n,
{
    if n > 0 {
        lemma_topmost(panes, ids, n - 1, border, floats, px, py);
        assert(ids.contains(ids[n - 1]));
    }
}

proof fn lemma_pane_under(t: TwmView, px: int, py: int)
    ensures
        pane_under(t, px, py) matches Some(id) ==> t.ws().panes.contains(id)
            && t.panes.contains_key(id) && pane_inner(t.panes[id], t.border_w).has(px, py),
{
    let n = t.ws().panes.len() as int;
    lemma_topmost(t.panes, t.ws().panes, n, t.border_w, true, px, py);
    lemma_topmost(t.panes, t.ws().panes, n, t.border_w, false, px, py);
}

/// Handles a button event: a release ends what is dragged. Returns the pane
/// whose surface gets the keyboard.
pub fn handle_pointer_button(
    twm: &mut TwmState,
    drag: &mut DragState,
    press: bool,
    button: u32,
    logo: bool,
    px: u32,
    py: u32,
) -> (r: Option<PaneId>)
    requires
        old(twm)@.wf(),
    ensures
        press ==> (final(twm)@, *final(drag), r) == pressed(
            old(twm)@,
            *old(drag),
            button,
            logo,
            px as int,
            py as int,
        ),
        !press ==> final(twm)@ == old(twm)@ && *final(drag) == DragState::Idle && r is None,
        final(twm)@.wf(),
{
    if !press {
        *drag = DragState::Idle;
        return None;
    }
    let ghost t = twm@;
    match pane_at(twm, px, py) {
        None => None,
        Some(id) => {
            proof {
                lemma_pane_under(t, px as int, py as int);
            }
            twm.set_focused(id);
            let floating = match twm.panes.get(&id) {
                Some(p) => {
                    assert(twm@.panes[id] == p@);
                    p.floating
                },
                None => false,
            };
            if logo && button == BTN_LEFT && floating {
                *drag = DragState::Moving(id);
                return None;
            }
            if logo && button == BTN_RIGHT && floating {
                *drag = DragState::Resizing(id);
                return None;
            }
            Some(id)
        },
    }
}

/// The state once the pointer has moved by (`dx`, `dy`) while it drags.
pub open spec fn dragged(t: TwmView, drag: DragState, dx: i32, dy: i32) -> TwmView {
    match drag {
        DragState::Moving(id) => float_moved(t, id, dx, dy),
        DragState::Resizing(id) => float_resized(t, id, dx, dy),
        DragState::Idle => t,
    }
}

/// Handles a motion of the pointer; whether it drags a pane, so that no
/// surface sees the motion.
pub fn handle_pointer_motion(twm: &mut TwmState, drag: DragState, dx: i32, dy: i32) -> (r: bool)
    requires
        old(twm)@.wf(),
    ensures
        final(twm)@ == dragged(old(twm)@, drag, dx, dy),
        r == (drag != DragState::Idle),
        final(twm)@.wf(),
{
    match drag {
        DragState::Moving(id) => {
            twm.dispatch(TwmAction::FloatMove(id, dx, dy));
            true
        },
        DragState::Resizing(id) => {
            twm.dispatch(TwmAction::FloatResize(id, dx, dy));
            true
        },
        DragState::Idle => false,
    }
}

// ── Laws ─────────────────────────────────────────────────────────────────────

/// Virtual terminals can always be switched and the emergency exit always be
/// taken, whatever is bound.
pub proof fn law_escapes_cannot_be_bound(binds: Seq<BindView>, name: Seq<char>, sym: u32, mods: Modifiers)
    requires
        (mods.ctrl && mods.alt && VT_FIRST <= sym <= VT_FIRST + 11) || (mods.logo && mods.shift && sym
            == PRINT),
    ensures
        key_action(binds, mods, sym, name) matches Some(a) && (a is SwitchVt || a is EmergencyQuit),
{
}

/// A click focuses the pane that it hits, which is on the active workspace.
pub proof fn law_click_focuses(
    t: TwmView,
    drag: DragState,
    button: u32,
    logo: bool,
    px: int,
    py: int,
    id: PaneId,
)
    requires
        t.wf(),
        pane_under(t, px, py) == Some(id),
    ensures
        pressed(t, drag, button, logo, px, py).0.ws().focused == Some(id),
        t.ws().panes.contains(id),
        pane_inner(t.panes[id], t.border_w).has(px, py),
{
    lemma_pane_under(t, px, py);
}

/// Where a pane floats, the pointer finds one that floats, whatever is below.
pub proof fn law_floating_is_on_top(t: TwmView, px: int, py: int, id: PaneId)
    requires
        t.ws().panes.contains(id),
        t.panes.contains_key(id),
        t.panes[id].floating,
        pane_inner(t.panes[id], t.border_w).has(px, py),
    ensures
        pane_under(t, px, py) matches Some(top) && t.panes[top].floating && pane_inner(
            t.panes[top],
            t.border_w,
        ).has(px, py),
{
    let ids = t.ws().panes;
    lemma_topmost(t.panes, ids, ids.len() as int, t.border_w, true, px, py);
    let k = choose|k: int| 0 <= k < ids.len() && ids[k] == id;
    assert(ids[k] == id);
}

} // verus!
