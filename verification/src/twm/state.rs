//! The state of the window manager and the actions on it.

use vstd::prelude::*;
use std::collections::HashMap;

use crate::config::value::last_of;
use crate::single::{max_of, min_of, round24, share, Ratio, NINE_TENTHS, STEP, TENTH};
use crate::text::same;
use crate::twm::layout::{compute, rects_of};
use crate::twm::pane::{
    fresh_pad, fresh_pane, fresh_ws, new_pane_id, pads_view, panes_view, put_pane, retain_not,
    set_rect, spaces_view, take_pane, with_rect, without, ContentView, PadView, Pane, PaneContent,
    PaneId, PaneView, Scratchpad, Workspace, WsView,
};
use crate::twm::rect::{cap, capped, minus, no_rect, Rect};

verus! {

broadcast use vstd::std_specs::hash::group_hash_axioms;

#[derive(Debug)]
pub enum TwmAction {
    FocusLeft,
    FocusRight,
    FocusUp,
    FocusDown,
    MoveLeft,
    MoveRight,
    MoveUp,
    MoveDown,
    Close,
    Fullscreen,
    ToggleFloat,
    NextLayout,
    PrevLayout,
    GrowMain,
    ShrinkMain,
    Workspace(u8),
    MoveToWorkspace(u8),
    NextWorkspace,
    PrevWorkspace,
    ToggleBar,
    OpenShell(String),
    SetTitle(PaneId, String),
    AssignEmbedded(String),
    CloseAppId(String),
    /// Moves a floating pane.
    FloatMove(PaneId, i32, i32),
    /// Resizes a floating pane.
    FloatResize(PaneId, i32, i32),
    ToggleScratchpad(String),
}

pub struct TwmState {
    pub panes: HashMap<PaneId, Pane>,
    pub workspaces: Vec<Workspace>,
    pub active_ws: usize,
    pub screen_w: u32,
    pub screen_h: u32,
    pub content_rect: Rect,
    pub bar_rect: Rect,
    pub bar_visible: bool,
    pub gap: u32,
    pub border_w: u32,
    pub padding: u32,
    pub workspaces_count: u8,
    pub scratchpads: Vec<Scratchpad>,
    /// The id of the next pane.
    pub next_id: PaneId,
}

// ── Model ────────────────────────────────────────────────────────────────────

/// What a [`TwmState`] holds.
pub struct TwmView {
    pub panes: Map<PaneId, PaneView>,
    pub workspaces: Seq<WsView>,
    pub active: int,
    pub screen_w: u32,
    pub screen_h: u32,
    pub content: Rect,
    pub bar: Rect,
    pub bar_visible: bool,
    pub gap: u32,
    pub border_w: u32,
    pub padding: u32,
    pub count: u8,
    pub pads: Seq<PadView>,
    pub next_id: PaneId,
}

impl View for TwmState {
    type V = TwmView;

    open spec fn view(&self) -> TwmView {
        TwmView {
            panes: panes_view(self.panes@),
            workspaces: spaces_view(self.workspaces@),
            active: self.active_ws as int,
            screen_w: self.screen_w,
            screen_h: self.screen_h,
            content: self.content_rect,
            bar: self.bar_rect,
            bar_visible: self.bar_visible,
            gap: self.gap,
            border_w: self.border_w,
            padding: self.padding,
            count: self.workspaces_count,
            pads: pads_view(self.scratchpads@),
            next_id: self.next_id,
        }
    }
}

impl TwmView {
    /// There is an active workspace, and shares are shares.
    pub open spec fn wf(self) -> bool {
        &&& 0 <= self.active < self.workspaces.len()
        &&& forall|i: int|
            0 <= i < self.workspaces.len() ==> (#[trigger] self.workspaces[i]).main_ratio.wf()
        &&& forall|i: int|
            0 <= i < self.pads.len() ==> (#[trigger] self.pads[i]).width_pct.wf()
                && self.pads[i].height_pct.wf()
    }

    /// The active workspace.
    pub open spec fn ws(self) -> WsView {
        self.workspaces[self.active]
    }

    pub open spec fn with_ws(self, w: WsView) -> TwmView {
        TwmView { workspaces: self.workspaces.update(self.active, w), ..self }
    }

    pub open spec fn screen(self) -> Rect {
        Rect { x: 0, y: 0, w: self.screen_w, h: self.screen_h }
    }
}

/// The areas of a screen: what panes share, without its padding, and the bar.
pub open spec fn split_screen(sw: u32, sh: u32, bar_h: u32, at_bottom: bool, padding: u32) -> (
    Rect,
    Rect,
) {
    let h = min_of(bar_h as int, sh as int);
    let (content, bar) = if bar_h == 0 {
        (Rect { x: 0, y: 0, w: sw, h: sh }, no_rect())
    } else if at_bottom {
        (
            Rect { x: 0, y: 0, w: sw, h: (sh - h) as u32 },
            Rect { x: 0, y: (sh - h) as u32, w: sw, h: h as u32 },
        )
    } else {
        (
            Rect { x: 0, y: h as u32, w: sw, h: (sh - h) as u32 },
            Rect { x: 0, y: 0, w: sw, h: h as u32 },
        )
    };
    (
        Rect {
            x: cap(content.x + padding),
            y: cap(content.y + padding),
            w: minus(content.w as int, 2 * padding) as u32,
            h: minus(content.h as int, 2 * padding) as u32,
        },
        bar,
    )
}

/// The panes among `ids` that the layout places: they exist, do not float and
/// do not fill the screen.
pub open spec fn tiled_ids(panes: Map<PaneId, PaneView>, ids: Seq<PaneId>) -> Seq<PaneId>
    decreases ids.len(),
{
    if ids.len() == 0 {
        Seq::empty()
    } else {
        let before = tiled_ids(panes, ids.drop_last());
        let id = ids.last();
        if panes.contains_key(id) && !panes[id].floating && !panes[id].fullscreen {
            before.push(id)
        } else {
            before
        }
    }
}

/// The panes once the first `n` of `ids` have taken their rectangles.
pub open spec fn laid_out(
    panes: Map<PaneId, PaneView>,
    ids: Seq<PaneId>,
    rects: Seq<Rect>,
    n: int,
) -> Map<PaneId, PaneView>
    decreases n,
{
    if n <= 0 {
        panes
    } else {
        with_rect(laid_out(panes, ids, rects, n - 1), ids[n - 1], rects[n - 1])
    }
}

/// A pane where it belongs: on the whole screen when it fills it, else where
/// it floats when it does.
pub open spec fn settled(p: PaneView, screen: Rect) -> PaneView {
    if p.fullscreen {
        PaneView { rect: screen, ..p }
    } else if p.floating {
        PaneView { rect: p.float_rect, ..p }
    } else {
        p
    }
}

pub open spec fn all_settled(
    panes: Map<PaneId, PaneView>,
    ids: Seq<PaneId>,
    screen: Rect,
) -> Map<PaneId, PaneView> {
    Map::new(
        |id: PaneId| panes.contains_key(id),
        |id: PaneId|
            if ids.contains(id) {
                settled(panes[id], screen)
            } else {
                panes[id]
            },
    )
}

/// The state once the panes of the active workspace are where they belong.
pub open spec fn reflowed(t: TwmView) -> TwmView {
    let w = t.ws();
    let ids = tiled_ids(t.panes, w.panes);
    let rects = rects_of(w.layout, t.content, ids.len(), w.main_ratio, t.gap);
    TwmView {
        panes: all_settled(
            laid_out(t.panes, ids, rects, ids.len() as int),
            w.panes,
            t.screen(),
        ),
        ..t
    }
}

/// The state with the areas of a screen.
pub open spec fn resplit(t: TwmView, bar_h: u32, at_bottom: bool) -> TwmView {
    let (content, bar) = split_screen(t.screen_w, t.screen_h, bar_h, at_bottom, t.padding);
    TwmView { content, bar, ..t }
}

pub open spec fn next_of(id: PaneId) -> PaneId {
    if id == u32::MAX {
        0
    } else {
        (id + 1) as u32
    }
}

/// The state once a pane with `content` has opened on the active workspace.
pub open spec fn opened(t: TwmView, content: ContentView) -> TwmView {
    let id = t.next_id;
    let w = t.ws();
    reflowed(
        TwmView {
            panes: t.panes.insert(id, fresh_pane(id, content)),
            next_id: next_of(id),
            ..t.with_ws(WsView { panes: w.panes.push(id), focused: Some(id), ..w })
        },
    )
}

pub open spec fn shell_content(app_id: Seq<char>) -> ContentView {
    ContentView::Shell { app_id, title: app_id }
}

/// Whether the focused pane is empty.
pub open spec fn focus_is_empty(t: TwmView) -> bool {
    match t.ws().focused {
        Some(f) => t.panes.contains_key(f) && t.panes[f].content is Empty,
        None => false,
    }
}

/// The state once `app_id` is embedded, in the focused pane where that is
/// empty, else in a new one; and the pane.
pub open spec fn embedded(t: TwmView, app_id: Seq<char>) -> (TwmView, PaneId) {
    if focus_is_empty(t) {
        let f = t.ws().focused->0;
        let p = PaneView { content: ContentView::Embedded { app_id }, ..t.panes[f] };
        (reflowed(TwmView { panes: t.panes.insert(f, p), ..t }), f)
    } else {
        (opened(t, ContentView::Embedded { app_id }), t.next_id)
    }
}

/// The state once the shell in the pane `id` has another title.
pub open spec fn retitled(t: TwmView, id: PaneId, title: Seq<char>) -> TwmView {
    if t.panes.contains_key(id) {
        match t.panes[id].content {
            ContentView::Shell { app_id, .. } => TwmView {
                panes: t.panes.insert(
                    id,
                    PaneView { content: ContentView::Shell { app_id, title }, ..t.panes[id] },
                ),
                ..t
            },
            _ => t,
        }
    } else {
        t
    }
}

/// A scratchpad once its pane is one of `gone`.
pub open spec fn pad_left(p: PadView, gone: Set<PaneId>) -> PadView {
    match p.pane_id {
        Some(id) => if gone.contains(id) {
            PadView { pane_id: None, visible: false, ..p }
        } else {
            p
        },
        None => p,
    }
}

/// `s` without the members of `gone`.
pub open spec fn without_all(s: Seq<PaneId>, gone: Set<PaneId>) -> Seq<PaneId>
    decreases s.len(),
{
    if s.len() == 0 {
        Seq::empty()
    } else if gone.contains(s.last()) {
        without_all(s.drop_last(), gone)
    } else {
        without_all(s.drop_last(), gone).push(s.last())
    }
}

/// A workspace once the panes `gone` have left it. The last pane gets a focus
/// that was on one of them.
pub open spec fn ws_left(w: WsView, gone: Set<PaneId>) -> WsView {
    let panes = without_all(w.panes, gone);
    WsView {
        panes,
        focused: match w.focused {
            Some(f) => if gone.contains(f) {
                last_of(panes)
            } else {
                w.focused
            },
            None => None,
        },
        ..w
    }
}

/// The state without the panes `gone`.
pub open spec fn forgotten(t: TwmView, gone: Set<PaneId>) -> TwmView {
    TwmView {
        panes: t.panes.remove_keys(gone),
        workspaces: Seq::new(t.workspaces.len(), |i: int| ws_left(t.workspaces[i], gone)),
        pads: Seq::new(t.pads.len(), |i: int| pad_left(t.pads[i], gone)),
        ..t
    }
}

/// The state once the pane `id` has closed.
pub open spec fn closed(t: TwmView, id: PaneId) -> TwmView {
    reflowed(forgotten(t, set![id]))
}

/// The panes of `app_id`.
pub open spec fn panes_of(t: TwmView, app_id: Seq<char>) -> Set<PaneId> {
    Set::new(|id: PaneId| t.panes.contains_key(id) && t.panes[id].content.app() == app_id)
}

/// The state once all panes of `gone` have closed.
pub open spec fn all_closed(t: TwmView, gone: Set<PaneId>) -> TwmView {
    if gone.is_empty() {
        t
    } else {
        reflowed(forgotten(t, gone))
    }
}

/// The state once all panes of `app_id` have closed.
pub open spec fn app_closed(t: TwmView, app_id: Seq<char>) -> TwmView {
    all_closed(t, panes_of(t, app_id))
}

/// The state with the focused pane floating where it did not, and the other
/// way round. A pane that floats for the first time stays where it is.
pub open spec fn float_toggled(t: TwmView) -> TwmView {
    match t.ws().focused {
        Some(id) => if t.panes.contains_key(id) {
            let p = t.panes[id];
            let at = if p.float_rect.empty() {
                p.rect
            } else {
                p.float_rect
            };
            let q = if p.floating {
                PaneView { floating: false, ..p }
            } else {
                PaneView { floating: true, rect: at, float_rect: at, ..p }
            };
            reflowed(TwmView { panes: t.panes.insert(id, q), ..t })
        } else {
            t
        },
        None => t,
    }
}

/// A coordinate `x` moved by `d`, from zero up to where `len` still fits in
/// `whole`.
pub open spec fn moved_to(x: u32, d: i32, len: u32, whole: u32) -> u32 {
    min_of(max_of((x as i32) + d, 0), minus(whole as int, len as int)) as u32
}

/// A length changed by `d`, at least `least` and at most `whole`.
pub open spec fn resized_to(len: u32, d: i32, least: int, whole: u32) -> u32 {
    min_of(max_of((len as i32) + d, least), whole as int) as u32
}

/// The state once the floating pane `id` has moved.
pub open spec fn float_moved(t: TwmView, id: PaneId, dx: i32, dy: i32) -> TwmView {
    if t.panes.contains_key(id) && t.panes[id].floating {
        let p = t.panes[id];
        let r = Rect {
            x: moved_to(p.rect.x, dx, p.rect.w, t.screen_w),
            y: moved_to(p.rect.y, dy, p.rect.h, t.screen_h),
            ..p.rect
        };
        TwmView { panes: t.panes.insert(id, PaneView { rect: r, float_rect: r, ..p }), ..t }
    } else {
        t
    }
}

/// The state once the floating pane `id` has another size.
pub open spec fn float_resized(t: TwmView, id: PaneId, dw: i32, dh: i32) -> TwmView {
    if t.panes.contains_key(id) && t.panes[id].floating {
        let p = t.panes[id];
        let r = Rect {
            w: resized_to(p.rect.w, dw, 80, t.screen_w),
            h: resized_to(p.rect.h, dh, 60, t.screen_h),
            ..p.rect
        };
        TwmView { panes: t.panes.insert(id, PaneView { rect: r, float_rect: r, ..p }), ..t }
    } else {
        t
    }
}

// ── Scratchpads ──────────────────────────────────────────────────────────────

/// The index of the scratchpad `name`, or the number of scratchpads.
pub open spec fn pad_named(pads: Seq<PadView>, name: Seq<char>) -> int
    decreases pads.len(),
{
    if pads.len() == 0 || pads[0].name == name {
        0
    } else {
        1 + pad_named(pads.skip(1), name)
    }
}

/// The index of the first scratchpad for `app_id` without a pane, or the
/// number of scratchpads.
pub open spec fn pad_for(pads: Seq<PadView>, app_id: Seq<char>) -> int
    decreases pads.len(),
{
    if pads.len() == 0 || (pads[0].app_id == app_id && pads[0].pane_id is None) {
        0
    } else {
        1 + pad_for(pads.skip(1), app_id)
    }
}

/// Where a scratchpad shows: in the middle of the screen.
pub open spec fn pad_rect(t: TwmView, p: PadView) -> Rect {
    let w = min_of(share(t.screen_w, p.width_pct.units) as int, u32::MAX as int);
    let h = min_of(share(t.screen_h, p.height_pct.units) as int, u32::MAX as int);
    Rect {
        x: (minus(t.screen_w as int, w) / 2) as u32,
        y: (minus(t.screen_h as int, h) / 2) as u32,
        w: w as u32,
        h: h as u32,
    }
}

/// The state with a scratchpad more, unless there is one of that name.
pub open spec fn registered(t: TwmView, pad: PadView) -> TwmView {
    if pad_named(t.pads, pad.name) < t.pads.len() {
        t
    } else {
        TwmView { pads: t.pads.push(pad), ..t }
    }
}

/// The state once the pane `id` has gone to a scratchpad for `app_id`, and
/// whether one was free.
pub open spec fn pad_assigned(t: TwmView, id: PaneId, app_id: Seq<char>) -> (TwmView, bool) {
    let i = pad_for(t.pads, app_id);
    if i < t.pads.len() {
        let r = pad_rect(t, t.pads[i]);
        (
            TwmView {
                pads: t.pads.update(i, PadView { pane_id: Some(id), ..t.pads[i] }),
                panes: if t.panes.contains_key(id) {
                    t.panes.insert(
                        id,
                        PaneView { floating: true, rect: r, float_rect: r, ..t.panes[id] },
                    )
                } else {
                    t.panes
                },
                workspaces: Seq::new(
                    t.workspaces.len(),
                    |k: int| t.workspaces[k].left_by(id),
                ),
                ..t
            },
            true,
        )
    } else {
        (t, false)
    }
}

/// The state with the scratchpad `i`, whose pane is `id`, hidden: the pane is in
/// no workspace.
pub open spec fn pad_hidden(t: TwmView, i: int, id: PaneId) -> TwmView {
    TwmView {
        pads: t.pads.update(i, PadView { visible: false, ..t.pads[i] }),
        workspaces: Seq::new(t.workspaces.len(), |k: int| t.workspaces[k].left_by(id)),
        ..t
    }
}

/// The state with the scratchpad `i`, whose pane is `id`, on the active
/// workspace and in no other.
pub open spec fn pad_shown(t: TwmView, i: int, id: PaneId) -> TwmView {
    let r = pad_rect(t, t.pads[i]);
    let spaces = Seq::new(
        t.workspaces.len(),
        |k: int| WsView { panes: without(t.workspaces[k].panes, id), ..t.workspaces[k] },
    );
    let w = spaces[t.active];
    TwmView {
        pads: t.pads.update(i, PadView { visible: true, ..t.pads[i] }),
        panes: if t.panes.contains_key(id) {
            t.panes.insert(id, PaneView { rect: r, float_rect: r, ..t.panes[id] })
        } else {
            t.panes
        },
        workspaces: spaces.update(
            t.active,
            WsView { panes: w.panes.push(id), focused: Some(id), ..w },
        ),
        ..t
    }
}

/// The state with the scratchpad `name` hidden where it was shown, and the
/// other way round. One that has no pane, or that does not exist, changes
/// nothing.
pub open spec fn pad_toggled(t: TwmView, name: Seq<char>) -> TwmView {
    let i = pad_named(t.pads, name);
    if i < t.pads.len() {
        match t.pads[i].pane_id {
            Some(id) => reflowed(
                if t.pads[i].visible {
                    pad_hidden(t, i, id)
                } else {
                    pad_shown(t, i, id)
                },
            ),
            None => t,
        }
    } else {
        t
    }
}

/// A workspace without the panes of the first `n` scratchpads, as far as they
/// are visible.
pub open spec fn pads_swept(w: WsView, pads: Seq<PadView>, n: int) -> WsView
    decreases n,
{
    if n <= 0 {
        w
    } else {
        let before = pads_swept(w, pads, n - 1);
        match pads[n - 1].pane_id {
            Some(id) => if pads[n - 1].visible {
                before.left_by(id)
            } else {
                before
            },
            None => before,
        }
    }
}

/// All workspaces without the panes of the first `n` scratchpads, as far as they
/// are visible.
pub open spec fn spaces_swept(t: TwmView, n: int) -> Seq<WsView> {
    Seq::new(t.workspaces.len(), |k: int| pads_swept(t.workspaces[k], t.pads, n))
}

/// The state with all scratchpads hidden.
pub open spec fn pads_hidden(t: TwmView) -> TwmView {
    TwmView {
        pads: Seq::new(t.pads.len(), |i: int| PadView { visible: false, ..t.pads[i] }),
        workspaces: spaces_swept(t, t.pads.len() as int),
        ..t
    }
}

// ── Focus ────────────────────────────────────────────────────────────────────

/// The middle of `r`, as signed coordinates.
pub open spec fn center_of(r: Rect) -> (int, int) {
    (((r.x + r.w / 2) as u32) as i32 as int, ((r.y + r.h / 2) as u32) as i32 as int)
}

/// How far `r` is from the point, as a square.
pub open spec fn distance(r: Rect, cx: int, cy: int) -> int {
    let (nx, ny) = center_of(r);
    (nx - cx) * (nx - cx) + (ny - cy) * (ny - cy)
}

/// Whether `r` lies in the direction (`dx`, `dy`) from the point.
pub open spec fn ahead(r: Rect, cx: int, cy: int, dx: int, dy: int) -> bool {
    let (nx, ny) = center_of(r);
    (nx - cx) * dx + (ny - cy) * dy > 0
}

/// The nearest pane ahead among the first `n` of `ids`, the first one of
/// several; `from` is left out.
pub open spec fn nearest(
    panes: Map<PaneId, PaneView>,
    ids: Seq<PaneId>,
    n: int,
    from: PaneId,
    dx: int,
    dy: int,
) -> Option<PaneId>
    decreases n,
{
    if n <= 0 {
        None
    } else {
        let best = nearest(panes, ids, n - 1, from, dx, dy);
        let id = ids[n - 1];
        let (cx, cy) = center_of(panes[from].rect);
        if id == from || !panes.contains_key(id) || !ahead(panes[id].rect, cx, cy, dx, dy) {
            best
        } else {
            match best {
                Some(b) => if distance(panes[id].rect, cx, cy) < distance(panes[b].rect, cx, cy) {
                    Some(id)
                } else {
                    best
                },
                None => Some(id),
            }
        }
    }
}

/// The state once the focus has moved in a direction, if there is a pane.
pub open spec fn focus_moved(t: TwmView, dx: int, dy: int) -> TwmView {
    let w = t.ws();
    match w.focused {
        Some(f) => if t.panes.contains_key(f) {
            match nearest(t.panes, w.panes, w.panes.len() as int, f, dx, dy) {
                Some(id) => t.with_ws(WsView { focused: Some(id), ..w }),
                None => t,
            }
        } else {
            t
        },
        None => t,
    }
}

// ── Actions ──────────────────────────────────────────────────────────────────

/// The place of the workspace with number `n`, counted from one; numbers out
/// of range mean the first or the last one.
pub open spec fn ws_place(n: u8, count: int) -> int {
    min_of(minus(n as int, 1), count - 1)
}

/// The state once the focused pane has moved to another workspace, where it
/// gets the focus.
pub open spec fn sent_to(t: TwmView, n: u8) -> TwmView {
    let i = ws_place(n, t.workspaces.len() as int);
    match t.ws().focused {
        Some(id) => if i != t.active {
            let rest = without(t.ws().panes, id);
            let here = t.with_ws(WsView { panes: rest, focused: last_of(rest), ..t.ws() });
            let w = here.workspaces[i];
            TwmView {
                workspaces: here.workspaces.update(
                    i,
                    WsView { panes: w.panes.push(id), focused: Some(id), ..w },
                ),
                ..here
            }
        } else {
            t
        },
        None => t,
    }
}

pub open spec fn fullscreen_toggled(t: TwmView) -> TwmView {
    match t.ws().focused {
        Some(id) => if t.panes.contains_key(id) {
            let p = t.panes[id];
            TwmView {
                panes: t.panes.insert(id, PaneView { fullscreen: !p.fullscreen, ..p }),
                ..t
            }
        } else {
            t
        },
        None => t,
    }
}

pub open spec fn bar_toggled(t: TwmView) -> TwmView {
    let visible = !t.bar_visible;
    let h = if visible {
        t.bar.h
    } else {
        0
    };
    let (content, _) = split_screen(t.screen_w, t.screen_h, h, t.bar.y > 0, t.padding);
    TwmView { bar_visible: visible, content, ..t }
}

pub open spec fn grown(w: WsView) -> WsView {
    WsView {
        main_ratio: Ratio {
            units: min_of(
                round24((w.main_ratio.units + STEP) as nat) as int,
                NINE_TENTHS as int,
            ) as u32,
        },
        ..w
    }
}

pub open spec fn shrunk(w: WsView) -> WsView {
    WsView {
        main_ratio: Ratio {
            units: if w.main_ratio.units <= STEP {
                TENTH
            } else {
                max_of(round24((w.main_ratio.units - STEP) as nat) as int, TENTH as int) as u32
            },
        },
        ..w
    }
}

/// The state after an action.
pub open spec fn dispatched(t: TwmView, a: TwmAction) -> TwmView {
    match a {
        TwmAction::FocusLeft => reflowed(focus_moved(t, -1, 0)),
        TwmAction::FocusRight => reflowed(focus_moved(t, 1, 0)),
        TwmAction::FocusUp => reflowed(focus_moved(t, 0, -1)),
        TwmAction::FocusDown => reflowed(focus_moved(t, 0, 1)),
        TwmAction::MoveLeft => reflowed(t.with_ws(t.ws().swapped(false))),
        TwmAction::MoveUp => reflowed(t.with_ws(t.ws().swapped(false))),
        TwmAction::MoveRight => reflowed(t.with_ws(t.ws().swapped(true))),
        TwmAction::MoveDown => reflowed(t.with_ws(t.ws().swapped(true))),
        TwmAction::Close => match t.ws().focused {
            Some(id) => closed(t, id),
            None => t,
        },
        TwmAction::Fullscreen => reflowed(fullscreen_toggled(t)),
        TwmAction::ToggleFloat => float_toggled(t),
        TwmAction::FloatMove(id, dx, dy) => float_moved(t, id, dx, dy),
        TwmAction::FloatResize(id, dw, dh) => float_resized(t, id, dw, dh),
        TwmAction::ToggleScratchpad(name) => pad_toggled(t, name@),
        TwmAction::NextLayout => reflowed(
            t.with_ws(WsView { layout: t.ws().layout.spec_next(), ..t.ws() }),
        ),
        TwmAction::PrevLayout => reflowed(
            t.with_ws(WsView { layout: t.ws().layout.spec_prev(), ..t.ws() }),
        ),
        TwmAction::GrowMain => reflowed(t.with_ws(grown(t.ws()))),
        TwmAction::ShrinkMain => reflowed(t.with_ws(shrunk(t.ws()))),
        TwmAction::Workspace(n) => reflowed(
            TwmView { active: ws_place(n, t.workspaces.len() as int), ..pads_hidden(t) },
        ),
        TwmAction::MoveToWorkspace(n) => reflowed(sent_to(t, n)),
        TwmAction::NextWorkspace => reflowed(
            TwmView { active: (t.active + 1) % (t.workspaces.len() as int), ..t },
        ),
        TwmAction::PrevWorkspace => reflowed(
            TwmView {
                active: (t.active + t.workspaces.len() - 1) % (t.workspaces.len() as int),
                ..t
            },
        ),
        TwmAction::ToggleBar => reflowed(bar_toggled(t)),
        TwmAction::OpenShell(app_id) => opened(t, shell_content(app_id@)),
        TwmAction::AssignEmbedded(app_id) => embedded(t, app_id@).0,
        TwmAction::CloseAppId(app_id) => app_closed(t, app_id@),
        TwmAction::SetTitle(id, title) => retitled(t, id, title@),
    }
}

// ── Implementation ───────────────────────────────────────────────────────────

proof fn lemma_forgotten_step(t: TwmView, gone: Set<PaneId>, id: PaneId)
    ensures
        forgotten(forgotten(t, gone), set![id]) == forgotten(t, gone.insert(id)),
{
    let a = forgotten(t, gone);
    let b = forgotten(a, set![id]);
    let c = forgotten(t, gone.insert(id));
    assert(b.panes =~= c.panes);
    assert forall|i: int| 0 <= i < t.workspaces.len() implies b.workspaces[i] == c.workspaces[i] by {
        let p = t.workspaces[i].panes;
        lemma_without_all_step(p, gone, id);
        assert(a.workspaces[i] == ws_left(t.workspaces[i], gone));
        lemma_without_all_last(p, gone, id);
    }
    assert(b.workspaces =~= c.workspaces);
    assert forall|i: int| 0 <= i < t.pads.len() implies b.pads[i] == c.pads[i] by {
        assert(a.pads[i] == pad_left(t.pads[i], gone));
    }
    assert(b.pads =~= c.pads);
}

proof fn lemma_without_all_step(s: Seq<PaneId>, gone: Set<PaneId>, id: PaneId)
    ensures
        without_all(without_all(s, gone), set![id]) == without_all(s, gone.insert(id)),
    decreases s.len(),
{
    if s.len() > 0 {
        lemma_without_all_step(s.drop_last(), gone, id);
        if !gone.contains(s.last()) {
            let t = without_all(s, gone);
            assert(t.drop_last() =~= without_all(s.drop_last(), gone));
        }
    }
}

/// The last pane stays the last one while it is not taken out.
proof fn lemma_without_all_last(s: Seq<PaneId>, gone: Set<PaneId>, id: PaneId)
    ensures
        last_of(without_all(s, gone)) matches Some(l) ==> (l != id ==> last_of(
            without_all(s, gone.insert(id)),
        ) == Some(l)),
        last_of(without_all(s, gone)) is None ==> last_of(without_all(s, gone.insert(id))) is None,
    decreases s.len(),
{
    if s.len() > 0 {
        lemma_without_all_last(s.drop_last(), gone, id);
    }
}

proof fn lemma_without_one(s: Seq<PaneId>, id: PaneId)
    ensures
        without_all(s, set![id]) == without(s, id),
    decreases s.len(),
{
    if s.len() > 0 {
        lemma_without_one(s.drop_last(), id);
    }
}

proof fn lemma_forgotten_none(t: TwmView)
    ensures
        forgotten(t, Set::empty()) == t,
{
    let f = forgotten(t, Set::empty());
    assert(f.panes =~= t.panes);
    assert forall|i: int| 0 <= i < t.workspaces.len() implies f.workspaces[i] == t.workspaces[i] by {
        lemma_without_none(t.workspaces[i].panes);
    }
    assert(f.workspaces =~= t.workspaces);
    assert(f.pads =~= t.pads);
}

proof fn lemma_without_none(s: Seq<PaneId>)
    ensures
        without_all(s, Set::empty()) == s,
    decreases s.len(),
{
    if s.len() > 0 {
        lemma_without_none(s.drop_last());
        assert(without_all(s, Set::empty()) =~= s);
    } else {
        assert(s =~= Seq::<PaneId>::empty());
    }
}

fn compute_rects(sw: u32, sh: u32, bar_h: u32, bar_at_bottom: bool, padding: u32) -> (r: (
    Rect,
    Rect,
))
    ensures
        r == split_screen(sw, sh, bar_h, bar_at_bottom, padding),
{
    let h: u32 = if bar_h <= sh {
        bar_h
    } else {
        sh
    };
    let (content, bar): (Rect, Rect) = if bar_h == 0 {
        (Rect::new(0, 0, sw, sh), Rect::new(0, 0, 0, 0))
    } else if bar_at_bottom {
        (Rect::new(0, 0, sw, sh - h), Rect::new(0, sh - h, sw, h))
    } else {
        (Rect::new(0, h, sw, sh - h), Rect::new(0, 0, sw, h))
    };
    let twice: u64 = 2 * padding as u64;
    let w: u32 = if content.w as u64 >= twice {
        (content.w as u64 - twice) as u32
    } else {
        0
    };
    let height: u32 = if content.h as u64 >= twice {
        (content.h as u64 - twice) as u32
    } else {
        0
    };
    (
        Rect::new(
            capped(content.x as u128 + padding as u128),
            capped(content.y as u128 + padding as u128),
            w,
            height,
        ),
        bar,
    )
}

fn center(r: Rect) -> (c: (i128, i128))
    ensures
        (c.0 as int, c.1 as int) == center_of(r),
        -0x8000_0000 <= c.0 <= 0x7FFF_FFFF,
        -0x8000_0000 <= c.1 <= 0x7FFF_FFFF,
{
    let x: u64 = r.x as u64 + (r.w / 2) as u64;
    let y: u64 = r.y as u64 + (r.h / 2) as u64;
    let cx: i32 = #[verifier::truncate] ((#[verifier::truncate] (x as u32)) as i32);
    let cy: i32 = #[verifier::truncate] ((#[verifier::truncate] (y as u32)) as i32);
    (cx as i128, cy as i128)
}

fn moved(x: u32, d: i32, len: u32, whole: u32) -> (r: u32)
    ensures
        r == moved_to(x, d, len, whole),
{
    let s: i64 = (#[verifier::truncate] (x as i32)) as i64 + d as i64;
    let n: i64 = if s >= 0 {
        s
    } else {
        0
    };
    let most: u32 = whole.saturating_sub(len);
    if n <= most as i64 {
        n as u32
    } else {
        most
    }
}

fn resized(len: u32, d: i32, least: u32, whole: u32) -> (r: u32)
    ensures
        r == resized_to(len, d, least as int, whole),
{
    let s: i64 = (#[verifier::truncate] (len as i32)) as i64 + d as i64;
    let n: i64 = if s >= least as i64 {
        s
    } else {
        least as i64
    };
    if n <= whole as i64 {
        n as u32
    } else {
        whole
    }
}

fn last_pane(v: &Vec<PaneId>) -> (r: Option<PaneId>)
    ensures
        r == last_of(v@),
{
    if v.len() > 0 {
        Some(v[v.len() - 1])
    } else {
        None
    }
}

impl TwmState {
    pub fn new(
        screen_w: u32,
        screen_h: u32,
        bar_h: u32,
        bar_at_bottom: bool,
        gap: u32,
        border_w: u32,
        padding: u32,
        workspaces_count: u8,
    ) -> (r: Self)
        requires
            workspaces_count >= 1,
        ensures
            r@.wf(),
            r@ == (TwmView {
                panes: Map::empty(),
                workspaces: Seq::new(
                    workspaces_count as nat,
                    |i: int| fresh_ws(i as usize, gap),
                ),
                active: 0,
                screen_w,
                screen_h,
                content: split_screen(screen_w, screen_h, bar_h, bar_at_bottom, padding).0,
                bar: split_screen(screen_w, screen_h, bar_h, bar_at_bottom, padding).1,
                bar_visible: true,
                gap,
                border_w,
                padding,
                count: workspaces_count,
                pads: Seq::empty(),
                next_id: 1,
            }),
    {
        let (content_rect, bar_rect) = compute_rects(
            screen_w,
            screen_h,
            bar_h,
            bar_at_bottom,
            padding,
        );
        let mut workspaces: Vec<Workspace> = Vec::new();
        let mut i: usize = 0;
        while i < workspaces_count as usize
            invariant
                i <= workspaces_count,
                workspaces@.len() == i,
                forall|k: int| 0 <= k < i ==> (#[trigger] workspaces@[k])@ == fresh_ws(k as usize, gap),
            decreases workspaces_count - i,
        {
            workspaces.push(Workspace::new(i, gap));
            i += 1;
        }
        let s = TwmState {
            panes: HashMap::new(),
            workspaces,
            active_ws: 0,
            screen_w,
            screen_h,
            content_rect,
            bar_rect,
            bar_visible: true,
            gap,
            border_w,
            padding,
            workspaces_count,
            scratchpads: Vec::new(),
            next_id: 1,
        };
        proof {
            assert(s@.panes =~= Map::<PaneId, PaneView>::empty());
            assert(s@.workspaces =~= Seq::new(
                workspaces_count as nat,
                |i: int| fresh_ws(i as usize, gap),
            ));
            assert(s@.pads =~= Seq::<PadView>::empty());
        }
        s
    }

    /// Puts the panes of the active workspace where they belong.
    pub fn reflow(&mut self)
        requires
            old(self)@.wf(),
        ensures
            final(self)@ == reflowed(old(self)@),
            final(self)@.wf(),
    {
        let ghost t = self@;
        let ghost w = t.ws();
        let mut tiled: Vec<PaneId> = Vec::new();
        let n: usize = self.workspaces[self.active_ws].panes.len();
        let mut i: usize = 0;
        while i < n
            invariant
                *self == *old(self),
                t == self@,
                w == t.ws(),
                t.wf(),
                n == w.panes.len(),
                i <= n,
                tiled@ == tiled_ids(t.panes, w.panes.take(i as int)),
            decreases n - i,
        {
            let id: PaneId = self.workspaces[self.active_ws].panes[i];
            match self.panes.get(&id) {
                Some(p) => {
                    assert(t.panes[id] == p@);
                    if !p.floating && !p.fullscreen {
                        tiled.push(id);
                    }
                },
                None => {},
            }
            i += 1;
            assert(w.panes.take(i as int).drop_last() =~= w.panes.take(i - 1));
        }
        assert(w.panes.take(n as int) =~= w.panes);
        let rects = compute(
            self.workspaces[self.active_ws].layout,
            self.content_rect,
            tiled.len(),
            self.workspaces[self.active_ws].main_ratio,
            self.gap,
        );
        proof {
            crate::twm::layout::law_one_rect_for_each_pane(
                w.layout,
                t.content,
                tiled@.len(),
                w.main_ratio,
                t.gap,
            );
        }
        let mut k: usize = 0;
        while k < tiled.len()
            invariant
                self@ == (TwmView {
                    panes: laid_out(t.panes, tiled@, rects@, k as int),
                    ..t
                }),
                rects@.len() == tiled@.len(),
                k <= tiled@.len(),
            decreases tiled@.len() - k,
        {
            set_rect(&mut self.panes, tiled[k], rects[k]);
            k += 1;
        }
        let ghost placed = self@.panes;
        let screen = Rect::new(0, 0, self.screen_w, self.screen_h);
        let mut j: usize = 0;
        assert(all_settled(placed, w.panes.take(0), screen) =~= placed);
        while j < n
            invariant
                self@ == (TwmView {
                    panes: all_settled(placed, w.panes.take(j as int), screen),
                    ..t
                }),
                w == t.ws(),
                t.wf(),
                n == w.panes.len(),
                j <= n,
            decreases n - j,
        {
            let ghost before = self@.panes;
            let id: PaneId = self.workspaces[self.active_ws].panes[j];
            assert(id == w.panes[j as int]) by {
                assert(self@.workspaces == t.workspaces);
            }
            match take_pane(&mut self.panes, id) {
                Some(mut p) => {
                    let ghost q = p@;
                    if p.fullscreen {
                        p.rect = screen;
                    }
                    if p.floating && !p.fullscreen {
                        p.rect = p.float_rect;
                    }
                    assert(p@ == settled(q, screen));
                    put_pane(&mut self.panes, id, p);
                },
                None => {},
            }
            j += 1;
            proof {
                let old_ids = w.panes.take(j - 1);
                let ids = w.panes.take(j as int);
                assert(ids =~= old_ids.push(id));
                assert forall|x: PaneId| ids.contains(x) <==> (old_ids.contains(x) || x == id) by {
                    if old_ids.contains(x) {
                        let m = choose|m: int| 0 <= m < old_ids.len() && old_ids[m] == x;
                        assert(ids[m] == x);
                    }
                    if x == id {
                        assert(ids[j - 1] == x);
                    }
                }
                assert(self@.panes =~= all_settled(placed, ids, screen));
            }
        }
        assert(w.panes.take(n as int) =~= w.panes);
    }

    // ── Scratchpads ──────────────────────────────────────────────────────────

    fn find_pad(&self, name: &str) -> (r: usize)
        ensures
            r == pad_named(self@.pads, name@),
            r <= self.scratchpads@.len(),
    {
        let ghost all = self@.pads;
        let mut i: usize = 0;
        assert(all.skip(0) =~= all);
        while i < self.scratchpads.len()
            invariant
                i <= self.scratchpads.len(),
                all == self@.pads,
                pad_named(all, name@) == i + pad_named(all.skip(i as int), name@),
            decreases self.scratchpads.len() - i,
        {
            assert(all.skip(i as int)[0] == self.scratchpads@[i as int]@);
            assert(all.skip(i as int).skip(1) =~= all.skip(i + 1));
            if same(self.scratchpads[i].name.as_str(), name) {
                return i;
            }
            i += 1;
        }
        i
    }

    fn find_free_pad(&self, app_id: &str) -> (r: usize)
        ensures
            r == pad_for(self@.pads, app_id@),
            r <= self.scratchpads@.len(),
    {
        let ghost all = self@.pads;
        let mut i: usize = 0;
        assert(all.skip(0) =~= all);
        while i < self.scratchpads.len()
            invariant
                i <= self.scratchpads.len(),
                all == self@.pads,
                pad_for(all, app_id@) == i + pad_for(all.skip(i as int), app_id@),
            decreases self.scratchpads.len() - i,
        {
            assert(all.skip(i as int)[0] == self.scratchpads@[i as int]@);
            assert(all.skip(i as int).skip(1) =~= all.skip(i + 1));
            if same(self.scratchpads[i].app_id.as_str(), app_id)
                && self.scratchpads[i].pane_id.is_none() {
                return i;
            }
            i += 1;
        }
        i
    }

    fn register(&mut self, pad: Scratchpad)
        requires
            old(self)@.wf(),
            pad@.width_pct.wf(),
            pad@.height_pct.wf(),
        ensures
            final(self)@ == registered(old(self)@, pad@),
            final(self)@.wf(),
    {
        if self.find_pad(pad.name.as_str()) == self.scratchpads.len() {
            self.scratchpads.push(pad);
            assert(self@.pads =~= old(self)@.pads.push(pad@));
        }
    }

    pub fn register_scratchpad(&mut self, name: &str, app_id: &str)
        requires
            old(self)@.wf(),
        ensures
            final(self)@ == registered(old(self)@, fresh_pad(name@, app_id@)),
            final(self)@.wf(),
    {
        self.register(Scratchpad::new(name, app_id));
    }

    /// Registers a scratchpad with shares of the screen given by their
    /// single-precision bit patterns.
    pub fn register_scratchpad_sized(&mut self, name: &str, app_id: &str, w_bits: u32, h_bits: u32)
        requires
            old(self)@.wf(),
        ensures
            final(self)@ == registered(
                old(self)@,
                (PadView {
                    width_pct: Ratio { units: crate::single::clamped_units(w_bits) as u32 },
                    height_pct: Ratio { units: crate::single::clamped_units(h_bits) as u32 },
                    ..fresh_pad(name@, app_id@)
                }),
            ),
            final(self)@.wf(),
    {
        self.register(Scratchpad::new(name, app_id).with_size(w_bits, h_bits));
    }

    fn scratchpad_rect(&self, i: usize) -> (r: Rect)
        requires
            self@.wf(),
            i < self.scratchpads@.len(),
        ensures
            r == pad_rect(self@, self@.pads[i as int]),
    {
        assert(self@.pads[i as int] == self.scratchpads@[i as int]@);
        let w: u32 = self.scratchpads[i].width_pct.of(self.screen_w);
        let h: u32 = self.scratchpads[i].height_pct.of(self.screen_h);
        Rect::new(
            self.screen_w.saturating_sub(w) / 2,
            self.screen_h.saturating_sub(h) / 2,
            w,
            h,
        )
    }

    /// Takes the pane `id` out of every workspace.
    pub(crate) fn leave_all(&mut self, id: PaneId)
        requires
            old(self)@.wf(),
        ensures
            final(self)@ == (TwmView {
                workspaces: Seq::new(
                    old(self)@.workspaces.len(),
                    |k: int| old(self)@.workspaces[k].left_by(id),
                ),
                ..old(self)@
            }),
            final(self)@.wf(),
    {
        let ghost t = self@;
        let n: usize = self.workspaces.len();
        let mut i: usize = 0;
        while i < n
            invariant
                i <= n,
                n == self.workspaces@.len(),
                n == t.workspaces.len(),
                t == old(self)@,
                self@ == (TwmView { workspaces: self@.workspaces, ..t }),
                forall|k: int|
                    0 <= k < n ==> (#[trigger] self@.workspaces[k]) == if k < i {
                        t.workspaces[k].left_by(id)
                    } else {
                        t.workspaces[k]
                    },
            decreases n - i,
        {
            let ghost before = self@.workspaces;
            let ghost raw = self.workspaces@;
            assert(before[i as int] == raw[i as int]@);
            self.workspaces[i].leave(id);
            i += 1;
            assert(self@.workspaces =~= before.update(i - 1, t.workspaces[i - 1].left_by(id)));
        }
        assert(self@.workspaces =~= Seq::new(
            t.workspaces.len(),
            |k: int| t.workspaces[k].left_by(id),
        ));
    }

    /// Gives a newly opened pane to a scratchpad for its app id, if one is
    /// free.
    pub fn try_assign_scratchpad(&mut self, pane_id: PaneId, app_id: &str) -> (r: bool)
        requires
            old(self)@.wf(),
        ensures
            (final(self)@, r) == pad_assigned(old(self)@, pane_id, app_id@),
            final(self)@.wf(),
    {
        let ghost t = self@;
        let i: usize = self.find_free_pad(app_id);
        if i == self.scratchpads.len() {
            return false;
        }
        let rect = self.scratchpad_rect(i);
        self.scratchpads[i].pane_id = Some(pane_id);
        proof {
            let p = PadView { pane_id: Some(pane_id), ..t.pads[i as int] };
            assert(self@.pads =~= t.pads.update(i as int, p));
        }
        match take_pane(&mut self.panes, pane_id) {
            Some(mut p) => {
                p.floating = true;
                p.rect = rect;
                p.float_rect = rect;
                put_pane(&mut self.panes, pane_id, p);
                assert(self@.panes =~= t.panes.insert(
                    pane_id,
                    PaneView { floating: true, rect, float_rect: rect, ..t.panes[pane_id] },
                ));
            },
            None => {
                assert(self@.panes =~= t.panes);
            },
        }
        self.leave_all(pane_id);
        true
    }

    pub fn toggle_scratchpad(&mut self, name: &str)
        requires
            old(self)@.wf(),
        ensures
            final(self)@ == pad_toggled(old(self)@, name@),
            final(self)@.wf(),
    {
        let ghost t = self@;
        let i: usize = self.find_pad(name);
        if i == self.scratchpads.len() {
            return;
        }
        assert(t.pads[i as int] == self.scratchpads@[i as int]@);
        let id: PaneId = match self.scratchpads[i].pane_id {
            Some(id) => id,
            None => {
                return;
            },
        };
        if self.scratchpads[i].visible {
            self.leave_all(id);
            self.scratchpads[i].visible = false;
            assert(self@.pads =~= t.pads.update(
                i as int,
                PadView { visible: false, ..t.pads[i as int] },
            ));
            assert(self@ == pad_hidden(t, i as int, id));
        } else {
            let rect = self.scratchpad_rect(i);
            match take_pane(&mut self.panes, id) {
                Some(mut p) => {
                    p.rect = rect;
                    p.float_rect = rect;
                    put_pane(&mut self.panes, id, p);
                    assert(self@.panes =~= t.panes.insert(
                        id,
                        PaneView { rect, float_rect: rect, ..t.panes[id] },
                    ));
                },
                None => {
                    assert(self@.panes =~= t.panes);
                },
            }
            let n: usize = self.workspaces.len();
            let mut k: usize = 0;
            let ghost panes = self@.panes;
            while k < n
                invariant
                    k <= n,
                    n == self.workspaces@.len(),
                    n == t.workspaces.len(),
                    self@ == (TwmView { workspaces: self@.workspaces, panes, ..t }),
                    forall|m: int|
                        0 <= m < n ==> (#[trigger] self@.workspaces[m]) == if m < k {
                            WsView {
                                panes: without(t.workspaces[m].panes, id),
                                ..t.workspaces[m]
                            }
                        } else {
                            t.workspaces[m]
                        },
                decreases n - k,
            {
                let ghost before = self@.workspaces;
                assert(before[k as int] == self.workspaces@[k as int]@);
                let kept = retain_not(&self.workspaces[k].panes, id);
                self.workspaces[k].panes = kept;
                k += 1;
                assert(self@.workspaces =~= before.update(
                    k - 1,
                    WsView {
                        panes: without(t.workspaces[k - 1].panes, id),
                        ..t.workspaces[k - 1]
                    },
                ));
            }
            let ghost spaces = Seq::new(
                t.workspaces.len(),
                |m: int| WsView { panes: without(t.workspaces[m].panes, id), ..t.workspaces[m] },
            );
            assert(self@.workspaces =~= spaces);
            let a: usize = self.active_ws;
            self.workspaces[a].panes.push(id);
            self.workspaces[a].focused = Some(id);
            proof {
                let w = spaces[t.active];
                assert(self@.workspaces =~= spaces.update(
                    t.active,
                    WsView { panes: w.panes.push(id), focused: Some(id), ..w },
                ));
            }
            self.scratchpads[i].visible = true;
            assert(self@.pads =~= t.pads.update(
                i as int,
                PadView { visible: true, ..t.pads[i as int] },
            ));
            assert(self@ == pad_shown(t, i as int, id));
        }
        self.reflow();
    }
}

impl TwmState {
    // ── Screen ───────────────────────────────────────────────────────────────

    /// Takes over another size of the screen.
    pub fn resize(&mut self, screen_w: u32, screen_h: u32)
        requires
            old(self)@.wf(),
        ensures
            final(self)@ == reflowed(
                resplit(
                    (TwmView { screen_w, screen_h, ..old(self)@ }),
                    old(self)@.bar.h,
                    old(self)@.bar.y > 0,
                ),
            ),
            final(self)@.wf(),
    {
        self.screen_w = screen_w;
        self.screen_h = screen_h;
        let (content, bar) = compute_rects(
            screen_w,
            screen_h,
            self.bar_rect.h,
            self.bar_rect.y > 0,
            self.padding,
        );
        self.content_rect = content;
        self.bar_rect = bar;
        self.reflow();
    }

    pub fn set_bar_height(&mut self, h: u32, at_bottom: bool)
        requires
            old(self)@.wf(),
        ensures
            final(self)@ == reflowed(resplit(old(self)@, h, at_bottom)),
            final(self)@.wf(),
    {
        let (content, bar) = compute_rects(
            self.screen_w,
            self.screen_h,
            h,
            at_bottom,
            self.padding,
        );
        self.content_rect = content;
        self.bar_rect = bar;
        self.reflow();
    }

    // ── Panes ────────────────────────────────────────────────────────────────

    /// Opens a pane on the active workspace.
    fn open(&mut self, content: PaneContent) -> (r: PaneId)
        requires
            old(self)@.wf(),
        ensures
            final(self)@ == opened(old(self)@, content@),
            final(self)@.wf(),
            r == old(self)@.next_id,
    {
        let ghost t = self@;
        let id: PaneId = new_pane_id(&mut self.next_id);
        put_pane(&mut self.panes, id, Pane::new(id, content));
        let a: usize = self.active_ws;
        self.workspaces[a].panes.push(id);
        self.workspaces[a].focused = Some(id);
        proof {
            let w = t.ws();
            assert(self@.workspaces =~= t.workspaces.update(
                t.active,
                WsView { panes: w.panes.push(id), focused: Some(id), ..w },
            ));
        }
        self.reflow();
        id
    }

    pub fn open_shell(&mut self, app_id: &str) -> (r: PaneId)
        requires
            old(self)@.wf(),
        ensures
            final(self)@ == opened(old(self)@, shell_content(app_id@)),
            final(self)@.wf(),
            r == old(self)@.next_id,
    {
        self.open(PaneContent::Shell { app_id: app_id.to_owned(), title: app_id.to_owned() })
    }

    pub fn assign_embedded(&mut self, app_id: &str) -> (r: PaneId)
        requires
            old(self)@.wf(),
        ensures
            (final(self)@, r) == embedded(old(self)@, app_id@),
            final(self)@.wf(),
    {
        let ghost t = self@;
        if let Some(f) = self.workspaces[self.active_ws].focused {
            let empty = match self.panes.get(&f) {
                Some(p) => {
                    assert(t.panes[f] == p@);
                    p.content.is_empty()
                },
                None => false,
            };
            if empty {
                if let Some(mut p) = take_pane(&mut self.panes, f) {
                    p.content = PaneContent::Embedded { app_id: app_id.to_owned() };
                    put_pane(&mut self.panes, f, p);
                    proof {
                        let c = ContentView::Embedded { app_id: app_id@ };
                        assert(self@.panes =~= t.panes.insert(
                            f,
                            PaneView { content: c, ..t.panes[f] },
                        ));
                    }
                }
                self.reflow();
                return f;
            }
        }
        self.open(PaneContent::Embedded { app_id: app_id.to_owned() })
    }

    pub fn set_title(&mut self, id: PaneId, title: String)
        requires
            old(self)@.wf(),
        ensures
            final(self)@ == retitled(old(self)@, id, title@),
            final(self)@.wf(),
    {
        let ghost t = self@;
        match take_pane(&mut self.panes, id) {
            Some(p) => {
                let ghost before = p@;
                let content = match p.content {
                    PaneContent::Shell { app_id, title: _ } => PaneContent::Shell {
                        app_id,
                        title,
                    },
                    other => other,
                };
                let q = Pane { content, ..p };
                put_pane(&mut self.panes, id, q);
                assert(self@.panes =~= t.panes.insert(id, q@));
                assert(self@.panes =~= retitled(t, id, title@).panes);
            },
            None => {
                assert(self@.panes =~= t.panes);
            },
        }
    }

    /// Takes a pane out without placing the others.
    fn forget(&mut self, id: PaneId)
        requires
            old(self)@.wf(),
        ensures
            final(self)@ == forgotten(old(self)@, set![id]),
            final(self)@.wf(),
    {
        let ghost t = self@;
        let _ = take_pane(&mut self.panes, id);
        assert(self@.panes =~= t.panes.remove_keys(set![id]));
        self.leave_all(id);
        proof {
            let f = forgotten(t, set![id]);
            assert forall|k: int| 0 <= k < t.workspaces.len() implies self@.workspaces[k]
                == f.workspaces[k] by {
                lemma_without_one(t.workspaces[k].panes, id);
            }
            assert(self@.workspaces =~= f.workspaces);
        }
        let ghost s = self@;
        let n: usize = self.scratchpads.len();
        let mut i: usize = 0;
        while i < n
            invariant
                i <= n,
                n == self.scratchpads@.len(),
                n == s.pads.len(),
                self@ == (TwmView { pads: self@.pads, ..s }),
                forall|k: int|
                    0 <= k < n ==> (#[trigger] self@.pads[k]) == if k < i {
                        pad_left(s.pads[k], set![id])
                    } else {
                        s.pads[k]
                    },
            decreases n - i,
        {
            let ghost before = self@.pads;
            assert(before[i as int] == self.scratchpads@[i as int]@);
            if self.scratchpads[i].pane_id == Some(id) {
                self.scratchpads[i].pane_id = None;
                self.scratchpads[i].visible = false;
            }
            i += 1;
            assert(self@.pads =~= before.update(i - 1, pad_left(s.pads[i - 1], set![id])));
        }
        assert(self@.pads =~= forgotten(t, set![id]).pads);
        assert(self@ == forgotten(t, set![id]));
    }

    pub fn close_pane(&mut self, id: PaneId)
        requires
            old(self)@.wf(),
        ensures
            final(self)@ == closed(old(self)@, id),
            final(self)@.wf(),
    {
        self.forget(id);
        self.reflow();
    }

    /// The ids of the panes of `app_id`, in no particular order.
    pub fn ids_of(&self, app_id: &str) -> (r: Vec<PaneId>)
        ensures
            r@.to_set() == panes_of(self@, app_id@),
    {
        let ghost t = self@;
        let ghost want = panes_of(t, app_id@);
        let mut r: Vec<PaneId> = Vec::new();
        for id in it: self.panes.keys()
            invariant
                t == self@,
                want == panes_of(t, app_id@),
                it.seq().unref().to_set() == self.panes@.dom(),
                forall|m: int| 0 <= m < r@.len() ==> want.contains(#[trigger] r@[m]),
                forall|k: int|
                    0 <= k < it.index() && want.contains(*it.seq()[k]) ==> r@.contains(
                        *#[trigger] it.seq()[k],
                    ),
        {
            let ghost before = r@;
            proof {
                let n = it.index() as int;
                assert(it.seq().unref()[n] == *id);
                assert(it.seq().unref().to_set().contains(*id));
            }
            match self.panes.get(id) {
                Some(p) => {
                    assert(t.panes[*id] == p@);
                    if same(p.content.app_id(), app_id) {
                        r.push(*id);
                        assert(r@.last() == *id);
                        assert forall|x: PaneId| before.contains(x) implies r@.contains(x) by {
                            let m = choose|m: int| 0 <= m < before.len() && before[m] == x;
                            assert(r@[m] == x);
                        }
                    }
                },
                None => {},
            }
        }
        assert forall|x: PaneId| want.contains(x) implies r@.contains(x) by {
            assert(self.panes@.dom().contains(x));
        }
        assert forall|x: PaneId| r@.contains(x) implies want.contains(x) by {
            let m = choose|m: int| 0 <= m < r@.len() && r@[m] == x;
            assert(want.contains(r@[m]));
        }
        assert(r@.to_set() =~= want);
        r
    }

    pub fn close_by_app_id(&mut self, app_id: &str)
        requires
            old(self)@.wf(),
        ensures
            final(self)@ == app_closed(old(self)@, app_id@),
            final(self)@.wf(),
    {
        let ids = self.ids_of(app_id);
        self.close_all(&ids);
    }

    /// Closes all panes of `ids`.
    pub fn close_all(&mut self, ids: &Vec<PaneId>)
        requires
            old(self)@.wf(),
        ensures
            final(self)@ == all_closed(old(self)@, ids@.to_set()),
            final(self)@.wf(),
    {
        let ghost t = self@;
        if ids.len() == 0 {
            assert(ids@.to_set() =~= Set::empty());
            return;
        }
        assert(ids@.to_set().contains(ids@[0]));
        let mut i: usize = 0;
        proof {
            lemma_forgotten_none(t);
            assert(ids@.take(0).to_set() =~= Set::empty());
        }
        while i < ids.len()
            invariant
                i <= ids@.len(),
                self@ == forgotten(t, ids@.take(i as int).to_set()),
                self@.wf(),
            decreases ids@.len() - i,
        {
            let ghost gone = ids@.take(i as int).to_set();
            self.forget(ids[i]);
            i += 1;
            proof {
                lemma_forgotten_step(t, gone, ids@[i - 1]);
                let next = ids@.take(i as int);
                let prev = ids@.take(i - 1);
                assert(next =~= prev.push(ids@[i - 1]));
                assert(next.to_set() =~= gone.insert(ids@[i - 1])) by {
                    assert forall|x: PaneId| next.to_set().contains(x) <==> gone.insert(
                        ids@[i - 1],
                    ).contains(x) by {
                        if gone.contains(x) {
                            let m = choose|m: int| 0 <= m < prev.len() && prev[m] == x;
                            assert(next[m] == x);
                        }
                        if x == ids@[i - 1] {
                            assert(next[i - 1] == x);
                        }
                        if next.contains(x) && x != ids@[i - 1] {
                            let m = choose|m: int| 0 <= m < next.len() && next[m] == x;
                            assert(prev[m] == x);
                        }
                    }
                }
            }
        }
        assert(ids@.take(i as int) =~= ids@);
        self.reflow();
    }

    // ── Floating panes ───────────────────────────────────────────────────────

    pub fn toggle_float(&mut self)
        requires
            old(self)@.wf(),
        ensures
            final(self)@ == float_toggled(old(self)@),
            final(self)@.wf(),
    {
        let ghost t = self@;
        let id: PaneId = match self.focused_id() {
            Some(id) => id,
            None => {
                return;
            },
        };
        match take_pane(&mut self.panes, id) {
            Some(mut p) => {
                p.floating = !p.floating;
                if p.floating {
                    if p.float_rect.is_empty() {
                        p.float_rect = p.rect;
                    }
                    p.rect = p.float_rect;
                }
                put_pane(&mut self.panes, id, p);
                assert(self@.panes =~= t.panes.insert(id, p@));
                self.reflow();
            },
            None => {
                assert(self@.panes =~= t.panes);
            },
        }
    }

    /// Moves a floating pane by (`dx`, `dy`); it stays on the screen.
    pub fn float_move(&mut self, id: PaneId, dx: i32, dy: i32)
        requires
            old(self)@.wf(),
        ensures
            final(self)@ == float_moved(old(self)@, id, dx, dy),
            final(self)@.wf(),
    {
        let ghost t = self@;
        match take_pane(&mut self.panes, id) {
            Some(mut p) => {
                if p.floating {
                    p.rect.x = moved(p.rect.x, dx, p.rect.w, self.screen_w);
                    p.rect.y = moved(p.rect.y, dy, p.rect.h, self.screen_h);
                    p.float_rect = p.rect;
                }
                put_pane(&mut self.panes, id, p);
                assert(self@.panes =~= float_moved(t, id, dx, dy).panes);
            },
            None => {
                assert(self@.panes =~= t.panes);
            },
        }
    }

    /// Changes the size of a floating pane by (`dw`, `dh`).
    pub fn float_resize(&mut self, id: PaneId, dw: i32, dh: i32)
        requires
            old(self)@.wf(),
        ensures
            final(self)@ == float_resized(old(self)@, id, dw, dh),
            final(self)@.wf(),
    {
        let ghost t = self@;
        match take_pane(&mut self.panes, id) {
            Some(mut p) => {
                if p.floating {
                    p.rect.w = resized(p.rect.w, dw, 80, self.screen_w);
                    p.rect.h = resized(p.rect.h, dh, 60, self.screen_h);
                    p.float_rect = p.rect;
                }
                put_pane(&mut self.panes, id, p);
                assert(self@.panes =~= float_resized(t, id, dw, dh).panes);
            },
            None => {
                assert(self@.panes =~= t.panes);
            },
        }
    }

    // ── Focus ────────────────────────────────────────────────────────────────

    pub fn focused_id(&self) -> (r: Option<PaneId>)
        requires
            self@.wf(),
        ensures
            r == self@.ws().focused,
    {
        assert(self@.ws() == self.workspaces@[self.active_ws as int]@);
        self.workspaces[self.active_ws].focused
    }

    pub fn focused_pane(&self) -> (r: Option<&Pane>)
        requires
            self@.wf(),
        ensures
            match r {
                Some(p) => self@.ws().focused matches Some(id) && self@.panes.contains_key(id)
                    && self@.panes[id] == p@,
                None => self@.ws().focused matches Some(id) ==> !self@.panes.contains_key(id),
            },
    {
        match self.focused_id() {
            Some(id) => self.panes.get(&id),
            None => None,
        }
    }

    /// A pane of `app_id`, if there is one; which one of several is open.
    pub fn pane_by_app_id(&self, app_id: &str) -> (r: Option<&Pane>)
        ensures
            match r {
                Some(p) => exists|id: PaneId| #[trigger]
                    panes_of(self@, app_id@).contains(id) && self@.panes[id] == p@,
                None => panes_of(self@, app_id@).is_empty(),
            },
    {
        let ids = self.ids_of(app_id);
        if ids.len() == 0 {
            assert(ids@.to_set() =~= Set::empty());
            return None;
        }
        proof {
            assert(ids@.to_set().contains(ids@[0]));
            assert(panes_of(self@, app_id@).contains(ids@[0]));
        }
        self.panes.get(&ids[0])
    }

    /// Moves the focus to `id` if that is on the active workspace.
    pub fn set_focused(&mut self, id: PaneId)
        requires
            old(self)@.wf(),
        ensures
            final(self)@ == if old(self)@.ws().panes.contains(id) {
                old(self)@.with_ws(WsView { focused: Some(id), ..old(self)@.ws() })
            } else {
                old(self)@
            },
            final(self)@.wf(),
    {
        let ghost t = self@;
        let a: usize = self.active_ws;
        assert(t.ws() == self.workspaces@[a as int]@);
        let n: usize = self.workspaces[a].panes.len();
        let mut i: usize = 0;
        while i < n
            invariant
                *self == *old(self),
                t == self@,
                t.wf(),
                a == self.active_ws,
                t.ws() == self.workspaces@[a as int]@,
                n == t.ws().panes.len(),
                i <= n,
                forall|k: int| 0 <= k < i ==> #[trigger] t.ws().panes[k] != id,
            decreases n - i,
        {
            if self.workspaces[a].panes[i] == id {
                assert(t.ws().panes[i as int] == id);
                self.workspaces[a].focused = Some(id);
                assert(self@.workspaces =~= t.workspaces.update(
                    t.active,
                    WsView { focused: Some(id), ..t.ws() },
                ));
                return;
            }
            i += 1;
        }
    }

    fn focus_dir(&mut self, dx: i32, dy: i32)
        requires
            old(self)@.wf(),
            -1 <= dx <= 1,
            -1 <= dy <= 1,
        ensures
            final(self)@ == focus_moved(old(self)@, dx as int, dy as int),
            final(self)@.wf(),
    {
        let ghost t = self@;
        let ghost w = t.ws();
        let a: usize = self.active_ws;
        assert(w == self.workspaces@[a as int]@);
        let from: PaneId = match self.workspaces[a].focused {
            Some(id) => id,
            None => {
                return;
            },
        };
        let (cx, cy): (i128, i128) = match self.panes.get(&from) {
            Some(p) => {
                assert(t.panes[from] == p@);
                center(p.rect)
            },
            None => {
                return;
            },
        };
        let ghost (gx, gy) = center_of(t.panes[from].rect);
        let n: usize = self.workspaces[a].panes.len();
        let mut best: Option<PaneId> = None;
        let mut best_distance: i128 = 0;
        let mut i: usize = 0;
        while i < n
            invariant
                *self == *old(self),
                t == self@,
                t.wf(),
                w == t.ws(),
                a == self.active_ws,
                w == self.workspaces@[a as int]@,
                n == w.panes.len(),
                i <= n,
                -1 <= dx <= 1,
                -1 <= dy <= 1,
                (cx as int, cy as int) == center_of(t.panes[from].rect),
                -0x8000_0000 <= cx <= 0x7FFF_FFFF,
                -0x8000_0000 <= cy <= 0x7FFF_FFFF,
                best == nearest(t.panes, w.panes, i as int, from, dx as int, dy as int),
                best matches Some(b) ==> best_distance == distance(
                    t.panes[b].rect,
                    cx as int,
                    cy as int,
                ),
            decreases n - i,
        {
            let id: PaneId = self.workspaces[a].panes[i];
            if id != from {
                match self.panes.get(&id) {
                    Some(p) => {
                        assert(t.panes[id] == p@);
                        let (nx, ny): (i128, i128) = center(p.rect);
                        let ex: i128 = nx - cx;
                        let ey: i128 = ny - cy;
                        assert(-0x1_0000_0000 <= ex * dx <= 0x1_0000_0000) by (nonlinear_arith)
                            requires
                                -0x1_0000_0000 <= ex <= 0x1_0000_0000,
                                -1 <= dx <= 1,
                        ;
                        assert(-0x1_0000_0000 <= ey * dy <= 0x1_0000_0000) by (nonlinear_arith)
                            requires
                                -0x1_0000_0000 <= ey <= 0x1_0000_0000,
                                -1 <= dy <= 1,
                        ;
                        assert(0 <= ex * ex <= 0x1_0000_0000 * 0x1_0000_0000) by (nonlinear_arith)
                            requires
                                -0x1_0000_0000 <= ex <= 0x1_0000_0000,
                        ;
                        assert(0 <= ey * ey <= 0x1_0000_0000 * 0x1_0000_0000) by (nonlinear_arith)
                            requires
                                -0x1_0000_0000 <= ey <= 0x1_0000_0000,
                        ;
                        if ex * dx as i128 + ey * dy as i128 > 0 {
                            let d: i128 = ex * ex + ey * ey;
                            let closer = match best {
                                Some(_) => d < best_distance,
                                None => true,
                            };
                            if closer {
                                best = Some(id);
                                best_distance = d;
                            }
                        }
                    },
                    None => {},
                }
            }
            i += 1;
        }
        if let Some(id) = best {
            self.workspaces[a].focused = Some(id);
            assert(self@.workspaces =~= t.workspaces.update(
                t.active,
                WsView { focused: Some(id), ..w },
            ));
        }
    }
}

impl TwmState {
    /// Performs an action.
    #[verifier::spinoff_prover]
    pub fn dispatch(&mut self, action: TwmAction)
        requires
            old(self)@.wf(),
        ensures
            final(self)@ == dispatched(old(self)@, action),
            final(self)@.wf(),
    {
        let ghost t = self@;
        let a: usize = self.active_ws;
        assert(t.ws() == self.workspaces@[a as int]@);
        match action {
            TwmAction::FocusLeft => self.focus_dir(-1, 0),
            TwmAction::FocusRight => self.focus_dir(1, 0),
            TwmAction::FocusUp => self.focus_dir(0, -1),
            TwmAction::FocusDown => self.focus_dir(0, 1),
            TwmAction::MoveLeft | TwmAction::MoveUp => {
                self.workspaces[a].swap_focused(false);
                assert(self@.workspaces =~= t.workspaces.update(t.active, t.ws().swapped(false)));
            },
            TwmAction::MoveRight | TwmAction::MoveDown => {
                self.workspaces[a].swap_focused(true);
                assert(self@.workspaces =~= t.workspaces.update(t.active, t.ws().swapped(true)));
            },
            TwmAction::Close => {
                if let Some(id) = self.focused_id() {
                    self.close_pane(id);
                }
                return;
            },
            TwmAction::Fullscreen => self.toggle_fullscreen(),
            TwmAction::ToggleFloat => {
                self.toggle_float();
                return;
            },
            TwmAction::FloatMove(id, dx, dy) => {
                self.float_move(id, dx, dy);
                return;
            },
            TwmAction::FloatResize(id, dw, dh) => {
                self.float_resize(id, dw, dh);
                return;
            },
            TwmAction::ToggleScratchpad(name) => {
                self.toggle_scratchpad(name.as_str());
                return;
            },
            TwmAction::NextLayout => {
                let l = self.workspaces[a].layout.next();
                self.workspaces[a].layout = l;
                assert(self@.workspaces =~= t.workspaces.update(
                    t.active,
                    WsView { layout: t.ws().layout.spec_next(), ..t.ws() },
                ));
            },
            TwmAction::PrevLayout => {
                let l = self.workspaces[a].layout.prev();
                self.workspaces[a].layout = l;
                assert(self@.workspaces =~= t.workspaces.update(
                    t.active,
                    WsView { layout: t.ws().layout.spec_prev(), ..t.ws() },
                ));
            },
            TwmAction::GrowMain => {
                let r = self.workspaces[a].main_ratio.grown();
                self.workspaces[a].main_ratio = r;
                assert(self@.workspaces =~= t.workspaces.update(t.active, grown(t.ws())));
            },
            TwmAction::ShrinkMain => {
                let r = self.workspaces[a].main_ratio.shrunk();
                self.workspaces[a].main_ratio = r;
                assert(self@.workspaces =~= t.workspaces.update(t.active, shrunk(t.ws())));
            },
            TwmAction::Workspace(n) => {
                self.hide_scratchpads();
                self.active_ws = self.ws_index(n);
            },
            TwmAction::MoveToWorkspace(n) => self.send_to(n),
            TwmAction::NextWorkspace => {
                let n: usize = self.workspaces.len();
                let next: usize = if a == n - 1 {
                    0
                } else {
                    a + 1
                };
                proof {
                    lemma_round(a as int, n as int);
                }
                self.active_ws = next;
            },
            TwmAction::PrevWorkspace => {
                let n: usize = self.workspaces.len();
                let prev: usize = if a == 0 {
                    n - 1
                } else {
                    a - 1
                };
                proof {
                    lemma_round(a as int, n as int);
                }
                self.active_ws = prev;
            },
            TwmAction::ToggleBar => {
                self.bar_visible = !self.bar_visible;
                let bar_h: u32 = if self.bar_visible {
                    self.bar_rect.h
                } else {
                    0
                };
                let (content, _) = compute_rects(
                    self.screen_w,
                    self.screen_h,
                    bar_h,
                    self.bar_rect.y > 0,
                    self.padding,
                );
                self.content_rect = content;
            },
            TwmAction::OpenShell(app_id) => {
                let _ = self.open_shell(app_id.as_str());
                return;
            },
            TwmAction::AssignEmbedded(app_id) => {
                let _ = self.assign_embedded(app_id.as_str());
                return;
            },
            TwmAction::CloseAppId(app_id) => {
                self.close_by_app_id(app_id.as_str());
                return;
            },
            TwmAction::SetTitle(id, title) => {
                self.set_title(id, title);
                return;
            },
        }
        self.reflow();
    }

    fn toggle_fullscreen(&mut self)
        requires
            old(self)@.wf(),
        ensures
            final(self)@ == fullscreen_toggled(old(self)@),
            final(self)@.wf(),
    {
        let ghost t = self@;
        if let Some(id) = self.focused_id() {
            match take_pane(&mut self.panes, id) {
                Some(mut p) => {
                    p.fullscreen = !p.fullscreen;
                    put_pane(&mut self.panes, id, p);
                    assert(self@.panes =~= t.panes.insert(id, p@));
                },
                None => {
                    assert(self@.panes =~= t.panes);
                },
            }
        }
    }

    fn ws_index(&self, n: u8) -> (r: usize)
        requires
            self@.wf(),
        ensures
            r == ws_place(n, self@.workspaces.len() as int),
            r < self@.workspaces.len(),
    {
        let k: usize = if n >= 1 {
            n as usize - 1
        } else {
            0
        };
        let last: usize = self.workspaces.len() - 1;
        if k <= last {
            k
        } else {
            last
        }
    }

    #[verifier::spinoff_prover]
    fn hide_scratchpads(&mut self)
        requires
            old(self)@.wf(),
        ensures
            final(self)@ == pads_hidden(old(self)@),
            final(self)@.wf(),
    {
        let ghost t = self@;
        let n: usize = self.scratchpads.len();
        let mut i: usize = 0;
        assert(t.workspaces =~= spaces_swept(t, 0));
        while i < n
            invariant
                i <= n,
                n == self.scratchpads@.len(),
                n == t.pads.len(),
                t.wf(),
                self@.wf(),
                self@ == (TwmView {
                    pads: self@.pads,
                    workspaces: spaces_swept(t, i as int),
                    ..t
                }),
                forall|k: int|
                    0 <= k < n ==> (#[trigger] self@.pads[k]) == if k < i {
                        PadView { visible: false, ..t.pads[k] }
                    } else {
                        t.pads[k]
                    },
            decreases n - i,
        {
            let ghost before = self@.pads;
            assert(before[i as int] == self.scratchpads@[i as int]@);
            if self.scratchpads[i].visible {
                if let Some(id) = self.scratchpads[i].pane_id {
                    self.leave_all(id);
                }
                self.scratchpads[i].visible = false;
            }
            i += 1;
            assert(self@.workspaces =~= spaces_swept(t, i as int));
            assert(self@.pads =~= before.update(
                i - 1,
                PadView { visible: false, ..t.pads[i - 1] },
            ));
            assert forall|k: int| 0 <= k < self@.pads.len() implies (
            #[trigger] self@.pads[k]).width_pct.wf() && self@.pads[k].height_pct.wf() by {
                assert(t.pads[k].width_pct.wf());
            }
        }
        assert(self@.pads =~= pads_hidden(t).pads);
        assert(self@ == pads_hidden(t));
    }

    fn send_to(&mut self, n: u8)
        requires
            old(self)@.wf(),
        ensures
            final(self)@ == sent_to(old(self)@, n),
            final(self)@.wf(),
    {
        let ghost t = self@;
        let a: usize = self.active_ws;
        let i: usize = self.ws_index(n);
        assert(t.ws() == self.workspaces@[a as int]@);
        if i != a {
            if let Some(id) = self.focused_id() {
                let rest = retain_not(&self.workspaces[a].panes, id);
                let last = last_pane(&rest);
                self.workspaces[a].panes = rest;
                self.workspaces[a].focused = last;
                let ghost here = t.with_ws(
                    WsView {
                        panes: without(t.ws().panes, id),
                        focused: last_of(without(t.ws().panes, id)),
                        ..t.ws()
                    },
                );
                assert(self@.workspaces =~= here.workspaces);
                assert(here.workspaces[i as int] == self.workspaces@[i as int]@);
                self.workspaces[i].panes.push(id);
                self.workspaces[i].focused = Some(id);
                proof {
                    let w = here.workspaces[i as int];
                    assert(self@.workspaces =~= here.workspaces.update(
                        i as int,
                        WsView { panes: w.panes.push(id), focused: Some(id), ..w },
                    ));
                }
            }
        }
    }

    // ── Snapshots ────────────────────────────────────────────────────────────

    /// Where the panes of the active workspace are, for comparison before and
    /// after a change.
    pub fn pane_rects_snapshot(&self) -> (r: Vec<(PaneId, Rect)>)
        requires
            self@.wf(),
        ensures
            r@ == rects_seen(self@.panes, self@.ws().panes),
    {
        let ghost t = self@;
        let a: usize = self.active_ws;
        assert(t.ws() == self.workspaces@[a as int]@);
        let n: usize = self.workspaces[a].panes.len();
        let mut r: Vec<(PaneId, Rect)> = Vec::new();
        let mut i: usize = 0;
        while i < n
            invariant
                t == self@,
                a == self.active_ws,
                a < self.workspaces@.len(),
                t.ws() == self.workspaces@[a as int]@,
                n == t.ws().panes.len(),
                i <= n,
                r@ == rects_seen(t.panes, t.ws().panes.take(i as int)),
            decreases n - i,
        {
            let id: PaneId = self.workspaces[a].panes[i];
            match self.panes.get(&id) {
                Some(p) => {
                    assert(t.panes[id] == p@);
                    r.push((id, p.rect));
                },
                None => {},
            }
            i += 1;
            assert(t.ws().panes.take(i as int).drop_last() =~= t.ws().panes.take(i - 1));
        }
        assert(t.ws().panes.take(n as int) =~= t.ws().panes);
        r
    }

    /// Where the embedded panes of the active workspace are.
    pub fn embedded_rects(&self) -> (r: Vec<(String, Rect)>)
        requires
            self@.wf(),
        ensures
            named_rects_view(r@) == embedded_seen(self@.panes, self@.ws().panes),
    {
        let ghost t = self@;
        let a: usize = self.active_ws;
        assert(t.ws() == self.workspaces@[a as int]@);
        let n: usize = self.workspaces[a].panes.len();
        let mut r: Vec<(String, Rect)> = Vec::new();
        let mut i: usize = 0;
        assert(named_rects_view(r@) =~= embedded_seen(t.panes, t.ws().panes.take(0)));
        while i < n
            invariant
                t == self@,
                a == self.active_ws,
                a < self.workspaces@.len(),
                t.ws() == self.workspaces@[a as int]@,
                n == t.ws().panes.len(),
                i <= n,
                named_rects_view(r@) == embedded_seen(t.panes, t.ws().panes.take(i as int)),
            decreases n - i,
        {
            let ghost before = r@;
            let id: PaneId = self.workspaces[a].panes[i];
            match self.panes.get(&id) {
                Some(p) => {
                    assert(t.panes[id] == p@);
                    if let PaneContent::Embedded { app_id } = &p.content {
                        r.push((app_id.clone(), p.rect));
                        assert(named_rects_view(r@) =~= named_rects_view(before).push(
                            (app_id@, p.rect),
                        ));
                    }
                },
                None => {},
            }
            i += 1;
            assert(t.ws().panes.take(i as int).drop_last() =~= t.ws().panes.take(i - 1));
        }
        assert(t.ws().panes.take(n as int) =~= t.ws().panes);
        r
    }

    fn snap_panes(&self, ids: &Vec<PaneId>) -> (r: Vec<PaneSnap>)
        ensures
            snaps_view(r@) == panes_seen(self@.panes, ids@),
    {
        let ghost t = self@;
        let mut r: Vec<PaneSnap> = Vec::new();
        let mut i: usize = 0;
        assert(snaps_view(r@) =~= panes_seen(t.panes, ids@.take(0)));
        while i < ids.len()
            invariant
                t == self@,
                i <= ids.len(),
                snaps_view(r@) == panes_seen(t.panes, ids@.take(i as int)),
            decreases ids.len() - i,
        {
            let ghost before = r@;
            let id: PaneId = ids[i];
            match self.panes.get(&id) {
                Some(p) => {
                    assert(t.panes[id] == p@);
                    let s = PaneSnap {
                        id: p.id,
                        rect: p.rect,
                        title: p.content.title().to_owned(),
                        app_id: p.content.app_id().to_owned(),
                        fullscreen: p.fullscreen,
                        floating: p.floating,
                        is_embedded: p.content.is_embedded(),
                    };
                    r.push(s);
                    assert(snaps_view(r@) =~= snaps_view(before).push(s@));
                },
                None => {},
            }
            i += 1;
            assert(ids@.take(i as int).drop_last() =~= ids@.take(i - 1));
        }
        assert(ids@.take(i as int) =~= ids@);
        r
    }

    /// What there is to draw.
    pub fn snapshot(&self) -> (r: TwmSnapshot)
        requires
            self@.wf(),
        ensures
            r.workspaces@.len() == self@.workspaces.len(),
            forall|i: int|
                0 <= i < r.workspaces@.len() ==> (#[trigger] r.workspaces@[i]).shows(
                    self@.workspaces[i],
                    self@.panes,
                ),
            r.active_ws == self@.active,
            r.bar_rect == (if self@.bar_visible {
                self@.bar
            } else {
                no_rect()
            }),
            r.screen_rect == self@.screen(),
            r.focused_id == self@.ws().focused,
    {
        let mut out: Vec<WsSnap> = Vec::new();
        let mut i: usize = 0;
        while i < self.workspaces.len()
            invariant
                i <= self.workspaces@.len(),
                out@.len() == i,
                forall|k: int|
                    0 <= k < i ==> (#[trigger] out@[k]).shows(self@.workspaces[k], self@.panes),
            decreases self.workspaces@.len() - i,
        {
            let w = &self.workspaces[i];
            assert(self@.workspaces[i as int] == w@);
            let s = WsSnap {
                index: w.index,
                panes: self.snap_panes(&w.panes),
                focused: w.focused,
                layout: w.layout.label(),
                occupied: w.panes.len() > 0,
            };
            out.push(s);
            i += 1;
        }
        TwmSnapshot {
            workspaces: out,
            active_ws: self.active_ws,
            bar_rect: if self.bar_visible {
                self.bar_rect
            } else {
                Rect::default()
            },
            screen_rect: Rect::new(0, 0, self.screen_w, self.screen_h),
            focused_id: self.focused_id(),
        }
    }
}

proof fn lemma_round(a: int, n: int)
    requires
        0 <= a < n,
    ensures
        (a + 1) % n == if a == n - 1 {
            0
        } else {
            a + 1
        },
        (a + n - 1) % n == if a == 0 {
            n - 1
        } else {
            a - 1
        },
{
    if a == n - 1 {
        assert(n % n == 0) by (nonlinear_arith)
            requires
                n > 0,
        ;
    } else {
        vstd::arithmetic::div_mod::lemma_small_mod((a + 1) as nat, n as nat);
    }
    if a == 0 {
        vstd::arithmetic::div_mod::lemma_small_mod((n - 1) as nat, n as nat);
    } else {
        vstd::arithmetic::div_mod::lemma_mod_add_multiples_vanish(a - 1, n);
        vstd::arithmetic::div_mod::lemma_small_mod((a - 1) as nat, n as nat);
    }
}

// ── Snapshots ────────────────────────────────────────────────────────────────

#[derive(Debug)]
pub struct TwmSnapshot {
    pub workspaces: Vec<WsSnap>,
    pub active_ws: usize,
    pub bar_rect: Rect,
    pub screen_rect: Rect,
    pub focused_id: Option<PaneId>,
}

impl Default for TwmSnapshot {
    fn default() -> (r: Self)
        ensures
            r.workspaces@.len() == 0,
            r.active_ws == 0,
            r.bar_rect == no_rect(),
            r.screen_rect == no_rect(),
            r.focused_id is None,
    {
        TwmSnapshot {
            workspaces: Vec::new(),
            active_ws: 0,
            bar_rect: Rect::default(),
            screen_rect: Rect::default(),
            focused_id: None,
        }
    }
}

#[derive(Debug)]
pub struct WsSnap {
    pub index: usize,
    pub panes: Vec<PaneSnap>,
    pub focused: Option<PaneId>,
    pub layout: &'static str,
    pub occupied: bool,
}

#[derive(Debug)]
pub struct PaneSnap {
    pub id: PaneId,
    pub rect: Rect,
    pub title: String,
    pub app_id: String,
    pub fullscreen: bool,
    pub floating: bool,
    pub is_embedded: bool,
}

/// What a [`PaneSnap`] holds.
pub struct SnapView {
    pub id: PaneId,
    pub rect: Rect,
    pub title: Seq<char>,
    pub app_id: Seq<char>,
    pub fullscreen: bool,
    pub floating: bool,
    pub is_embedded: bool,
}

impl View for PaneSnap {
    type V = SnapView;

    open spec fn view(&self) -> SnapView {
        SnapView {
            id: self.id,
            rect: self.rect,
            title: self.title@,
            app_id: self.app_id@,
            fullscreen: self.fullscreen,
            floating: self.floating,
            is_embedded: self.is_embedded,
        }
    }
}

pub open spec fn snaps_view(v: Seq<PaneSnap>) -> Seq<SnapView> {
    Seq::new(v.len(), |i: int| v[i]@)
}

/// What a snapshot shows of a pane.
pub open spec fn snap_of(p: PaneView) -> SnapView {
    SnapView {
        id: p.id,
        rect: p.rect,
        title: p.content.name(),
        app_id: p.content.app(),
        fullscreen: p.fullscreen,
        floating: p.floating,
        is_embedded: p.content is Embedded,
    }
}

/// What a snapshot shows of the panes `ids`, as far as they exist.
pub open spec fn panes_seen(panes: Map<PaneId, PaneView>, ids: Seq<PaneId>) -> Seq<SnapView>
    decreases ids.len(),
{
    if ids.len() == 0 {
        Seq::empty()
    } else {
        let before = panes_seen(panes, ids.drop_last());
        if panes.contains_key(ids.last()) {
            before.push(snap_of(panes[ids.last()]))
        } else {
            before
        }
    }
}

/// The rectangles of the panes `ids`, as far as they exist.
pub open spec fn rects_seen(panes: Map<PaneId, PaneView>, ids: Seq<PaneId>) -> Seq<(PaneId, Rect)>
    decreases ids.len(),
{
    if ids.len() == 0 {
        Seq::empty()
    } else {
        let before = rects_seen(panes, ids.drop_last());
        if panes.contains_key(ids.last()) {
            before.push((ids.last(), panes[ids.last()].rect))
        } else {
            before
        }
    }
}

pub open spec fn named_rects_view(v: Seq<(String, Rect)>) -> Seq<(Seq<char>, Rect)> {
    Seq::new(v.len(), |i: int| (v[i].0@, v[i].1))
}

/// The app ids and rectangles of the embedded panes among `ids`.
pub open spec fn embedded_seen(panes: Map<PaneId, PaneView>, ids: Seq<PaneId>) -> Seq<
    (Seq<char>, Rect),
>
    decreases ids.len(),
{
    if ids.len() == 0 {
        Seq::empty()
    } else {
        let before = embedded_seen(panes, ids.drop_last());
        let id = ids.last();
        if panes.contains_key(id) {
            match panes[id].content {
                ContentView::Embedded { app_id } => before.push((app_id, panes[id].rect)),
                _ => before,
            }
        } else {
            before
        }
    }
}

impl WsSnap {
    /// Whether the snapshot shows the workspace `w`.
    pub open spec fn shows(&self, w: WsView, panes: Map<PaneId, PaneView>) -> bool {
        &&& self.index == w.index
        &&& snaps_view(self.panes@) == panes_seen(panes, w.panes)
        &&& self.focused == w.focused
        &&& self.layout@ == w.layout.spec_label()
        &&& self.occupied == (w.panes.len() > 0)
    }
}

} // verus!
