//! The window manager of the desktop: the tiling state, by windows.

use vstd::prelude::*;
use std::collections::{HashMap, HashSet};

use crate::desk::script::WmConfig;
use crate::desk::windows::{
    spaces_view, windows_view, Area, Desk, DeskView, Space, SpaceView, Window, WindowId, WindowView,
};
use crate::text::same;
use crate::twm::laws::law_reflow_only_moves;
use crate::twm::layout::Layout;
use crate::twm::pane::{
    fresh_ws, lemma_without, put_pane, take_pane, PaneView, Workspace, WsView,
};
use crate::twm::rect::Rect;
use crate::twm::state::{
    closed, dispatched, opened, reflowed, resplit, shell_content, split_screen, TwmAction,
    TwmState, TwmView,
};

verus! {

broadcast use vstd::std_specs::hash::group_hash_axioms;

/// The windows, their settings, and what is known of them besides their places.
pub struct WmState {
    pub twm: TwmState,
    pub config: WmConfig,
    pub app_ids: HashMap<WindowId, String>,
    pub maximized: HashSet<WindowId>,
}

/// The layout of this name; one that means nothing is the first.
pub open spec fn layout_of(name: Seq<char>) -> Layout {
    if name == "columns"@ {
        Layout::Columns
    } else if name == "rows"@ {
        Layout::Rows
    } else if name == "monocle"@ {
        Layout::Monocle
    } else if name == "threecol"@ {
        Layout::ThreeCol
    } else {
        Layout::Bsp
    }
}

pub fn layout_named(name: &str) -> (r: Layout)
    ensures
        r == layout_of(name@),
{
    if same(name, "columns") {
        Layout::Columns
    } else if same(name, "rows") {
        Layout::Rows
    } else if same(name, "monocle") {
        Layout::Monocle
    } else if same(name, "threecol") {
        Layout::ThreeCol
    } else {
        Layout::Bsp
    }
}

/// A length on a screen.
pub open spec fn length(n: u32) -> i32 {
    if n <= i32::MAX {
        n as i32
    } else {
        i32::MAX
    }
}

pub open spec fn area_of(r: Rect) -> Area {
    Area { x: length(r.x), y: length(r.y), w: length(r.w), h: length(r.h) }
}

fn to_length(n: u32) -> (r: i32)
    ensures
        r == length(n),
{
    if n <= 0x7FFF_FFFF {
        n as i32
    } else {
        i32::MAX
    }
}

fn to_area(r: Rect) -> (a: Area)
    ensures
        a == area_of(r),
{
    Area { x: to_length(r.x), y: to_length(r.y), w: to_length(r.w), h: to_length(r.h) }
}

/// A pane as a window of a workspace.
pub open spec fn window_of(
    p: PaneView,
    id: WindowId,
    workspace: int,
    app_ids: Map<WindowId, String>,
    maximized: Set<WindowId>,
) -> WindowView {
    WindowView {
        id,
        app_id: if app_ids.contains_key(id) {
            app_ids[id]@
        } else {
            Seq::empty()
        },
        title: p.content.name(),
        workspace: workspace as usize,
        rect: area_of(p.rect),
        floating: p.floating,
        fullscreen: p.fullscreen,
        maximized: maximized.contains(id),
    }
}

/// The windows of the first `n` panes of the workspace `k`, as far as they exist.
pub open spec fn windows_in(
    t: TwmView,
    k: int,
    n: int,
    app_ids: Map<WindowId, String>,
    maximized: Set<WindowId>,
) -> Seq<WindowView>
    decreases n,
{
    if n <= 0 {
        Seq::empty()
    } else {
        let before = windows_in(t, k, n - 1, app_ids, maximized);
        let id = t.workspaces[k].panes[n - 1];
        if t.panes.contains_key(id) {
            before.push(window_of(t.panes[id], id, k, app_ids, maximized))
        } else {
            before
        }
    }
}

/// The windows of the first `k` workspaces.
pub open spec fn windows_of(
    t: TwmView,
    k: int,
    app_ids: Map<WindowId, String>,
    maximized: Set<WindowId>,
) -> Seq<WindowView>
    decreases k,
{
    if k <= 0 {
        Seq::empty()
    } else {
        windows_of(t, k - 1, app_ids, maximized) + windows_in(
            t,
            k - 1,
            t.workspaces[k - 1].panes.len() as int,
            app_ids,
            maximized,
        )
    }
}

pub open spec fn space_of(w: WsView) -> SpaceView {
    SpaceView { focused: w.focused, windows: w.panes, monocle: w.layout == Layout::Monocle }
}

/// The state with the pane `id` on the whole screen, or no longer.
pub open spec fn with_fullscreen(t: TwmView, id: WindowId, on: bool) -> TwmView {
    if t.panes.contains_key(id) {
        reflowed(
            TwmView {
                panes: t.panes.insert(id, PaneView { fullscreen: on, ..t.panes[id] }),
                ..t
            },
        )
    } else {
        t
    }
}

/// The state with the pane `id` floating, or no longer. One that floats for the
/// first time stays where it is.
pub open spec fn with_float(t: TwmView, id: WindowId, on: bool) -> TwmView {
    if t.panes.contains_key(id) {
        let p = t.panes[id];
        let at = if p.float_rect.empty() {
            p.rect
        } else {
            p.float_rect
        };
        let q = if on && !p.floating {
            PaneView { floating: true, rect: at, float_rect: at, ..p }
        } else {
            PaneView { floating: on, ..p }
        };
        reflowed(TwmView { panes: t.panes.insert(id, q), ..t })
    } else {
        t
    }
}

/// The state with the pane `id` on the workspace `k` and on no other.
pub open spec fn put_on(t: TwmView, id: WindowId, k: int) -> TwmView {
    if t.panes.contains_key(id) && k < t.workspaces.len() {
        let spaces = Seq::new(t.workspaces.len(), |i: int| t.workspaces[i].left_by(id));
        let w = spaces[k];
        reflowed(
            TwmView {
                workspaces: spaces.update(
                    k,
                    WsView { panes: w.panes.push(id), focused: Some(id), ..w },
                ),
                ..t
            },
        )
    } else {
        t
    }
}

/// The state with another layout on the workspace `k`.
pub open spec fn with_layout(t: TwmView, k: int, layout: Layout) -> TwmView {
    if k < t.workspaces.len() {
        reflowed(
            TwmView {
                workspaces: t.workspaces.update(k, WsView { layout, ..t.workspaces[k] }),
                ..t
            },
        )
    } else {
        t
    }
}

/// The action that moves the focus in a direction, by its number.
pub open spec fn focus_action(direction: u8) -> TwmAction {
    if direction == 1 {
        TwmAction::FocusRight
    } else if direction == 2 {
        TwmAction::FocusUp
    } else if direction == 3 {
        TwmAction::FocusDown
    } else {
        TwmAction::FocusLeft
    }
}

/// The number of workspaces that settings ask for: at least one, at most 255.
pub open spec fn spaces_asked(c: WmConfig) -> u8 {
    if c.workspaces_count < 1 {
        1
    } else if c.workspaces_count > 255 {
        255
    } else {
        c.workspaces_count as u8
    }
}

/// A state without panes on a screen of this size.
pub open spec fn fresh(c: WmConfig, w: u32, h: u32) -> TwmView {
    let (content, bar) = split_screen(w, h, c.bar_height, c.bar_at_bottom, c.outer_gap);
    TwmView {
        panes: Map::empty(),
        workspaces: Seq::new(spaces_asked(c) as nat, |i: int| fresh_ws(i as usize, c.gap)),
        active: 0,
        screen_w: w,
        screen_h: h,
        content,
        bar,
        bar_visible: true,
        gap: c.gap,
        border_w: c.border_w,
        padding: c.outer_gap,
        count: spaces_asked(c),
        pads: Seq::empty(),
        next_id: 1,
    }
}

pub open spec fn is_bare(t: TwmView) -> bool {
    forall|id: WindowId| !(#[trigger] t.panes.contains_key(id))
}

/// The state once settings take effect. The number of workspaces stays as it is
/// while windows are open.
pub open spec fn with_config(t: TwmView, c: WmConfig) -> TwmView {
    if is_bare(t) {
        fresh(c, t.screen_w, t.screen_h)
    } else {
        reflowed(
            resplit(
                TwmView { gap: c.gap, border_w: c.border_w, padding: c.outer_gap, ..t },
                c.bar_height,
                c.bar_at_bottom,
            ),
        )
    }
}

fn tiles(c: &WmConfig, w: u32, h: u32) -> (r: TwmState)
    ensures
        r@.wf(),
        r@ == fresh(*c, w, h),
{
    let n: u8 = if c.workspaces_count < 1 {
        1
    } else if c.workspaces_count > 255 {
        255
    } else {
        c.workspaces_count as u8
    };
    TwmState::new(w, h, c.bar_height, c.bar_at_bottom, c.gap, c.border_w, c.outer_gap, n)
}

fn push_windows(out: &mut Vec<Window>, wm: &WmState, k: usize)
    requires
        k < wm.twm@.workspaces.len(),
    ensures
        windows_view(final(out)@) == windows_view(old(out)@) + windows_in(
            wm.twm@,
            k as int,
            wm.twm@.workspaces[k as int].panes.len() as int,
            wm.app_ids@,
            wm.maximized@,
        ),
{
    let ghost t = wm.twm@;
    let ghost first = windows_view(old(out)@);
    assert(t.workspaces[k as int] == wm.twm.workspaces@[k as int]@);
    let n: usize = wm.twm.workspaces[k].panes.len();
    let mut i: usize = 0;
    assert(windows_view(out@) =~= first + windows_in(t, k as int, 0, wm.app_ids@, wm.maximized@));
    while i < n
        invariant
            i <= n,
            t == wm.twm@,
            k < wm.twm.workspaces@.len(),
            t.workspaces[k as int] == wm.twm.workspaces@[k as int]@,
            n == wm.twm.workspaces@[k as int].panes@.len(),
            windows_view(out@) == first + windows_in(
                t,
                k as int,
                i as int,
                wm.app_ids@,
                wm.maximized@,
            ),
        decreases n - i,
    {
        let id: WindowId = wm.twm.workspaces[k].panes[i];
        assert(t.workspaces[k as int].panes[i as int] == id);
        if let Some(p) = wm.twm.panes.get(&id) {
            assert(t.panes[id] == p@);
            let app_id = match wm.app_ids.get(&id) {
                Some(a) => a.clone(),
                None => {
                    let none = String::new();
                    assert(none@ =~= Seq::<char>::empty());
                    none
                },
            };
            let w = Window {
                id,
                app_id,
                title: p.content.title().to_owned(),
                workspace: k,
                rect: to_area(p.rect),
                floating: p.floating,
                fullscreen: p.fullscreen,
                maximized: wm.maximized.contains(&id),
            };
            let ghost wv = w@;
            let ghost before = out@;
            assert(wv == window_of(t.panes[id], id, k as int, wm.app_ids@, wm.maximized@));
            out.push(w);
            assert(windows_view(out@) =~= windows_view(before).push(wv));
        }
        i += 1;
        assert(windows_view(out@) =~= first + windows_in(
            t,
            k as int,
            i as int,
            wm.app_ids@,
            wm.maximized@,
        ));
    }
}

impl WmState {
    /// A desktop without windows on a screen of this size.
    pub fn new(config: WmConfig, w: u32, h: u32) -> (r: Self)
        ensures
            r.twm@.wf(),
            r.twm@ == fresh(config, w, h),
            r.config == config,
            r.app_ids@ == Map::<WindowId, String>::empty(),
            r.maximized@ == Set::<WindowId>::empty(),
    {
        WmState {
            twm: tiles(&config, w, h),
            config,
            app_ids: HashMap::new(),
            maximized: HashSet::new(),
        }
    }

    /// What there is to see: the windows of each workspace, in their order.
    pub fn desk(&self) -> (r: Desk)
        requires
            self.twm@.wf(),
        ensures
            r@ == (DeskView {
                windows: windows_of(
                    self.twm@,
                    self.twm@.workspaces.len() as int,
                    self.app_ids@,
                    self.maximized@,
                ),
                spaces: Seq::new(
                    self.twm@.workspaces.len(),
                    |k: int| space_of(self.twm@.workspaces[k]),
                ),
                active: self.twm@.active,
                border: self.config.border_w,
            }),
    {
        let ghost t = self.twm@;
        let mut windows: Vec<Window> = Vec::new();
        let mut spaces: Vec<Space> = Vec::new();
        let mut k: usize = 0;
        assert(windows_view(windows@) =~= Seq::empty());
        while k < self.twm.workspaces.len()
            invariant
                k <= self.twm.workspaces@.len(),
                t == self.twm@,
                windows_view(windows@) == windows_of(t, k as int, self.app_ids@, self.maximized@),
                spaces@.len() == k,
                forall|i: int| 0 <= i < k ==> (#[trigger] spaces@[i])@ == space_of(t.workspaces[i]),
            decreases self.twm.workspaces@.len() - k,
        {
            let ws: &Workspace = &self.twm.workspaces[k];
            assert(t.workspaces[k as int] == ws@);
            let s = Space {
                focused: ws.focused,
                windows: ws.panes.clone(),
                monocle: ws.layout == Layout::Monocle,
            };
            assert(s.windows@ =~= ws.panes@);
            spaces.push(s);
            push_windows(&mut windows, self, k);
            k += 1;
        }
        assert(spaces_view(spaces@) =~= Seq::new(
            t.workspaces.len(),
            |k: int| space_of(t.workspaces[k]),
        ));
        Desk { windows, spaces, active: self.twm.active_ws, border: self.config.border_w }
    }

    /// A window opens on the workspace that is shown.
    pub fn add_window(&mut self) -> (r: WindowId)
        requires
            old(self).twm@.wf(),
        ensures
            final(self).twm@ == opened(old(self).twm@, shell_content(Seq::empty())),
            final(self).twm@.wf(),
            r == old(self).twm@.next_id,
            final(self).config == old(self).config,
            final(self).app_ids@ == old(self).app_ids@,
            final(self).maximized@ == old(self).maximized@,
    {
        assert(""@ =~= Seq::<char>::empty()) by {
            reveal_strlit("");
        }
        self.twm.open_shell("")
    }

    /// A window is gone, and all that is known of it.
    pub fn remove_window(&mut self, id: WindowId)
        requires
            old(self).twm@.wf(),
        ensures
            final(self).twm@ == closed(old(self).twm@, id),
            final(self).twm@.wf(),
            final(self).config == old(self).config,
            final(self).app_ids@ == old(self).app_ids@.remove(id),
            final(self).maximized@ == old(self).maximized@.remove(id),
    {
        self.app_ids.remove(&id);
        self.maximized.remove(&id);
        self.twm.close_pane(id);
    }

    /// Whether a window is as large as it can be.
    pub fn set_maximized(&mut self, id: WindowId, on: bool)
        ensures
            final(self).twm == old(self).twm,
            final(self).config == old(self).config,
            final(self).app_ids@ == old(self).app_ids@,
            final(self).maximized@ == (if on {
                old(self).maximized@.insert(id)
            } else {
                old(self).maximized@.remove(id)
            }),
    {
        if on {
            self.maximized.insert(id);
        } else {
            self.maximized.remove(&id);
        }
    }

    /// Whether a window fills the screen.
    pub fn fullscreen_window(&mut self, id: WindowId, on: bool)
        requires
            old(self).twm@.wf(),
        ensures
            final(self).twm@ == with_fullscreen(old(self).twm@, id, on),
            final(self).twm@.wf(),
            final(self).config == old(self).config,
            final(self).app_ids@ == old(self).app_ids@,
            final(self).maximized@ == old(self).maximized@,
    {
        let ghost t = self.twm@;
        match take_pane(&mut self.twm.panes, id) {
            Some(mut p) => {
                p.fullscreen = on;
                put_pane(&mut self.twm.panes, id, p);
                assert(self.twm@.panes =~= t.panes.insert(
                    id,
                    PaneView { fullscreen: on, ..t.panes[id] },
                ));
                self.twm.reflow();
            },
            None => {
                assert(self.twm@.panes =~= t.panes);
            },
        }
    }

    /// Whether a window floats.
    pub fn set_float(&mut self, id: WindowId, on: bool)
        requires
            old(self).twm@.wf(),
        ensures
            final(self).twm@ == with_float(old(self).twm@, id, on),
            final(self).twm@.wf(),
            final(self).config == old(self).config,
            final(self).app_ids@ == old(self).app_ids@,
            final(self).maximized@ == old(self).maximized@,
    {
        let ghost t = self.twm@;
        match take_pane(&mut self.twm.panes, id) {
            Some(mut p) => {
                if on && !p.floating {
                    if p.float_rect.is_empty() {
                        p.float_rect = p.rect;
                    }
                    p.rect = p.float_rect;
                }
                p.floating = on;
                let ghost q = p@;
                put_pane(&mut self.twm.panes, id, p);
                assert(self.twm@.panes =~= t.panes.insert(id, q));
                self.twm.reflow();
            },
            None => {
                assert(self.twm@.panes =~= t.panes);
            },
        }
    }

    /// A window that floats no longer does, and the other way round.
    pub fn toggle_float(&mut self, id: WindowId)
        requires
            old(self).twm@.wf(),
        ensures
            final(self).twm@ == (if old(self).twm@.panes.contains_key(id) {
                with_float(old(self).twm@, id, !old(self).twm@.panes[id].floating)
            } else {
                old(self).twm@
            }),
            final(self).twm@.wf(),
            final(self).config == old(self).config,
            final(self).app_ids@ == old(self).app_ids@,
            final(self).maximized@ == old(self).maximized@,
    {
        let on = match self.twm.panes.get(&id) {
            Some(p) => {
                assert(self.twm@.panes[id] == p@);
                !p.floating
            },
            None => {
                return;
            },
        };
        self.set_float(id, on);
    }

    /// A window goes to another workspace, where it gets the focus.
    pub fn move_to_workspace(&mut self, id: WindowId, index: usize)
        requires
            old(self).twm@.wf(),
        ensures
            final(self).twm@ == put_on(old(self).twm@, id, index as int),
            final(self).twm@.wf(),
            final(self).config == old(self).config,
            final(self).app_ids@ == old(self).app_ids@,
            final(self).maximized@ == old(self).maximized@,
    {
        let ghost t = self.twm@;
        if !self.twm.panes.contains_key(&id) || index >= self.twm.workspaces.len() {
            return;
        }
        self.twm.leave_all(id);
        let ghost spaces = self.twm@.workspaces;
        assert(spaces[index as int] == self.twm.workspaces@[index as int]@);
        self.twm.workspaces[index].panes.push(id);
        self.twm.workspaces[index].focused = Some(id);
        proof {
            let w = spaces[index as int];
            let v = WsView { panes: w.panes.push(id), focused: Some(id), ..w };
            assert(self.twm@.workspaces =~= spaces.update(index as int, v));
        }
        self.twm.reflow();
    }

    /// Another workspace is shown; the last one where there are not so many.
    pub fn switch_workspace(&mut self, index: usize)
        requires
            old(self).twm@.wf(),
        ensures
            final(self).twm@ == dispatched(
                old(self).twm@,
                TwmAction::Workspace(
                    if index < 255 {
                        (index + 1) as u8
                    } else {
                        255
                    },
                ),
            ),
            final(self).twm@.wf(),
            final(self).config == old(self).config,
            final(self).app_ids@ == old(self).app_ids@,
            final(self).maximized@ == old(self).maximized@,
    {
        let n: u8 = if index < 255 {
            (index + 1) as u8
        } else {
            255
        };
        self.twm.dispatch(TwmAction::Workspace(n));
    }

    /// A workspace gets the layout of this name.
    pub fn set_layout(&mut self, index: usize, name: &str)
        requires
            old(self).twm@.wf(),
        ensures
            final(self).twm@ == with_layout(old(self).twm@, index as int, layout_of(name@)),
            final(self).twm@.wf(),
            final(self).config == old(self).config,
            final(self).app_ids@ == old(self).app_ids@,
            final(self).maximized@ == old(self).maximized@,
    {
        let ghost t = self.twm@;
        if index >= self.twm.workspaces.len() {
            return;
        }
        let layout = layout_named(name);
        assert(t.workspaces[index as int] == self.twm.workspaces@[index as int]@);
        self.twm.workspaces[index].layout = layout;
        assert(self.twm@.workspaces =~= t.workspaces.update(
            index as int,
            WsView { layout, ..t.workspaces[index as int] },
        ));
        self.twm.reflow();
    }

    /// The focus moves in a direction, by its number.
    pub fn focus_direction(&mut self, direction: u8)
        requires
            old(self).twm@.wf(),
        ensures
            final(self).twm@ == dispatched(old(self).twm@, focus_action(direction)),
            final(self).twm@.wf(),
            final(self).config == old(self).config,
            final(self).app_ids@ == old(self).app_ids@,
            final(self).maximized@ == old(self).maximized@,
    {
        let action = if direction == 1 {
            TwmAction::FocusRight
        } else if direction == 2 {
            TwmAction::FocusUp
        } else if direction == 3 {
            TwmAction::FocusDown
        } else {
            TwmAction::FocusLeft
        };
        self.twm.dispatch(action);
    }

    /// The focus goes on by `delta` windows, round and round.
    pub fn cycle_focus(&mut self, delta: i32)
        requires
            old(self).twm@.wf(),
        ensures
            final(self).twm@ == old(self).twm@.with_ws(
                old(self).twm@.ws().cycled(delta as int),
            ),
            final(self).twm@.wf(),
            final(self).config == old(self).config,
            final(self).app_ids@ == old(self).app_ids@,
            final(self).maximized@ == old(self).maximized@,
    {
        let ghost t = self.twm@;
        let a: usize = self.twm.active_ws;
        assert(t.ws() == self.twm.workspaces@[a as int]@);
        self.twm.workspaces[a].cycle_focus(delta);
        assert(self.twm@.workspaces =~= t.workspaces.update(t.active, t.ws().cycled(delta as int)));
    }

    /// Settings take effect. The number of workspaces stays as it is while windows
    /// are open.
    pub fn apply_config(&mut self, config: WmConfig)
        requires
            old(self).twm@.wf(),
        ensures
            final(self).config == config,
            final(self).twm@ == with_config(old(self).twm@, config),
            final(self).twm@.wf(),
            final(self).app_ids@ == old(self).app_ids@,
            final(self).maximized@ == old(self).maximized@,
    {
        let ghost t = self.twm@;
        if self.twm.panes.len() == 0 {
            assert(self.twm.panes@.dom() =~= Set::empty());
            assert forall|id: WindowId| !(#[trigger] t.panes.contains_key(id)) by {
                assert(!self.twm.panes@.dom().contains(id));
            }
            self.twm = tiles(&config, self.twm.screen_w, self.twm.screen_h);
        } else {
            proof {
                let some = self.twm.panes@.dom().choose();
                assert(self.twm.panes@.dom().contains(some));
                assert(t.panes.contains_key(some));
            }
            self.twm.gap = config.gap;
            self.twm.border_w = config.border_w;
            self.twm.padding = config.outer_gap;
            self.twm.set_bar_height(config.bar_height, config.bar_at_bottom);
        }
        self.config = config;
    }
}

/// A window that goes to a workspace is on that one and on no other.
pub proof fn law_moved_window_is_on_one_workspace(t: TwmView, id: WindowId, k: int, i: int)
    requires
        t.panes.contains_key(id),
        0 <= k < t.workspaces.len(),
        0 <= i < t.workspaces.len(),
    ensures
        put_on(t, id, k).workspaces[i].panes.contains(id) <==> i == k,
        put_on(t, id, k).workspaces[k].focused == Some(id),
{
    let spaces = Seq::new(t.workspaces.len(), |i: int| t.workspaces[i].left_by(id));
    let w = spaces[k];
    let v = WsView { panes: w.panes.push(id), focused: Some(id), ..w };
    law_reflow_only_moves(TwmView { workspaces: spaces.update(k, v), ..t });
    lemma_without(t.workspaces[i].panes, id);
    assert(v.panes[w.panes.len() as int] == id);
}

} // verus!
