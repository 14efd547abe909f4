//! The state of the desktop around the windows.

use vstd::prelude::*;

use crate::chrome::app::shown_panes;
use crate::chrome::bar::{layout_name, layout_shown};
use crate::config::settings::Config;
use crate::render::scene::{ScreenRect, WindowInfo};
use crate::text::chars_of;
use crate::twm::pane::PaneId;
use crate::twm::state::{snaps_view, SnapView, TwmSnapshot};

verus! {

/// What the compositor tells the desktop.
#[derive(Debug)]
pub enum DeMsg {
    /// What there is to draw.
    Snapshot(TwmSnapshot),
    /// The time, as it is to be shown.
    ClockTick(String),
}

pub struct TrixieDE {
    pub snapshot: TwmSnapshot,
    pub clock: String,
    pub config: Config,
}

impl TrixieDE {
    pub fn new(config: Config) -> (r: Self)
        ensures
            r.config == config,
            r.snapshot.workspaces@.len() == 0,
            r.snapshot.active_ws == 0,
            r.snapshot.focused_id is None,
            r.clock@ == Seq::<char>::empty(),
    {
        let clock = String::new();
        assert(clock@ =~= Seq::<char>::empty());
        TrixieDE { snapshot: TwmSnapshot::default(), clock, config }
    }

    /// Takes in a message.
    pub fn update(&mut self, msg: DeMsg)
        ensures
            *final(self) == match msg {
                DeMsg::Snapshot(s) => TrixieDE { snapshot: s, ..*old(self) },
                DeMsg::ClockTick(t) => TrixieDE { clock: t, ..*old(self) },
            },
    {
        match msg {
            DeMsg::Snapshot(s) => {
                self.snapshot = s;
            },
            DeMsg::ClockTick(t) => {
                self.clock = t;
            },
        }
    }
}

/// A part of the bar.
#[derive(Debug)]
pub enum DeItem {
    Workspace { index: usize, active: bool, occupied: bool },
    Separator,
    Layout(String),
    Text(String),
    Clock(String),
}

/// What a [`DeItem`] holds.
pub enum DeView {
    Workspace { index: usize, active: bool, occupied: bool },
    Separator,
    Layout(Seq<char>),
    Text(Seq<char>),
    Clock(Seq<char>),
}

impl View for DeItem {
    type V = DeView;

    open spec fn view(&self) -> DeView {
        match *self {
            DeItem::Workspace { index, active, occupied } => DeView::Workspace {
                index,
                active,
                occupied,
            },
            DeItem::Separator => DeView::Separator,
            DeItem::Layout(s) => DeView::Layout(s@),
            DeItem::Text(s) => DeView::Text(s@),
            DeItem::Clock(s) => DeView::Clock(s@),
        }
    }
}

pub open spec fn de_items_view(v: Seq<DeItem>) -> Seq<DeView> {
    Seq::new(v.len(), |i: int| v[i]@)
}

/// The bar, from the left to the right.
#[derive(Debug)]
pub struct DeBar {
    pub left: Vec<DeItem>,
    pub center: Vec<DeItem>,
    pub right: Vec<DeItem>,
}

/// A window with its decoration.
#[derive(Debug)]
pub struct DePane {
    pub rect: ScreenRect,
    pub title: String,
    pub focused: bool,
    pub border_w: u32,
}

/// What a [`DePane`] holds.
pub struct DePaneView {
    pub rect: ScreenRect,
    pub title: Seq<char>,
    pub focused: bool,
    pub border_w: u32,
}

impl View for DePane {
    type V = DePaneView;

    open spec fn view(&self) -> DePaneView {
        DePaneView {
            rect: self.rect,
            title: self.title@,
            focused: self.focused,
            border_w: self.border_w,
        }
    }
}

/// What is drawn: the bar, and a decoration for each window.
#[derive(Debug)]
pub struct DeFrame {
    pub bar: DeBar,
    pub panes: Vec<DePane>,
}

/// The decoration of a window.
pub open spec fn decorated(w: WindowInfo, border_w: u32) -> DePaneView {
    DePaneView { rect: w.rect, title: w.title@, focused: w.focused, border_w }
}

/// The title of the first of `panes` that is `id`; empty where there is none.
pub open spec fn title_in(panes: Seq<SnapView>, id: Option<PaneId>) -> Seq<char>
    decreases panes.len(),
{
    if panes.len() == 0 {
        Seq::empty()
    } else if Some(panes[0].id) == id {
        panes[0].title
    } else {
        title_in(panes.skip(1), id)
    }
}

/// The title of the pane with the focus.
pub open spec fn focused_title(snap: TwmSnapshot) -> Seq<char> {
    title_in(shown_panes(snap), snap.focused_id)
}

/// The workspaces of a snapshot.
pub open spec fn workspaces_in(snap: TwmSnapshot) -> Seq<DeView> {
    Seq::new(
        snap.workspaces@.len(),
        |i: int|
            DeView::Workspace {
                index: snap.workspaces@[i].index,
                active: snap.workspaces@[i].index == snap.active_ws,
                occupied: snap.workspaces@[i].occupied,
            },
    )
}

fn title_of(snap: &TwmSnapshot) -> (r: String)
    ensures
        r@ == focused_title(*snap),
{
    let none = String::new();
    assert(none@ =~= Seq::<char>::empty());
    if snap.active_ws >= snap.workspaces.len() {
        return none;
    }
    let panes = &snap.workspaces[snap.active_ws].panes;
    let ghost v = snaps_view(panes@);
    let mut i: usize = 0;
    assert(v.skip(0) =~= v);
    while i < panes.len()
        invariant
            i <= panes@.len(),
            v == snaps_view(panes@),
            v == shown_panes(*snap),
            title_in(v.skip(i as int), snap.focused_id) == title_in(v, snap.focused_id),
        decreases panes@.len() - i,
    {
        let p = &panes[i];
        assert(v.skip(i as int)[0] == p@);
        assert(v.skip(i as int).skip(1) =~= v.skip(i + 1));
        if let Some(id) = snap.focused_id {
            if p.id == id {
                return p.title.clone();
            }
        }
        i += 1;
    }
    assert(v.skip(i as int).len() == 0);
    none
}

impl TrixieDE {
    /// What the bar shows: the workspaces and the layout, the title of the pane
    /// with the focus, where it has one, and the time.
    pub fn bar(&self) -> (r: DeBar)
        ensures
            de_items_view(r.left@) == workspaces_in(self.snapshot).push(DeView::Separator).push(
                DeView::Layout(layout_shown(self.snapshot)),
            ),
            de_items_view(r.center@) == (if focused_title(self.snapshot).len() > 0 {
                seq![DeView::Text(focused_title(self.snapshot))]
            } else {
                seq![]
            }),
            de_items_view(r.right@) == seq![DeView::Clock(self.clock@)],
    {
        let snap = &self.snapshot;
        let ghost all = workspaces_in(*snap);
        let mut left: Vec<DeItem> = Vec::new();
        let mut i: usize = 0;
        assert(de_items_view(left@) =~= all.take(0));
        while i < snap.workspaces.len()
            invariant
                i <= snap.workspaces@.len(),
                all == workspaces_in(*snap),
                de_items_view(left@) == all.take(i as int),
            decreases snap.workspaces@.len() - i,
        {
            let ghost before = de_items_view(left@);
            let ws = &snap.workspaces[i];
            left.push(
                DeItem::Workspace {
                    index: ws.index,
                    active: ws.index == snap.active_ws,
                    occupied: ws.occupied,
                },
            );
            assert(de_items_view(left@) =~= before.push(all[i as int]));
            i += 1;
            assert(all.take(i as int) =~= before.push(all[i - 1]));
        }
        assert(all.take(i as int) =~= all);
        let ghost before = de_items_view(left@);
        left.push(DeItem::Separator);
        let layout = layout_name(snap).to_owned();
        let ghost lv = layout@;
        left.push(DeItem::Layout(layout));
        assert(de_items_view(left@) =~= before.push(DeView::Separator).push(DeView::Layout(lv)));
        let title = title_of(snap);
        let ghost tv = title@;
        let mut center: Vec<DeItem> = Vec::new();
        if chars_of(title.as_str()).len() > 0 {
            center.push(DeItem::Text(title));
        }
        assert(de_items_view(center@) =~= if tv.len() > 0 {
            seq![DeView::Text(tv)]
        } else {
            seq![]
        });
        let mut right: Vec<DeItem> = Vec::new();
        right.push(DeItem::Clock(self.clock.clone()));
        assert(de_items_view(right@) =~= seq![DeView::Clock(self.clock@)]);
        DeBar { left, center, right }
    }

    /// The decorations of `windows`, in their order.
    pub fn panes(&self, windows: &Vec<WindowInfo>) -> (r: Vec<DePane>)
        ensures
            r@.len() == windows@.len(),
            forall|i: int|
                0 <= i < windows@.len() ==> (#[trigger] r@[i])@ == decorated(
                    windows@[i],
                    self.config.border_width,
                ),
    {
        let mut r: Vec<DePane> = Vec::new();
        let mut i: usize = 0;
        while i < windows.len()
            invariant
                i <= windows@.len(),
                r@.len() == i,
                forall|k: int|
                    0 <= k < i ==> (#[trigger] r@[k])@ == decorated(
                        windows@[k],
                        self.config.border_width,
                    ),
            decreases windows@.len() - i,
        {
            let w = &windows[i];
            r.push(
                DePane {
                    rect: w.rect,
                    title: w.title.clone(),
                    focused: w.focused,
                    border_w: self.config.border_width,
                },
            );
            i += 1;
        }
        r
    }

    /// What is drawn around `windows`, which are those that do not close: the bar
    /// with the workspaces and the layout, the title of the pane with the focus,
    /// where it has one, and the time; and the decoration of each window.
    pub fn view(&self, windows: &Vec<WindowInfo>) -> (r: DeFrame)
        ensures
            de_items_view(r.bar.left@) == workspaces_in(self.snapshot).push(
                DeView::Separator,
            ).push(DeView::Layout(layout_shown(self.snapshot))),
            de_items_view(r.bar.center@) == (if focused_title(self.snapshot).len() > 0 {
                seq![DeView::Text(focused_title(self.snapshot))]
            } else {
                seq![]
            }),
            de_items_view(r.bar.right@) == seq![DeView::Clock(self.clock@)],
            r.panes@.len() == windows@.len(),
            forall|i: int|
                0 <= i < windows@.len() ==> (#[trigger] r.panes@[i])@ == decorated(
                    windows@[i],
                    self.config.border_width,
                ),
    {
        DeFrame { bar: self.bar(), panes: self.panes(windows) }
    }
}

} // verus!
