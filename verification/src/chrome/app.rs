//! What is drawn around the windows: the titles of panes, and the bar.

use vstd::prelude::*;

use crate::chrome::clock::{times_at, zone_times_now, LocalTime};
use crate::chrome::zones::{
    bar_items_view, build_theme, build_zone, theme_of, zone_items, BarItem, ItemView, Theme,
};
use crate::config::settings::{modules_view, Config};
use crate::text::strings_view;
use crate::twm::pane::PaneId;
use crate::twm::rect::Rect;
use crate::twm::state::{snaps_view, PaneSnap, SnapView, TwmSnapshot};

verus! {

/// What the chrome is told.
#[derive(Debug)]
pub enum ChromeMsg {
    /// What there is to draw.
    Snapshot(TwmSnapshot),
    ConfigReloaded(Config),
}

/// The chrome of a screen.
#[derive(Debug)]
pub struct ChromeApp {
    pub snap: TwmSnapshot,
    pub config: Config,
    pub theme: Theme,
}

/// A pane with its title.
#[derive(Debug)]
pub struct PaneBox {
    pub area: Rect,
    pub title: String,
    pub focused: bool,
    pub border_w: u32,
}

/// What a [`PaneBox`] holds.
pub struct BoxView {
    pub area: Rect,
    pub title: Seq<char>,
    pub focused: bool,
    pub border_w: u32,
}

impl View for PaneBox {
    type V = BoxView;

    open spec fn view(&self) -> BoxView {
        BoxView {
            area: self.area,
            title: self.title@,
            focused: self.focused,
            border_w: self.border_w,
        }
    }
}

pub open spec fn boxes_view(v: Seq<PaneBox>) -> Seq<BoxView> {
    Seq::new(v.len(), |i: int| v[i]@)
}

/// The zones of the bar.
#[derive(Debug)]
pub struct Zones {
    pub left: Vec<BarItem>,
    pub center: Vec<BarItem>,
    pub right: Vec<BarItem>,
}

/// What each module would show if it is a clock, zone by zone.
#[derive(Debug)]
pub struct ZoneTimes {
    pub left: Vec<String>,
    pub center: Vec<String>,
    pub right: Vec<String>,
}

/// What is drawn; the bar only where it has room.
#[derive(Debug)]
pub struct ChromeView {
    pub panes: Vec<PaneBox>,
    pub zones: Option<Zones>,
}

/// The first `n` panes with their titles, but for those that fill the screen.
pub open spec fn boxes_of(panes: Seq<SnapView>, n: int, focused: Option<PaneId>, border_w: u32) -> Seq<
    BoxView,
>
    decreases n,
{
    if n <= 0 {
        Seq::empty()
    } else {
        let before = boxes_of(panes, n - 1, focused, border_w);
        let p = panes[n - 1];
        if p.fullscreen {
            before
        } else {
            before.push(
                BoxView { area: p.rect, title: p.title, focused: Some(p.id) == focused, border_w },
            )
        }
    }
}

/// The panes that a snapshot shows.
pub open spec fn shown_panes(snap: TwmSnapshot) -> Seq<SnapView> {
    if snap.active_ws < snap.workspaces@.len() {
        snaps_view(snap.workspaces@[snap.active_ws as int].panes@)
    } else {
        Seq::empty()
    }
}

pub open spec fn has_room(r: Rect) -> bool {
    r.w > 0 && r.h > 0
}

fn boxes(panes: &Vec<PaneSnap>, focused: Option<PaneId>, border_w: u32) -> (r: Vec<PaneBox>)
    ensures
        boxes_view(r@) == boxes_of(snaps_view(panes@), panes@.len() as int, focused, border_w),
{
    let ghost v = snaps_view(panes@);
    let mut r: Vec<PaneBox> = Vec::new();
    let mut i: usize = 0;
    assert(boxes_view(r@) =~= Seq::empty());
    while i < panes.len()
        invariant
            i <= panes@.len(),
            v == snaps_view(panes@),
            boxes_view(r@) == boxes_of(v, i as int, focused, border_w),
        decreases panes@.len() - i,
    {
        let p = &panes[i];
        assert(v[i as int] == p@);
        if !p.fullscreen {
            let ghost before = r@;
            let has_focus = match focused {
                Some(id) => id == p.id,
                None => false,
            };
            let b = PaneBox {
                area: p.rect,
                title: p.title.clone(),
                focused: has_focus,
                border_w,
            };
            let ghost bv = b@;
            r.push(b);
            assert(boxes_view(r@) =~= boxes_view(before).push(bv));
        }
        i += 1;
    }
    r
}

impl ChromeApp {
    /// Whether the colors are those of the configuration.
    pub open spec fn themed(self) -> bool {
        self.theme == theme_of(self.config.colors, self.config.bar.style)
    }

    pub open spec fn zone(self, names: Seq<String>, times: Seq<Seq<char>>) -> Seq<ItemView> {
        zone_items(
            modules_view(self.config.bar_modules@),
            strings_view(names),
            times,
            names.len() as int,
            self.snap,
            self.theme,
        )
    }

    /// Whether `v` is what is drawn when the bar has the place `bar_area` and the
    /// modules of each zone show `left`, `center` and `right`.
    pub open spec fn shows(
        self,
        v: ChromeView,
        bar_area: Rect,
        left: Seq<Seq<char>>,
        center: Seq<Seq<char>>,
        right: Seq<Seq<char>>,
    ) -> bool {
        let panes = shown_panes(self.snap);
        &&& boxes_view(v.panes@) == boxes_of(
            panes,
            panes.len() as int,
            self.snap.focused_id,
            self.config.border_width,
        )
        &&& v.zones is Some == has_room(bar_area)
        &&& v.zones matches Some(z) ==> {
            &&& bar_items_view(z.left@) == self.zone(self.config.bar.modules_left@, left)
            &&& bar_items_view(z.center@) == self.zone(self.config.bar.modules_center@, center)
            &&& bar_items_view(z.right@) == self.zone(self.config.bar.modules_right@, right)
        }
    }

    /// Whether workspaces can be numbered from 1.
    pub open spec fn can_count(self) -> bool {
        forall|i: int|
            0 <= i < self.snap.workspaces@.len() ==> (#[trigger] self.snap.workspaces@[i]).index
                < usize::MAX
    }

    pub fn new(config: Config) -> (r: Self)
        ensures
            r.config == config,
            r.themed(),
            r.snap.workspaces@.len() == 0,
            r.snap.active_ws == 0,
            r.snap.focused_id is None,
    {
        let theme = build_theme(&config);
        ChromeApp { snap: TwmSnapshot::default(), config, theme }
    }

    /// Takes in a message.
    pub fn update(&mut self, msg: ChromeMsg)
        ensures
            *final(self) == (match msg {
                ChromeMsg::Snapshot(snap) => ChromeApp { snap, ..*old(self) },
                ChromeMsg::ConfigReloaded(config) => ChromeApp {
                    config,
                    theme: theme_of(config.colors, config.bar.style),
                    ..*old(self)
                },
            }),
            old(self).themed() ==> final(self).themed(),
    {
        match msg {
            ChromeMsg::Snapshot(snap) => {
                self.snap = snap;
            },
            ChromeMsg::ConfigReloaded(config) => {
                self.theme = build_theme(&config);
                self.config = config;
            },
        }
    }

    fn panes(&self) -> (r: Vec<PaneBox>)
        ensures
            boxes_view(r@) == boxes_of(
                shown_panes(self.snap),
                shown_panes(self.snap).len() as int,
                self.snap.focused_id,
                self.config.border_width,
            ),
    {
        if self.snap.active_ws < self.snap.workspaces.len() {
            boxes(
                &self.snap.workspaces[self.snap.active_ws].panes,
                self.snap.focused_id,
                self.config.border_width,
            )
        } else {
            let r: Vec<PaneBox> = Vec::new();
            assert(boxes_view(r@) =~= Seq::empty());
            r
        }
    }

    /// What is drawn when the bar has the place `bar_area`; `times` holds what
    /// clocks show.
    pub fn view(&self, bar_area: Rect, times: &ZoneTimes) -> (r: ChromeView)
        requires
            self.can_count(),
            times.left@.len() == self.config.bar.modules_left@.len(),
            times.center@.len() == self.config.bar.modules_center@.len(),
            times.right@.len() == self.config.bar.modules_right@.len(),
        ensures
            self.shows(
                r,
                bar_area,
                strings_view(times.left@),
                strings_view(times.center@),
                strings_view(times.right@),
            ),
    {
        let panes = self.panes();
        if bar_area.w == 0 || bar_area.h == 0 {
            return ChromeView { panes, zones: None };
        }
        let (cfg, bar, snap, t) = (&self.config, &self.config.bar, &self.snap, &self.theme);
        let zones = Zones {
            left: build_zone(&bar.modules_left, &times.left, cfg, snap, t),
            center: build_zone(&bar.modules_center, &times.center, cfg, snap, t),
            right: build_zone(&bar.modules_right, &times.right, cfg, snap, t),
        };
        ChromeView { panes, zones: Some(zones) }
    }

    /// What clocks show in the zone `names` at the time `t`.
    pub open spec fn times(self, names: Seq<String>, t: LocalTime) -> Option<Seq<Seq<char>>> {
        times_at(self.config, strings_view(names), names.len() as int, t)
    }

    /// Whether `r` is what is drawn when each zone is drawn at a time of its own;
    /// where the bar has no room, no clock is asked.
    pub open spec fn shows_at(
        self,
        r: Option<ChromeView>,
        bar_area: Rect,
        l: LocalTime,
        c: LocalTime,
        e: LocalTime,
    ) -> bool {
        let bar = self.config.bar;
        let none = Seq::<Seq<char>>::empty();
        if has_room(bar_area) {
            match (
                self.times(bar.modules_left@, l),
                self.times(bar.modules_center@, c),
                self.times(bar.modules_right@, e),
            ) {
                (Some(left), Some(center), Some(right)) => r matches Some(v) && self.shows(
                    v,
                    bar_area,
                    left,
                    center,
                    right,
                ),
                _ => r is None,
            }
        } else {
            r matches Some(v) && self.shows(v, bar_area, none, none, none)
        }
    }

    /// What is drawn now; `None` where the bar has room and the format of a clock
    /// is not valid.
    pub fn view_now(&self, bar_area: Rect) -> (r: Option<ChromeView>)
        requires
            self.can_count(),
        ensures
            exists|l: LocalTime, c: LocalTime, e: LocalTime|
                #![trigger self.shows_at(r, bar_area, l, c, e)]
                self.shows_at(r, bar_area, l, c, e),
    {
        if bar_area.w == 0 || bar_area.h == 0 {
            let r = Some(ChromeView { panes: self.panes(), zones: None });
            let ghost t = LocalTime { secs: 0, nanos: 0, offset: 0 };
            assert(self.shows_at(r, bar_area, t, t, t));
            return r;
        }
        let bar = &self.config.bar;
        let left = zone_times_now(&bar.modules_left, &self.config);
        let center = zone_times_now(&bar.modules_center, &self.config);
        let right = zone_times_now(&bar.modules_right, &self.config);
        let ghost (l, c, e) = (
            choose|t: LocalTime| self.told(left, bar.modules_left@, t),
            choose|t: LocalTime| self.told(center, bar.modules_center@, t),
            choose|t: LocalTime| self.told(right, bar.modules_right@, t),
        );
        proof {
            self.lemma_told(left, bar.modules_left@);
            self.lemma_told(center, bar.modules_center@);
            self.lemma_told(right, bar.modules_right@);
        }
        match (left, center, right) {
            (Some(left), Some(center), Some(right)) => {
                let r = Some(self.view(bar_area, &ZoneTimes { left, center, right }));
                assert(self.shows_at(r, bar_area, l, c, e));
                r
            },
            _ => {
                let r: Option<ChromeView> = None;
                assert(self.shows_at(r, bar_area, l, c, e));
                r
            },
        }
    }

    /// Whether `r` is what clocks show in the zone `names` at the time `t`.
    spec fn told(self, r: Option<Vec<String>>, names: Seq<String>, t: LocalTime) -> bool {
        match r {
            Some(v) => self.times(names, t) == Some(strings_view(v@)) && v@.len() == names.len(),
            None => self.times(names, t) is None,
        }
    }

    proof fn lemma_told(self, r: Option<Vec<String>>, names: Seq<String>)
        requires
            exists|t: LocalTime|
                match r {
                    Some(v) => #[trigger] times_at(
                        self.config,
                        strings_view(names),
                        names.len() as int,
                        t,
                    ) == Some(strings_view(v@)) && v@.len() == names.len(),
                    None => times_at(self.config, strings_view(names), names.len() as int, t) is None,
                },
        ensures
            exists|t: LocalTime| self.told(r, names, t),
    {
        let t = choose|t: LocalTime|
            match r {
                Some(v) => #[trigger] times_at(
                    self.config,
                    strings_view(names),
                    names.len() as int,
                    t,
                ) == Some(strings_view(v@)) && v@.len() == names.len(),
                None => times_at(self.config, strings_view(names), names.len() as int, t) is None,
            };
        assert(self.told(r, names, t));
    }
}

} // verus!
