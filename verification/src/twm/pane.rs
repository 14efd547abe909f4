//! Panes, scratchpads and workspaces.

use vstd::prelude::*;
use std::collections::HashMap;

use crate::config::value::last_of;
use crate::single::{Ratio, MAIN, PAD};
use crate::twm::layout::Layout;
use crate::twm::rect::{no_rect, Rect};

verus! {

broadcast use vstd::std_specs::hash::group_hash_axioms;

pub type PaneId = u32;

/// Takes the next id of `counter`. Ids start over after the last one.
pub fn new_pane_id(counter: &mut PaneId) -> (r: PaneId)
    ensures
        r == *old(counter),
        *final(counter) == (if *old(counter) == u32::MAX {
            0
        } else {
            *old(counter) + 1
        }),
{
    let id: PaneId = *counter;
    *counter = id.wrapping_add(1);
    id
}

// ── Content ──────────────────────────────────────────────────────────────────

#[derive(Debug)]
pub enum PaneContent {
    Shell { app_id: String, title: String },
    Embedded { app_id: String },
    Empty,
}

/// What a [`PaneContent`] holds.
pub enum ContentView {
    Shell { app_id: Seq<char>, title: Seq<char> },
    Embedded { app_id: Seq<char> },
    Empty,
}

impl View for PaneContent {
    type V = ContentView;

    open spec fn view(&self) -> ContentView {
        match *self {
            PaneContent::Shell { app_id, title } => ContentView::Shell {
                app_id: app_id@,
                title: title@,
            },
            PaneContent::Embedded { app_id } => ContentView::Embedded { app_id: app_id@ },
            PaneContent::Empty => ContentView::Empty,
        }
    }
}

impl ContentView {
    pub open spec fn app(self) -> Seq<char> {
        match self {
            ContentView::Shell { app_id, .. } => app_id,
            ContentView::Embedded { app_id } => app_id,
            ContentView::Empty => Seq::empty(),
        }
    }

    pub open spec fn name(self) -> Seq<char> {
        match self {
            ContentView::Shell { title, .. } => title,
            ContentView::Embedded { app_id } => app_id,
            ContentView::Empty => "empty"@,
        }
    }
}

impl PaneContent {
    pub fn app_id(&self) -> (r: &str)
        ensures
            r@ == self@.app(),
    {
        match self {
            PaneContent::Shell { app_id, .. } => app_id.as_str(),
            PaneContent::Embedded { app_id } => app_id.as_str(),
            PaneContent::Empty => {
                proof {
                    reveal_strlit("");
                    assert(""@ =~= Seq::<char>::empty());
                }
                ""
            },
        }
    }

    pub fn title(&self) -> (r: &str)
        ensures
            r@ == self@.name(),
    {
        match self {
            PaneContent::Shell { title, .. } => title.as_str(),
            PaneContent::Embedded { app_id } => app_id.as_str(),
            PaneContent::Empty => "empty",
        }
    }

    pub fn is_embedded(&self) -> (r: bool)
        ensures
            r == (self@ is Embedded),
    {
        matches!(self, PaneContent::Embedded { .. })
    }

    pub fn is_empty(&self) -> (r: bool)
        ensures
            r == (self@ is Empty),
    {
        matches!(self, PaneContent::Empty)
    }
}

// ── Pane ─────────────────────────────────────────────────────────────────────

#[derive(Debug)]
pub struct Pane {
    pub id: PaneId,
    pub content: PaneContent,
    pub rect: Rect,
    pub fullscreen: bool,
    pub floating: bool,
    /// Where the pane is when it floats; kept across workspaces.
    pub float_rect: Rect,
}

/// What a [`Pane`] holds.
pub struct PaneView {
    pub id: PaneId,
    pub content: ContentView,
    pub rect: Rect,
    pub fullscreen: bool,
    pub floating: bool,
    pub float_rect: Rect,
}

impl View for Pane {
    type V = PaneView;

    open spec fn view(&self) -> PaneView {
        PaneView {
            id: self.id,
            content: self.content@,
            rect: self.rect,
            fullscreen: self.fullscreen,
            floating: self.floating,
            float_rect: self.float_rect,
        }
    }
}

/// A pane that was just opened.
pub open spec fn fresh_pane(id: PaneId, content: ContentView) -> PaneView {
    PaneView {
        id,
        content,
        rect: no_rect(),
        fullscreen: false,
        floating: false,
        float_rect: no_rect(),
    }
}

impl Pane {
    pub fn new(id: PaneId, content: PaneContent) -> (r: Self)
        ensures
            r@ == fresh_pane(id, content@),
    {
        Pane {
            id,
            content,
            rect: Rect::default(),
            fullscreen: false,
            floating: false,
            float_rect: Rect::default(),
        }
    }
}

/// The panes by their ids.
pub open spec fn panes_view(m: Map<PaneId, Pane>) -> Map<PaneId, PaneView> {
    Map::new(|id: PaneId| m.contains_key(id), |id: PaneId| m[id]@)
}

/// Puts `rect` in the pane `id`, if there is one.
pub open spec fn with_rect(
    panes: Map<PaneId, PaneView>,
    id: PaneId,
    rect: Rect,
) -> Map<PaneId, PaneView> {
    if panes.contains_key(id) {
        panes.insert(id, PaneView { rect, ..panes[id] })
    } else {
        panes
    }
}

/// Takes the pane `id` out of `m`.
pub fn take_pane(m: &mut HashMap<PaneId, Pane>, id: PaneId) -> (r: Option<Pane>)
    ensures
        panes_view(final(m)@) == panes_view(old(m)@).remove(id),
        match r {
            Some(p) => panes_view(old(m)@).contains_key(id) && p@ == panes_view(old(m)@)[id],
            None => !panes_view(old(m)@).contains_key(id),
        },
{
    let r = m.remove(&id);
    assert(panes_view(m@) =~= panes_view(old(m)@).remove(id));
    r
}

/// Puts `p` into `m` as the pane `id`.
pub fn put_pane(m: &mut HashMap<PaneId, Pane>, id: PaneId, p: Pane)
    ensures
        panes_view(final(m)@) == panes_view(old(m)@).insert(id, p@),
{
    m.insert(id, p);
    assert(panes_view(m@) =~= panes_view(old(m)@).insert(id, p@));
}

pub fn set_rect(m: &mut HashMap<PaneId, Pane>, id: PaneId, rect: Rect)
    ensures
        panes_view(final(m)@) == with_rect(panes_view(old(m)@), id, rect),
{
    match take_pane(m, id) {
        Some(mut p) => {
            p.rect = rect;
            put_pane(m, id, p);
            assert(panes_view(m@) =~= with_rect(panes_view(old(m)@), id, rect));
        },
        None => {
            assert(panes_view(m@) =~= panes_view(old(m)@));
        },
    }
}

// ── Scratchpad ───────────────────────────────────────────────────────────────

/// A named scratchpad. While it is hidden, its pane is in no workspace.
#[derive(Debug)]
pub struct Scratchpad {
    pub name: String,
    /// The app id of the window that it takes.
    pub app_id: String,
    pub pane_id: Option<PaneId>,
    pub visible: bool,
    /// The shares of the screen that it takes.
    pub width_pct: Ratio,
    pub height_pct: Ratio,
}

/// What a [`Scratchpad`] holds.
pub struct PadView {
    pub name: Seq<char>,
    pub app_id: Seq<char>,
    pub pane_id: Option<PaneId>,
    pub visible: bool,
    pub width_pct: Ratio,
    pub height_pct: Ratio,
}

impl View for Scratchpad {
    type V = PadView;

    open spec fn view(&self) -> PadView {
        PadView {
            name: self.name@,
            app_id: self.app_id@,
            pane_id: self.pane_id,
            visible: self.visible,
            width_pct: self.width_pct,
            height_pct: self.height_pct,
        }
    }
}

/// A scratchpad without a pane.
pub open spec fn fresh_pad(name: Seq<char>, app_id: Seq<char>) -> PadView {
    PadView {
        name,
        app_id,
        pane_id: None,
        visible: false,
        width_pct: Ratio { units: PAD },
        height_pct: Ratio { units: PAD },
    }
}

pub open spec fn pads_view(v: Seq<Scratchpad>) -> Seq<PadView> {
    Seq::new(v.len(), |i: int| v[i]@)
}

impl Scratchpad {
    pub fn new(name: &str, app_id: &str) -> (r: Self)
        ensures
            r@ == fresh_pad(name@, app_id@),
    {
        Scratchpad {
            name: name.to_owned(),
            app_id: app_id.to_owned(),
            pane_id: None,
            visible: false,
            width_pct: Ratio::pad(),
            height_pct: Ratio::pad(),
        }
    }

    /// The scratchpad with other shares of the screen, given by their
    /// single-precision bit patterns and held between 0.1 and 1.
    pub fn with_size(self, w_bits: u32, h_bits: u32) -> (r: Self)
        ensures
            r@ == (PadView {
                width_pct: r@.width_pct,
                height_pct: r@.height_pct,
                ..self@
            }),
            r@.width_pct.units == crate::single::clamped_units(w_bits),
            r@.height_pct.units == crate::single::clamped_units(h_bits),
            r@.width_pct.wf(),
            r@.height_pct.wf(),
    {
        Scratchpad {
            width_pct: Ratio::clamped(w_bits),
            height_pct: Ratio::clamped(h_bits),
            ..self
        }
    }
}

// ── Workspace ────────────────────────────────────────────────────────────────

#[derive(Debug)]
pub struct Workspace {
    pub index: usize,
    pub panes: Vec<PaneId>,
    pub focused: Option<PaneId>,
    pub layout: Layout,
    pub main_ratio: Ratio,
    pub gap: u32,
}

/// What a [`Workspace`] holds.
pub struct WsView {
    pub index: usize,
    pub panes: Seq<PaneId>,
    pub focused: Option<PaneId>,
    pub layout: Layout,
    pub main_ratio: Ratio,
    pub gap: u32,
}

impl View for Workspace {
    type V = WsView;

    open spec fn view(&self) -> WsView {
        WsView {
            index: self.index,
            panes: self.panes@,
            focused: self.focused,
            layout: self.layout,
            main_ratio: self.main_ratio,
            gap: self.gap,
        }
    }
}

pub open spec fn spaces_view(v: Seq<Workspace>) -> Seq<WsView> {
    Seq::new(v.len(), |i: int| v[i]@)
}

/// A workspace without panes.
pub open spec fn fresh_ws(index: usize, gap: u32) -> WsView {
    WsView {
        index,
        panes: Seq::empty(),
        focused: None,
        layout: Layout::Bsp,
        main_ratio: Ratio { units: MAIN },
        gap,
    }
}

/// The index of the first `id` in `s`, or its length.
pub open spec fn first_index(s: Seq<PaneId>, id: PaneId) -> int
    decreases s.len(),
{
    if s.len() == 0 {
        0
    } else if s[0] == id {
        0
    } else {
        1 + first_index(s.skip(1), id)
    }
}

/// `s` without `id`.
pub open spec fn without(s: Seq<PaneId>, id: PaneId) -> Seq<PaneId>
    decreases s.len(),
{
    if s.len() == 0 {
        Seq::empty()
    } else if s.last() == id {
        without(s.drop_last(), id)
    } else {
        without(s.drop_last(), id).push(s.last())
    }
}

impl WsView {
    /// The place of the focused pane.
    pub open spec fn focus_at(self) -> Option<int> {
        match self.focused {
            Some(f) => if first_index(self.panes, f) < self.panes.len() {
                Some(first_index(self.panes, f))
            } else {
                None
            },
            None => None,
        }
    }

    /// The workspace once the focus has moved on by `delta` places, round and
    /// round.
    pub open spec fn cycled(self, delta: int) -> WsView {
        if self.panes.len() == 0 {
            self
        } else {
            let cur = match self.focus_at() {
                Some(i) => i,
                None => 0,
            };
            WsView {
                focused: Some(self.panes[(cur + delta) % (self.panes.len() as int)]),
                ..self
            }
        }
    }

    /// The workspace once the focused pane has changed places with its
    /// neighbour, round and round.
    pub open spec fn swapped(self, forward: bool) -> WsView {
        let n = self.panes.len() as int;
        match self.focus_at() {
            Some(cur) => if n < 2 {
                self
            } else {
                let other = if forward {
                    (cur + 1) % n
                } else {
                    (cur + n - 1) % n
                };
                WsView {
                    panes: self.panes.update(cur, self.panes[other]).update(
                        other,
                        self.panes[cur],
                    ),
                    ..self
                }
            },
            None => self,
        }
    }

    /// The workspace once the pane `id` has left it. The last pane gets a
    /// focus that was on it.
    pub open spec fn left_by(self, id: PaneId) -> WsView {
        let panes = without(self.panes, id);
        WsView {
            panes,
            focused: if self.focused == Some(id) {
                last_of(panes)
            } else {
                self.focused
            },
            ..self
        }
    }
}

pub proof fn lemma_first_index(s: Seq<PaneId>, id: PaneId)
    ensures
        0 <= first_index(s, id) <= s.len(),
        first_index(s, id) < s.len() ==> s[first_index(s, id)] == id,
        forall|k: int| 0 <= k < first_index(s, id) ==> #[trigger] s[k] != id,
    decreases s.len(),
{
    if s.len() > 0 && s[0] != id {
        lemma_first_index(s.skip(1), id);
        assert forall|k: int| 0 <= k < first_index(s, id) implies #[trigger] s[k] != id by {
            if k > 0 {
                assert(s.skip(1)[k - 1] == s[k]);
            }
        }
    }
}

pub proof fn lemma_without(s: Seq<PaneId>, id: PaneId)
    ensures
        without(s, id).len() <= s.len(),
        !without(s, id).contains(id),
        forall|x: PaneId| x != id ==> (#[trigger] without(s, id).contains(x) <==> s.contains(x)),
        !s.contains(id) ==> without(s, id) == s,
    decreases s.len(),
{
    if s.len() > 0 {
        let t = s.drop_last();
        lemma_without(t, id);
        assert forall|x: PaneId| x != id implies (#[trigger] without(s, id).contains(x)
            <==> s.contains(x)) by {
            if s.contains(x) {
                let k = choose|k: int| 0 <= k < s.len() && s[k] == x;
                if k < s.len() - 1 {
                    assert(t[k] == x);
                    assert(t.contains(x));
                    assert(without(t, id).contains(x));
                    let j = choose|j: int| 0 <= j < without(t, id).len() && without(t, id)[j] == x;
                    assert(without(s, id)[j] == x);
                } else {
                    assert(without(s, id).last() == x);
                }
            }
            if without(s, id).contains(x) {
                let j = choose|j: int| 0 <= j < without(s, id).len() && without(s, id)[j] == x;
                if j < without(t, id).len() {
                    assert(without(t, id)[j] == x);
                    assert(without(t, id).contains(x));
                    assert(t.contains(x));
                    let k = choose|k: int| 0 <= k < t.len() && t[k] == x;
                    assert(s[k] == x);
                } else {
                    assert(s.last() == x);
                }
            }
        }
        assert(!without(s, id).contains(id)) by {
            if without(s, id).contains(id) {
                let j = choose|j: int| 0 <= j < without(s, id).len() && without(s, id)[j] == id;
                if j < without(t, id).len() {
                    assert(without(t, id)[j] == id);
                }
            }
        }
        if !s.contains(id) {
            assert(s.last() != id) by {
                assert(s[s.len() - 1] == s.last());
            }
            assert(!t.contains(id)) by {
                if t.contains(id) {
                    let k = choose|k: int| 0 <= k < t.len() && t[k] == id;
                    assert(s[k] == id);
                }
            }
            assert(without(s, id) =~= s);
        }
    }
}

/// `v` without `id`.
pub fn retain_not(v: &Vec<PaneId>, id: PaneId) -> (r: Vec<PaneId>)
    ensures
        r@ == without(v@, id),
{
    let mut r: Vec<PaneId> = Vec::new();
    let mut i: usize = 0;
    while i < v.len()
        invariant
            i <= v.len(),
            r@ == without(v@.take(i as int), id),
        decreases v.len() - i,
    {
        if v[i] != id {
            r.push(v[i]);
        }
        i += 1;
        assert(v@.take(i as int).drop_last() =~= v@.take(i - 1));
    }
    assert(v@.take(i as int) =~= v@);
    r
}

impl Workspace {
    pub fn new(index: usize, gap: u32) -> (r: Self)
        ensures
            r@ == fresh_ws(index, gap),
    {
        let panes: Vec<PaneId> = Vec::new();
        assert(panes@ =~= Seq::<PaneId>::empty());
        Workspace { index, panes, focused: None, layout: Layout::Bsp, main_ratio: Ratio::main(), gap }
    }

    /// The place of the focused pane.
    pub fn focus_idx(&self) -> (r: Option<usize>)
        ensures
            match r {
                Some(i) => self@.focus_at() == Some(i as int) && i < self.panes@.len(),
                None => self@.focus_at() is None,
            },
    {
        let id: PaneId = match self.focused {
            Some(id) => id,
            None => {
                return None;
            },
        };
        let mut i: usize = 0;
        assert(self.panes@.skip(0) =~= self.panes@);
        while i < self.panes.len()
            invariant
                i <= self.panes.len(),
                self.focused == Some(id),
                first_index(self.panes@, id) == i + first_index(self.panes@.skip(i as int), id),
            decreases self.panes.len() - i,
        {
            assert(self.panes@.skip(i as int)[0] == self.panes@[i as int]);
            assert(self.panes@.skip(i as int).skip(1) =~= self.panes@.skip(i + 1));
            if self.panes[i] == id {
                return Some(i);
            }
            i += 1;
        }
        None
    }

    /// Moves the focus on by `delta` places.
    pub fn cycle_focus(&mut self, delta: i32)
        ensures
            final(self)@ == old(self)@.cycled(delta as int),
    {
        let n: usize = self.panes.len();
        if n == 0 {
            return;
        }
        let cur: usize = match self.focus_idx() {
            Some(i) => i,
            None => 0,
        };
        let m: u128 = n as u128;
        let sum: i128 = cur as i128 + delta as i128;
        // A multiple of the length makes the sum positive and keeps its rest.
        let k: u128 = (sum + n as i128 * 0x1_0000_0000) as u128 % m;
        proof {
            vstd::arithmetic::div_mod::lemma_mod_multiples_vanish(
                0x1_0000_0000,
                sum as int,
                m as int,
            );
        }
        self.focused = Some(self.panes[k as usize]);
    }

    /// Lets the focused pane change places with its neighbour.
    pub fn swap_focused(&mut self, forward: bool)
        ensures
            final(self)@ == old(self)@.swapped(forward),
    {
        let n: usize = self.panes.len();
        if n < 2 {
            return;
        }
        let cur: usize = match self.focus_idx() {
            Some(i) => i,
            None => {
                return;
            },
        };
        let other: usize = if forward {
            if cur == n - 1 {
                0
            } else {
                cur + 1
            }
        } else if cur == 0 {
            n - 1
        } else {
            cur - 1
        };
        proof {
            let ni = n as int;
            if forward {
                if cur == n - 1 {
                    assert(ni % ni == 0) by (nonlinear_arith)
                        requires
                            ni > 0,
                    ;
                } else {
                    vstd::arithmetic::div_mod::lemma_small_mod((cur + 1) as nat, n as nat);
                }
            } else if cur == 0 {
                vstd::arithmetic::div_mod::lemma_small_mod((n - 1) as nat, n as nat);
            } else {
                vstd::arithmetic::div_mod::lemma_mod_add_multiples_vanish(cur - 1, ni);
                vstd::arithmetic::div_mod::lemma_small_mod((cur - 1) as nat, n as nat);
            }
        }
        let a: PaneId = self.panes[cur];
        let b: PaneId = self.panes[other];
        self.panes.set(cur, b);
        self.panes.set(other, a);
    }

    /// Takes the pane `id` out.
    pub fn leave(&mut self, id: PaneId)
        ensures
            final(self)@ == old(self)@.left_by(id),
    {
        self.panes = retain_not(&self.panes, id);
        if self.focused == Some(id) {
            let n: usize = self.panes.len();
            self.focused = if n > 0 {
                Some(self.panes[n - 1])
            } else {
                None
            };
        }
    }
}

} // verus!
