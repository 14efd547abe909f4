//! Windows as they come and go.
//!
//! A surface is known by a number that the caller gives it. It gets a pane
//! once it has an app id; until then it is unclaimed.

use vstd::prelude::*;
use std::collections::{HashMap, HashSet};

use crate::config::rules::{
    effects_view, rule_view, rules_view, EffectView, RuleEffect, RuleView, WindowRule,
};
use crate::input::{inner_of, inner_rect};
use crate::twm::anim::{AnimKind, AnimSet, AnimView};
use crate::twm::pane::{put_pane, take_pane, PaneId, PaneView};
use crate::twm::rect::Rect;
use crate::twm::state::{
    all_closed, opened, panes_of, shell_content, TwmState, TwmView,
};

verus! {

broadcast use vstd::std_specs::hash::group_hash_axioms;

pub type SurfaceId = u64;

/// How long a pane stays after its surface is gone, while it slides out.
pub const CLOSE_DELAY_MS: u64 = 150;

/// The surfaces: the pane of each that has one, and those without.
pub struct Surfaces {
    pub panes: HashMap<SurfaceId, PaneId>,
    pub unclaimed: HashSet<SurfaceId>,
}

/// What [`Surfaces`] hold.
pub struct SurfacesView {
    pub panes: Map<SurfaceId, PaneId>,
    pub unclaimed: Set<SurfaceId>,
}

impl View for Surfaces {
    type V = SurfacesView;

    open spec fn view(&self) -> SurfacesView {
        SurfacesView { panes: self.panes@, unclaimed: self.unclaimed@ }
    }
}

impl Default for Surfaces {
    fn default() -> (r: Self)
        ensures
            r@ == (SurfacesView { panes: Map::empty(), unclaimed: Set::empty() }),
    {
        Surfaces { panes: HashMap::new(), unclaimed: HashSet::new() }
    }
}

// ── Rules ────────────────────────────────────────────────────────────────────

/// The size that the last of `effects` to set one sets.
pub open spec fn size_set(effects: Seq<EffectView>) -> Option<(u32, u32)>
    decreases effects.len(),
{
    if effects.len() == 0 {
        None
    } else {
        match effects.last() {
            EffectView::Size(w, h) => Some((w, h)),
            _ => size_set(effects.drop_last()),
        }
    }
}

/// Whether `rules` let a window of `app_id` float.
pub open spec fn floats(rules: Seq<RuleView>, app_id: Seq<char>) -> bool {
    exists|i: int|
        0 <= i < rules.len() && (#[trigger] rules[i]).matcher.means(app_id, Seq::empty())
            && rules[i].effects.contains(EffectView::Float)
}

/// The size that `rules` give a window of `app_id`; the last one counts.
pub open spec fn forced_size(rules: Seq<RuleView>, app_id: Seq<char>) -> Option<(u32, u32)>
    decreases rules.len(),
{
    if rules.len() == 0 {
        None
    } else {
        let r = rules.last();
        if r.matcher.means(app_id, Seq::empty()) && size_set(r.effects) is Some {
            size_set(r.effects)
        } else {
            forced_size(rules.drop_last(), app_id)
        }
    }
}

/// What the effects of one rule ask for: to float, and a size.
fn read_effects(effects: &Vec<RuleEffect>) -> (r: (bool, Option<(u32, u32)>))
    ensures
        r.0 == effects_view(effects@).contains(EffectView::Float),
        r.1 == size_set(effects_view(effects@)),
{
    let ghost all = effects_view(effects@);
    let mut float = false;
    let mut size: Option<(u32, u32)> = None;
    let mut i: usize = 0;
    while i < effects.len()
        invariant
            i <= effects@.len(),
            all == effects_view(effects@),
            float == exists|k: int| 0 <= k < i && #[trigger] all[k] == EffectView::Float,
            size == size_set(all.take(i as int)),
        decreases effects@.len() - i,
    {
        assert(all[i as int] == effects@[i as int]@);
        match &effects[i] {
            RuleEffect::Float => {
                float = true;
            },
            RuleEffect::Size(w, h) => {
                size = Some((*w, *h));
            },
            _ => {},
        }
        i += 1;
        assert(all.take(i as int).drop_last() =~= all.take(i - 1));
        assert(all.take(i as int).last() == all[i - 1]);
    }
    assert(all.take(i as int) =~= all);
    (float, size)
}

/// What `rules` ask for a window of `app_id`, whose title is not known yet:
/// whether it floats, and its size.
pub fn apply_rules(rules: &Vec<WindowRule>, app_id: &str) -> (r: (bool, Option<(u32, u32)>))
    ensures
        r.0 == floats(rules_view(rules@), app_id@),
        r.1 == forced_size(rules_view(rules@), app_id@),
{
    let ghost all = rules_view(rules@);
    let mut float = false;
    let mut size: Option<(u32, u32)> = None;
    let mut i: usize = 0;
    proof {
        reveal_strlit("");
        assert(""@ =~= Seq::<char>::empty());
    }
    while i < rules.len()
        invariant
            i <= rules@.len(),
            all == rules_view(rules@),
            ""@ == Seq::<char>::empty(),
            float == exists|k: int|
                0 <= k < i && (#[trigger] all[k]).matcher.means(app_id@, Seq::empty())
                    && all[k].effects.contains(EffectView::Float),
            size == forced_size(all.take(i as int), app_id@),
        decreases rules@.len() - i,
    {
        assert(all[i as int] == rule_view(rules@[i as int]));
        if rules[i].matcher.matches(app_id, "") {
            let (f, s) = read_effects(&rules[i].effects);
            if f {
                float = true;
            }
            if s.is_some() {
                size = s;
            }
        }
        i += 1;
        assert(all.take(i as int).drop_last() =~= all.take(i - 1));
        assert(all.take(i as int).last() == all[i - 1]);
    }
    assert(all.take(i as int) =~= all);
    (float, size)
}

// ── New windows ──────────────────────────────────────────────────────────────

/// Where a window goes: its pane, if it has one, its place, and its size
/// unless that is the size of the output.
#[derive(Debug, Clone, Copy, PartialEq, Eq)]
pub struct Placement {
    pub pane: Option<PaneId>,
    pub at: (i32, i32),
    pub size: Option<(i32, i32)>,
}

pub open spec fn corner(r: Rect) -> (i32, i32) {
    (r.x as i32, r.y as i32)
}

pub open spec fn extent(r: Rect) -> (i32, i32) {
    (r.w as i32, r.h as i32)
}

/// The state with the pane `id` floating, though not yet moved.
pub open spec fn floated(t: TwmView, id: PaneId) -> TwmView {
    TwmView { panes: t.panes.insert(id, PaneView { floating: true, ..t.panes[id] }), ..t }
}

/// The animations once the pane `id` slides in.
pub open spec fn sliding_in(a: AnimView, id: PaneId, rect: Rect, now_ms: u64) -> AnimView {
    AnimView { panes: a.panes.insert(id, a.slide(AnimKind::Open, rect, now_ms)), ..a }
}

/// The state once a window of `app_id` has opened, floating or not.
pub open spec fn with_window(t: TwmView, app_id: Seq<char>, float: bool) -> TwmView {
    let u = opened(t, shell_content(app_id));
    if float {
        floated(u, t.next_id)
    } else {
        u
    }
}

fn in_pixels(r: Rect) -> (c: ((i32, i32), (i32, i32)))
    ensures
        c == (corner(r), extent(r)),
{
    (
        (#[verifier::truncate] (r.x as i32), #[verifier::truncate] (r.y as i32)),
        (#[verifier::truncate] (r.w as i32), #[verifier::truncate] (r.h as i32)),
    )
}

proof fn lemma_opened_has(t: TwmView, app_id: Seq<char>)
    ensures
        opened(t, shell_content(app_id)).panes.contains_key(t.next_id),
{
    let id = t.next_id;
    let w = t.ws();
    let before = TwmView {
        panes: t.panes.insert(
            id,
            crate::twm::pane::fresh_pane(id, shell_content(app_id)),
        ),
        next_id: crate::twm::state::next_of(id),
        ..t.with_ws(
            crate::twm::pane::WsView { panes: w.panes.push(id), focused: Some(id), ..w },
        )
    };
    crate::twm::laws::law_reflow_only_moves(before);
    assert(before.panes.dom().contains(id));
    assert(crate::twm::state::reflowed(before).panes.dom().contains(id));
}

/// Opens a pane for a surface of `app_id` and lets it slide in. Returns the
/// pane and its inside.
fn open_window(
    twm: &mut TwmState,
    anim: &mut AnimSet,
    surfaces: &mut Surfaces,
    surface: SurfaceId,
    app_id: &str,
    float: bool,
    now_ms: u64,
) -> (r: (PaneId, Rect))
    requires
        old(twm)@.wf(),
    ensures
        final(twm)@ == with_window(old(twm)@, app_id@, float),
        final(twm)@.wf(),
        final(anim)@ == sliding_in(
            old(anim)@,
            old(twm)@.next_id,
            final(twm)@.panes[old(twm)@.next_id].rect,
            now_ms,
        ),
        final(surfaces)@ == (SurfacesView {
            panes: old(surfaces)@.panes.insert(surface, old(twm)@.next_id),
            ..old(surfaces)@
        }),
        r.0 == old(twm)@.next_id,
        r.1 == inner_of(final(twm)@.panes[old(twm)@.next_id].rect, old(twm)@.border_w),
{
    proof {
        lemma_opened_has(twm@, app_id@);
    }
    let id: PaneId = twm.open_shell(app_id);
    let ghost u = twm@;
    surfaces.panes.insert(surface, id);
    let mut rect = Rect::default();
    match take_pane(&mut twm.panes, id) {
        Some(mut p) => {
            if float {
                p.floating = true;
            }
            rect = p.rect;
            put_pane(&mut twm.panes, id, p);
            assert(twm@.panes =~= if float {
                floated(u, id).panes
            } else {
                u.panes
            });
        },
        None => {},
    }
    anim.open(id, rect, now_ms);
    (id, inner_rect(rect, twm.border_w))
}

/// What a new window comes to: a pane, or for a window without an app id
/// nothing until it gets one.
pub open spec fn new_window(
    t: TwmView,
    a: AnimView,
    s: SurfacesView,
    surface: SurfaceId,
    app_id: Seq<char>,
    rules: Seq<RuleView>,
    now_ms: u64,
) -> (TwmView, AnimView, SurfacesView, Placement) {
    let forced = match forced_size(rules, app_id) {
        Some((w, h)) => Some((w as i32, h as i32)),
        None => None,
    };
    if app_id.len() == 0 {
        (
            t,
            a,
            SurfacesView { unclaimed: s.unclaimed.insert(surface), ..s },
            Placement { pane: None, at: (0, 0), size: forced },
        )
    } else {
        let id = t.next_id;
        let u = with_window(t, app_id, floats(rules, app_id));
        let inner = inner_of(u.panes[id].rect, t.border_w);
        (
            u,
            sliding_in(a, id, u.panes[id].rect, now_ms),
            SurfacesView { panes: s.panes.insert(surface, id), ..s },
            Placement {
                pane: Some(id),
                at: corner(inner),
                size: match forced {
                    Some(x) => Some(x),
                    None => Some(extent(inner)),
                },
            },
        )
    }
}

/// Takes in a new window.
pub fn new_toplevel(
    twm: &mut TwmState,
    anim: &mut AnimSet,
    surfaces: &mut Surfaces,
    surface: SurfaceId,
    app_id: &str,
    rules: &Vec<WindowRule>,
    now_ms: u64,
) -> (r: Placement)
    requires
        old(twm)@.wf(),
    ensures
        (final(twm)@, final(anim)@, final(surfaces)@, r) == new_window(
            old(twm)@,
            old(anim)@,
            old(surfaces)@,
            surface,
            app_id@,
            rules_view(rules@),
            now_ms,
        ),
        final(twm)@.wf(),
{
    let (float, forced) = apply_rules(rules, app_id);
    let forced: Option<(i32, i32)> = match forced {
        Some((w, h)) => Some(
            (#[verifier::truncate] (w as i32), #[verifier::truncate] (h as i32)),
        ),
        None => None,
    };
    if app_id.is_empty() {
        surfaces.unclaimed.insert(surface);
        return Placement { pane: None, at: (0, 0), size: forced };
    }
    let (id, inner) = open_window(twm, anim, surfaces, surface, app_id, float, now_ms);
    let (at, extent): ((i32, i32), (i32, i32)) = in_pixels(inner);
    Placement {
        pane: Some(id),
        at,
        size: match forced {
            Some(s) => Some(s),
            None => Some(extent),
        },
    }
}

/// What a commit on a surface comes to: an unclaimed surface that has an app
/// id now gets a pane.
pub open spec fn claimed(
    t: TwmView,
    a: AnimView,
    s: SurfacesView,
    surface: SurfaceId,
    app_id: Seq<char>,
    now_ms: u64,
) -> (TwmView, AnimView, SurfacesView, Option<Placement>) {
    if s.unclaimed.contains(surface) && app_id.len() > 0 {
        let id = t.next_id;
        let u = with_window(t, app_id, false);
        let inner = inner_of(u.panes[id].rect, t.border_w);
        (
            u,
            sliding_in(a, id, u.panes[id].rect, now_ms),
            SurfacesView {
                panes: s.panes.insert(surface, id),
                unclaimed: s.unclaimed.remove(surface),
            },
            Some(Placement { pane: Some(id), at: corner(inner), size: Some(extent(inner)) }),
        )
    } else {
        (t, a, s, None)
    }
}

/// Takes in a commit on a surface.
pub fn commit(
    twm: &mut TwmState,
    anim: &mut AnimSet,
    surfaces: &mut Surfaces,
    surface: SurfaceId,
    app_id: &str,
    now_ms: u64,
) -> (r: Option<Placement>)
    requires
        old(twm)@.wf(),
    ensures
        (final(twm)@, final(anim)@, final(surfaces)@, r) == claimed(
            old(twm)@,
            old(anim)@,
            old(surfaces)@,
            surface,
            app_id@,
            now_ms,
        ),
        final(twm)@.wf(),
{
    if !surfaces.unclaimed.contains(&surface) || app_id.is_empty() {
        return None;
    }
    let ghost before = surfaces@;
    surfaces.unclaimed.remove(&surface);
    assert(surfaces@.unclaimed =~= before.unclaimed.remove(surface));
    let (id, inner) = open_window(twm, anim, surfaces, surface, app_id, false, now_ms);
    let (at, extent): ((i32, i32), (i32, i32)) = in_pixels(inner);
    Some(Placement { pane: Some(id), at, size: Some(extent) })
}

// ── Windows that go ──────────────────────────────────────────────────────────

/// The panes of `app_id` that no surface is shown in.
pub open spec fn orphans(t: TwmView, s: SurfacesView, app_id: Seq<char>) -> Set<PaneId> {
    panes_of(t, app_id).difference(s.panes.values())
}

/// What the end of a window comes to. Its pane slides out and is to be closed
/// later; that of a window without a pane are closed which no other window
/// needs.
pub open spec fn destroyed(
    t: TwmView,
    a: AnimView,
    s: SurfacesView,
    surface: SurfaceId,
    app_id: Seq<char>,
    now_ms: u64,
) -> (TwmView, AnimView, SurfacesView, Option<PaneId>) {
    let rest = SurfacesView {
        panes: s.panes.remove(surface),
        unclaimed: s.unclaimed.remove(surface),
    };
    if s.panes.contains_key(surface) {
        let id = s.panes[surface];
        (
            t,
            if t.panes.contains_key(id) {
                AnimView {
                    panes: a.panes.insert(
                        id,
                        a.slide(AnimKind::Close, t.panes[id].rect, now_ms),
                    ),
                    ..a
                }
            } else {
                a
            },
            rest,
            Some(id),
        )
    } else if app_id.len() > 0 {
        (all_closed(t, orphans(t, rest, app_id)), a, rest, None)
    } else {
        (t, a, rest, None)
    }
}

/// Whether some surface is shown in the pane `id`.
fn is_shown(panes: &HashMap<SurfaceId, PaneId>, id: PaneId) -> (r: bool)
    ensures
        r == panes@.values().contains(id),
{
    for v in it: panes.values()
        invariant
            it.seq().unref().to_set() == panes@.values(),
            forall|k: int| 0 <= k < it.index() ==> *#[trigger] it.seq()[k] != id,
    {
        proof {
            let n = it.index() as int;
            assert(it.seq().unref()[n] == *v);
            assert(it.seq().unref().to_set().contains(*v));
        }
        if *v == id {
            return true;
        }
    }
    false
}

/// Takes in the end of a window. Returns the pane that is to be closed after
/// [`CLOSE_DELAY_MS`].
pub fn toplevel_destroyed(
    twm: &mut TwmState,
    anim: &mut AnimSet,
    surfaces: &mut Surfaces,
    surface: SurfaceId,
    app_id: &str,
    now_ms: u64,
) -> (r: Option<PaneId>)
    requires
        old(twm)@.wf(),
    ensures
        (final(twm)@, final(anim)@, final(surfaces)@, r) == destroyed(
            old(twm)@,
            old(anim)@,
            old(surfaces)@,
            surface,
            app_id@,
            now_ms,
        ),
        final(twm)@.wf(),
{
    let ghost t = twm@;
    let ghost s = surfaces@;
    surfaces.unclaimed.remove(&surface);
    assert(surfaces@.unclaimed =~= s.unclaimed.remove(surface));
    match surfaces.panes.remove(&surface) {
        Some(id) => {
            assert(surfaces@.panes =~= s.panes.remove(surface));
            if let Some(p) = twm.panes.get(&id) {
                assert(t.panes[id] == p@);
                anim.close(id, p.rect, now_ms);
            }
            Some(id)
        },
        None => {
            assert(surfaces@.panes =~= s.panes.remove(surface));
            if !app_id.is_empty() {
                let all = twm.ids_of(app_id);
                let ghost want = orphans(t, surfaces@, app_id@);
                let mut ids: Vec<PaneId> = Vec::new();
                let mut i: usize = 0;
                while i < all.len()
                    invariant
                        i <= all@.len(),
                        all@.to_set() == panes_of(t, app_id@),
                        want == orphans(t, surfaces@, app_id@),
                        forall|m: int| 0 <= m < ids@.len() ==> want.contains(#[trigger] ids@[m]),
                        forall|k: int|
                            0 <= k < i && want.contains(#[trigger] all@[k]) ==> ids@.contains(
                                all@[k],
                            ),
                    decreases all@.len() - i,
                {
                    let ghost before = ids@;
                    assert(all@.to_set().contains(all@[i as int]));
                    if !is_shown(&surfaces.panes, all[i]) {
                        ids.push(all[i]);
                        assert(ids@.last() == all@[i as int]);
                        assert forall|x: PaneId| before.contains(x) implies ids@.contains(x) by {
                            let m = choose|m: int| 0 <= m < before.len() && before[m] == x;
                            assert(ids@[m] == x);
                        }
                    }
                    i += 1;
                }
                proof {
                    assert forall|x: PaneId| want.contains(x) implies ids@.contains(x) by {
                        assert(all@.to_set().contains(x));
                        let k = choose|k: int| 0 <= k < all@.len() && all@[k] == x;
                        assert(want.contains(all@[k]));
                    }
                    assert forall|x: PaneId| ids@.contains(x) implies want.contains(x) by {
                        let m = choose|m: int| 0 <= m < ids@.len() && ids@[m] == x;
                        assert(want.contains(ids@[m]));
                    }
                    assert(ids@.to_set() =~= want);
                }
                twm.close_all(&ids);
            }
            None
        },
    }
}

// ── Layers ───────────────────────────────────────────────────────────────────

/// The surfaces beside the windows, such as bars and wallpapers, by screen.
pub struct LayerMaps {
    pub screens: Vec<Vec<SurfaceId>>,
}

impl View for LayerMaps {
    type V = Seq<Seq<SurfaceId>>;

    open spec fn view(&self) -> Seq<Seq<SurfaceId>> {
        Seq::new(self.screens@.len(), |i: int| self.screens@[i]@)
    }
}

/// The screen that a layer gets: the one that it asks for, else the first.
pub open spec fn layer_screen(screens: int, wanted: Option<usize>) -> int {
    match wanted {
        Some(o) => if o < screens {
            o as int
        } else {
            0
        },
        None => 0,
    }
}

pub open spec fn with_layer(
    v: Seq<Seq<SurfaceId>>,
    wanted: Option<usize>,
    surface: SurfaceId,
) -> Seq<Seq<SurfaceId>> {
    if v.len() == 0 {
        v
    } else {
        let o = layer_screen(v.len() as int, wanted);
        v.update(o, v[o].push(surface))
    }
}

/// The first screen from `i` on that shows the layer `surface`.
pub open spec fn screen_of(v: Seq<Seq<SurfaceId>>, i: int, surface: SurfaceId) -> Option<int>
    decreases v.len() - i,
{
    if i < 0 || i >= v.len() {
        None
    } else if v[i].contains(surface) {
        Some(i)
    } else {
        screen_of(v, i + 1, surface)
    }
}

/// The first `n` of `s` without `surface`.
pub open spec fn others(s: Seq<SurfaceId>, n: int, surface: SurfaceId) -> Seq<SurfaceId>
    decreases n,
{
    if n <= 0 {
        Seq::empty()
    } else {
        let before = others(s, n - 1, surface);
        if s[n - 1] == surface {
            before
        } else {
            before.push(s[n - 1])
        }
    }
}

pub open spec fn without_layer(v: Seq<Seq<SurfaceId>>, surface: SurfaceId) -> Seq<Seq<SurfaceId>> {
    match screen_of(v, 0, surface) {
        Some(i) => v.update(i, others(v[i], v[i].len() as int, surface)),
        None => v,
    }
}

/// What is left of `s` without `surface`, and whether that is less.
fn remove_from(s: &Vec<SurfaceId>, surface: SurfaceId) -> (r: (Vec<SurfaceId>, bool))
    ensures
        r.0@ == others(s@, s@.len() as int, surface),
        r.1 == s@.contains(surface),
{
    let mut left: Vec<SurfaceId> = Vec::new();
    let mut found = false;
    let mut i: usize = 0;
    while i < s.len()
        invariant
            i <= s@.len(),
            left@ == others(s@, i as int, surface),
            found == exists|k: int| 0 <= k < i && s@[k] == surface,
        decreases s@.len() - i,
    {
        if s[i] == surface {
            found = true;
        } else {
            left.push(s[i]);
        }
        i += 1;
    }
    (left, found)
}

impl LayerMaps {
    /// A layer comes; it asks for the screen `wanted`.
    pub fn new_layer_surface(&mut self, wanted: Option<usize>, surface: SurfaceId)
        ensures
            final(self)@ == with_layer(old(self)@, wanted, surface),
    {
        if self.screens.len() == 0 {
            return;
        }
        let o: usize = match wanted {
            Some(o) => if o < self.screens.len() {
                o
            } else {
                0
            },
            None => 0,
        };
        self.screens[o].push(surface);
        assert(self@ =~= with_layer(old(self)@, wanted, surface));
    }

    /// A layer goes.
    pub fn layer_destroyed(&mut self, surface: SurfaceId)
        ensures
            final(self)@ == without_layer(old(self)@, surface),
    {
        let ghost v = self@;
        let mut i: usize = 0;
        while i < self.screens.len()
            invariant
                i <= v.len(),
                self@ == v,
                v == old(self)@,
                screen_of(v, 0, surface) == screen_of(v, i as int, surface),
            decreases v.len() - i,
        {
            let (left, found) = remove_from(&self.screens[i], surface);
            assert(v[i as int] == self.screens@[i as int]@);
            if found {
                self.screens[i] = left;
                assert(self@ =~= without_layer(v, surface));
                return;
            }
            i += 1;
        }
    }
}

// ── First configuration ──────────────────────────────────────────────────────

/// What a surface is, and whether its client was told a size before.
#[derive(Debug, Clone, Copy, PartialEq, Eq, Structural)]
pub enum Role {
    Window { told: bool },
    Popup { told: bool },
    /// The popup of an input method, or none of these.
    Other,
}

/// Whether the client of a surface must be told a size now.
pub fn ensure_initial_configure(role: Role) -> (r: bool)
    ensures
        r == (role == Role::Window { told: false } || role == Role::Popup { told: false }),
{
    match role {
        Role::Window { told } => !told,
        Role::Popup { told } => !told,
        Role::Other => false,
    }
}

// ── Laws ─────────────────────────────────────────────────────────────────────

/// The end of a window never closes a pane at once that another surface is
/// shown in.
pub proof fn law_shown_panes_stay(
    t: TwmView,
    a: AnimView,
    s: SurfacesView,
    surface: SurfaceId,
    app_id: Seq<char>,
    now_ms: u64,
    other: SurfaceId,
)
    requires
        other != surface,
        s.panes.contains_key(other),
        t.panes.contains_key(s.panes[other]),
    ensures
        destroyed(t, a, s, surface, app_id, now_ms).0.panes.contains_key(s.panes[other]),
{
    let rest = SurfacesView {
        panes: s.panes.remove(surface),
        unclaimed: s.unclaimed.remove(surface),
    };
    let id = s.panes[other];
    assert(rest.panes.contains_key(other) && rest.panes[other] == id);
    assert(rest.panes.values().contains(id));
    let gone = orphans(t, rest, app_id);
    assert(!gone.contains(id));
    let f = crate::twm::state::forgotten(t, gone);
    crate::twm::laws::law_reflow_only_moves(f);
    assert(f.panes.dom().contains(id));
    assert(crate::twm::state::reflowed(f).panes.dom().contains(id));
}

/// A window without an app id gets a pane with its first commit that has one,
/// and the pane that it would have got at once.
pub proof fn law_late_app_id(
    t: TwmView,
    a: AnimView,
    s: SurfacesView,
    surface: SurfaceId,
    app_id: Seq<char>,
    now_ms: u64,
)
    requires
        app_id.len() > 0,
        !s.unclaimed.contains(surface),
    ensures
        ({
            let (t1, a1, s1, _) = new_window(
                t,
                a,
                s,
                surface,
                Seq::empty(),
                Seq::empty(),
                now_ms,
            );
            let (t2, a2, s2, p) = claimed(t1, a1, s1, surface, app_id, now_ms);
            (t2, a2, s2, p) == {
                let n = new_window(t, a, s, surface, app_id, Seq::empty(), now_ms);
                (n.0, n.1, n.2, Some(n.3))
            }
        }),
{
    assert(s.unclaimed.insert(surface).remove(surface) =~= s.unclaimed);
    assert(!floats(Seq::empty(), app_id));
}

/// A layer that comes and goes leaves every screen as it was.
pub proof fn law_layer_leaves_nothing(
    v: Seq<Seq<SurfaceId>>,
    wanted: Option<usize>,
    surface: SurfaceId,
)
    requires
        forall|i: int| 0 <= i < v.len() ==> !(#[trigger] v[i]).contains(surface),
    ensures
        without_layer(with_layer(v, wanted, surface), surface) == v,
{
    if v.len() > 0 {
        let o = layer_screen(v.len() as int, wanted);
        let w = with_layer(v, wanted, surface);
        assert(w[o].last() == surface);
        lemma_screen_of(w, 0, o, surface);
        lemma_others(v[o], v[o].len() as int, surface);
        lemma_others_same(v[o], w[o], v[o].len() as int, surface);
        assert(v[o].take(v[o].len() as int) =~= v[o]);
        assert(others(w[o], w[o].len() as int, surface) == others(
            w[o],
            v[o].len() as int,
            surface,
        ));
        assert(without_layer(w, surface) =~= v);
    } else {
        assert(without_layer(v, surface) =~= v);
    }
}

proof fn lemma_screen_of(v: Seq<Seq<SurfaceId>>, i: int, o: int, surface: SurfaceId)
    requires
        0 <= i <= o < v.len(),
        v[o].contains(surface),
        forall|k: int| 0 <= k < o ==> !(#[trigger] v[k]).contains(surface),
    ensures
        screen_of(v, i, surface) == Some(o),
    decreases o - i,
{
    if i < o {
        lemma_screen_of(v, i + 1, o, surface);
    }
}

proof fn lemma_others(s: Seq<SurfaceId>, n: int, surface: SurfaceId)
    requires
        0 <= n <= s.len(),
        !s.contains(surface),
    ensures
        others(s, n, surface) == s.take(n),
    decreases n,
{
    if n > 0 {
        lemma_others(s, n - 1, surface);
        assert(s[n - 1] != surface);
        assert(s.take(n) =~= s.take(n - 1).push(s[n - 1]));
    } else {
        assert(s.take(0) =~= Seq::empty());
    }
}

proof fn lemma_others_same(a: Seq<SurfaceId>, b: Seq<SurfaceId>, n: int, surface: SurfaceId)
    requires
        0 <= n <= a.len(),
        n <= b.len(),
        forall|k: int| 0 <= k < n ==> a[k] == b[k],
    ensures
        others(a, n, surface) == others(b, n, surface),
    decreases n,
{
    if n > 0 {
        lemma_others_same(a, b, n - 1, surface);
    }
}

} // verus!
