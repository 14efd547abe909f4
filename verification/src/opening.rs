//! What holds of windows that open and close, and of layers.

use vstd::prelude::*;

use crate::config::rules::{EffectView, RuleView};
use crate::input::inner_of;
use crate::shell::{
    destroyed, floats, forced_size, new_window, orphans, size_set, with_layer, SurfaceId,
    SurfacesView,
};
use crate::twm::actions::{
    has_opened, is_without, lemma_forgotten_is_without, lemma_opened, other_panes_same,
};
use crate::twm::anim::{AnimKind, AnimView};
use crate::twm::pane::{ContentView, PaneId, WsView};
use crate::twm::state::{opened, shell_content, TwmView};

verus! {

/// Of several sizes the last one counts.
pub proof fn law_last_size_counts(effects: Seq<EffectView>, i: int, w: u32, h: u32)
    requires
        0 <= i < effects.len(),
        effects[i] == EffectView::Size(w, h),
        forall|k: int| i < k < effects.len() ==> !((#[trigger] effects[k]) is Size),
    ensures
        size_set(effects) == Some((w, h)),
    decreases effects.len(),
{
    if i < effects.len() - 1 {
        assert(!(effects[effects.len() - 1] is Size));
        assert forall|k: int| i < k < effects.len() - 1 implies !((
        #[trigger] effects.drop_last()[k]) is Size) by {
            assert(effects.drop_last()[k] == effects[k]);
        }
        law_last_size_counts(effects.drop_last(), i, w, h);
    }
}

proof fn lemma_no_size(effects: Seq<EffectView>)
    requires
        forall|k: int| 0 <= k < effects.len() ==> !((#[trigger] effects[k]) is Size),
    ensures
        size_set(effects) is None,
    decreases effects.len(),
{
    if effects.len() > 0 {
        assert(!(effects[effects.len() - 1] is Size));
        assert forall|k: int| 0 <= k < effects.len() - 1 implies !((
        #[trigger] effects.drop_last()[k]) is Size) by {
            assert(effects.drop_last()[k] == effects[k]);
        }
        lemma_no_size(effects.drop_last());
    }
}

/// Whether a rule gives windows of a program a size.
pub open spec fn sizes(r: RuleView, app_id: Seq<char>) -> bool {
    r.matcher.means(app_id, Seq::empty()) && exists|k: int|
        0 <= k < r.effects.len() && (#[trigger] r.effects[k]) is Size
}

/// The size of a window is that of the last rule that means it and has one; without such
/// a rule it has none.
pub proof fn law_last_rule_sizes(rules: Seq<RuleView>, app_id: Seq<char>, i: int)
    requires
        0 <= i <= rules.len(),
        i < rules.len() ==> rules[i].matcher.means(app_id, Seq::empty()) && size_set(
            rules[i].effects,
        ) is Some,
        forall|k: int| i < k < rules.len() ==> !sizes(#[trigger] rules[k], app_id),
        i == rules.len() ==> forall|k: int|
            0 <= k < rules.len() ==> !sizes(#[trigger] rules[k], app_id),
    ensures
        forced_size(rules, app_id) == (if i < rules.len() {
            size_set(rules[i].effects)
        } else {
            None
        }),
    decreases rules.len(),
{
    if rules.len() > 0 && i != rules.len() - 1 {
        let last = rules[rules.len() - 1];
        assert(!sizes(last, app_id));
        if last.matcher.means(app_id, Seq::empty()) {
            lemma_no_size(last.effects);
        }
        let rest = rules.drop_last();
        assert forall|k: int| 0 <= k < rest.len() implies #[trigger] rest[k] == rules[k] by {}
        if i < rules.len() {
            law_last_rule_sizes(rest, app_id, i);
        } else {
            law_last_rule_sizes(rest, app_id, rest.len() as int);
        }
    }
}

/// A window with an app id opens in a pane of its own, with the focus. It floats just where
/// a rule says so. It is placed inside the border of its pane, with the size of its rule or
/// that of the inside. Its pane slides in.
pub proof fn law_window_opens(
    t: TwmView,
    a: AnimView,
    s: SurfacesView,
    surface: SurfaceId,
    app_id: Seq<char>,
    rules: Seq<RuleView>,
    now_ms: u64,
)
    requires
        t.wf(),
        app_id.len() > 0,
    ensures
        ({
            let (u, b, v, p) = new_window(t, a, s, surface, app_id, rules, now_ms);
            let id = t.next_id;
            let inner = inner_of(u.panes[id].rect, t.border_w);
            &&& u.panes.contains_key(id)
            &&& u.panes[id].content == (ContentView::Shell { app_id, title: app_id })
            &&& u.panes[id].floating <==> exists|i: int|
                0 <= i < rules.len() && (#[trigger] rules[i]).matcher.means(app_id, Seq::empty())
                    && rules[i].effects.contains(EffectView::Float)
            &&& !u.panes[id].fullscreen
            &&& u.ws() == (WsView { panes: t.ws().panes + seq![id], focused: Some(id), ..t.ws() })
            &&& other_panes_same(t, u, id)
            &&& u.active == t.active
            &&& v.panes == s.panes.insert(surface, id) && v.unclaimed == s.unclaimed
            &&& p.pane == Some(id)
            &&& p.at == (inner.x as i32, inner.y as i32)
            &&& p.size == (match forced_size(rules, app_id) {
                Some((w, h)) => Some((w as i32, h as i32)),
                None => Some((inner.w as i32, inner.h as i32)),
            })
            &&& b.panes.contains_key(id) && b.panes[id].kind == AnimKind::Open
                && b.panes[id].start_ms == now_ms && b.panes[id].target_rect == u.panes[id].rect
            &&& forall|o: PaneId|
                o != id ==> (#[trigger] a.panes.contains_key(o) <==> b.panes.contains_key(o)) && (
                a.panes.contains_key(o) ==> b.panes[o] == a.panes[o])
        }),
{
    let c = ContentView::Shell { app_id, title: app_id };
    lemma_opened(t, c);
    assert(shell_content(app_id) == c);
    let o = opened(t, c);
    assert(has_opened(t, o, c));
    let u = new_window(t, a, s, surface, app_id, rules, now_ms).0;
    let id = t.next_id;
    assert forall|x: PaneId| x != id implies (#[trigger] t.panes.contains_key(x)
        <==> u.panes.contains_key(x)) by {
        assert(t.panes.contains_key(x) <==> o.panes.contains_key(x));
    }
}

/// A window without an app id gets no pane yet, and is remembered.
pub proof fn law_window_waits(
    t: TwmView,
    a: AnimView,
    s: SurfacesView,
    surface: SurfaceId,
    rules: Seq<RuleView>,
    now_ms: u64,
)
    ensures
        ({
            let (u, b, v, p) = new_window(t, a, s, surface, Seq::empty(), rules, now_ms);
            &&& u == t && b == a
            &&& v.unclaimed == s.unclaimed.insert(surface) && v.panes == s.panes
            &&& p.pane is None
        }),
{
}

/// A window that ends in a pane lets the pane slide out; it is closed later, and nothing
/// else changes. One that was in none closes the panes of its program that show no other.
pub proof fn law_window_ends(
    t: TwmView,
    a: AnimView,
    s: SurfacesView,
    surface: SurfaceId,
    app_id: Seq<char>,
    now_ms: u64,
)
    requires
        t.wf(),
    ensures
        ({
            let (u, b, v, p) = destroyed(t, a, s, surface, app_id, now_ms);
            &&& v.panes == s.panes.remove(surface) && v.unclaimed == s.unclaimed.remove(surface)
            &&& s.panes.contains_key(surface) ==> {
                let id = s.panes[surface];
                &&& p == Some(id)
                &&& u == t
                &&& t.panes.contains_key(id) ==> b.panes.contains_key(id) && b.panes[id].kind
                    == AnimKind::Close && b.panes[id].start_ms == now_ms && b.panes[id].target_rect
                    == t.panes[id].rect
                &&& forall|o: PaneId|
                    o != id ==> (#[trigger] a.panes.contains_key(o) <==> b.panes.contains_key(o))
                        && (a.panes.contains_key(o) ==> b.panes[o] == a.panes[o])
            }
            &&& !s.panes.contains_key(surface) ==> p is None && b == a
            &&& !s.panes.contains_key(surface) && app_id.len() == 0 ==> u == t
            &&& !s.panes.contains_key(surface) && app_id.len() > 0 ==> {
                let gone = Set::new(
                    |id: PaneId|
                        t.panes.contains_key(id) && t.panes[id].content.app() == app_id
                            && forall|o: SurfaceId|
                            o != surface && #[trigger] s.panes.contains_key(o) ==> s.panes[o] != id,
                );
                (gone.is_empty() && u == t) || is_without(t, u, gone)
            }
        }),
{
    if !s.panes.contains_key(surface) && app_id.len() > 0 {
        let rest = SurfacesView {
            panes: s.panes.remove(surface),
            unclaimed: s.unclaimed.remove(surface),
        };
        let gone = Set::new(
            |id: PaneId|
                t.panes.contains_key(id) && t.panes[id].content.app() == app_id && forall|
                    o: SurfaceId,
                |
                    o != surface && #[trigger] s.panes.contains_key(o) ==> s.panes[o] != id,
        );
        let all = orphans(t, rest, app_id);
        assert forall|id: PaneId| all.contains(id) <==> gone.contains(id) by {
            if all.contains(id) {
                assert forall|o: SurfaceId|
                    o != surface && #[trigger] s.panes.contains_key(o) implies s.panes[o] != id by {
                    assert(rest.panes.contains_key(o));
                    assert(rest.panes[o] == s.panes[o]);
                    assert(rest.panes.values().contains(s.panes[o]));
                }
            }
            if gone.contains(id) {
                if rest.panes.values().contains(id) {
                    let o = choose|o: SurfaceId|
                        rest.panes.contains_key(o) && rest.panes[o] == id;
                    assert(s.panes.contains_key(o));
                }
            }
        }
        assert(all =~= gone);
        lemma_forgotten_is_without(t, gone);
    }
}

/// A layer goes to the screen that it asks for, where there is one, and else to the first;
/// it stands behind those that are there, and the other screens stay.
pub proof fn law_layers_go_to_their_screen(
    v: Seq<Seq<SurfaceId>>,
    wanted: Option<usize>,
    surface: SurfaceId,
    i: int,
)
    requires
        0 <= i < v.len(),
    ensures
        ({
            let u = with_layer(v, wanted, surface);
            let there = match wanted {
                Some(o) => o == i || (o >= v.len() && i == 0),
                None => i == 0,
            };
            &&& u.len() == v.len()
            &&& there ==> u[i] == v[i] + seq![surface]
            &&& !there ==> u[i] == v[i]
        }),
{
    assert(v[i] + seq![surface] =~= v[i].push(surface));
}

} // verus!
