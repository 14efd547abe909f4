//! What holds of the window manager as a whole.

use vstd::prelude::*;

use crate::twm::layout::{law_one_rect_for_each_pane, law_tiles_do_not_overlap, moderate, rects_of, Layout};
use crate::twm::pane::{
    first_index, lemma_first_index, lemma_without, without, PadView, PaneId, PaneView, WsView,
};
use crate::twm::rect::Rect;
use crate::twm::state::{
    bar_toggled, closed, dispatched, float_moved, forgotten, fullscreen_toggled, laid_out,
    pad_hidden, pad_named, pad_shown, reflowed, registered, split_screen, tiled_ids, without_all,
    TwmAction, TwmView,
};

verus! {

// ── Placing panes ────────────────────────────────────────────────────────────

/// Whether two sets of panes differ at most in where the panes `ids` are.
pub open spec fn same_but_rects(
    a: Map<PaneId, PaneView>,
    b: Map<PaneId, PaneView>,
    ids: Seq<PaneId>,
) -> bool {
    &&& a.dom() == b.dom()
    &&& forall|x: PaneId| #[trigger]
        a.contains_key(x) ==> if ids.contains(x) {
            a[x] == (PaneView { rect: a[x].rect, ..b[x] })
        } else {
            a[x] == b[x]
        }
}

pub proof fn lemma_tiled(panes: Map<PaneId, PaneView>, ids: Seq<PaneId>, x: PaneId)
    ensures
        tiled_ids(panes, ids).contains(x) <==> ids.contains(x) && panes.contains_key(x)
            && !panes[x].floating && !panes[x].fullscreen,
    decreases ids.len(),
{
    if ids.len() > 0 {
        let rest = ids.drop_last();
        let before = tiled_ids(panes, rest);
        lemma_tiled(panes, rest, x);
        assert(ids.contains(x) <==> rest.contains(x) || ids.last() == x) by {
            if ids.contains(x) {
                let k = choose|k: int| 0 <= k < ids.len() && ids[k] == x;
                if k < ids.len() - 1 {
                    assert(rest[k] == x);
                }
            }
            if rest.contains(x) {
                let k = choose|k: int| 0 <= k < rest.len() && rest[k] == x;
                assert(ids[k] == x);
            }
            if ids.last() == x {
                assert(ids[ids.len() - 1] == x);
            }
        }
        let all = tiled_ids(panes, ids);
        if all.len() > before.len() {
            assert(all =~= before.push(ids.last()));
            assert(all.contains(x) <==> before.contains(x) || ids.last() == x) by {
                if all.contains(x) {
                    let k = choose|k: int| 0 <= k < all.len() && all[k] == x;
                    if k < before.len() {
                        assert(before[k] == x);
                    }
                }
                if before.contains(x) {
                    let k = choose|k: int| 0 <= k < before.len() && before[k] == x;
                    assert(all[k] == x);
                }
                if ids.last() == x {
                    assert(all[before.len() as int] == x);
                }
            }
        }
    }
}

proof fn lemma_tiled_same(
    a: Map<PaneId, PaneView>,
    b: Map<PaneId, PaneView>,
    all: Seq<PaneId>,
    ids: Seq<PaneId>,
)
    requires
        same_but_rects(a, b, all),
    ensures
        tiled_ids(a, ids) == tiled_ids(b, ids),
    decreases ids.len(),
{
    if ids.len() > 0 {
        lemma_tiled_same(a, b, all, ids.drop_last());
        let id = ids.last();
        assert(a.contains_key(id) <==> a.dom().contains(id));
        assert(b.contains_key(id) <==> b.dom().contains(id));
    }
}

/// Placing panes changes only where they are.
pub proof fn lemma_laid_out(
    panes: Map<PaneId, PaneView>,
    ids: Seq<PaneId>,
    rects: Seq<Rect>,
    n: int,
    all: Seq<PaneId>,
)
    requires
        0 <= n <= ids.len(),
        forall|k: int| 0 <= k < ids.len() ==> all.contains(#[trigger] ids[k]),
    ensures
        same_but_rects(laid_out(panes, ids, rects, n), panes, all),
    decreases n,
{
    if n > 0 {
        lemma_laid_out(panes, ids, rects, n - 1, all);
        let m = laid_out(panes, ids, rects, n - 1);
        let r = laid_out(panes, ids, rects, n);
        assert(all.contains(ids[n - 1]));
        assert(r.dom() =~= panes.dom());
        assert forall|x: PaneId| #[trigger] r.contains_key(x) implies if all.contains(x) {
            r[x] == (PaneView { rect: r[x].rect, ..panes[x] })
        } else {
            r[x] == panes[x]
        } by {
            assert(m.contains_key(x));
        }
    } else {
        assert(laid_out(panes, ids, rects, n).dom() =~= panes.dom());
    }
}

/// Panes that are placed end up in the same places wherever they were.
proof fn lemma_laid_out_same(
    a: Map<PaneId, PaneView>,
    b: Map<PaneId, PaneView>,
    ids: Seq<PaneId>,
    rects: Seq<Rect>,
    n: int,
    all: Seq<PaneId>,
)
    requires
        0 <= n <= ids.len(),
        same_but_rects(a, b, all),
        forall|k: int| 0 <= k < ids.len() ==> all.contains(#[trigger] ids[k]),
    ensures
        same_but_rects(laid_out(a, ids, rects, n), laid_out(b, ids, rects, n), all),
        forall|k: int|
            0 <= k < n && a.contains_key(#[trigger] ids[k]) ==> laid_out(a, ids, rects, n)[ids[k]]
                == laid_out(b, ids, rects, n)[ids[k]],
    decreases n,
{
    if n > 0 {
        lemma_laid_out_same(a, b, ids, rects, n - 1, all);
        lemma_laid_out(a, ids, rects, n - 1, all);
        lemma_laid_out(b, ids, rects, n - 1, all);
        let ma = laid_out(a, ids, rects, n - 1);
        let mb = laid_out(b, ids, rects, n - 1);
        let ra = laid_out(a, ids, rects, n);
        let rb = laid_out(b, ids, rects, n);
        let id = ids[n - 1];
        assert(ma.contains_key(id) <==> ma.dom().contains(id));
        assert(mb.contains_key(id) <==> mb.dom().contains(id));
        assert(all.contains(id));
        assert(ra.dom() =~= rb.dom());
        assert forall|x: PaneId| #[trigger] ra.contains_key(x) implies if all.contains(x) {
            ra[x] == (PaneView { rect: ra[x].rect, ..rb[x] })
        } else {
            ra[x] == rb[x]
        } by {
            assert(ma.contains_key(x));
        }
        assert forall|k: int| 0 <= k < n && a.contains_key(#[trigger] ids[k]) implies ra[ids[k]]
            == rb[ids[k]] by {
            assert(a.dom().contains(ids[k]));
            assert(ma.dom().contains(ids[k]));
            assert(ma.contains_key(ids[k]));
            if ids[k] == id {
            } else {
                assert(k < n - 1);
            }
        }
    }
}

/// What a reflow does depends on nothing but where the panes of the active
/// workspace belong, not on where they were.
pub proof fn law_reflow_forgets_places(t: TwmView, u: TwmView)
    requires
        u == (TwmView { panes: u.panes, ..t }),
        same_but_rects(t.panes, u.panes, t.ws().panes),
    ensures
        reflowed(t) == reflowed(u),
{
    let all = t.ws().panes;
    let a = t.panes;
    let b = u.panes;
    let ids = tiled_ids(a, all);
    lemma_tiled_same(a, b, all, all);
    let rects = rects_of(t.ws().layout, t.content, ids.len(), t.ws().main_ratio, t.gap);
    assert forall|k: int| 0 <= k < ids.len() implies all.contains(#[trigger] ids[k]) by {
        assert(ids.contains(ids[k]));
        lemma_tiled(a, all, ids[k]);
    }
    let n = ids.len() as int;
    lemma_laid_out_same(a, b, ids, rects, n, all);
    lemma_laid_out(a, ids, rects, n, all);
    let la = laid_out(a, ids, rects, n);
    let lb = laid_out(b, ids, rects, n);
    let ra = reflowed(t).panes;
    let rb = reflowed(u).panes;
    assert(ra.dom() =~= rb.dom()) by {
        assert forall|x: PaneId| ra.dom().contains(x) <==> rb.dom().contains(x) by {
            assert(la.contains_key(x) <==> la.dom().contains(x));
            assert(lb.contains_key(x) <==> lb.dom().contains(x));
        }
    }
    assert forall|x: PaneId| ra.contains_key(x) implies #[trigger] ra[x] == rb[x] by {
        assert(la.contains_key(x));
        assert(la.dom().contains(x));
        assert(a.dom().contains(x));
        if all.contains(x) {
            lemma_tiled(a, all, x);
            if ids.contains(x) {
                let k = choose|k: int| 0 <= k < ids.len() && ids[k] == x;
                assert(a.contains_key(ids[k]));
                assert(la[x] == lb[x]);
            }
        }
    }
    assert(ra =~= rb);
}

/// A reflow changes nothing but where the panes of the active workspace are.
pub proof fn law_reflow_only_moves(t: TwmView)
    ensures
        reflowed(t) == (TwmView { panes: reflowed(t).panes, ..t }),
        same_but_rects(reflowed(t).panes, t.panes, t.ws().panes),
{
    let all = t.ws().panes;
    let ids = tiled_ids(t.panes, all);
    let rects = rects_of(t.ws().layout, t.content, ids.len(), t.ws().main_ratio, t.gap);
    assert forall|k: int| 0 <= k < ids.len() implies all.contains(#[trigger] ids[k]) by {
        assert(ids.contains(ids[k]));
        lemma_tiled(t.panes, all, ids[k]);
    }
    lemma_laid_out(t.panes, ids, rects, ids.len() as int, all);
    let l = laid_out(t.panes, ids, rects, ids.len() as int);
    let r = reflowed(t).panes;
    assert(r.dom() =~= t.panes.dom()) by {
        assert forall|x: PaneId| r.dom().contains(x) <==> t.panes.dom().contains(x) by {
            assert(l.contains_key(x) <==> l.dom().contains(x));
        }
    }
    assert forall|x: PaneId| #[trigger] r.contains_key(x) implies if all.contains(x) {
        r[x] == (PaneView { rect: r[x].rect, ..t.panes[x] })
    } else {
        r[x] == t.panes[x]
    } by {
        assert(l.contains_key(x));
    }
}

/// A second reflow changes nothing.
pub proof fn law_reflow_is_idempotent(t: TwmView)
    ensures
        reflowed(reflowed(t)) == reflowed(t),
{
    law_reflow_only_moves(t);
    law_reflow_forgets_places(reflowed(t), t);
}

/// A pane that fills the screen has all of it, and one that floats is where
/// it was put.
pub proof fn law_special_panes_are_placed(t: TwmView, id: PaneId)
    requires
        t.ws().panes.contains(id),
        t.panes.contains_key(id),
    ensures
        t.panes[id].fullscreen ==> reflowed(t).panes[id].rect == t.screen(),
        t.panes[id].floating && !t.panes[id].fullscreen ==> reflowed(t).panes[id].rect
            == t.panes[id].float_rect,
{
    law_reflow_only_moves(t);
    let all = t.ws().panes;
    let ids = tiled_ids(t.panes, all);
    let rects = rects_of(t.ws().layout, t.content, ids.len(), t.ws().main_ratio, t.gap);
    assert forall|k: int| 0 <= k < ids.len() implies all.contains(#[trigger] ids[k]) by {
        assert(ids.contains(ids[k]));
        lemma_tiled(t.panes, all, ids[k]);
    }
    lemma_laid_out(t.panes, ids, rects, ids.len() as int, all);
    let l = laid_out(t.panes, ids, rects, ids.len() as int);
    assert(l.dom().contains(id));
    assert(l.contains_key(id));
}

pub proof fn lemma_tiled_unique(panes: Map<PaneId, PaneView>, ids: Seq<PaneId>)
    requires
        ids.no_duplicates(),
    ensures
        tiled_ids(panes, ids).no_duplicates(),
    decreases ids.len(),
{
    if ids.len() > 0 {
        let rest = ids.drop_last();
        lemma_tiled_unique(panes, rest);
        lemma_tiled(panes, rest, ids.last());
        assert(!rest.contains(ids.last())) by {
            if rest.contains(ids.last()) {
                let k = choose|k: int| 0 <= k < rest.len() && rest[k] == ids.last();
                assert(ids[k] == ids[ids.len() - 1]);
            }
        }
    }
}

pub proof fn lemma_laid_out_at(
    panes: Map<PaneId, PaneView>,
    ids: Seq<PaneId>,
    rects: Seq<Rect>,
    n: int,
    k: int,
)
    requires
        ids.no_duplicates(),
        0 <= k < n <= ids.len(),
        panes.contains_key(ids[k]),
    ensures
        laid_out(panes, ids, rects, n).contains_key(ids[k]),
        laid_out(panes, ids, rects, n)[ids[k]].rect == rects[k],
    decreases n,
{
    lemma_laid_out(panes, ids, rects, n - 1, ids);
    let m = laid_out(panes, ids, rects, n - 1);
    assert(panes.dom().contains(ids[k]));
    assert(m.dom().contains(ids[k]));
    assert(m.contains_key(ids[k]));
    if k < n - 1 {
        lemma_laid_out_at(panes, ids, rects, n - 1, k);
        assert(ids[k] != ids[n - 1]);
    }
}

/// On the active workspace no two panes that the layout places overlap, but
/// in the layout that shows one pane at a time.
pub proof fn law_tiled_panes_do_not_overlap(t: TwmView, a: PaneId, b: PaneId)
    requires
        t.wf(),
        t.ws().panes.no_duplicates(),
        t.ws().layout != Layout::Monocle,
        moderate(t.content),
        t.gap < 0x100_0000,
        a != b,
        tiled_ids(t.panes, t.ws().panes).contains(a),
        tiled_ids(t.panes, t.ws().panes).contains(b),
    ensures
        reflowed(t).panes[a].rect.apart(reflowed(t).panes[b].rect),
{
    let w = t.ws();
    let ids = tiled_ids(t.panes, w.panes);
    let rects = rects_of(w.layout, t.content, ids.len(), w.main_ratio, t.gap);
    law_one_rect_for_each_pane(w.layout, t.content, ids.len(), w.main_ratio, t.gap);
    lemma_tiled_unique(t.panes, w.panes);
    lemma_tiled(t.panes, w.panes, a);
    lemma_tiled(t.panes, w.panes, b);
    let i = choose|i: int| 0 <= i < ids.len() && ids[i] == a;
    let j = choose|j: int| 0 <= j < ids.len() && ids[j] == b;
    lemma_laid_out_at(t.panes, ids, rects, ids.len() as int, i);
    lemma_laid_out_at(t.panes, ids, rects, ids.len() as int, j);
    assert forall|k: int| 0 <= k < ids.len() implies w.panes.contains(#[trigger] ids[k]) by {
        assert(ids.contains(ids[k]));
        lemma_tiled(t.panes, w.panes, ids[k]);
    }
    lemma_laid_out(t.panes, ids, rects, ids.len() as int, w.panes);
    law_tiles_do_not_overlap(w.layout, t.content, ids.len(), w.main_ratio, t.gap, i, j);
}

// ── Actions that undo each other ─────────────────────────────────────────────

/// Filling the screen twice puts everything back where it belongs.
pub proof fn law_fullscreen_twice(t: TwmView, f: PaneId)
    requires
        t.wf(),
        t.ws().focused == Some(f),
        t.ws().panes.contains(f),
        t.panes.contains_key(f),
    ensures
        dispatched(dispatched(t, TwmAction::Fullscreen), TwmAction::Fullscreen) == reflowed(t),
{
    let all = t.ws().panes;
    let x = fullscreen_toggled(t);
    let y = reflowed(x);
    law_reflow_only_moves(x);
    let z = fullscreen_toggled(y);
    assert(y.panes.dom().contains(f) <==> x.panes.dom().contains(f));
    assert(x.panes.contains_key(f));
    assert(x.panes.dom().contains(f));
    assert(y.panes.contains_key(f));
    assert(same_but_rects(z.panes, t.panes, all)) by {
        assert(z.panes.dom() =~= t.panes.dom()) by {
            assert(x.panes.dom() =~= t.panes.dom());
            assert(z.panes.dom() =~= y.panes.dom());
        }
        assert forall|k: PaneId| #[trigger] z.panes.contains_key(k) implies if all.contains(k) {
            z.panes[k] == (PaneView { rect: z.panes[k].rect, ..t.panes[k] })
        } else {
            z.panes[k] == t.panes[k]
        } by {
            assert(y.panes.contains_key(k));
        }
    }
    law_reflow_forgets_places(z, t);
}

/// Going to the next layout and back puts everything back where it belongs.
pub proof fn law_next_layout_and_back(t: TwmView)
    requires
        t.wf(),
    ensures
        dispatched(dispatched(t, TwmAction::NextLayout), TwmAction::PrevLayout) == reflowed(t),
        dispatched(dispatched(t, TwmAction::PrevLayout), TwmAction::NextLayout) == reflowed(t),
{
    let up = t.with_ws(WsView { layout: t.ws().layout.spec_next(), ..t.ws() });
    let down = t.with_ws(WsView { layout: t.ws().layout.spec_prev(), ..t.ws() });
    law_reflow_only_moves(up);
    law_reflow_only_moves(down);
    let a = reflowed(up);
    let b = a.with_ws(WsView { layout: a.ws().layout.spec_prev(), ..a.ws() });
    assert(b.workspaces =~= t.workspaces);
    law_reflow_forgets_places(b, t);
    let c = reflowed(down);
    let d = c.with_ws(WsView { layout: c.ws().layout.spec_next(), ..c.ws() });
    assert(d.workspaces =~= t.workspaces);
    law_reflow_forgets_places(d, t);
}

/// Moving a pane on by one place and back restores the order of the panes.
pub proof fn law_move_and_back(w: WsView, forward: bool)
    requires
        w.panes.no_duplicates(),
    ensures
        w.swapped(forward).swapped(!forward) == w,
{
    let n = w.panes.len() as int;
    match w.focused {
        Some(f) => {
            lemma_first_index(w.panes, f);
            if first_index(w.panes, f) < n && n >= 2 {
                let cur = first_index(w.panes, f);
                let other = if forward {
                    (cur + 1) % n
                } else {
                    (cur + n - 1) % n
                };
                lemma_step(cur, n);
                let v = w.swapped(forward);
                assert(v.panes[other] == f);
                lemma_first_index(v.panes, f);
                let at = first_index(v.panes, f);
                assert(at == other) by {
                    if at < other {
                        if at == cur {
                            assert(v.panes[at] == w.panes[other]);
                        } else {
                            assert(v.panes[at] == w.panes[at]);
                        }
                    }
                }
                lemma_step(other, n);
                assert(v.swapped(!forward).panes =~= w.panes);
            }
        },
        None => {},
    }
}

pub proof fn lemma_step(a: int, n: int)
    requires
        0 <= a < n,
    ensures
        (a + 1) % n == if a == n - 1 {
            0
        } else {
            a + 1
        },
        (a + n - 1) % n == if a == 0 {
            n - 1
        } else {
            a - 1
        },
{
    if a == n - 1 {
        assert(n % n == 0) by (nonlinear_arith)
            requires
                n > 0,
        ;
    } else {
        vstd::arithmetic::div_mod::lemma_small_mod((a + 1) as nat, n as nat);
    }
    if a == 0 {
        vstd::arithmetic::div_mod::lemma_small_mod((n - 1) as nat, n as nat);
    } else {
        vstd::arithmetic::div_mod::lemma_mod_add_multiples_vanish(a - 1, n);
        vstd::arithmetic::div_mod::lemma_small_mod((a - 1) as nat, n as nat);
    }
}

/// Going to the next workspace and back leads back.
pub proof fn law_next_workspace_and_back(t: TwmView)
    requires
        t.wf(),
    ensures
        dispatched(dispatched(t, TwmAction::NextWorkspace), TwmAction::PrevWorkspace).active
            == t.active,
        dispatched(dispatched(t, TwmAction::PrevWorkspace), TwmAction::NextWorkspace).active
            == t.active,
{
    let n = t.workspaces.len() as int;
    lemma_step(t.active, n);
    lemma_step((t.active + 1) % n, n);
    lemma_step((t.active + n - 1) % n, n);
}

/// Hiding the bar and showing it again, or the other way round, restores the
/// area of the panes.
pub proof fn law_bar_twice(t: TwmView)
    requires
        t.content == split_screen(
            t.screen_w,
            t.screen_h,
            if t.bar_visible {
                t.bar.h
            } else {
                0
            },
            t.bar.y > 0,
            t.padding,
        ).0,
    ensures
        bar_toggled(bar_toggled(t)) == t,
{
}

/// The bar and the area of the panes do not overlap, and both are on the
/// screen.
pub proof fn law_bar_is_apart(sw: u32, sh: u32, bar_h: u32, at_bottom: bool, padding: u32)
    requires
        padding <= sw / 2,
        2 * padding + bar_h <= sh,
    ensures
        ({
            let (content, bar) = split_screen(sw, sh, bar_h, at_bottom, padding);
            let screen = Rect { x: 0, y: 0, w: sw, h: sh };
            &&& content.apart(bar)
            &&& content.within(screen)
            &&& bar.within(screen)
            &&& bar.h == bar_h
        }),
{
}

/// A floating pane that fits on the screen is on it once it was moved.
pub proof fn law_moved_pane_is_on_screen(t: TwmView, id: PaneId, dx: i32, dy: i32)
    requires
        t.panes.contains_key(id),
        t.panes[id].floating,
        t.panes[id].rect.w <= t.screen_w,
        t.panes[id].rect.h <= t.screen_h,
    ensures
        float_moved(t, id, dx, dy).panes[id].rect.within(t.screen()),
{
}

// ── Closing ──────────────────────────────────────────────────────────────────

pub proof fn lemma_without_all(s: Seq<PaneId>, gone: Set<PaneId>, x: PaneId)
    ensures
        without_all(s, gone).contains(x) <==> s.contains(x) && !gone.contains(x),
    decreases s.len(),
{
    if s.len() > 0 {
        let rest = s.drop_last();
        lemma_without_all(rest, gone, x);
        assert(s.contains(x) <==> rest.contains(x) || s.last() == x) by {
            if s.contains(x) {
                let k = choose|k: int| 0 <= k < s.len() && s[k] == x;
                if k < s.len() - 1 {
                    assert(rest[k] == x);
                }
            }
            if rest.contains(x) {
                let k = choose|k: int| 0 <= k < rest.len() && rest[k] == x;
                assert(s[k] == x);
            }
            if s.last() == x {
                assert(s[s.len() - 1] == x);
            }
        }
        let before = without_all(rest, gone);
        let all = without_all(s, gone);
        if !gone.contains(s.last()) {
            assert(all =~= before.push(s.last()));
            assert(all.contains(x) <==> before.contains(x) || s.last() == x) by {
                if all.contains(x) {
                    let k = choose|k: int| 0 <= k < all.len() && all[k] == x;
                    if k < before.len() {
                        assert(before[k] == x);
                    }
                }
                if before.contains(x) {
                    let k = choose|k: int| 0 <= k < before.len() && before[k] == x;
                    assert(all[k] == x);
                }
                if s.last() == x {
                    assert(all[before.len() as int] == x);
                }
            }
        }
    }
}

/// A pane that was closed is gone: from the panes, from every workspace and
/// its focus, and from every scratchpad. The other panes are still there.
pub proof fn law_closed_pane_is_gone(t: TwmView, id: PaneId)
    ensures
        !closed(t, id).panes.contains_key(id),
        forall|x: PaneId|
            x != id ==> (#[trigger] closed(t, id).panes.contains_key(x) <==> t.panes.contains_key(x)),
        forall|i: int|
            0 <= i < t.workspaces.len() ==> !(#[trigger] closed(t, id).workspaces[i]).panes.contains(
                id,
            ) && closed(t, id).workspaces[i].focused != Some(id),
        forall|i: int|
            0 <= i < t.pads.len() ==> (#[trigger] closed(t, id).pads[i]).pane_id != Some(id),
{
    let f = forgotten(t, set![id]);
    law_reflow_only_moves(f);
    let c = closed(t, id);
    assert(c.panes.dom() == f.panes.dom());
    assert(!f.panes.dom().contains(id));
    assert forall|x: PaneId| x != id implies (#[trigger] c.panes.contains_key(x)
        <==> t.panes.contains_key(x)) by {
        assert(c.panes.dom().contains(x) <==> f.panes.dom().contains(x));
    }
    assert forall|i: int| 0 <= i < t.workspaces.len() implies !(
    #[trigger] c.workspaces[i]).panes.contains(id) && c.workspaces[i].focused != Some(id) by {
        let s = t.workspaces[i].panes;
        lemma_without_all(s, set![id], id);
        let w = without_all(s, set![id]);
        if w.len() > 0 {
            assert(w.contains(w.last())) by {
                assert(w[w.len() - 1] == w.last());
            }
        }
    }
}

// ── Scratchpads ──────────────────────────────────────────────────────────────

/// Registering a scratchpad again under a name that is taken changes nothing.
pub proof fn law_register_once(t: TwmView, a: PadView, b: PadView)
    requires
        a.name == b.name,
    ensures
        registered(registered(t, a), b) == registered(t, a),
{
    let u = registered(t, a);
    if pad_named(t.pads, a.name) >= t.pads.len() {
        lemma_pad_named_push(t.pads, a);
    }
}

proof fn lemma_pad_named_push(pads: Seq<PadView>, p: PadView)
    ensures
        pad_named(pads.push(p), p.name) <= pads.len(),
    decreases pads.len(),
{
    if pads.len() > 0 && pads[0].name != p.name {
        lemma_pad_named_push(pads.skip(1), p);
        assert(pads.push(p).skip(1) =~= pads.skip(1).push(p));
    }
}

/// A scratchpad whose pane is in no workspace can be shown and hidden again,
/// and every workspace has the panes that it had.
pub proof fn law_pad_shown_and_hidden(t: TwmView, i: int, id: PaneId)
    requires
        t.wf(),
        0 <= i < t.pads.len(),
        forall|k: int|
            0 <= k < t.workspaces.len() ==> !(#[trigger] t.workspaces[k]).panes.contains(id),
    ensures
        forall|k: int|
            0 <= k < t.workspaces.len() ==> (#[trigger] pad_hidden(
                pad_shown(t, i, id),
                i,
                id,
            ).workspaces[k]).panes == t.workspaces[k].panes,
{
    let s = pad_shown(t, i, id);
    let h = pad_hidden(s, i, id);
    assert forall|k: int| 0 <= k < t.workspaces.len() implies (#[trigger] h.workspaces[k]).panes
        == t.workspaces[k].panes by {
        lemma_without(t.workspaces[k].panes, id);
        if k == t.active {
            let p = t.workspaces[k].panes;
            assert(s.workspaces[k].panes == p.push(id));
            assert(p.push(id).drop_last() =~= p);
            assert(without(p.push(id), id) == without(p, id));
        }
    }
}

} // verus!
