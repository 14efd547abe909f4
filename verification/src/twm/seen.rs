//! What is seen of the window manager, and how screens and scratchpads are set up.

use vstd::prelude::*;

use crate::twm::actions::{law_screen_is_split, lemma_reflow_keeps, same_panes};
use crate::twm::pads::lemma_pad_named;
use crate::twm::pane::{ContentView, PadView, PaneId, PaneView};
use crate::twm::state::{
    embedded_seen, pad_named, panes_seen, rects_seen, reflowed, registered, resplit, TwmView,
};

verus! {

/// A snapshot shows the panes of a workspace in their order, each as it is.
pub proof fn law_snapshots_show_panes(panes: Map<PaneId, PaneView>, ids: Seq<PaneId>, i: int)
    requires
        forall|k: int| 0 <= k < ids.len() ==> panes.contains_key(#[trigger] ids[k]),
        0 <= i < ids.len(),
    ensures
        panes_seen(panes, ids).len() == ids.len(),
        ({
            let p = panes[ids[i]];
            let s = panes_seen(panes, ids)[i];
            &&& s.id == p.id && s.rect == p.rect
            &&& s.fullscreen == p.fullscreen && s.floating == p.floating
            &&& match p.content {
                ContentView::Shell { app_id, title } => s.app_id == app_id && s.title == title
                    && !s.is_embedded,
                ContentView::Embedded { app_id } => s.app_id == app_id && s.title == app_id
                    && s.is_embedded,
                ContentView::Empty => s.app_id.len() == 0 && s.title == "empty"@ && !s.is_embedded,
            }
        }),
        rects_seen(panes, ids).len() == ids.len(),
        rects_seen(panes, ids)[i] == (ids[i], panes[ids[i]].rect),
    decreases ids.len(),
{
    let rest = ids.drop_last();
    assert(panes.contains_key(ids[ids.len() - 1]));
    assert forall|k: int| 0 <= k < rest.len() implies panes.contains_key(#[trigger] rest[k]) by {
        assert(rest[k] == ids[k]);
    }
    if rest.len() > 0 {
        law_snapshots_show_panes(panes, rest, if i < rest.len() { i } else { 0 });
    } else {
        assert(panes_seen(panes, rest).len() == 0);
        assert(rects_seen(panes, rest).len() == 0);
    }
}

/// Panes that do not exist are left out.
pub proof fn law_snapshots_show_no_others(panes: Map<PaneId, PaneView>, ids: Seq<PaneId>, k: int)
    requires
        0 <= k < rects_seen(panes, ids).len(),
    ensures
        panes.contains_key(rects_seen(panes, ids)[k].0),
        ids.contains(rects_seen(panes, ids)[k].0),
        rects_seen(panes, ids)[k].1 == panes[rects_seen(panes, ids)[k].0].rect,
    decreases ids.len(),
{
    let rest = ids.drop_last();
    let before = rects_seen(panes, rest);
    if k < before.len() {
        law_snapshots_show_no_others(panes, rest, k);
        let x = before[k].0;
        let j = choose|j: int| 0 <= j < rest.len() && rest[j] == x;
        assert(ids[j] == x);
    } else {
        assert(ids[ids.len() - 1] == ids.last());
    }
}

/// A program that is embedded in a pane of a workspace is told the place of that pane.
pub proof fn law_embedded_programs_have_places(
    panes: Map<PaneId, PaneView>,
    ids: Seq<PaneId>,
    i: int,
) -> (k: int)
    requires
        0 <= i < ids.len(),
        panes.contains_key(ids[i]),
        panes[ids[i]].content is Embedded,
    ensures
        0 <= k < embedded_seen(panes, ids).len(),
        embedded_seen(panes, ids)[k].1 == panes[ids[i]].rect,
        panes[ids[i]].content == (ContentView::Embedded { app_id: embedded_seen(panes, ids)[k].0 }),
    decreases ids.len(),
{
    let rest = ids.drop_last();
    let before = embedded_seen(panes, rest);
    if i == ids.len() - 1 {
        before.len() as int
    } else {
        assert(rest[i] == ids[i]);
        law_embedded_programs_have_places(panes, rest, i)
    }
}

/// No other panes are told.
pub proof fn law_only_embedded_programs(
    panes: Map<PaneId, PaneView>,
    ids: Seq<PaneId>,
    k: int,
) -> (i: int)
    requires
        0 <= k < embedded_seen(panes, ids).len(),
    ensures
        0 <= i < ids.len(),
        panes.contains_key(ids[i]),
        panes[ids[i]].content == (ContentView::Embedded { app_id: embedded_seen(panes, ids)[k].0 }),
        embedded_seen(panes, ids)[k].1 == panes[ids[i]].rect,
    decreases ids.len(),
{
    let rest = ids.drop_last();
    let before = embedded_seen(panes, rest);
    if k < before.len() {
        let i = law_only_embedded_programs(panes, rest, k);
        assert(rest[i] == ids[i]);
        i
    } else {
        ids.len() - 1
    }
}

/// A screen of another size has its bar where it was, as high as it was, and the rest is for
/// the panes. The panes stay on their workspaces.
pub proof fn law_resized_screen(t: TwmView, screen_w: u32, screen_h: u32)
    requires
        t.wf(),
        t.bar.h > 0,
        2 * t.padding <= screen_w,
        2 * t.padding + t.bar.h <= screen_h,
    ensures
        ({
            let u = reflowed(
                resplit((TwmView { screen_w, screen_h, ..t }), t.bar.h, t.bar.y > 0),
            );
            &&& u.screen_w == screen_w && u.screen_h == screen_h
            &&& u.bar.h == t.bar.h && u.bar.w == screen_w && u.bar.x == 0
            &&& t.bar.y == 0 ==> u.bar.y == 0 && u.content.y == t.bar.h + t.padding
            &&& t.bar.y > 0 ==> u.bar.y + u.bar.h == screen_h && u.content.y == t.padding
            &&& u.content.x == t.padding && u.content.w == screen_w - 2 * t.padding
            &&& u.content.h == screen_h - t.bar.h - 2 * t.padding
            &&& same_panes(t, u)
            &&& u.workspaces == t.workspaces && u.active == t.active
        }),
{
    let a = TwmView { screen_w, screen_h, ..t };
    law_screen_is_split(screen_w, screen_h, t.bar.h, t.bar.y > 0, t.padding);
    lemma_reflow_keeps(resplit(a, t.bar.h, t.bar.y > 0));
}

/// A scratchpad with a new name comes behind those that there are, and nothing else changes;
/// one with a name that is taken is not added.
pub proof fn law_pads_are_registered(t: TwmView, p: PadView)
    ensures
        (forall|i: int| 0 <= i < t.pads.len() ==> (#[trigger] t.pads[i]).name != p.name)
            ==> registered(t, p) == (TwmView { pads: t.pads + seq![p], ..t }),
        (exists|i: int| 0 <= i < t.pads.len() && (#[trigger] t.pads[i]).name == p.name)
            ==> registered(t, p) == t,
{
    lemma_pad_named(t.pads, p.name);
    let i = pad_named(t.pads, p.name);
    assert(t.pads + seq![p] =~= t.pads.push(p));
    if i < t.pads.len() {
        assert(t.pads[i].name == p.name);
    }
}

} // verus!
