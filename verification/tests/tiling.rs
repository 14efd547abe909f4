//! Layouts, panes and workspaces.

use trixie::single::Ratio;
use trixie::twm::layout::{compute, Layout};
use trixie::twm::rect::Rect;
use trixie::twm::state::{TwmAction, TwmState};

fn r(x: u32, y: u32, w: u32, h: u32) -> Rect {
    Rect::new(x, y, w, h)
}

fn state() -> TwmState {
    TwmState::new(1000, 640, 40, true, 10, 2, 0, 4)
}

fn rects(t: &TwmState) -> Vec<(u32, Rect)> {
    t.pane_rects_snapshot()
}

#[test]
fn layouts_give_these_rectangles() {
    let a = r(10, 20, 1000, 600);
    let m = Ratio::main();
    assert_eq!(
        compute(Layout::Bsp, a, 4, m, 10),
        vec![r(10, 20, 495, 600), r(515, 20, 495, 295), r(515, 325, 242, 295), r(767, 325, 243, 295)]
    );
    assert_eq!(
        compute(Layout::Columns, a, 3, m, 10),
        vec![r(10, 20, 550, 600), r(570, 20, 440, 295), r(570, 325, 440, 295)]
    );
    assert_eq!(
        compute(Layout::Rows, a, 4, m, 10),
        vec![
            r(10, 20, 1000, 330),
            r(10, 360, 326, 260),
            r(346, 360, 326, 260),
            r(682, 360, 328, 260)
        ]
    );
    assert_eq!(compute(Layout::Monocle, a, 3, m, 10), vec![a, a, a]);
    assert_eq!(
        compute(Layout::ThreeCol, a, 4, m, 10),
        vec![
            r(235, 20, 550, 600),
            r(10, 20, 215, 600),
            r(795, 20, 215, 295),
            r(795, 325, 215, 295)
        ]
    );
    for l in [Layout::Bsp, Layout::Columns, Layout::Rows, Layout::Monocle, Layout::ThreeCol] {
        assert_eq!(compute(l, a, 0, m, 10), vec![]);
        assert_eq!(compute(l, a, 1, m, 10), vec![a]);
    }
}

#[test]
fn tiles_do_not_overlap_and_stay_inside() {
    let a = r(5, 7, 1901, 1033);
    for l in [Layout::Bsp, Layout::Columns, Layout::Rows, Layout::ThreeCol] {
        for n in 1..9 {
            let v = compute(l, a, n, Ratio::main(), 6);
            assert_eq!(v.len(), n);
            for (i, p) in v.iter().enumerate() {
                assert!(p.x >= a.x && p.x + p.w <= a.x + a.w, "{:?} {}", l, n);
                assert!(p.y >= a.y && p.y + p.h <= a.y + a.h, "{:?} {}", l, n);
                for q in &v[i + 1..] {
                    assert!(
                        p.x + p.w <= q.x || q.x + q.w <= p.x || p.y + p.h <= q.y || q.y + q.h <= p.y
                    );
                }
            }
        }
    }
}

#[test]
fn layouts_go_round() {
    let all = [Layout::Bsp, Layout::Columns, Layout::Rows, Layout::ThreeCol, Layout::Monocle];
    for l in all {
        assert_eq!(l.next().prev(), l);
        assert_eq!(l.prev().next(), l);
    }
    assert_eq!(Layout::Bsp.label(), "BSP");
    assert_eq!(Layout::ThreeCol.label(), "ThreeCol");
}

#[test]
fn panes_share_the_screen() {
    let mut t = state();
    assert_eq!(t.content_rect, r(0, 0, 1000, 600));
    assert_eq!(t.bar_rect, r(0, 600, 1000, 40));
    let a = t.open_shell("term");
    assert_eq!(rects(&t), vec![(a, r(0, 0, 1000, 600))]);
    let b = t.open_shell("edit");
    assert_eq!(rects(&t), vec![(a, r(0, 0, 495, 600)), (b, r(505, 0, 495, 600))]);
    assert_eq!(t.focused_id(), Some(b));
    t.dispatch(TwmAction::Close);
    assert_eq!(rects(&t), vec![(a, r(0, 0, 1000, 600))]);
    assert_eq!(t.focused_id(), Some(a));
}

#[test]
fn fullscreen_covers_all_and_comes_back() {
    let mut t = state();
    let a = t.open_shell("a");
    let b = t.open_shell("b");
    let before = rects(&t);
    t.dispatch(TwmAction::Fullscreen);
    assert_eq!(t.panes[&b].rect, r(0, 0, 1000, 640));
    assert_eq!(t.panes[&a].rect, r(0, 0, 1000, 600));
    t.dispatch(TwmAction::Fullscreen);
    assert_eq!(rects(&t), before);
}

#[test]
fn panes_float_and_move() {
    let mut t = state();
    let a = t.open_shell("a");
    t.dispatch(TwmAction::ToggleFloat);
    assert!(t.panes[&a].floating);
    assert_eq!(t.panes[&a].rect, r(0, 0, 1000, 600));
    t.dispatch(TwmAction::FloatResize(a, -600, -300));
    assert_eq!(t.panes[&a].rect, r(0, 0, 400, 300));
    t.dispatch(TwmAction::FloatMove(a, 100, 50));
    assert_eq!(t.panes[&a].rect, r(100, 50, 400, 300));
    t.dispatch(TwmAction::ToggleFloat);
    assert_eq!(t.panes[&a].rect, r(0, 0, 1000, 600));
}

#[test]
fn panes_go_to_workspaces() {
    let mut t = state();
    let a = t.open_shell("a");
    let b = t.open_shell("b");
    t.dispatch(TwmAction::MoveToWorkspace(3));
    assert_eq!(t.workspaces[0].panes, vec![a]);
    assert_eq!(t.workspaces[2].panes, vec![b]);
    t.dispatch(TwmAction::Workspace(3));
    assert_eq!(t.active_ws, 2);
    assert_eq!(t.panes[&b].rect, r(0, 0, 1000, 600));
    t.dispatch(TwmAction::NextWorkspace);
    assert_eq!(t.active_ws, 3);
    t.dispatch(TwmAction::NextWorkspace);
    assert_eq!(t.active_ws, 0);
    t.dispatch(TwmAction::PrevWorkspace);
    assert_eq!(t.active_ws, 3);
    t.dispatch(TwmAction::Workspace(200));
    assert_eq!(t.active_ws, 3);
}

#[test]
fn the_focus_moves_and_panes_swap() {
    let mut t = state();
    let a = t.open_shell("a");
    let b = t.open_shell("b");
    let d = t.open_shell("d");
    t.dispatch(TwmAction::FocusUp);
    assert_eq!(t.focused_id(), Some(b));
    t.dispatch(TwmAction::FocusLeft);
    assert_eq!(t.focused_id(), Some(a));
    t.dispatch(TwmAction::FocusLeft);
    assert_eq!(t.focused_id(), Some(a));
    t.workspaces[0].cycle_focus(-1);
    assert_eq!(t.focused_id(), Some(d));
    t.workspaces[0].cycle_focus(1);
    assert_eq!(t.focused_id(), Some(a));
    t.dispatch(TwmAction::MoveLeft);
    assert_eq!(t.workspaces[0].panes, vec![d, b, a]);
    t.dispatch(TwmAction::MoveRight);
    assert_eq!(t.workspaces[0].panes, vec![a, b, d]);
}

#[test]
fn the_bar_hides_and_shows() {
    let mut t = state();
    t.open_shell("a");
    t.dispatch(TwmAction::ToggleBar);
    assert!(!t.bar_visible);
    assert_eq!(t.content_rect, r(0, 0, 1000, 640));
    t.dispatch(TwmAction::ToggleBar);
    assert_eq!(t.content_rect, r(0, 0, 1000, 600));
}

#[test]
fn scratchpads_come_and_go() {
    let mut t = state();
    let a = t.open_shell("a");
    t.register_scratchpad("notes", "notes-app");
    t.register_scratchpad("notes", "notes-app");
    assert_eq!(t.scratchpads.len(), 1);
    let n = t.open_shell("notes-app");
    assert!(t.try_assign_scratchpad(n, "notes-app"));
    assert!(!t.workspaces[0].panes.contains(&n));
    t.dispatch(TwmAction::ToggleScratchpad("notes".to_string()));
    assert!(t.workspaces[0].panes.contains(&n));
    assert_eq!(t.focused_id(), Some(n));
    t.dispatch(TwmAction::ToggleScratchpad("notes".to_string()));
    assert!(!t.workspaces[0].panes.contains(&n));
    assert_eq!(t.focused_id(), Some(a));
    let nowhere = |t: &TwmState| t.workspaces.iter().all(|w| !w.panes.contains(&n));
    t.dispatch(TwmAction::ToggleScratchpad("notes".to_string()));
    t.dispatch(TwmAction::NextWorkspace);
    assert!(!nowhere(&t));
    t.dispatch(TwmAction::ToggleScratchpad("notes".to_string()));
    assert!(nowhere(&t));
    assert_eq!(t.workspaces[0].focused, Some(a));
    t.dispatch(TwmAction::ToggleScratchpad("notes".to_string()));
    t.dispatch(TwmAction::PrevWorkspace);
    t.dispatch(TwmAction::Workspace(1));
    assert!(nowhere(&t) && !t.scratchpads[0].visible);
}

#[test]
fn titles_and_apps_are_kept() {
    let mut t = state();
    let a = t.open_shell("term");
    t.set_title(a, "vim".to_string());
    assert_eq!(t.panes[&a].content.title(), "vim");
    assert_eq!(t.panes[&a].content.app_id(), "term");
    let e = t.assign_embedded("viewer");
    assert!(t.panes[&e].content.is_embedded());
    assert_eq!(t.pane_by_app_id("viewer").map(|p| p.id), Some(e));
    t.close_by_app_id("viewer");
    assert!(t.pane_by_app_id("viewer").is_none());
    let snap = t.snapshot();
    assert_eq!(snap.workspaces.len(), 4);
    assert_eq!(snap.workspaces[0].panes.len(), 1);
    assert_eq!(snap.workspaces[0].panes[0].title, "vim");
    assert!(snap.workspaces[0].occupied && !snap.workspaces[1].occupied);
}

#[test]
fn main_panes_grow_and_shrink() {
    let mut t = state();
    t.dispatch(TwmAction::NextLayout);
    let a = t.open_shell("a");
    t.open_shell("b");
    assert_eq!(t.panes[&a].rect.w, 550);
    t.dispatch(TwmAction::GrowMain);
    assert_eq!(t.panes[&a].rect.w, (1000f32 * (0.55f32 + 0.05)) as u32);
    t.dispatch(TwmAction::ShrinkMain);
    t.dispatch(TwmAction::ShrinkMain);
    assert_eq!(t.panes[&a].rect.w, (1000f32 * (0.55f32 + 0.05 - 0.05 - 0.05)) as u32);
}

#[test]
fn rectangles_shrink_and_stay_inside() {
    assert_eq!(r(10, 10, 100, 50).inset(5), r(15, 15, 90, 40));
    assert_eq!(r(10, 10, 8, 50).inset(5), r(15, 15, 0, 40));
    assert_eq!(r(0, 0, 10, 10).center(), (5, 5));
    assert!(r(1, 1, 2, 2).contains(2, 2) && !r(1, 1, 2, 2).contains(3, 2));
    assert!(r(0, 0, 0, 5).is_empty());
    let bounds = r(0, 0, 100, 100);
    let c = r(90, 95, 40, 40).clamp_to(bounds);
    assert!(c.x + c.w <= 100 && c.y + c.h <= 100);
}

#[test]
fn the_bar_has_a_height_and_a_side() {
    let mut t = state();
    t.set_bar_height(20, false);
    assert_eq!(t.bar_rect, r(0, 0, 1000, 20));
    assert_eq!(t.content_rect, r(0, 20, 1000, 620));
    t.set_bar_height(0, false);
    assert_eq!(t.content_rect, r(0, 0, 1000, 640));
    t.resize(800, 600);
    assert_eq!(t.content_rect, r(0, 0, 800, 600));
}

#[test]
fn pads_have_sizes_and_views_have_places() {
    let mut t = state();
    t.register_scratchpad_sized("calc", "calc-app", 0.5f32.to_bits(), 0.25f32.to_bits());
    let n = t.open_shell("calc-app");
    t.try_assign_scratchpad(n, "calc-app");
    t.toggle_scratchpad("calc");
    assert_eq!((t.panes[&n].rect.w, t.panes[&n].rect.h), (500, 160));
    assert_eq!(t.focused_pane().map(|p| p.id), Some(n));
    let e = t.assign_embedded("viewer");
    let v = t.embedded_rects();
    assert_eq!(v.len(), 1);
    assert_eq!(v[0].0, "viewer");
    assert_eq!(v[0].1, t.panes[&e].rect);
}
