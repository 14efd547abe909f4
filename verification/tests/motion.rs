//! Motions, input and windows that come and go.

use trixie::chrome::clock::{text_at, zone_times, zone_times_now, LocalTime};
use trixie::chrome::custom::{is_due, CustomModuleCache};
use trixie::chrome::bar::{build_module, BarModule, BarModuleSet, BarTexts, ClockModule};
use trixie::chrome::app::{ChromeApp, ChromeMsg, ZoneTimes};
use trixie::chrome::de::{DeItem, DeMsg, TrixieDE};
use trixie::chrome::draw::DrawOp;
use trixie::chrome::panes::{draw_workspace_panes, truncate};
use trixie::chrome::zones::{build_theme, build_zone, clock_format, BarItem};
use trixie::config::keys::{default_keybinds, KeyAction, Modifiers};
use trixie::config::parser::parse;
use trixie::config::settings::Config;
use trixie::input::{
    dispatch_action, handle_key, handle_pointer_button, handle_pointer_motion, keysym_to_combo,
    pane_at, window_under, DragState, Effect, KeyPress, BTN_LEFT, BTN_RIGHT,
};
use trixie::render::scene::{ScreenRect, WindowInfo};
use trixie::shell::{
    apply_rules, commit, ensure_initial_configure, new_toplevel, toplevel_destroyed, LayerMaps,
    Role, Surfaces,
};
use trixie::twm::anim::{
    diff_and_morph, edge_rect_signed, lerp_rect_render, nearest_edge, AnimSet, Blend, Easing,
    Edge, SignedRect, WsDir,
};
use trixie::twm::rect::Rect;
use trixie::twm::state::{TwmAction, TwmState};

fn config(text: &str) -> Config {
    let r = parse(text);
    assert!(r.errors.is_empty(), "{:?}", r.errors);
    Config::from_file(&r.file, None)
}

fn anim() -> AnimSet {
    let mut a = AnimSet::default();
    a.resize(1000, 600);
    a
}

fn blend(t: f32) -> Blend {
    Blend::from_bits(t.to_bits())
}

#[test]
fn places_between_are_single_precision() {
    let lerp = |a: i32, b: i32, t: f32| (a as f32 + (b as f32 - a as f32) * t).round() as i32;
    let a = SignedRect { x: -300, y: 1080, w: 301, h: 3 };
    let b = SignedRect { x: 1917, y: 28, w: 1000, h: 701 };
    let mut t = 0.0f32;
    while t <= 1.0 {
        let r = lerp_rect_render(a, b, blend(t));
        assert_eq!(r.x, lerp(a.x, b.x, t) as u32, "{}", t);
        assert_eq!(r.y, lerp(a.y, b.y, t) as u32, "{}", t);
        assert_eq!(r.w, lerp(a.w, b.w, t).max(1) as u32, "{}", t);
        assert_eq!(r.h, lerp(a.h, b.h, t).max(1) as u32, "{}", t);
        t += 0.0137;
    }
    assert_eq!(lerp_rect_render(a, b, blend(f32::NAN)).h, 3);
}

#[test]
fn the_nearest_edge_is_that_of_single_precision() {
    let edge = |r: Rect, w: u32, h: u32| {
        let dx = (r.x + r.w / 2) as f32 / w.max(1) as f32 - 0.5;
        let dy = (r.y + r.h / 2) as f32 / h.max(1) as f32 - 0.5;
        if dx == 0.0 && dy == 0.0 {
            Edge::Bottom
        } else if dx.abs() >= dy.abs() {
            if dx >= 0.0 { Edge::Right } else { Edge::Left }
        } else if dy >= 0.0 {
            Edge::Bottom
        } else {
            Edge::Top
        }
    };
    for x in (0..1900).step_by(97) {
        for y in (0..1000).step_by(53) {
            for (w, h) in [(1920, 1080), (1000, 999), (0, 0), (333, 7)] {
                let r = Rect::new(x, y, 101, 55);
                assert!(nearest_edge(r, w, h) == edge(r, w, h), "{:?} {} {}", r, w, h);
            }
        }
    }
    let r = edge_rect_signed(Rect::new(5, 6, 70, 80), Edge::Left, 1000, 600);
    assert_eq!((r.x, r.y, r.w, r.h), (-70, 6, 70, 80));
    let r = edge_rect_signed(Rect::new(5, 6, 70, 80), Edge::Bottom, 1000, 600);
    assert_eq!((r.x, r.y), (5, 600));
}

#[test]
fn panes_slide_in_and_out() {
    let mut a = anim();
    let target = Rect::new(0, 0, 400, 600);
    a.open(1, target, 1000);
    assert!(a.is_animating(1) && a.any_animating() && !a.is_closing(1));
    let m = a.motion(1, 1000).unwrap();
    assert_eq!(m.elapsed_ms, 0);
    assert_eq!(a.get_rect(1, target, blend(1.0)), target);
    assert!(a.tick(1000));
    assert!(!a.tick(1000 + m.duration_ms));
    assert!(!a.is_animating(1));
    a.close(1, target, 2000);
    assert!(a.is_closing(1));
    assert_eq!(a.get_rect(1, target, blend(0.0)), target);
    assert_eq!(a.get_rect(2, target, blend(0.5)), target);
}

#[test]
fn layouts_change_smoothly() {
    let mut a = anim();
    let before = [(1, Rect::new(0, 0, 10, 10)), (2, Rect::new(10, 0, 10, 10))];
    let after = [(1, Rect::new(0, 0, 10, 10)), (2, Rect::new(10, 0, 20, 10)), (3, Rect::new(1, 1, 1, 1))];
    diff_and_morph(&mut a, &before, &after, 0);
    assert_eq!(a.morphing_panes(), vec![2]);
    assert_eq!(a.get_rect(2, after[1].1, blend(0.5)), Rect::new(10, 0, 15, 10));

    let mut a = anim();
    a.layout_morph(1, Rect::new(0, 0, 100, 100), Rect::new(80, 0, 100, 100), 0);
    let m = a.motion(1, 100).unwrap();
    assert!(m.easing == Easing::OutCubic);
    assert_eq!((m.elapsed_ms, m.duration_ms), (100, 200));
    let t = blend(1.0 - 0.5f32.powi(3));
    assert_eq!(a.get_rect(1, Rect::default(), t), Rect::new(70, 0, 100, 100));
    let far = Rect::new(0xFF_FFFF, 1, 0xFF_FFFE, 9);
    a.layout_morph(2, Rect::new(1, 0xFF_FFFF, 3, 4), far, 0);
    assert_eq!(a.get_rect(2, Rect::default(), blend(0.0)), Rect::new(1, 0xFF_FFFF, 3, 4));
    assert_eq!(a.get_rect(2, Rect::default(), blend(1.0)), far);
}

#[test]
fn workspaces_slide() {
    let mut a = anim();
    a.workspace_transition(WsDir::Right, 0);
    assert!(a.ws_transitioning());
    assert_eq!(a.ws_offsets(blend(0.0)), (1000, 0));
    assert_eq!(a.ws_offsets(blend(1.0)), (0, -1000));
    let d = a.ws_motion(0).unwrap().duration_ms;
    a.tick(d);
    assert!(!a.ws_transitioning());
}

fn press<'a>(sym: u32, name: &'a str, logo: bool) -> KeyPress<'a> {
    let mods = Modifiers { logo, ctrl: false, alt: false, shift: false };
    KeyPress { mods, sym, name }
}

#[test]
fn keys_find_their_bindings() {
    let c = config("keybind = SUPER:q, close\nkeybind = SUPER:Return, exec, foot");
    assert!(matches!(handle_key(&c.keybinds, true, press(0x71, "q", true)), Some(KeyAction::Close)));
    assert!(handle_key(&c.keybinds, false, press(0x71, "q", true)).is_none());
    assert!(handle_key(&c.keybinds, true, press(0x71, "q", false)).is_none());
    assert!(matches!(
        handle_key(&c.keybinds, true, press(0xff0d, "Return", true)),
        Some(KeyAction::Exec(..))
    ));
    let combo = keysym_to_combo(press(0, "Q", true).mods, "Q").unwrap();
    assert_eq!(combo.key, "q");
    assert!(!default_keybinds().is_empty());
}

#[test]
fn actions_have_effects() {
    let mut t = TwmState::new(1000, 600, 0, true, 10, 2, 0, 4);
    let mut a = anim();
    t.open_shell("x");
    assert!(matches!(dispatch_action(&mut t, &mut a, KeyAction::Quit, 0), Effect::Quit));
    assert!(matches!(dispatch_action(&mut t, &mut a, KeyAction::SwitchVt(3), 0), Effect::SwitchVt(3)));
    let e = dispatch_action(
        &mut t,
        &mut a,
        KeyAction::Exec("foot".to_string(), vec!["-e".to_string()]),
        0,
    );
    assert!(matches!(e, Effect::Spawn(c, args) if c == "foot" && args == vec!["-e"]));
    let e = dispatch_action(&mut t, &mut a, KeyAction::Workspace(2), 0);
    assert!(matches!(e, Effect::SyncFocus));
    assert_eq!(t.active_ws, 1);
    assert!(a.ws_transitioning());
    let none = KeyAction::Custom("dance".to_string(), vec![]);
    assert!(matches!(dispatch_action(&mut t, &mut a, none, 0), Effect::Nothing));
}

#[test]
fn the_pointer_focuses_and_drags() {
    let mut t = TwmState::new(1000, 600, 0, true, 10, 2, 0, 4);
    let a = t.open_shell("a");
    let b = t.open_shell("b");
    assert_eq!(pane_at(&t, 5, 5), Some(a));
    assert_eq!(pane_at(&t, 900, 5), Some(b));
    assert_eq!(pane_at(&t, 500, 5), None);
    let mut drag = DragState::Idle;
    assert_eq!(handle_pointer_button(&mut t, &mut drag, true, BTN_LEFT, false, 5, 5), Some(a));
    assert_eq!(t.focused_id(), Some(a));
    assert!(drag == DragState::Idle);
    t.dispatch(TwmAction::ToggleFloat);
    assert_eq!(pane_at(&t, 5, 5), Some(a));
    assert_eq!(pane_at(&t, 900, 5), Some(b));
    t.dispatch(TwmAction::FloatMove(a, 400, 0));
    assert_eq!(pane_at(&t, 600, 5), Some(a));
    t.dispatch(TwmAction::FloatMove(a, -400, 0));
    t.close_pane(b);
    t.dispatch(TwmAction::FloatResize(a, -500, 0));
    handle_pointer_button(&mut t, &mut drag, true, BTN_LEFT, true, 5, 5);
    assert!(drag == DragState::Moving(a));
    let x = t.panes[&a].rect.x;
    assert!(handle_pointer_motion(&mut t, drag, 30, 0));
    assert_eq!(t.panes[&a].rect.x, x + 30);
    handle_pointer_button(&mut t, &mut drag, false, BTN_LEFT, true, 5, 5);
    assert!(drag == DragState::Idle);
    handle_pointer_button(&mut t, &mut drag, true, BTN_RIGHT, true, 50, 5);
    assert!(drag == DragState::Resizing(a));
    assert!(!handle_pointer_motion(&mut t, DragState::Idle, 1, 1));
}

#[test]
fn windows_come_and_go() {
    let mut t = TwmState::new(1000, 600, 0, true, 10, 2, 0, 4);
    let mut a = anim();
    let mut s = Surfaces::default();
    let c = config("window_rule = \"app_id:calc\", float, \"size 300x200\"");
    assert_eq!(apply_rules(&c.window_rules, "calculator"), (true, Some((300, 200))));
    assert_eq!(apply_rules(&c.window_rules, "term"), (false, None));
    let p = new_toplevel(&mut t, &mut a, &mut s, 1, "", &c.window_rules, 0);
    assert!(p.pane.is_none());
    assert_eq!(p.at, (0, 0));
    assert!(commit(&mut t, &mut a, &mut s, 1, "", 1).is_none());
    let p = commit(&mut t, &mut a, &mut s, 1, "term", 2).unwrap();
    let id = p.pane.unwrap();
    assert_eq!(p.at, (2, 2));
    assert_eq!(p.size, Some((996, 596)));
    assert!(commit(&mut t, &mut a, &mut s, 1, "term", 3).is_none());
    let p = new_toplevel(&mut t, &mut a, &mut s, 2, "calc", &c.window_rules, 4);
    assert_eq!(p.size, Some((300, 200)));
    assert!(t.panes[&p.pane.unwrap()].floating);
    assert_eq!(toplevel_destroyed(&mut t, &mut a, &mut s, 1, "term", 5), Some(id));
    assert!(a.is_closing(id));
    assert!(t.panes.contains_key(&id));
    assert_eq!(toplevel_destroyed(&mut t, &mut a, &mut s, 9, "nobody", 6), None);
}

#[test]
fn layers_are_kept_by_screen() {
    let mut m = LayerMaps { screens: vec![vec![1], vec![2, 3]] };
    m.new_layer_surface(Some(1), 4);
    m.new_layer_surface(Some(7), 5);
    m.new_layer_surface(None, 6);
    assert_eq!(m.screens, vec![vec![1, 5, 6], vec![2, 3, 4]]);
    m.layer_destroyed(3);
    m.layer_destroyed(5);
    m.layer_destroyed(9);
    assert_eq!(m.screens, vec![vec![1, 6], vec![2, 4]]);
    let mut none = LayerMaps { screens: vec![] };
    none.new_layer_surface(None, 1);
    assert!(none.screens.is_empty());
    assert!(ensure_initial_configure(Role::Window { told: false }));
    assert!(!ensure_initial_configure(Role::Window { told: true }));
    assert!(ensure_initial_configure(Role::Popup { told: false }));
    assert!(!ensure_initial_configure(Role::Popup { told: true }));
    assert!(!ensure_initial_configure(Role::Other));
}

#[test]
fn the_pointer_finds_windows() {
    let mut t = TwmState::new(1000, 600, 0, true, 10, 2, 0, 4);
    let mut a = anim();
    let mut s = Surfaces::default();
    let p = new_toplevel(&mut t, &mut a, &mut s, 1, "term", &vec![], 0);
    assert!(p.pane.is_some());
    let inner = Rect::new(2, 2, 996, 596);
    assert_eq!(window_under(&t, &s, &vec![9, 1], 5, 5), Some((1, inner)));
    assert_eq!(window_under(&t, &s, &vec![9], 5, 5), None);
    assert_eq!(window_under(&t, &s, &vec![1], 1, 5), None);
}

#[test]
fn clocks_are_written_by_format() {
    let t = LocalTime { secs: 86400 * 3 + 3600 * 9 + 65, nanos: 0, offset: 3600 };
    assert_eq!(text_at(t, "%H:%M").as_deref(), Some("10:01"));
    assert_eq!(text_at(t, "%Y-%m-%d %S").as_deref(), Some("1970-01-04 05"));
    assert_eq!(text_at(t, "%!"), None);
    assert_eq!(text_at(LocalTime { offset: 100_000, ..t }, "%H"), None);
    assert_eq!(text_at(LocalTime { secs: i64::MAX, ..t }, "%H"), None);
    let far = LocalTime { secs: 253_402_300_800, nanos: 0, offset: 0 };
    assert_eq!(text_at(far, "%Y").as_deref(), Some("+10000"));
    let c = config("bar_module clock { format = \"%M\" }");
    let names = vec!["clock".to_string(), "layout".to_string()];
    assert_eq!(zone_times(&names, &c, t), Some(vec!["01".to_string(), String::new()]));
    assert_eq!(clock_format(&c, "clock"), "%M");
    let now = zone_times_now(&names, &c).unwrap();
    assert_eq!((now[0].len(), now[1].len()), (2, 0));
    let clock = ClockModule::new(&c.colors);
    assert!(clock.current_text().unwrap().contains(':'));
}

#[test]
fn zones_hold_their_modules() {
    let c = config(
        "bar_module greeting { text = \"hello\" }\nbar { active_ws_fg = #010203 }",
    );
    let mut t = TwmState::new(1000, 600, 30, true, 10, 2, 0, 2);
    t.open_shell("a");
    let theme = build_theme(&c);
    assert_eq!((theme.ws_active_fg.r, theme.ws_active_fg.b), (1, 3));
    let names: Vec<String> =
        ["workspaces", "clock", "layout", "systray", "greeting", "nothing"].map(String::from).to_vec();
    let mut times = vec![String::new(); 6];
    times[1] = "12:34".to_string();
    let items = build_zone(&names, &times, &c, &t.snapshot(), &theme);
    let texts: Vec<&str> = items
        .iter()
        .map(|i| match i {
            BarItem::Pill { text, .. } => text.as_str(),
            BarItem::Text { text, .. } => text.as_str(),
            BarItem::Accent { text, .. } => text.as_str(),
        })
        .collect();
    assert_eq!(texts[0], " 1 ");
    assert_eq!(texts[1], " 2 ");
    assert_eq!(texts[2], "  12:34 ");
    assert!(texts[3].ends_with("BSP"));
    assert_eq!(texts[4], "hello");
    assert_eq!(texts.len(), 5);
}

#[test]
fn modules_are_built_and_drawn() {
    let c = config("bar { modules_left = [workspaces]\n modules_center = [layout]\n modules_right = [clock] }");
    assert!(matches!(build_module("layout", None, &c.colors), BarModule::Layout(_)));
    assert!(matches!(build_module("x", None, &c.colors), BarModule::Custom(_)));
    let set = BarModuleSet::from_config(&c);
    assert_eq!((set.left.len(), set.center.len(), set.right.len()), (1, 1, 1));
    let t = TwmState::new(1000, 600, 30, true, 10, 2, 0, 2);
    let texts = BarTexts {
        left: vec![String::new()],
        center: vec![String::new()],
        right: vec!["12:34".to_string()],
    };
    let ops = set.draw(&texts, t.bar_rect, &t.snapshot(), &c.colors, &c.bar, 8, 16);
    assert!(ops.iter().any(|o| matches!(o, DrawOp::Text { text, .. } if text.contains("12:34"))));
    assert!(ops.iter().any(|o| matches!(o, DrawOp::Text { text, .. } if text.trim() == "1")));
}

#[test]
fn titles_fit() {
    assert_eq!(truncate("hello", 5), "hello");
    assert_eq!(truncate("hello!", 5), "hell…");
    assert_eq!(truncate("héllo!", 1), "…");
    let mut t = TwmState::new(400, 300, 0, true, 10, 2, 0, 2);
    t.open_shell("a");
    let snap = t.snapshot();
    let c = config("");
    let ops = draw_workspace_panes(&snap.workspaces[0].panes, snap.focused_id, &c.colors, 2, 8, 16);
    assert!(ops.iter().any(|o| matches!(o, DrawOp::Border { width: 2, .. })));
}

#[test]
fn commands_are_polled() {
    let mut m = CustomModuleCache::new();
    m.register("up", "uptime", 1000);
    assert!(is_due(None, 1000, 0));
    assert!(!is_due(Some(500), 1000, 1499));
    let p = m.tick(0);
    assert_eq!((p[0].name.as_str(), p[0].command.as_str()), ("up", "uptime"));
    assert!(m.tick(999).is_empty());
    assert_eq!(m.tick(1000).len(), 1);
    m.store("up", "3 days");
    assert_eq!(m.get("up").as_deref(), Some("3 days"));
    assert_eq!(m.get("down"), None);
    let mut de = TrixieDE::new(config("border_width = 5"));
    de.update(DeMsg::ClockTick("12:00".to_string()));
    assert_eq!(de.clock, "12:00");
}

#[test]
fn the_chrome_shows_titles_and_zones() {
    let c = config(
        "border_width = 3\nbar_module bad { }\n\
         bar { modules_left = [workspaces]\n modules_center = [layout]\n modules_right = [clock] }",
    );
    let mut app = ChromeApp::new(c);
    let mut t = TwmState::new(1000, 600, 30, true, 10, 2, 0, 2);
    let a = t.open_shell("a");
    let b = t.open_shell("b");
    app.update(ChromeMsg::Snapshot(t.snapshot()));
    let times = ZoneTimes {
        left: vec![String::new()],
        center: vec![String::new()],
        right: vec!["12:34".to_string()],
    };
    let v = app.view(t.bar_rect, &times);
    let boxes: Vec<(&str, bool, u32)> =
        v.panes.iter().map(|p| (p.title.as_str(), p.focused, p.border_w)).collect();
    assert_eq!(boxes, vec![("a", false, 3), ("b", true, 3)]);
    assert_eq!(v.panes[0].area, t.panes[&a].rect);
    let z = v.zones.unwrap();
    assert_eq!((z.left.len(), z.center.len(), z.right.len()), (2, 1, 1));
    assert!(matches!(&z.right[0], BarItem::Pill { text, .. } if text == "  12:34 "));
    assert!(app.view(Rect::new(0, 0, 1000, 0), &times).zones.is_none());
    assert!(app.view_now(t.bar_rect).unwrap().zones.is_some());

    t.dispatch(TwmAction::Fullscreen);
    app.update(ChromeMsg::Snapshot(t.snapshot()));
    let shown = app.view(t.bar_rect, &times).panes;
    assert_eq!(shown.iter().map(|p| p.title.as_str()).collect::<Vec<_>>(), vec!["a"]);
    assert!(t.panes[&b].fullscreen);

    let c = config(
        "bar_module clock { format = \"%Q\" }\nbar { active_ws_fg = #010203\n modules_right = [clock] }",
    );
    app.update(ChromeMsg::ConfigReloaded(c));
    assert_eq!(app.theme.ws_active_fg.r, 1);
    assert!(app.view_now(Rect::new(0, 0, 9, 9)).is_none());
    assert!(app.view_now(Rect::new(0, 0, 0, 9)).unwrap().zones.is_none());
}

#[test]
fn the_desktop_shows_its_state() {
    let mut t = TwmState::new(1000, 600, 30, true, 10, 2, 0, 2);
    let mut de = TrixieDE::new(config("border_width = 5"));
    de.update(DeMsg::ClockTick("12:00".to_string()));
    de.update(DeMsg::Snapshot(t.snapshot()));
    let bar = de.view(&vec![]).bar;
    assert_eq!(bar.left.len(), 4);
    assert!(bar.center.is_empty());
    assert!(matches!(&bar.right[0], DeItem::Clock(c) if c == "12:00"));
    t.open_shell("a");
    t.open_shell("b");
    de.update(DeMsg::Snapshot(t.snapshot()));
    let window = |title: &str, focused, tag| WindowInfo {
        rect: ScreenRect { x: 1, y: -2, w: 30, h: 40 },
        title: title.to_string(),
        focused,
        tag,
    };
    let frame = de.view(&vec![window("a", false, 1), window("b", true, 2)]);
    let panes: Vec<(&str, bool, u32)> =
        frame.panes.iter().map(|p| (p.title.as_str(), p.focused, p.border_w)).collect();
    assert_eq!(panes, vec![("a", false, 5), ("b", true, 5)]);
    assert!(frame.panes[1].rect == ScreenRect { x: 1, y: -2, w: 30, h: 40 });
    let bar = frame.bar;
    assert!(matches!(bar.left[0], DeItem::Workspace { index: 0, active: true, occupied: true }));
    assert!(matches!(bar.left[1], DeItem::Workspace { index: 1, active: false, occupied: false }));
    assert!(matches!(bar.left[2], DeItem::Separator));
    assert!(matches!(&bar.left[3], DeItem::Layout(l) if l == "BSP"));
    assert!(matches!(&bar.center[0], DeItem::Text(s) if s == "b"));
}
