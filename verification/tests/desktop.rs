//! The desktop of client windows.

use trixie::desk::buffers::{
    advertised, modifier_halves, Advert, DmaBufError, DmaBufParams, DmaBufPlane, ShmBufferData,
    SurfaceData,
};
use trixie::desk::commands;
use trixie::desk::ipc::{
    build_request, lua_response, parse_error, process_request, socket_path, IpcAction, IpcRequest,
    IpcResponse,
};
use trixie::desk::manager::{layout_named, WmState};
use trixie::desk::outputs::{
    capture_output, capture_output_region, flip_rows, logical_output, output_size, output_size_of, split_time, Crop,
    Extent, IdleInhibitState, OutputState, Viewport,
};
use trixie::desk::script::{
    apply_action, call_action, client_list, command_line, dir_to_u8, hex_to_rgba, DeskAction, Given,
    LuaAction, ScriptCall, Signals, WmConfig,
};
use trixie::desk::seat::{
    asks_script, combo_for_key, notify, Device, FocusedSurface, Held, Note, SeatAction, Serials,
};
use trixie::desk::shell::{CommitStep, Shell, ShellAction, ToplevelRequest, ToplevelState};
use trixie::desk::windows::{Area, Desk, Space, Window};
use trixie::twm::layout::Layout;

fn window(id: u32, x: i32, y: i32, w: i32, h: i32) -> Window {
    Window {
        id,
        app_id: format!("app{}", id),
        title: format!("title {}", id),
        workspace: 0,
        rect: Area { x, y, w, h },
        floating: false,
        fullscreen: false,
        maximized: false,
    }
}

/// Two windows beside each other, and one above both.
fn desk() -> Desk {
    Desk {
        windows: vec![
            window(1, 0, 0, 100, 100),
            window(2, 100, 0, 100, 100),
            window(3, 50, 20, 100, 50),
        ],
        spaces: vec![
            Space { focused: Some(1), windows: vec![1, 2, 3], monocle: false },
            Space { focused: None, windows: vec![], monocle: false },
        ],
        active: 0,
        border: 2,
    }
}

#[test]
fn the_window_under_the_pointer_is_found() {
    let d = desk();
    assert_eq!(d.hit_test(60, 30), Some(1));
    assert_eq!(d.hit_test(120, 30), Some(3));
    assert_eq!(d.hit_test(199, 99), Some(2));
    assert_eq!(d.hit_test(200, 99), None);
    assert_eq!(d.surface_local_x(Some(3), 60), 8);
    assert_eq!(d.surface_local_y(Some(3), 30), 8);
    assert_eq!(d.surface_local_x(Some(9), 60), 0);
    assert_eq!(d.focused_window(), Some(1));
}

#[test]
fn combinations_are_written() {
    let held = Held { logo: true, alt: false, ctrl: false, shift: true };
    assert_eq!(combo_for_key(held, "Q"), "super+shift+q");
    assert_eq!(combo_for_key(held, "Super_L"), "super+shift");
    let none = Held { logo: false, alt: false, ctrl: false, shift: false };
    assert_eq!(combo_for_key(none, "Return"), "return");
    assert_eq!(combo_for_key(none, "Shift_R"), "");
    let all = Held { logo: true, alt: true, ctrl: true, shift: true };
    assert_eq!(combo_for_key(all, "x"), "super+alt+ctrl+shift+x");
    assert!(asks_script(true, "q") && !asks_script(false, "q") && !asks_script(true, ""));
}

#[test]
fn the_pointer_crosses_windows() {
    let d = desk();
    let mut f = FocusedSurface::default();
    assert_eq!(
        f.motion(&d, 10, 10, 5_000),
        vec![
            SeatAction::PointerCross { old: None, new: 1, x: 8, y: 8 },
            SeatAction::PointerMotion { window: 1, time_ms: 5, x: 8, y: 8 },
            SeatAction::Redraw,
        ]
    );
    assert_eq!(
        f.motion(&d, 11, 10, 6_999),
        vec![
            SeatAction::PointerMotion { window: 1, time_ms: 6, x: 9, y: 8 },
            SeatAction::Redraw
        ]
    );
    assert_eq!(
        f.motion(&d, 500, 10, 0),
        vec![
            SeatAction::PointerCross { old: Some(1), new: 0, x: 0, y: 0 },
            SeatAction::Redraw
        ]
    );
    assert_eq!(f.pointer, None);
}

#[test]
fn clicks_focus_and_are_told() {
    let d = desk();
    let f = FocusedSurface { keyboard: None, pointer: Some(2) };
    assert_eq!(
        f.button(&d, 190, 90, 1_000, 272, true),
        vec![
            SeatAction::Focus(2),
            SeatAction::Redraw,
            SeatAction::PointerButton { window: 2, time_ms: 1, button: 272, pressed: true },
        ]
    );
    assert_eq!(
        f.button(&d, 10, 90, 1_000, 272, true),
        vec![SeatAction::PointerButton { window: 2, time_ms: 1, button: 272, pressed: true }]
    );
    assert_eq!(f.scroll(2_000, true, false).len(), 1);
    assert_eq!(FocusedSurface::default().scroll(2_000, true, true), vec![]);
}

#[test]
fn keys_go_to_scripts_or_clients() {
    let f = FocusedSurface { keyboard: Some(7), pointer: None };
    assert_eq!(f.key(30, true, 9_000, "a", true), None);
    assert_eq!(
        f.key(30, true, 9_000, "a", false),
        Some(SeatAction::Key { window: 7, key: 30, time_ms: 9, pressed: true })
    );
    assert!(f.key(30, false, 9_000, "a", true).is_some());
    let wrapped = f.key(1, true, (u32::MAX as u64 + 3) * 1000, "", false);
    assert_eq!(wrapped, Some(SeatAction::Key { window: 7, key: 1, time_ms: 2, pressed: true }));
}

#[test]
fn the_keyboard_follows_the_focus() {
    let mut f = FocusedSurface::default();
    assert_eq!(f.set_keyboard_focus(1), vec![SeatAction::KeyboardEnter(1)]);
    assert_eq!(
        f.set_keyboard_focus(2),
        vec![SeatAction::KeyboardLeave(1), SeatAction::KeyboardEnter(2)]
    );
    assert_eq!(f.set_keyboard_focus(2), vec![SeatAction::KeyboardEnter(2)]);
    assert_eq!(f.clear_keyboard_focus(), Some(SeatAction::KeyboardLeave(2)));
    assert_eq!(f.clear_keyboard_focus(), None);
    assert_eq!(f.sync_keyboard_focus(&desk()), vec![SeatAction::KeyboardEnter(1)]);
}

#[test]
fn clients_are_told_through_their_devices() {
    let devices = vec![
        Device { client: 1, alive: true, version: 4 },
        Device { client: 2, alive: true, version: 7 },
        Device { client: 1, alive: false, version: 7 },
        Device { client: 1, alive: true, version: 5 },
    ];
    let mut s = Serials::new();
    let sent = notify(&devices, 1, Note::KeyboardEnter, &mut s);
    let told: Vec<(usize, Note, Option<u32>)> =
        sent.iter().map(|x| (x.device, x.note, x.serial)).collect();
    assert_eq!(
        told,
        vec![
            (0, Note::KeyboardEnter, Some(1)),
            (0, Note::Modifiers, Some(2)),
            (3, Note::KeyboardEnter, Some(1)),
            (3, Note::Modifiers, Some(3)),
        ]
    );
    let sent = notify(&devices, 1, Note::PointerLeave, &mut s);
    let told: Vec<(usize, Note, Option<u32>)> =
        sent.iter().map(|x| (x.device, x.note, x.serial)).collect();
    assert_eq!(
        told,
        vec![
            (0, Note::PointerLeave, Some(4)),
            (3, Note::PointerLeave, Some(4)),
            (3, Note::Frame, None),
        ]
    );
    let key = Note::Key { time_ms: 1, key: 2, pressed: true };
    let sent = notify(&devices, 2, key, &mut s);
    assert_eq!(sent.len(), 2);
    assert_eq!((sent[0].serial, sent[1].serial), (Some(5), Some(6)));
    let mut last = Serials { next: u32::MAX };
    assert_eq!(last.next_serial(), u32::MAX);
    assert_eq!(last.next_serial(), 0);
}

#[test]
fn windows_are_introduced_after_the_handshake() {
    let mut s = Shell::new();
    let h = s.get_xdg_surface(40);
    assert_eq!(s.on_surface_commit(40), CommitStep::Nothing);
    let c = s.get_toplevel(h);
    assert_eq!((c.serial, c.w, c.h, c.states.len()), (1, 0, 0, 0));
    assert_eq!(s.on_surface_commit(40), CommitStep::Nothing);
    s.ack_configure(h, 99);
    assert_eq!(s.on_surface_commit(40), CommitStep::Nothing);
    assert!(s.request(h, ToplevelRequest::SetTitle("early".to_string()), 4).is_empty());
    s.ack_configure(h, 1);
    assert_eq!(s.on_surface_commit(40), CommitStep::Introduce(h));
    let a = s.introduce(h, 3);
    assert!(matches!(&a[0], ShellAction::SetTitle { window: 3, title } if title == "early"));
    assert!(matches!(a[1], ShellAction::Focus(3)));
    assert!(matches!(a[2], ShellAction::Opened(3)));
    assert!(matches!(a[3], ShellAction::Configure(3)));
    assert_eq!(s.on_surface_commit(40), CommitStep::Redraw);
    assert_eq!(s.on_surface_commit(41), CommitStep::Nothing);

    let c = s.configure_toplevel(3, &desk()).unwrap();
    assert_eq!((c.handle, c.serial, c.w, c.h), (h, 2, 100, 50));
    assert_eq!(
        c.states,
        vec![
            ToplevelState::TiledLeft,
            ToplevelState::TiledRight,
            ToplevelState::TiledTop,
            ToplevelState::TiledBottom
        ]
    );
    assert!(s.configure_toplevel(9, &desk()).is_none());
    assert_eq!(s.configure_all(&desk()).len(), 1);
    assert_eq!(s.surface_destroyed(h), Some(3));
    assert_eq!(s.on_surface_commit(40), CommitStep::Nothing);
    assert!(s.configure_toplevel(3, &desk()).is_none());
}

#[test]
fn requests_about_windows_are_met() {
    let mut s = Shell::new();
    let h = s.get_xdg_surface(1);
    s.get_toplevel(h);
    s.introduce(h, 1);
    let a = s.request(h, ToplevelRequest::SetMaximized, 4);
    assert!(matches!(a[0], ShellAction::SetMaximized { window: 1, on: true }));
    assert_eq!(a.len(), 3);
    let a = s.request(h, ToplevelRequest::UnsetFullscreen, 4);
    assert!(matches!(a[0], ShellAction::SetFullscreen { window: 1, on: false }));
    let a = s.request(h, ToplevelRequest::SetMinimized, 4);
    assert!(matches!(a[0], ShellAction::MoveToWorkspace { window: 1, workspace: 3 }));
    let a = s.request(h, ToplevelRequest::SetMinimized, 0);
    assert!(matches!(a[0], ShellAction::MoveToWorkspace { window: 1, workspace: 0 }));
    assert!(matches!(s.request(h, ToplevelRequest::Destroy, 4)[0], ShellAction::Close(1)));
    assert!(s.request(h, ToplevelRequest::Other, 4).is_empty());
    assert_eq!(s.toplevel_destroyed(h), Some(1));

    let mut d = desk();
    d.windows[0].fullscreen = true;
    d.windows[0].maximized = true;
    let c = s.configure_toplevel(1, &d).unwrap();
    assert_eq!(
        c.states,
        vec![ToplevelState::Activated, ToplevelState::Fullscreen, ToplevelState::Maximized]
    );
}

#[test]
fn buffers_are_shown_and_given_back() {
    let mut s = SurfaceData::default();
    s.attach(Some(1), 3, 4);
    s.frame(10);
    s.frame(11);
    let c = s.commit();
    assert_eq!((c.release, c.done, c.upload), (None, vec![10, 11], Some(1)));
    let c = s.commit();
    assert_eq!((c.release, c.done.len(), c.upload), (None, 0, None));
    s.attach(None, 0, 0);
    let c = s.commit();
    assert_eq!((c.release, c.upload), (Some(1), None));
    assert_eq!(s.current.buffer, None);
    let b = ShmBufferData { offset: 8, width: 2, height: 3, stride: 16 };
    assert_eq!(b.mapped_len(), 56);
}

#[test]
fn buffers_of_the_card_are_described() {
    let plane = DmaBufPlane { fd: Some(5), offset: 0, stride: 256, modifier_hi: 0, modifier_lo: 1 };
    let mut p = DmaBufParams::default();
    assert_eq!(p.planes.len(), 4);
    assert!(p.set_plane(1, plane));
    assert!(!p.set_plane(4, plane));
    assert_eq!(p.create_immed(), Ok(vec![plane]));
    assert_eq!(p.create_immed(), Err(DmaBufError::AlreadyUsed));
    assert_eq!(DmaBufParams::default().create_immed(), Err(DmaBufError::NoPlanes));
    assert_eq!(advertised(3)[0], Advert::Modifier { format: 0x34325241, hi: 0, lo: 0 });
    assert_eq!(advertised(2)[2], Advert::Format(0x3231564e));
    assert_eq!(modifier_halves(0x0123_4567_89ab_cdef), (0x0123_4567, 0x89ab_cdef));
}

fn outputs() -> Vec<OutputState> {
    vec![
        OutputState { wl_id: 4, width: 800, height: 600, name: "A".to_string() },
        OutputState { wl_id: 9, width: 1024, height: 768, name: "B".to_string() },
    ]
}

#[test]
fn screens_are_told_and_captured() {
    let o = logical_output(&outputs(), 9);
    assert_eq!((o.x, o.y, o.width, o.height, o.name.as_str()), (0, 0, 1024, 768, "B"));
    let o = logical_output(&outputs(), 1);
    assert_eq!((o.width, o.height, o.name.as_str()), (1920, 1080, "output-0"));
    assert_eq!(output_size(&outputs()), (800, 600));
    assert_eq!(output_size(&vec![]), (1920, 1080));
    assert_eq!(output_size_of(&outputs(), 9), (1024, 768));
    assert_eq!(output_size_of(&outputs(), 5), (1920, 1080));
    let (mut f, i) = capture_output(&outputs(), 4, true);
    assert_eq!((i.width, i.height, i.stride), (800, 600, 3200));
    assert!(f.begin());
    assert!(!f.begin());
    let (f, i) = capture_output_region(9, false, 10, 20);
    assert!(!f.overlay_cursor && !f.done);
    assert_eq!((i.width, i.height, i.stride), (10, 20, 40));
    let (_, i) = capture_output_region(9, false, 0x3FFF_FFFF, -1);
    assert_eq!((i.width, i.height, i.stride), (0x3FFF_FFFF, u32::MAX, 0xFFFF_FFFC));
    let mut wide = outputs();
    wide[0].width = u32::MAX;
    assert_eq!(logical_output(&wide, wide[0].wl_id).width, -1);
    assert_eq!(capture_output(&wide, 9, false).1.stride, 4096);
    assert_eq!(split_time(61_234), (61, 234_000_000));
}

#[test]
fn pictures_are_turned_upside_down() {
    let p: Vec<u8> = vec![1, 2, 3, 4, 5, 6];
    let f = flip_rows(&p, 2, 3);
    assert_eq!(f, vec![5, 6, 3, 4, 1, 2]);
    assert_eq!(flip_rows(&f, 2, 3), p);
}

#[test]
fn viewports_are_set_and_unset() {
    let mut v = Viewport::new();
    let c = Crop { x: 256, y: 0, w: 512, h: 512 };
    v.set_source(c);
    assert_eq!(v.of_surface.unwrap().src, Some(c));
    v.set_source(Crop { x: -256, y: -256, w: -256, h: -256 });
    assert_eq!(v.own.src, None);
    v.set_destination(Extent { w: 10, h: -1 });
    assert_eq!(v.own.dst, Some(Extent { w: 10, h: -1 }));
    v.set_destination(Extent { w: -1, h: -1 });
    assert_eq!(v.of_surface.unwrap().dst, None);
    v.destroy();
    v.set_destination(Extent { w: 1, h: 1 });
    assert_eq!(v.of_surface, None);
    assert_eq!(v.own.dst, Some(Extent { w: 1, h: 1 }));
}

#[test]
fn idling_is_counted() {
    let mut i = IdleInhibitState::new();
    assert!(!i.inhibited());
    i.inc();
    i.inc();
    i.dec();
    assert!(i.inhibited());
    i.dec();
    i.dec();
    assert!(!i.inhibited());
    i.inc();
    assert!(i.inhibited());
}

#[test]
fn requests_of_programs_are_met() {
    let d = desk();
    let (a, r) = process_request(IpcRequest::SwitchWorkspace { workspace: 2 }, &d, "1.0");
    assert!(matches!(a[0], IpcAction::SwitchWorkspace(1)));
    assert_eq!(r.encode(), "null\n");
    let (a, _) = process_request(IpcRequest::SwitchWorkspace { workspace: 0 }, &d, "1.0");
    assert!(matches!(a[0], IpcAction::SwitchWorkspace(0)));
    let (a, _) = process_request(IpcRequest::CloseWindow { id: None }, &d, "1.0");
    assert!(matches!(a[0], IpcAction::Close(1)));
    let (a, _) = process_request(IpcRequest::CloseWindow { id: Some(3) }, &d, "1.0");
    assert!(matches!(a[0], IpcAction::Close(3)));
    let (a, _) = process_request(IpcRequest::ToggleFullscreen, &d, "1.0");
    assert!(matches!(a[0], IpcAction::SetFullscreen { window: 1, on: true }));
    let layout = "rows".to_string();
    let (a, _) = process_request(IpcRequest::SetLayout { layout }, &d, "1.0");
    assert!(matches!(&a[0], IpcAction::SetLayout { workspace: 0, layout } if layout == "rows"));
    let (a, _) = process_request(IpcRequest::Exit, &d, "1.0");
    assert!(matches!(a[0], IpcAction::Exit));
    for req in [
        IpcRequest::Monitors,
        IpcRequest::FocusWindow { id: None },
        IpcRequest::MoveToWorkspace { workspace: 1 },
    ] {
        let (a, r) = process_request(req, &d, "1.0");
        assert!(a.is_empty());
        assert_eq!(r.encode(), "{\"error\":\"not implemented\"}\n");
    }
    assert_eq!(parse_error("x\"y").encode(), "{\"error\":\"parse: x\\\"y\"}\n");
    assert!(matches!(lua_response(None), IpcResponse::Done));
    assert!(matches!(lua_response(Some("e".to_string())), IpcResponse::Error { .. }));
}

#[test]
fn programs_are_told_the_state() {
    let d = desk();
    let (a, r) = process_request(IpcRequest::Version, &d, "1.0");
    assert!(a.is_empty());
    assert_eq!(r.encode(), "{\"version\":\"1.0\"}\n");
    let (_, r) = process_request(IpcRequest::Workspaces, &d, "1.0");
    assert_eq!(
        r.encode(),
        "[{\"active\":true,\"focused\":1,\"index\":1,\"window_count\":3},\
         {\"active\":false,\"focused\":null,\"index\":2,\"window_count\":0}]\n"
    );
    let (_, r) = process_request(IpcRequest::ActiveWindow, &d, "1.0");
    assert_eq!(r.encode(), "{\"app_id\":\"app1\",\"id\":1,\"title\":\"title 1\"}\n");
    let (_, r) = process_request(IpcRequest::Clients, &d, "1.0");
    let text = r.encode();
    assert!(text.starts_with(
        "[{\"app_id\":\"app1\",\"floating\":false,\"fullscreen\":false,\"h\":100,\"id\":1,\
         \"title\":\"title 1\",\"w\":100,\"workspace\":1,\"x\":0,\"y\":0}"
    ));
    let v: serde_json::Value = serde_json::from_str(&text).unwrap();
    assert_eq!(v.as_array().unwrap().len(), 3);
    let none = Desk { windows: vec![], spaces: vec![], active: 0, border: 0 };
    let (_, r) = process_request(IpcRequest::ActiveWindow, &none, "1.0");
    assert_eq!(r.encode(), "null\n");
}

#[test]
fn command_lines_become_requests() {
    let req = |s: &str| {
        let args: Vec<String> = s.split(' ').map(|w| w.to_string()).collect();
        build_request(&args)
    };
    assert_eq!(req("clients").unwrap(), "{\"cmd\":\"clients\"}");
    assert_eq!(req("active-window").unwrap(), "{\"cmd\":\"active_window\"}");
    assert_eq!(req("switch-workspace 3").unwrap(), "{\"cmd\":\"switch_workspace\",\"workspace\":3}");
    assert_eq!(req("switch-workspace x").unwrap(), "{\"cmd\":\"switch_workspace\",\"workspace\":1}");
    assert_eq!(req("close").unwrap(), "{\"cmd\":\"close_window\",\"id\":null}");
    assert_eq!(req("close 12").unwrap(), "{\"cmd\":\"close_window\",\"id\":12}");
    assert_eq!(req("set-layout").unwrap(), "{\"cmd\":\"set_layout\",\"layout\":\"master_stack\"}");
    assert_eq!(req("exec foot -e vim").unwrap(), "{\"cmd\":\"exec\",\"command\":\"foot -e vim\"}");
    assert_eq!(req("lua a = 1").unwrap(), "{\"cmd\":\"lua\",\"code\":\"a = 1\"}");
    assert_eq!(req("dance"), None);
    assert_eq!(socket_path("panel", Some("wayland-1"), Some("/run")), "/run/panel-wayland-1.sock");
    assert_eq!(socket_path("panel", None, None), "/tmp/panel-wayland-0.sock");
}

#[test]
fn lines_are_sent_and_read() {
    assert_eq!(commands::line_of(b"{}".to_vec()), b"{}\n".to_vec());
    assert_eq!(commands::message_of(b"{} \r\n"), b"{}");
    assert_eq!(commands::message_of(&commands::line_of(b"x".to_vec())), b"x");
    assert!(commands::IpcResponse::ok("1".to_string()).ok);
    assert!(commands::IpcResponse::ok_empty().data.is_none());
    assert_eq!(commands::IpcResponse::err("no".to_string()).error.as_deref(), Some("no"));
}

#[test]
fn scripts_ask_for_actions() {
    let call = |c: ScriptCall, f: Option<u32>| call_action(c, f, "Desk");
    assert!(matches!(call(ScriptCall::Workspace(3), None), Some(LuaAction::SwitchWorkspace(2))));
    assert!(matches!(call(ScriptCall::Workspace(0), None), Some(LuaAction::SwitchWorkspace(0))));
    assert!(call(ScriptCall::Send(2), None).is_none());
    assert!(matches!(
        call(ScriptCall::Send(2), Some(5)),
        Some(LuaAction::MoveToWorkspace(5, 1))
    ));
    assert!(matches!(call(ScriptCall::Float, Some(5)), Some(LuaAction::SetFloat(5, true))));
    assert!(call(ScriptCall::Move, Some(5)).is_none());
    let n = call(ScriptCall::Notify("hi".to_string()), None);
    assert!(matches!(n, Some(LuaAction::Spawn(c)) if c == "notify-send Desk \"hi\""));
    assert_eq!((dir_to_u8("left"), dir_to_u8("right"), dir_to_u8("up"), dir_to_u8("down")), (0, 1, 2, 3));
    assert_eq!(dir_to_u8("over"), 0);
}

#[test]
fn actions_of_scripts_are_applied() {
    let a = apply_action(LuaAction::Spawn("foot -e  vim".to_string()));
    match &a[0] {
        DeskAction::Run { program, args } => {
            assert_eq!(program, "foot");
            assert_eq!(args, &vec!["-e", "vim"]);
        }
        other => panic!("{:?}", other),
    }
    assert!(apply_action(LuaAction::Spawn("  ".to_string())).is_empty());
    let a = apply_action(LuaAction::Spawn("__cfg__{\"gap\":1}".to_string()));
    assert!(matches!(&a[0], DeskAction::Configure(j) if j == "{\"gap\":1}"));
    let a = apply_action(LuaAction::SetFloat(4, true));
    assert!(matches!(a[0], DeskAction::SetFloat(4, true)));
    assert!(matches!(a[1], DeskAction::Reflow));
    assert!(matches!(a[2], DeskAction::Redraw));
    let a = apply_action(LuaAction::CycleFocus(-1));
    assert!(matches!(a[1], DeskAction::SyncKeyboard));
    assert!(matches!(apply_action(LuaAction::Quit)[0], DeskAction::Quit));
    assert!(command_line("").is_none());
}

#[test]
fn colors_of_scripts_are_read() {
    assert_eq!(hex_to_rgba("#b4befe"), (0xb4, 0xbe, 0xfe, 255));
    assert_eq!(hex_to_rgba("B4BEFE99"), (0xb4, 0xbe, 0xfe, 255));
    assert_eq!(hex_to_rgba("#12"), (255, 255, 255, 255));
    assert_eq!(hex_to_rgba("#zz0000"), (255, 0, 0, 255));
    assert_eq!(hex_to_rgba("é1020"), (255, 0x10, 0x20, 255));
    assert_eq!(hex_to_rgba("##+f+e+d"), (15, 14, 13, 255));
    for n in 0u32..256 {
        let x = n as f32 / 255.0;
        assert_eq!((x * 255.0) as u8, n as u8);
    }
}

#[test]
fn scripts_list_windows_and_hear_signals() {
    let mut d = desk();
    d.spaces[1].windows = vec![2, 8, 3];
    assert_eq!(client_list(&d), vec![1, 2, 3]);
    let mut s = Signals::new();
    s.connect("focus", 1);
    s.connect("manage", 2);
    s.connect("focus", 3);
    assert_eq!(s.functions("focus"), vec![1, 3]);
    s.disconnect("focus");
    assert_eq!(s.functions("focus"), Vec::<u64>::new());
    assert_eq!(s.functions("manage"), vec![2]);
}

#[test]
fn scripts_change_settings() {
    let before = WmConfig {
        border_w: 2,
        gap: 6,
        outer_gap: 0,
        bar_height: 24,
        workspaces_count: 9,
        bar_at_bottom: false,
        active_border: (1, 1, 1, 255),
        inactive_border: (2, 2, 2, 255),
        bar_bg: (3, 3, 3, 255),
    };
    let given = Given {
        border_width: Some(4),
        gap: None,
        outer_gap: Some(8),
        bar_height: None,
        workspaces: Some(5),
        bar_at_bottom: Some(true),
        border_active: Some("#102030".to_string()),
        border_inactive: None,
        bar_bg: Some("red".to_string()),
    };
    let after = before.with(&given);
    assert_eq!((after.border_w, after.gap, after.outer_gap, after.bar_height), (4, 6, 8, 24));
    assert_eq!((after.workspaces_count, after.bar_at_bottom), (5, true));
    assert_eq!(after.active_border, (0x10, 0x20, 0x30, 255));
    assert_eq!(after.inactive_border, (2, 2, 2, 255));
    assert_eq!(after.bar_bg, (255, 255, 255, 255));
}

#[test]
fn windows_are_managed() {
    let mut wm = WmState::new(WmConfig::default(), 1000, 624);
    assert_eq!(wm.twm.workspaces.len(), 9);
    let a = wm.add_window();
    let b = wm.add_window();
    wm.twm.set_title(a, "A".to_string());
    wm.app_ids.insert(b, "term".to_string());
    wm.set_maximized(b, true);
    let d = wm.desk();
    assert_eq!((d.windows.len(), d.spaces.len(), d.active, d.border), (2, 9, 0, 2));
    assert_eq!((d.windows[0].id, d.windows[0].title.as_str()), (a, "A"));
    assert_eq!((d.windows[1].app_id.as_str(), d.windows[1].maximized), ("term", true));
    assert_eq!(d.spaces[0].windows, vec![a, b]);
    wm.fullscreen_window(a, true);
    let r = wm.desk().windows[0].rect;
    assert_eq!((r.x, r.y, r.w, r.h), (0, 0, 1000, 624));
    wm.fullscreen_window(a, false);
    wm.toggle_float(a);
    assert!(wm.twm.panes[&a].floating);
    wm.set_float(a, false);
    assert!(!wm.twm.panes[&a].floating);
    wm.move_to_workspace(a, 3);
    wm.move_to_workspace(a, 99);
    let d = wm.desk();
    assert_eq!((d.windows[1].id, d.windows[1].workspace), (a, 3));
    assert_eq!(d.spaces[0].windows, vec![b]);
    wm.switch_workspace(3);
    assert_eq!(wm.twm.focused_id(), Some(a));
    wm.set_layout(3, "monocle");
    wm.set_layout(99, "rows");
    assert!(wm.desk().spaces[3].monocle);
    assert!(layout_named("nothing") == Layout::Bsp);
    wm.switch_workspace(0);
    wm.focus_direction(0);
    wm.cycle_focus(1);
    assert_eq!(wm.twm.focused_id(), Some(b));
    let c = WmConfig { gap: 9, workspaces_count: 4, ..WmConfig::default() };
    wm.apply_config(c);
    assert_eq!((wm.twm.gap, wm.twm.workspaces.len()), (9, 9));
    wm.remove_window(a);
    wm.remove_window(b);
    assert!(wm.app_ids.is_empty() && wm.maximized.is_empty());
    wm.apply_config(c);
    assert_eq!(wm.twm.workspaces.len(), 4);
    wm.switch_workspace(300);
    assert_eq!(wm.twm.active_ws, 3);
}
