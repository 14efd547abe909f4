//! Parsing of configuration files.

use trixie::config::parser::parse;
use trixie::config::value::Value;

/// The number that a value writes.
fn number(v: &Value) -> f64 {
    v.as_f64().unwrap().text().parse::<f64>().unwrap()
}

#[test]
fn basic_assignment() {
    let r = parse(r#"font = "/usr/share/fonts/Iosevka.ttf""#);
    assert!(r.errors.is_empty(), "{:?}", r.errors);
}

#[test]
fn hash_color() {
    let r = parse("active_border = #b4befe");
    assert!(r.errors.is_empty(), "{:?}", r.errors);
    assert_eq!(
        r.file.get("active_border").unwrap().value.as_color(),
        Some([0xb4, 0xbe, 0xfe, 0xff])
    );
}

#[test]
fn rgb_color() {
    let r = parse("pane_bg = rgb(11111b)");
    assert!(r.errors.is_empty(), "{:?}", r.errors);
    assert_eq!(
        r.file.get("pane_bg").unwrap().value.as_color(),
        Some([0x11, 0x11, 0x1b, 0xff])
    );
}

#[test]
fn rgba_color() {
    let r = parse("overlay = rgba(1e1e2e80)");
    assert!(r.errors.is_empty(), "{:?}", r.errors);
    assert_eq!(
        r.file.get("overlay").unwrap().value.as_color(),
        Some([0x1e, 0x1e, 0x2e, 0x80])
    );
}

#[test]
fn variable_substitution() {
    let r = parse("$accent = #b4befe\nactive_border = $accent");
    assert!(r.errors.is_empty(), "{:?}", r.errors);
    assert_eq!(
        r.file.get("active_border").unwrap().value.as_color(),
        Some([0xb4, 0xbe, 0xfe, 0xff])
    );
}

#[test]
fn undefined_variable_errors() {
    let r = parse("active_border = $undefined");
    assert!(!r.errors.is_empty());
    assert!(r.errors[0].message.contains("undefined variable"));
}

#[test]
fn dimension_px() {
    let r = parse("gap = 6px");
    assert!(r.errors.is_empty(), "{:?}", r.errors);
    assert_eq!(r.file.get("gap").unwrap().value.as_px(), Some(6));
}

#[test]
fn dimension_hz() {
    let r = parse("refresh = 144hz");
    assert!(r.errors.is_empty(), "{:?}", r.errors);
    assert_eq!(r.file.get("refresh").unwrap().value.as_hz(), Some(144));
}

#[test]
fn block() {
    let r = parse("colors { active_border = #b4befe\n inactive_border = #45475a }");
    assert!(r.errors.is_empty(), "{:?}", r.errors);
    let b = r.file.block("colors").unwrap();
    assert!(b.get("active_border").is_some());
    assert!(b.get("inactive_border").is_some());
}

#[test]
fn labeled_block() {
    let r = parse(r#"bar_module clock { format = "%H:%M" }"#);
    assert!(r.errors.is_empty(), "{:?}", r.errors);
    let b = r.file.block("bar_module").unwrap();
    assert_eq!(b.label.as_ref().unwrap().value, "clock");
}

#[test]
fn labeled_block_monitor() {
    let r = parse("monitor eDP-1 { width = 1920\n height = 1080 }");
    assert!(r.errors.is_empty(), "{:?}", r.errors);
    let b = r.file.block("monitor").unwrap();
    assert_eq!(b.label.as_ref().unwrap().value, "eDP-1");
}

#[test]
fn bracketed_array() {
    let r = parse("modules_left = [workspaces, clock]");
    assert!(r.errors.is_empty(), "{:?}", r.errors);
    assert!(matches!(
        r.file.get("modules_left").unwrap().value,
        Value::Array(_)
    ));
}

#[test]
fn keybind_colon_syntax() {
    // The combo token "SUPER+SHIFT:q" must survive as a single ident.
    let r = parse("keybind = SUPER+SHIFT:q, close");
    assert!(r.errors.is_empty(), "{:?}", r.errors);
    let v = &r.file.get("keybind").unwrap().value;
    if let Value::Array(items) = v {
        assert_eq!(items[0].value.as_str(), Some("SUPER+SHIFT:q"));
        assert_eq!(items[1].value.as_str(), Some("close"));
    } else {
        panic!("expected array");
    }
}

#[test]
fn keybind_with_args() {
    let r = parse("keybind = SUPER:d, exec, rofi, -show, drun");
    assert!(r.errors.is_empty(), "{:?}", r.errors);
    let v = &r.file.get("keybind").unwrap().value;
    assert!(matches!(v, Value::Array(items) if items.len() == 5));
}

#[test]
fn boolean_flag() {
    let r = parse("enabled = true");
    assert!(r.errors.is_empty(), "{:?}", r.errors);
    assert_eq!(r.file.get("enabled").unwrap().value.as_bool(), Some(true));
}

#[test]
fn comment_ignored() {
    let r = parse("// this is a comment\ngap = 4px");
    assert!(r.errors.is_empty(), "{:?}", r.errors);
    assert!(r.file.get("gap").is_some());
}

#[test]
fn inline_comment_stripped() {
    let r = parse("$x = #b4befe  // lavender");
    assert!(r.errors.is_empty(), "{:?}", r.errors);
}

#[test]
fn unknown_block_accepted() {
    let r = parse("animations { enabled = true\n speed = 200ms }");
    assert!(r.errors.is_empty(), "{:?}", r.errors);
}

#[test]
fn pipe_in_exec_args() {
    let r = parse(r#"keybind = SUPER:v, exec, cliphist, list, |, rofi, -dmenu, |, wl-copy"#);
    assert!(r.errors.is_empty(), "{:?}", r.errors);
}

#[test]
fn last_wins() {
    let r = parse("gap = 4px\ngap = 8px");
    assert!(r.errors.is_empty(), "{:?}", r.errors);
    // get_last returns the last assignment
    assert_eq!(r.file.get_last("gap").unwrap().value.as_px(), Some(8));
}

#[test]
fn monitor_block() {
    let r =
        parse("monitor eDP-1 { width = 1920\nheight = 1080\nrefresh = 144hz\nscale = 1.0 }");
    assert!(r.errors.is_empty(), "{:?}", r.errors);
    let b = r.file.block("monitor").unwrap();
    assert_eq!(b.get("width").unwrap().value.as_px(), Some(1920));
    assert_eq!(b.get("refresh").unwrap().value.as_hz(), Some(144));
    assert!((number(&b.get("scale").unwrap().value) - 1.0).abs() < f64::EPSILON);
}
