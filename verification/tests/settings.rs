//! What configuration files set.

use trixie::config::keys::{KeyAction, KeyCombo, Modifiers};
use trixie::config::lexer::{tokenize, Lexer, Tok};
use trixie::config::parser::{parse, parse_with_context, resolve_source, SourceFile, Sources};
use trixie::config::paths::{config_dir, config_path, font_plan, font_probes, join_path, FontPlan};
use trixie::config::rules::{RuleEffect, RuleMatcher};
use trixie::config::settings::{BarModuleKind, BarPosition, Config};
use trixie::config::value::{Unit, Value};
use trixie::text::chars_of;

fn config(text: &str) -> Config {
    let r = parse(text);
    assert!(r.errors.is_empty(), "{:?}", r.errors);
    Config::from_file(&r.file, None)
}

fn messages(text: &str) -> Vec<String> {
    parse(text).errors.iter().map(|e| e.describe()).collect()
}

#[test]
fn an_empty_file_gives_the_defaults() {
    let c = config("");
    assert_eq!(c.gap, 4);
    assert_eq!(c.border_width, 1);
    assert_eq!(c.font_size.plain_text(), "14");
    assert_eq!(c.font_path, "/usr/share/fonts/TTF/JetBrainsMono-Regular.ttf");
    assert_eq!(c.workspaces, 9);
    assert_eq!(c.seat_name, "seat0");
    assert_eq!(c.monitors.len(), 1);
    assert_eq!(c.keybinds.len(), 15);
    let (combo, action) = &c.keybinds[0];
    assert_eq!((combo.mods.logo, combo.key.as_str()), (true, "return"));
    assert!(matches!(action, KeyAction::Exec(cmd, args) if cmd == "foot" && args.is_empty()));
    assert!(config("keybind = nonsense").keybinds.is_empty());
    assert!(c.bar.style.position == BarPosition::Bottom);
    assert_eq!(c.bar.style.height, 28);
    let d = Config::default();
    assert_eq!(d.gap, c.gap);
    assert!(!d.keybinds.is_empty());
}

#[test]
fn settings_are_read() {
    let c = config(
        "gap = 12px\nborder_width = 3\nfont_size = 11.5\nworkspaces = 5\n\
         bar { position = top\n height = 40px\n modules_left = [workspaces, clock] }\n\
         colors { active_border = #ff0000\n pane_bg = rgb(010203) }\n\
         keyboard { layout = \"de\"\n repeat_rate = 40 }\n\
         bar_module clock { format = \"%H:%M:%S\" }\n\
         exec_once = \"waybar --now\"\n",
    );
    assert_eq!((c.gap, c.border_width, c.workspaces), (12, 3, 5));
    assert_eq!(c.font_size.text(), "11.5");
    assert!(c.bar.style.position == BarPosition::Top);
    assert_eq!(c.bar.style.height, 40);
    assert_eq!(c.bar.modules_left, vec!["workspaces", "clock"]);
    assert_eq!((c.colors.active_border.r, c.colors.active_border.g), (255, 0));
    assert_eq!((c.colors.pane_bg.r, c.colors.pane_bg.g, c.colors.pane_bg.b), (1, 2, 3));
    assert_eq!(c.keyboard.layout.as_deref(), Some("de"));
    assert_eq!((c.keyboard.repeat_rate, c.keyboard.repeat_delay), (40, 600));
    let m = c.bar_module("clock").unwrap();
    assert!(m.kind == BarModuleKind::Clock);
    assert_eq!(m.prop("format").unwrap().as_str(), Some("%H:%M:%S"));
    assert_eq!(c.exec_once[0].command, "waybar");
    assert_eq!(c.exec_once[0].args, vec!["--now"]);
}

#[test]
fn workspaces_stay_in_range() {
    assert_eq!(config("workspaces = 0").workspaces, 1);
    assert_eq!(config("workspaces = 99").workspaces, 32);
}

#[test]
fn monitors_are_read() {
    let c = config(
        "monitor DP-1 { width = 2560\n height = 1440\n refresh = 144hz\n position = 1920, 0\n scale = 1.25 }\n\
         monitor HDMI-A-1 { refresh = 75 }",
    );
    assert_eq!(c.monitors.len(), 2);
    let m = &c.monitors[0];
    assert_eq!((m.name.as_str(), m.width, m.height, m.refresh), ("DP-1", 2560, 1440, 144));
    assert_eq!(m.position, (1920, 0));
    assert_eq!(m.scale.text(), "1.25");
    assert_eq!(c.monitors[1].refresh, 75);
}

#[test]
fn keys_are_bound() {
    let c = config(
        "keybind = SUPER+SHIFT:q, close\nkeybind = SUPER:1, workspace, 1\n\
         keybind = SUPER:d, exec, rofi, -show, drun\nkeybind = SUPER:, close\nkeybind = SUPER:x",
    );
    assert_eq!(c.keybinds.len(), 3);
    let (combo, action) = &c.keybinds[0];
    assert_eq!(combo.mods, Modifiers { logo: true, ctrl: false, alt: false, shift: true });
    assert_eq!(combo.key, "q");
    assert!(matches!(action, KeyAction::Close));
    assert!(matches!(c.keybinds[1].1, KeyAction::Workspace(1)));
    match &c.keybinds[2].1 {
        KeyAction::Exec(cmd, args) => {
            assert_eq!(cmd, "rofi");
            assert_eq!(args, &vec!["-show", "drun"]);
        }
        other => panic!("{:?}", other),
    }
}

#[test]
fn combinations_are_read_both_ways() {
    let k = KeyCombo::parse("Super+Shift+Return").unwrap();
    assert_eq!(k.key, "return");
    assert!(k.mods.logo && k.mods.shift && !k.mods.ctrl && !k.mods.alt);
    let k = KeyCombo::parse("CONTROL+mod1:Tab").unwrap();
    assert!(k.mods.ctrl && k.mods.alt && !k.mods.logo);
    assert_eq!(KeyCombo::parse("F5").unwrap().key, "f5");
    assert!(KeyCombo::parse("super:").is_none());
    assert_eq!(k.mods.bits(), 0b0110);
}

#[test]
fn actions_are_read() {
    let none: Vec<String> = Vec::new();
    let one = |s: &str| vec![s.to_string()];
    assert!(matches!(KeyAction::parse("focus", &one("left")), Some(KeyAction::FocusLeft)));
    assert!(KeyAction::parse("focus", &one("sideways")).is_none());
    assert!(KeyAction::parse("exec", &none).is_none());
    assert!(matches!(KeyAction::parse("switch_vt", &one("-3")), Some(KeyAction::SwitchVt(-3))));
    assert!(KeyAction::parse("workspace", &one("300")).is_none());
    assert!(matches!(KeyAction::parse("dance", &none), Some(KeyAction::Custom(..))));
}

#[test]
fn rules_are_read() {
    let c = config("window_rule = \"title:Pic\", float, \"size 640x480\", \"opacity 0.9\", nonsense");
    let r = &c.window_rules[0];
    assert!(matches!(&r.matcher, RuleMatcher::Title(t) if t == "Pic"));
    assert!(matches!(r.effects[0], RuleEffect::Float));
    assert!(matches!(r.effects[1], RuleEffect::Size(640, 480)));
    assert!(matches!(&r.effects[2], RuleEffect::Opacity(n) if n.text() == "0.9"));
    assert_eq!(r.effects.len(), 3);
    assert!(r.matcher.matches("firefox", "My Picture"));
    assert!(!r.matcher.matches("Picture", "other"));
    assert!(RuleEffect::parse("size 1x2x3").is_none());
    assert!(matches!(RuleEffect::parse("workspace 4"), Some(RuleEffect::Workspace(4))));
}

#[test]
fn reloading_keeps_the_font_and_what_ran_once() {
    let mut c = config("gap = 1px\nexec_once = \"a\"\nfont_size = 9");
    c.font_path = "/tmp/a.ttf".to_string();
    c.hot_reload(config("gap = 2px\nexec_once = \"b\"\nfont_size = 10\nexec = \"always\""));
    assert_eq!(c.gap, 2);
    assert_eq!(c.font_path, "/tmp/a.ttf");
    assert_eq!(c.font_size.plain_text(), "10");
    assert_eq!(c.exec_once[0].command, "a");
    assert_eq!(c.exec_always[0].command, "always");
}

#[test]
fn unknown_keys_are_told() {
    let r = parse("gapp = 1\nbar { heigth = 3 }");
    let u = Config::unknown_keys(&r.file);
    assert_eq!(u.len(), 2);
    assert_eq!((u[0].key.as_str(), u[0].block.as_deref(), u[0].line), ("gapp", None, 1));
    assert_eq!((u[1].key.as_str(), u[1].block.as_deref()), ("heigth", Some("bar")));
}

#[test]
fn errors_are_told_with_their_place() {
    assert_eq!(messages("active_border = $nope"), vec!["1:17: undefined variable '$nope'"]);
    assert!(!messages("gap = ").is_empty());
    assert!(!messages("bar { height = 1").is_empty());
    assert!(!messages("gap = \"open").is_empty());
    assert!(!messages("x = [a, b").is_empty());
}

#[test]
fn tokens_are_told_apart() {
    let c = chars_of("a = 12 1.5 8px \"s\" #fff0aa { } [ ] , $v");
    let t = tokenize(&c);
    let mut kinds = Vec::new();
    for l in &t {
        kinds.push(match &l.tok {
            Tok::Ident(_) => "ident",
            Tok::VarRef(_) => "ref",
            Tok::VarDef(_) => "def",
            Tok::StringLit(_) => "string",
            Tok::Int(12) => "int",
            Tok::Int(_) => "other",
            Tok::Float(_) => "float",
            Tok::Color(..) => "color",
            Tok::Dimension(_, Unit::Px) => "px",
            Tok::Dimension(..) => "unit",
            Tok::Eq => "=",
            Tok::LBrace => "{",
            Tok::RBrace => "}",
            Tok::LBracket => "[",
            Tok::RBracket => "]",
            Tok::Comma => ",",
            Tok::Eof => "eof",
        });
    }
    assert_eq!(
        kinds,
        vec![
            "ident", "=", "int", "float", "px", "string", "color", "{", "}", "[", "]", ",", "ref",
            "eof"
        ]
    );
}

#[test]
fn negative_numbers_are_numbers() {
    let toks = |text: &str| -> Vec<Tok> {
        tokenize(&chars_of(text)).into_iter().map(|l| l.tok).collect()
    };
    let c = chars_of("-5");
    let mut lexer = Lexer::new(&c);
    let t = lexer.next_tok().unwrap();
    assert!(matches!(t.value, Tok::Int(-5)));
    assert_eq!((t.span.start, t.span.end, t.span.line, t.span.col), (0, 2, 1, 1));
    let t = toks("-1.5 -20px -3% -0 -9223372036854775807");
    assert!(matches!(&t[0], Tok::Float(x) if x.text() == "-1.5"));
    assert!(matches!(&t[1], Tok::Dimension(x, Unit::Px) if x.text() == "-20" && x.to_u32() == 0));
    assert!(matches!(&t[2], Tok::Dimension(x, Unit::Percent) if x.to_i64() == -3));
    assert!(matches!(t[3], Tok::Int(0)));
    assert!(matches!(t[4], Tok::Int(n) if n == -i64::MAX));
    let t = toks("-show -dmenu - set-volume --5");
    let words: Vec<&str> = t
        .iter()
        .filter_map(|t| match t {
            Tok::Ident(s) => Some(s.as_str()),
            _ => None,
        })
        .collect();
    assert_eq!(words, vec!["-show", "-dmenu", "-", "set-volume", "--5"]);
    assert_eq!(
        messages("a = -9223372036854775808")[0],
        "1:5: invalid integer '-9223372036854775808'"
    );
    let c = config("monitor DP-1 { position = -1920, 0 }\nbar { glyph_y_offset = -2 }");
    assert_eq!(c.monitors[0].position, (-1920, 0));
    assert_eq!(c.bar.style.glyph_y_offset, -2);
}

#[test]
fn unknown_items_change_nothing() {
    let known = "gap = 7px\nbar { height = 30px }\nkeybind = SUPER:q, close";
    let mixed = "future = 1\ngap = 7px\nanimations { x = 1 }\nbar { height = 30px\n odd = 2 }\n\
                 keybind = SUPER:q, close\ngeneral { }";
    let (a, b) = (config(known), config(mixed));
    assert_eq!((a.gap, a.bar.style.height, a.keybinds.len()), (7, 30, 1));
    assert_eq!((b.gap, b.bar.style.height, b.keybinds.len()), (7, 30, 1));
    assert_eq!((a.workspaces, a.monitors.len()), (b.workspaces, b.monitors.len()));
}

#[test]
fn files_are_sourced() {
    let file = |path: &str, text: Result<&str, &str>| SourceFile {
        path: path.to_string(),
        canonical: path.to_string(),
        dir: "/etc/t".to_string(),
        content: text.map(|s| s.to_string()).map_err(|s| s.to_string()),
    };
    let sources = Sources {
        home: "/home/u".to_string(),
        files: vec![
            file("/etc/t/a.conf", Ok("gap = 7px\n")),
            file("/etc/t/bad.conf", Err("denied")),
            file("/etc/t/loop.conf", Ok("source = \"loop.conf\"\nborder_width = 2\n")),
        ],
    };
    let run = |text: &str| parse_with_context(text, "/etc/t/main.conf", "/etc/t", &sources);
    let r = run("source = \"a.conf\"\nborder_width = 5\n");
    assert!(r.result.errors.is_empty(), "{:?}", r.result.errors);
    assert!(r.missing.is_empty());
    assert_eq!(r.result.file.get("gap").unwrap().value.as_px(), Some(7));
    assert_eq!(r.result.file.get("border_width").unwrap().value.as_px(), Some(5));

    let r = run("source = \"other.conf\"\n");
    assert_eq!(r.missing, vec!["/etc/t/other.conf"]);

    let r = run("source = \"bad.conf\"\n");
    assert_eq!(r.result.errors.len(), 1);
    assert!(r.result.errors[0].message.contains("denied"));

    let r = run("source = \"loop.conf\"\n");
    assert!(r.result.errors.iter().any(|e| e.message.contains("cycle")), "{:?}", r.result.errors);
    assert_eq!(r.result.file.get("border_width").unwrap().value.as_px(), Some(2));

    assert_eq!(resolve_source("~/x.conf", "/home/u", "/etc/t"), "/home/u/x.conf");
    assert_eq!(resolve_source("/abs", "/home/u", "/etc/t"), "/abs");
}

#[test]
fn values_convert() {
    let v = |s: &str| {
        let r = parse(&format!("k = {}", s));
        assert!(r.errors.is_empty(), "{:?}", r.errors);
        r.file
    };
    assert_eq!(v("7").get("k").unwrap().value.as_px(), Some(7));
    assert_eq!(v("7").get("k").unwrap().value.as_hz(), Some(7));
    assert_eq!(v("60hz").get("k").unwrap().value.as_hz(), Some(60));
    assert_eq!(v("yes").get("k").unwrap().value.as_bool(), Some(true));
    assert_eq!(v("off").get("k").unwrap().value.as_bool(), Some(false));
    assert_eq!(v("2.9").get("k").unwrap().value.as_i64(), Some(2));
    assert!(matches!(v("50%").get("k").unwrap().value, Value::Dimension(_, Unit::Percent)));
    assert_eq!(v("x").get("k").unwrap().value.as_color(), None);
    assert_eq!(v("3").get("k").unwrap().value.as_arg_string().as_deref(), Some("3"));
}

#[test]
fn paths_are_joined() {
    assert_eq!(join_path("/a", "b"), "/a/b");
    assert_eq!(join_path("/a/", "b"), "/a/b");
    assert_eq!(join_path("/a", "/b"), "/b");
    assert_eq!(config_dir(None, Some("/home/u")), "/home/u/.config/trixie");
    assert_eq!(config_path(Some("/cfg"), None), "/cfg/trixie/trixie.conf");
    assert_eq!(config_path(None, None), "/root/.config/trixie/trixie.conf");
}

#[test]
fn fonts_are_looked_for() {
    assert!(matches!(font_plan("/f.ttf", None, None), FontPlan::At(p) if p == "/f.ttf"));
    assert!(matches!(font_plan("~/f.ttf", Some("/h"), None), FontPlan::At(p) if p == "/h/f.ttf"));
    match font_plan("Iosevka", Some("/h"), Some("/d")) {
        FontPlan::Search { dirs, names } => {
            assert_eq!(dirs[0], "/d/fonts");
            assert_eq!(dirs[1], "/h/.fonts");
            assert_eq!(dirs.len(), 10);
            assert_eq!(
                names,
                vec!["Iosevka", "Iosevka.ttf", "Iosevka.otf", "Iosevka.TTF", "Iosevka.OTF"]
            );
            let p = font_probes(&dirs, &names);
            assert_eq!(p.len(), 50);
            assert_eq!(p[1], "/d/fonts/Iosevka.ttf");
            assert_eq!(p[5], "/h/.fonts/Iosevka");
        }
        FontPlan::At(p) => panic!("{}", p),
    }
    match font_plan("a.otf", None, None) {
        FontPlan::Search { dirs, names } => {
            assert_eq!(dirs[0], "/root/.local/share/fonts");
            assert_eq!(names, vec!["a.otf"]);
        }
        FontPlan::At(p) => panic!("{}", p),
    }
}

#[test]
fn the_font_can_be_given() {
    let r = parse("font = \"Mono\"");
    assert_eq!(Config::font_request(&r.file).as_deref(), Some("Mono"));
    let c = Config::from_file(&r.file, Some("/found/Mono.ttf".to_string()));
    assert_eq!(c.font_path, "/found/Mono.ttf");
}
