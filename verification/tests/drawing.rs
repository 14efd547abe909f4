//! Cursors, characters, bars, frames and screens.

use trixie::backend::{
    add_gpu, add_output, bar_height, choose_mode, connector_name, drm_candidates,
    enumerate_connectors, frame_nanos, free_crtc, pause_all_outputs, place_screen,
    resume_all_outputs, wanted_mode, ConnectorState, FoundScreen, ScreenMode, Session, SurfaceState,
};
use trixie::config::parser::parse;
use trixie::config::settings::Config;
use trixie::cursor::{
    cursor_files, cursor_size, load_xcursor_file, make_arrow_pixels, CursorBitmap, CursorManager,
    HwCursor, CURSOR_BYTES,
};
use trixie::desk::windows::{Area, Desk, Space, Window};
use trixie::portal::{
    cast_node, file_uri, on_event, screenshot_path, PipeWireStream, PortalEvent,
};
use trixie::render::atlas::{pack_rows, Bitmap, FontAtlas, Placed};
use trixie::render::chrome::{ChromeConfig, ChromeOp, ChromeRenderer, Quad};
use trixie::render::frame::{
    draw_cursor, render_workspace, scissor_y, to_rgba, FrameInfo, FrameOp, GlTexture, Paint, Place,
    RawBuffer, RenderState, Upload, UploadPlan,
};
use trixie::render::scene::{
    build_elements, framed_panes, render, resolve_pane_inner_rect, resolve_window_rect,
    sync_window, window_info, window_pane, Element, Placed as PlacedWindow, RenderEvent,
    RenderStep,
};
use trixie::render::stats::{cpu_ticks, mem_kb, wall_time, SysStats};
use trixie::render::status::{measure, BarConfig, BarOp, BarState, Readings, Shade};
use trixie::shell::{new_toplevel, Surfaces};
use trixie::twm::anim::{AnimSet, Blend};
use trixie::twm::rect::Rect;
use trixie::twm::state::TwmState;

#[test]
fn the_arrow_is_drawn() {
    let b = CursorBitmap::builtin_arrow(0xFFCDD2E6, 0xFF1E1E2E);
    assert_eq!(b.data.len(), CURSOR_BYTES);
    assert_eq!(b.hotspot, (0, 0));
    for row in 0..64usize {
        for col in 0..64usize {
            let (r, c) = (row as f32, col as f32);
            let inside = r < 22.0 && c < r * 0.62 + 1.0 && c < (22.0 - r) + 1.0;
            let (nr, nc) = (r + 1.0, c + 1.0);
            let fill = nr < 21.0
                && nc < (r - 1.0) * 0.62 + 0.5
                && nr < (22.0 - 1.0 - nc) + 1.0
                && c > 1.0;
            let color: u32 = if !inside {
                0
            } else if fill {
                0xFFCDD2E6
            } else {
                0xFF1E1E2E
            };
            let at = (row * 64 + col) * 4;
            assert_eq!(b.data[at..at + 4], color.to_le_bytes());
        }
    }
}

#[test]
fn the_plain_arrow_has_an_edge() {
    let p = make_arrow_pixels();
    assert_eq!(p.len(), 4096);
    assert_eq!((p[0], p[1]), (0xFF000000, 0));
    assert_eq!((p[5 * 64], p[5 * 64 + 2], p[5 * 64 + 5], p[5 * 64 + 6]), (
        0xFF000000, 0xFFFFFFFF, 0xFF000000, 0
    ));
    assert_eq!((p[19 * 64], p[19 * 64 + 1], p[20 * 64]), (0xFF000000, 0, 0));
    let h = HwCursor::load(None);
    assert_eq!(h.pixels, p);
    assert_eq!(HwCursor::load(Some((vec![1], 2, 3))).hot_y, 3);
}

fn u(n: u32) -> Vec<u8> {
    n.to_le_bytes().to_vec()
}

/// A cursor file with an image of each size, filled with that size.
fn cursor_file(sizes: &[(u32, u32, u32)]) -> Vec<u8> {
    let mut f = b"Xcur".to_vec();
    f.extend(u(16));
    f.extend(u(1));
    f.extend(u(sizes.len() as u32));
    let mut at = 16 + 12 * sizes.len() as u32;
    for (size, w, h) in sizes {
        f.extend(u(0xFFFD_0002));
        f.extend(u(*size));
        f.extend(u(at));
        at += 36 + w * h * 4;
    }
    for (size, w, h) in sizes {
        for n in [36, 0xFFFD_0002, *size, 1, *w, *h, 5, 70, 0] {
            f.extend(u(n));
        }
        for i in 0..w * h {
            f.extend(u(0x0100_0000 * (i + 1) + size));
        }
    }
    f
}

#[test]
fn cursor_files_are_read() {
    let f = cursor_file(&[(24, 2, 3), (48, 1, 1), (32, 70, 1)]);
    let b = load_xcursor_file(&f, 24).unwrap();
    assert_eq!(b.hotspot, (5, 63));
    assert_eq!(b.data.len(), CURSOR_BYTES);
    assert_eq!(b.data[0..12], [24, 0, 0, 1, 24, 0, 0, 2, 0, 0, 0, 0]);
    assert_eq!(b.data[256..260], [24, 0, 0, 3]);
    assert_eq!(b.data[3 * 256..3 * 256 + 4], [0, 0, 0, 0]);
    assert_eq!(load_xcursor_file(&f, 40).unwrap().data[0], 48);
    assert_eq!(load_xcursor_file(&f, 39).unwrap().data[0], 32);
    let wide = load_xcursor_file(&f, 32).unwrap();
    assert_eq!(wide.data[63 * 4], 32);
    assert_eq!(wide.data[256], 0);
    assert!(load_xcursor_file(&f[..f.len() - 1].to_vec(), 32).is_none());
    assert!(load_xcursor_file(&f[..20].to_vec(), 24).is_none());
    assert!(load_xcursor_file(&b"Xcur".to_vec(), 24).is_none());
    let mut bad = f.clone();
    bad[0] = b'Y';
    assert!(load_xcursor_file(&bad, 24).is_none());
    assert!(load_xcursor_file(&cursor_file(&[]), 24).is_none());
}

#[test]
fn cursors_are_found_and_placed() {
    assert_eq!(
        cursor_files(Some("/h"), "Adwaita", "left_ptr"),
        vec![
            "/h/.local/share/icons/Adwaita/cursors/left_ptr",
            "/h/.icons/Adwaita/cursors/left_ptr",
            "/usr/share/icons/Adwaita/cursors/left_ptr",
            "/usr/share/pixmaps/cursors/left_ptr",
        ]
    );
    assert_eq!(cursor_files(None, "x", "arrow").len(), 2);
    assert_eq!(cursor_size(Some("24")), 24);
    assert_eq!(cursor_size(Some("big")), 64);
    assert_eq!(cursor_size(None), 64);
    let mut m = CursorManager::default();
    assert_eq!(m.theme_files(None, None)[0], "/usr/share/icons/default/cursors/left_ptr");
    assert_eq!(m.theme_files(Some("T"), Some("/h")).len(), 12);
    let arrow = m.bitmap.data.clone();
    m.load_theme(&vec![vec![1, 2, 3]], 24);
    assert_eq!(m.bitmap.data, arrow);
    m.load_theme(&vec![vec![], cursor_file(&[(24, 1, 1)]), cursor_file(&[(25, 1, 1)])], 24);
    assert_eq!(m.bitmap.data[0], 24);
    assert_eq!(m.move_cursor(10, 100), None);
    assert_eq!(m.uploaded(true, 10, 100), Some((5, 37)));
    assert_eq!(m.move_cursor(3, 10), Some((0, 0)));
    assert_eq!(m.uploaded(false, 10, 100), None);
    assert_eq!(m.software_origin(10, 100), (5, 37));
}

fn bitmap(width: u32, advance: i64) -> Bitmap {
    Bitmap { width, rows: 10, pixel_mode: 2, left: 1, top: 9, advance, drawn: true }
}

#[test]
fn characters_are_put_side_by_side() {
    let mut a = FontAtlas::new(true);
    assert_eq!(a.rasterise('a', 13, bitmap(8, 640), false), Placed::NeedsRow {
        height: 17,
        lcd: false
    });
    a.add_row(13, false, 7);
    let g = match a.rasterise('a', 13, bitmap(8, 640), false) {
        Placed::At(g) => g,
        other => panic!("{:?}", other),
    };
    assert_eq!((g.tex_id, g.x, g.px_w, g.px_h, g.tex_h, g.advance), (7, 0, 8, 10, 17, 10));
    let h = match a.rasterise('b', 13, bitmap(5, -65), false) {
        Placed::At(g) => g,
        other => panic!("{:?}", other),
    };
    assert_eq!((h.x, h.advance), (9, -2));
    assert_eq!(a.glyph('a', 13), Some(g));
    assert_eq!(a.glyph('a', 14), None);
    let blank = Bitmap { width: 0, ..bitmap(0, 256) };
    assert!(matches!(a.rasterise(' ', 13, blank, false), Placed::Blank(g) if g.advance == 4));
    assert_eq!(a.rasterise('w', 13, bitmap(2040, 64), false), Placed::Full);
    let lcd = Bitmap { pixel_mode: 5, ..bitmap(30, 640) };
    assert_eq!(a.rasterise('c', 13, lcd, true), Placed::NeedsRow { height: 17, lcd: true });
    a.add_row(13, true, 8);
    assert!(matches!(a.rasterise('c', 13, lcd, true), Placed::At(g) if g.px_w == 10 && g.lcd));
    let odd = Bitmap { rows: u32::MAX, advance: i64::MIN, ..bitmap(1, 0) };
    let mut wide = FontAtlas::new(false);
    wide.add_row(13, false, 7);
    match wide.rasterise('x', 13, odd, false) {
        Placed::At(g) => assert_eq!((g.px_h, g.advance), (-1, (i64::MIN >> 6) as i32)),
        other => panic!("{:?}", other),
    }
    assert_eq!(measure(&a, "a b?", 13), 4 * 10 + 4 * 4 - 4 * 2 + 2 * 13);
    assert_eq!(a.measure("a b?", 13), 10 + 4 - 2 + 6);
    assert_eq!(pack_rows(&vec![1, 2, 0, 3, 4, 0], 3, 2, 2), vec![1, 2, 3, 4]);
}

#[test]
fn the_load_is_read() {
    let stat = "cpu  10 20 30 400 5 x 6\ncpu0 1 2 3 4\n";
    assert_eq!(cpu_ticks(stat), Some((400, 471)));
    assert_eq!(cpu_ticks("cpu 1 2 3\n"), None);
    assert_eq!(cpu_ticks(""), None);
    let mem = "MemTotal:       8000 kB\nMemFree: 1 kB\nMemAvailable:   3000 kB\n";
    assert_eq!(mem_kb(mem), Some((5000, 8000)));
    assert_eq!(mem_kb("MemTotal: x kB"), None);
    assert_eq!(mem_kb("MemTotal: 5 kB\nMemAvailable: 9 kB"), Some((0, 5)));
    let mut s = SysStats::new(Some((100, 200)));
    assert!(s.is_due(0));
    s.poll(5000, Some((150, 400)), Some((4096, 8192)));
    assert_eq!((s.idle, s.total, s.mem_used_mb, s.mem_total_mb), (50, 200, 4, 8));
    assert!(!s.is_due(5999) && s.is_due(6000));
    s.poll(6000, None, None);
    assert_eq!((s.idle, s.total, s.mem_used_mb), (50, 200, 4));
    s.poll(7000, Some((1, 1)), None);
    assert_eq!((s.idle, s.total), (0, 1));
    assert_eq!(wall_time(0), "00:00");
    assert_eq!(wall_time(86400 + 9 * 3600 + 5 * 60 + 59), "09:05");
    assert_eq!(wall_time(23 * 3600 + 59 * 60), "23:59");
}

fn desk(title: &str) -> Desk {
    Desk {
        windows: vec![Window {
            id: 1,
            app_id: "a".to_string(),
            title: title.to_string(),
            workspace: 0,
            rect: Area { x: 10, y: 20, w: 100, h: 50 },
            floating: false,
            fullscreen: false,
            maximized: false,
        }],
        spaces: vec![
            Space { focused: Some(1), windows: vec![1], monocle: false },
            Space { focused: None, windows: vec![1], monocle: false },
            Space { focused: None, windows: vec![], monocle: false },
        ],
        active: 0,
        border: 2,
    }
}

fn readings() -> Readings {
    Readings {
        time: "12:00".to_string(),
        mem_used_mb: 4,
        mem_total_mb: 8,
        cpu: "5%".to_string(),
    }
}

#[test]
fn the_bar_is_laid_out_as_in_single_precision() {
    compare_with_single_precision(BarConfig::default());
    for (pad_x, tag_min_w) in [(21, 49), (1, 81), (0, 0)] {
        compare_with_single_precision(BarConfig { pad_x, tag_min_w, ..BarConfig::default() });
    }
}

/// The same layout in single precision, with characters of half their size.
fn compare_with_single_precision(cfg: BarConfig) {
    let (h, fs, out_w) = (28.0f32, 13u32, 1000.0f32);
    let (px, tag) = (cfg.pad_x as f32 / 2.0, cfg.tag_min_w as f32 / 2.0);
    let measure = |s: &str| s.chars().map(|_| fs as f32 * 0.5).sum::<f32>();
    let bar = BarState::new(cfg);
    let title = "A window with a long title that does not fit into what is left of this bar, \
                 so that some of it has to go and only its start is shown to the reader of it";
    let ops = bar.draw(&FontAtlas::new(false), &desk(title), 0, 1000, &readings());
    let mut want: Vec<(f32, f32, f32, f32, String)> = Vec::new();
    let rect = |want: &mut Vec<(f32, f32, f32, f32, String)>, x: f32, y: f32, w: f32, hh: f32| {
        want.push((x, y, w, hh, String::new()))
    };
    rect(&mut want, 0.0, 0.0, out_w, h);
    let mut lx = px * 0.5;
    for i in 0..3usize {
        let label = format!("{}", i + 1);
        let lw = measure(&label).max(tag - px * 2.0);
        let pill = lw + px * 2.0;
        rect(&mut want, lx, 2.0, pill, h - 4.0);
        want.push((lx + px, 0.0, 0.0, 0.0, label));
        if i == 1 {
            rect(&mut want, lx + pill * 0.5 - 2.0, h - 4.0, 4.0, 2.0);
        }
        lx += pill + 2.0;
    }
    lx += 4.0;
    rect(&mut want, lx, 3.0, 1.0, h - 6.0);
    lx += 8.0;
    let mut rx = out_w - px * 0.5;
    rx -= measure("12:00");
    want.push((rx, 0.0, 0.0, 0.0, "12:00".to_string()));
    rx -= px;
    rect(&mut want, rx, 3.0, 1.0, h - 6.0);
    rx -= px;
    for (text, label) in [("4M/8M", "MEM "), ("5%", "CPU ")] {
        rx -= measure(text);
        want.push((rx, 0.0, 0.0, 0.0, text.to_string()));
        rx -= measure(label);
        want.push((rx, 0.0, 0.0, 0.0, label.to_string()));
        rx -= px;
        rect(&mut want, rx, 3.0, 1.0, h - 6.0);
        rx -= px;
    }
    let avail = (rx - lx).max(0.0);
    assert!(measure(title) > avail);
    let mut cut = String::new();
    let mut acc = 0.0f32;
    for ch in title.chars() {
        let cw = fs as f32 * 0.5;
        if acc + cw + measure("…") > avail {
            break;
        }
        cut.push(ch);
        acc += cw;
    }
    cut.push('…');
    want.push((lx + (avail - measure(&cut)) * 0.5, 0.0, 0.0, 0.0, cut));
    rect(&mut want, 0.0, h - 1.0, out_w, 1.0);
    let got: Vec<(f32, f32, f32, f32, String)> = ops
        .iter()
        .map(|op| match op {
            BarOp::Fill { x, y, w, h, .. } => {
                (*x as f32 / 4.0, *y as f32, *w as f32 / 4.0, *h as f32, String::new())
            }
            BarOp::Text { x, text, .. } => (*x as f32 / 4.0, 0.0, 0.0, 0.0, text.clone()),
        })
        .collect();
    assert_eq!(got, want);
}

#[test]
fn the_bar_has_these_colors() {
    let bar = BarState::new(BarConfig::default());
    let mut now = readings();
    now.mem_total_mb = 0;
    let ops = bar.draw(&FontAtlas::new(false), &desk("t"), 0, 1000, &now);
    let shades: Vec<Shade> = ops
        .iter()
        .map(|op| match op {
            BarOp::Fill { shade, .. } => *shade,
            BarOp::Text { shade, .. } => *shade,
        })
        .collect();
    assert_eq!(
        shades,
        vec![
            Shade::Mantle,
            Shade::Mauve,
            Shade::Base,
            Shade::Surface0,
            Shade::Text,
            Shade::Lavender,
            Shade::Clear,
            Shade::Overlay0,
            Shade::Surface1,
            Shade::Lavender,
            Shade::Surface1,
            Shade::Cpu,
            Shade::Subtext1,
            Shade::Surface1,
            Shade::Text,
            Shade::Surface0,
        ]
    );
    let empty = bar.draw(&FontAtlas::new(false), &desk(""), 0, 1000, &now);
    assert_eq!(empty.len(), ops.len() - 1);
}

#[test]
fn texts_stand_in_the_bar() {
    let mut a = FontAtlas::new(false);
    a.add_row(13, false, 7);
    let b = |left, top, advance| Bitmap { left, top, ..bitmap(8, advance) };
    a.rasterise('a', 13, b(-3, 9, 640), false);
    a.rasterise('b', 13, b(1, 2, 448), false);
    let bar = BarState::new(BarConfig::default());
    let (glyphs, end) = bar.text_mid(&a, 6, "ab a?", 15);
    let mut x = 1.5f32;
    let base = ((28.0f32 + 13.0 * 0.70) * 0.5).floor();
    let mut want = Vec::new();
    for ch in "ab a?".chars() {
        match ch {
            'a' => {
                want.push(((x - 3.0).floor(), base - 9.0));
                x += 10.0;
            }
            'b' => {
                want.push(((x + 1.0).floor(), base - 2.0));
                x += 7.0;
            }
            ' ' => x += 3.75,
            _ => x += 6.0,
        }
    }
    let got: Vec<(f32, f32)> = glyphs.iter().map(|g| (g.x as f32, g.y as f32)).collect();
    assert_eq!(got, want);
    assert_eq!(end as f32 / 4.0, x);
    let (_, end) = bar.text_mid(&a, 0, "abba", 15);
    assert_eq!(end, measure(&a, "abba", 13));
    assert_eq!(end, 4 * a.measure("abba", 13));
    for size in 1..200u32 {
        let cfg = BarConfig { height: 31, font_size: size, ..BarConfig::default() };
        let mut a = FontAtlas::new(false);
        a.add_row(size, false, 7);
        a.rasterise('a', size, b(0, 0, 0), false);
        let y = BarState::new(cfg).text_mid(&a, 0, "a", 0).0[0].y;
        assert_eq!(y as f32, ((31.0f32 + size as f32 * 0.70) * 0.5).floor());
    }
}

#[test]
fn frames_lie_around_their_contents() {
    let r = ChromeRenderer { cfg: ChromeConfig::default() };
    let area = Area { x: 100, y: -50, w: 301, h: 199 };
    let (bw, so, sr, cr) = (2.0f32, 32.0f32, 28.0f32, 10.0f32);
    let (x, y, w, h) = (100.0f32, -50.0f32, 301.0f32, 199.0f32);
    let px = |q: Quad| {
        let f = |n: i64| n as f32 / 16.0;
        (f(q.x), f(q.y), f(q.w), f(q.h))
    };
    match r.draw_shadow(area, true) {
        ChromeOp::Shadow { quad, radius, blur, focused } => {
            let want =
                (x - bw - so, y - bw - so * 0.5, w + (bw + so) * 2.0, h + (bw + so) * 2.5);
            assert_eq!(px(quad), want);
            assert_eq!(radius as f32 / 16.0, cr + bw + so * 0.25);
            assert_eq!(blur as f32 / 16.0, sr);
            assert!(focused);
        }
        other => panic!("{:?}", other),
    }
    let ops = r.draw_window(area, false, true);
    assert_eq!(ops.len(), 2);
    match ops[0] {
        ChromeOp::Border { quad, radius, thickness, focused } => {
            assert_eq!(px(quad), (x - bw, y - bw, w + bw * 2.0, h + bw * 2.0));
            assert_eq!((radius as f32 / 16.0, thickness as f32 / 16.0), (cr + bw, bw));
            assert!(!focused);
        }
        other => panic!("{:?}", other),
    }
    match ops[1] {
        ChromeOp::Content { quad, radius } => {
            assert_eq!(px(quad), (x, y, w, h));
            assert_eq!(radius as f32 / 16.0, cr);
        }
        other => panic!("{:?}", other),
    }
    match r.draw_window(area, false, false)[1] {
        ChromeOp::Content { radius, .. } => assert_eq!(radius, 0),
        other => panic!("{:?}", other),
    }
    assert_eq!(r.draw_border_only(area, false, true), Some(ops[0]));
    let bare = ChromeRenderer { cfg: ChromeConfig { border_width: 0, ..r.cfg } };
    assert_eq!(bare.draw_border_only(area, true, true), None);
    assert_eq!(bare.draw_window(area, true, true).len(), 1);
}

#[test]
fn pixels_change_their_order() {
    let data: Vec<u8> = (0..24).collect();
    assert_eq!(
        to_rgba(&data, 2, 2, 12),
        vec![2, 1, 0, 3, 6, 5, 4, 7, 14, 13, 12, 15, 18, 17, 16, 19]
    );
    assert_eq!(to_rgba(&data[..16].to_vec(), 2, 2, 12)[8..], [14, 13, 12, 15, 0, 0, 0, 0]);
    assert_eq!(to_rgba(&data[..14].to_vec(), 2, 2, 12)[8..], [0; 8]);
    assert_eq!(to_rgba(&data, 0, 5, 12), Vec::<u8>::new());
}

#[test]
fn textures_follow_windows() {
    let mut s = RenderState::new();
    assert_eq!(s.upload_shm_buffer(1, 10, 10), Upload::NeedsTexture);
    s.add_texture(1, 77);
    assert_eq!(s.upload_shm_buffer(1, 10, 10), Upload::Whole { tex_id: 77 });
    assert_eq!(s.upload_shm_buffer(1, 10, 10), Upload::Part { tex_id: 77 });
    assert_eq!(s.upload_shm_buffer(1, 10, 11), Upload::Whole { tex_id: 77 });
    s.remove_window(1);
    assert_eq!(s.upload_shm_buffer(1, 10, 10), Upload::NeedsTexture);
    s.queue_buffer_release(4);
    s.queue_buffer_release(5);
    assert_eq!(s.release_old_buffers(), vec![4, 5]);
    assert_eq!(s.release_old_buffers(), Vec::<u32>::new());
}

#[test]
fn frames_hold_windows_bar_and_marks() {
    let f = FrameInfo { width: 200, height: 100, bar_h: 24, bar_bottom: true };
    let mut s = RenderState::new();
    let ops = render_workspace(&desk("t"), &s, 0, f);
    let area = |x, y, w, h| Place { x, y, w, h };
    let fill = |rect, paint| FrameOp::Fill { rect, paint };
    assert_eq!(
        ops,
        vec![
            fill(area(10, 20, 100, 50), Paint::ActiveBorder),
            fill(area(12, 22, 96, 46), Paint::NoPicture),
            fill(area(0, 76, 200, 24), Paint::Bar),
            fill(area(4, 80, 20, 16), Paint::ShownSpace),
            fill(area(28, 80, 20, 16), Paint::UsedSpace),
            fill(area(52, 80, 20, 16), Paint::EmptySpace),
        ]
    );
    s.add_texture(1, 9);
    let ops = render_workspace(&desk("t"), &s, 1, f);
    assert_eq!(ops[0], fill(area(10, 20, 100, 50), Paint::InactiveBorder));
    assert_eq!(ops[1], FrameOp::Picture { tex_id: 9, rect: area(12, 22, 96, 46) });
    let mut d = desk("t");
    d.spaces[1].monocle = true;
    assert_eq!(render_workspace(&d, &s, 1, f).len(), 4);
    assert!(render_workspace(&d, &s, 7, f).is_empty());
    assert_eq!(draw_cursor(5, 6)[1], fill(area(6, 7, 10, 18), Paint::CursorFill));
    assert_eq!(scissor_y(Area { x: 0, y: 10, w: 5, h: 20 }, 100), 70);
    assert_eq!(draw_cursor(i32::MAX, 0)[1], fill(area(1 << 31, 1, 10, 18), Paint::CursorFill));
    let mut d = desk("t");
    d.windows[0].rect = Area { x: i32::MAX, y: i32::MIN, w: i32::MAX, h: -1 };
    let ops = render_workspace(&d, &RenderState::new(), 0, f);
    assert_eq!(ops[0], fill(area(0, 76, 200, 24), Paint::Bar));
    d.windows[0].rect.h = i32::MAX;
    let ops = render_workspace(&d, &RenderState::new(), 0, f);
    let (max, min) = (i32::MAX as i128, i32::MIN as i128);
    assert_eq!(ops[1], fill(area(max + 2, min + 2, max - 4, max - 4), Paint::NoPicture));
}

#[test]
fn uploads_are_planned() {
    let mut t = GlTexture { id: 3, egl_image: Some(1) };
    let shm = RawBuffer::Shm { offset: 16, width: 2, height: 3, stride: 8 };
    let p = t.upload_buffer(&shm);
    assert_eq!(p, UploadPlan::Memory { mapped: 40, start: 16, row_pixels: 2 });
    t.uploaded(p, None);
    assert_eq!(t.egl_image, None);
    let dma = RawBuffer::Dmabuf {
        fds: vec![1, 2, 3],
        offsets: vec![0, 0],
        strides: vec![4, 4, 4],
        modifier: 0x1_0000_0002,
    };
    let p = t.upload_buffer(&dma);
    assert_eq!(p, UploadPlan::Planes { count: 2, modifier_hi: 1, modifier_lo: 2 });
    t.uploaded(p, Some(5));
    t.uploaded(p, None);
    assert_eq!(t.egl_image, Some(5));
    t.clear_egl_image();
    assert_eq!(t.egl_image, None);
}

#[test]
fn windows_are_drawn_in_their_panes() {
    let mut twm = TwmState::new(1000, 600, 0, true, 10, 3, 0, 2);
    let mut anim = AnimSet::default();
    anim.resize(1000, 600);
    let mut surfaces = Surfaces::default();
    let p = new_toplevel(&mut twm, &mut anim, &mut surfaces, 11, "term", &vec![], 0);
    let id = p.pane.unwrap();
    let end = Blend::from_bits(1.0f32.to_bits());
    let r = resolve_pane_inner_rect(&twm, &anim, 3, id, end);
    assert_eq!((r.x, r.y, r.w, r.h), (3, 3, 994, 594));
    assert_eq!(resolve_window_rect(&twm, &anim, id, end), Some(Rect::new(3, 3, 994, 594)));
    assert_eq!(resolve_window_rect(&twm, &anim, 999, end), None);
    assert_eq!(framed_panes(&twm, &anim), vec![id]);
    assert_eq!(window_pane(&twm, &surfaces, 11, ""), Some(id));
    assert_eq!(window_pane(&twm, &surfaces, 12, "term"), Some(id));
    assert_eq!(window_pane(&twm, &surfaces, 12, "other"), None);
    assert_eq!(window_pane(&twm, &surfaces, 12, ""), None);
    let w = window_info(&twm, &anim, 3, id, end).unwrap();
    assert_eq!((w.rect.x, w.rect.w), (3, 994));
    assert_eq!((w.title.as_str(), w.focused, w.tag), ("term", true, id as u64));
    assert!(window_info(&twm, &anim, 3, 999, end).is_none());
    anim.close(id, twm.panes[&id].rect, 5);
    assert!(framed_panes(&twm, &anim).is_empty());
    assert!(window_info(&twm, &anim, 3, id, end).is_none());

    let inner = Rect::new(3, 3, 94, 94);
    let end = Rect::new(50, 3, 44, 94);
    let s = sync_window(inner, end, Some((3, 3)), None, (94, 94), false);
    assert_eq!((s.place, s.configure), (false, None));
    let s = sync_window(inner, end, Some((3, 3)), None, (93, 94), false);
    assert_eq!((s.place, s.configure), (false, Some((94, 94))));
    let s = sync_window(inner, end, None, None, (44, 94), true);
    assert_eq!((s.place, s.configure), (true, Some((44, 94))));
    let s = sync_window(inner, end, Some((3, 4)), Some((44, 94)), (1, 1), true);
    assert_eq!((s.place, s.configure), (true, None));

    let mut cursor = CursorManager::default();
    let w = vec![PlacedWindow { inner, geometry_x: 5, geometry_y: -1 }];
    let e = build_elements(&cursor, (7, 8), &w, 100, (0, 600));
    assert_eq!(
        e,
        vec![
            Element::Cursor { x: 7, y: 8 },
            Element::Window { index: 0, x: 98, y: 4 },
            Element::Background { w: 1, h: 600 },
        ]
    );
    cursor.uploaded(true, 0, 0);
    assert_eq!(build_elements(&cursor, (7, 8), &w, 0, (1, 1)).len(), 2);
}

fn mode(width: u32, height: u32, refresh: u32, preferred: bool) -> ScreenMode {
    ScreenMode { width, height, refresh, preferred }
}

#[test]
fn modes_are_chosen() {
    let m = vec![
        mode(800, 600, 60, false),
        mode(1920, 1080, 60, true),
        mode(1920, 1080, 144, false),
        mode(1920, 1080, 144, false),
    ];
    assert_eq!(choose_mode(&m, Some((1920, 1080, 60))), Some(1));
    assert_eq!(choose_mode(&m, Some((1920, 1080, 75))), Some(3));
    assert_eq!(choose_mode(&m, Some((640, 480, 60))), Some(1));
    assert_eq!(choose_mode(&m, None), Some(1));
    assert_eq!(choose_mode(&m[..1].to_vec(), None), Some(0));
    assert_eq!(choose_mode(&vec![], None), None);
    assert_eq!(connector_name("DP", 2), "DP-2");
    assert_eq!(free_crtc(&vec![4, 5, 6], &vec![5, 4]), Some(6));
    assert_eq!(free_crtc(&vec![4], &vec![4]), None);
}

#[test]
fn screens_are_used() {
    let c = Config::from_file(
        &parse("monitor DP-1 { width = 800\n height = 600\n refresh = 60hz }").file,
        None,
    );
    assert_eq!(wanted_mode(&c.monitors, "DP-1"), Some((800, 600, 60)));
    assert_eq!(wanted_mode(&c.monitors, "DP-2"), None);
    let both = || vec![mode(1920, 1080, 60, true), mode(800, 600, 60, false)];
    let screens = vec![
        FoundScreen { name: "DP-1".to_string(), modes: both() },
        FoundScreen { name: "VGA-1".to_string(), modes: vec![] },
        FoundScreen { name: "DP-2".to_string(), modes: both() },
        FoundScreen { name: "DP-3".to_string(), modes: both() },
    ];
    let used = add_gpu(&screens, &c.monitors, &vec![31, 32], &vec![true; 4]);
    let got: Vec<(usize, usize, u32)> = used.iter().map(|s| (s.screen, s.mode, s.crtc)).collect();
    assert_eq!(got, vec![(0, 1, 31), (2, 0, 32)]);
    let works = vec![false, true, true, true];
    let used = add_gpu(&screens, &c.monitors, &vec![31, 32], &works);
    let got: Vec<(usize, usize, u32)> = used.iter().map(|s| (s.screen, s.mode, s.crtc)).collect();
    assert_eq!(got, vec![(2, 0, 31), (3, 0, 32)]);
    assert_eq!(place_screen(&screens[0], &c.monitors, &vec![31], &vec![]), Some((1, 31)));
    assert_eq!(place_screen(&screens[0], &c.monitors, &vec![31], &vec![31]), None);
    assert_eq!(place_screen(&screens[1], &c.monitors, &vec![31], &vec![]), None);
}

#[test]
fn screens_set_the_panes() {
    let mut twm = TwmState::new(1000, 600, 0, true, 0, 0, 0, 2);
    let id = twm.open_shell("term");
    let out = add_output(&mut twm, (1920, 1080), 60, (28, false), Some(18));
    assert_eq!((out.refresh, out.frame_nanos, out.bar_h), (60_000, 16_666_666, 36));
    assert_eq!(twm.panes[&id].rect, Rect::new(0, 36, 1920, 1044));
    let out = add_output(&mut twm, (800, 600), 0, (28, true), None);
    assert_eq!((out.refresh, out.frame_nanos, out.bar_h), (0, 1_000_000_000, 28));
    assert_eq!(twm.panes[&id].rect, Rect::new(0, 0, 800, 572));
}

#[test]
fn frames_are_drawn_step_by_step() {
    let mut s = SurfaceState { crtc: 1, pending_frame: false, next_frame_ms: 0 };
    let steps = render(&mut s, RenderEvent::Drawn { is_empty: false });
    assert_eq!(steps, vec![RenderStep::DrawChrome, RenderStep::Queue]);
    let steps = render(&mut s, RenderEvent::Drawn { is_empty: true });
    assert_eq!(steps, vec![RenderStep::Queue]);
    for e in [RenderEvent::NoScreen, RenderEvent::NotDrawn, RenderEvent::NotQueued] {
        assert_eq!(render(&mut s, e), vec![RenderStep::Finish(false)]);
    }
    assert!(!s.pending_frame);
    let steps = render(&mut s, RenderEvent::Queued);
    assert_eq!(steps, vec![RenderStep::SendFrames, RenderStep::Finish(true)]);
    assert!(s.pending_frame);
}

#[test]
fn outputs_and_sessions_are_set_up() {
    assert_eq!(bar_height(28, 18), 36);
    assert_eq!(bar_height(36, 18), 36);
    assert_eq!(bar_height(28, 0), 28);
    assert_eq!(frame_nanos(60), 16_666_666);
    assert_eq!(frame_nanos(0), 1_000_000_000);
    assert_eq!(drm_candidates(Some("/dev/x")), vec!["/dev/x"]);
    assert_eq!(drm_candidates(None)[7], "/dev/dri/card7");
    let conn = |id, connected, crtc| ConnectorState {
        connector: id,
        connected,
        modes: vec![mode(640, 480, 60, false)],
        encoder_crtc: crtc,
        size_mm: Some((300, 200)),
    };
    let found = enumerate_connectors(&vec![conn(1, false, None), conn(2, true, Some(9))]).unwrap();
    assert_eq!(found.len(), 1);
    assert_eq!((found[0].connector, found[0].crtc, found[0].mode_w, found[0].width_mm), (2, 9, 640, 300));
    assert!(enumerate_connectors(&vec![conn(2, true, None)]).is_none());
    let mut s = Session::open(true);
    assert!(!s.is_active());
    s.set_active(true);
    assert!(s.is_active());
    assert_eq!(s.seat_name(Some("seat7")), "seat7");
    assert_eq!(s.seat_name(None), "seat0");
    let mut d = Session::open(false);
    d.set_active(false);
    assert!(d.is_active());
    assert_eq!(d.seat_name(Some("seat7")), "seat0");
    let mut v = vec![SurfaceState { crtc: 1, pending_frame: true, next_frame_ms: 0 }];
    pause_all_outputs(&mut v);
    assert!(!v[0].pending_frame);
    resume_all_outputs(&mut v, 100);
    assert_eq!(v[0].next_frame_ms, 116);
}

#[test]
fn screenshots_have_a_place() {
    assert_eq!(screenshot_path("desk", Some("/p"), None, 12), "/p/desk-screenshot-12.png");
    assert_eq!(screenshot_path("desk", None, Some("/h"), 1), "/h/Pictures/desk-screenshot-1.png");
    assert_eq!(screenshot_path("desk", None, None, 1), "/tmp/Pictures/desk-screenshot-1.png");
    assert_eq!(file_uri("/a b"), "file:///a b");
    assert!(PipeWireStream::new().is_err());
    assert_eq!(cast_node(&None), 0);
    assert_eq!(PipeWireStream {}.node_id(), 0);
    assert!(on_event(&None, &PortalEvent::Frame { pixels: vec![], width: 0, height: 0 }));
    assert!(!on_event(&None, &PortalEvent::Shutdown));
}
