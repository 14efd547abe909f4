//! Where things stand in the picture.

use vstd::prelude::*;

use crate::desk::requests::lemma_window_in;
use crate::desk::windows::{Area, DeskView, SpaceView, WindowId};
use crate::integer::decimal;
use crate::render::atlas::{cached, pixels_of, AtlasView, GlyphInfo};
use crate::render::chrome::{border_op, border_quad, shadow_op, shadow_quad, ChromeConfig, ChromeOp};
use crate::render::frame::{
    bar_area, cursor_ops, marks_ops, pixels_held, rgba_byte, rgba_of, source_of, texture_at,
    upload_plan, window_ops, windows_ops, workspace_ops, FrameInfo, FrameOp, Paint, Place,
    RawBuffer, UploadPlan, WindowTexture,
};
use crate::render::scene::{
    first_of_app, frame_of, framed, moved_rect, pane_of, render_steps, window_elements, window_rect,
    Element, Placed, RenderEvent, RenderStep,
};
use crate::render::status::{
    bar_ops, baseline, glyphs_of, pill, pills, reading, readings_ops, steps_of, title_ops, width_of,
    BarConfig, Glyph, OpView, Shade,
};
use crate::shell::{SurfaceId, SurfacesView};
use crate::twm::anim::{AnimKind, AnimView, Blend};
use crate::twm::pane::{PaneId, PaneView};
use crate::twm::state::TwmView;

verus! {

// ── Panes ────────────────────────────────────────────────────────────────────

/// A pane is where the window manager puts it, unless it moves.
pub proof fn law_panes_are_where_they_belong(t: TwmView, a: AnimView, id: PaneId, m: Blend)
    requires
        t.panes.contains_key(id),
        !a.panes.contains_key(id),
    ensures
        moved_rect(t, a, id, m) == t.panes[id].rect,
        framed(t, a).contains(id),
{
}

/// A pane that closes has no frame any more, and none that there is not.
pub proof fn law_closing_panes_have_no_frame(t: TwmView, a: AnimView, id: PaneId)
    ensures
        a.panes.contains_key(id) && a.panes[id].kind == AnimKind::Close ==> !framed(t, a).contains(
            id,
        ),
        !t.panes.contains_key(id) ==> !framed(t, a).contains(id),
        t.panes.contains_key(id) && a.panes.contains_key(id) && a.panes[id].kind != AnimKind::Close
            ==> framed(t, a).contains(id),
{
}

/// The inside of a frame is the pane without its border on each side; a pane that fills the
/// screen has no border.
pub proof fn law_inside_of_frames(t: TwmView, a: AnimView, border: u32, id: PaneId, m: Blend)
    requires
        t.panes.contains_key(id),
        moved_rect(t, a, id, m).w > 2 * border,
        moved_rect(t, a, id, m).h > 2 * border,
    ensures
        ({
            let r = moved_rect(t, a, id, m);
            let f = frame_of(t, a, border, id, m);
            let b = if t.panes[id].fullscreen {
                0
            } else {
                border as int
            };
            &&& f.x - r.x == b && f.y - r.y == b
            &&& (r.x + r.w) - (f.x + f.w) == b
            &&& (r.y + r.h) - (f.y + f.h) == b
        }),
{
}

/// The window of a pane is inside its border; one that fills the screen has all of it.
pub proof fn law_windows_inside_borders(t: TwmView, a: AnimView, id: PaneId, m: Blend)
    requires
        t.panes.contains_key(id),
        moved_rect(t, a, id, m).x + t.border_w <= u32::MAX,
        moved_rect(t, a, id, m).y + t.border_w <= u32::MAX,
        moved_rect(t, a, id, m).w >= 2 * t.border_w,
        moved_rect(t, a, id, m).h >= 2 * t.border_w,
    ensures
        ({
            let r = moved_rect(t, a, id, m);
            let b = if t.panes[id].fullscreen {
                0
            } else {
                t.border_w as int
            };
            &&& window_rect(t, a, id, m) matches Some(w) && {
                &&& w.x - r.x == b && w.y - r.y == b
                &&& (r.x + r.w) - (w.x + w.w) == b
                &&& (r.y + r.h) - (w.y + w.h) == b
            }
        }),
{
}

proof fn lemma_first_of_app(
    panes: Map<PaneId, PaneView>,
    ids: Seq<PaneId>,
    app_id: Seq<char>,
    i: int,
)
    requires
        0 <= i <= ids.len(),
        forall|k: int|
            0 <= k < i ==> !(panes.contains_key(#[trigger] ids[k]) && panes[ids[k]].content.app()
                == app_id),
        i < ids.len() ==> panes.contains_key(ids[i]) && panes[ids[i]].content.app() == app_id,
    ensures
        first_of_app(panes, ids, app_id) == (if i < ids.len() {
            Some(ids[i])
        } else {
            None
        }),
    decreases ids.len(),
{
    if ids.len() > 0 && i > 0 {
        assert(!(panes.contains_key(ids[0]) && panes[ids[0]].content.app() == app_id));
        assert forall|k: int| 0 <= k < i - 1 implies !(panes.contains_key(
            #[trigger] ids.skip(1)[k],
        ) && panes[ids.skip(1)[k]].content.app() == app_id) by {
            assert(ids.skip(1)[k] == ids[k + 1]);
        }
        lemma_first_of_app(panes, ids.skip(1), app_id, i - 1);
    }
}

/// A window is in the pane that it was given; one that was given none is in the first pane
/// of its program on the workspace that is shown.
pub proof fn law_panes_of_windows(
    t: TwmView,
    s: SurfacesView,
    surface: SurfaceId,
    app_id: Seq<char>,
    i: int,
)
    requires
        0 <= i <= t.ws().panes.len(),
        forall|k: int|
            0 <= k < i ==> !(t.panes.contains_key(#[trigger] t.ws().panes[k])
                && t.panes[t.ws().panes[k]].content.app() == app_id),
        i < t.ws().panes.len() ==> t.panes.contains_key(t.ws().panes[i])
            && t.panes[t.ws().panes[i]].content.app() == app_id,
    ensures
        s.panes.contains_key(surface) ==> pane_of(t, s, surface, app_id) == Some(s.panes[surface]),
        !s.panes.contains_key(surface) && app_id.len() == 0 ==> pane_of(t, s, surface, app_id)
            is None,
        !s.panes.contains_key(surface) && app_id.len() > 0 ==> pane_of(t, s, surface, app_id) == (
        if i < t.ws().panes.len() {
            Some(t.ws().panes[i])
        } else {
            None
        }),
{
    lemma_first_of_app(t.panes, t.ws().panes, app_id, i);
}

/// The contents of a window start at the inner corner of its pane, moved aside with its
/// workspace.
pub proof fn law_contents_at_the_corner(windows: Seq<Placed>, slide: i32, i: int)
    requires
        0 <= i < windows.len() <= usize::MAX,
    ensures
        window_elements(windows, slide).len() == windows.len(),
        window_elements(windows, slide)[i] matches Element::Window { index, x, y } && index == i && x
            + windows[i].geometry_x == windows[i].inner.x + slide && y + windows[i].geometry_y
            == windows[i].inner.y,
{
}

/// A frame is on its way just where the screen took it; clients are then told to draw again.
/// What is drawn on top is drawn only where there is something to draw.
pub proof fn law_steps_of_frames(event: RenderEvent)
    ensures
        ({
            let s = render_steps(event);
            &&& s.contains(RenderStep::Finish(true)) <==> event == RenderEvent::Queued
            &&& s.contains(RenderStep::SendFrames) <==> event == RenderEvent::Queued
            &&& s.contains(RenderStep::Finish(false)) <==> event == RenderEvent::NoScreen || event
                == RenderEvent::NotDrawn || event == RenderEvent::NotQueued
            &&& s.contains(RenderStep::Queue) <==> event is Drawn
            &&& s.contains(RenderStep::DrawChrome) <==> event == (RenderEvent::Drawn {
                is_empty: false,
            })
        }),
{
    let s = render_steps(event);
    assert(s.len() > 0);
    match event {
        RenderEvent::Queued => {
            assert(s[0] == RenderStep::SendFrames && s[1] == RenderStep::Finish(true));
        },
        RenderEvent::Drawn { is_empty } => {
            if is_empty {
                assert(s[0] == RenderStep::Queue);
            } else {
                assert(s[0] == RenderStep::DrawChrome && s[1] == RenderStep::Queue);
            }
        },
        _ => {
            assert(s[0] == RenderStep::Finish(false));
        },
    }
}

// ── Frames of windows ────────────────────────────────────────────────────────

/// The shadow reaches as far beyond the border as the settings say to both sides, half as
/// far up, and further down. The border and the shadow are those of a window with the focus
/// just where it has it.
pub proof fn law_shadow_reaches(c: ChromeConfig, r: Area, focused: bool, floating: bool)
    ensures
        ({
            let (s, b) = (shadow_quad(c, r), border_quad(c, r));
            &&& b.x - s.x == 4 * c.shadow_offset
            &&& (s.x + s.w) - (b.x + b.w) == 4 * c.shadow_offset
            &&& b.y - s.y == 2 * c.shadow_offset
            &&& (s.y + s.h) - (b.y + b.h) == 8 * c.shadow_offset + 2 * c.border_width
        }),
        shadow_op(c, r, focused) matches ChromeOp::Shadow { quad, radius, blur, focused: f } && f
            == focused && quad == shadow_quad(c, r) && blur == 4 * c.shadow_spread,
        border_op(c, r, focused, floating) matches ChromeOp::Border {
            quad,
            radius,
            thickness,
            focused: f,
        } && f == focused && quad == border_quad(c, r) && thickness == 4 * c.border_width && radius
            - thickness == (if floating {
            4 * c.corner_radius
        } else {
            0
        }),
{
}

// ── Pictures ─────────────────────────────────────────────────────────────────

proof fn lemma_held(len: int, i: int, count: int, width: int, stride: int, n: int)
    requires
        0 <= i <= n <= count,
        width > 0,
        forall|k: int| i <= k < n ==> #[trigger] source_of(k, width, stride) + 3 < len,
    ensures
        pixels_held(len, i, count, width, stride) >= n,
    decreases n - i,
{
    if i < n {
        assert(source_of(i, width, stride) + 3 < len);
        lemma_held(len, i + 1, count, width, stride, n);
    } else {
        lemma_held_from(len, i, count, width, stride);
    }
}

proof fn lemma_held_from(len: int, i: int, count: int, width: int, stride: int)
    requires
        i <= count,
    ensures
        pixels_held(len, i, count, width, stride) >= i,
    decreases count - i,
{
    if i < count && source_of(i, width, stride) + 3 < len {
        lemma_held_from(len, i + 1, count, width, stride);
    }
}

/// The pixel in a row and a column of a picture is that of the buffer there; red and blue
/// have changed places, green and alpha stay.
pub proof fn law_pixels_stay(
    data: Seq<u8>,
    width: int,
    height: int,
    stride: int,
    row: int,
    col: int,
)
    requires
        0 <= row < height,
        0 <= col < width,
        stride >= 4 * width,
        data.len() >= height * stride,
    ensures
        ({
            let p = rgba_of(data, width, height, stride);
            let to = (row * width + col) * 4;
            let from = row * stride + col * 4;
            &&& p.len() == width * height * 4
            &&& p[to] == data[from + 2]
            &&& p[to + 1] == data[from + 1]
            &&& p[to + 2] == data[from]
            &&& p[to + 3] == data[from + 3]
        }),
{
    let n = width * height;
    let i = row * width + col;
    assert(0 <= i < n) by (nonlinear_arith)
        requires
            0 <= row < height,
            0 <= col < width,
            i == row * width + col,
            n == width * height,
    ;
    assert forall|k: int| 0 <= k < n implies #[trigger] source_of(k, width, stride) + 3
        < data.len() by {
        lemma_source_in(k, width, height, stride);
    }
    lemma_held(data.len() as int, 0, n, width, stride, n);
    vstd::arithmetic::div_mod::lemma_fundamental_div_mod_converse(i, width, row, col);
    assert(source_of(i, width, stride) == row * stride + col * 4);
    let p = rgba_of(data, width, height, stride);
    assert((4 * i) / 4 == i && (4 * i + 1) / 4 == i && (4 * i + 2) / 4 == i && (4 * i + 3) / 4 == i);
    assert(p.len() == n * 4);
    assert(p[4 * i] == rgba_byte(data, i, 0, width, stride));
    assert(p[4 * i + 1] == rgba_byte(data, i, 1, width, stride));
    assert(p[4 * i + 2] == rgba_byte(data, i, 2, width, stride));
    assert(p[4 * i + 3] == rgba_byte(data, i, 3, width, stride));
}

proof fn lemma_source_in(k: int, width: int, height: int, stride: int)
    requires
        0 <= k < width * height,
        width > 0,
        stride >= 4 * width,
    ensures
        0 <= source_of(k, width, stride),
        source_of(k, width, stride) + 3 < height * stride,
{
    let r = k / width;
    let c = k % width;
    vstd::arithmetic::div_mod::lemma_fundamental_div_mod(k, width);
    assert(0 <= r < height) by (nonlinear_arith)
        requires
            k == width * r + c,
            0 <= c < width,
            0 <= k < width * height,
    ;
    assert(r * stride + stride <= height * stride) by (nonlinear_arith)
        requires
            r + 1 <= height,
            stride >= 0,
    ;
    assert(r * stride >= 0) by (nonlinear_arith)
        requires
            r >= 0,
            stride >= 0,
    ;
}

// ── Windows of the desktop ───────────────────────────────────────────────────

proof fn lemma_texture(v: Seq<WindowTexture>, i: int, k: int)
    requires
        0 <= i <= k < v.len(),
        forall|j: int| i <= j < k ==> (#[trigger] v[j]).window != v[k].window,
    ensures
        texture_at(v, i, v[k].window) == Some(k),
    decreases k - i,
{
    if i < k {
        assert(v[i].window != v[k].window);
        lemma_texture(v, i + 1, k);
    }
}

/// A window shows its own picture inside its border; the border of the window with the focus
/// has a color of its own. A window that fills the screen has no border.
pub proof fn law_window_shows_its_picture(
    d: DeskView,
    t: Seq<WindowTexture>,
    s: SpaceView,
    w: int,
    k: int,
)
    requires
        0 <= w < d.windows.len(),
        forall|i: int| 0 <= i < w ==> (#[trigger] d.windows[i]).id != d.windows[w].id,
        0 <= k < t.len(),
        t[k].window == d.windows[w].id,
        forall|i: int| 0 <= i < k ==> (#[trigger] t[i]).window != t[k].window,
        !s.monocle || s.focused == Some(d.windows[w].id),
        0 <= d.border < 0x8000_0000,
        d.windows[w].rect.w > 2 * d.border,
        d.windows[w].rect.h > 2 * d.border,
    ensures
        ({
            let v = d.windows[w];
            let ops = window_ops(d, t, s, v.id);
            let framed = d.border > 0 && !v.fullscreen;
            &&& ops.len() == (if framed {
                2nat
            } else {
                1nat
            })
            &&& framed ==> (ops[0] matches FrameOp::Fill { rect, paint } && {
                &&& rect.x == v.rect.x && rect.y == v.rect.y && rect.w == v.rect.w && rect.h
                    == v.rect.h
                &&& paint == (if s.focused == Some(v.id) {
                    Paint::ActiveBorder
                } else {
                    Paint::InactiveBorder
                })
            })
            &&& ops.last() matches FrameOp::Picture { tex_id, rect } && {
                &&& tex_id == t[k].tex_id
                &&& rect.x - v.rect.x == d.border && rect.y - v.rect.y == d.border
                &&& (v.rect.x + v.rect.w) - (rect.x + rect.w) == d.border
                &&& (v.rect.y + v.rect.h) - (rect.y + rect.h) == d.border
            }
        }),
{
    lemma_window_in(d.windows, w);
    lemma_texture(t, 0, k);
    assert(d.border as i32 == d.border);
}

/// Where one window at a time is shown, it is that with the focus.
pub proof fn law_one_window_at_a_time(
    d: DeskView,
    t: Seq<WindowTexture>,
    s: SpaceView,
    id: WindowId,
)
    requires
        s.monocle,
        s.focused != Some(id),
    ensures
        window_ops(d, t, s, id).len() == 0,
{
}

/// The bar is as wide as the screen, and at its lower or its upper end.
pub proof fn law_bar_is_at_an_end(f: FrameInfo)
    ensures
        bar_area(f).x == 0,
        bar_area(f).w == f.width,
        bar_area(f).h == f.bar_h,
        f.bar_bottom ==> bar_area(f).y + bar_area(f).h == f.height,
        !f.bar_bottom ==> bar_area(f).y == 0,
{
}

/// The marks of the workspaces stand in their order in the bar, in cells of equal width that
/// do not overlap. The mark of the workspace that is shown, and those of workspaces with
/// windows, have colors of their own.
pub proof fn law_marks_stand_in_order(d: DeskView, shown: int, bar: Place, n: int, i: int)
    requires
        0 <= i < n <= d.spaces.len() <= 0x1_0000_0000,
        bar.h > 8,
        bar.h <= 0x8000_0000,
        0 <= bar.x <= 0x8000_0000,
        0 <= bar.y <= 0x8000_0000,
    ensures
        marks_ops(d, shown, bar, n).len() == n,
        marks_ops(d, shown, bar, n)[i] matches FrameOp::Fill { rect, paint } && {
            &&& rect.x == bar.x + 24 * i + 4 && rect.w == 20
            &&& rect.y - bar.y == 4 && (bar.y + bar.h) - (rect.y + rect.h) == 4
            &&& paint == (if i == shown {
                Paint::ShownSpace
            } else if d.spaces[i].windows.len() > 0 {
                Paint::UsedSpace
            } else {
                Paint::EmptySpace
            })
        },
    decreases n,
{
    lemma_marks_len(d, shown, bar, n - 1);
    if i < n - 1 {
        law_marks_stand_in_order(d, shown, bar, n - 1, i);
    }
}

proof fn lemma_marks_len(d: DeskView, shown: int, bar: Place, n: int)
    requires
        0 <= n <= d.spaces.len(),
        bar.h > 8,
    ensures
        marks_ops(d, shown, bar, n).len() == n,
    decreases n,
{
    if n > 0 {
        lemma_marks_len(d, shown, bar, n - 1);
        assert((bar.h - 8) as i128 == bar.h - 8);
    }
}

/// The pointer is drawn at its place: a filled rectangle inside of its edge.
pub proof fn law_pointer_is_drawn(x: i32, y: i32)
    ensures
        ({
            let ops = cursor_ops(x as int, y as int);
            &&& ops.len() == 3
            &&& ops[0] matches FrameOp::Fill { rect: a, paint: p } && p == Paint::CursorEdge && a.x
                == x && a.y == y && (ops[1] matches FrameOp::Fill { rect: b, paint: q } && q
                == Paint::CursorFill && b.x - a.x == 1 && b.y - a.y == 1 && (a.x + a.w) - (b.x
                + b.w) == 1 && (a.y + a.h) - (b.y + b.h) == 1)
        }),
{
}

// ── The status bar ───────────────────────────────────────────────────────────

/// The mark of a workspace holds its number, counted from one, and is wide enough for it and
/// a margin on each side. The next one starts two pixels behind it. The mark of the
/// workspace that is shown has colors of its own, and so have those with windows, which have
/// a line in the middle below.
pub proof fn law_marks_of_the_bar(
    cfg: BarConfig,
    a: AtlasView,
    s: SpaceView,
    i: int,
    shown: int,
    x: int,
)
    requires
        0 <= i,
    ensures
        ({
            let (ops, next) = pill(cfg, a, s, i, shown, x);
            let label = decimal((i + 1) as nat);
            let tw = width_of(a, label, cfg.font_size);
            let occupied = s.windows.len() > 0;
            &&& ops.len() == (if i != shown && occupied {
                3nat
            } else {
                2nat
            })
            &&& ops[0] matches OpView::Fill { x: gx, y, w, h, shade } && {
                &&& gx == x && y == 2 && y + h == cfg.height - 2
                &&& next == x + w + 8
                &&& w >= tw + 4 * cfg.pad_x
                &&& w >= 2 * cfg.tag_min_w
                &&& w == tw + 4 * cfg.pad_x || w == 2 * cfg.tag_min_w
                &&& shade == (if i == shown {
                    Shade::Mauve
                } else if occupied {
                    Shade::Surface0
                } else {
                    Shade::Clear
                })
                &&& i != shown && occupied ==> (ops[2] matches OpView::Fill {
                    x: lx,
                    w: lw,
                    shade: ls,
                    ..
                } && ls == Shade::Lavender && lw == 16 && 0 <= ((x + w) - (lx + lw)) - (lx - x) <= 1)
            }
            &&& ops[1] matches OpView::Text { x: tx, text, shade } && {
                &&& text == label && tx - x == 2 * cfg.pad_x
                &&& shade == (if i == shown {
                    Shade::Base
                } else if occupied {
                    Shade::Text
                } else {
                    Shade::Overlay0
                })
            }
        }),
{
}

/// The marks stand one behind the other, in the order of the workspaces.
pub proof fn law_marks_follow_each_other(
    cfg: BarConfig,
    a: AtlasView,
    d: DeskView,
    n: int,
    shown: int,
    x: int,
)
    requires
        0 < n <= d.spaces.len(),
    ensures
        ({
            let (ops, end) = pills(cfg, a, d, n, shown, x);
            let (before, at) = pills(cfg, a, d, n - 1, shown, x);
            &&& ops.take(before.len() as int) == before
            &&& ops[before.len() as int] matches OpView::Fill { x: gx, w, .. } && gx == at && end
                == gx + w + 8
            &&& ops[before.len() as int + 1] matches OpView::Text { text, .. } && text == decimal(
                n as nat,
            )
        }),
        pills(cfg, a, d, 0, shown, x).1 == x,
{
    let (ops, end) = pills(cfg, a, d, n, shown, x);
    let (before, at) = pills(cfg, a, d, n - 1, shown, x);
    assert(ops.take(before.len() as int) =~= before);
}

/// A reading ends where it is told to, its label stands right before it, and a line before
/// the label; the next reading ends before the line.
pub proof fn law_readings_end_there(
    cfg: BarConfig,
    a: AtlasView,
    x: int,
    t: Seq<char>,
    shade: Shade,
    label: Seq<char>,
)
    ensures
        ({
            let (ops, next) = reading(cfg, a, x, t, shade, label);
            &&& ops.len() == 3
            &&& ops[0] matches OpView::Text { x: tx, text, shade: s } && text == t && s == shade
                && tx + width_of(a, t, cfg.font_size) == x && (ops[1] matches OpView::Text {
                x: lx,
                text: l,
                ..
            } && l == label && lx + width_of(a, label, cfg.font_size) == tx && (
            ops[2] matches OpView::Fill { x: sx, .. } && lx - sx == 2 * cfg.pad_x && sx - next == 2
                * cfg.pad_x))
        }),
{
}

/// The time ends at the margin of the bar. The memory is told where it is known, and the
/// load; each behind a line.
pub proof fn law_time_is_last(
    cfg: BarConfig,
    a: AtlasView,
    time: Seq<char>,
    used: u64,
    total: u64,
    cpu: Seq<char>,
    right: int,
)
    ensures
        ({
            let (ops, end) = readings_ops(cfg, a, time, used, total, cpu, right);
            &&& ops.len() == (if total > 0 {
                8nat
            } else {
                5nat
            })
            &&& ops[0] matches OpView::Text { x, text, .. } && text == time && x + width_of(
                a,
                time,
                cfg.font_size,
            ) == right
            &&& ops[ops.len() - 3] matches OpView::Text { text, shade, .. } && text == cpu && shade
                == Shade::Cpu
            &&& ops[ops.len() - 2] matches OpView::Text { text, .. } && text == "CPU "@
            &&& total > 0 ==> (ops[2] matches OpView::Text { text, shade, .. } && text == decimal(
                used as nat,
            ) + "M/"@ + decimal(total as nat) + "M"@ && shade == (Shade::Memory {
                used_mb: used,
                total_mb: total,
            }))
            &&& total > 0 ==> (ops[3] matches OpView::Text { text, .. } && text == "MEM "@)
        }),
{
}

/// A title that fits stands in the middle of what is left for it, to the quarter of a pixel.
pub proof fn law_title_is_in_the_middle(
    cfg: BarConfig,
    a: AtlasView,
    title: Seq<char>,
    left: int,
    right: int,
)
    requires
        title.len() > 0,
        left + width_of(a, title, cfg.font_size) <= right,
    ensures
        ({
            let ops = title_ops(cfg, a, title, left, right);
            let w = width_of(a, title, cfg.font_size);
            &&& ops.len() == 1
            &&& left < right ==> (ops[0] matches OpView::Text { x, text, .. } && text == title && 0
                <= (right - (x + w)) - (x - left) <= 1)
        }),
        title_ops(cfg, a, Seq::empty(), left, right).len() == 0,
{
}

/// The bar: its ground first and its lower line last, across the screen; in between the marks
/// from the left, and the readings up to the margin on the right.
pub proof fn law_bar_is_drawn(
    cfg: BarConfig,
    a: AtlasView,
    d: DeskView,
    shown: int,
    out_w: u32,
    time: Seq<char>,
    used: u64,
    total: u64,
    cpu: Seq<char>,
)
    ensures
        ({
            let ops = bar_ops(cfg, a, d, shown, out_w, time, used, total, cpu);
            let marks = pills(cfg, a, d, d.spaces.len() as int, shown, cfg.pad_x as int).0;
            let readings = readings_ops(
                cfg,
                a,
                time,
                used,
                total,
                cpu,
                4 * out_w - cfg.pad_x,
            ).0;
            let m = marks.len() as int;
            &&& ops.len() >= m + readings.len() + 3
            &&& ops[0] == (OpView::Fill {
                x: 0,
                y: 0,
                w: 4 * out_w,
                h: cfg.height as int,
                shade: Shade::Mantle,
            })
            &&& ops.last() == (OpView::Fill {
                x: 0,
                y: cfg.height - 1,
                w: 4 * out_w,
                h: 1,
                shade: Shade::Surface0,
            })
            &&& ops.subrange(1, m + 1) == marks
            &&& ops.subrange(m + 2, m + 2 + readings.len()) == readings
        }),
{
    let ops = bar_ops(cfg, a, d, shown, out_w, time, used, total, cpu);
    let marks = pills(cfg, a, d, d.spaces.len() as int, shown, cfg.pad_x as int).0;
    let readings = readings_ops(cfg, a, time, used, total, cpu, 4 * out_w - cfg.pad_x).0;
    let m = marks.len() as int;
    assert(ops.subrange(1, m + 1) =~= marks);
    assert(ops.subrange(m + 2, m + 2 + readings.len()) =~= readings);
}

// ── Text ─────────────────────────────────────────────────────────────────────

/// Text goes on from left to right: what is behind a text stands where the text ends.
pub proof fn law_texts_follow_each_other(
    a: AtlasView,
    s: Seq<char>,
    t: Seq<char>,
    size: u32,
    space: u32,
    x: int,
    base: int,
)
    ensures
        steps_of(a, s + t, size, space) == steps_of(a, s, size, space) + steps_of(a, t, size, space),
        glyphs_of(a, s + t, size, space, x, base) == glyphs_of(a, s, size, space, x, base)
            + glyphs_of(a, t, size, space, x + steps_of(a, s, size, space), base),
        width_of(a, s + t, size) == width_of(a, s, size) + width_of(a, t, size),
        pixels_of(a, s + t, size) == pixels_of(a, s, size) + pixels_of(a, t, size),
    decreases t.len(),
{
    if t.len() == 0 {
        assert(s + t =~= s);
        assert(glyphs_of(a, s, size, space, x, base) + Seq::<Glyph>::empty() =~= glyphs_of(
            a,
            s,
            size,
            space,
            x,
            base,
        ));
    } else {
        let u = t.drop_last();
        assert((s + t).drop_last() =~= s + u);
        assert((s + t).last() == t.last());
        law_texts_follow_each_other(a, s, u, size, space, x, base);
        let at = x + steps_of(a, s, size, space);
        assert(glyphs_of(a, s + t, size, space, x, base) =~= glyphs_of(a, s, size, space, x, base)
            + glyphs_of(a, t, size, space, at, base));
    }
}

/// A character that was drawn stands at its place: as far to the right as it says from where
/// the text has come to, and as far above the base line. It takes the room that it says.
pub proof fn law_characters_stand_there(
    a: AtlasView,
    ch: char,
    size: u32,
    space: u32,
    x: int,
    base: int,
    g: GlyphInfo,
)
    requires
        cached(a.cache, size, ch) == Some(g),
        ch != ' ',
        g.px_w > 0,
        g.px_h > 0,
        -0x1_0000_0000_0000 <= x <= 0x1_0000_0000_0000,
        -0x1_0000_0000 <= base <= 0x1_0000_0000,
    ensures
        ({
            let v = glyphs_of(a, seq![ch], size, space, x, base);
            &&& v.len() == 1
            &&& v[0].info == g
            &&& 4 * v[0].x <= x + 4 * g.bearing_x < 4 * v[0].x + 4
            &&& v[0].y + g.bearing_y == base
        }),
        steps_of(a, seq![ch], size, space) == 4 * g.advance,
        width_of(a, seq![ch], size) == 4 * g.advance,
        pixels_of(a, seq![ch], size) == g.advance,
{
    let s = seq![ch];
    assert(s.drop_last() =~= Seq::<char>::empty());
    reveal_with_fuel(glyphs_of, 2);
    reveal_with_fuel(steps_of, 2);
    reveal_with_fuel(width_of, 2);
    reveal_with_fuel(pixels_of, 2);
}

/// Capitals, seven tenths as high as the font, stand in the middle of the bar, to the pixel.
pub proof fn law_capitals_in_the_middle(cfg: BarConfig)
    ensures
        ({
            let below = 10 * (cfg.height - baseline(cfg));
            let above = 10 * baseline(cfg) - 7 * cfg.font_size;
            0 <= below - above < 20
        }),
{
}

// ── Frames ───────────────────────────────────────────────────────────────────

/// A frame shows the windows first, then the bar on top of them, then the marks on the bar.
pub proof fn law_bar_is_on_top(
    d: DeskView,
    t: Seq<WindowTexture>,
    shown: int,
    f: FrameInfo,
)
    requires
        0 <= shown < d.spaces.len(),
        f.width > 0,
        f.bar_h > 0,
    ensures
        ({
            let s = d.spaces[shown];
            let ops = workspace_ops(d, t, shown, f);
            let w = windows_ops(d, t, s, s.windows.len() as int);
            let m = marks_ops(d, shown, bar_area(f), d.spaces.len() as int);
            &&& ops.len() == w.len() + 1 + m.len()
            &&& ops.take(w.len() as int) == w
            &&& ops[w.len() as int] == (FrameOp::Fill { rect: bar_area(f), paint: Paint::Bar })
            &&& ops.skip(w.len() as int + 1) == m
        }),
{
    let s = d.spaces[shown];
    let ops = workspace_ops(d, t, shown, f);
    let w = windows_ops(d, t, s, s.windows.len() as int);
    let m = marks_ops(d, shown, bar_area(f), d.spaces.len() as int);
    assert(ops.take(w.len() as int) =~= w);
    assert(ops.skip(w.len() as int + 1) =~= m);
}

/// The windows of a workspace are drawn in their order, so that later ones are on top.
pub proof fn law_later_windows_are_on_top(
    d: DeskView,
    t: Seq<WindowTexture>,
    s: SpaceView,
    n: int,
)
    requires
        0 < n <= s.windows.len(),
    ensures
        windows_ops(d, t, s, n) == windows_ops(d, t, s, n - 1) + window_ops(
            d,
            t,
            s,
            s.windows[n - 1],
        ),
        windows_ops(d, t, s, 0).len() == 0,
{
}

/// A buffer in memory ends behind its last row; its rows are as many pixels wide as their
/// bytes hold.
pub proof fn law_uploads_from_memory(offset: i32, width: i32, height: i32, stride: i32)
    requires
        -0x1_0000_0000 < stride * height < 0x1_0000_0000,
        stride >= 0,
    ensures
        upload_plan(RawBuffer::Shm { offset, width, height, stride }) matches UploadPlan::Memory {
            mapped,
            start,
            row_pixels,
        } && start == offset && mapped == offset + stride * height && 4 * row_pixels <= stride
            && stride < 4 * row_pixels + 4,
{
    let bytes = stride * height;
    assert((bytes + offset) as i64 == bytes + offset);
    assert((stride as int / 4) as i32 == stride as int / 4);
}

/// The halves of a modifier make it up, and there are as many planes as are described in full.
pub proof fn law_uploads_from_the_card(buf: RawBuffer)
    requires
        buf matches RawBuffer::Dmabuf { fds, offsets, strides, modifier } && fds@.len() <= usize::MAX
            && offsets@.len() <= usize::MAX && strides@.len() <= usize::MAX,
    ensures
        buf matches RawBuffer::Dmabuf { fds, offsets, strides, modifier } && (upload_plan(
            buf,
        ) matches UploadPlan::Planes { count, modifier_hi, modifier_lo } && modifier_hi
            * 0x1_0000_0000 + modifier_lo == modifier && count <= fds@.len() && count
            <= offsets@.len() && count <= strides@.len() && (count == fds@.len() || count
            == offsets@.len() || count == strides@.len())),
{
}

} // verus!
