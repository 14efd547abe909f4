//! What a screen shows, and the textures that windows are drawn from.

use vstd::prelude::*;

use crate::desk::windows::{Area, Desk, DeskView, SpaceView, WindowId};

verus! {

// ── Pixels ───────────────────────────────────────────────────────────────────

/// Where pixel `i` of a picture stands in its buffer.
pub open spec fn source_of(i: int, width: int, stride: int) -> int {
    i / width * stride + i % width * 4
}

/// The first pixel from `i` on that the buffer does not hold.
pub open spec fn pixels_held(len: int, i: int, count: int, width: int, stride: int) -> int
    decreases count - i,
{
    if i >= count || source_of(i, width, stride) + 3 >= len {
        i
    } else {
        pixels_held(len, i + 1, count, width, stride)
    }
}

/// Byte `k` of pixel `i`, with red first.
pub open spec fn rgba_byte(data: Seq<u8>, i: int, k: int, width: int, stride: int) -> u8 {
    let at = source_of(i, width, stride);
    if k == 0 {
        data[at + 2]
    } else if k == 1 {
        data[at + 1]
    } else if k == 2 {
        data[at]
    } else {
        data[at + 3]
    }
}

/// The picture in a buffer that has blue first, with red first. It is
/// transparent from the first pixel on that the buffer does not hold.
pub open spec fn rgba_of(data: Seq<u8>, width: int, height: int, stride: int) -> Seq<u8> {
    let held = pixels_held(data.len() as int, 0, width * height, width, stride);
    Seq::new(
        (width * height * 4) as nat,
        |j: int|
            if j / 4 < held {
                rgba_byte(data, j / 4, j % 4, width, stride)
            } else {
                0
            },
    )
}

/// The picture in a buffer that has blue first, with red first.
pub fn to_rgba(data: &Vec<u8>, width: usize, height: usize, stride: usize) -> (r: Vec<u8>)
    requires
        width * height * 4 <= usize::MAX,
    ensures
        r@ == rgba_of(data@, width as int, height as int, stride as int),
{
    assert(0 <= width * height <= width * height * 4);
    let count: usize = width * height;
    let ghost held = pixels_held(
        data@.len() as int,
        0,
        count as int,
        width as int,
        stride as int,
    );
    let mut r: Vec<u8> = Vec::new();
    let mut i: usize = 0;
    while i < count
        invariant_except_break
            held == pixels_held(
                data@.len() as int,
                i as int,
                count as int,
                width as int,
                stride as int,
            ),
            r@.len() == i * 4,
        invariant
            i <= count,
            count == width * height,
            count * 4 <= usize::MAX,
            r@.len() == i * 4,
            forall|j: int|
                0 <= j < r@.len() ==> #[trigger] r@[j] == rgba_byte(
                    data@,
                    j / 4,
                    j % 4,
                    width as int,
                    stride as int,
                ),
        ensures
            i == held,
        decreases count - i,
    {
        proof {
            assert(width > 0) by (nonlinear_arith)
                requires
                    i < width * height,
                    0 <= i,
                    0 <= width,
            ;
            lemma_source(i as int, width as int, height as int, stride as int);
        }
        let (row, col): (usize, usize) = (i / width, i % width);
        assert(row as u128 * stride as u128 <= 0x4000_0000_0000_0000_0000_0000_0000_0000)
            by (nonlinear_arith)
            requires
                row as int <= 0x4000_0000_0000_0000,
                stride as int <= 0xFFFF_FFFF_FFFF_FFFF,
                0 <= row,
                0 <= stride,
        ;
        let from: u128 = row as u128 * stride as u128 + col as u128 * 4;
        if from + 3 >= data.len() as u128 {
            break ;
        }
        let at: usize = from as usize;
        r.push(data[at + 2]);
        r.push(data[at + 1]);
        r.push(data[at]);
        r.push(data[at + 3]);
        i += 1;
    }
    assert(i == held);
    while i < count
        invariant
            held <= i <= count,
            count == width * height,
            r@.len() == i * 4,
            forall|j: int|
                0 <= j < r@.len() ==> #[trigger] r@[j] == if j / 4 < held {
                    rgba_byte(data@, j / 4, j % 4, width as int, stride as int)
                } else {
                    0
                },
        decreases count - i,
    {
        r.push(0);
        r.push(0);
        r.push(0);
        r.push(0);
        i += 1;
    }
    assert(r@ =~= rgba_of(data@, width as int, height as int, stride as int));
    r
}

proof fn lemma_source(i: int, width: int, height: int, stride: int)
    requires
        0 <= i < width * height,
        width > 0,
        stride >= 0,
    ensures
        0 <= i / width <= i,
        0 <= i / width * stride,
        0 <= i % width < width,
        i % width <= i,
{
    assert(0 <= i / width <= i) by (nonlinear_arith)
        requires
            0 <= i,
            width > 0,
    ;
    assert(0 <= i % width < width && i % width <= i) by (nonlinear_arith)
        requires
            0 <= i,
            width > 0,
    ;
    let row = i / width;
    assert(0 <= row * stride) by (nonlinear_arith)
        requires
            0 <= row,
            stride >= 0,
    ;
}

// ── Textures ─────────────────────────────────────────────────────────────────

/// The texture of a window.
#[derive(Debug, Clone, Copy, PartialEq, Eq, Structural)]
pub struct WindowTexture {
    pub window: WindowId,
    pub tex_id: u32,
    pub width: i32,
    pub height: i32,
}

/// How a picture gets into a texture.
#[derive(Debug, Clone, Copy, PartialEq, Eq, Structural)]
pub enum Upload {
    /// There is no texture for the window yet.
    NeedsTexture,
    /// The texture gets a new size.
    Whole { tex_id: u32 },
    /// The texture keeps its size.
    Part { tex_id: u32 },
}

/// The textures of the windows, and the buffers that their clients get back
/// after the next frame.
#[derive(Debug)]
pub struct RenderState {
    pub textures: Vec<WindowTexture>,
    pub pending_release: Vec<u32>,
}

/// The index of the texture of a window.
pub open spec fn texture_at(v: Seq<WindowTexture>, i: int, id: WindowId) -> Option<int>
    decreases v.len() - i,
{
    if i >= v.len() {
        None
    } else if v[i].window == id {
        Some(i)
    } else {
        texture_at(v, i + 1, id)
    }
}

/// The textures but that of a window.
pub open spec fn without_window(v: Seq<WindowTexture>, id: WindowId) -> Seq<WindowTexture>
    decreases v.len(),
{
    if v.len() == 0 {
        Seq::empty()
    } else if v.last().window == id {
        without_window(v.drop_last(), id)
    } else {
        without_window(v.drop_last(), id).push(v.last())
    }
}

impl RenderState {
    pub fn new() -> (r: Self)
        ensures
            r.textures@.len() == 0,
            r.pending_release@.len() == 0,
    {
        RenderState { textures: Vec::new(), pending_release: Vec::new() }
    }

    /// The index of the texture of a window.
    pub fn texture_of(&self, id: WindowId) -> (r: Option<usize>)
        ensures
            match r {
                Some(i) => i < self.textures@.len() && texture_at(self.textures@, 0, id) == Some(
                    i as int,
                ),
                None => texture_at(self.textures@, 0, id) is None,
            },
    {
        let mut i: usize = 0;
        while i < self.textures.len()
            invariant
                i <= self.textures@.len(),
                texture_at(self.textures@, i as int, id) == texture_at(self.textures@, 0, id),
            decreases self.textures@.len() - i,
        {
            if self.textures[i].window == id {
                return Some(i);
            }
            i += 1;
        }
        None
    }

    /// A texture without a size is there for a window.
    pub fn add_texture(&mut self, window: WindowId, tex_id: u32)
        requires
            texture_at(old(self).textures@, 0, window) is None,
        ensures
            final(self).textures@ == old(self).textures@.push(
                WindowTexture { window, tex_id, width: 0, height: 0 },
            ),
            final(self).pending_release@ == old(self).pending_release@,
    {
        self.textures.push(WindowTexture { window, tex_id, width: 0, height: 0 });
    }

    /// How a picture of this size gets into the texture of a window.
    pub fn upload_shm_buffer(&mut self, id: WindowId, width: i32, height: i32) -> (r: Upload)
        ensures
            final(self).pending_release@ == old(self).pending_release@,
            match texture_at(old(self).textures@, 0, id) {
                Some(i) => {
                    let t = old(self).textures@[i];
                    &&& final(self).textures@ == old(self).textures@.update(
                        i,
                        WindowTexture { width, height, ..t },
                    )
                    &&& r == (if t.width != width || t.height != height {
                        Upload::Whole { tex_id: t.tex_id }
                    } else {
                        Upload::Part { tex_id: t.tex_id }
                    })
                },
                None => r == Upload::NeedsTexture && final(self).textures@ == old(self).textures@,
            },
    {
        match self.texture_of(id) {
            Some(i) => {
                proof {
                    lemma_texture_at(self.textures@, 0, id);
                }
                let t = self.textures[i];
                if t.width != width || t.height != height {
                    self.textures[i].width = width;
                    self.textures[i].height = height;
                    Upload::Whole { tex_id: t.tex_id }
                } else {
                    assert(self.textures@.update(i as int, t) =~= self.textures@);
                    Upload::Part { tex_id: t.tex_id }
                }
            },
            None => Upload::NeedsTexture,
        }
    }

    /// A client gets a buffer back after the next frame.
    pub fn queue_buffer_release(&mut self, buffer: u32)
        ensures
            final(self).pending_release@ == old(self).pending_release@.push(buffer),
            final(self).textures@ == old(self).textures@,
    {
        self.pending_release.push(buffer);
    }

    /// The buffers that clients get back now, the first one first.
    pub fn release_old_buffers(&mut self) -> (r: Vec<u32>)
        ensures
            r@ == old(self).pending_release@,
            final(self).pending_release@.len() == 0,
            final(self).textures@ == old(self).textures@,
    {
        let mut r: Vec<u32> = Vec::new();
        r.append(&mut self.pending_release);
        assert(r@ =~= old(self).pending_release@);
        r
    }

    /// A window is gone, and its texture with it.
    pub fn remove_window(&mut self, id: WindowId)
        ensures
            final(self).textures@ == without_window(old(self).textures@, id),
            final(self).pending_release@ == old(self).pending_release@,
    {
        let mut kept: Vec<WindowTexture> = Vec::new();
        let ghost all = self.textures@;
        let mut i: usize = 0;
        assert(all.take(0) =~= Seq::empty());
        while i < self.textures.len()
            invariant
                i <= self.textures@.len(),
                all == self.textures@,
                kept@ == without_window(all.take(i as int), id),
                self.pending_release@ == old(self).pending_release@,
            decreases self.textures@.len() - i,
        {
            let t = self.textures[i];
            if t.window != id {
                kept.push(t);
            }
            i += 1;
            assert(all.take(i as int).drop_last() =~= all.take(i - 1));
            assert(all.take(i as int).last() == t);
        }
        assert(all.take(i as int) =~= all);
        self.textures = kept;
    }
}

proof fn lemma_texture_at(v: Seq<WindowTexture>, i: int, id: WindowId)
    requires
        0 <= i,
    ensures
        texture_at(v, i, id) matches Some(k) ==> i <= k < v.len() && v[k].window == id,
    decreases v.len() - i,
{
    if i < v.len() && v[i].window != id {
        lemma_texture_at(v, i + 1, id);
    }
}

// ── Frames ───────────────────────────────────────────────────────────────────

/// A color of the frame.
#[derive(Debug, Clone, Copy, PartialEq, Eq, Structural)]
pub enum Paint {
    ActiveBorder,
    InactiveBorder,
    /// What stands for a window without a picture.
    NoPicture,
    Bar,
    /// The mark of the workspace that is shown, of one with windows, and of one
    /// without.
    ShownSpace,
    UsedSpace,
    EmptySpace,
    CursorEdge,
    CursorFill,
    CursorTip,
}

/// A rectangle of a frame, which may reach beyond every screen.
#[derive(Debug, Clone, Copy, PartialEq, Eq, Structural)]
pub struct Place {
    pub x: i128,
    pub y: i128,
    pub w: i128,
    pub h: i128,
}

/// A part of the frame.
#[derive(Debug, Clone, Copy, PartialEq, Eq, Structural)]
pub enum FrameOp {
    Fill { rect: Place, paint: Paint },
    Picture { tex_id: u32, rect: Place },
}

/// What a frame depends on besides the windows.
#[derive(Debug, Clone, Copy, PartialEq, Eq, Structural)]
pub struct FrameInfo {
    /// The size of the screen.
    pub width: i32,
    pub height: i32,
    pub bar_h: i32,
    pub bar_bottom: bool,
}

/// Whether there is anything to draw.
pub open spec fn visible(r: Place) -> bool {
    r.w > 0 && r.h > 0
}

pub open spec fn filled(rect: Place, paint: Paint) -> Seq<FrameOp> {
    if visible(rect) {
        seq![FrameOp::Fill { rect, paint }]
    } else {
        Seq::empty()
    }
}

pub open spec fn place_of(r: Area) -> Place {
    inside(r, 0)
}

/// `r` without a border of `n` pixels.
pub open spec fn inside(r: Area, n: int) -> Place {
    Place {
        x: (r.x + n) as i128,
        y: (r.y + n) as i128,
        w: (r.w - 2 * n) as i128,
        h: (r.h - 2 * n) as i128,
    }
}

/// The parts of the window `id`.
pub open spec fn window_ops(
    d: DeskView,
    t: Seq<WindowTexture>,
    s: SpaceView,
    id: WindowId,
) -> Seq<FrameOp> {
    if d.window(id) is None || (s.monocle && s.focused != Some(id)) {
        Seq::empty()
    } else {
        let w = d.window(id)->0;
        let border = if d.border > 0 && !w.fullscreen {
            filled(
                place_of(w.rect),
                if s.focused == Some(id) {
                    Paint::ActiveBorder
                } else {
                    Paint::InactiveBorder
                },
            )
        } else {
            Seq::empty()
        };
        let inner = inside(w.rect, d.border as i32 as int);
        let picture = match texture_at(t, 0, id) {
            Some(i) => if visible(inner) {
                seq![FrameOp::Picture { tex_id: t[i].tex_id, rect: inner }]
            } else {
                Seq::empty()
            },
            None => filled(inner, Paint::NoPicture),
        };
        border + picture
    }
}

/// The parts of the first `n` windows of a workspace.
pub open spec fn windows_ops(d: DeskView, t: Seq<WindowTexture>, s: SpaceView, n: int) -> Seq<
    FrameOp,
>
    decreases n,
{
    if n <= 0 {
        Seq::empty()
    } else {
        windows_ops(d, t, s, n - 1) + window_ops(d, t, s, s.windows[n - 1])
    }
}

pub open spec fn bar_area(f: FrameInfo) -> Place {
    Place {
        x: 0,
        y: if f.bar_bottom {
            (f.height - f.bar_h) as i128
        } else {
            0
        },
        w: f.width as i128,
        h: f.bar_h as i128,
    }
}

/// The marks of the first `n` workspaces: cells of 20 pixels, 4 pixels apart.
pub open spec fn marks_ops(d: DeskView, shown: int, bar: Place, n: int) -> Seq<FrameOp>
    decreases n,
{
    if n <= 0 {
        Seq::empty()
    } else {
        let i = n - 1;
        let rect = Place {
            x: (bar.x + i * 24 + 4) as i128,
            y: (bar.y + 4) as i128,
            w: 20,
            h: (bar.h - 8) as i128,
        };
        marks_ops(d, shown, bar, i) + filled(
            rect,
            if i == shown {
                Paint::ShownSpace
            } else if d.spaces[i].windows.len() > 0 {
                Paint::UsedSpace
            } else {
                Paint::EmptySpace
            },
        )
    }
}

/// What the workspace `shown` looks like; nothing where there is none.
pub open spec fn workspace_ops(d: DeskView, t: Seq<WindowTexture>, shown: int, f: FrameInfo) -> Seq<
    FrameOp,
> {
    if shown < d.spaces.len() {
        let s = d.spaces[shown];
        windows_ops(d, t, s, s.windows.len() as int) + filled(bar_area(f), Paint::Bar) + marks_ops(
            d,
            shown,
            bar_area(f),
            d.spaces.len() as int,
        )
    } else {
        Seq::empty()
    }
}

/// The pointer at (`x`, `y`).
pub open spec fn cursor_ops(x: int, y: int) -> Seq<FrameOp> {
    seq![
        FrameOp::Fill {
            rect: Place { x: x as i128, y: y as i128, w: 12, h: 20 },
            paint: Paint::CursorEdge,
        },
        FrameOp::Fill {
            rect: Place { x: (x + 1) as i128, y: (y + 1) as i128, w: 10, h: 18 },
            paint: Paint::CursorFill,
        },
        FrameOp::Fill {
            rect: Place { x: x as i128, y: y as i128, w: 2, h: 2 },
            paint: Paint::CursorTip,
        },
    ]
}

fn to_inside(r: Area, n: i32) -> (p: Place)
    ensures
        p == inside(r, n as int),
{
    Place {
        x: r.x as i128 + n as i128,
        y: r.y as i128 + n as i128,
        w: r.w as i128 - 2 * n as i128,
        h: r.h as i128 - 2 * n as i128,
    }
}

fn fill(ops: &mut Vec<FrameOp>, rect: Place, paint: Paint)
    ensures
        final(ops)@ == old(ops)@ + filled(rect, paint),
{
    if rect.w > 0 && rect.h > 0 {
        ops.push(FrameOp::Fill { rect, paint });
    }
    assert(ops@ =~= old(ops)@ + filled(rect, paint));
}

fn push_window(
    ops: &mut Vec<FrameOp>,
    desk: &Desk,
    state: &RenderState,
    shown: usize,
    id: WindowId,
)
    requires
        shown < desk.spaces@.len(),
    ensures
        final(ops)@ == old(ops)@ + window_ops(
            desk@,
            state.textures@,
            desk@.spaces[shown as int],
            id,
        ),
{
    assert(desk@.spaces[shown as int] == desk.spaces@[shown as int]@);
    let s = &desk.spaces[shown];
    let focused = match s.focused {
        Some(x) => x == id,
        None => false,
    };
    let k: usize = match desk.find(id) {
        Some(k) => k,
        None => {
            assert(ops@ =~= old(ops)@ + Seq::<FrameOp>::empty());
            return ;
        },
    };
    if s.monocle && !focused {
        assert(ops@ =~= old(ops)@ + Seq::<FrameOp>::empty());
        return ;
    }
    let win = &desk.windows[k];
    assert(desk@.windows[k as int].rect == win.rect);
    if desk.border > 0 && !win.fullscreen {
        fill(
            ops,
            to_inside(win.rect, 0),
            if focused {
                Paint::ActiveBorder
            } else {
                Paint::InactiveBorder
            },
        );
    }
    let ghost bordered = ops@;
    let n: i32 = #[verifier::truncate] (desk.border as i32);
    let inner = to_inside(win.rect, n);
    match state.texture_of(id) {
        Some(i) => {
            if inner.w > 0 && inner.h > 0 {
                ops.push(FrameOp::Picture { tex_id: state.textures[i].tex_id, rect: inner });
            }
        },
        None => {
            fill(ops, inner, Paint::NoPicture);
        },
    }
    assert(ops@ =~= old(ops)@ + window_ops(
        desk@,
        state.textures@,
        desk@.spaces[shown as int],
        id,
    ));
}

/// What the workspace `shown` looks like, from back to front.
pub fn render_workspace(desk: &Desk, state: &RenderState, shown: usize, f: FrameInfo) -> (r: Vec<
    FrameOp,
>)
    ensures
        r@ == workspace_ops(desk@, state.textures@, shown as int, f),
{
    let mut ops: Vec<FrameOp> = Vec::new();
    if shown >= desk.spaces.len() {
        assert(ops@ =~= Seq::<FrameOp>::empty());
        return ops;
    }
    let ghost s = desk@.spaces[shown as int];
    assert(s == desk.spaces@[shown as int]@);
    let mut i: usize = 0;
    assert(ops@ =~= windows_ops(desk@, state.textures@, s, 0));
    while i < desk.spaces[shown].windows.len()
        invariant
            shown < desk.spaces@.len(),
            s == desk@.spaces[shown as int],
            s == desk.spaces@[shown as int]@,
            i <= s.windows.len(),
            ops@ == windows_ops(desk@, state.textures@, s, i as int),
        decreases s.windows.len() - i,
    {
        let id: WindowId = desk.spaces[shown].windows[i];
        push_window(&mut ops, desk, state, shown, id);
        i += 1;
    }
    let bar = Place {
        x: 0,
        y: if f.bar_bottom {
            f.height as i128 - f.bar_h as i128
        } else {
            0
        },
        w: f.width as i128,
        h: f.bar_h as i128,
    };
    fill(&mut ops, bar, Paint::Bar);
    let ghost head = ops@;
    let n: usize = desk.spaces.len();
    let mut k: usize = 0;
    assert(head + marks_ops(desk@, shown as int, bar, 0) =~= head);
    while k < n
        invariant
            k <= n,
            n == desk.spaces@.len(),
            bar == bar_area(f),
            ops@ == head + marks_ops(desk@, shown as int, bar, k as int),
        decreases n - k,
    {
        assert(desk@.spaces[k as int] == desk.spaces@[k as int]@);
        assert(desk@.spaces.len() == n);
        let rect = Place {
            x: bar.x + (k as i128) * 24 + 4,
            y: bar.y + 4,
            w: 20,
            h: bar.h - 8,
        };
        let ghost before = marks_ops(desk@, shown as int, bar, k as int);
        let paint = if k == shown {
            Paint::ShownSpace
        } else if desk.spaces[k].windows.len() > 0 {
            Paint::UsedSpace
        } else {
            Paint::EmptySpace
        };
        fill(&mut ops, rect, paint);
        k += 1;
        assert(ops@ =~= head + (before + filled(rect, paint)));
    }
    assert(desk@.spaces.len() == n);
    assert(ops@ =~= workspace_ops(desk@, state.textures@, shown as int, f));
    ops
}

/// The pointer at (`x`, `y`).
pub fn draw_cursor(x: i32, y: i32) -> (r: Vec<FrameOp>)
    ensures
        r@ == cursor_ops(x as int, y as int),
{
    let (x, y) = (x as i128, y as i128);
    let mut r: Vec<FrameOp> = Vec::new();
    r.push(FrameOp::Fill { rect: Place { x, y, w: 12, h: 20 }, paint: Paint::CursorEdge });
    r.push(
        FrameOp::Fill {
            rect: Place { x: x + 1, y: y + 1, w: 10, h: 18 },
            paint: Paint::CursorFill,
        },
    );
    r.push(FrameOp::Fill { rect: Place { x, y, w: 2, h: 2 }, paint: Paint::CursorTip });
    assert(r@ =~= cursor_ops(x as int, y as int));
    r
}

/// The lower edge of a rectangle, counted from the bottom of a screen of the
/// height `vp_h`.
pub fn scissor_y(rect: Area, vp_h: i32) -> (r: i64)
    ensures
        r == vp_h - rect.y - rect.h,
{
    vp_h as i64 - rect.y as i64 - rect.h as i64
}

// ── Pictures of buffers ──────────────────────────────────────────────────────

/// A texture, and the image of the graphics card that it shows, by its number.
#[derive(Debug, Clone, Copy, PartialEq, Eq, Structural)]
pub struct GlTexture {
    pub id: u32,
    pub egl_image: Option<u64>,
}

/// A buffer whose picture goes into a texture.
#[derive(Debug)]
pub enum RawBuffer {
    Shm { offset: i32, width: i32, height: i32, stride: i32 },
    Dmabuf { fds: Vec<i32>, offsets: Vec<u32>, strides: Vec<u32>, modifier: u64 },
}

/// How the picture of a buffer gets into a texture.
#[derive(Debug, Clone, Copy, PartialEq, Eq, Structural)]
pub enum UploadPlan {
    /// From memory: the number of bytes up to its end, where it starts, and the
    /// number of pixels of a row.
    Memory { mapped: i64, start: i32, row_pixels: i32 },
    /// From the graphics card: the number of planes, and the halves of the
    /// modifier.
    Planes { count: usize, modifier_hi: u32, modifier_lo: u32 },
}

pub open spec fn least(a: int, b: int) -> int {
    if a < b {
        a
    } else {
        b
    }
}

pub open spec fn upload_plan(buf: RawBuffer) -> UploadPlan {
    match buf {
        RawBuffer::Shm { offset, width, height, stride } => UploadPlan::Memory {
            mapped: (stride * height + offset) as i64,
            start: offset,
            row_pixels: (stride as int / 4) as i32,
        },
        RawBuffer::Dmabuf { fds, offsets, strides, modifier } => UploadPlan::Planes {
            count: least(least(fds@.len() as int, offsets@.len() as int), strides@.len() as int)
                as usize,
            modifier_hi: (modifier / 0x1_0000_0000) as u32,
            modifier_lo: (modifier % 0x1_0000_0000) as u32,
        },
    }
}

impl GlTexture {
    /// The texture shows no image of the graphics card any more.
    pub fn clear_egl_image(&mut self)
        ensures
            final(self).id == old(self).id,
            final(self).egl_image is None,
    {
        self.egl_image = None;
    }

    /// How the picture of a buffer gets into the texture.
    pub fn upload_buffer(&self, buf: &RawBuffer) -> (r: UploadPlan)
        requires
            buf matches RawBuffer::Shm { stride, .. } ==> stride >= 0,
        ensures
            r == upload_plan(*buf),
    {
        match buf {
            RawBuffer::Shm { offset, width, height, stride } => {
                assert(-0x8000_0000 * 0x8000_0000 <= *stride * *height <= 0x8000_0000
                    * 0x8000_0000) by (nonlinear_arith)
                    requires
                        -0x8000_0000 <= *stride < 0x8000_0000,
                        -0x8000_0000 <= *height < 0x8000_0000,
                ;
                UploadPlan::Memory {
                    mapped: *stride as i64 * *height as i64 + *offset as i64,
                    start: *offset,
                    row_pixels: *stride / 4,
                }
            },
            RawBuffer::Dmabuf { fds, offsets, strides, modifier } => {
                let mut count: usize = fds.len();
                if offsets.len() < count {
                    count = offsets.len();
                }
                if strides.len() < count {
                    count = strides.len();
                }
                UploadPlan::Planes {
                    count,
                    modifier_hi: (*modifier / 0x1_0000_0000) as u32,
                    modifier_lo: (*modifier % 0x1_0000_0000) as u32,
                }
            },
        }
    }

    /// What came of an upload: the image that the texture shows now. A picture
    /// from memory leaves none; an import that failed changes nothing.
    pub fn uploaded(&mut self, plan: UploadPlan, imported: Option<u64>)
        ensures
            final(self).id == old(self).id,
            final(self).egl_image == (match plan {
                UploadPlan::Memory { .. } => None,
                UploadPlan::Planes { .. } => if imported is Some {
                    imported
                } else {
                    old(self).egl_image
                },
            }),
    {
        match plan {
            UploadPlan::Memory { .. } => {
                self.egl_image = None;
            },
            UploadPlan::Planes { .. } => {
                if imported.is_some() {
                    self.egl_image = imported;
                }
            },
        }
    }
}

// ── Laws ─────────────────────────────────────────────────────────────────────

/// A window that is gone has no texture.
pub proof fn law_removed_window_has_no_texture(v: Seq<WindowTexture>, id: WindowId)
    ensures
        texture_at(without_window(v, id), 0, id) is None,
{
    lemma_without(v, id);
    let w = without_window(v, id);
    lemma_texture_at(w, 0, id);
    if texture_at(w, 0, id) is Some {
        let k = texture_at(w, 0, id)->0;
        assert(w[k].window != id);
    }
}

proof fn lemma_without(v: Seq<WindowTexture>, id: WindowId)
    ensures
        forall|k: int|
            0 <= k < without_window(v, id).len() ==> (#[trigger] without_window(v, id)[k]).window
                != id,
    decreases v.len(),
{
    if v.len() > 0 {
        lemma_without(v.drop_last(), id);
        let before = without_window(v.drop_last(), id);
        assert forall|k: int| 0 <= k < without_window(v, id).len() implies (
        #[trigger] without_window(v, id)[k]).window != id by {
            if k < before.len() {
                assert(before[k].window != id);
            }
        }
    }
}

/// Nothing that has no extent is drawn.
pub proof fn law_only_visible_parts(d: DeskView, t: Seq<WindowTexture>, s: SpaceView, n: int, k: int)
    requires
        0 <= k < windows_ops(d, t, s, n).len(),
        n <= s.windows.len(),
    ensures
        match windows_ops(d, t, s, n)[k] {
            FrameOp::Fill { rect, .. } => visible(rect),
            FrameOp::Picture { rect, .. } => visible(rect),
        },
    decreases n,
{
    if n > 0 {
        let before = windows_ops(d, t, s, n - 1);
        if k < before.len() {
            law_only_visible_parts(d, t, s, n - 1, k);
        }
    }
}

} // verus!
