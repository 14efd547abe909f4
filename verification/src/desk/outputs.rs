//! What clients are told of the screens, and how screens are captured.

use vstd::prelude::*;

verus! {

/// A screen.
#[derive(Debug)]
pub struct OutputState {
    /// The number under which clients know it.
    pub wl_id: u32,
    pub width: u32,
    pub height: u32,
    pub name: String,
}

/// What an [`OutputState`] holds.
pub struct OutputView {
    pub wl_id: u32,
    pub width: u32,
    pub height: u32,
    pub name: Seq<char>,
}

impl View for OutputState {
    type V = OutputView;

    open spec fn view(&self) -> OutputView {
        OutputView {
            wl_id: self.wl_id,
            width: self.width,
            height: self.height,
            name: self.name@,
        }
    }
}

pub open spec fn outputs_view(v: Seq<OutputState>) -> Seq<OutputView> {
    Seq::new(v.len(), |i: int| v[i]@)
}

/// The screen with the number `id`.
pub open spec fn output_in(v: Seq<OutputView>, id: u32) -> Option<OutputView>
    decreases v.len(),
{
    if v.len() == 0 {
        None
    } else if v[0].wl_id == id {
        Some(v[0])
    } else {
        output_in(v.skip(1), id)
    }
}

/// The size of a screen, that of a common one where it is not there.
pub open spec fn size_in(v: Seq<OutputView>, id: u32) -> (u32, u32) {
    match output_in(v, id) {
        Some(o) => (o.width, o.height),
        None => (1920, 1080),
    }
}

fn find_output(v: &Vec<OutputState>, id: u32) -> (r: Option<usize>)
    ensures
        match r {
            Some(i) => i < v@.len() && output_in(outputs_view(v@), id) == Some(v@[i as int]@),
            None => output_in(outputs_view(v@), id) is None,
        },
{
    let ghost all = outputs_view(v@);
    let mut i: usize = 0;
    assert(all.skip(0) =~= all);
    while i < v.len()
        invariant
            i <= v@.len(),
            all == outputs_view(v@),
            output_in(all.skip(i as int), id) == output_in(all, id),
        decreases v@.len() - i,
    {
        assert(all.skip(i as int)[0] == v@[i as int]@);
        if v[i].wl_id == id {
            return Some(i);
        }
        i += 1;
        assert(all.skip(i - 1).skip(1) =~= all.skip(i as int));
    }
    assert(all.skip(i as int).len() == 0);
    None
}

/// The size of the screen `id`.
pub fn output_size_of(v: &Vec<OutputState>, id: u32) -> (r: (u32, u32))
    ensures
        r == size_in(outputs_view(v@), id),
{
    match find_output(v, id) {
        Some(i) => (v[i].width, v[i].height),
        None => (1920, 1080),
    }
}

/// The size of the first screen, that of a common one where there is none.
pub fn output_size(v: &Vec<OutputState>) -> (r: (u32, u32))
    ensures
        r == (if v@.len() > 0 {
            (v@[0].width, v@[0].height)
        } else {
            (1920, 1080)
        }),
{
    if v.len() > 0 {
        (v[0].width, v[0].height)
    } else {
        (1920, 1080)
    }
}

// ── Logical screens ──────────────────────────────────────────────────────────

/// A screen as clients lay out their windows on it.
#[derive(Debug)]
pub struct XdgOutputData {
    pub x: i32,
    pub y: i32,
    pub width: i32,
    pub height: i32,
    pub name: String,
}

/// What clients are told of the screen `id`.
pub fn logical_output(v: &Vec<OutputState>, id: u32) -> (r: XdgOutputData)
    ensures
        r.x == 0 && r.y == 0,
        r.width == size_in(outputs_view(v@), id).0 as i32,
        r.height == size_in(outputs_view(v@), id).1 as i32,
        r.name@ == match output_in(outputs_view(v@), id) {
            Some(o) => o.name,
            None => "output-0"@,
        },
{
    match find_output(v, id) {
        Some(i) => {
            XdgOutputData {
                x: 0,
                y: 0,
                width: #[verifier::truncate] (v[i].width as i32),
                height: #[verifier::truncate] (v[i].height as i32),
                name: v[i].name.as_str().to_owned(),
            }
        },
        None => XdgOutputData { x: 0, y: 0, width: 1920, height: 1080, name: "output-0".to_owned() },
    }
}

// ── Captures ─────────────────────────────────────────────────────────────────

/// The buffer that a capture is copied to, four bytes a pixel.
#[derive(Debug, Clone, Copy, PartialEq, Eq, Structural)]
pub struct CaptureInfo {
    pub width: u32,
    pub height: u32,
    pub stride: u32,
}

/// A capture of a screen.
#[derive(Debug, Clone, Copy, PartialEq, Eq, Structural)]
pub struct ScreencopyFrame {
    pub output_id: u32,
    pub overlay_cursor: bool,
    pub done: bool,
}

/// A capture of the whole screen `id`.
pub fn capture_output(v: &Vec<OutputState>, id: u32, overlay_cursor: bool) -> (r: (
    ScreencopyFrame,
    CaptureInfo,
))
    requires
        size_in(outputs_view(v@), id).0 * 4 <= u32::MAX,
    ensures
        r.0 == (ScreencopyFrame { output_id: id, overlay_cursor, done: false }),
        r.1.width == size_in(outputs_view(v@), id).0,
        r.1.height == size_in(outputs_view(v@), id).1,
        r.1.stride == r.1.width * 4,
{
    let (width, height) = match find_output(v, id) {
        Some(i) => (v[i].width, v[i].height),
        None => (1920, 1080),
    };
    (
        ScreencopyFrame { output_id: id, overlay_cursor, done: false },
        CaptureInfo { width, height, stride: width * 4 },
    )
}

/// A capture of a part of the screen `id`.
pub fn capture_output_region(id: u32, overlay_cursor: bool, width: i32, height: i32) -> (r: (
    ScreencopyFrame,
    CaptureInfo,
))
    requires
        (width as u32) * 4 <= u32::MAX,
    ensures
        r.0 == (ScreencopyFrame { output_id: id, overlay_cursor, done: false }),
        r.1.width == width as u32,
        r.1.height == height as u32,
        r.1.stride == (width as u32) * 4,
{
    let w: u32 = #[verifier::truncate] (width as u32);
    let h: u32 = #[verifier::truncate] (height as u32);
    (
        ScreencopyFrame { output_id: id, overlay_cursor, done: false },
        CaptureInfo { width: w, height: h, stride: w * 4 },
    )
}

impl ScreencopyFrame {
    /// A capture is copied once; says whether it may be copied now.
    pub fn begin(&mut self) -> (r: bool)
        ensures
            r == !old(self).done,
            *final(self) == (ScreencopyFrame { done: true, ..*old(self) }),
    {
        let r = !self.done;
        self.done = true;
        r
    }
}

/// Byte `i` of a picture of `h` rows of `row` bytes, upside down.
pub open spec fn flipped_index(i: int, row: int, h: int) -> int {
    (h - 1 - i / row) * row + i % row
}

proof fn lemma_flipped_index(r: int, c: int, row: int, h: int)
    requires
        0 <= r < h,
        0 <= c < row,
    ensures
        flipped_index(r * row + c, row, h) == (h - 1 - r) * row + c,
        0 <= r * row + c < row * h,
        0 <= (h - 1 - r) * row + c < row * h,
{
    vstd::arithmetic::div_mod::lemma_fundamental_div_mod_converse(r * row + c, row, r, c);
    assert(r * row + c < row * h) by (nonlinear_arith)
        requires
            r + 1 <= h,
            0 <= c < row,
            0 <= r,
    ;
    assert(0 <= (h - 1 - r) * row && (h - 1 - r) * row + c < row * h) by (nonlinear_arith)
        requires
            0 <= r < h,
            0 <= c < row,
    ;
    assert(0 <= r * row) by (nonlinear_arith)
        requires
            0 <= r,
            0 <= row,
    ;
}

/// Turns a picture of `h` rows of `row` bytes upside down.
pub fn flip_rows(pixels: &Vec<u8>, row: usize, h: usize) -> (r: Vec<u8>)
    requires
        pixels@.len() == row * h,
        row > 0,
    ensures
        r@.len() == pixels@.len(),
        forall|i: int|
            0 <= i < r@.len() ==> #[trigger] r@[i] == pixels@[flipped_index(
                i,
                row as int,
                h as int,
            )],
{
    let len: usize = pixels.len();
    let mut r: Vec<u8> = Vec::new();
    let mut y: usize = 0;
    assert(0 * row == 0) by (nonlinear_arith);
    while y < h
        invariant
            y <= h,
            row > 0,
            len == row * h,
            len == pixels@.len(),
            r@.len() == y * row,
            forall|i: int|
                0 <= i < r@.len() ==> #[trigger] r@[i] == pixels@[flipped_index(
                    i,
                    row as int,
                    h as int,
                )],
        decreases h - y,
    {
        let mut x: usize = 0;
        while x < row
            invariant
                x <= row,
                y < h,
                row > 0,
                len == row * h,
                len == pixels@.len(),
                r@.len() == y * row + x,
                forall|i: int|
                    0 <= i < r@.len() ==> #[trigger] r@[i] == pixels@[flipped_index(
                        i,
                        row as int,
                        h as int,
                    )],
            decreases row - x,
        {
            proof {
                lemma_flipped_index(y as int, x as int, row as int, h as int);
                assert(0 <= (h - 1 - y) * row) by (nonlinear_arith)
                    requires
                        y < h,
                        0 < row,
                ;
            }
            let b: u8 = pixels[(h - 1 - y) * row + x];
            r.push(b);
            x += 1;
        }
        assert((y + 1) * row == y * row + row) by (nonlinear_arith);
        y += 1;
    }
    assert(h * row == row * h) by (nonlinear_arith);
    r
}

/// A time in milliseconds as seconds and nanoseconds.
pub fn split_time(now_ms: u32) -> (r: (u32, u32))
    ensures
        r.0 == now_ms / 1000,
        r.1 == (now_ms % 1000) * 1_000_000,
{
    (now_ms / 1000, (now_ms % 1000) * 1_000_000)
}

/// A picture that is turned upside down twice is as before.
pub proof fn law_flipped_twice(a: Seq<u8>, b: Seq<u8>, c: Seq<u8>, row: int, h: int)
    requires
        row > 0,
        h >= 0,
        a.len() == row * h,
        b.len() == a.len(),
        c.len() == a.len(),
        forall|i: int| 0 <= i < b.len() ==> #[trigger] b[i] == a[flipped_index(i, row, h)],
        forall|i: int| 0 <= i < c.len() ==> #[trigger] c[i] == b[flipped_index(i, row, h)],
    ensures
        c == a,
{
    assert forall|i: int| 0 <= i < a.len() implies c[i] == a[i] by {
        let y = i / row;
        let x = i % row;
        vstd::arithmetic::div_mod::lemma_fundamental_div_mod(i, row);
        assert(i == y * row + x) by (nonlinear_arith)
            requires
                i == row * y + x,
        ;
        assert(0 <= y < h) by (nonlinear_arith)
            requires
                i == y * row + x,
                0 <= x < row,
                0 <= i < row * h,
        ;
        lemma_flipped_index(y, x, row, h);
        lemma_flipped_index(h - 1 - y, x, row, h);
    }
    assert(c =~= a);
}

// ── Scaling ──────────────────────────────────────────────────────────────────

/// How a surface is cut and scaled. Lengths of the source are in parts of 256 of
/// a pixel.
#[derive(Debug, Clone, Copy, PartialEq, Eq, Structural)]
pub struct ViewportState {
    pub src: Option<Crop>,
    pub dst: Option<Extent>,
}

#[derive(Debug, Clone, Copy, PartialEq, Eq, Structural)]
pub struct Crop {
    pub x: i32,
    pub y: i32,
    pub w: i32,
    pub h: i32,
}

#[derive(Debug, Clone, Copy, PartialEq, Eq, Structural)]
pub struct Extent {
    pub w: i32,
    pub h: i32,
}

impl Default for ViewportState {
    fn default() -> (r: Self)
        ensures
            r == (ViewportState { src: None, dst: None }),
    {
        ViewportState { src: None, dst: None }
    }
}

/// What stands for one pixel to the left, or up: that nothing is set.
pub const UNSET_FIXED: i32 = -256;

/// A viewport as its client sets it, and as its surface has it.
#[derive(Debug, Clone, Copy, PartialEq, Eq, Structural)]
pub struct Viewport {
    pub own: ViewportState,
    pub of_surface: Option<ViewportState>,
}

impl Viewport {
    /// A viewport that sets nothing.
    pub fn new() -> (r: Self)
        ensures
            r.own == (ViewportState { src: None, dst: None }),
            r.of_surface == Some(r.own),
    {
        Viewport { own: ViewportState::default(), of_surface: Some(ViewportState::default()) }
    }

    /// The part of the buffer that is shown; all of it where every number is -1.
    pub fn set_source(&mut self, crop: Crop)
        ensures
            final(self).own.src == (if crop.x == UNSET_FIXED && crop.y == UNSET_FIXED && crop.w
                == UNSET_FIXED && crop.h == UNSET_FIXED {
                None
            } else {
                Some(crop)
            }),
            final(self).own.dst == old(self).own.dst,
            final(self).of_surface == match old(self).of_surface {
                Some(v) => Some(ViewportState { src: final(self).own.src, ..v }),
                None => None,
            },
    {
        self.own.src = if crop.x == UNSET_FIXED && crop.y == UNSET_FIXED && crop.w == UNSET_FIXED
            && crop.h == UNSET_FIXED {
            None
        } else {
            Some(crop)
        };
        if let Some(v) = self.of_surface {
            self.of_surface = Some(ViewportState { src: self.own.src, dst: v.dst });
        }
    }

    /// The size on the screen; that of the buffer where both numbers are -1.
    pub fn set_destination(&mut self, size: Extent)
        ensures
            final(self).own.dst == (if size.w == -1 && size.h == -1 {
                None
            } else {
                Some(size)
            }),
            final(self).own.src == old(self).own.src,
            final(self).of_surface == match old(self).of_surface {
                Some(v) => Some(ViewportState { dst: final(self).own.dst, ..v }),
                None => None,
            },
    {
        self.own.dst = if size.w == -1 && size.h == -1 {
            None
        } else {
            Some(size)
        };
        if let Some(v) = self.of_surface {
            self.of_surface = Some(ViewportState { src: v.src, dst: self.own.dst });
        }
    }

    /// The surface is shown as it is again.
    pub fn destroy(&mut self)
        ensures
            final(self).own == old(self).own,
            final(self).of_surface is None,
    {
        self.of_surface = None;
    }
}

// ── Idling ───────────────────────────────────────────────────────────────────

/// The number of inhibitors, which keep the screen from going dark. All who hold
/// one count in the same place, so it cannot be copied.
#[derive(Debug, PartialEq, Eq, Structural)]
pub struct IdleInhibitState {
    pub count: u32,
}

impl IdleInhibitState {
    pub fn new() -> (r: Self)
        ensures
            r.count == 0,
    {
        IdleInhibitState { count: 0 }
    }

    /// Whether anything keeps the screen from going dark.
    pub fn inhibited(&self) -> (r: bool)
        ensures
            r == (self.count > 0),
    {
        self.count > 0
    }

    /// An inhibitor comes.
    pub fn inc(&mut self)
        requires
            old(self).count < u32::MAX,
        ensures
            final(self).count == old(self).count + 1,
    {
        self.count += 1;
    }

    /// An inhibitor goes.
    pub fn dec(&mut self)
        ensures
            final(self).count == (if old(self).count > 0 {
                old(self).count - 1
            } else {
                0
            }),
    {
        if self.count > 0 {
            self.count -= 1;
        }
    }
}

} // verus!
