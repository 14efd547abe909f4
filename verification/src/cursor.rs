//! Cursor images.

use vstd::prelude::*;

use crate::config::paths::{join_path, opt_str, path_joined};
use crate::integer::{parse_unsigned, unsigned_of};
use crate::single::{max_of, min_of};
use crate::text::{chars_of, strings_view};

verus! {

/// The width and height of a cursor image.
pub const CURSOR_SIZE: u32 = 64;

/// The number of bytes of a cursor image.
pub const CURSOR_BYTES: usize = 16384;

/// An image of the cursor.
#[derive(Debug)]
pub struct CursorBitmap {
    /// The pixels, row by row, four bytes each: blue, green, red, alpha.
    pub data: Vec<u8>,
    /// The point of the image that points.
    pub hotspot: (u32, u32),
}

// ── The arrow ────────────────────────────────────────────────────────────────

/// Whether the arrow covers a pixel: it is 22 rows high, is bounded below by a
/// diagonal, and widens by 31 columns in 50 rows.
pub open spec fn in_arrow(row: int, col: int) -> bool {
    row < 22 && 50 * col < 31 * row + 50 && col < 23 - row
}

/// Whether a pixel of the arrow is inside its outline.
pub open spec fn in_fill(row: int, col: int) -> bool {
    row + 1 < 21 && 50 * (col + 1) < 31 * (row - 1) + 25 && row + 1 < 22 - (col + 1) && col > 1
}

/// Byte `k` of a color, from the lowest.
pub open spec fn color_byte(color: u32, k: int) -> u8 {
    if k == 0 {
        (color % 0x100) as u8
    } else if k == 1 {
        (color / 0x100 % 0x100) as u8
    } else if k == 2 {
        (color / 0x1_0000 % 0x100) as u8
    } else {
        (color / 0x100_0000) as u8
    }
}

/// Byte `i` of the arrow.
pub open spec fn arrow_byte(fg: u32, outline: u32, i: int) -> u8 {
    let row = i / 256;
    let col = i / 4 % 64;
    if in_arrow(row, col) {
        color_byte(
            if in_fill(row, col) {
                fg
            } else {
                outline
            },
            i % 4,
        )
    } else {
        0
    }
}

fn byte_of(color: u32, k: usize) -> (r: u8)
    requires
        k < 4,
    ensures
        r == color_byte(color, k as int),
{
    if k == 0 {
        (color % 0x100) as u8
    } else if k == 1 {
        (color / 0x100 % 0x100) as u8
    } else if k == 2 {
        (color / 0x1_0000 % 0x100) as u8
    } else {
        (color / 0x100_0000) as u8
    }
}

impl CursorBitmap {
    /// An arrow that points to the upper left, in two colors given as alpha,
    /// red, green and blue from the highest byte.
    pub fn builtin_arrow(fg: u32, outline: u32) -> (r: Self)
        ensures
            r.data@ == Seq::new(CURSOR_BYTES as nat, |i: int| arrow_byte(fg, outline, i)),
            r.hotspot == (0u32, 0u32),
    {
        let mut data: Vec<u8> = Vec::new();
        let mut i: usize = 0;
        while i < CURSOR_BYTES
            invariant
                i <= CURSOR_BYTES,
                data@.len() == i,
                forall|k: int| 0 <= k < i ==> #[trigger] data@[k] == arrow_byte(fg, outline, k),
            decreases CURSOR_BYTES - i,
        {
            let row: i32 = (i / 256) as i32;
            let col: i32 = (i / 4 % 64) as i32;
            let inside = row < 22 && 50 * col < 31 * row + 50 && col < 23 - row;
            let fill = row + 1 < 21 && 50 * (col + 1) < 31 * (row - 1) + 25 && row + 1 < 22 - (col
                + 1) && col > 1;
            let b: u8 = if inside {
                byte_of(
                    if fill {
                        fg
                    } else {
                        outline
                    },
                    i % 4,
                )
            } else {
                0
            };
            data.push(b);
            i += 1;
        }
        assert(data@ =~= Seq::new(CURSOR_BYTES as nat, |i: int| arrow_byte(fg, outline, i)));
        CursorBitmap { data, hotspot: (0, 0) }
    }
}

/// How wide the plain arrow is in a row.
pub open spec fn plain_width(row: int) -> int {
    if row < 12 {
        row + 1
    } else {
        20 - row
    }
}

/// A pixel of the plain arrow: white with a black edge, twenty rows high.
pub open spec fn plain_pixel(row: int, col: int) -> u32 {
    if row < 20 && col < plain_width(row) && (row != 19 || col == 0) {
        if row == 0 || col == 0 || col + 1 == plain_width(row) {
            0xFF00_0000u32
        } else {
            0xFFFF_FFFFu32
        }
    } else {
        0u32
    }
}

/// A plain white arrow with a black edge.
pub fn make_arrow_pixels() -> (r: Vec<u32>)
    ensures
        r@ == Seq::new(4096, |i: int| plain_pixel(i / 64, i % 64)),
{
    let mut r: Vec<u32> = Vec::new();
    let mut i: usize = 0;
    while i < 4096
        invariant
            i <= 4096,
            r@.len() == i,
            forall|k: int| 0 <= k < i ==> #[trigger] r@[k] == plain_pixel(k / 64, k % 64),
        decreases 4096 - i,
    {
        let row: usize = i / 64;
        let col: usize = i % 64;
        let width: usize = if row < 12 {
            row + 1
        } else if row < 20 {
            20 - row
        } else {
            0
        };
        let p: u32 = if row < 20 && col < width && (row != 19 || col == 0) {
            if row == 0 || col == 0 || col + 1 == width {
                0xFF00_0000
            } else {
                0xFFFF_FFFF
            }
        } else {
            0
        };
        r.push(p);
        i += 1;
    }
    assert(r@ =~= Seq::new(4096, |i: int| plain_pixel(i / 64, i % 64)));
    r
}

/// A cursor that the display shows by itself: its pixels, and the point that
/// points.
#[derive(Debug)]
pub struct HwCursor {
    pub pixels: Vec<u32>,
    pub hot_x: u32,
    pub hot_y: u32,
}

impl HwCursor {
    /// The image of a theme, else the plain arrow.
    pub fn load(themed: Option<(Vec<u32>, u32, u32)>) -> (r: Self)
        ensures
            match themed {
                Some((p, x, y)) => r.pixels == p && r.hot_x == x && r.hot_y == y,
                None => r.pixels@ == Seq::new(4096, |i: int| plain_pixel(i / 64, i % 64)) && r.hot_x
                    == 0 && r.hot_y == 0,
            },
    {
        match themed {
            Some((pixels, hot_x, hot_y)) => HwCursor { pixels, hot_x, hot_y },
            None => HwCursor { pixels: make_arrow_pixels(), hot_x: 0, hot_y: 0 },
        }
    }
}

// ── Cursor files ─────────────────────────────────────────────────────────────

/// The number that the four bytes at `at` hold, the lowest first.
pub open spec fn le32(data: Seq<u8>, at: int) -> int {
    data[at] + 0x100 * data[at + 1] + 0x1_0000 * data[at + 2] + 0x100_0000 * data[at + 3]
}

fn read_le32(data: &Vec<u8>, at: usize) -> (r: u32)
    requires
        at + 4 <= data@.len(),
    ensures
        r == le32(data@, at as int),
{
    let len: usize = data.len();
    assert(at + 4 <= len);
    data[at] as u32 + 0x100 * data[at + 1] as u32 + 0x1_0000 * data[at + 2] as u32 + 0x100_0000
        * data[at + 3] as u32
}

/// The type of the chunks that hold images.
pub const IMAGE_TYPE: u32 = 0xFFFD_0002;

pub open spec fn gap_between(a: int, b: int) -> int {
    if a >= b {
        a - b
    } else {
        b - a
    }
}

/// Of the first `n` entries of the table of contents, the image whose size is
/// nearest to `target`, the first of several: how far off it is, and where it
/// stands.
pub open spec fn nearest_image(data: Seq<u8>, table: int, n: int, target: u32) -> Option<(int, int)>
    decreases n,
{
    if n <= 0 {
        None
    } else {
        let best = nearest_image(data, table, n - 1, target);
        let at = table + (n - 1) * 12;
        let off = gap_between(le32(data, at + 4), target as int);
        let limit = match best {
            Some((d, _)) => d,
            None => u32::MAX as int,
        };
        if le32(data, at) == IMAGE_TYPE && off < limit {
            Some((off, le32(data, at + 8)))
        } else {
            best
        }
    }
}

/// Byte `i` of the image whose pixels stand at `pixels`, cut to the size of a
/// cursor or filled up to it.
pub open spec fn image_byte(data: Seq<u8>, pixels: int, w: int, h: int, i: int) -> u8 {
    let row = i / 256;
    let col = i / 4 % 64;
    if row < h && col < w {
        data[pixels + (row * w + col) * 4 + i % 4]
    } else {
        0
    }
}

/// Whether `data` starts like a cursor file, with all of its table of contents.
pub open spec fn has_table(data: Seq<u8>) -> bool {
    &&& data.len() >= 16
    &&& data[0] == 0x58 && data[1] == 0x63 && data[2] == 0x75 && data[3] == 0x72
    &&& data.len() >= le32(data, 4) + le32(data, 12) * 12
}

/// Where the image that is used stands.
pub open spec fn image_at(data: Seq<u8>, target: u32) -> Option<int> {
    match nearest_image(data, le32(data, 4), le32(data, 12), target) {
        Some((_, at)) => Some(at),
        None => None,
    }
}

/// Whether all of the image at `at` is there.
pub open spec fn whole_image(data: Seq<u8>, at: int) -> bool {
    &&& at + 36 <= data.len()
    &&& at + 36 + le32(data, at + 16) * le32(data, at + 20) * 4 <= data.len()
}

/// Whether `b` is the image at `at`.
pub open spec fn is_image(b: CursorBitmap, data: Seq<u8>, at: int) -> bool {
    let w = le32(data, at + 16);
    let h = le32(data, at + 20);
    &&& b.data@ == Seq::new(CURSOR_BYTES as nat, |i: int| image_byte(data, at + 36, w, h, i))
    &&& b.hotspot.0 == min_of(le32(data, at + 24), CURSOR_SIZE - 1)
    &&& b.hotspot.1 == min_of(le32(data, at + 28), CURSOR_SIZE - 1)
}

fn find_image(data: &Vec<u8>, table: usize, n: usize, target: u32) -> (r: Option<usize>)
    requires
        table + n * 12 <= data@.len(),
    ensures
        match r {
            Some(at) => nearest_image(data@, table as int, n as int, target) matches Some(x) && x.1
                == at,
            None => nearest_image(data@, table as int, n as int, target) is None,
        },
{
    let len: usize = data.len();
    let mut best: Option<usize> = None;
    let mut best_off: u32 = u32::MAX;
    let mut i: usize = 0;
    while i < n
        invariant
            i <= n,
            table + n * 12 <= len,
            len == data@.len(),
            match best {
                Some(at) => nearest_image(data@, table as int, i as int, target) == Some(
                    (best_off as int, at as int),
                ),
                None => nearest_image(data@, table as int, i as int, target) is None && best_off
                    == u32::MAX,
            },
        decreases n - i,
    {
        let at: usize = table + i * 12;
        let kind: u32 = read_le32(data, at);
        let size: u32 = read_le32(data, at + 4);
        let position: u32 = read_le32(data, at + 8);
        if kind == IMAGE_TYPE {
            let off: u32 = if size >= target {
                size - target
            } else {
                target - size
            };
            if off < best_off {
                best_off = off;
                best = Some(position as usize);
            }
        }
        i += 1;
    }
    best
}

/// Reads a cursor file: its first image of the size that is nearest to
/// `target_size`.
pub fn load_xcursor_file(data: &Vec<u8>, target_size: u32) -> (r: Option<CursorBitmap>)
    ensures
        r is Some <==> has_table(data@) && (image_at(data@, target_size) matches Some(at)
            && whole_image(data@, at)),
        r matches Some(b) ==> is_image(b, data@, image_at(data@, target_size)->0),
{
    if data.len() < 16 {
        return None;
    }
    if !(data[0] == 0x58 && data[1] == 0x63 && data[2] == 0x75 && data[3] == 0x72) {
        return None;
    }
    let table: u32 = read_le32(data, 4);
    let n: u32 = read_le32(data, 12);
    if (data.len() as u64) < table as u64 + n as u64 * 12 {
        return None;
    }
    let at: usize = match find_image(data, table as usize, n as usize, target_size) {
        Some(at) => at,
        None => {
            return None;
        },
    };
    if data.len() < 36 || at > data.len() - 36 {
        return None;
    }
    let w: u32 = read_le32(data, at + 16);
    let h: u32 = read_le32(data, at + 20);
    let xhot: u32 = read_le32(data, at + 24);
    let yhot: u32 = read_le32(data, at + 28);
    let pixels: usize = at + 36;
    assert(0 <= w * h <= 0xFFFF_FFFF * 0xFFFF_FFFF) by (nonlinear_arith)
        requires
            0 <= w <= 0xFFFF_FFFF,
            0 <= h <= 0xFFFF_FFFF,
    ;
    let size: u128 = w as u128 * h as u128 * 4;
    if pixels as u128 + size > data.len() as u128 {
        return None;
    }
    let len: usize = data.len();
    let mut out: Vec<u8> = Vec::new();
    let mut i: usize = 0;
    while i < CURSOR_BYTES
        invariant
            i <= CURSOR_BYTES,
            out@.len() == i,
            pixels + w * h * 4 <= len,
            len == data@.len(),
            forall|k: int|
                0 <= k < i ==> #[trigger] out@[k] == image_byte(
                    data@,
                    pixels as int,
                    w as int,
                    h as int,
                    k,
                ),
        decreases CURSOR_BYTES - i,
    {
        let row: usize = i / 256;
        let col: usize = i / 4 % 64;
        let b: u8 = if row < h as usize && col < w as usize {
            assert(0 <= row * w + col && row * w + col + 1 <= w * h) by (nonlinear_arith)
                requires
                    0 <= row,
                    row + 1 <= h,
                    0 <= col,
                    col + 1 <= w,
            ;
            assert(row * w <= w * h) by (nonlinear_arith)
                requires
                    0 <= row,
                    row + 1 <= h,
                    0 <= w,
            ;
            data[pixels + (row * w as usize + col) * 4 + i % 4]
        } else {
            0
        };
        out.push(b);
        i += 1;
    }
    assert(out@ =~= Seq::new(
        CURSOR_BYTES as nat,
        |i: int| image_byte(data@, pixels as int, w as int, h as int, i),
    ));
    Some(
        CursorBitmap {
            data: out,
            hotspot: (
                if xhot < CURSOR_SIZE {
                    xhot
                } else {
                    CURSOR_SIZE - 1
                },
                if yhot < CURSOR_SIZE {
                    yhot
                } else {
                    CURSOR_SIZE - 1
                },
            ),
        },
    )
}

/// An image that was read has the size of a cursor, and its hot spot in it.
pub proof fn law_loaded_image_is_whole(b: CursorBitmap, data: Seq<u8>, at: int)
    requires
        is_image(b, data, at),
    ensures
        b.data@.len() == CURSOR_BYTES,
        b.hotspot.0 < CURSOR_SIZE,
        b.hotspot.1 < CURSOR_SIZE,
{
}

// ── Themes ───────────────────────────────────────────────────────────────────

/// Where the cursor `name` of a theme can be, the best place first.
pub open spec fn places(home: Option<Seq<char>>, theme: Seq<char>, name: Seq<char>) -> Seq<Seq<char>> {
    let own = match home {
        Some(h) => seq![
            path_joined(path_joined(h, ".local/share/icons"@), theme),
            path_joined(path_joined(h, ".icons"@), theme),
        ],
        None => Seq::empty(),
    };
    let dirs = own + seq![path_joined("/usr/share/icons"@, theme), "/usr/share/pixmaps"@];
    Seq::new(dirs.len(), |i: int| path_joined(path_joined(dirs[i], "cursors"@), name))
}

fn place_in(dir: &str, name: &str) -> (r: String)
    ensures
        r@ == path_joined(path_joined(dir@, "cursors"@), name@),
{
    join_path(join_path(dir, "cursors").as_str(), name)
}

/// Where the cursor `name` of a theme can be.
pub fn cursor_files(home: Option<&str>, theme: &str, name: &str) -> (r: Vec<String>)
    ensures
        strings_view(r@) == places(
            opt_str(home),
            theme@,
            name@,
        ),
{
    let mut r: Vec<String> = Vec::new();
    if let Some(h) = home {
        let a = join_path(join_path(h, ".local/share/icons").as_str(), theme);
        let b = join_path(join_path(h, ".icons").as_str(), theme);
        r.push(place_in(a.as_str(), name));
        r.push(place_in(b.as_str(), name));
    }
    let c = join_path("/usr/share/icons", theme);
    r.push(place_in(c.as_str(), name));
    r.push(place_in("/usr/share/pixmaps", name));
    proof {
        assert(strings_view(r@) =~= places(opt_str(home), theme@, name@));
    }
    r
}

/// The size that a setting asks for.
pub open spec fn size_asked(setting: Option<Seq<char>>) -> int {
    match setting {
        Some(s) => match unsigned_of(s, 10, u32::MAX as nat) {
            Some(n) => n as int,
            None => CURSOR_SIZE as int,
        },
        None => CURSOR_SIZE as int,
    }
}

pub fn cursor_size(setting: Option<&str>) -> (r: u32)
    ensures
        r == size_asked(opt_str(setting)),
{
    match setting {
        Some(s) => {
            let c = chars_of(s);
            match parse_unsigned(c.as_slice(), 10, u32::MAX) {
                Some(n) => n,
                None => CURSOR_SIZE,
            }
        },
        None => CURSOR_SIZE,
    }
}

// ── The cursor ───────────────────────────────────────────────────────────────

/// The cursor that is shown.
#[derive(Debug)]
pub struct CursorManager {
    pub bitmap: CursorBitmap,
    /// Whether the display shows the image by itself.
    pub hw_cursor_ok: bool,
    /// The theme that is used where the environment names none.
    pub theme_name: String,
}

/// Where an image with this hot spot goes when the pointer is at `p`: back by
/// the hot spot, but not off the screen.
pub open spec fn origin_of(p: int, hot: u32) -> int {
    max_of(p - hot, 0)
}

/// The files in which a theme's cursor can be, the best first: in every place
/// under the first name, then under the second, and so on.
pub open spec fn theme_places(home: Option<Seq<char>>, theme: Seq<char>) -> Seq<Seq<char>> {
    places(home, theme, "left_ptr"@) + places(home, theme, "arrow"@) + places(
        home,
        theme,
        "default"@,
    )
}

/// Whether `f` holds a cursor.
pub open spec fn holds_cursor(f: Seq<u8>, size: u32) -> bool {
    has_table(f) && (image_at(f, size) matches Some(at) && whole_image(f, at))
}

impl CursorManager {
    pub open spec fn inv(&self) -> bool {
        self.bitmap.hotspot.0 < CURSOR_SIZE && self.bitmap.hotspot.1 < CURSOR_SIZE
    }

    /// The files in which the cursor can be, the best first; `theme` is the
    /// theme that the environment names, `home` the home directory.
    pub fn theme_files(&self, theme: Option<&str>, home: Option<&str>) -> (r: Vec<String>)
        ensures
            strings_view(r@) == theme_places(
                opt_str(home),
                match theme {
                    Some(t) => t@,
                    None => self.theme_name@,
                },
            ),
    {
        let theme = match theme {
            Some(t) => t,
            None => self.theme_name.as_str(),
        };
        let mut r = cursor_files(home, theme, "left_ptr");
        let mut second = cursor_files(home, theme, "arrow");
        let mut third = cursor_files(home, theme, "default");
        let ghost all = theme_places(opt_str(home), theme@);
        let ghost (a, b, c) = (r@, second@, third@);
        r.append(&mut second);
        r.append(&mut third);
        proof {
            assert(strings_view(r@) =~= strings_view(a) + strings_view(b) + strings_view(c));
            assert(all == strings_view(a) + strings_view(b) + strings_view(c));
        }
        r
    }

    /// Takes the image of the first of `files` that holds a cursor; where none
    /// does, the image stays as it is.
    pub fn load_theme(&mut self, files: &Vec<Vec<u8>>, size: u32)
        requires
            old(self).inv(),
        ensures
            final(self).inv(),
            final(self).hw_cursor_ok == old(self).hw_cursor_ok,
            final(self).theme_name == old(self).theme_name,
            ({
                ||| exists|i: int|
                    #![trigger files@[i]]
                    {
                        &&& 0 <= i < files@.len()
                        &&& holds_cursor(files@[i]@, size)
                        &&& forall|k: int| 0 <= k < i ==> !holds_cursor(#[trigger] files@[k]@, size)
                        &&& is_image(
                            final(self).bitmap,
                            files@[i]@,
                            image_at(files@[i]@, size)->0,
                        )
                    }
                ||| {
                    &&& forall|k: int|
                        0 <= k < files@.len() ==> !holds_cursor(#[trigger] files@[k]@, size)
                    &&& final(self).bitmap == old(self).bitmap
                }
            }),
    {
        let mut i: usize = 0;
        while i < files.len()
            invariant
                i <= files@.len(),
                *self == *old(self),
                self.inv(),
                forall|k: int| 0 <= k < i ==> !holds_cursor(#[trigger] files@[k]@, size),
            decreases files@.len() - i,
        {
            if let Some(b) = load_xcursor_file(&files[i], size) {
                self.bitmap = b;
                assert(holds_cursor(files@[i as int]@, size));
                return ;
            }
            i += 1;
        }
    }

    /// Takes note of whether the display shows the image by itself. Where it
    /// does and the pointer is at (`x`, `y`), the image goes to the place that
    /// is returned.
    pub fn uploaded(&mut self, ok: bool, x: i32, y: i32) -> (r: Option<(i32, i32)>)
        requires
            old(self).inv(),
        ensures
            final(self).inv(),
            final(self).hw_cursor_ok == ok,
            final(self).bitmap == old(self).bitmap,
            final(self).theme_name == old(self).theme_name,
            r is Some <==> ok,
            r matches Some(p) ==> p.0 == origin_of(x as int, old(self).bitmap.hotspot.0) && p.1
                == origin_of(y as int, old(self).bitmap.hotspot.1),
    {
        self.hw_cursor_ok = ok;
        self.move_cursor(x, y)
    }

    /// Where the image goes when the pointer is at (`x`, `y`): nowhere, unless
    /// the display shows it by itself.
    pub fn move_cursor(&self, x: i32, y: i32) -> (r: Option<(i32, i32)>)
        requires
            self.inv(),
        ensures
            r is Some <==> self.hw_cursor_ok,
            r matches Some(p) ==> p.0 == origin_of(x as int, self.bitmap.hotspot.0) && p.1
                == origin_of(y as int, self.bitmap.hotspot.1),
    {
        if !self.hw_cursor_ok {
            return None;
        }
        Some(self.software_origin(x, y))
    }

    /// Where the image is drawn when the display does not show it by itself and
    /// the pointer is at (`x`, `y`).
    pub fn software_origin(&self, x: i32, y: i32) -> (r: (i32, i32))
        requires
            self.inv(),
        ensures
            r.0 == origin_of(x as int, self.bitmap.hotspot.0),
            r.1 == origin_of(y as int, self.bitmap.hotspot.1),
    {
        let hx: i32 = self.bitmap.hotspot.0 as i32;
        let hy: i32 = self.bitmap.hotspot.1 as i32;
        (
            if x > hx {
                x - hx
            } else {
                0
            },
            if y > hy {
                y - hy
            } else {
                0
            },
        )
    }
}

impl Default for CursorManager {
    /// An arrow, which the display does not show by itself yet.
    fn default() -> (r: Self)
        ensures
            r.inv(),
            r.bitmap.data@ == Seq::new(
                CURSOR_BYTES as nat,
                |i: int| arrow_byte(0xFFCD_D2E6, 0xFF1E_1E2E, i),
            ),
            r.bitmap.hotspot == (0u32, 0u32),
            !r.hw_cursor_ok,
            r.theme_name@ == "default"@,
    {
        CursorManager {
            bitmap: CursorBitmap::builtin_arrow(0xFFCD_D2E6, 0xFF1E_1E2E),
            hw_cursor_ok: false,
            theme_name: "default".to_owned(),
        }
    }
}

} // verus!
