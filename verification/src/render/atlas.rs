//! The pictures of characters, side by side in textures.

use vstd::prelude::*;

use crate::text::chars_of;

verus! {

/// The width of a texture.
pub const ATLAS_W: u32 = 2048;

/// The kind of a bitmap that has three bytes a pixel, one for each color.
pub const PIXEL_MODE_LCD: u8 = 5;

/// A character as the font draws it.
#[derive(Debug, Clone, Copy, PartialEq, Eq, Structural)]
pub struct Bitmap {
    /// The number of bytes of a row that are used.
    pub width: u32,
    pub rows: u32,
    pub pixel_mode: u8,
    pub left: i32,
    pub top: i32,
    /// How far the next character is, in parts of 64 of a pixel.
    pub advance: i64,
    /// Whether there are any pixels.
    pub drawn: bool,
}

/// A character in a texture.
#[derive(Debug, Clone, Copy, PartialEq, Eq, Structural)]
pub struct GlyphInfo {
    pub tex_id: u32,
    /// Its left edge in the texture.
    pub x: u32,
    pub px_w: i32,
    pub px_h: i32,
    /// The height of the texture.
    pub tex_h: u32,
    pub bearing_x: i32,
    pub bearing_y: i32,
    /// How far the next character is, in pixels.
    pub advance: i32,
    pub lcd: bool,
}

/// A texture for characters of one size and kind.
#[derive(Debug, Clone, Copy, PartialEq, Eq, Structural)]
pub struct AtlasRow {
    pub size_px: u32,
    pub lcd: bool,
    pub tex_id: u32,
    /// The next column that is free.
    pub cursor: u32,
    pub height: u32,
}

/// A character of a size that was drawn.
#[derive(Debug, Clone, Copy, PartialEq, Eq, Structural)]
pub struct Cached {
    pub size_px: u32,
    pub ch: char,
    pub info: GlyphInfo,
}

/// The characters that were drawn, and the textures that they are in.
#[derive(Debug)]
pub struct FontAtlas {
    pub cache: Vec<Cached>,
    pub rows: Vec<AtlasRow>,
    /// Whether characters have a color for each part of a pixel.
    pub lcd: bool,
}

/// What a [`FontAtlas`] holds.
pub struct AtlasView {
    pub cache: Seq<Cached>,
    pub rows: Seq<AtlasRow>,
    pub lcd: bool,
}

/// The character `ch` of the size `size`.
pub open spec fn cached(cache: Seq<Cached>, size: u32, ch: char) -> Option<GlyphInfo>
    decreases cache.len(),
{
    if cache.len() == 0 {
        None
    } else if cache[0].size_px == size && cache[0].ch == ch {
        Some(cache[0].info)
    } else {
        cached(cache.skip(1), size, ch)
    }
}

/// The index of the texture for characters of a size and a kind.
pub open spec fn row_for(rows: Seq<AtlasRow>, i: int, size: u32, lcd: bool) -> Option<int>
    decreases rows.len() - i,
{
    if i >= rows.len() {
        None
    } else if rows[i].size_px == size && rows[i].lcd == lcd {
        Some(i)
    } else {
        row_for(rows, i + 1, size, lcd)
    }
}

/// Whether a bitmap has a color for each part of a pixel.
pub open spec fn is_lcd(b: Bitmap, used_lcd: bool) -> bool {
    used_lcd && b.pixel_mode == PIXEL_MODE_LCD
}

/// The width of a character on the screen.
pub open spec fn screen_width(b: Bitmap, used_lcd: bool) -> int {
    if is_lcd(b, used_lcd) {
        b.width as int / 3
    } else {
        b.width as int
    }
}

/// Whether there is nothing to draw.
pub open spec fn is_blank(b: Bitmap) -> bool {
    b.width == 0 || b.rows == 0 || !b.drawn
}

/// A character without pixels.
pub open spec fn blank_info(b: Bitmap, used_lcd: bool) -> GlyphInfo {
    GlyphInfo {
        tex_id: 0,
        x: 0,
        px_w: 0,
        px_h: 0,
        tex_h: 0,
        bearing_x: b.left,
        bearing_y: b.top,
        advance: (b.advance / 64) as i32,
        lcd: is_lcd(b, used_lcd),
    }
}

/// A character at the next free column of a texture.
pub open spec fn placed_info(b: Bitmap, used_lcd: bool, row: AtlasRow) -> GlyphInfo {
    GlyphInfo {
        tex_id: row.tex_id,
        x: row.cursor,
        px_w: screen_width(b, used_lcd) as i32,
        px_h: b.rows as i32,
        tex_h: row.height,
        ..blank_info(b, used_lcd)
    }
}

/// What came of a character that was drawn.
#[derive(Debug, Clone, Copy, PartialEq, Eq, Structural)]
pub enum Placed {
    /// It has no pixels.
    Blank(GlyphInfo),
    /// There is no texture for it yet; it takes one of this height.
    NeedsRow { height: u32, lcd: bool },
    /// The texture for it is full.
    Full,
    /// It stands in its texture.
    At(GlyphInfo),
}

/// What comes of the character `ch` of the size `size`, drawn as `b`.
pub open spec fn placement(a: AtlasView, size: u32, b: Bitmap, used_lcd: bool) -> Placed {
    let lcd = is_lcd(b, used_lcd);
    if is_blank(b) {
        Placed::Blank(blank_info(b, used_lcd))
    } else {
        match row_for(a.rows, 0, size, lcd) {
            None => Placed::NeedsRow { height: (size + 4) as u32, lcd },
            Some(i) => if a.rows[i].cursor + screen_width(b, used_lcd) > ATLAS_W {
                Placed::Full
            } else {
                Placed::At(placed_info(b, used_lcd, a.rows[i]))
            },
        }
    }
}

impl AtlasView {
    /// The atlas when the character `ch` was drawn as `b`.
    pub open spec fn drawn(self, size: u32, ch: char, b: Bitmap, used_lcd: bool) -> AtlasView {
        match placement(self, size, b, used_lcd) {
            Placed::Blank(info) => AtlasView {
                cache: self.cache.push(Cached { size_px: size, ch, info }),
                ..self
            },
            Placed::At(info) => {
                let i = row_for(self.rows, 0, size, is_lcd(b, used_lcd))->0;
                AtlasView {
                    cache: self.cache.push(Cached { size_px: size, ch, info }),
                    rows: self.rows.update(
                        i,
                        AtlasRow {
                            cursor: (self.rows[i].cursor + screen_width(b, used_lcd) + 1) as u32,
                            ..self.rows[i]
                        },
                    ),
                    ..self
                }
            },
            _ => self,
        }
    }

    /// Whether the characters stand in their textures, none over another.
    pub open spec fn well_placed(self) -> bool {
        &&& forall|i: int, j: int|
            0 <= i < j < self.rows.len() ==> (#[trigger] self.rows[i]).tex_id != (
            #[trigger] self.rows[j]).tex_id
        &&& forall|i: int| 0 <= i < self.rows.len() ==> (#[trigger] self.rows[i]).cursor <= ATLAS_W + 1
        &&& forall|k: int| 0 <= k < self.cache.len() ==> fits_in(self, #[trigger] self.cache[k].info)
        &&& forall|k: int, l: int|
            0 <= k < l < self.cache.len() ==> apart(
                (#[trigger] self.cache[k]).info,
                (#[trigger] self.cache[l]).info,
            )
    }
}

/// Whether a character with pixels is inside its texture, before its free columns.
pub open spec fn fits_in(a: AtlasView, g: GlyphInfo) -> bool {
    g.px_w > 0 ==> exists|i: int|
        0 <= i < a.rows.len() && (#[trigger] a.rows[i]).tex_id == g.tex_id && g.x + g.px_w
            < a.rows[i].cursor && g.x + g.px_w <= ATLAS_W
}

/// Whether two characters are not in each other's way: at least a column is free
/// between them.
pub open spec fn apart(g: GlyphInfo, h: GlyphInfo) -> bool {
    g.px_w > 0 && h.px_w > 0 && g.tex_id == h.tex_id ==> g.x + g.px_w < h.x || h.x + h.px_w < g.x
}

impl FontAtlas {
    pub open spec fn atlas(&self) -> AtlasView {
        AtlasView { cache: self.cache@, rows: self.rows@, lcd: self.lcd }
    }

    /// An atlas without characters.
    pub fn new(lcd: bool) -> (r: Self)
        ensures
            r.atlas() == (AtlasView { cache: Seq::empty(), rows: Seq::empty(), lcd }),
            r.atlas().well_placed(),
            r.lcd == lcd,
    {
        let r = FontAtlas { cache: Vec::new(), rows: Vec::new(), lcd };
        assert(r.atlas().cache =~= Seq::empty());
        assert(r.atlas().rows =~= Seq::empty());
        r
    }

    /// The character `ch` of the size `size_px`, where it was drawn.
    pub fn glyph(&self, ch: char, size_px: u32) -> (r: Option<GlyphInfo>)
        ensures
            r == cached(self.atlas().cache, size_px, ch),
    {
        let ghost all = self.cache@;
        let mut i: usize = 0;
        assert(all.skip(0) =~= all);
        while i < self.cache.len()
            invariant
                i <= self.cache@.len(),
                all == self.cache@,
                cached(all.skip(i as int), size_px, ch) == cached(all, size_px, ch),
            decreases self.cache@.len() - i,
        {
            let c = self.cache[i];
            assert(all.skip(i as int)[0] == c);
            if c.size_px == size_px && c.ch == ch {
                return Some(c.info);
            }
            i += 1;
            assert(all.skip(i - 1).skip(1) =~= all.skip(i as int));
        }
        assert(all.skip(i as int).len() == 0);
        None
    }

    fn find_row(&self, size: u32, lcd: bool) -> (r: Option<usize>)
        ensures
            match r {
                Some(i) => i < self.rows@.len() && row_for(self.rows@, 0, size, lcd) == Some(
                    i as int,
                ),
                None => row_for(self.rows@, 0, size, lcd) is None,
            },
    {
        let mut i: usize = 0;
        while i < self.rows.len()
            invariant
                i <= self.rows@.len(),
                row_for(self.rows@, i as int, size, lcd) == row_for(self.rows@, 0, size, lcd),
            decreases self.rows@.len() - i,
        {
            if self.rows[i].size_px == size && self.rows[i].lcd == lcd {
                return Some(i);
            }
            i += 1;
        }
        None
    }

    /// A new texture holds characters of a size and a kind.
    pub fn add_row(&mut self, size_px: u32, lcd: bool, tex_id: u32)
        requires
            size_px <= u32::MAX - 4,
            old(self).atlas().well_placed(),
            forall|i: int|
                0 <= i < old(self).atlas().rows.len() ==> (#[trigger] old(self).atlas().rows[i]).tex_id
                    != tex_id,
        ensures
            final(self).atlas() == (AtlasView {
                rows: old(self).atlas().rows.push(
                    AtlasRow {
                        size_px,
                        lcd,
                        tex_id,
                        cursor: 0,
                        height: (size_px + 4) as u32,
                    },
                ),
                ..old(self).atlas()
            }),
            final(self).atlas().well_placed(),
            final(self).lcd == old(self).lcd,
    {
        self.rows.push(AtlasRow { size_px, lcd, tex_id, cursor: 0, height: size_px + 4 });
        proof {
            assert(self.atlas().rows.drop_last() =~= old(self).atlas().rows);
            lemma_row_added(old(self).atlas(), self.atlas());
        }
    }

    /// Takes note of the character `ch`, which the font drew as `b`; `used_lcd`
    /// says whether it was asked for colors.
    pub fn rasterise(&mut self, ch: char, size_px: u32, b: Bitmap, used_lcd: bool) -> (r: Placed)
        requires
            old(self).atlas().well_placed(),
            size_px <= u32::MAX - 4,
        ensures
            r == placement(old(self).atlas(), size_px, b, used_lcd),
            final(self).atlas() == old(self).atlas().drawn(size_px, ch, b, used_lcd),
            final(self).atlas().well_placed(),
            final(self).lcd == old(self).lcd,
    {
        let lcd = used_lcd && b.pixel_mode == PIXEL_MODE_LCD;
        let width: u32 = if lcd {
            b.width / 3
        } else {
            b.width
        };
        let pixels: i64 = if b.advance >= 0 {
            b.advance / 64
        } else {
            -1 - (-1 - b.advance) / 64
        };
        assert(pixels == b.advance / 64);
        let advance: i32 = #[verifier::truncate] (pixels as i32);
        let blank = GlyphInfo {
            tex_id: 0,
            x: 0,
            px_w: 0,
            px_h: 0,
            tex_h: 0,
            bearing_x: b.left,
            bearing_y: b.top,
            advance,
            lcd,
        };
        let ghost a = self.atlas();
        if b.width == 0 || b.rows == 0 || !b.drawn {
            self.cache.push(Cached { size_px, ch, info: blank });
            proof {
                lemma_pushed(a, self.atlas(), Cached { size_px, ch, info: blank });
            }
            return Placed::Blank(blank);
        }
        let i: usize = match self.find_row(size_px, lcd) {
            Some(i) => i,
            None => {
                return Placed::NeedsRow { height: size_px + 4, lcd };
            },
        };
        let row = self.rows[i];
        assert(row == a.rows[i as int]);
        if row.cursor as u64 + width as u64 > ATLAS_W as u64 {
            return Placed::Full;
        }
        let info = GlyphInfo {
            tex_id: row.tex_id,
            x: row.cursor,
            px_w: width as i32,
            px_h: #[verifier::truncate] (b.rows as i32),
            tex_h: row.height,
            bearing_x: b.left,
            bearing_y: b.top,
            advance,
            lcd,
        };
        self.rows[i].cursor = row.cursor + width + 1;
        self.cache.push(Cached { size_px, ch, info });
        proof {
            assert(self.atlas().rows =~= a.drawn(size_px, ch, b, used_lcd).rows);
            lemma_placed(a, self.atlas(), Cached { size_px, ch, info }, i as int);
        }
        Placed::At(info)
    }

    /// The width of a text in pixels; a character that was not drawn takes half its
    /// size, rounded down.
    pub fn measure(&self, text: &str, size_px: u32) -> (r: i128)
        ensures
            r == pixels_of(self.atlas(), text@, size_px),
    {
        let c = chars_of(text);
        let mut sum: i128 = 0;
        let mut i: usize = 0;
        assert(c@.take(0) =~= Seq::empty());
        while i < c.len()
            invariant
                i <= c@.len(),
                sum == pixels_of(self.atlas(), c@.take(i as int), size_px),
                -(i * 0x1_0000_0000) <= sum <= i * 0x1_0000_0000,
            decreases c@.len() - i,
        {
            assert(c@.take(i + 1).drop_last() =~= c@.take(i as int));
            sum = sum + match self.glyph(c[i], size_px) {
                Some(g) => g.advance as i128,
                None => (size_px / 2) as i128,
            };
            i += 1;
        }
        assert(c@.take(i as int) =~= c@);
        sum
    }
}

/// The width of a text in pixels.
pub open spec fn pixels_of(a: AtlasView, text: Seq<char>, size: u32) -> int
    decreases text.len(),
{
    if text.len() == 0 {
        0
    } else {
        pixels_of(a, text.drop_last(), size) + match cached(a.cache, size, text.last()) {
            Some(g) => g.advance as int,
            None => (size / 2) as int,
        }
    }
}

// ── Proofs ───────────────────────────────────────────────────────────────────

proof fn lemma_pushed(a: AtlasView, b: AtlasView, c: Cached)
    requires
        a.well_placed(),
        b == (AtlasView { cache: a.cache.push(c), ..a }),
        c.info.px_w == 0,
    ensures
        b.well_placed(),
{
    assert forall|k: int| 0 <= k < b.cache.len() implies fits_in(
        b,
        #[trigger] b.cache[k].info,
    ) by {
        if k < a.cache.len() {
            assert(fits_in(a, a.cache[k].info));
            let g = b.cache[k].info;
            if g.px_w > 0 {
                let j = fitting_row(a, g);
                assert(b.rows[j] == a.rows[j]);
            }
        }
    }
    assert forall|k: int, l: int| 0 <= k < l < b.cache.len() implies apart(
        (#[trigger] b.cache[k]).info,
        (#[trigger] b.cache[l]).info,
    ) by {
        if l < a.cache.len() {
            assert(apart(a.cache[k].info, a.cache[l].info));
        }
    }
}

proof fn lemma_row_added(a: AtlasView, b: AtlasView)
    requires
        a.well_placed(),
        b.cache == a.cache,
        b.rows.len() == a.rows.len() + 1,
        b.rows.drop_last() == a.rows,
        b.rows.last().cursor == 0,
        forall|i: int|
            0 <= i < a.rows.len() ==> (#[trigger] a.rows[i]).tex_id != b.rows.last().tex_id,
    ensures
        b.well_placed(),
{
    assert forall|i: int| 0 <= i < a.rows.len() implies #[trigger] b.rows[i] == a.rows[i] by {
        assert(b.rows.drop_last()[i] == a.rows[i]);
    }
    assert forall|k: int| 0 <= k < b.cache.len() implies fits_in(
        b,
        #[trigger] b.cache[k].info,
    ) by {
        assert(fits_in(a, a.cache[k].info));
        let g = b.cache[k].info;
        if g.px_w > 0 {
            let j = fitting_row(a, g);
            assert(b.rows[j] == a.rows[j]);
        }
    }
    assert forall|p: int, q: int| 0 <= p < q < b.rows.len() implies (#[trigger] b.rows[p]).tex_id
        != (#[trigger] b.rows[q]).tex_id by {
        assert(b.rows[p] == a.rows[p]);
        if q < a.rows.len() {
            assert(b.rows[q] == a.rows[q]);
        } else {
            assert(b.rows[q] == b.rows.last());
        }
    }
    assert forall|i: int| 0 <= i < b.rows.len() implies (#[trigger] b.rows[i]).cursor <= ATLAS_W
        + 1 by {
        if i < a.rows.len() {
            assert(b.rows[i] == a.rows[i]);
        }
    }
}

spec fn fitting_row(a: AtlasView, g: GlyphInfo) -> int {
    choose|i: int|
        0 <= i < a.rows.len() && (#[trigger] a.rows[i]).tex_id == g.tex_id && g.x + g.px_w
            < a.rows[i].cursor && g.x + g.px_w <= ATLAS_W
}

proof fn lemma_placed(a: AtlasView, b: AtlasView, c: Cached, i: int)
    requires
        a.well_placed(),
        0 <= i < a.rows.len(),
        c.info.px_w >= 0,
        c.info.tex_id == a.rows[i].tex_id,
        c.info.x == a.rows[i].cursor,
        a.rows[i].cursor + c.info.px_w <= ATLAS_W,
        b.cache == a.cache.push(c),
        b.rows == a.rows.update(
            i,
            AtlasRow { cursor: (a.rows[i].cursor + c.info.px_w + 1) as u32, ..a.rows[i] },
        ),
    ensures
        b.well_placed(),
{
    assert forall|p: int, q: int| 0 <= p < q < b.rows.len() implies (#[trigger] b.rows[p]).tex_id
        != (#[trigger] b.rows[q]).tex_id by {
        assert(a.rows[p].tex_id != a.rows[q].tex_id);
    }
    assert forall|k: int| 0 <= k < b.cache.len() implies fits_in(
        b,
        #[trigger] b.cache[k].info,
    ) by {
        let g = b.cache[k].info;
        if k < a.cache.len() {
            assert(fits_in(a, a.cache[k].info));
            if g.px_w > 0 {
                let j = fitting_row(a, g);
                assert(a.rows[j].tex_id == g.tex_id && g.x + g.px_w < a.rows[j].cursor);
                assert(b.rows[j].tex_id == g.tex_id && g.x + g.px_w < b.rows[j].cursor && g.x
                    + g.px_w <= ATLAS_W);
            }
        } else {
            assert(g == c.info);
            assert(b.rows[i].tex_id == g.tex_id && g.x + g.px_w < b.rows[i].cursor && g.x + g.px_w
                <= ATLAS_W);
        }
        assert(fits_in(b, b.cache[k].info));
    }
    assert forall|k: int, l: int| 0 <= k < l < b.cache.len() implies apart(
        (#[trigger] b.cache[k]).info,
        (#[trigger] b.cache[l]).info,
    ) by {
        let g = b.cache[k].info;
        if l < a.cache.len() {
            assert(apart(a.cache[k].info, a.cache[l].info));
        } else if g.px_w > 0 && g.tex_id == c.info.tex_id {
            assert(fits_in(a, a.cache[k].info));
            let j = fitting_row(a, g);
            if j < i {
                assert(a.rows[j].tex_id != a.rows[i].tex_id);
            } else if i < j {
                assert(a.rows[i].tex_id != a.rows[j].tex_id);
            }
        }
    }
}

/// Two characters with pixels that stand in one texture share no column.
pub proof fn law_glyphs_share_no_column(a: AtlasView, k: int, l: int, column: int)
    requires
        a.well_placed(),
        0 <= k < l < a.cache.len(),
        a.cache[k].info.px_w > 0,
        a.cache[l].info.px_w > 0,
        a.cache[k].info.tex_id == a.cache[l].info.tex_id,
        a.cache[k].info.x <= column < a.cache[k].info.x + a.cache[k].info.px_w,
    ensures
        !(a.cache[l].info.x <= column < a.cache[l].info.x + a.cache[l].info.px_w),
{
    assert(apart(a.cache[k].info, a.cache[l].info));
}

/// A character that was placed is found again.
pub proof fn law_placed_is_cached(a: AtlasView, size: u32, ch: char, b: Bitmap, used_lcd: bool)
    requires
        cached(a.cache, size, ch) is None,
    ensures
        match placement(a, size, b, used_lcd) {
            Placed::Blank(info) => cached(a.drawn(size, ch, b, used_lcd).cache, size, ch) == Some(
                info,
            ),
            Placed::At(info) => cached(a.drawn(size, ch, b, used_lcd).cache, size, ch) == Some(
                info,
            ),
            _ => a.drawn(size, ch, b, used_lcd) == a,
        },
{
    match placement(a, size, b, used_lcd) {
        Placed::Blank(info) => lemma_cached_push(a.cache, Cached { size_px: size, ch, info }),
        Placed::At(info) => lemma_cached_push(a.cache, Cached { size_px: size, ch, info }),
        _ => {},
    }
}

proof fn lemma_cached_push(cache: Seq<Cached>, c: Cached)
    requires
        cached(cache, c.size_px, c.ch) is None,
    ensures
        cached(cache.push(c), c.size_px, c.ch) == Some(c.info),
    decreases cache.len(),
{
    if cache.len() > 0 {
        assert(cache.push(c).skip(1) =~= cache.skip(1).push(c));
        lemma_cached_push(cache.skip(1), c);
    }
}

// ── Pixels ───────────────────────────────────────────────────────────────────

/// The rows of a bitmap without what stands between them: `rows` rows of `used`
/// bytes each, the next one `pitch` bytes on.
pub fn pack_rows(buf: &Vec<u8>, pitch: usize, used: usize, rows: usize) -> (r: Vec<u8>)
    requires
        used <= pitch,
        rows * pitch <= buf@.len(),
    ensures
        r@.len() == rows * used,
        forall|y: int, x: int|
            0 <= y < rows && 0 <= x < used ==> #[trigger] r@[y * used + x] == buf@[y * pitch + x],
{
    let len: usize = buf.len();
    let mut r: Vec<u8> = Vec::new();
    let mut y: usize = 0;
    assert(0 * used == 0 && 0 * pitch == 0) by (nonlinear_arith);
    while y < rows
        invariant
            y <= rows,
            used <= pitch,
            rows * pitch <= len,
            len == buf@.len(),
            r@.len() == y * used,
            forall|v: int, x: int|
                0 <= v < y && 0 <= x < used ==> #[trigger] r@[v * used + x] == buf@[v * pitch + x],
        decreases rows - y,
    {
        let ghost done = r@;
        let mut x: usize = 0;
        assert(y * pitch + pitch <= rows * pitch) by (nonlinear_arith)
            requires
                y + 1 <= rows,
                0 <= pitch,
        ;
        while x < used
            invariant
                x <= used <= pitch,
                y < rows,
                y * pitch + pitch <= len,
                len == buf@.len(),
                done.len() == y * used,
                r@.len() == y * used + x,
                forall|k: int| 0 <= k < done.len() ==> #[trigger] r@[k] == done[k],
                forall|c: int| 0 <= c < x ==> #[trigger] r@[y * used + c] == buf@[y * pitch + c],
            decreases used - x,
        {
            let b: u8 = buf[y * pitch + x];
            r.push(b);
            x += 1;
        }
        assert((y + 1) * used == y * used + used) by (nonlinear_arith);
        assert forall|v: int, c: int| 0 <= v < y + 1 && 0 <= c < used implies #[trigger] r@[v * used
            + c] == buf@[v * pitch + c] by {
            if v < y {
                assert(0 <= v * used + c < y * used) by (nonlinear_arith)
                    requires
                        0 <= v,
                        v + 1 <= y,
                        0 <= c < used,
                ;
                assert(r@[v * used + c] == done[v * used + c]);
            }
        }
        y += 1;
    }
    r
}

} // verus!
