//! The bar that shows the state of the desktop.

use vstd::prelude::*;

use crate::desk::windows::{Desk, DeskView, SpaceView};
use crate::integer::{decimal, push_decimal};
use crate::render::atlas::{cached, AtlasView, FontAtlas, GlyphInfo};
use crate::text::{chars_of, string_of};

verus! {

/// The measures of the bar.
#[derive(Debug, Clone, Copy, PartialEq, Eq, Structural)]
pub struct BarConfig {
    /// In pixels.
    pub height: u32,
    /// In pixels.
    pub font_size: u32,
    /// The room beside a part, in halves of a pixel.
    pub pad_x: u32,
    /// The least width of the mark of a workspace, in halves of a pixel.
    pub tag_min_w: u32,
}

impl Default for BarConfig {
    fn default() -> (r: Self)
        ensures
            r == (BarConfig { height: 28, font_size: 13, pad_x: 20, tag_min_w: 48 }),
    {
        BarConfig { height: 28, font_size: 13, pad_x: 20, tag_min_w: 48 }
    }
}

/// A color of the bar.
#[derive(Debug, Clone, Copy, PartialEq, Eq, Structural)]
pub enum Shade {
    Base,
    Mantle,
    Surface0,
    Surface1,
    Overlay0,
    Text,
    Subtext1,
    Lavender,
    Mauve,
    Clear,
    /// From green to red with the memory that is used.
    Memory { used_mb: u64, total_mb: u64 },
    /// From green to red with the load of the processors.
    Cpu,
}

/// A part of the bar. Lengths across are in parts of 4 of a pixel, those down
/// in pixels.
#[derive(Debug)]
pub enum BarOp {
    Fill { x: i128, y: i128, w: i128, h: i128, shade: Shade },
    /// A text in the middle of the height of the bar.
    Text { x: i128, text: String, shade: Shade },
}

/// What a [`BarOp`] holds.
pub enum OpView {
    Fill { x: int, y: int, w: int, h: int, shade: Shade },
    Text { x: int, text: Seq<char>, shade: Shade },
}

impl View for BarOp {
    type V = OpView;

    open spec fn view(&self) -> OpView {
        match *self {
            BarOp::Fill { x, y, w, h, shade } => OpView::Fill {
                x: x as int,
                y: y as int,
                w: w as int,
                h: h as int,
                shade,
            },
            BarOp::Text { x, text, shade } => OpView::Text { x: x as int, text: text@, shade },
        }
    }
}

pub open spec fn ops_view(v: Seq<BarOp>) -> Seq<OpView> {
    Seq::new(v.len(), |i: int| v[i]@)
}

/// What the bar shows besides the desktop.
#[derive(Debug)]
pub struct Readings {
    pub time: String,
    pub mem_used_mb: u64,
    pub mem_total_mb: u64,
    /// The load of the processors, such as `12%`.
    pub cpu: String,
}

// ── Model ────────────────────────────────────────────────────────────────────

/// The width of a character of the bar in parts of 4 of a pixel; half its size
/// where it was not drawn.
pub open spec fn char_width_of(a: AtlasView, ch: char, size: u32) -> int {
    match cached(a.cache, size, ch) {
        Some(g) => g.advance * 4,
        None => size * 2,
    }
}

/// The width of a text of the bar in parts of 4 of a pixel.
pub open spec fn width_of(a: AtlasView, text: Seq<char>, size: u32) -> int
    decreases text.len(),
{
    if text.len() == 0 {
        0
    } else {
        width_of(a, text.drop_last(), size) + char_width_of(a, text.last(), size)
    }
}

/// A line between two parts.
pub open spec fn separator(cfg: BarConfig, x: int) -> OpView {
    OpView::Fill { x, y: 3, w: 4, h: cfg.height - 6, shade: Shade::Surface1 }
}

/// The width of the mark of a workspace.
pub open spec fn pill_width(cfg: BarConfig, a: AtlasView, label: Seq<char>) -> int {
    let w = width_of(a, label, cfg.font_size);
    let least = 2 * cfg.tag_min_w - 4 * cfg.pad_x;
    (if w > least {
        w
    } else {
        least
    }) + 4 * cfg.pad_x
}

/// The mark of the workspace `i` at `x`, and where the next one is.
pub open spec fn pill(cfg: BarConfig, a: AtlasView, s: SpaceView, i: int, shown: int, x: int) -> (
    Seq<OpView>,
    int,
) {
    let label = decimal((i + 1) as nat);
    let w = pill_width(cfg, a, label);
    let active = i == shown;
    let occupied = s.windows.len() > 0;
    let ground = OpView::Fill {
        x,
        y: 2,
        w,
        h: cfg.height - 4,
        shade: if active {
            Shade::Mauve
        } else if occupied {
            Shade::Surface0
        } else {
            Shade::Clear
        },
    };
    let text = OpView::Text {
        x: x + 2 * cfg.pad_x,
        text: label,
        shade: if active {
            Shade::Base
        } else if occupied {
            Shade::Text
        } else {
            Shade::Overlay0
        },
    };
    let marks = if !active && occupied {
        seq![
            ground,
            text,
            OpView::Fill {
                x: x + w / 2 - 8,
                y: cfg.height - 4,
                w: 16,
                h: 2,
                shade: Shade::Lavender,
            },
        ]
    } else {
        seq![ground, text]
    };
    (marks, x + w + 8)
}

/// The marks of the first `n` workspaces from `x` on.
pub open spec fn pills(cfg: BarConfig, a: AtlasView, d: DeskView, n: int, shown: int, x: int) -> (
    Seq<OpView>,
    int,
)
    decreases n,
{
    if n <= 0 {
        (Seq::empty(), x)
    } else {
        let (ops, at) = pills(cfg, a, d, n - 1, shown, x);
        let (more, next) = pill(cfg, a, d.spaces[n - 1], n - 1, shown, at);
        (ops + more, next)
    }
}

/// A text that ends at `x`, behind its label, and a line before it; and where
/// the next one ends.
pub open spec fn reading(
    cfg: BarConfig,
    a: AtlasView,
    x: int,
    text: Seq<char>,
    shade: Shade,
    label: Seq<char>,
) -> (Seq<OpView>, int) {
    let x1 = x - width_of(a, text, cfg.font_size);
    let x2 = x1 - width_of(a, label, cfg.font_size);
    let x3 = x2 - 2 * cfg.pad_x;
    (
        seq![
            OpView::Text { x: x1, text, shade },
            OpView::Text { x: x2, text: label, shade: Shade::Subtext1 },
            separator(cfg, x3),
        ],
        x3 - 2 * cfg.pad_x,
    )
}

/// The number of characters of `title` that leave room for an ellipsis, from
/// `i` on, where those before it take `taken`.
pub open spec fn kept(
    cfg: BarConfig,
    a: AtlasView,
    title: Seq<char>,
    i: int,
    taken: int,
    room: int,
) -> int
    decreases title.len() - i,
{
    if i >= title.len() {
        i
    } else {
        let w = char_width_of(a, title[i], cfg.font_size);
        if taken + w + width_of(a, seq!['…'], cfg.font_size) > room {
            i
        } else {
            kept(cfg, a, title, i + 1, taken + w, room)
        }
    }
}

/// The title in the middle of what is left between `left` and `right`, cut off
/// where it is too long.
pub open spec fn title_ops(
    cfg: BarConfig,
    a: AtlasView,
    title: Seq<char>,
    left: int,
    right: int,
) -> Seq<OpView> {
    let room = if right > left {
        right - left
    } else {
        0
    };
    let w = width_of(a, title, cfg.font_size);
    if title.len() == 0 {
        Seq::empty()
    } else if w <= room {
        seq![OpView::Text { x: left + (room - w) / 2, text: title, shade: Shade::Text }]
    } else {
        let cut = title.take(kept(cfg, a, title, 0, 0, room)).push('…');
        seq![
            OpView::Text {
                x: left + (room - width_of(a, cut, cfg.font_size)) / 2,
                text: cut,
                shade: Shade::Text,
            },
        ]
    }
}

/// What the memory reads.
pub open spec fn memory_text(used: u64, total: u64) -> Seq<char> {
    decimal(used as nat) + "M/"@ + decimal(total as nat) + "M"@
}

/// The title of the window with the focus.
pub open spec fn focused_title(d: DeskView) -> Seq<char> {
    if d.focus() is Some && d.window(d.focus()->0) is Some {
        d.window(d.focus()->0)->0.title
    } else {
        Seq::empty()
    }
}

/// The readings from `right` to the left, and where they end.
pub open spec fn readings_ops(
    cfg: BarConfig,
    a: AtlasView,
    time: Seq<char>,
    used: u64,
    total: u64,
    cpu: Seq<char>,
    right: int,
) -> (Seq<OpView>, int) {
    let x1 = right - width_of(a, time, cfg.font_size);
    let x2 = x1 - 2 * cfg.pad_x;
    let clock = seq![
        OpView::Text { x: x1, text: time, shade: Shade::Lavender },
        separator(cfg, x2),
    ];
    let x3 = x2 - 2 * cfg.pad_x;
    let (memory, x4) = if total > 0 {
        reading(
            cfg,
            a,
            x3,
            memory_text(used, total),
            Shade::Memory { used_mb: used, total_mb: total },
            "MEM "@,
        )
    } else {
        (Seq::empty(), x3)
    };
    let (load, x5) = reading(cfg, a, x4, cpu, Shade::Cpu, "CPU "@);
    (clock + memory + load, x5)
}

/// The bar of a screen of the width `out_w` that shows the workspace `shown`.
pub open spec fn bar_ops(
    cfg: BarConfig,
    a: AtlasView,
    d: DeskView,
    shown: int,
    out_w: u32,
    time: Seq<char>,
    used: u64,
    total: u64,
    cpu: Seq<char>,
) -> Seq<OpView> {
    let ground = OpView::Fill {
        x: 0,
        y: 0,
        w: 4 * out_w,
        h: cfg.height as int,
        shade: Shade::Mantle,
    };
    let (marks, x) = pills(cfg, a, d, d.spaces.len() as int, shown, cfg.pad_x as int);
    let left = x + 48;
    let (readings, right) = readings_ops(
        cfg,
        a,
        time,
        used,
        total,
        cpu,
        4 * out_w - cfg.pad_x as int,
    );
    let line = OpView::Fill {
        x: 0,
        y: cfg.height - 1,
        w: 4 * out_w,
        h: 1,
        shade: Shade::Surface0,
    };
    seq![ground] + marks + seq![separator(cfg, x + 16)] + readings + title_ops(
        cfg,
        a,
        focused_title(d),
        left,
        right,
    ) + seq![line]
}

// ── Drawing ──────────────────────────────────────────────────────────────────

fn push_separator(ops: &mut Vec<BarOp>, cfg: BarConfig, x: i128)
    ensures
        ops_view(final(ops)@) == ops_view(old(ops)@).push(separator(cfg, x as int)),
{
    ops.push(
        BarOp::Fill { x, y: 3, w: 4, h: cfg.height as i128 - 6, shade: Shade::Surface1 },
    );
    assert(ops_view(ops@) =~= ops_view(old(ops)@).push(separator(cfg, x as int)));
}

fn push_text(ops: &mut Vec<BarOp>, x: i128, text: &str, shade: Shade)
    ensures
        ops_view(final(ops)@) == ops_view(old(ops)@).push(
            OpView::Text { x: x as int, text: text@, shade },
        ),
{
    ops.push(BarOp::Text { x, text: text.to_owned(), shade });
    assert(ops_view(ops@) =~= ops_view(old(ops)@).push(
        OpView::Text { x: x as int, text: text@, shade },
    ));
}

/// How long a number can be.
proof fn lemma_short_number(n: nat)
    requires
        n <= u64::MAX,
    ensures
        decimal(n).len() <= 20,
{
    lemma_number_length(n, 20);
}

spec fn power_of_ten(k: nat) -> nat
    decreases k,
{
    if k == 0 {
        1
    } else {
        10 * power_of_ten((k - 1) as nat)
    }
}

proof fn lemma_number_length(n: nat, k: nat)
    requires
        k > 0,
        n < power_of_ten(k) || (k == 20 && n <= u64::MAX),
    ensures
        decimal(n).len() <= k,
    decreases k,
{
    if n >= 10 {
        assert(power_of_ten(20) > u64::MAX) by {
            reveal_with_fuel(power_of_ten, 21);
        }
        if k == 1 {
            assert(power_of_ten(1) == 10) by {
                reveal_with_fuel(power_of_ten, 2);
            }
        } else {
            assert(power_of_ten(k) == 10 * power_of_ten((k - 1) as nat));
            lemma_number_length(n / 10, (k - 1) as nat);
        }
    }
}

fn push_pill(
    ops: &mut Vec<BarOp>,
    cfg: BarConfig,
    atlas: &FontAtlas,
    desk: &Desk,
    i: usize,
    shown: usize,
    x: i128,
) -> (r: i128)
    requires
        i < desk.spaces@.len(),
        i < usize::MAX,
        -0x1_0000_0000_0000 * (i + 1) <= x <= 0x1_0000_0000_0000 * (i + 1),
    ensures
        ({
            let (more, next) = pill(
                cfg,
                atlas.atlas(),
                desk@.spaces[i as int],
                i as int,
                shown as int,
                x as int,
            );
            ops_view(final(ops)@) == ops_view(old(ops)@) + more && r == next
        }),
        -0x1_0000_0000_0000 * (i + 2) <= r <= 0x1_0000_0000_0000 * (i + 2),
{
    assert(desk@.spaces[i as int] == desk.spaces@[i as int]@);
    let mut label = String::new();
    push_decimal(&mut label, i as u64 + 1);
    assert(label@ =~= decimal((i + 1) as nat));
    proof {
        lemma_short_number((i + 1) as nat);
    }
    let text_w: i128 = measure(atlas, label.as_str(), cfg.font_size);
    let least: i128 = 2 * cfg.tag_min_w as i128 - 4 * cfg.pad_x as i128;
    let w: i128 = (if text_w > least {
        text_w
    } else {
        least
    }) + 4 * cfg.pad_x as i128;
    let active = i == shown;
    let occupied = desk.spaces[i].windows.len() > 0;
    ops.push(
        BarOp::Fill {
            x,
            y: 2,
            w,
            h: cfg.height as i128 - 4,
            shade: if active {
                Shade::Mauve
            } else if occupied {
                Shade::Surface0
            } else {
                Shade::Clear
            },
        },
    );
    ops.push(
        BarOp::Text {
            x: x + 2 * cfg.pad_x as i128,
            text: label,
            shade: if active {
                Shade::Base
            } else if occupied {
                Shade::Text
            } else {
                Shade::Overlay0
            },
        },
    );
    if !active && occupied {
        let half: i128 = half_of(w);
        ops.push(
            BarOp::Fill {
                x: x + half - 8,
                y: cfg.height as i128 - 4,
                w: 16,
                h: 2,
                shade: Shade::Lavender,
            },
        );
    }
    proof {
        let (more, next) = pill(
            cfg,
            atlas.atlas(),
            desk@.spaces[i as int],
            i as int,
            shown as int,
            x as int,
        );
        assert(ops_view(ops@) =~= ops_view(old(ops)@) + more);
    }
    x + w + 8
}

/// Half of `n`, rounded down.
fn half_of(n: i128) -> (r: i128)
    requires
        n > i128::MIN + 1,
    ensures
        r == n as int / 2,
{
    if n >= 0 {
        n / 2
    } else {
        -((1 - n) / 2)
    }
}

fn push_reading(
    ops: &mut Vec<BarOp>,
    cfg: BarConfig,
    atlas: &FontAtlas,
    x: i128,
    text: &str,
    shade: Shade,
    label: &str,
) -> (r: i128)
    requires
        -0x4_0000_0000_0000_0000_0000_0000_0000 <= x <= 0x4_0000_0000_0000_0000_0000_0000_0000,
        text@.len() <= u64::MAX,
        label@.len() <= u64::MAX,
    ensures
        ({
            let (more, next) = reading(cfg, atlas.atlas(), x as int, text@, shade, label@);
            ops_view(final(ops)@) == ops_view(old(ops)@) + more && r == next
        }),
        r >= x - (text@.len() + label@.len() + 8) * 0x4_0000_0000,
        r <= x + (text@.len() + label@.len() + 8) * 0x4_0000_0000,
{
    let x1: i128 = x - measure(atlas, text, cfg.font_size);
    push_text(ops, x1, text, shade);
    let x2: i128 = x1 - measure(atlas, label, cfg.font_size);
    push_text(ops, x2, label, Shade::Subtext1);
    let x3: i128 = x2 - 2 * cfg.pad_x as i128;
    push_separator(ops, cfg, x3);
    proof {
        let (more, next) = reading(cfg, atlas.atlas(), x as int, text@, shade, label@);
        assert(ops_view(ops@) =~= ops_view(old(ops)@) + more);
    }
    x3 - 2 * cfg.pad_x as i128
}

fn push_title(
    ops: &mut Vec<BarOp>,
    cfg: BarConfig,
    atlas: &FontAtlas,
    title: &str,
    left: i128,
    right: i128,
)
    requires
        -0x8_0000_0000_0000_0000_0000_0000_0000 <= left
            <= 0x8_0000_0000_0000_0000_0000_0000_0000,
        -0x8_0000_0000_0000_0000_0000_0000_0000 <= right
            <= 0x8_0000_0000_0000_0000_0000_0000_0000,
        title@.len() <= u64::MAX,
    ensures
        ops_view(final(ops)@) == ops_view(old(ops)@) + title_ops(
            cfg,
            atlas.atlas(),
            title@,
            left as int,
            right as int,
        ),
{
    let c = chars_of(title);
    if c.len() == 0 {
        assert(ops_view(ops@) =~= ops_view(ops@) + Seq::<OpView>::empty());
        return ;
    }
    let room: i128 = if right > left {
        right - left
    } else {
        0
    };
    let w: i128 = measure(atlas, title, cfg.font_size);
    if w <= room {
        push_text(ops, left + half_of(room - w), title, Shade::Text);
        assert(ops_view(ops@) =~= ops_view(old(ops)@) + title_ops(
            cfg,
            atlas.atlas(),
            title@,
            left as int,
            right as int,
        ));
        return ;
    }
    let ellipsis: i128 = ellipsis_width(atlas, cfg);
    let mut taken: i128 = 0;
    let mut i: usize = 0;
    let ghost all = kept(cfg, atlas.atlas(), title@, 0, 0, room as int);
    while i < c.len()
        invariant_except_break
            kept(cfg, atlas.atlas(), title@, i as int, taken as int, room as int) == all,
        invariant
            i <= c@.len(),
            c@ == title@,
            c@.len() <= u64::MAX,
            ellipsis == width_of(atlas.atlas(), seq!['…'], cfg.font_size),
            -0x4_0000_0000 <= ellipsis <= 0x4_0000_0000,
            -(i * 0x4_0000_0000) <= taken <= i * 0x4_0000_0000,
            all == kept(cfg, atlas.atlas(), title@, 0, 0, room as int),
        ensures
            i == all,
        decreases c@.len() - i,
    {
        let cw: i128 = char_width(atlas, c[i], cfg.font_size);
        if taken + cw + ellipsis > room {
            break ;
        }
        taken = taken + cw;
        i += 1;
    }
    let mut cut: Vec<char> = Vec::new();
    let mut k: usize = 0;
    assert(c@.take(0) =~= cut@);
    while k < i
        invariant
            k <= i <= c@.len(),
            cut@ == c@.take(k as int),
        decreases i - k,
    {
        cut.push(c[k]);
        k += 1;
        assert(cut@ =~= c@.take(k as int));
    }
    cut.push('…');
    let text = string_of(cut.as_slice());
    let tw: i128 = measure(atlas, text.as_str(), cfg.font_size);
    push_text(ops, left + half_of(room - tw), text.as_str(), Shade::Text);
    assert(ops_view(ops@) =~= ops_view(old(ops)@) + title_ops(
        cfg,
        atlas.atlas(),
        title@,
        left as int,
        right as int,
    ));
}

fn ellipsis_width(atlas: &FontAtlas, cfg: BarConfig) -> (r: i128)
    ensures
        r == width_of(atlas.atlas(), seq!['…'], cfg.font_size),
        -0x4_0000_0000 <= r <= 0x4_0000_0000,
{
    proof {
        let s = seq!['…'];
        assert(s.drop_last() =~= Seq::<char>::empty());
        reveal_with_fuel(width_of, 2);
    }
    char_width(atlas, '…', cfg.font_size)
}

fn char_width(atlas: &FontAtlas, ch: char, size_px: u32) -> (r: i128)
    ensures
        r == char_width_of(atlas.atlas(), ch, size_px),
        -0x4_0000_0000 <= r <= 0x4_0000_0000,
{
    match atlas.glyph(ch, size_px) {
        Some(g) => g.advance as i128 * 4,
        None => size_px as i128 * 2,
    }
}

/// The width of a text of the bar in parts of 4 of a pixel; a character that was
/// not drawn takes half its size.
pub fn measure(atlas: &FontAtlas, text: &str, size_px: u32) -> (r: i128)
    ensures
        r == width_of(atlas.atlas(), text@, size_px),
        -(text@.len() * 0x4_0000_0000) <= r <= text@.len() * 0x4_0000_0000,
{
    let c = chars_of(text);
    let mut sum: i128 = 0;
    let mut i: usize = 0;
    assert(c@.take(0) =~= Seq::empty());
    while i < c.len()
        invariant
            i <= c@.len(),
            sum == width_of(atlas.atlas(), c@.take(i as int), size_px),
            -(i * 0x4_0000_0000) <= sum <= i * 0x4_0000_0000,
        decreases c@.len() - i,
    {
        let w: i128 = char_width(atlas, c[i], size_px);
        sum = sum + w;
        i += 1;
        assert(c@.take(i as int).drop_last() =~= c@.take(i - 1));
    }
    assert(c@.take(i as int) =~= c@);
    sum
}

/// The bar of a screen.
#[derive(Debug, Clone, Copy, PartialEq, Eq, Structural)]
pub struct BarState {
    pub cfg: BarConfig,
}

impl BarState {
    pub fn new(cfg: BarConfig) -> (r: Self)
        ensures
            r.cfg == cfg,
    {
        BarState { cfg }
    }

    /// What the bar of a screen of the width `out_w` holds when the screen shows
    /// the workspace `shown`. Characters that `atlas` lacks take half their size.
    pub fn draw(
        &self,
        atlas: &FontAtlas,
        desk: &Desk,
        shown: usize,
        out_w: u32,
        now: &Readings,
    ) -> (r: Vec<BarOp>)
        ensures
            ops_view(r@) == bar_ops(
                self.cfg,
                atlas.atlas(),
                desk@,
                shown as int,
                out_w,
                now.time@,
                now.mem_used_mb,
                now.mem_total_mb,
                now.cpu@,
            ),
    {
        let cfg = self.cfg;
        let ghost a = atlas.atlas();
        let mut ops: Vec<BarOp> = Vec::new();
        ops.push(
            BarOp::Fill {
                x: 0,
                y: 0,
                w: 4 * out_w as i128,
                h: cfg.height as i128,
                shade: Shade::Mantle,
            },
        );
        let ghost ground = ops_view(ops@);
        let n: usize = desk.spaces.len();
        let mut x: i128 = cfg.pad_x as i128;
        let mut i: usize = 0;
        let ghost start = x as int;
        assert(ground + Seq::<OpView>::empty() =~= ground);
        while i < n
            invariant
                i <= n,
                n == desk.spaces@.len(),
                a == atlas.atlas(),
                cfg == self.cfg,
                (ops_view(ops@), x as int) == ({
                    let p = pills(cfg, a, desk@, i as int, shown as int, start);
                    (ground + p.0, p.1)
                }),
                -0x1_0000_0000_0000 * (i + 1) <= x <= 0x1_0000_0000_0000 * (i + 1),
            decreases n - i,
        {
            let ghost before = ops_view(ops@);
            let ghost p = pills(cfg, a, desk@, i as int, shown as int, start);
            let ghost q = pill(cfg, a, desk@.spaces[i as int], i as int, shown as int, p.1);
            x = push_pill(&mut ops, cfg, atlas, desk, i, shown, x);
            i += 1;
            assert(ops_view(ops@) =~= ground + (p.0 + q.0));
        }
        let ghost marks = pills(cfg, a, desk@, n as int, shown as int, start);
        push_separator(&mut ops, cfg, x + 16);
        let left: i128 = x + 48;
        let time_len: usize = now.time.as_str().as_bytes().len();
        let cpu_len: usize = now.cpu.as_str().as_bytes().len();
        proof {
            lemma_text_fits(now.time@);
            lemma_text_fits(now.cpu@);
            lemma_short_number(now.mem_used_mb as nat);
            lemma_short_number(now.mem_total_mb as nat);
            reveal_strlit("M/");
            reveal_strlit("M");
            reveal_strlit("MEM ");
            reveal_strlit("CPU ");
        }
        let right: i128 = 4 * out_w as i128 - cfg.pad_x as i128;
        let ghost right0 = right as int;
        let ghost head = ops_view(ops@);
        let x1: i128 = right - measure(atlas, now.time.as_str(), cfg.font_size);
        push_text(&mut ops, x1, now.time.as_str(), Shade::Lavender);
        let x2: i128 = x1 - 2 * cfg.pad_x as i128;
        push_separator(&mut ops, cfg, x2);
        let mut rx: i128 = x2 - 2 * cfg.pad_x as i128;
        if now.mem_total_mb > 0 {
            let mut text = String::new();
            push_decimal(&mut text, now.mem_used_mb);
            text.append("M/");
            push_decimal(&mut text, now.mem_total_mb);
            text.append("M");
            assert(text@ =~= memory_text(now.mem_used_mb, now.mem_total_mb));
            rx = push_reading(
                &mut ops,
                cfg,
                atlas,
                rx,
                text.as_str(),
                Shade::Memory { used_mb: now.mem_used_mb, total_mb: now.mem_total_mb },
                "MEM ",
            );
        }
        rx = push_reading(&mut ops, cfg, atlas, rx, now.cpu.as_str(), Shade::Cpu, "CPU ");
        let ghost readings = readings_ops(
            cfg,
            a,
            now.time@,
            now.mem_used_mb,
            now.mem_total_mb,
            now.cpu@,
            right0,
        );
        assert(ops_view(ops@) =~= head + readings.0);
        assert(rx == readings.1);
        let title = match desk.focused_window() {
            Some(id) => match desk.find(id) {
                Some(k) => desk.windows[k].title.as_str().to_owned(),
                None => String::new(),
            },
            None => String::new(),
        };
        assert(title@ =~= focused_title(desk@));
        let title_len: usize = title.as_str().as_bytes().len();
        proof {
            lemma_text_fits(title@);
        }
        let ghost before_title = ops_view(ops@);
        push_title(&mut ops, cfg, atlas, title.as_str(), left, rx);
        let ghost with_title = ops_view(ops@);
        ops.push(
            BarOp::Fill {
                x: 0,
                y: cfg.height as i128 - 1,
                w: 4 * out_w as i128,
                h: 1,
                shade: Shade::Surface0,
            },
        );
        proof {
            let line = OpView::Fill {
                x: 0,
                y: cfg.height - 1,
                w: 4 * out_w,
                h: 1,
                shade: Shade::Surface0,
            };
            assert(ground =~= seq![
                OpView::Fill {
                    x: 0,
                    y: 0,
                    w: 4 * out_w,
                    h: cfg.height as int,
                    shade: Shade::Mantle,
                },
            ]);
            assert(desk@.spaces.len() == n);
            assert(head =~= ground + marks.0 + seq![separator(cfg, marks.1 + 16)]);
            let shown_title = title_ops(cfg, a, focused_title(desk@), marks.1 + 48, readings.1);
            assert(with_title == before_title + shown_title);
            assert(ops_view(ops@) =~= with_title.push(line));
            assert(ops_view(ops@) =~= ground + marks.0 + seq![separator(cfg, marks.1 + 16)]
                + readings.0 + shown_title + seq![line]);
        }
        ops
    }
}

proof fn lemma_text_fits(s: Seq<char>)
    requires
        vstd::utf8::encode_utf8(s).len() <= usize::MAX,
    ensures
        s.len() <= u64::MAX,
{
    crate::text::lemma_byte_len_is_utf8(s);
    lemma_chars_take_bytes(s);
}

proof fn lemma_chars_take_bytes(s: Seq<char>)
    ensures
        s.len() <= crate::text::byte_len(s),
    decreases s.len(),
{
    if s.len() > 0 {
        lemma_chars_take_bytes(s.drop_last());
    }
}

// ── Laws ─────────────────────────────────────────────────────────────────────

proof fn lemma_kept(
    cfg: BarConfig,
    a: AtlasView,
    title: Seq<char>,
    i: int,
    taken: int,
    room: int,
)
    requires
        0 <= i <= title.len(),
        taken == width_of(a, title.take(i), cfg.font_size),
        taken + width_of(a, seq!['…'], cfg.font_size) <= room,
    ensures
        ({
            let k = kept(cfg, a, title, i, taken, room);
            &&& i <= k <= title.len()
            &&& width_of(a, title.take(k), cfg.font_size) + width_of(a, seq!['…'], cfg.font_size)
                <= room
        }),
    decreases title.len() - i,
{
    if i < title.len() {
        let w = char_width_of(a, title[i], cfg.font_size);
        if taken + w + width_of(a, seq!['…'], cfg.font_size) <= room {
            assert(title.take(i + 1).drop_last() =~= title.take(i));
            lemma_kept(cfg, a, title, i + 1, taken + w, room);
        }
    }
}

/// A title that is cut off takes no more room than there is, where there is room
/// for an ellipsis at all.
pub proof fn law_cut_title_fits(cfg: BarConfig, a: AtlasView, title: Seq<char>, room: int)
    requires
        width_of(a, seq!['…'], cfg.font_size) <= room,
    ensures
        width_of(
            a,
            title.take(kept(cfg, a, title, 0, 0, room)).push('…'),
            cfg.font_size,
        ) <= room,
{
    assert(title.take(0) =~= Seq::empty());
    lemma_kept(cfg, a, title, 0, 0, room);
    let cut = title.take(kept(cfg, a, title, 0, 0, room));
    assert(cut.push('…').drop_last() =~= cut);
    let dots = seq!['…'];
    assert(dots.drop_last() =~= Seq::<char>::empty());
    reveal_with_fuel(width_of, 2);
}

// ── Text ─────────────────────────────────────────────────────────────────────

/// A character at its place, in pixels.
#[derive(Debug, Clone, Copy, PartialEq, Eq, Structural)]
pub struct Glyph {
    pub info: GlyphInfo,
    pub x: i128,
    pub y: i128,
}

/// How far the text goes on after `ch`, in parts of 4 of a pixel; `space` is for
/// a space that was not drawn.
pub open spec fn step_of(a: AtlasView, ch: char, size: u32, space: u32) -> int {
    match cached(a.cache, size, ch) {
        Some(g) => g.advance * 4,
        None => if ch == ' ' {
            space as int
        } else {
            (size / 2) * 4
        },
    }
}

/// How far the text goes on after `text`.
pub open spec fn steps_of(a: AtlasView, text: Seq<char>, size: u32, space: u32) -> int
    decreases text.len(),
{
    if text.len() == 0 {
        0
    } else {
        steps_of(a, text.drop_last(), size, space) + step_of(a, text.last(), size, space)
    }
}

/// The characters of a text that starts at `x`, in parts of 4 of a pixel, and
/// stands on `base`.
pub open spec fn glyphs_of(a: AtlasView, text: Seq<char>, size: u32, space: u32, x: int, base: int) -> Seq<
    Glyph,
>
    decreases text.len(),
{
    if text.len() == 0 {
        Seq::empty()
    } else {
        let before = glyphs_of(a, text.drop_last(), size, space, x, base);
        let at = x + steps_of(a, text.drop_last(), size, space);
        match cached(a.cache, size, text.last()) {
            Some(g) => if text.last() != ' ' && g.px_w > 0 && g.px_h > 0 {
                before.push(
                    Glyph {
                        info: g,
                        x: ((at + 4 * g.bearing_x) / 4) as i128,
                        y: (base - g.bearing_y) as i128,
                    },
                )
            } else {
                before
            },
            None => before,
        }
    }
}

/// Where the text of the bar stands: capitals, which are seven tenths as high as
/// the font, are in the middle of the bar.
pub open spec fn baseline(cfg: BarConfig) -> int {
    (10 * cfg.height + 7 * cfg.font_size) / 20
}

/// The quarters of a pixel in whole pixels, rounded down.
fn whole(n: i128) -> (r: i128)
    requires
        n >= i128::MIN + 4,
    ensures
        r == n / 4,
{
    if n >= 0 {
        n / 4
    } else {
        -((3 - n) / 4)
    }
}

impl BarState {
    /// The characters of a text of the bar that starts at `x`, in parts of 4 of a
    /// pixel, and where it ends. A space that `atlas` lacks is `space` parts wide.
    pub fn text_mid(&self, atlas: &FontAtlas, x: i128, text: &str, space: u32) -> (r: (
        Vec<Glyph>,
        i128,
    ))
        requires
            -0x1_0000_0000_0000_0000_0000_0000 <= x <= 0x1_0000_0000_0000_0000_0000_0000,
        ensures
            r.0@ == glyphs_of(
                atlas.atlas(),
                text@,
                self.cfg.font_size,
                space,
                x as int,
                baseline(self.cfg),
            ),
            r.1 == x + steps_of(atlas.atlas(), text@, self.cfg.font_size, space),
    {
        let size: u32 = self.cfg.font_size;
        let ghost a = atlas.atlas();
        let base: i128 = (10 * self.cfg.height as i128 + 7 * size as i128) / 20;
        let c = chars_of(text);
        let mut glyphs: Vec<Glyph> = Vec::new();
        let mut at: i128 = x;
        let mut i: usize = 0;
        assert(c@.take(0) =~= Seq::empty());
        while i < c.len()
            invariant
                i <= c@.len(),
                a == atlas.atlas(),
                size == self.cfg.font_size,
                base == baseline(self.cfg),
                0 <= base <= 0x1_0000_0000,
                -0x1_0000_0000_0000_0000_0000_0000 <= x <= 0x1_0000_0000_0000_0000_0000_0000,
                at == x + steps_of(a, c@.take(i as int), size, space),
                x - i * 0x4_0000_0000 <= at <= x + i * 0x4_0000_0000,
                glyphs@ == glyphs_of(a, c@.take(i as int), size, space, x as int, base as int),
            decreases c@.len() - i,
        {
            let ch: char = c[i];
            assert(c@.take(i + 1).drop_last() =~= c@.take(i as int));
            assert(c@.take(i + 1).last() == ch);
            match atlas.glyph(ch, size) {
                Some(g) => {
                    if ch != ' ' && g.px_w > 0 && g.px_h > 0 {
                        let left: i128 = at + 4 * g.bearing_x as i128;
                        glyphs.push(
                            Glyph { info: g, x: whole(left), y: base - g.bearing_y as i128 },
                        );
                    }
                    at = at + g.advance as i128 * 4;
                },
                None => {
                    at = at + if ch == ' ' {
                        space as i128
                    } else {
                        (size / 2) as i128 * 4
                    };
                },
            }
            i += 1;
        }
        assert(c@.take(i as int) =~= c@);
        (glyphs, at)
    }
}

/// A text whose characters were all drawn ends as far on as it is measured.
pub proof fn law_text_is_as_wide_as_measured(a: AtlasView, text: Seq<char>, size: u32, space: u32)
    requires
        forall|i: int| 0 <= i < text.len() ==> cached(a.cache, size, #[trigger] text[i]) is Some,
    ensures
        steps_of(a, text, size, space) == width_of(a, text, size),
    decreases text.len(),
{
    if text.len() > 0 {
        assert(cached(a.cache, size, text[text.len() - 1]) is Some);
        assert forall|i: int| 0 <= i < text.drop_last().len() implies cached(
            a.cache,
            size,
            #[trigger] text.drop_last()[i],
        ) is Some by {
            assert(text.drop_last()[i] == text[i]);
        }
        law_text_is_as_wide_as_measured(a, text.drop_last(), size, space);
    }
}

} // verus!
