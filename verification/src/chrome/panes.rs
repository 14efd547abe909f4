//! The borders of panes, and their titles on them.

use vstd::prelude::*;
use vstd::slice::slice_subrange;

use crate::chrome::draw::{clear, ops_view, push_op, DrawOp, OpView};
use crate::config::color::Color;
use crate::config::settings::Colors;
use crate::integer::{decimal, push_decimal};
use crate::single::{max_of, min_of};
use crate::text::{chars_of, string_of};
use crate::twm::pane::PaneId;
use crate::twm::rect::{cap, capped, minus, Rect};
use crate::twm::state::{snaps_view, PaneSnap, SnapView};

verus! {

/// `s` in at most `max` characters, with an ellipsis where it was cut.
pub open spec fn truncated(s: Seq<char>, max: int) -> Seq<char> {
    if max == 0 {
        Seq::empty()
    } else if s.len() <= max {
        s
    } else {
        s.take(max - 1).push('…')
    }
}

pub fn truncate(s: &str, max: usize) -> (r: String)
    ensures
        r@ == truncated(s@, max as int),
{
    if max == 0 {
        let empty = String::new();
        assert(empty@ =~= Seq::<char>::empty());
        return empty;
    }
    let c = chars_of(s);
    if c.len() <= max {
        return s.to_owned();
    }
    assert(c@.subrange(0, max - 1) =~= c@.take(max - 1));
    let mut t = string_of(slice_subrange(c.as_slice(), 0, max - 1));
    t.push('…');
    t
}

/// The whole title of a pane: its title, its id, and whether it is embedded.
pub open spec fn full_title(p: SnapView) -> Seq<char> {
    " "@ + p.title + " ["@ + decimal(p.id as nat) + "] "@ + (if p.is_embedded {
        "󰖟"@
    } else {
        "◆"@
    }) + " "@
}

fn title_of(p: &PaneSnap) -> (r: String)
    ensures
        r@ == full_title(p@),
{
    let mut r = " ".to_owned();
    r.append(p.title.as_str());
    r.append(" [");
    push_decimal(&mut r, p.id as u64);
    r.append("] ");
    r.append(
        if p.is_embedded {
            "󰖟"
        } else {
            "◆"
        },
    );
    r.append(" ");
    r
}

/// The number of characters that a title has room for: the width of the pane
/// without four cells.
pub open spec fn title_room(r: Rect, cell_w: u32) -> int {
    minus(r.w as int, 4 * cell_w) / (cell_w as int)
}

/// The color of what belongs to a pane.
pub open spec fn border_color(colors: Colors, focused: bool) -> Color {
    if focused {
        colors.active_border
    } else {
        colors.inactive_border
    }
}

/// What the title of a pane draws: a notch in its upper border, and the text.
pub open spec fn title_ops(p: SnapView, focused: bool, colors: Colors, cell_w: u32, cell_h: u32) -> Seq<
    OpView,
> {
    let r = p.rect;
    let title = truncated(full_title(p), title_room(r, cell_w));
    let w = title.len() * cell_w;
    let x = r.x + 2 * cell_w;
    let cut = min_of(cell_h as int, (r.h / 2) as int);
    if title.len() == 0 || x + w > r.x + r.w {
        Seq::empty()
    } else {
        seq![
            OpView::Fill {
                rect: Rect { x: cap(x), y: r.y, w: cap(w), h: cut as u32 },
                color: colors.pane_bg,
            },
            OpView::Text {
                x: cap(x),
                y: cap(r.y + minus(cut, cell_h as int) / 2),
                text: title,
                fg: border_color(colors, focused),
                bg: clear(),
                bold: focused,
                max_w: cap(w + cell_w),
            },
        ]
    }
}

/// What a pane draws: its border, and its title unless it fills the screen. A
/// pane that is too small for its border draws nothing.
pub open spec fn pane_ops(
    p: SnapView,
    focused: bool,
    colors: Colors,
    bw: u32,
    cell_w: u32,
    cell_h: u32,
) -> Seq<OpView> {
    if p.rect.w < 2 * bw || p.rect.h < 2 * bw {
        Seq::empty()
    } else {
        seq![
            OpView::Border { rect: p.rect, color: border_color(colors, focused), width: bw },
        ] + (if !p.fullscreen && cell_w > 0 && cell_h > 0 {
            title_ops(p, focused, colors, cell_w, cell_h)
        } else {
            Seq::empty()
        })
    }
}

fn draw_title_on_border(
    out: &mut Vec<DrawOp>,
    p: &PaneSnap,
    focused: bool,
    colors: &Colors,
    cell_w: u32,
    cell_h: u32,
)
    requires
        cell_w > 0,
    ensures
        ops_view(final(out)@) == ops_view(old(out)@) + title_ops(
            p@,
            focused,
            *colors,
            cell_w,
            cell_h,
        ),
{
    let r = p.rect;
    let four: u64 = 4 * cell_w as u64;
    let room: u64 = if r.w as u64 >= four {
        (r.w as u64 - four) / cell_w as u64
    } else {
        0
    };
    assert(room <= u32::MAX) by (nonlinear_arith)
        requires
            room == 0 || room == (r.w - four) / cell_w as int,
            four <= r.w || room == 0,
            cell_w > 0,
            r.w <= 0xFFFF_FFFF,
            four >= 0,
    ;
    assert(room == title_room(r, cell_w));
    let title = truncate(title_of(p).as_str(), room as usize);
    let n: usize = chars_of(title.as_str()).len();
    if n == 0 {
        assert(ops_view(out@) =~= ops_view(old(out)@) + Seq::<OpView>::empty());
        return;
    }
    assert(0 <= n * cell_w <= 0xFFFF_FFFF_FFFF_FFFF * 0xFFFF_FFFF) by (nonlinear_arith)
        requires
            0 <= n <= 0xFFFF_FFFF_FFFF_FFFF,
            0 <= cell_w <= 0xFFFF_FFFF,
    ;
    let w: u128 = n as u128 * cell_w as u128;
    let x: u128 = r.x as u128 + 2 * cell_w as u128;
    if x + w > r.x as u128 + r.w as u128 {
        assert(ops_view(out@) =~= ops_view(old(out)@) + Seq::<OpView>::empty());
        return;
    }
    let cut: u32 = if cell_h <= r.h / 2 {
        cell_h
    } else {
        r.h / 2
    };
    push_op(
        out,
        DrawOp::Fill { rect: Rect::new(capped(x), r.y, capped(w), cut), color: colors.pane_bg },
    );
    push_op(
        out,
        DrawOp::Text {
            x: capped(x),
            y: capped(r.y as u128 + (cut.saturating_sub(cell_h) / 2) as u128),
            text: title,
            fg: if focused {
                colors.active_border
            } else {
                colors.inactive_border
            },
            bg: Color::rgba(0, 0, 0, 0),
            bold: focused,
            max_w: capped(w + cell_w as u128),
        },
    );
    assert(ops_view(out@) =~= ops_view(old(out)@) + title_ops(
        p@,
        focused,
        *colors,
        cell_w,
        cell_h,
    ));
}

fn draw_pane(
    out: &mut Vec<DrawOp>,
    p: &PaneSnap,
    focused: bool,
    colors: &Colors,
    bw: u32,
    cell_w: u32,
    cell_h: u32,
)
    requires
        bw <= 2,
    ensures
        ops_view(final(out)@) == ops_view(old(out)@) + pane_ops(
            p@,
            focused,
            *colors,
            bw,
            cell_w,
            cell_h,
        ),
{
    let r = p.rect;
    if r.w < bw * 2 || r.h < bw * 2 {
        assert(ops_view(out@) =~= ops_view(old(out)@) + Seq::<OpView>::empty());
        return;
    }
    let color = if focused {
        colors.active_border
    } else {
        colors.inactive_border
    };
    push_op(out, DrawOp::Border { rect: r, color, width: bw });
    if !p.fullscreen && cell_w > 0 && cell_h > 0 {
        draw_title_on_border(out, p, focused, colors, cell_w, cell_h);
    }
    assert(ops_view(out@) =~= ops_view(old(out)@) + pane_ops(
        p@,
        focused,
        *colors,
        bw,
        cell_w,
        cell_h,
    ));
}

/// The width of the border that is drawn: one or two pixels.
pub open spec fn drawn_width(border_w: u32) -> u32 {
    min_of(max_of(border_w as int, 1), 2) as u32
}

/// What the first `n` panes draw.
pub open spec fn panes_ops(
    panes: Seq<SnapView>,
    n: int,
    focused: Option<PaneId>,
    colors: Colors,
    border_w: u32,
    cell_w: u32,
    cell_h: u32,
) -> Seq<OpView>
    decreases n,
{
    if n <= 0 {
        Seq::empty()
    } else {
        let p = panes[n - 1];
        panes_ops(panes, n - 1, focused, colors, border_w, cell_w, cell_h) + pane_ops(
            p,
            Some(p.id) == focused,
            colors,
            drawn_width(border_w),
            cell_w,
            cell_h,
        )
    }
}

/// Draws the borders and titles of the panes of a workspace.
pub fn draw_workspace_panes(
    panes: &Vec<PaneSnap>,
    focused: Option<PaneId>,
    colors: &Colors,
    border_w: u32,
    cell_w: u32,
    cell_h: u32,
) -> (out: Vec<DrawOp>)
    ensures
        ops_view(out@) == panes_ops(
            snaps_view(panes@),
            panes@.len() as int,
            focused,
            *colors,
            border_w,
            cell_w,
            cell_h,
        ),
{
    let bw: u32 = if border_w <= 1 {
        1
    } else {
        2
    };
    let mut out: Vec<DrawOp> = Vec::new();
    let mut i: usize = 0;
    assert(ops_view(out@) =~= Seq::<OpView>::empty());
    while i < panes.len()
        invariant
            i <= panes@.len(),
            bw == drawn_width(border_w),
            ops_view(out@) == panes_ops(
                snaps_view(panes@),
                i as int,
                focused,
                *colors,
                border_w,
                cell_w,
                cell_h,
            ),
        decreases panes@.len() - i,
    {
        let p = &panes[i];
        assert(snaps_view(panes@)[i as int] == p@);
        let is_focused = match focused {
            Some(id) => id == p.id,
            None => false,
        };
        draw_pane(&mut out, p, is_focused, colors, bw, cell_w, cell_h);
        i += 1;
    }
    out
}

/// A title never has more characters than the pane has room for, and ends
/// before the right edge of the pane.
pub proof fn law_title_fits(p: SnapView, focused: bool, colors: Colors, cell_w: u32, cell_h: u32, i: int)
    requires
        cell_w > 0,
        0 <= i < title_ops(p, focused, colors, cell_w, cell_h).len(),
    ensures
        title_ops(p, focused, colors, cell_w, cell_h)[i] matches OpView::Text { x, text, .. } ==> {
            &&& text.len() <= title_room(p.rect, cell_w)
            &&& p.rect.x + 2 * cell_w + text.len() * cell_w <= p.rect.x + p.rect.w
        },
{
    let r = p.rect;
    assert(title_room(r, cell_w) >= 0) by (nonlinear_arith)
        requires
            cell_w > 0,
            title_room(r, cell_w) == minus(r.w as int, 4 * cell_w) / (cell_w as int),
            minus(r.w as int, 4 * cell_w) >= 0,
    ;
}

} // verus!
