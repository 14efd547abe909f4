//! Drawing operations.

use vstd::prelude::*;

use crate::config::color::Color;
use crate::twm::rect::Rect;

verus! {

/// A step of drawing.
#[derive(Debug)]
pub enum DrawOp {
    Fill { rect: Rect, color: Color },
    /// A line one pixel high.
    Line { x: u32, y: u32, w: u32, color: Color },
    /// The edges of a rectangle.
    Border { rect: Rect, color: Color, width: u32 },
    /// Text, cut off at a width.
    Text { x: u32, y: u32, text: String, fg: Color, bg: Color, bold: bool, max_w: u32 },
}

/// What a [`DrawOp`] holds.
pub enum OpView {
    Fill { rect: Rect, color: Color },
    Line { x: u32, y: u32, w: u32, color: Color },
    Border { rect: Rect, color: Color, width: u32 },
    Text { x: u32, y: u32, text: Seq<char>, fg: Color, bg: Color, bold: bool, max_w: u32 },
}

impl View for DrawOp {
    type V = OpView;

    open spec fn view(&self) -> OpView {
        match *self {
            DrawOp::Fill { rect, color } => OpView::Fill { rect, color },
            DrawOp::Line { x, y, w, color } => OpView::Line { x, y, w, color },
            DrawOp::Border { rect, color, width } => OpView::Border { rect, color, width },
            DrawOp::Text { x, y, text, fg, bg, bold, max_w } => OpView::Text {
                x,
                y,
                text: text@,
                fg,
                bg,
                bold,
                max_w,
            },
        }
    }
}

pub open spec fn ops_view(v: Seq<DrawOp>) -> Seq<OpView> {
    Seq::new(v.len(), |i: int| v[i]@)
}

/// No color at all.
pub open spec fn clear() -> Color {
    Color { r: 0, g: 0, b: 0, a: 0 }
}

pub fn push_op(out: &mut Vec<DrawOp>, op: DrawOp)
    ensures
        ops_view(final(out)@) == ops_view(old(out)@).push(op@),
{
    out.push(op);
    assert(ops_view(out@) =~= ops_view(old(out)@).push(op@));
}

} // verus!
