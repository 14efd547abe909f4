//! Shadows, borders and contents of windows.
//!
//! A window is told the size of its content. The border lies around the content,
//! and the shadow around the border. A tiled window fills its tile to the last
//! pixel: its corners are not rounded.

use vstd::prelude::*;

use crate::desk::windows::Area;

verus! {

/// How windows are framed; lengths are in quarters of a pixel.
#[derive(Debug, Clone, Copy, PartialEq, Eq, Structural)]
pub struct ChromeConfig {
    pub corner_radius: u32,
    /// How far the shadow fades.
    pub shadow_spread: u32,
    /// How far the shadow reaches beyond the border.
    pub shadow_offset: u32,
    /// The width of the border; without one, there is none.
    pub border_width: u32,
}

impl Default for ChromeConfig {
    fn default() -> (r: Self)
        ensures
            r == (ChromeConfig {
                corner_radius: 40,
                shadow_spread: 112,
                shadow_offset: 128,
                border_width: 8,
            }),
    {
        ChromeConfig {
            corner_radius: 40,
            shadow_spread: 112,
            shadow_offset: 128,
            border_width: 8,
        }
    }
}

/// A rectangle in sixteenths of a pixel.
#[derive(Debug, Clone, Copy, PartialEq, Eq, Structural)]
pub struct Quad {
    pub x: i64,
    pub y: i64,
    pub w: i64,
    pub h: i64,
}

impl Quad {
    /// Whether `q` lies in this rectangle.
    pub open spec fn covers(self, q: Quad) -> bool {
        &&& self.x <= q.x && self.y <= q.y
        &&& q.x + q.w <= self.x + self.w
        &&& q.y + q.h <= self.y + self.h
    }
}

/// A part of a window; radii and widths are in sixteenths of a pixel.
#[derive(Debug, Clone, Copy, PartialEq, Eq, Structural)]
pub enum ChromeOp {
    Shadow { quad: Quad, radius: i64, blur: i64, focused: bool },
    Border { quad: Quad, radius: i64, thickness: i64, focused: bool },
    /// What the client draws.
    Content { quad: Quad, radius: i64 },
}

/// A content of this place and size.
pub open spec fn content_quad(r: Area) -> Quad {
    Quad {
        x: (16 * r.x) as i64,
        y: (16 * r.y) as i64,
        w: (16 * r.w) as i64,
        h: (16 * r.h) as i64,
    }
}

/// A content with its border.
pub open spec fn border_quad(c: ChromeConfig, r: Area) -> Quad {
    Quad {
        x: (16 * r.x - 4 * c.border_width) as i64,
        y: (16 * r.y - 4 * c.border_width) as i64,
        w: (16 * r.w + 8 * c.border_width) as i64,
        h: (16 * r.h + 8 * c.border_width) as i64,
    }
}

/// The shadow of a content: it reaches as far to the left as to the right, and
/// further down than up.
pub open spec fn shadow_quad(c: ChromeConfig, r: Area) -> Quad {
    Quad {
        x: (16 * r.x - 4 * c.border_width - 4 * c.shadow_offset) as i64,
        y: (16 * r.y - 4 * c.border_width - 2 * c.shadow_offset) as i64,
        w: (16 * r.w + 8 * (c.border_width + c.shadow_offset)) as i64,
        h: (16 * r.h + 10 * (c.border_width + c.shadow_offset)) as i64,
    }
}

/// The radius of the corners of a content.
pub open spec fn content_radius(c: ChromeConfig, floating: bool) -> int {
    if floating {
        4 * c.corner_radius
    } else {
        0
    }
}

pub open spec fn shadow_op(c: ChromeConfig, r: Area, focused: bool) -> ChromeOp {
    ChromeOp::Shadow {
        quad: shadow_quad(c, r),
        radius: (4 * c.corner_radius + 4 * c.border_width + c.shadow_offset) as i64,
        blur: (4 * c.shadow_spread) as i64,
        focused,
    }
}

pub open spec fn border_op(c: ChromeConfig, r: Area, focused: bool, floating: bool) -> ChromeOp {
    ChromeOp::Border {
        quad: border_quad(c, r),
        radius: (content_radius(c, floating) + 4 * c.border_width) as i64,
        thickness: (4 * c.border_width) as i64,
        focused,
    }
}

pub open spec fn content_op(c: ChromeConfig, r: Area, floating: bool) -> ChromeOp {
    ChromeOp::Content { quad: content_quad(r), radius: content_radius(c, floating) as i64 }
}

/// Draws windows with their frames.
#[derive(Debug, Clone, Copy, PartialEq, Eq, Structural)]
pub struct ChromeRenderer {
    pub cfg: ChromeConfig,
}

impl ChromeRenderer {
    /// The shadow of a window, which goes below the window.
    pub fn draw_shadow(&self, content: Area, focused: bool) -> (r: ChromeOp)
        ensures
            r == shadow_op(self.cfg, content, focused),
    {
        let bw: i64 = self.cfg.border_width as i64;
        let so: i64 = self.cfg.shadow_offset as i64;
        ChromeOp::Shadow {
            quad: Quad {
                x: 16 * content.x as i64 - 4 * bw - 4 * so,
                y: 16 * content.y as i64 - 4 * bw - 2 * so,
                w: 16 * content.w as i64 + 8 * (bw + so),
                h: 16 * content.h as i64 + 10 * (bw + so),
            },
            radius: 4 * self.cfg.corner_radius as i64 + 4 * bw + so,
            blur: 4 * self.cfg.shadow_spread as i64,
            focused,
        }
    }

    fn radius(&self, floating: bool) -> (r: i64)
        ensures
            r == content_radius(self.cfg, floating),
    {
        if floating {
            4 * self.cfg.corner_radius as i64
        } else {
            0
        }
    }

    /// The border of a window that has no content yet; `None` without a border.
    pub fn draw_border_only(&self, content: Area, focused: bool, floating: bool) -> (r: Option<
        ChromeOp,
    >)
        ensures
            r == (if self.cfg.border_width > 0 {
                Some(border_op(self.cfg, content, focused, floating))
            } else {
                None
            }),
    {
        if self.cfg.border_width == 0 {
            return None;
        }
        let bw: i64 = self.cfg.border_width as i64;
        Some(
            ChromeOp::Border {
                quad: Quad {
                    x: 16 * content.x as i64 - 4 * bw,
                    y: 16 * content.y as i64 - 4 * bw,
                    w: 16 * content.w as i64 + 8 * bw,
                    h: 16 * content.h as i64 + 8 * bw,
                },
                radius: self.radius(floating) + 4 * bw,
                thickness: 4 * bw,
                focused,
            },
        )
    }

    /// A window: its border, where it has one, and its content on top.
    pub fn draw_window(&self, content: Area, focused: bool, floating: bool) -> (r: Vec<ChromeOp>)
        ensures
            r@ == (if self.cfg.border_width > 0 {
                seq![
                    border_op(self.cfg, content, focused, floating),
                    content_op(self.cfg, content, floating),
                ]
            } else {
                seq![content_op(self.cfg, content, floating)]
            }),
    {
        let mut r: Vec<ChromeOp> = Vec::new();
        if let Some(op) = self.draw_border_only(content, focused, floating) {
            r.push(op);
        }
        r.push(
            ChromeOp::Content {
                quad: Quad {
                    x: 16 * content.x as i64,
                    y: 16 * content.y as i64,
                    w: 16 * content.w as i64,
                    h: 16 * content.h as i64,
                },
                radius: self.radius(floating),
            },
        );
        assert(r@ =~= if self.cfg.border_width > 0 {
            seq![
                border_op(self.cfg, content, focused, floating),
                content_op(self.cfg, content, floating),
            ]
        } else {
            seq![content_op(self.cfg, content, floating)]
        });
        r
    }
}

/// The border lies around the content, as wide on every side.
pub proof fn law_border_is_outside(c: ChromeConfig, r: Area)
    ensures
        border_quad(c, r).covers(content_quad(r)),
        ({
            let (b, q) = (border_quad(c, r), content_quad(r));
            let width = 4 * c.border_width;
            &&& q.x - b.x == width && q.y - b.y == width
            &&& (b.x + b.w) - (q.x + q.w) == width
            &&& (b.y + b.h) - (q.y + q.h) == width
        }),
{
}

/// The shadow lies around the border, and reaches further down than up.
pub proof fn law_shadow_is_outside(c: ChromeConfig, r: Area)
    ensures
        shadow_quad(c, r).covers(border_quad(c, r)),
        ({
            let (s, b) = (shadow_quad(c, r), border_quad(c, r));
            &&& b.x - s.x == (s.x + s.w) - (b.x + b.w)
            &&& b.y - s.y <= (s.y + s.h) - (b.y + b.h)
        }),
{
}

/// A tiled window fills its tile to the last pixel.
pub proof fn law_tiles_are_filled(c: ChromeConfig, r: Area)
    ensures
        content_op(c, r, false) == (ChromeOp::Content { quad: content_quad(r), radius: 0 }),
{
}

} // verus!
