//! Rectangles in pixels.

use vstd::prelude::*;

use crate::single::{max_of, min_of};

verus! {

#[derive(Debug, Clone, Copy, PartialEq, Eq, Structural)]
pub struct Rect {
    pub x: u32,
    pub y: u32,
    pub w: u32,
    pub h: u32,
}

impl Default for Rect {
    fn default() -> (r: Self)
        ensures
            r == no_rect(),
    {
        Rect { x: 0, y: 0, w: 0, h: 0 }
    }
}

pub open spec fn no_rect() -> Rect {
    Rect { x: 0, y: 0, w: 0, h: 0 }
}

/// `n` held within `u32`.
pub open spec fn cap(n: int) -> u32 {
    if n < 0 {
        0
    } else if n > u32::MAX {
        u32::MAX
    } else {
        n as u32
    }
}

/// `n` held within `u32`.
pub fn capped(n: u128) -> (r: u32)
    ensures
        r == cap(n as int),
{
    if n > 0xFFFF_FFFF {
        0xFFFF_FFFF
    } else {
        n as u32
    }
}

/// The difference of `a` and `b`, zero where `b` is larger.
pub open spec fn minus(a: int, b: int) -> int {
    if a >= b {
        a - b
    } else {
        0
    }
}

impl Rect {
    pub open spec fn empty(self) -> bool {
        self.w == 0 || self.h == 0
    }

    /// Whether the point is inside: the left and upper edges belong to the
    /// rectangle, the right and lower ones do not.
    pub open spec fn has(self, px: int, py: int) -> bool {
        self.x <= px < self.x + self.w && self.y <= py < self.y + self.h
    }

    /// Whether the edges fit.
    pub open spec fn fits(self) -> bool {
        self.x + self.w <= u32::MAX && self.y + self.h <= u32::MAX
    }

    /// Whether all of `self` is inside `outer`.
    pub open spec fn within(self, outer: Rect) -> bool {
        &&& outer.x <= self.x
        &&& outer.y <= self.y
        &&& self.x + self.w <= outer.x + outer.w
        &&& self.y + self.h <= outer.y + outer.h
    }

    /// Whether a straight line parts `self` and `other`.
    pub open spec fn apart(self, other: Rect) -> bool {
        ||| self.x + self.w <= other.x
        ||| other.x + other.w <= self.x
        ||| self.y + self.h <= other.y
        ||| other.y + other.h <= self.y
    }

    pub open spec fn spec_inset(self, px: u32) -> Rect {
        Rect {
            x: (self.x + px) as u32,
            y: (self.y + px) as u32,
            w: minus(self.w as int, 2 * px) as u32,
            h: minus(self.h as int, 2 * px) as u32,
        }
    }

    pub fn new(x: u32, y: u32, w: u32, h: u32) -> (r: Self)
        ensures
            r == (Rect { x, y, w, h }),
    {
        Rect { x, y, w, h }
    }

    pub fn is_empty(self) -> (r: bool)
        ensures
            r == self.empty(),
    {
        self.w == 0 || self.h == 0
    }

    pub fn contains(self, px: u32, py: u32) -> (r: bool)
        requires
            self.fits(),
        ensures
            r == self.has(px as int, py as int),
    {
        px >= self.x && py >= self.y && px < self.x + self.w && py < self.y + self.h
    }

    /// The middle, rounded towards the upper left.
    pub fn center(self) -> (r: (i32, i32))
        requires
            self.x + self.w / 2 <= u32::MAX,
            self.y + self.h / 2 <= u32::MAX,
        ensures
            r.0 == ((self.x + self.w / 2) as u32) as i32,
            r.1 == ((self.y + self.h / 2) as u32) as i32,
    {
        (
            #[verifier::truncate] ((self.x + self.w / 2) as i32),
            #[verifier::truncate] ((self.y + self.h / 2) as i32),
        )
    }

    /// The rectangle without a margin of `px` on each side.
    pub fn inset(self, px: u32) -> (r: Self)
        requires
            self.x + px <= u32::MAX,
            self.y + px <= u32::MAX,
            2 * px <= u32::MAX,
        ensures
            r == self.spec_inset(px),
    {
        Rect {
            x: self.x + px,
            y: self.y + px,
            w: self.w.saturating_sub(px * 2),
            h: self.h.saturating_sub(px * 2),
        }
    }

    /// Moves the rectangle into `bounds`, as far as it fits there.
    pub fn clamp_to(self, bounds: Rect) -> (r: Self)
        requires
            bounds.fits(),
        ensures
            r.w == self.w,
            r.h == self.h,
            r.x == min_of(
                max_of(self.x as int, bounds.x as int),
                bounds.x + minus(bounds.w as int, self.w as int),
            ),
            r.y == min_of(
                max_of(self.y as int, bounds.y as int),
                bounds.y + minus(bounds.h as int, self.h as int),
            ),
    {
        let left: u32 = if self.x >= bounds.x {
            self.x
        } else {
            bounds.x
        };
        let top: u32 = if self.y >= bounds.y {
            self.y
        } else {
            bounds.y
        };
        let right: u32 = bounds.x + bounds.w.saturating_sub(self.w);
        let bottom: u32 = bounds.y + bounds.h.saturating_sub(self.h);
        Rect {
            x: if left <= right {
                left
            } else {
                right
            },
            y: if top <= bottom {
                top
            } else {
                bottom
            },
            w: self.w,
            h: self.h,
        }
    }
}

/// Rectangles that a line parts have no point in common.
pub proof fn law_apart_shares_no_point(a: Rect, b: Rect, px: int, py: int)
    requires
        a.apart(b),
    ensures
        !(a.has(px, py) && b.has(px, py)),
{
}

/// A rectangle that is no larger than the bounds is inside them once clamped,
/// and one that is inside already stays where it is.
pub proof fn law_clamped_is_within(r: Rect, bounds: Rect, c: Rect)
    requires
        bounds.fits(),
        r.w <= bounds.w,
        r.h <= bounds.h,
        c.w == r.w,
        c.h == r.h,
        c.x == min_of(
            max_of(r.x as int, bounds.x as int),
            bounds.x + minus(bounds.w as int, r.w as int),
        ),
        c.y == min_of(
            max_of(r.y as int, bounds.y as int),
            bounds.y + minus(bounds.h as int, r.h as int),
        ),
    ensures
        c.within(bounds),
        r.within(bounds) ==> c == r,
{
}

} // verus!
