//! Colors.

use vstd::prelude::*;

use crate::config::value::{value_view, Value, ValueView};

verus! {

#[derive(Debug, Clone, Copy, PartialEq, Eq, Structural)]
pub struct Color {
    pub r: u8,
    pub g: u8,
    pub b: u8,
    pub a: u8,
}

/// The opaque color with the low 24 bits of `v`.
pub open spec fn hex_rgb(v: u32) -> Color {
    Color {
        r: (v / 0x1_0000 % 0x100) as u8,
        g: (v / 0x100 % 0x100) as u8,
        b: (v % 0x100) as u8,
        a: 255,
    }
}

impl Color {
    pub fn rgb(r: u8, g: u8, b: u8) -> (c: Self)
        ensures
            c == (Color { r, g, b, a: 255 }),
    {
        Color { r, g, b, a: 255 }
    }

    pub fn rgba(r: u8, g: u8, b: u8, a: u8) -> (c: Self)
        ensures
            c == (Color { r, g, b, a }),
    {
        Color { r, g, b, a }
    }

    /// `0xrrggbb`.
    pub fn hex(v: u32) -> (c: Self)
        ensures
            c == hex_rgb(v),
    {
        Self::rgb((v / 0x1_0000 % 0x100) as u8, (v / 0x100 % 0x100) as u8, (v % 0x100) as u8)
    }
}

impl Default for Color {
    fn default() -> (c: Self)
        ensures
            c == (Color { r: 0, g: 0, b: 0, a: 255 }),
    {
        Color::rgb(0, 0, 0)
    }
}

impl From<[u8; 4]> for Color {
    fn from(c: [u8; 4]) -> (r: Self) {
        Color { r: c[0], g: c[1], b: c[2], a: c[3] }
    }
}

impl vstd::std_specs::convert::FromSpecImpl<[u8; 4]> for Color {
    open spec fn obeys_from_spec() -> bool {
        true
    }

    open spec fn from_spec(c: [u8; 4]) -> Self {
        Color { r: c@[0], g: c@[1], b: c@[2], a: c@[3] }
    }
}

/// The color that a value holds.
pub open spec fn color_of(v: ValueView) -> Option<Color> {
    match v.color() {
        Some((r, g, b, a)) => Some(Color { r, g, b, a }),
        None => None,
    }
}

pub fn color_from_value(v: &Value) -> (r: Option<Color>)
    ensures
        r == color_of(value_view(*v)),
{
    match v.as_color() {
        Some(c) => Some(Color::from(c)),
        None => None,
    }
}

} // verus!
