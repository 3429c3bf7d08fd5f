//! Colours for the status light.

use vstd::prelude::*;

verus! {

/// Cycles of the start part of a bit on the light's data line.
pub const T1: u8 = 2;

/// Cycles of the data part of a bit.
pub const T2: u8 = 5;

/// Cycles of the stop part of a bit.
pub const T3: u8 = 3;

/// Cycles of a whole bit.
pub const CYCLES_PER_BIT: u32 = 10;

/// A colour.
#[derive(Debug, Clone, Copy, PartialEq, Eq)]
pub struct Color {
    pub r: u8,
    pub g: u8,
    pub b: u8,
}

/// The colour at a position on the colour wheel: from red at 0 over blue
/// and green back to red, each third a linear blend.
pub open spec fn wheel_color(wheel_pos: u8) -> Color {
    let pos = 255 - wheel_pos;
    if pos < 85 {
        Color { r: (255 - pos * 3) as u8, g: 0, b: (pos * 3) as u8 }
    } else if pos < 170 {
        Color { r: 0, g: ((pos - 85) * 3) as u8, b: (255 - (pos - 85) * 3) as u8 }
    } else {
        Color { r: ((pos - 170) * 3) as u8, g: (255 - (pos - 170) * 3) as u8, b: 0 }
    }
}

impl Color {
    pub fn new(r: u8, g: u8, b: u8) -> (color: Self)
        ensures
            color == (Color { r, g, b }),
    {
        Color { r, g, b }
    }

    /// The colour at a position on the colour wheel.
    pub fn wheel(wheel_pos: u8) -> (color: Self)
        ensures
            color == wheel_color(wheel_pos),
    {
        let mut wheel_pos = 255 - wheel_pos;
        if wheel_pos < 85 {
            Self::new(255 - wheel_pos * 3, 0, wheel_pos * 3)
        } else if wheel_pos < 170 {
            wheel_pos -= 85;
            Self::new(0, wheel_pos * 3, 255 - wheel_pos * 3)
        } else {
            wheel_pos -= 170;
            Self::new(wheel_pos * 3, 255 - wheel_pos * 3, 0)
        }
    }

    /// The word that the light shifts in: green, red, blue from the top byte
    /// down, the lowest byte unused.
    pub open spec fn spec_word(self) -> u32 {
        ((self.g as u32) << 24) | ((self.r as u32) << 16) | ((self.b as u32) << 8)
    }

    /// The word that the light shifts in.
    #[verifier::when_used_as_spec(spec_word)]
    pub fn word(self) -> (w: u32)
        ensures
            w == self.spec_word(),
    {
        ((self.g as u32) << 24) | ((self.r as u32) << 16) | ((self.b as u32) << 8)
    }
}

} // verus!
