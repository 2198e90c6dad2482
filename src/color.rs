use vstd::prelude::*;

verus! {

/// Packed RGBA colour (red in the highest byte) of lift-access stretches.
pub const COL_LIFT_ACCESS: u32 = 0x80808060;

/// Palette for flat and uphill stretches, from gentle to steep.
pub const COL_ULIGHT_GREEN: u32 = 0x48B74860;
pub const COL_UDARK_GREEN: u32 = 0x00640060;
pub const COL_ULIGHT_BLUE: u32 = 0x32A2D960;
pub const COL_UBLUE: u32 = 0x0000FF60;
pub const COL_UPURPLE: u32 = 0x80008060;
pub const COL_UBRIGHT_RED: u32 = 0xff0a0060;
pub const COL_UDARK_RED: u32 = 0x8b000060;

/// Palette for downhill stretches, from gentle to steep.
pub const COL_LIGHT_GREEN: u32 = 0x48B748FF;
pub const COL_DARK_GREEN: u32 = 0x006400FF;
pub const COL_LIGHT_BLUE: u32 = 0x32A2D9FF;
pub const COL_BLUE: u32 = 0x0000FFFF;
pub const COL_PURPLE: u32 = 0x800080FF;
pub const COL_BRIGHT_RED: u32 = 0xff0a00FF;
pub const COL_DARK_RED: u32 = 0x8b0000FF;
pub const COL_BLACK: u32 = 0x000000FF;

/// Downhill band of a gradient given in parts per million
/// (thresholds -0.07, -0.15, -0.20, -0.25, -0.30, -0.37, -0.45).
pub open spec fn downhill_color_spec(g: int) -> u32 {
    if g >= -70_000 {
        COL_LIGHT_GREEN
    } else if g >= -150_000 {
        COL_DARK_GREEN
    } else if g >= -200_000 {
        COL_LIGHT_BLUE
    } else if g >= -250_000 {
        COL_BLUE
    } else if g >= -300_000 {
        COL_PURPLE
    } else if g >= -370_000 {
        COL_BRIGHT_RED
    } else if g >= -450_000 {
        COL_DARK_RED
    } else {
        COL_BLACK
    }
}

/// Flat/uphill band of a gradient given in parts per million
/// (thresholds 0.07, 0.15, 0.20, 0.25, 0.30, 0.37, 0.45).
pub open spec fn uphill_color_spec(g: int) -> u32 {
    if g <= 70_000 {
        COL_ULIGHT_GREEN
    } else if g <= 150_000 {
        COL_UDARK_GREEN
    } else if g <= 200_000 {
        COL_ULIGHT_BLUE
    } else if g <= 250_000 {
        COL_UBLUE
    } else if g <= 300_000 {
        COL_UPURPLE
    } else if g <= 370_000 {
        COL_UBRIGHT_RED
    } else if g <= 450_000 {
        COL_UDARK_RED
    } else {
        COL_BLACK
    }
}

/// The colour of one stretch: lift access first, then the gradient band.
pub open spec fn stretch_color_spec(is_lift: bool, g: int) -> u32 {
    if is_lift {
        COL_LIFT_ACCESS
    } else if g >= 0 {
        uphill_color_spec(g)
    } else {
        downhill_color_spec(g)
    }
}

pub fn downhill_color(gradient_ppm: i64) -> (c: u32)
    ensures
        c == downhill_color_spec(gradient_ppm as int),
{
    if gradient_ppm >= -70_000 {
        COL_LIGHT_GREEN
    } else if gradient_ppm >= -150_000 {
        COL_DARK_GREEN
    } else if gradient_ppm >= -200_000 {
        COL_LIGHT_BLUE
    } else if gradient_ppm >= -250_000 {
        COL_BLUE
    } else if gradient_ppm >= -300_000 {
        COL_PURPLE
    } else if gradient_ppm >= -370_000 {
        COL_BRIGHT_RED
    } else if gradient_ppm >= -450_000 {
        COL_DARK_RED
    } else {
        COL_BLACK
    }
}

pub fn uphill_color(gradient_ppm: i64) -> (c: u32)
    ensures
        c == uphill_color_spec(gradient_ppm as int),
{
    if gradient_ppm <= 70_000 {
        COL_ULIGHT_GREEN
    } else if gradient_ppm <= 150_000 {
        COL_UDARK_GREEN
    } else if gradient_ppm <= 200_000 {
        COL_ULIGHT_BLUE
    } else if gradient_ppm <= 250_000 {
        COL_UBLUE
    } else if gradient_ppm <= 300_000 {
        COL_UPURPLE
    } else if gradient_ppm <= 370_000 {
        COL_UBRIGHT_RED
    } else if gradient_ppm <= 450_000 {
        COL_UDARK_RED
    } else {
        COL_BLACK
    }
}

pub fn stretch_color(is_lift: bool, gradient_ppm: i64) -> (c: u32)
    ensures
        c == stretch_color_spec(is_lift, gradient_ppm as int),
{
    if is_lift {
        COL_LIFT_ACCESS
    } else if gradient_ppm >= 0 {
        uphill_color(gradient_ppm)
    } else {
        downhill_color(gradient_ppm)
    }
}

/// A colour with named channels.
#[derive(Clone, Copy, Debug, PartialEq, Eq, Structural)]
pub struct Rgba {
    pub r: u8,
    pub g: u8,
    pub b: u8,
    pub a: u8,
}

pub open spec fn packed_value(c: Rgba) -> int {
    c.r as int * 0x1000000 + c.g as int * 0x10000 + c.b as int * 0x100 + c.a as int
}

impl Rgba {
    /// Splits a packed value whose highest byte is red and lowest is alpha.
    pub fn from_packed(packed: u32) -> (c: Rgba)
        ensures
            c.r == packed / 0x1000000,
            c.g == (packed / 0x10000) % 0x100,
            c.b == (packed / 0x100) % 0x100,
            c.a == packed % 0x100,
            packed_value(c) == packed,
    {
        let c = Rgba {
            r: (packed / 0x1000000) as u8,
            g: ((packed / 0x10000) % 0x100) as u8,
            b: ((packed / 0x100) % 0x100) as u8,
            a: (packed % 0x100) as u8,
        };
        c
    }

    pub fn packed(&self) -> (p: u32)
        ensures
            p == packed_value(*self),
    {
        self.r as u32 * 0x1000000 + self.g as u32 * 0x10000 + self.b as u32 * 0x100 + self.a as u32
    }
}

} // verus!
