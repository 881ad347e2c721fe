//! The colours that the values of the cells stand for.

use vstd::prelude::*;

verus! {

/// How the value of a cell is turned into a colour.
#[derive(Clone, Copy, Debug, PartialEq, Eq, Structural)]
pub enum ColourMap {
    /// One sweep through the hues.
    Continuous,
    /// One of red, green and blue.
    Discrete,
}

/// The colour map that two switches ask for, of which the first wins.
pub fn get_convert_colour(rgb_continuous: bool, rgb_discrete: bool) -> (map: ColourMap)
    requires
        rgb_continuous || rgb_discrete,
    ensures
        map == if rgb_continuous {
            ColourMap::Continuous
        } else {
            ColourMap::Discrete
        },
{
    if rgb_continuous {
        ColourMap::Continuous
    } else {
        ColourMap::Discrete
    }
}

/// The opaque pixel with the given red, green and blue parts.
pub open spec fn opaque_rgb(r: u8, g: u8, b: u8) -> u32 {
    (0xff00_0000 + r * 0x1_0000 + g * 0x100 + b) as u32
}

/// The colour of the value `v` in the discrete map: the range of the
/// values is cut in three, red for the lowest third, then green, then blue.
pub open spec fn discrete_colour(v: u8) -> u32 {
    if v < 85 {
        opaque_rgb(255, 0, 0)
    } else if v < 170 {
        opaque_rgb(0, 255, 0)
    } else {
        opaque_rgb(0, 0, 255)
    }
}

/// The colour of the value `v` in the discrete map.
pub fn discrete_rgb(v: u8) -> (pixel: u32)
    ensures
        pixel == discrete_colour(v),
{
    let (r, g, b): (u32, u32, u32) = if v < (u8::MAX / 3) {
        (255, 0, 0)
    } else if v < (2 * (u8::MAX / 3)) {
        (0, 255, 0)
    } else {
        (0, 0, 255)
    };
    assert((b | (g << 8) | (r << 16) | (0xffu32 << 24)) == 0xff00_0000 + r * 0x1_0000 + g * 0x100
        + b) by (bit_vector)
        requires
            r <= 255,
            g <= 255,
            b <= 255,
    ;
    b | (g << 8) | (r << 16) | (0xff << 24)
}

} // verus!
