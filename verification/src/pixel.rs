//! Pixels and the per-channel contrast test that stops the flood fill.

use vstd::prelude::*;

verus! {

/// Channel value above which a colour channel counts as background-white.
pub const NEAR_WHITE_FLOOR: u8 = 240;

/// One pixel: four 8-bit channels, red, green, blue, alpha.
#[derive(Clone, Copy, PartialEq, Eq, Structural, Debug)]
pub struct Pixel {
    pub r: u8,
    pub g: u8,
    pub b: u8,
    pub a: u8,
}

/// Absolute difference of two channel values.
pub open spec fn channel_diff(a: u8, b: u8) -> int {
    if a >= b {
        a - b
    } else {
        b - a
    }
}

/// Whether the colour difference between two pixels is a visual edge: the
/// difference on any one of the red, green or blue channels strictly exceeds
/// the threshold. Alpha plays no part.
pub open spec fn edge_between(p: Pixel, q: Pixel, threshold: u8) -> bool {
    ||| channel_diff(p.r, q.r) > threshold
    ||| channel_diff(p.g, q.g) > threshold
    ||| channel_diff(p.b, q.b) > threshold
}

/// Whether a pixel is a removal candidate by colour alone: red, green and
/// blue all strictly above the near-white floor. Alpha plays no part.
pub open spec fn near_white(p: Pixel) -> bool {
    p.r > NEAR_WHITE_FLOOR && p.g > NEAR_WHITE_FLOOR && p.b > NEAR_WHITE_FLOOR
}

/// The same colour with the alpha channel set to fully transparent.
pub open spec fn clear_alpha(p: Pixel) -> Pixel {
    Pixel { r: p.r, g: p.g, b: p.b, a: 0 }
}

/// Absolute difference of two channel values.
fn abs_diff(a: u8, b: u8) -> (d: u8)
    ensures
        d == channel_diff(a, b),
{
    if a >= b {
        a - b
    } else {
        b - a
    }
}

/// Decides whether two pixels differ enough, on any colour channel, to count
/// as a visual edge the fill must not cross.
pub fn is_edge(p1: Pixel, p2: Pixel, edge_threshold: u8) -> (r: bool)
    ensures
        r == edge_between(p1, p2, edge_threshold),
{
    let diff_r = abs_diff(p1.r, p2.r);
    let diff_g = abs_diff(p1.g, p2.g);
    let diff_b = abs_diff(p1.b, p2.b);
    diff_r > edge_threshold || diff_g > edge_threshold || diff_b > edge_threshold
}

/// Decides whether a pixel's colour is near-white, so that the fill may
/// consider removing it.
pub fn is_near_white(p: Pixel) -> (r: bool)
    ensures
        r == near_white(p),
{
    p.r > NEAR_WHITE_FLOOR && p.g > NEAR_WHITE_FLOOR && p.b > NEAR_WHITE_FLOOR
}

} // verus!
