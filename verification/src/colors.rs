//! Naming RGB colors by coarse buckets.

use vstd::prelude::*;

verus! {

/// The name given to the color `[r, g, b]`, mirroring the order in which
/// the buckets are tried: exact colors first, then near-black, then the
/// dominant-channel buckets.
pub open spec fn spec_color_name(r: u8, g: u8, b: u8) -> Seq<char> {
    if r == 0 && g == 0 && b == 0 {
        "pure black"@
    } else if r == 255 && g == 255 && b == 255 {
        "pure white"@
    } else if r == 255 && g == 0 && b == 0 {
        "pure red"@
    } else if r == 0 && g == 255 && b == 0 {
        "pure green"@
    } else if r == 0 && g == 0 && b == 255 {
        "pure blue"@
    } else if r <= 31 && g <= 31 && b <= 31 {
        "almost black"@
    } else if r >= 128 && g <= 127 && b <= 127 {
        "redish"@
    } else if r <= 127 && g >= 128 && b <= 127 {
        "greenish"@
    } else if r <= 127 && g <= 127 && b >= 128 {
        "blueish"@
    } else {
        "unknown"@
    }
}

/// The name of the color whose red, green and blue components are
/// `color[0]`, `color[1]` and `color[2]`.
pub fn color_name(color: &[u8; 3]) -> (name: &'static str)
    ensures
        name@ == spec_color_name(color[0], color[1], color[2]),
{
    let r = color[0];
    let g = color[1];
    let b = color[2];
    if r == 0 && g == 0 && b == 0 {
        "pure black"
    } else if r == 255 && g == 255 && b == 255 {
        "pure white"
    } else if r == 255 && g == 0 && b == 0 {
        "pure red"
    } else if r == 0 && g == 255 && b == 0 {
        "pure green"
    } else if r == 0 && g == 0 && b == 255 {
        "pure blue"
    } else if r <= 31 && g <= 31 && b <= 31 {
        "almost black"
    } else if r >= 128 && g <= 127 && b <= 127 {
        "redish"
    } else if r <= 127 && g >= 128 && b <= 127 {
        "greenish"
    } else if r <= 127 && g <= 127 && b >= 128 {
        "blueish"
    } else {
        "unknown"
    }
}

} // verus!
