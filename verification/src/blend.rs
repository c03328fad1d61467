//! Mixing palette colors over a white base to approach a target color.

use vstd::prelude::*;

verus! {

/// A color, represented by its red, green, and blue components.
#[derive(Debug, Clone, Copy, PartialEq, Eq, Structural)]
pub struct Color {
    /// The amount of red light.
    pub red: u8,
    /// The amount of green light.
    pub green: u8,
    /// The amount of blue light.
    pub blue: u8,
}

/// One component of `a` laid over `b` with opacity `alpha`.
pub open spec fn spec_over_component(a: u8, alpha: u8, b: u8) -> int {
    (a * alpha + b * (255 - alpha)) / 255
}

/// `c` laid over `o`, `c` having opacity `alpha`.
pub open spec fn spec_over(c: Color, alpha: u8, o: Color) -> Color {
    Color {
        red: spec_over_component(c.red, alpha, o.red) as u8,
        green: spec_over_component(c.green, alpha, o.green) as u8,
        blue: spec_over_component(c.blue, alpha, o.blue) as u8,
    }
}

/// The squared euclidean distance between two colors.
pub open spec fn spec_distance(c: Color, o: Color) -> int {
    (c.red - o.red) * (c.red - o.red) + (c.green - o.green) * (c.green - o.green) + (c.blue
        - o.blue) * (c.blue - o.blue)
}

/// The color white.
pub open spec fn spec_white() -> Color {
    Color { red: 255, green: 255, blue: 255 }
}

/// The best mix reachable from `base` with `max` more layers: each layer
/// lays one palette color over the mix so far, and the candidate closest
/// to `target` wins, later palette entries winning ties.
pub open spec fn spec_best_mix(target: Color, palette: Seq<(Color, u8)>, base: Color, max: nat) -> Color
    decreases max, palette.len() + 1,
{
    if max == 0 {
        base
    } else {
        spec_mix_scan(target, palette, base, max, palette.len()).0
    }
}

/// The winning candidate and its distance among the first `i` palette
/// entries, starting from white at an unreachable distance.
pub open spec fn spec_mix_scan(target: Color, palette: Seq<(Color, u8)>, base: Color, max: nat, i: nat) -> (
    Color,
    int,
)
    decreases max, i,
{
    if max == 0 || i == 0 {
        (spec_white(), u32::MAX as int)
    } else {
        let prev = spec_mix_scan(target, palette, base, max, (i - 1) as nat);
        let entry = palette[i - 1];
        let cand = spec_best_mix(target, palette, spec_over(entry.0, entry.1, base), (max - 1) as nat);
        let d = spec_distance(cand, target);
        if d <= prev.1 {
            (cand, d)
        } else {
            prev
        }
    }
}

fn over_component(a: u8, alpha: u8, b: u8) -> (r: u8)
    ensures
        r == spec_over_component(a, alpha, b),
{
    proof {
        assert(a * alpha + b * (255 - alpha) <= 255 * 255) by (nonlinear_arith)
            requires
                a <= 255 && b <= 255 && alpha <= 255,
        {}
        assert((a * alpha + b * (255 - alpha)) / 255 <= 255) by (nonlinear_arith)
            requires
                a * alpha + b * (255 - alpha) <= 255 * 255,
        {}
    }
    ((a as u16 * alpha as u16 + b as u16 * (255 - alpha) as u16) / 255) as u8
}

impl Color {
    /// Creates a new [`Color`] with the specified color components.
    pub fn new(red: u8, green: u8, blue: u8) -> (r: Self)
        ensures
            r == (Color { red, green, blue }),
    {
        Self { red, green, blue }
    }

    /// Computes `self` over `other`, `self` having opacity `alpha`.
    fn over(self, alpha: u8, other: Self) -> (r: Self)
        ensures
            r == spec_over(self, alpha, other),
    {
        Self {
            red: over_component(self.red, alpha, other.red),
            green: over_component(self.green, alpha, other.green),
            blue: over_component(self.blue, alpha, other.blue),
        }
    }

    /// Computes a squared "distance" between `self` and `other`.
    fn distance(self, other: Self) -> (r: u32)
        ensures
            r == spec_distance(self, other),
    {
        let dr = self.red as i32 - other.red as i32;
        let dg = self.green as i32 - other.green as i32;
        let db = self.blue as i32 - other.blue as i32;
        proof {
            assert(dr * dr <= 255 * 255 && dr * dr >= 0) by (nonlinear_arith)
                requires
                    -255 <= dr <= 255,
            {}
            assert(dg * dg <= 255 * 255 && dg * dg >= 0) by (nonlinear_arith)
                requires
                    -255 <= dg <= 255,
            {}
            assert(db * db <= 255 * 255 && db * db >= 0) by (nonlinear_arith)
                requires
                    -255 <= db <= 255,
            {}
        }
        (dr * dr + dg * dg + db * db) as u32
    }

    /// Mixes up to `max` colors extracted from `palette` to produce
    /// `self`. The closest reachable mix is returned.
    pub fn closest_mix(self, palette: &[(Self, u8)], max: u32) -> (r: Self)
        ensures
            r == spec_best_mix(self, palette@, spec_white(), max as nat),
    {
        best_color(self, palette, Color { red: 255, green: 255, blue: 255 }, max)
    }
}

/// The winning mix among all layerings of up to `max` palette colors over
/// `base`.
fn best_color(target: Color, palette: &[(Color, u8)], base: Color, max: u32) -> (r: Color)
    ensures
        r == spec_best_mix(target, palette@, base, max as nat),
    decreases max,
{
    if max == 0 {
        return base;
    }

    let mut best_so_far = Color { red: 255, green: 255, blue: 255 };
    let mut best_distance: u32 = u32::MAX;
    let mut i: usize = 0;
    while i < palette.len()
        invariant
            i <= palette@.len(),
            max >= 1,
            (best_so_far, best_distance as int) == spec_mix_scan(
                target,
                palette@,
                base,
                max as nat,
                i as nat,
            ),
        decreases palette@.len() - i,
    {
        let (p, o) = palette[i];
        let candidate = best_color(target, palette, p.over(o, base), max - 1);
        let dist = candidate.distance(target);
        proof {
            assert(spec_distance(candidate, target) <= 3 * 255 * 255) by (nonlinear_arith)
                requires
                    spec_distance(candidate, target) == (candidate.red - target.red) * (
                    candidate.red - target.red) + (candidate.green - target.green) * (
                    candidate.green - target.green) + (candidate.blue - target.blue) * (
                    candidate.blue - target.blue),
                    candidate.red <= 255 && target.red <= 255,
                    candidate.green <= 255 && target.green <= 255,
                    candidate.blue <= 255 && target.blue <= 255,
            {}
        }
        if dist <= best_distance {
            best_distance = dist;
            best_so_far = candidate;
        }
        i += 1;
    }
    best_so_far
}

} // verus!
