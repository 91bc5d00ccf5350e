//! RGB radiance values in `Q`-scaled fixed point.
//!
//! Components are nonnegative and capped at [`COLOUR_MAX`]; the arithmetic
//! saturates at the cap instead of wrapping, and a division by a
//! non-positive density yields black, the fixed-point analogue of zeroing a
//! not-a-number sample before accumulating it.

use crate::vec3::Q;
use vstd::prelude::*;

verus! {

/// Upper bound of a colour component (about sixteen million in units of 1).
pub const COLOUR_MAX: i64 = 0x10000000000; // 2^40

/// An RGB triple; each component is `round(value * Q)`.
#[derive(Debug, Clone, Copy, PartialEq, Eq, Structural)]
pub struct Colour {
    pub r: i64,
    pub g: i64,
    pub b: i64,
}

/// Componentwise: nonnegative and capped.
pub open spec fn colour_wf(c: Colour) -> bool {
    &&& 0 <= c.r <= COLOUR_MAX
    &&& 0 <= c.g <= COLOUR_MAX
    &&& 0 <= c.b <= COLOUR_MAX
}

/// Clamp an unbounded component into `[0, COLOUR_MAX]`.
pub open spec fn cap(v: int) -> int {
    if v < 0 {
        0
    } else if v > COLOUR_MAX as int {
        COLOUR_MAX as int
    } else {
        v
    }
}

/// Saturating componentwise sum.
pub open spec fn spec_colour_add(a: Colour, b: Colour) -> Colour {
    Colour { r: cap(a.r + b.r) as i64, g: cap(a.g + b.g) as i64, b: cap(a.b + b.b) as i64 }
}

/// Saturating componentwise product of two `Q`-scaled values.
pub open spec fn spec_colour_mul(a: Colour, b: Colour) -> Colour {
    Colour {
        r: cap((a.r * b.r) / (Q as int)) as i64,
        g: cap((a.g * b.g) / (Q as int)) as i64,
        b: cap((a.b * b.b) / (Q as int)) as i64,
    }
}

/// Saturating scale by a `Q`-scaled nonnegative factor.
pub open spec fn spec_colour_scale(a: Colour, k: int) -> Colour {
    Colour {
        r: cap((a.r * k) / (Q as int)) as i64,
        g: cap((a.g * k) / (Q as int)) as i64,
        b: cap((a.b * k) / (Q as int)) as i64,
    }
}

/// Componentwise clamp of an arbitrary colour into range.
pub open spec fn spec_clamp_colour(c: Colour) -> Colour {
    Colour { r: cap(c.r as int) as i64, g: cap(c.g as int) as i64, b: cap(c.b as int) as i64 }
}

/// The saturating sum of `n` copies of one colour, as a sampling loop
/// accumulates it.
pub open spec fn spec_colour_sum(c: Colour, n: nat) -> Colour
    decreases n,
{
    if n == 0 {
        Colour { r: 0, g: 0, b: 0 }
    } else {
        spec_colour_add(spec_colour_sum(c, (n - 1) as nat), c)
    }
}

/// Filtering by white is the identity on well-formed colours.
pub proof fn lemma_mul_white(c: Colour)
    requires
        colour_wf(c),
    ensures
        spec_colour_mul(Colour { r: Q, g: Q, b: Q }, c) == c,
{
    vstd::arithmetic::div_mod::lemma_div_multiples_vanish(c.r as int, Q as int);
    vstd::arithmetic::div_mod::lemma_div_multiples_vanish(c.g as int, Q as int);
    vstd::arithmetic::div_mod::lemma_div_multiples_vanish(c.b as int, Q as int);
}

/// Adding black is the identity on well-formed colours, on either side.
pub proof fn lemma_add_black(c: Colour)
    requires
        colour_wf(c),
    ensures
        spec_colour_add(c, Colour { r: 0, g: 0, b: 0 }) == c,
        spec_colour_add(Colour { r: 0, g: 0, b: 0 }, c) == c,
{
}

/// Filtering black by anything gives black.
pub proof fn lemma_mul_black(c: Colour)
    ensures
        spec_colour_mul(c, Colour { r: 0, g: 0, b: 0 }) == (Colour { r: 0, g: 0, b: 0 }),
{
    assert(c.r * 0 == 0);
    assert(c.g * 0 == 0);
    assert(c.b * 0 == 0);
    assert(0int / (Q as int) == 0) by {
        vstd::arithmetic::div_mod::lemma_div_multiples_vanish(0, Q as int);
    }
}

/// Division by a `Q`-scaled density; a non-positive density gives black.
pub open spec fn spec_colour_div(a: Colour, k: int) -> Colour {
    if k <= 0 {
        Colour { r: 0, g: 0, b: 0 }
    } else {
        Colour {
            r: cap((a.r * Q) / k) as i64,
            g: cap((a.g * Q) / k) as i64,
            b: cap((a.b * Q) / k) as i64,
        }
    }
}

fn cap_exec(v: i128) -> (r: i64)
    requires
        -0x40000000000000000000000000000000 <= v <= 0x40000000000000000000000000000000,
    ensures
        r as int == cap(v as int),
        0 <= r <= COLOUR_MAX,
{
    if v < 0 {
        0
    } else if v > COLOUR_MAX as i128 {
        COLOUR_MAX
    } else {
        v as i64
    }
}

impl Colour {
    pub fn new(r: i64, g: i64, b: i64) -> (c: Colour)
        ensures
            c == (Colour { r, g, b }),
    {
        Colour { r, g, b }
    }

    pub fn black() -> (c: Colour)
        ensures
            c == (Colour { r: 0, g: 0, b: 0 }),
            colour_wf(c),
    {
        Colour { r: 0, g: 0, b: 0 }
    }

    /// White at unit brightness.
    pub fn white() -> (c: Colour)
        ensures
            c == (Colour { r: Q, g: Q, b: Q }),
            colour_wf(c),
    {
        Colour { r: Q, g: Q, b: Q }
    }

    /// Saturating sum.
    pub fn add(self, o: Colour) -> (c: Colour)
        requires
            colour_wf(self),
            colour_wf(o),
        ensures
            c == spec_colour_add(self, o),
            colour_wf(c),
    {
        Colour {
            r: cap_exec((self.r as i128) + (o.r as i128)),
            g: cap_exec((self.g as i128) + (o.g as i128)),
            b: cap_exec((self.b as i128) + (o.b as i128)),
        }
    }

    /// Saturating componentwise product (filtering by an attenuation).
    pub fn mul(self, o: Colour) -> (c: Colour)
        requires
            colour_wf(self),
            colour_wf(o),
        ensures
            c == spec_colour_mul(self, o),
            colour_wf(c),
    {
        proof {
            lemma_colour_prods(self, o);
        }
        Colour {
            r: cap_exec(crate::num::div_floor((self.r as i128) * (o.r as i128), Q as i128)),
            g: cap_exec(crate::num::div_floor((self.g as i128) * (o.g as i128), Q as i128)),
            b: cap_exec(crate::num::div_floor((self.b as i128) * (o.b as i128), Q as i128)),
        }
    }

    /// Saturating scale by a nonnegative `Q`-scaled factor.
    pub fn scale(self, k: i64) -> (c: Colour)
        requires
            colour_wf(self),
            0 <= k <= COLOUR_MAX,
        ensures
            c == spec_colour_scale(self, k as int),
            colour_wf(c),
    {
        proof {
            crate::vec3::lemma_prod_bound(self.r as int, k as int, COLOUR_MAX as int);
            crate::vec3::lemma_prod_bound(self.g as int, k as int, COLOUR_MAX as int);
            crate::vec3::lemma_prod_bound(self.b as int, k as int, COLOUR_MAX as int);
        }
        Colour {
            r: cap_exec(crate::num::div_floor((self.r as i128) * (k as i128), Q as i128)),
            g: cap_exec(crate::num::div_floor((self.g as i128) * (k as i128), Q as i128)),
            b: cap_exec(crate::num::div_floor((self.b as i128) * (k as i128), Q as i128)),
        }
    }

    /// Divide by a `Q`-scaled density; non-positive densities give black, so
    /// a sample with no probability mass contributes nothing.
    pub fn div(self, k: i64) -> (c: Colour)
        requires
            colour_wf(self),
            -COLOUR_MAX <= k <= COLOUR_MAX,
        ensures
            c == spec_colour_div(self, k as int),
            colour_wf(c),
    {
        if k <= 0 {
            Colour { r: 0, g: 0, b: 0 }
        } else {
            Colour {
                r: cap_exec(crate::num::div_floor((self.r as i128) * (Q as i128), k as i128)),
                g: cap_exec(crate::num::div_floor((self.g as i128) * (Q as i128), k as i128)),
                b: cap_exec(crate::num::div_floor((self.b as i128) * (Q as i128), k as i128)),
            }
        }
    }

    /// Average of an accumulated sum over `n` samples.
    pub fn div_count(self, n: u32) -> (c: Colour)
        requires
            colour_wf(self),
            n > 0,
        ensures
            c.r as int == self.r as int / n as int,
            c.g as int == self.g as int / n as int,
            c.b as int == self.b as int / n as int,
            colour_wf(c),
    {
        let r = crate::num::div_floor(self.r as i128, n as i128);
        let g = crate::num::div_floor(self.g as i128, n as i128);
        let b = crate::num::div_floor(self.b as i128, n as i128);
        proof {
            lemma_div_count_bounds(self.r as int, n as int);
            lemma_div_count_bounds(self.g as int, n as int);
            lemma_div_count_bounds(self.b as int, n as int);
        }
        Colour { r: r as i64, g: g as i64, b: b as i64 }
    }

    /// One display channel: gamma-correct (square root) and quantize to a
    /// byte, clamping at pure white.
    pub fn channel_byte(v: i64) -> (r: u8)
        requires
            0 <= v <= COLOUR_MAX,
        ensures
            r as int == spec_channel_byte(v as int),
    {
        // sqrt of the Q-scaled value, still Q-scaled: floor(sqrt(v * Q)).
        proof {
            crate::vec3::lemma_prod_bound(v as int, Q as int, COLOUR_MAX as int);
        }
        let s = crate::num::isqrt((v as u128) * (Q as u128));
        proof {
            lemma_channel_sqrt_bound(v as int, s as int);
        }
        let scaled = (256 * s) / (Q as u128);
        if scaled > 255 {
            255
        } else {
            scaled as u8
        }
    }
}

/// The displayed byte of one channel: `min(255, 256 * sqrt(v / Q))`.
pub open spec fn spec_channel_byte(v: int) -> int {
    let s = crate::num::sqrt_floor(v * Q);
    let scaled = (256 * s) / (Q as int);
    if scaled > 255 {
        255
    } else {
        scaled
    }
}

proof fn lemma_channel_sqrt_bound(v: int, s: int)
    requires
        crate::num::is_sqrt_floor(v * Q, s),
        0 <= v <= COLOUR_MAX,
    ensures
        s == crate::num::sqrt_floor(v * Q),
        0 <= s < 0x100000000000,  // far below u128 concerns after * 256
{
    crate::num::lemma_sqrt_floor_unique(v * Q, s, crate::num::sqrt_floor(v * Q));
    assert(s < 0x100000000000) by (nonlinear_arith)
        requires
            0 <= s,
            s * s <= v * Q,
            0 <= v <= COLOUR_MAX,
    ;
}

proof fn lemma_div_count_bounds(v: int, n: int)
    requires
        0 <= v <= COLOUR_MAX,
        1 <= n,
    ensures
        0 <= v / n <= COLOUR_MAX,
{
    vstd::arithmetic::div_mod::lemma_div_is_ordered(0, v, n);
    vstd::arithmetic::div_mod::lemma_div_is_ordered_by_denominator(v, 1, n);
    vstd::arithmetic::div_mod::lemma_div_multiples_vanish(v, 1);
    assert(v * 1 == v);
}

proof fn lemma_colour_prods(a: Colour, b: Colour)
    requires
        colour_wf(a),
        colour_wf(b),
    ensures
        -0x1000000000000000000000000 <= a.r * b.r <= 0x1000000000000000000000000,
        -0x1000000000000000000000000 <= a.g * b.g <= 0x1000000000000000000000000,
        -0x1000000000000000000000000 <= a.b * b.b <= 0x1000000000000000000000000,
{
    crate::vec3::lemma_prod_bound(a.r as int, b.r as int, COLOUR_MAX as int);
    crate::vec3::lemma_prod_bound(a.g as int, b.g as int, COLOUR_MAX as int);
    crate::vec3::lemma_prod_bound(a.b as int, b.b as int, COLOUR_MAX as int);
}

} // verus!
