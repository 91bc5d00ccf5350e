//! Exact integer helpers: floor division and integer square root.
//!
//! All geometric quantities in this crate are integers or binary fixed-point
//! numbers, so rounding is always an explicit floor and every result is
//! pinned down exactly by its contract.

use vstd::arithmetic::div_mod::{
    lemma_div_is_ordered, lemma_div_is_ordered_by_denominator, lemma_div_multiples_vanish,
    lemma_div_multiples_vanish_fancy, lemma_fundamental_div_mod,
};
use vstd::arithmetic::mul::lemma_mul_inequality;
use vstd::arithmetic::power2::{lemma2_to64, lemma2_to64_rest, lemma_pow2_unfold, pow2};
use vstd::prelude::*;

verus! {

/// Magnitude cap for the operands of [`div_floor`]; large enough for every
/// intermediate quantity this crate produces, small enough that no `i128`
/// computation below can wrap.
pub const DIV_BOUND: i128 = 0x1000000000000000000000000000000; // 2^120

/// For nonnegative `x` and positive `b`, `x / b <= x`.
proof fn lemma_div_at_most(x: int, b: int)
    requires
        0 <= x,
        1 <= b,
    ensures
        0 <= x / b <= x,
{
    lemma_div_is_ordered_by_denominator(x, 1, b);
    lemma_div_multiples_vanish(x, 1);
    assert(x * 1 == x);
    lemma_div_is_ordered(0, x, b);
}

/// For `n >= 0` and `b > 0`, the floor of `-n / b` is `-ceil(n / b)`,
/// with the ceiling computed as `(n + b - 1) / b`.
proof fn lemma_neg_div_as_ceil(n: int, b: int)
    requires
        0 <= n,
        0 < b,
    ensures
        (-n) / b == -((n + b - 1) / b),
        0 <= (n + b - 1) / b <= n,
{
    // The ceiling of n / b is at most n: n + b - 1 <= n * b + (b - 1).
    assert((n * b + (b - 1)) / b == n) by {
        lemma_div_multiples_vanish_fancy(n, b - 1, b);
        assert(b * n == n * b) by (nonlinear_arith);
    }
    assert(n <= n * b) by {
        lemma_mul_inequality(1, b, n);
        assert(n * 1 == n) by (nonlinear_arith);
        assert(n * b == b * n) by (nonlinear_arith);
    }
    lemma_div_is_ordered(n + b - 1, n * b + (b - 1), b);
    lemma_div_is_ordered(0, n + b - 1, b);
    let q = n / b;
    let r = n % b;
    lemma_fundamental_div_mod(n, b);
    lemma_div_at_most(n + b - 1, b);
    if r == 0 {
        assert(n == b * q + 0);
        assert((n + b - 1) / b == q) by {
            assert(n + b - 1 == b * q + (b - 1));
            lemma_div_multiples_vanish_fancy(q, b - 1, b);
        }
        assert((-n) / b == -q) by {
            assert(-n == b * (-q) + 0) by {
                assert(b * (-q) == -(b * q)) by (nonlinear_arith);
            }
            lemma_div_multiples_vanish_fancy(-q, 0, b);
        }
    } else {
        assert(n == b * q + r);
        assert((n + b - 1) / b == q + 1) by {
            assert(n + b - 1 == b * (q + 1) + (r - 1)) by {
                assert(b * (q + 1) == b * q + b) by (nonlinear_arith);
            }
            lemma_div_multiples_vanish_fancy(q + 1, r - 1, b);
        }
        assert((-n) / b == -q - 1) by {
            assert(-n == b * (-q - 1) + (b - r)) by {
                assert(b * (-q - 1) == -(b * q) - b) by (nonlinear_arith);
            }
            lemma_div_multiples_vanish_fancy(-q - 1, b - r, b);
        }
    }
}

/// Floor division of `a` by a positive `b`.
///
/// The mathematical `int` division of vstd is Euclidean, which for a
/// positive divisor coincides with floor division, so the contract says
/// simply `q == a / b`.
pub fn div_floor(a: i128, b: i128) -> (q: i128)
    requires
        0 < b <= DIV_BOUND,
        -DIV_BOUND <= a <= DIV_BOUND,
    ensures
        q == a as int / b as int,
        -DIV_BOUND <= q <= DIV_BOUND,
{
    if a >= 0 {
        proof {
            lemma_div_at_most(a as int, b as int);
        }
        (a as u128 / b as u128) as i128
    } else {
        let na = (-a) as u128;
        let bu = b as u128;
        // ceil(na / b) computed as (na + b - 1) / b; na + b stays below 2^121.
        let qc = ((na + bu - 1) / bu) as i128;
        proof {
            lemma_neg_div_as_ceil((-a) as int, b as int);
        }
        -qc
    }
}

/// Floor of `num * T_SCALE / den` for `den != 0`, written with a positive
/// divisor so that the Euclidean `/` of vstd is a floor. This is how a
/// rational ray parameter is rounded onto the fixed-point grid.
pub open spec fn spec_t_of(num: int, den: int) -> int {
    if den > 0 {
        (num * crate::vec3::T_SCALE) / den
    } else {
        ((-num) * crate::vec3::T_SCALE) / (-den)
    }
}

/// Fixed-point ray parameter `floor(num * T_SCALE / den)`.
pub fn t_div(num: i128, den: i128) -> (r: i128)
    requires
        den != 0,
        -0x10000000000000000000000 <= num <= 0x10000000000000000000000,  // 2^88
        -DIV_BOUND <= den <= DIV_BOUND,
    ensures
        r == spec_t_of(num as int, den as int),
        -DIV_BOUND <= r <= DIV_BOUND,
{
    if den > 0 {
        div_floor(num * crate::vec3::T_SCALE, den)
    } else {
        div_floor((-num) * crate::vec3::T_SCALE, -den)
    }
}

/// An integer square root is bounded by any `b` whose square reaches `n`.
pub proof fn lemma_sqrt_le(n: int, r: int, b: int)
    requires
        is_sqrt_floor(n, r),
        0 <= b,
        n <= b * b,
    ensures
        r <= b,
{
    if r > b {
        lemma_mul_inequality(b + 1, r, b + 1);
        lemma_mul_inequality(b + 1, r, r);
        assert((b + 1) * (b + 1) > b * b) by (nonlinear_arith)
            requires
                b >= 0,
        ;
    }
}

/// Division by a positive divisor never grows the magnitude.
pub proof fn lemma_div_magnitude(a: int, b: int, m: int)
    requires
        1 <= b,
        0 <= m,
        -m <= a <= m,
    ensures
        -m <= a / b <= m,
{
    if a >= 0 {
        lemma_div_at_most(a, b);
    } else {
        lemma_neg_div_as_ceil(-a, b);
        assert(a / b == -(((-a) + b - 1) / b));
    }
}

/// `r` is the integer square root (floor) of `n`.
pub open spec fn is_sqrt_floor(n: int, r: int) -> bool {
    0 <= r && r * r <= n && n < (r + 1) * (r + 1)
}

/// The integer square root is unique.
pub proof fn lemma_sqrt_floor_unique(n: int, r1: int, r2: int)
    requires
        is_sqrt_floor(n, r1),
        is_sqrt_floor(n, r2),
    ensures
        r1 == r2,
{
    if r1 < r2 {
        // (r1 + 1)^2 <= (r1 + 1) * r2 <= r2 * r2 <= n contradicts n < (r1 + 1)^2.
        lemma_mul_inequality(r1 + 1, r2, r1 + 1);
        lemma_mul_inequality(r1 + 1, r2, r2);
    }
    if r2 < r1 {
        lemma_mul_inequality(r2 + 1, r1, r2 + 1);
        lemma_mul_inequality(r2 + 1, r1, r1);
    }
}

/// Floor of the square root of a nonnegative `n`, as a spec-level function.
pub open spec fn sqrt_floor(n: int) -> int {
    choose|r: int| is_sqrt_floor(n, r)
}

/// Integer square root by bit-wise binary search from the high end.
///
/// Returns the unique `r` with `r * r <= n < (r + 1) * (r + 1)`.
pub fn isqrt(n: u128) -> (r: u128)
    requires
        n <= 0x40000000000000000000000000000000,  // 2^126, so candidates square safely
    ensures
        is_sqrt_floor(n as int, r as int),
        r as int == sqrt_floor(n as int),
        r <= 0x8000000000000000,  // 2^63
{
    let mut r: u128 = 0;
    let mut bit: u128 = 0x8000000000000000;  // 2^63
    let ghost mut bit_log: nat = 63;
    proof {
        lemma2_to64();
        lemma2_to64_rest();
        assert((0int + 2 * 0x8000000000000000) * (0int + 2 * 0x8000000000000000) > n as int)
            by (nonlinear_arith)
            requires
                n <= 0x40000000000000000000000000000000,
        ;
    }
    while bit > 0
        invariant
            n <= 0x40000000000000000000000000000000,
            bit > 0 ==> bit == pow2(bit_log) && bit_log <= 63,
            bit <= 0x8000000000000000,
            r <= 0x8000000000000000,
            r as int * r as int <= n as int,
            bit > 0 ==> (r as int + 2 * bit as int) * (r as int + 2 * bit as int) > n as int,
            bit == 0 ==> (r as int + 1) * (r as int + 1) > n as int,
        decreases bit,
    {
        let cand: u128 = r + bit;
        if cand <= 0x8000000000000000 {
            proof {
                assert(cand as int * cand as int <= 0x40000000000000000000000000000000int)
                    by (nonlinear_arith)
                    requires
                        0 <= cand as int <= 0x8000000000000000,
                ;
            }
            if cand * cand <= n {
                r = cand;
            }
        } else {
            proof {
                // The oversized candidate's square already exceeds n.
                assert(cand as int * cand as int > n as int) by (nonlinear_arith)
                    requires
                        cand as int > 0x8000000000000000,
                        n <= 0x40000000000000000000000000000000,
                ;
            }
        }
        proof {
            // (r + bit)^2 > n holds in every branch: either the candidate was
            // rejected, or r absorbed bit and the old invariant
            // (r0 + 2 * bit)^2 > n bounds the new candidate.
            assert((r as int + bit as int) * (r as int + bit as int) > n as int);
            if bit_log > 0 {
                lemma_pow2_unfold(bit_log);
                bit_log = (bit_log - 1) as nat;
                assert(bit as int / 2 == pow2(bit_log)) by {
                    lemma_div_multiples_vanish(pow2(bit_log) as int, 2);
                }
                assert(r as int + 2 * (bit as int / 2) == r as int + bit as int);
            } else {
                assert(bit == 1) by {
                    lemma2_to64();
                }
            }
        }
        bit = bit / 2;
    }
    proof {
        lemma_sqrt_floor_unique(n as int, r as int, sqrt_floor(n as int));
    }
    r
}

} // verus!
