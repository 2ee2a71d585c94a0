//! The random source and angle conversion.
//!
//! All randomness enters the library through one wrapper around `rand`;
//! every function here states what holds of every possible draw.

use vstd::prelude::*;

use crate::fixed::{fdiv, fdiv_s, fmul, fmul_s, lemma_fmul_s_bound, SCALE};
use crate::vec3::{Colour, Vec3};

verus! {

/// The circle constant on the fixed-point grid, rounded to the nearest
/// millionth.
pub const PI_FIXED: i128 = 3_141_593;

/// Degrees to radians: multiply by pi and divide by 180, on the grid.
pub open spec fn d2r_s(d: int) -> int {
    fdiv_s(fmul_s(d, PI_FIXED as int), 180 * (SCALE as int))
}

/// Relies on rand's `Rng::gen_range`: a uniform integer in `[lo, hi)`,
/// independent across calls.  `gen_range` panics on an empty range, so
/// the range is required to be non-empty.
#[verifier::external_body]
fn rand_range_raw(lo: i128, hi: i128) -> (r: i128)
    requires
        lo < hi,
    ensures
        lo <= r < hi,
{
    rand::Rng::gen_range(&mut rand::thread_rng(), lo..hi)
}

/// A uniform scalar in `[0, 1)`.
pub fn random_unit() -> (r: i128)
    ensures
        0 <= r < SCALE,
{
    rand_range_raw(0, SCALE)
}

/// A uniform scalar in `[min, max]`.
pub fn random_in_range(min: i128, max: i128) -> (r: i128)
    requires
        min <= max < i128::MAX,
    ensures
        min <= r <= max,
{
    rand_range_raw(min, max + 1)
}

/// Degrees to radians on the fixed-point grid.
pub fn degrees_to_radians(degrees: i128) -> (r: i128)
    requires
        -1_000_000_000_000 <= degrees <= 1_000_000_000_000,
    ensures
        r == d2r_s(degrees as int),
{
    proof {
        lemma_fmul_s_bound(
            degrees as int,
            PI_FIXED as int,
            1_000_000_000_000 as int,
            4_000_000 as int,
        );
        assert(1_000_000_000_000int * 4_000_000 / (SCALE as int) == 4_000_000_000_000int);
    }
    fdiv(fmul(degrees, PI_FIXED), 180 * SCALE)
}

/// A point drawn in the open unit ball: coordinates are sampled uniformly
/// in `[-1, 1)` until the squared length falls below one, with the centre
/// as deterministic fallback after a bounded number of draws.
pub fn random_in_unit_sphere() -> (p: Vec3)
    ensures
        p@.in_bounds(SCALE as int),
        p@.len_sq_s() < SCALE as int,
{
    let mut p = Vec3::new(0, 0, 0);
    let mut found = false;
    let mut i: u8 = 0;
    proof {
        vstd::arithmetic::div_mod::lemma_div_of0(SCALE as int);
        assert(p@.len_sq_s() == 0);
    }
    while i < 32
        invariant
            p@.in_bounds(SCALE as int),
            p@.len_sq_s() < SCALE as int,
        decreases 32 - i,
    {
        if !found {
            let c = Vec3::new(
                rand_range_raw(-SCALE, SCALE),
                rand_range_raw(-SCALE, SCALE),
                rand_range_raw(-SCALE, SCALE),
            );
            let ls = c.length_squared();
            if ls < SCALE {
                p = c;
                found = true;
            }
        }
        i = i + 1;
    }
    p
}

/// A direction of unit length, up to grid rounding: a point is drawn in
/// the unit ball and normalized.  Draws shorter than half a unit are
/// rejected, so the grid resolves the division accurately, and a fixed
/// unit vector is the deterministic fallback when every draw is too
/// short.
pub fn random_unit_vector() -> (u: Vec3)
    ensures
        u@.in_bounds(3 * (SCALE as int)),
{
    let mut u = Vec3::new(0, 0, SCALE);
    let mut found = false;
    let mut i: u8 = 0;
    while i < 32
        invariant
            u@.in_bounds(3 * (SCALE as int)),
        decreases 32 - i,
    {
        if !found {
            let c = Vec3::new(
                rand_range_raw(-SCALE, SCALE),
                rand_range_raw(-SCALE, SCALE),
                rand_range_raw(-SCALE, SCALE),
            );
            let ls = c.length_squared();
            if 250_000 <= ls && ls < SCALE {
                u = c.normalized();
                found = true;
            }
        }
        i = i + 1;
    }
    u
}

/// A colour with every channel drawn uniformly in `[0, 1)`.
pub fn random_colour() -> (c: Colour)
    ensures
        crate::material::colour_wf(c@),
{
    Vec3::new(rand_range_raw(0, SCALE), rand_range_raw(0, SCALE), rand_range_raw(0, SCALE))
}

/// A colour with every channel drawn uniformly in `[min, max]`.
pub fn random_colour_in_range(min: i128, max: i128) -> (c: Colour)
    requires
        0 <= min <= max <= SCALE,
    ensures
        crate::material::colour_wf(c@),
    {
    Vec3::new(
        rand_range_raw(min, max + 1),
        rand_range_raw(min, max + 1),
        rand_range_raw(min, max + 1),
    )
}

} // verus!
