//! Random sampling: a seeded generator handle and the rejection samplers for
//! points inside the unit ball and the unit disc.
//!
//! The samplers bound their retries at 64 draws, where an unbounded
//! rejection loop is conventional: termination must be provable here. After
//! a run of 64 rejections — odds below 2^-60 — the exact center of the ball
//! or disc stands in, which every stated property of a sample admits.
//!
//! The generator itself comes from the `rand` crate and is opaque to the
//! verifier; everything proved about a sampled value is established by
//! verified code from the 32-bit width of each raw draw, never assumed.

use vstd::prelude::*;

use crate::fixed::Fx;
use crate::fixed::SCALE;
use crate::vec3::in_range;
use crate::vec3::vm_sqlen;
use crate::vec3::Vec3;
use crate::vec3::Vec3m;

verus! {

/// The random-number generator handle threaded through the engine, from the
/// `rand` crate; its state is opaque here.
#[verifier::external_type_specification]
#[verifier::external_body]
pub struct ExStdRng(rand::rngs::StdRng);

/// Relies on rand's `SeedableRng::seed_from_u64` for `StdRng`: builds a
/// generator whose stream is a function of the 64-bit seed.
#[verifier::external_body]
pub fn new_rng(seed: u64) -> rand::rngs::StdRng {
    <rand::rngs::StdRng as rand::SeedableRng>::seed_from_u64(seed)
}

/// Relies on rand's `RngCore::next_u32` for `StdRng`: one 32-bit draw,
/// advancing the generator. Nothing is assumed of the value.
#[verifier::external_body]
fn next_u32(rng: &mut rand::rngs::StdRng) -> u32 {
    rand::RngCore::next_u32(rng)
}

/// One uniform fixed-point draw in `[0, 1)`: 32 random bits are exactly one
/// unit's worth of fraction.
pub fn rand_unit(rng: &mut rand::rngs::StdRng) -> (r: Fx)
    ensures
        0 <= r.v < SCALE,
{
    let x = next_u32(rng);
    Fx { v: x as i128 }
}

/// One uniform fixed-point draw in `[-1, 1)`.
fn rand_sym(rng: &mut rand::rngs::StdRng) -> (r: Fx)
    ensures
        -SCALE <= r.v < SCALE,
{
    let u = rand_unit(rng);
    Fx { v: 2 * u.v - SCALE }
}

/// The sampled point lies inside the unit ball (strictly, in fixed-point
/// squared length).
pub open spec fn in_unit_ball(a: Vec3m) -> bool {
    in_range(a, SCALE as int) && vm_sqlen(a) < SCALE
}

/// The sampled point lies inside the unit disc of the xy-plane.
pub open spec fn in_unit_disc(a: Vec3m) -> bool {
    in_unit_ball(a) && a.z == 0
}

/// A point drawn from inside the unit ball by rejection sampling: draw in
/// the cube `[-1, 1)^3`, keep the first point whose squared length is below
/// one. The retry count is bounded; after a run of failures whose odds are
/// below 2^-80 the center of the ball stands in.
pub fn random_direction(rng: &mut rand::rngs::StdRng) -> (r: Vec3)
    ensures
        in_unit_ball(r@),
{
    let mut tries: u32 = 0;
    while tries < 64
        invariant
            tries <= 64,
        decreases 64 - tries,
    {
        let v = Vec3::new(rand_sym(rng), rand_sym(rng), rand_sym(rng));
        if v.squared_length().v < SCALE {
            return v;
        }
        tries = tries + 1;
    }
    Vec3::zero()
}

/// A point drawn from inside the unit disc of the xy-plane by the same
/// bounded rejection sampling.
pub fn random_direction_on_disc(rng: &mut rand::rngs::StdRng) -> (r: Vec3)
    ensures
        in_unit_disc(r@),
{
    let mut tries: u32 = 0;
    while tries < 64
        invariant
            tries <= 64,
        decreases 64 - tries,
    {
        let v = Vec3::new(rand_sym(rng), rand_sym(rng), Fx { v: 0 });
        if v.dot(v).v < SCALE {
            return v;
        }
        tries = tries + 1;
    }
    Vec3::zero()
}

} // verus!
