//! Rays: an origin, a direction, and the parametric point evaluator.

use crate::fixed::Fx;
use crate::vec3::in_range;
use crate::vec3::vm_add;
use crate::vec3::vm_scale;
use crate::vec3::Vec3;
use crate::vec3::Vec3m;
use crate::vec3::VEC_OP_MAX;
use vstd::math::abs;
use vstd::prelude::*;

verus! {

/// Largest direction-component magnitude the intersection math accepts.
pub const DIR_MAX: i128 = 0x8000_0000_0000;

/// Largest parametric distance magnitude the point evaluator accepts.
pub const T_BOUND: i128 = 0x400_0000_0000;

/// Spec-level model of a ray.
pub struct Raym {
    pub origin: Vec3m,
    pub direction: Vec3m,
}

/// A ray: origin plus direction. The direction need not be unit length.
#[derive(Clone, Copy, PartialEq, Eq, Structural, Debug)]
pub struct Ray {
    pub origin: Vec3,
    pub direction: Vec3,
}

impl View for Ray {
    type V = Raym;

    open spec fn view(&self) -> Raym {
        Raym { origin: self.origin@, direction: self.direction@ }
    }
}

/// The point reached after parameter `t`: `origin + direction * t`.
pub open spec fn rm_point_at(r: Raym, t: int) -> Vec3m {
    vm_add(r.origin, vm_scale(r.direction, t))
}

impl Ray {
    /// Build a ray from origin and direction.
    pub fn new(origin: Vec3, direction: Vec3) -> (r: Ray)
        ensures
            r.origin == origin && r.direction == direction,
    {
        Ray { origin, direction }
    }

    /// Evaluate the ray at parameter `t`.
    pub fn point_at_parameter(&self, t: Fx) -> (r: Vec3)
        requires
            in_range(self@.origin, VEC_OP_MAX as int),
            in_range(self@.direction, DIR_MAX as int),
            abs(t.v as int) <= T_BOUND as int,
        ensures
            r@ == rm_point_at(self@, t.v as int),
    {
        proof {
            crate::fixed::lemma_fmul_bound(self@.direction.x, t.v as int, DIR_MAX as int, T_BOUND as int);
            crate::fixed::lemma_fmul_bound(self@.direction.y, t.v as int, DIR_MAX as int, T_BOUND as int);
            crate::fixed::lemma_fmul_bound(self@.direction.z, t.v as int, DIR_MAX as int, T_BOUND as int);
        }
        self.origin.add(self.direction.scale(t))
    }
}

} // verus!
