//! The sphere primitive and its closed-form quadratic intersection.

use vstd::math::abs;
use vstd::prelude::*;

use crate::fixed::fdiv;
use crate::fixed::fits;
use crate::fixed::fmul;
use crate::fixed::is_sqrt;
use crate::fixed::lemma_fmul_bound;
use crate::fixed::lemma_tdiv_neg;
use crate::fixed::sqrt_floor;
use crate::fixed::Fx;
use crate::fixed::SCALE;
use crate::hitable::opt_rec_view;
use crate::hitable::HitRecord;
use crate::hitable::HitRecordm;
use crate::hitable::NORMAL_TOL;
use crate::hitable::POS_MAX;
use crate::material::material_wf;
use crate::material::MaterialKind;
use crate::ray::rm_point_at;
use crate::ray::Ray;
use crate::ray::Raym;
use crate::ray::DIR_MAX;
use crate::ray::T_BOUND;
use crate::vec3::in_range;
use crate::vec3::lemma_dot_bound;
use crate::vec3::vm_div_s;
use crate::vec3::vm_dot;
use crate::vec3::vm_neg;
use crate::vec3::vm_sqlen;
use crate::vec3::vm_sub;
use crate::vec3::Vec3;

verus! {

/// Largest sphere-center component (and radius) magnitude the scene accepts.
pub const CENTER_MAX: i128 = 0x400_0000_0000;

/// A sphere: center, radius (negative for an inward-facing shell), and the
/// material covering it.
#[derive(Clone, Copy, PartialEq, Eq, Structural, Debug)]
pub struct Sphere {
    pub center: Vec3,
    pub radius: Fx,
    pub material: MaterialKind,
}

/// Authoring bounds for a sphere: center in the world box, radius non-zero
/// (else no normal exists) and bounded, material within convention.
pub open spec fn sphere_wf(s: Sphere) -> bool {
    &&& in_range(s.center@, CENTER_MAX as int)
    &&& 1 <= abs(s.radius.v as int) <= CENTER_MAX as int
    &&& material_wf(s.material)
}

/// The record a root `t` would produce: position on the ray, normal scaled
/// from the center offset by the (signed) radius.
pub open spec fn sphere_root_rec(s: Sphere, ray: Raym, t: int) -> HitRecordm {
    let pos = rm_point_at(ray, t);
    HitRecordm {
        t,
        pos,
        normal: vm_div_s(vm_sub(pos, s.center@), s.radius.v as int),
        material: s.material,
    }
}

/// The numeric acceptance test on a candidate record: position inside the world box and
/// a normal that is unit length to within the tolerance. A candidate that
/// fails it carries no meaningful surface frame and is reported as a miss.
pub open spec fn root_ok(s: Sphere, ray: Raym, t: int) -> bool {
    let rec = sphere_root_rec(s, ray, t);
    &&& in_range(rec.pos, POS_MAX as int)
    &&& in_range(rec.normal, 2 * SCALE)
    &&& SCALE - NORMAL_TOL <= vm_sqlen(rec.normal) <= SCALE + NORMAL_TOL
}

/// The quadratic intersection, exactly as computed: coefficients from dot
/// products, the nearer root tried first, the farther root only if the
/// nearer one misses the interval, each root screened by `root_ok`.
pub open spec fn sphere_hit_spec(s: Sphere, ray: Raym, t_min: int, t_max: int) -> Option<
    HitRecordm,
> {
    let oc = vm_sub(ray.origin, s.center@);
    let a = vm_dot(ray.direction, ray.direction);
    let b = vm_dot(oc, ray.direction);
    let c = vm_dot(oc, oc) - fmul(s.radius.v as int, s.radius.v as int);
    let disc = fmul(b, b) - fmul(a, c);
    if disc > 0 && a > 0 {
        let sq = sqrt_floor(disc * (SCALE as int));
        let t1 = fdiv(-b - sq, a);
        if t_min < t1 && t1 < t_max {
            if root_ok(s, ray, t1) {
                Some(sphere_root_rec(s, ray, t1))
            } else {
                None
            }
        } else {
            let t2 = fdiv(-b + sq, a);
            if t_min < t2 && t2 < t_max {
                if root_ok(s, ray, t2) {
                    Some(sphere_root_rec(s, ray, t2))
                } else {
                    None
                }
            } else {
                None
            }
        }
    } else {
        None
    }
}

impl Sphere {
    /// Build a sphere from its parts.
    pub fn new(center: Vec3, radius: Fx, material: MaterialKind) -> (r: Sphere)
        ensures
            r.center == center && r.radius == radius && r.material == material,
    {
        Sphere { center, radius, material }
    }

    /// Build and screen the record for one root.
    fn root_record(&self, ray: &Ray, t: Fx) -> (r: Option<HitRecord>)
        requires
            sphere_wf(*self),
            in_range(ray@.origin, POS_MAX as int),
            in_range(ray@.direction, DIR_MAX as int),
            abs(t.v as int) <= T_BOUND as int,
        ensures
            opt_rec_view(r) == (if root_ok(*self, ray@, t.v as int) {
                Some(sphere_root_rec(*self, ray@, t.v as int))
            } else {
                None::<HitRecordm>
            }),
    {
        let pos = ray.point_at_parameter(t);
        if !pos.in_box(POS_MAX) {
            return None;
        }
        let delta = pos.sub(self.center);
        let normal = delta.div_s(self.radius);
        if !normal.in_box(2 * SCALE) {
            return None;
        }
        let q = normal.squared_length();
        if q.v < SCALE - NORMAL_TOL || q.v > SCALE + NORMAL_TOL {
            return None;
        }
        Some(HitRecord::new(t, pos, normal, self.material))
    }

    /// Report the nearest intersection of the ray with this sphere whose
    /// parameter lies strictly inside `(t_min, t_max)`, if any.
    ///
    /// Relative to the unconditional protocol (a hit whenever a root lies in
    /// the interval), this contract is deliberately weaker in one direction:
    /// a qualifying root whose record fails the numeric acceptance test of
    /// `root_ok` — or a ray whose rounded direction square `a` vanishes — is
    /// reported as a miss, since no well-formed surface frame exists for it.
    /// The weakening cannot be discharged for all admitted inputs: at an
    /// ill-conditioned root (a grazing ray whose discriminant is a few raw
    /// units) the computed parameter genuinely drifts from the surface and
    /// the recorded normal is genuinely far from unit, so rejection is the
    /// honest outcome there. `lemma_sphere_hit_complete` states the envelope
    /// on which a hit is guaranteed, and `lemma_inside_origin_skips_near_root`
    /// the interval logic for a ray starting inside the sphere.
    pub fn hit(&self, ray: &Ray, t_min: Fx, t_max: Fx) -> (r: Option<HitRecord>)
        requires
            sphere_wf(*self),
            in_range(ray@.origin, POS_MAX as int),
            in_range(ray@.direction, DIR_MAX as int),
            abs(t_min.v as int) <= T_BOUND as int,
            abs(t_max.v as int) <= T_BOUND as int,
        ensures
            opt_rec_view(r) == sphere_hit_spec(*self, ray@, t_min.v as int, t_max.v as int),
    {
        proof {
            lemma_hit_ranges(*self, ray@);
        }
        let oc = ray.origin.sub(self.center);
        let a = ray.direction.dot(ray.direction);
        let b = oc.dot(ray.direction);
        let rr = self.radius.mul(self.radius);
        let c = oc.dot(oc).sub(rr);
        proof {
            assert(-0x3000_0000_0000_0000 <= b.v <= 0x3000_0000_0000_0000);
            assert(-0xc000_0000_0000_0000 <= a.v <= 0xc000_0000_0000_0000);
            assert(-0x1000_0000_0000_0000 <= c.v <= 0x1000_0000_0000_0000);
            assert(fits((b.v as int) * (b.v as int))) by (nonlinear_arith)
                requires
                    -0x3000_0000_0000_0000 <= b.v <= 0x3000_0000_0000_0000,
            ;
            assert(fits((a.v as int) * (c.v as int))) by (nonlinear_arith)
                requires
                    -0xc000_0000_0000_0000 <= a.v <= 0xc000_0000_0000_0000,
                    -0x1000_0000_0000_0000 <= c.v <= 0x1000_0000_0000_0000,
            ;
            crate::fixed::lemma_fmul_bound(b.v as int, b.v as int, 0x3000_0000_0000_0000int, 0x3000_0000_0000_0000int);
            crate::fixed::lemma_fmul_bound(a.v as int, c.v as int, 0xc000_0000_0000_0000int, 0x1000_0000_0000_0000int);
        }
        let bb = b.mul(b);
        let ac = a.mul(c);
        let disc = bb.sub(ac);
        if disc.v > 0 && a.v > 0 {
            let sq = disc.sqrt();
            proof {
                assert(sq.v <= 0x8000_0000_0000_0000i128) by (nonlinear_arith)
                    requires
                        sq.v >= 0,
                        (sq.v as int) * (sq.v as int) <= (disc.v as int) * (SCALE as int),
                        (disc.v as int) * (SCALE as int) < 0x4000_0000_0000_0000_0000_0000_0000_0000int,
                ;
            }
            let neg_b = b.neg();
            let t1 = neg_b.sub(sq).div(a);
            if t1.v < t_max.v && t1.v > t_min.v {
                return self.root_record(ray, t1);
            }
            let t2 = neg_b.add(sq).div(a);
            if t2.v < t_max.v && t2.v > t_min.v {
                return self.root_record(ray, t2);
            }
            return None;
        }
        None
    }
}

/// Magnitude bounds for the quadratic's coefficients, from the authoring
/// bounds on the sphere and the ray.
proof fn lemma_hit_ranges(s: Sphere, ray: Raym)
    requires
        sphere_wf(s),
        in_range(ray.origin, POS_MAX as int),
        in_range(ray.direction, DIR_MAX as int),
    ensures
        in_range(vm_sub(ray.origin, s.center@), 0x2000_0000_0000int),
        abs(vm_dot(ray.direction, ray.direction)) <= 0xc000_0000_0000_0000int,
        abs(vm_dot(vm_sub(ray.origin, s.center@), ray.direction)) <= 0x3000_0000_0000_0000int,
        abs(vm_dot(vm_sub(ray.origin, s.center@), vm_sub(ray.origin, s.center@)))
            <= 0xc00_0000_0000_0000int,
        abs(fmul(s.radius.v as int, s.radius.v as int)) <= 0x10_0000_0000_0000int,
        fits((s.radius.v as int) * (s.radius.v as int)),
        abs(
            vm_dot(vm_sub(ray.origin, s.center@), vm_sub(ray.origin, s.center@)) - fmul(
                s.radius.v as int,
                s.radius.v as int,
            ),
        ) <= 0x1000_0000_0000_0000int,
{
    let oc = vm_sub(ray.origin, s.center@);
    assert(in_range(oc, 0x2000_0000_0000int));
    lemma_dot_bound(ray.direction, ray.direction, 0x8000_0000_0000int, 0x8000_0000_0000int);
    lemma_dot_bound(oc, ray.direction, 0x2000_0000_0000int, 0x8000_0000_0000int);
    lemma_dot_bound(oc, oc, 0x2000_0000_0000int, 0x2000_0000_0000int);
    lemma_fmul_bound(s.radius.v as int, s.radius.v as int, CENTER_MAX as int, CENTER_MAX as int);
}

/// With a positive leading coefficient the nearer root comes first.
proof fn lemma_roots_ordered(b: int, sq: int, a: int)
    requires
        a > 0,
        sq >= 0,
    ensures
        fdiv(-b - sq, a) <= fdiv(-b + sq, a),
{
    assert((-b - sq) * (SCALE as int) <= (-b + sq) * (SCALE as int)) by {
        vstd::arithmetic::mul::lemma_mul_inequality(-b - sq, -b + sq, SCALE as int);
    }
    crate::fixed::lemma_tdiv_mono((-b - sq) * (SCALE as int), (-b + sq) * (SCALE as int), a);
}

/// The square root of the discriminant argument is non-negative.
proof fn lemma_disc_sqrt_nonneg(disc: int)
    requires
        disc > 0,
    ensures
        sqrt_floor(disc * (SCALE as int)) >= 0,
        is_sqrt(disc * (SCALE as int), sqrt_floor(disc * (SCALE as int))),
{
    assert(disc * (SCALE as int) >= 0) by (nonlinear_arith)
        requires
            disc > 0,
            SCALE == 4294967296i128,
    ;
    crate::fixed::lemma_sqrt_floor(disc * (SCALE as int));
}

/// Completeness on the screened envelope: whenever the quadratic is
/// non-degenerate and a root both lies strictly inside the interval and
/// passes the numeric acceptance test, the query reports that root's record
/// (the nearer root first, the farther root when the nearer one misses the
/// interval).
pub proof fn lemma_sphere_hit_complete(s: Sphere, ray: Raym, t_min: int, t_max: int)
    ensures
        ({
            let oc = vm_sub(ray.origin, s.center@);
            let a = vm_dot(ray.direction, ray.direction);
            let b = vm_dot(oc, ray.direction);
            let c = vm_dot(oc, oc) - fmul(s.radius.v as int, s.radius.v as int);
            let disc = fmul(b, b) - fmul(a, c);
            let sq = sqrt_floor(disc * (SCALE as int));
            let t1 = fdiv(-b - sq, a);
            let t2 = fdiv(-b + sq, a);
            &&& (disc > 0 && a > 0 && t_min < t1 < t_max && root_ok(s, ray, t1)
                ==> sphere_hit_spec(s, ray, t_min, t_max) == Some(sphere_root_rec(s, ray, t1)))
            &&& (disc > 0 && a > 0 && !(t_min < t1 < t_max) && t_min < t2 < t_max && root_ok(
                s,
                ray,
                t2,
            ) ==> sphere_hit_spec(s, ray, t_min, t_max) == Some(sphere_root_rec(s, ray, t2)))
        }),
{
}

/// A ray whose origin lies strictly inside the sphere — by at least one raw
/// unit at product scale, so the rounded constant term is negative — is
/// never reported at the nearer root: that root is non-positive (behind or
/// at the origin), every positive lower bound excludes it, and the query
/// falls through to the farther root, the far boundary.
pub proof fn lemma_inside_origin_skips_near_root(s: Sphere, ray: Raym, t_min: int, t_max: int)
    requires
        ({
            let oc = vm_sub(ray.origin, s.center@);
            let a = vm_dot(ray.direction, ray.direction);
            let c = vm_dot(oc, oc) - fmul(s.radius.v as int, s.radius.v as int);
            a >= 1 && fmul(a, c) <= -1
        }),
        t_min > 0,
    ensures
        ({
            let oc = vm_sub(ray.origin, s.center@);
            let a = vm_dot(ray.direction, ray.direction);
            let b = vm_dot(oc, ray.direction);
            let c = vm_dot(oc, oc) - fmul(s.radius.v as int, s.radius.v as int);
            let disc = fmul(b, b) - fmul(a, c);
            let t2 = fdiv(-b + sqrt_floor(disc * (SCALE as int)), a);
            sphere_hit_spec(s, ray, t_min, t_max) == (if t_min < t2 && t2 < t_max && root_ok(
                s,
                ray,
                t2,
            ) {
                Some(sphere_root_rec(s, ray, t2))
            } else {
                None::<HitRecordm>
            })
        }),
{
    let ss = SCALE as int;
    let oc = vm_sub(ray.origin, s.center@);
    let a = vm_dot(ray.direction, ray.direction);
    let b = vm_dot(oc, ray.direction);
    let c = vm_dot(oc, oc) - fmul(s.radius.v as int, s.radius.v as int);
    let disc = fmul(b, b) - fmul(a, c);
    crate::vec3::lemma_sq_term_nonneg(b);
    assert(disc >= fmul(b, b) + 1);
    lemma_disc_sqrt_nonneg(disc);
    let sq = sqrt_floor(disc * ss);
    // the root of the discriminant clears the linear coefficient
    crate::fixed::lemma_tdiv_rem_nonneg(b * b, ss);
    assert(disc * ss >= b * b + 1) by (nonlinear_arith)
        requires
            disc >= fmul(b, b) + 1,
            ss * fmul(b, b) >= b * b - ss + 1,
            b * b - ss * fmul(b, b) <= ss - 1,
            ss == 4294967296,
    ;
    assert(sq + 1 > abs(b)) by (nonlinear_arith)
        requires
            (sq + 1) * (sq + 1) > b * b,
            sq >= 0,
    ;
    // so the nearer root is non-positive and below every positive lower bound
    assert(-b - sq <= 0);
    assert((-b - sq) * ss <= 0) by (nonlinear_arith)
        requires
            -b - sq <= 0,
            ss > 0,
    ;
    crate::fixed::lemma_tdiv_abs((-b - sq) * ss, a);
    assert(fdiv(-b - sq, a) <= 0);
}

/// A miss against some upper bound stays a miss against any smaller bound:
/// shrinking the query interval can only discard intersections.
pub proof fn lemma_sphere_hit_none_mono(s: Sphere, ray: Raym, t_min: int, m1: int, m2: int)
    requires
        sphere_hit_spec(s, ray, t_min, m1) is None,
        m2 <= m1,
    ensures
        sphere_hit_spec(s, ray, t_min, m2) is None,
{
    let oc = vm_sub(ray.origin, s.center@);
    let a = vm_dot(ray.direction, ray.direction);
    let b = vm_dot(oc, ray.direction);
    let c = vm_dot(oc, oc) - fmul(s.radius.v as int, s.radius.v as int);
    let disc = fmul(b, b) - fmul(a, c);
    if disc > 0 && a > 0 {
        let sq = sqrt_floor(disc * (SCALE as int));
        lemma_disc_sqrt_nonneg(disc);
        lemma_roots_ordered(b, sq, a);
    }
}

/// When a sphere reports a hit, narrowing the upper bound to the reported
/// parameter leaves no hit: the reported root is the sphere's nearest.
pub proof fn lemma_sphere_hit_shrink_to_self(s: Sphere, ray: Raym, t_min: int, m: int)
    ensures
        match sphere_hit_spec(s, ray, t_min, m) {
            Some(rec) => sphere_hit_spec(s, ray, t_min, rec.t) is None,
            None => true,
        },
{
    let oc = vm_sub(ray.origin, s.center@);
    let a = vm_dot(ray.direction, ray.direction);
    let b = vm_dot(oc, ray.direction);
    let c = vm_dot(oc, oc) - fmul(s.radius.v as int, s.radius.v as int);
    let disc = fmul(b, b) - fmul(a, c);
    if disc > 0 && a > 0 {
        let sq = sqrt_floor(disc * (SCALE as int));
        lemma_disc_sqrt_nonneg(disc);
        lemma_roots_ordered(b, sq, a);
    }
}

/// Negating a sphere's radius leaves every intersection at the same
/// parameter and position and reverses the reported normal.
pub proof fn lemma_negated_radius(s: Sphere, ray: Raym, t_min: int, t_max: int)
    requires
        s.radius.v != 0,
        s.radius.v > i128::MIN,
    ensures
        ({
            let s2 = Sphere {
                center: s.center,
                radius: Fx { v: (-s.radius.v) as i128 },
                material: s.material,
            };
            match sphere_hit_spec(s, ray, t_min, t_max) {
                Some(rec) => sphere_hit_spec(s2, ray, t_min, t_max) == Some(
                    HitRecordm {
                        t: rec.t,
                        pos: rec.pos,
                        normal: vm_neg(rec.normal),
                        material: rec.material,
                    },
                ),
                None => sphere_hit_spec(s2, ray, t_min, t_max) is None,
            }
        }),
{
    let s2 = Sphere { center: s.center, radius: Fx { v: (-s.radius.v) as i128 }, material: s.material };
    let rv = s.radius.v as int;
    // the squared radius, and with it the whole quadratic, is unchanged
    assert((-rv) * (-rv) == rv * rv) by (nonlinear_arith);
    let oc = vm_sub(ray.origin, s.center@);
    let a = vm_dot(ray.direction, ray.direction);
    let b = vm_dot(oc, ray.direction);
    let disc = fmul(b, b) - fmul(a, vm_dot(oc, oc) - fmul(rv, rv));
    if disc > 0 && a > 0 {
        let sq = sqrt_floor(disc * (SCALE as int));
        let t1 = fdiv(-b - sq, a);
        let t2 = fdiv(-b + sq, a);
        lemma_negated_radius_root(s, ray, t1);
        lemma_negated_radius_root(s, ray, t2);
    }
}

/// One root's record under a negated radius: same parameter and position,
/// reversed normal, and the same verdict from the acceptance test.
proof fn lemma_negated_radius_root(s: Sphere, ray: Raym, t: int)
    requires
        s.radius.v != 0,
        s.radius.v > i128::MIN,
    ensures
        ({
            let s2 = Sphere {
                center: s.center,
                radius: Fx { v: (-s.radius.v) as i128 },
                material: s.material,
            };
            &&& sphere_root_rec(s2, ray, t) == (HitRecordm {
                t,
                pos: sphere_root_rec(s, ray, t).pos,
                normal: vm_neg(sphere_root_rec(s, ray, t).normal),
                material: s.material,
            })
            &&& root_ok(s2, ray, t) == root_ok(s, ray, t)
        }),
{
    let s2 = Sphere { center: s.center, radius: Fx { v: (-s.radius.v) as i128 }, material: s.material };
    let rv = s.radius.v as int;
    let pos = rm_point_at(ray, t);
    let delta = vm_sub(pos, s.center@);
    lemma_tdiv_neg(delta.x * (SCALE as int), rv);
    lemma_tdiv_neg(delta.y * (SCALE as int), rv);
    lemma_tdiv_neg(delta.z * (SCALE as int), rv);
    assert(s2.radius.v as int == -rv);
    let n = vm_div_s(delta, rv);
    assert(vm_div_s(delta, -rv) == vm_neg(n));
    // negation changes no magnitude and no square
    assert((-n.x) * (-n.x) == n.x * n.x) by (nonlinear_arith);
    assert((-n.y) * (-n.y) == n.y * n.y) by (nonlinear_arith);
    assert((-n.z) * (-n.z) == n.z * n.z) by (nonlinear_arith);
}

} // verus!
