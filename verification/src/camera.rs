//! The thin-lens camera: derived per-frame state and lens-sampled rays.

use vstd::math::abs;
use vstd::prelude::*;

use crate::fixed::fdiv;
use crate::fixed::fmul;
use crate::fixed::lemma_fmul_bound;
use crate::fixed::lemma_tdiv_abs;
use crate::fixed::lemma_tdiv_bound;
use crate::fixed::tdiv;
use crate::fixed::Fx;
use crate::fixed::SCALE;
use crate::random::in_unit_disc;
use crate::random::random_direction_on_disc;
use crate::ray::Ray;
use crate::ray::Raym;
use crate::ray::DIR_MAX;
use crate::sphere::CENTER_MAX;
use crate::vec3::in_range;
use crate::vec3::lemma_normalize_bounds;
use crate::vec3::lemma_sq_term_nonneg;
use crate::vec3::vm_add;
use crate::vec3::vm_cross;
use crate::vec3::vm_neg;
use crate::vec3::vm_normalize;
use crate::vec3::vm_scale;
use crate::vec3::vm_sqlen;
use crate::vec3::vm_sub;
use crate::vec3::Vec3;
use crate::vec3::Vec3m;
use crate::hitable::POS_MAX;

verus! {

/// Half a degree in radians, fixed point: the vertical field of view in
/// degrees times this constant is the half-angle in radians.
pub const PI_OVER_360: i128 = 37480660;

/// Largest half-angle (in radians, fixed point) the tangent series accepts:
/// one hundred degrees of field of view.
pub const TAN_ARG_MAX: i128 = 3748066000;

/// The truncated sine series: `x - x^3/6 + x^5/120 - x^7/5040`, with every
/// product and quotient rounded as computed.
pub open spec fn sin_taylor(x: int) -> int {
    let x2 = fmul(x, x);
    let x4 = fmul(x2, x2);
    let x6 = fmul(x4, x2);
    x - tdiv(fmul(x, x2), 6) + tdiv(fmul(x, x4), 120) - tdiv(fmul(x, x6), 5040)
}

/// The truncated cosine series: `1 - x^2/2 + x^4/24 - x^6/720`.
pub open spec fn cos_taylor(x: int) -> int {
    let x2 = fmul(x, x);
    let x4 = fmul(x2, x2);
    let x6 = fmul(x4, x2);
    SCALE - tdiv(x2, 2) + tdiv(x4, 24) - tdiv(x6, 720)
}

/// The tangent as the quotient of the two truncated series.
pub open spec fn tan_spec(x: int) -> int {
    fdiv(sin_taylor(x), cos_taylor(x))
}

/// The tangent of a half-angle in `[0, TAN_ARG_MAX]`, by truncated series.
/// On this domain the cosine series stays well away from zero.
pub fn tan_approx(x: Fx) -> (r: Fx)
    requires
        0 <= x.v <= TAN_ARG_MAX,
    ensures
        r.v == tan_spec(x.v as int),
        abs(r.v as int) <= 2 * SCALE,
{
    proof {
        lemma_fmul_bound(x.v as int, x.v as int, 3748066000int, 3748066000int);
        lemma_sq_term_nonneg(x.v as int);
    }
    let x2 = x.mul(x);
    proof {
        lemma_fmul_bound(x2.v as int, x2.v as int, 3270804588int, 3270804588int);
        lemma_sq_term_nonneg(x2.v as int);
    }
    let x4 = x2.mul(x2);
    proof {
        lemma_fmul_bound(x4.v as int, x2.v as int, 2490860096int, 3270804588int);
        assert(x4.v as int * x2.v as int >= 0) by (nonlinear_arith)
            requires
                x4.v >= 0,
                x2.v >= 0,
        ;
        lemma_tdiv_abs(x4.v as int * x2.v as int, SCALE as int);
    }
    let x6 = x4.mul(x2);
    proof {
        lemma_tdiv_bound(x2.v as int, 2, 3270804588int);
        lemma_tdiv_abs(x2.v as int, 2);
        lemma_tdiv_bound(x4.v as int, 24, 2490860096int);
        lemma_tdiv_abs(x4.v as int, 24);
        lemma_tdiv_bound(x6.v as int, 720, 1896898408int);
        lemma_tdiv_abs(x6.v as int, 720);
    }
    let one = Fx { v: SCALE };
    let t2 = x2.div_int(2);
    let t24 = x4.div_int(24);
    let t720 = x6.div_int(720);
    let cos_v = one.sub(t2).add(t24).sub(t720);
    proof {
        lemma_fmul_bound(x.v as int, x2.v as int, 3748066000int, 3270804588int);
        lemma_fmul_bound(x.v as int, x4.v as int, 3748066000int, 2490860096int);
        lemma_fmul_bound(x.v as int, x6.v as int, 3748066000int, 1896898408int);
        lemma_tdiv_bound(fmul(x.v as int, x2.v as int), 6, 2854587745int);
        lemma_tdiv_bound(fmul(x.v as int, x4.v as int), 120, 2173898679int);
        lemma_tdiv_bound(fmul(x.v as int, x6.v as int), 5040, 1655493651int);
    }
    let s3 = x.mul(x2).div_int(6);
    let s5 = x.mul(x4).div_int(120);
    let s7 = x.mul(x6).div_int(5040);
    let sin_v = x.sub(s3).add(s5).sub(s7);
    proof {
        assert(cos_v.v >= 2600000000);
        assert(abs(sin_v.v as int) <= 4300000000int);
        crate::fixed::lemma_fdiv_ratio_bound(
            sin_v.v as int,
            cos_v.v as int,
            4300000000int,
            2600000000int,
            2 * SCALE,
        );
    }
    sin_v.div(cos_v)
}

/// Spec-level model of a camera: the derived per-frame state.
pub struct Cameram {
    pub origin: Vec3m,
    pub upper_left_corner: Vec3m,
    pub horizontal: Vec3m,
    pub vertical: Vec3m,
    pub lens_radius: int,
    pub u: Vec3m,
    pub v: Vec3m,
}

/// The camera: origin, the image plane's upper-left corner and its two span
/// vectors in world space, the lens basis, and the lens radius.
#[derive(Clone, Copy, PartialEq, Eq, Structural, Debug)]
pub struct Camera {
    pub origin: Vec3,
    pub upper_left_corner: Vec3,
    pub horizontal: Vec3,
    pub vertical: Vec3,
    pub lens_radius: Fx,
    pub u: Vec3,
    pub v: Vec3,
}

impl View for Camera {
    type V = Cameram;

    open spec fn view(&self) -> Cameram {
        Cameram {
            origin: self.origin@,
            upper_left_corner: self.upper_left_corner@,
            horizontal: self.horizontal@,
            vertical: self.vertical@,
            lens_radius: self.lens_radius.v as int,
            u: self.u@,
            v: self.v@,
        }
    }
}

/// The derived state, exactly as constructed: an orthonormal-by-construction
/// lens basis (the first axis normalized, the second orthogonal to two
/// near-unit vectors) from the view direction and the up hint, the
/// image-plane extents from the field of view and the aspect ratio, all
/// scaled to the focus distance.
pub open spec fn camera_spec(
    origin: Vec3m,
    target: Vec3m,
    up: Vec3m,
    fov: int,
    aspect: int,
    aperture: int,
    focus_dist: int,
) -> Cameram {
    let w = vm_normalize(vm_sub(origin, target));
    let u = vm_normalize(vm_cross(up, w));
    let v = vm_cross(w, u);
    let half_height = tan_spec(fmul(fov, PI_OVER_360 as int));
    let half_width = fmul(aspect, half_height);
    Cameram {
        origin,
        upper_left_corner: vm_sub(
            vm_add(
                vm_scale(vm_scale(vm_neg(u), half_width), focus_dist),
                vm_scale(vm_scale(v, half_height), focus_dist),
            ),
            vm_scale(w, focus_dist),
        ),
        horizontal: vm_scale(vm_scale(vm_scale(u, half_width), 2 * SCALE), focus_dist),
        vertical: vm_scale(vm_scale(vm_scale(v, -half_height), 2 * SCALE), focus_dist),
        lens_radius: fmul(aperture, 2147483648int),
        u,
        v,
    }
}

/// The magnitude bounds the rest of the engine needs of a camera.
pub open spec fn camera_wf(c: Cameram) -> bool {
    &&& in_range(c.origin, CENTER_MAX as int)
    &&& in_range(c.upper_left_corner, 4096 * SCALE)
    &&& in_range(c.horizontal, 4096 * SCALE)
    &&& in_range(c.vertical, 4096 * SCALE)
    &&& in_range(c.u, 2 * SCALE)
    &&& vm_sqlen(c.u) >= SCALE / 4
    &&& in_range(c.v, 8 * SCALE)
    &&& 0 <= c.lens_radius <= 4 * SCALE
}

/// The ray one lens sample produces for normalized image coordinates
/// `(u, v)`: the origin is offset across the lens, the direction aims at
/// the same focal-plane point.
pub open spec fn get_ray_spec(c: Cameram, u: int, v: int, sample: Vec3m) -> Raym {
    let rd = vm_scale(sample, c.lens_radius);
    let offset = vm_add(vm_scale(c.u, rd.x), vm_scale(c.v, rd.y));
    Raym {
        origin: vm_add(c.origin, offset),
        direction: vm_sub(
            vm_add(vm_add(c.upper_left_corner, vm_scale(c.horizontal, u)), vm_scale(c.vertical, v)),
            offset,
        ),
    }
}

impl Camera {
    /// Derive the per-frame camera state from the eye position, the look-at
    /// target, the up hint, the vertical field of view in degrees, the
    /// aspect ratio, the aperture and the focus distance.
    pub fn new(
        origin: Vec3,
        target: Vec3,
        up: Vec3,
        fov: Fx,
        aspect: Fx,
        aperture: Fx,
        focus_dist: Fx,
    ) -> (c: Camera)
        requires
            in_range(origin@, CENTER_MAX as int),
            in_range(target@, CENTER_MAX as int),
            vm_sqlen(vm_sub(origin@, target@)) >= 1,
            in_range(up@, 2 * SCALE),
            vm_sqlen(vm_cross(up@, vm_normalize(vm_sub(origin@, target@)))) >= 1,
            0 < fov.v <= 100 * SCALE,
            0 <= aspect.v <= 8 * SCALE,
            0 <= aperture.v <= 8 * SCALE,
            0 <= focus_dist.v <= 64 * SCALE,
        ensures
            c@ == camera_spec(
                origin@,
                target@,
                up@,
                fov.v as int,
                aspect.v as int,
                aperture.v as int,
                focus_dist.v as int,
            ),
            camera_wf(c@),
    {
        proof {
            lemma_normalize_bounds(vm_sub(origin@, target@));
        }
        let w = origin.sub(target).normalize();
        proof {
            lemma_cross_bound(up@, w@, 0x2_0000_0000int, 0x2_0000_0000int, 0x8_0000_0000int);
        }
        proof {
            lemma_normalize_bounds(vm_cross(up@, w@));
        }
        let u = up.cross(w).normalize();
        proof {
            lemma_cross_bound(w@, u@, 0x2_0000_0000int, 0x2_0000_0000int, 0x8_0000_0000int);
        }
        let v = w.cross(u);
        proof {
            lemma_fmul_bound(fov.v as int, PI_OVER_360 as int, 429496729600int, 37480660int);
            lemma_tdiv_abs(fov.v as int * PI_OVER_360 as int, SCALE as int);
        }
        let half_rad = fov.mul(Fx { v: PI_OVER_360 });
        let half_height = tan_approx(half_rad);
        proof {
            lemma_fmul_bound(
                aspect.v as int,
                half_height.v as int,
                0x8_0000_0000int,
                0x2_0000_0000int,
            );
        }
        let half_width = aspect.mul(half_height);
        let two = Fx { v: 2 * SCALE };
        proof {
            lemma_scale_chain(
                u@,
                half_width.v as int,
                focus_dist.v as int,
                0x2_0000_0000int,
                0x10_0000_0000int,
                0x40_0000_0000int,
                0x20_0000_0000int,
                0x800_0000_0000int,
                0x1000_0000_0000int,
            );
            lemma_scale_chain(
                vm_neg(u@),
                half_width.v as int,
                focus_dist.v as int,
                0x2_0000_0000int,
                0x10_0000_0000int,
                0x40_0000_0000int,
                0x20_0000_0000int,
                0x800_0000_0000int,
                0x1000_0000_0000int,
            );
            lemma_scale_chain(
                v@,
                half_height.v as int,
                focus_dist.v as int,
                0x8_0000_0000int,
                0x2_0000_0000int,
                0x40_0000_0000int,
                0x10_0000_0000int,
                0x400_0000_0000int,
                0x800_0000_0000int,
            );
            lemma_scale_chain(
                v@,
                -(half_height.v as int),
                focus_dist.v as int,
                0x8_0000_0000int,
                0x2_0000_0000int,
                0x40_0000_0000int,
                0x10_0000_0000int,
                0x400_0000_0000int,
                0x800_0000_0000int,
            );
            lemma_fmul_bound(w@.x, focus_dist.v as int, 0x2_0000_0000int, 0x40_0000_0000int);
            lemma_fmul_bound(w@.y, focus_dist.v as int, 0x2_0000_0000int, 0x40_0000_0000int);
            lemma_fmul_bound(w@.z, focus_dist.v as int, 0x2_0000_0000int, 0x40_0000_0000int);
            lemma_fmul_bound(aperture.v as int, 2147483648int, 0x8_0000_0000int, 2147483648int);
            lemma_tdiv_abs(aperture.v as int * 2147483648int, SCALE as int);
        }
        let corner = u.neg().scale(half_width).scale(focus_dist).add(
            v.scale(half_height).scale(focus_dist),
        ).sub(w.scale(focus_dist));
        let horizontal = u.scale(half_width).scale(two).scale(focus_dist);
        let vertical = v.scale(half_height.neg()).scale(two).scale(focus_dist);
        let lens_radius = aperture.mul(Fx { v: 2147483648 });
        Camera {
            origin,
            upper_left_corner: corner,
            horizontal,
            vertical,
            lens_radius,
            u,
            v,
        }
    }

    /// Generate the ray for normalized image coordinates `(u, v)` in
    /// `[0, 1]^2`, jittered across the lens by a fresh disc sample.
    #[verifier::rlimit(60)]
    pub fn get_ray(&self, u: Fx, v: Fx, rng: &mut rand::rngs::StdRng) -> (r: Ray)
        requires
            camera_wf(self@),
            0 <= u.v <= SCALE,
            0 <= v.v <= SCALE,
        ensures
            exists|sample: Vec3m|
                #![trigger in_unit_disc(sample)]
                {
                    &&& in_unit_disc(sample)
                    &&& r@ == get_ray_spec(self@, u.v as int, v.v as int, sample)
                },
            in_range(r@.origin, POS_MAX as int),
            in_range(r@.direction, DIR_MAX as int),
    {
        let sample = random_direction_on_disc(rng);
        proof {
            lemma_fmul_bound(sample@.x, self.lens_radius.v as int, 4294967296int, 0x4_0000_0000int);
            lemma_fmul_bound(sample@.y, self.lens_radius.v as int, 4294967296int, 0x4_0000_0000int);
            lemma_fmul_bound(sample@.z, self.lens_radius.v as int, 4294967296int, 0x4_0000_0000int);
        }
        let rd = sample.scale(self.lens_radius);
        proof {
            lemma_fmul_bound(self@.u.x, rd@.x, 0x2_0000_0000int, 0x4_0000_0000int);
            lemma_fmul_bound(self@.u.y, rd@.x, 0x2_0000_0000int, 0x4_0000_0000int);
            lemma_fmul_bound(self@.u.z, rd@.x, 0x2_0000_0000int, 0x4_0000_0000int);
            lemma_fmul_bound(self@.v.x, rd@.y, 0x8_0000_0000int, 0x4_0000_0000int);
            lemma_fmul_bound(self@.v.y, rd@.y, 0x8_0000_0000int, 0x4_0000_0000int);
            lemma_fmul_bound(self@.v.z, rd@.y, 0x8_0000_0000int, 0x4_0000_0000int);
        }
        let offset = self.u.scale(rd.x).add(self.v.scale(rd.y));
        proof {
            lemma_scale_by_unit(self@.horizontal, u.v as int, 4096);
            lemma_scale_by_unit(self@.vertical, v.v as int, 4096);
        }
        let dir = self.upper_left_corner.add(self.horizontal.scale(u)).add(
            self.vertical.scale(v),
        ).sub(offset);
        let r = Ray::new(self.origin.add(offset), dir);
        proof {
            assert(in_unit_disc(sample@) && r@ == get_ray_spec(
                self@,
                u.v as int,
                v.v as int,
                sample@,
            ));
        }
        r
    }
}

/// Componentwise bound on a cross product from bounds on its operands.
proof fn lemma_cross_bound(a: Vec3m, b: Vec3m, ma: int, mb: int, mc: int)
    requires
        in_range(a, ma),
        in_range(b, mb),
        0 <= ma,
        0 <= mb,
        2 * (ma * mb / 4294967296) <= mc,
    ensures
        in_range(vm_cross(a, b), mc),
{
    lemma_fmul_bound(a.y, b.z, ma, mb);
    lemma_fmul_bound(a.z, b.y, ma, mb);
    lemma_fmul_bound(a.x, b.z, ma, mb);
    lemma_fmul_bound(a.z, b.x, ma, mb);
    lemma_fmul_bound(a.x, b.y, ma, mb);
    lemma_fmul_bound(a.y, b.x, ma, mb);
    assert(ma * mb / (SCALE as int) == ma * mb / 4294967296);
}

/// Bound on a vector scaled by two factors, possibly doubled in between:
/// the stages of the camera's span computations.
proof fn lemma_scale_chain(a: Vec3m, s1: int, s2: int, ma: int, m1: int, m2: int, mo1: int, mo2: int, mo3: int)
    requires
        in_range(a, ma),
        abs(s1) <= m1,
        abs(s2) <= m2,
        0 <= ma,
        0 <= m1,
        0 <= m2,
        0 <= mo1,
        ma * m1 / 4294967296 <= mo1,
        mo1 * m2 / 4294967296 <= mo2,
        (2 * mo1) * m2 / 4294967296 <= mo3,
    ensures
        in_range(vm_scale(a, s1), mo1),
        in_range(vm_scale(vm_scale(a, s1), s2), mo2),
        in_range(vm_scale(vm_scale(vm_scale(a, s1), 2 * SCALE), s2), mo3),
{
    let s = SCALE as int;
    lemma_fmul_bound(a.x, s1, ma, m1);
    lemma_fmul_bound(a.y, s1, ma, m1);
    lemma_fmul_bound(a.z, s1, ma, m1);
    assert(ma * m1 / s == ma * m1 / 4294967296);
    let b = vm_scale(a, s1);
    lemma_fmul_bound(b.x, s2, mo1, m2);
    lemma_fmul_bound(b.y, s2, mo1, m2);
    lemma_fmul_bound(b.z, s2, mo1, m2);
    assert(mo1 * m2 / s == mo1 * m2 / 4294967296);
    lemma_fmul_bound(b.x, 2 * s, mo1, 2 * s);
    lemma_fmul_bound(b.y, 2 * s, mo1, 2 * s);
    lemma_fmul_bound(b.z, 2 * s, mo1, 2 * s);
    assert(mo1 * (2 * s) == (2 * mo1) * s) by (nonlinear_arith);
    assert(((2 * mo1) * s) / s == 2 * mo1) by {
        vstd::arithmetic::div_mod::lemma_div_multiples_vanish(2 * mo1, s);
        vstd::arithmetic::mul::lemma_mul_is_commutative(2 * mo1, s);
    }
    let c = vm_scale(b, 2 * s);
    lemma_fmul_bound(c.x, s2, 2 * mo1, m2);
    lemma_fmul_bound(c.y, s2, 2 * mo1, m2);
    lemma_fmul_bound(c.z, s2, 2 * mo1, m2);
    assert((2 * mo1) * m2 / s == (2 * mo1) * m2 / 4294967296);
}

/// Scaling by a factor in the unit interval does not enlarge a bound.
proof fn lemma_scale_by_unit(a: Vec3m, t: int, k: int)
    requires
        in_range(a, k * SCALE),
        0 <= t <= SCALE,
        0 <= k,
    ensures
        in_range(vm_scale(a, t), k * SCALE),
{
    let s = SCALE as int;
    lemma_fmul_bound(a.x, t, k * s, s);
    lemma_fmul_bound(a.y, t, k * s, s);
    lemma_fmul_bound(a.z, t, k * s, s);
    assert(((k * s) * s) / s == k * s) by {
        vstd::arithmetic::div_mod::lemma_div_multiples_vanish(k * s, s);
        vstd::arithmetic::mul::lemma_mul_is_commutative(k * s, s);
    }
}

} // verus!
