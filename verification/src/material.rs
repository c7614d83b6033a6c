//! Surface materials: a closed variant set of three scattering behaviors.

use vstd::math::abs;
use vstd::prelude::*;

use crate::fixed::fdiv;
use crate::fixed::fmul;
use crate::fixed::lemma_fdiv_bound;
use crate::fixed::lemma_fmul_bound;
use crate::fixed::sqrt_floor;
use crate::fixed::Fx;
use crate::fixed::SCALE;
use crate::hitable::rec_wf;
use crate::hitable::HitRecord;
use crate::hitable::HitRecordm;
use crate::random::in_unit_ball;
use crate::random::rand_unit;
use crate::random::random_direction;
use crate::ray::Ray;
use crate::ray::Raym;
use crate::ray::DIR_MAX;
use crate::vec3::in_range;
use crate::vec3::lemma_dot_bound;
use crate::vec3::lemma_normalize_bounds;
use crate::vec3::vm_add;
use crate::vec3::vm_dot;
use crate::vec3::vm_neg;
use crate::vec3::vm_normalize;
use crate::vec3::vm_reflect;
use crate::vec3::vm_scale;
use crate::vec3::vm_sqlen;
use crate::vec3::vm_sub;
use crate::vec3::Vec3;
use crate::vec3::Vec3m;

verus! {

/// A diffuse surface: scatters about the normal, tinted by its albedo.
#[derive(Clone, Copy, PartialEq, Eq, Structural, Debug)]
pub struct Lambertian {
    pub albedo: Vec3,
}

/// A reflective surface: mirrors the incoming direction, roughened by `fuzz`.
#[derive(Clone, Copy, PartialEq, Eq, Structural, Debug)]
pub struct Metal {
    pub albedo: Vec3,
    pub fuzz: Fx,
}

/// A refractive surface, characterized by its refractive index.
#[derive(Clone, Copy, PartialEq, Eq, Structural, Debug)]
pub struct Dielectric {
    pub ref_idx: Fx,
}

/// The closed set of materials, dispatched by variant at the point of use.
#[derive(Clone, Copy, PartialEq, Eq, Structural, Debug)]
pub enum MaterialKind {
    Lambertian(Lambertian),
    Metal(Metal),
    Dielectric(Dielectric),
}

/// An authored color: componentwise within the unit interval.
pub open spec fn color_wf(c: Vec3m) -> bool {
    &&& 0 <= c.x <= SCALE
    &&& 0 <= c.y <= SCALE
    &&& 0 <= c.z <= SCALE
}

/// Authoring conventions for a material: albedo channels within the unit
/// interval, fuzz within the unit interval, refractive index within
/// `[1/8, 8]` so its reciprocal and square stay in range.
pub open spec fn material_wf(m: MaterialKind) -> bool {
    match m {
        MaterialKind::Lambertian(l) => color_wf(l.albedo@),
        MaterialKind::Metal(mt) => color_wf(mt.albedo@) && 0 <= mt.fuzz.v <= SCALE,
        MaterialKind::Dielectric(d) => SCALE / 8 <= d.ref_idx.v <= 8 * SCALE,
    }
}

/// Largest direction-component magnitude a scattered ray can carry.
pub const SCATTER_DIR_MAX: i128 = 0x2000_0000_0000;

/// The randomness one scatter step consumes: a point inside the unit ball
/// (diffuse or fuzz perturbation) and a coin in `[0, 1)` (the
/// reflect-or-refract choice).
pub struct ScatterRand {
    pub dir: Vec3m,
    pub coin: int,
}

/// The drawn randomness is within its ranges.
pub open spec fn scatter_rand_wf(rnd: ScatterRand) -> bool {
    in_unit_ball(rnd.dir) && 0 <= rnd.coin < SCALE
}

/// The outcome of one scatter, at the spec level: whether the path
/// continues, the outgoing ray, and the attenuation color.
pub struct ScatterOutm {
    pub cont: bool,
    pub ray: Raym,
    pub att: Vec3m,
}

/// The executable scatter result agrees with a spec-level outcome.
pub open spec fn scatter_matches(r: (bool, Ray, Vec3), out: ScatterOutm) -> bool {
    r.0 == out.cont && r.1@ == out.ray && r.2@ == out.att
}

/// Diffuse scatter: bounce about the normal, jittered by the ball sample;
/// always continues, tinted by the albedo.
pub open spec fn lambertian_scatter_spec(l: Lambertian, rec: HitRecordm, rnd: ScatterRand) -> ScatterOutm {
    ScatterOutm {
        cont: true,
        ray: Raym { origin: rec.pos, direction: vm_add(rec.normal, rnd.dir) },
        att: l.albedo@,
    }
}

/// Metallic scatter: mirror the unit incoming direction about the normal,
/// perturb by `fuzz` times the ball sample; continues only while the
/// outgoing direction stays on the normal's side.
pub open spec fn metal_scatter_spec(m: Metal, ray: Raym, rec: HitRecordm, rnd: ScatterRand) -> ScatterOutm {
    let dir = vm_add(
        vm_reflect(vm_normalize(ray.direction), rec.normal),
        vm_scale(rnd.dir, m.fuzz.v as int),
    );
    ScatterOutm {
        cont: vm_dot(dir, rec.normal) > 0,
        ray: Raym { origin: rec.pos, direction: dir },
        att: m.albedo@,
    }
}

/// Snell refraction of `dir` about `normal` with index ratio `ni_over_nr`:
/// no result when the discriminant is not positive (total internal
/// reflection).
pub open spec fn refract_spec(dir: Vec3m, normal: Vec3m, ni_over_nr: int) -> (bool, Vec3m) {
    let incident = vm_normalize(dir);
    let cos1 = vm_dot(incident, normal);
    let disc = SCALE - fmul(fmul(ni_over_nr, ni_over_nr), SCALE - fmul(cos1, cos1));
    if disc > 0 {
        (
            true,
            vm_sub(
                vm_scale(vm_sub(incident, vm_scale(normal, cos1)), ni_over_nr),
                vm_scale(normal, sqrt_floor(disc * SCALE)),
            ),
        )
    } else {
        (false, Vec3m { x: 0, y: 0, z: 0 })
    }
}

/// The fifth power, as computed: square, square again, once more by the base.
pub open spec fn pow5_spec(x: int) -> int {
    let p2 = fmul(x, x);
    let p4 = fmul(p2, p2);
    fmul(p4, x)
}

/// The Schlick reflectance approximation, as computed.
pub open spec fn schlick_spec(cosine: int, ref_idx: int) -> int {
    let r0 = fdiv(SCALE - ref_idx, SCALE + ref_idx);
    let r0sq = fmul(r0, r0);
    r0sq + fmul(SCALE - r0sq, pow5_spec(SCALE - cosine))
}

/// Dielectric scatter: pick the outward normal, the index ratio and the
/// incidence cosine (the dot of the unit incoming direction with the
/// surface normal, sign-matched to be non-negative, over that direction's
/// length) by the side the ray comes from, attempt refraction, and choose
/// reflection with the Schlick probability of that cosine (forced on total
/// internal reflection). Always continues; glass does not tint.
pub open spec fn dielectric_scatter_spec(d: Dielectric, ray: Raym, rec: HitRecordm, rnd: ScatterRand) -> ScatterOutm {
    let in_dir = vm_normalize(ray.direction);
    let dn = vm_dot(in_dir, rec.normal);
    let len = sqrt_floor(vm_sqlen(in_dir) * SCALE);
    let ref_idx = d.ref_idx.v as int;
    let outward = if dn > 0 { vm_neg(rec.normal) } else { rec.normal };
    let ratio = if dn > 0 { ref_idx } else { fdiv(SCALE as int, ref_idx) };
    let cosine = if dn > 0 { fdiv(dn, len) } else { -fdiv(dn, len) };
    let refr = refract_spec(ray.direction, outward, ratio);
    let prob = if refr.0 { schlick_spec(cosine, ref_idx) } else { SCALE as int };
    let new_dir = if rnd.coin < prob { vm_reflect(in_dir, rec.normal) } else { refr.1 };
    ScatterOutm {
        cont: true,
        ray: Raym { origin: rec.pos, direction: new_dir },
        att: Vec3m { x: SCALE as int, y: SCALE as int, z: SCALE as int },
    }
}

/// One scatter step, by material variant.
pub open spec fn scatter_spec(m: MaterialKind, ray: Raym, rec: HitRecordm, rnd: ScatterRand) -> ScatterOutm {
    match m {
        MaterialKind::Lambertian(l) => lambertian_scatter_spec(l, rec, rnd),
        MaterialKind::Metal(mt) => metal_scatter_spec(mt, ray, rec, rnd),
        MaterialKind::Dielectric(d) => dielectric_scatter_spec(d, ray, rec, rnd),
    }
}

/// What every caller of a scatter needs: the record is well formed and the
/// incoming direction is bounded with non-zero fixed-point squared length.
pub open spec fn scatter_pre(ray: Raym, rec: HitRecordm) -> bool {
    &&& rec_wf(rec)
    &&& in_range(ray.direction, DIR_MAX as int)
    &&& vm_sqlen(ray.direction) >= 1
}

/// What every scatter guarantees beyond its exact outcome: the outgoing ray
/// starts at the hit point with a bounded direction, and the attenuation is
/// an authored color.
pub open spec fn scatter_post(r: (bool, Ray, Vec3), rec: HitRecordm) -> bool {
    &&& r.1@.origin == rec.pos
    &&& in_range(r.1@.direction, SCATTER_DIR_MAX as int)
    &&& color_wf(r.2@)
}

impl Lambertian {
    /// Diffuse scatter.
    pub fn scatter(&self, ray: &Ray, rec: &HitRecord, rng: &mut rand::rngs::StdRng) -> (r: (
        bool,
        Ray,
        Vec3,
    ))
        requires
            color_wf(self.albedo@),
            scatter_pre(ray@, rec@),
        ensures
            scatter_post(r, rec@),
            exists|rnd: ScatterRand|
                scatter_rand_wf(rnd) && scatter_matches(
                    r,
                    #[trigger] lambertian_scatter_spec(*self, rec@, rnd),
                ),
    {
        let sample = random_direction(rng);
        let dir = rec.normal.add(sample);
        let res = (true, Ray::new(rec.pos, dir), self.albedo);
        proof {
            let w = ScatterRand { dir: sample@, coin: 0 };
            assert(scatter_rand_wf(w));
            assert(scatter_matches(res, lambertian_scatter_spec(*self, rec@, w)));
        }
        res
    }
}

impl Metal {
    /// Metallic scatter.
    pub fn scatter(&self, ray: &Ray, rec: &HitRecord, rng: &mut rand::rngs::StdRng) -> (r: (
        bool,
        Ray,
        Vec3,
    ))
        requires
            color_wf(self.albedo@),
            0 <= self.fuzz.v <= SCALE,
            scatter_pre(ray@, rec@),
        ensures
            scatter_post(r, rec@),
            exists|rnd: ScatterRand|
                scatter_rand_wf(rnd) && scatter_matches(
                    r,
                    #[trigger] metal_scatter_spec(*self, ray@, rec@, rnd),
                ),
    {
        let sample = random_direction(rng);
        let unit = ray.direction.normalize();
        proof {
            lemma_metal_ranges(unit@, rec@.normal);
        }
        let refl = unit.reflect(rec.normal);
        let fz = sample.scale(self.fuzz);
        proof {
            lemma_fmul_bound(sample@.x, self.fuzz.v as int, SCALE as int, SCALE as int);
            lemma_fmul_bound(sample@.y, self.fuzz.v as int, SCALE as int, SCALE as int);
            lemma_fmul_bound(sample@.z, self.fuzz.v as int, SCALE as int, SCALE as int);
        }
        let dir = refl.add(fz);
        let cont = dir.dot(rec.normal).v > 0;
        let res = (cont, Ray::new(rec.pos, dir), self.albedo);
        proof {
            let w = ScatterRand { dir: sample@, coin: 0 };
            assert(scatter_rand_wf(w));
            assert(scatter_matches(res, metal_scatter_spec(*self, ray@, rec@, w)));
        }
        res
    }
}

/// The reflected direction of a unit-scale vector about a near-unit normal
/// stays well inside the scatter bound.
proof fn lemma_metal_ranges(u: Vec3m, n: Vec3m)
    requires
        in_range(u, 2 * SCALE),
        in_range(n, 2 * SCALE),
    ensures
        in_range(vm_reflect(u, n), 51 * SCALE),
        abs(vm_dot(u, n)) <= 12 * SCALE,
{
    lemma_dot_bound(u, n, 0x2_0000_0000int, 0x2_0000_0000int);
    let d = vm_dot(u, n);
    lemma_fmul_bound(n.x, 2 * SCALE, 0x2_0000_0000int, 0x2_0000_0000int);
    lemma_fmul_bound(n.y, 2 * SCALE, 0x2_0000_0000int, 0x2_0000_0000int);
    lemma_fmul_bound(n.z, 2 * SCALE, 0x2_0000_0000int, 0x2_0000_0000int);
    let n2 = vm_scale(n, 2 * SCALE);
    lemma_fmul_bound(n2.x, d, 0x4_0000_0000int, 0xc_0000_0000int);
    lemma_fmul_bound(n2.y, d, 0x4_0000_0000int, 0xc_0000_0000int);
    lemma_fmul_bound(n2.z, d, 0x4_0000_0000int, 0xc_0000_0000int);
}

/// Snell refraction: the refracted direction when the discriminant is
/// positive, or no result on total internal reflection.
pub fn refract(dir: Vec3, normal: Vec3, ni_over_nr: Fx) -> (r: (bool, Vec3))
    requires
        in_range(dir@, DIR_MAX as int),
        vm_sqlen(dir@) >= 1,
        in_range(normal@, 2 * SCALE),
        abs(ni_over_nr.v as int) <= 8 * SCALE,
    ensures
        r.0 == refract_spec(dir@, normal@, ni_over_nr.v as int).0,
        r.1@ == refract_spec(dir@, normal@, ni_over_nr.v as int).1,
        in_range(r.1@, 420 * SCALE),
{
    proof {
        lemma_normalize_bounds(dir@);
    }
    let incident = dir.normalize();
    proof {
        lemma_dot_bound(incident@, normal@, 0x2_0000_0000int, 0x2_0000_0000int);
    }
    let cos1 = incident.dot(normal);
    proof {
        lemma_fmul_bound(ni_over_nr.v as int, ni_over_nr.v as int, 0x8_0000_0000int, 0x8_0000_0000int);
        lemma_fmul_bound(cos1.v as int, cos1.v as int, 0xc_0000_0000int, 0xc_0000_0000int);
    }
    let rr = ni_over_nr.mul(ni_over_nr);
    let c2 = cos1.mul(cos1);
    let one = Fx { v: SCALE };
    let inner = one.sub(c2);
    proof {
        lemma_fmul_bound(rr.v as int, inner.v as int, 0x40_0000_0000int, 0x91_0000_0000int);
    }
    let disc = one.sub(rr.mul(inner));
    if disc.v > 0 {
        let sq = disc.sqrt();
        proof {
            assert(sq.v < 97 * SCALE) by (nonlinear_arith)
                requires
                    sq.v >= 0,
                    (sq.v as int) * (sq.v as int) <= (disc.v as int) * (SCALE as int),
                    0 < disc.v as int <= 9281 * (SCALE as int),
                    SCALE == 4294967296i128,
            ;
            lemma_fmul_bound(normal@.x, cos1.v as int, 0x2_0000_0000int, 0xc_0000_0000int);
            lemma_fmul_bound(normal@.y, cos1.v as int, 0x2_0000_0000int, 0xc_0000_0000int);
            lemma_fmul_bound(normal@.z, cos1.v as int, 0x2_0000_0000int, 0xc_0000_0000int);
        }
        let nc = normal.scale(cos1);
        let base = incident.sub(nc);
        proof {
            lemma_fmul_bound(base@.x, ni_over_nr.v as int, 0x1a_0000_0000int, 0x8_0000_0000int);
            lemma_fmul_bound(base@.y, ni_over_nr.v as int, 0x1a_0000_0000int, 0x8_0000_0000int);
            lemma_fmul_bound(base@.z, ni_over_nr.v as int, 0x1a_0000_0000int, 0x8_0000_0000int);
            lemma_fmul_bound(normal@.x, sq.v as int, 0x2_0000_0000int, 0x61_0000_0000int);
            lemma_fmul_bound(normal@.y, sq.v as int, 0x2_0000_0000int, 0x61_0000_0000int);
            lemma_fmul_bound(normal@.z, sq.v as int, 0x2_0000_0000int, 0x61_0000_0000int);
        }
        let t = base.scale(ni_over_nr);
        let nsq = normal.scale(sq);
        let res = t.sub(nsq);
        (true, res)
    } else {
        (false, Vec3::zero())
    }
}

/// The Schlick reflectance approximation.
pub fn schlick(cosine: Fx, ref_idx: Fx) -> (r: Fx)
    requires
        SCALE / 8 <= ref_idx.v <= 8 * SCALE,
        abs(cosine.v as int) <= 0x400_0000_0000int,
    ensures
        r.v == schlick_spec(cosine.v as int, ref_idx.v as int),
{
    let one = Fx { v: SCALE };
    let denom = one.add(ref_idx);
    let r0 = one.sub(ref_idx).div(denom);
    proof {
        lemma_fdiv_bound((one.v - ref_idx.v) as int, denom.v as int, 0x7_0000_0000int, SCALE as int);
        lemma_fmul_bound(r0.v as int, r0.v as int, 0x7_0000_0000int, 0x7_0000_0000int);
    }
    let r0sq = r0.mul(r0);
    let d1 = one.sub(cosine);
    proof {
        lemma_fmul_bound(d1.v as int, d1.v as int, 0x500_0000_0000int, 0x500_0000_0000int);
    }
    let p2 = d1.mul(d1);
    proof {
        lemma_fmul_bound(p2.v as int, p2.v as int, 0x19_0000_0000_0000int, 0x19_0000_0000_0000int);
    }
    let p4 = p2.mul(p2);
    proof {
        lemma_fmul_bound(p4.v as int, d1.v as int, 0x271_0000_0000_0000_0000int, 0x500_0000_0000int);
    }
    let p5 = p4.mul(d1);
    proof {
        lemma_fmul_bound(
            (one.v - r0sq.v) as int,
            p5.v as int,
            0x32_0000_0000int,
            0x10_0000_0000_0000_0000_0000int,
        );
    }
    r0sq.add(one.sub(r0sq).mul(p5))
}

impl Dielectric {
    /// Refractive scatter.
    pub fn scatter(&self, ray: &Ray, rec: &HitRecord, rng: &mut rand::rngs::StdRng) -> (r: (
        bool,
        Ray,
        Vec3,
    ))
        requires
            SCALE / 8 <= self.ref_idx.v <= 8 * SCALE,
            scatter_pre(ray@, rec@),
        ensures
            scatter_post(r, rec@),
            exists|rnd: ScatterRand|
                scatter_rand_wf(rnd) && scatter_matches(
                    r,
                    #[trigger] dielectric_scatter_spec(*self, ray@, rec@, rnd),
                ),
    {
        let coin = rand_unit(rng);
        proof {
            lemma_normalize_bounds(ray@.direction);
        }
        let in_dir = ray.direction.normalize();
        proof {
            lemma_dot_bound(in_dir@, rec@.normal, 0x2_0000_0000int, 0x2_0000_0000int);
        }
        let dn = in_dir.dot(rec.normal);
        let len = in_dir.length();
        proof {
            lemma_dielectric_len(in_dir@, len.v as int);
        }
        let raw_cos = dn.div(len);
        proof {
            lemma_fdiv_bound(dn.v as int, len.v as int, 0xc_0000_0000int, 2147483648int);
        }
        let one = Fx { v: SCALE };
        let (outward, ratio, cosine) = if dn.v > 0 {
            (rec.normal.neg(), self.ref_idx, raw_cos)
        } else {
            (rec.normal, one.div(self.ref_idx), raw_cos.neg())
        };
        proof {
            if dn.v <= 0 {
                lemma_fdiv_bound(SCALE as int, self.ref_idx.v as int, SCALE as int, 536870912int);
            }
        }
        let refr = refract(ray.direction, outward, ratio);
        let prob = if refr.0 {
            schlick(cosine, self.ref_idx)
        } else {
            one
        };
        let new_ray = if coin.v < prob.v {
            proof {
                lemma_metal_ranges(in_dir@, rec@.normal);
            }
            Ray::new(rec.pos, in_dir.reflect(rec.normal))
        } else {
            Ray::new(rec.pos, refr.1)
        };
        let res = (true, new_ray, Vec3::one());
        proof {
            let w = ScatterRand { dir: Vec3m { x: 0, y: 0, z: 0 }, coin: coin.v as int };
            assert(scatter_rand_wf(w));
            assert(scatter_matches(res, dielectric_scatter_spec(*self, ray@, rec@, w)));
        }
        res
    }
}

/// The length of a normalized direction is at least half the unit, from the
/// floor on its squared length.
proof fn lemma_dielectric_len(u: Vec3m, len: int)
    requires
        vm_sqlen(u) >= SCALE / 4,
        in_range(u, 2 * SCALE),
        crate::fixed::is_sqrt(vm_sqlen(u) * SCALE, len),
    ensures
        len >= SCALE / 2,
{
    let s = SCALE as int;
    assert(len >= s / 2) by (nonlinear_arith)
        requires
            (len + 1) * (len + 1) > vm_sqlen(u) * s,
            vm_sqlen(u) >= s / 4,
            s == 4294967296,
            len >= 0,
    ;
}

impl MaterialKind {
    /// One scatter step, dispatched by variant.
    pub fn scatter(&self, ray: &Ray, rec: &HitRecord, rng: &mut rand::rngs::StdRng) -> (r: (
        bool,
        Ray,
        Vec3,
    ))
        requires
            material_wf(*self),
            scatter_pre(ray@, rec@),
        ensures
            scatter_post(r, rec@),
            exists|rnd: ScatterRand|
                scatter_rand_wf(rnd) && scatter_matches(
                    r,
                    #[trigger] scatter_spec(*self, ray@, rec@, rnd),
                ),
    {
        match self {
            MaterialKind::Lambertian(l) => {
                let r = l.scatter(ray, rec, rng);
                proof {
                    let w = choose|rnd: ScatterRand|
                        #[trigger] scatter_rand_wf(rnd) && scatter_matches(
                            r,
                            lambertian_scatter_spec(*l, rec@, rnd),
                        );
                    assert(scatter_matches(r, scatter_spec(*self, ray@, rec@, w)));
                }
                r
            },
            MaterialKind::Metal(m) => {
                let r = m.scatter(ray, rec, rng);
                proof {
                    let w = choose|rnd: ScatterRand|
                        #[trigger] scatter_rand_wf(rnd) && scatter_matches(
                            r,
                            metal_scatter_spec(*m, ray@, rec@, rnd),
                        );
                    assert(scatter_matches(r, scatter_spec(*self, ray@, rec@, w)));
                }
                r
            },
            MaterialKind::Dielectric(d) => {
                let r = d.scatter(ray, rec, rng);
                proof {
                    let w = choose|rnd: ScatterRand|
                        #[trigger] scatter_rand_wf(rnd) && scatter_matches(
                            r,
                            dielectric_scatter_spec(*d, ray@, rec@, rnd),
                        );
                    assert(scatter_matches(r, scatter_spec(*self, ray@, rec@, w)));
                }
                r
            },
        }
    }
}

/// With `fuzz` zero a metal is a perfect mirror: whatever the drawn sample,
/// the outgoing direction is exactly the reflection of the unit incoming
/// direction about the surface normal.
pub proof fn lemma_metal_mirror(m: Metal, ray: Raym, rec: HitRecordm, rnd: ScatterRand)
    requires
        m.fuzz.v == 0,
    ensures
        metal_scatter_spec(m, ray, rec, rnd).ray.direction == vm_reflect(
            vm_normalize(ray.direction),
            rec.normal,
        ),
{
    let refl = vm_reflect(vm_normalize(ray.direction), rec.normal);
    assert(fmul(rnd.dir.x, 0) == 0);
    assert(fmul(rnd.dir.y, 0) == 0);
    assert(fmul(rnd.dir.z, 0) == 0);
    assert(vm_add(refl, vm_scale(rnd.dir, 0)) == refl);
}

} // verus!
