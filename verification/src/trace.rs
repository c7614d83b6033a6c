//! The recursive integrator: intersect, scatter, recurse, accumulate.

use vstd::math::abs;
use vstd::prelude::*;

use crate::fixed::fdiv;
use crate::fixed::fmul;
use crate::fixed::lemma_fmul_bound;
use crate::fixed::Fx;
use crate::fixed::SCALE;
use crate::camera::camera_wf;
use crate::camera::Camera;
use crate::hitable::fold_hit;
use crate::hitable::kind_wf;
use crate::hitable::kind_hit_spec;
use crate::hitable::nearest_hit;
use crate::hitable::nearest_hit_spec;
use crate::hitable::rec_wf;
use crate::hitable::scene_wf;
use crate::hitable::HitRecordm;
use crate::hitable::HitableKind;
use crate::hitable::POS_MAX;
use crate::random::rand_unit;
use crate::material::material_wf;
use crate::material::scatter_matches;
use crate::material::scatter_rand_wf;
use crate::material::scatter_spec;
use crate::material::ScatterRand;
use crate::ray::Ray;
use crate::ray::Raym;
use crate::ray::DIR_MAX;
use crate::ray::T_BOUND;
use crate::vec3::in_range;
use crate::vec3::lemma_normalize_bounds;
use crate::vec3::vm_add;
use crate::vec3::vm_mul;
use crate::vec3::vm_normalize;
use crate::vec3::vm_scale;
use crate::vec3::vm_sqlen;
use crate::vec3::Vec3;
use crate::vec3::Vec3m;

verus! {

/// Shadow-acne epsilon: intersections nearer than a thousandth are ignored,
/// suppressing self-hits of freshly scattered rays.
pub const T_MIN_EPS: i128 = 4294967;

/// World-extent cutoff of the nearest-hit query (one hundred units).
pub const T_MAX_LIMIT: i128 = 429496729600;

/// Bound on the number of bounces; past it a path contributes black.
pub const DEPTH_LIMIT: u32 = 50;

/// Half, in fixed point.
pub const HALF: i128 = 2147483648;

/// The sky color overhead: half red, seven tenths green, full blue.
pub const SKY_R: i128 = 2147483648;

/// Green channel of the sky color (seven tenths, rounded toward zero).
pub const SKY_G: i128 = 3006477107;

/// Blue channel of the sky color.
pub const SKY_B: i128 = 4294967296;

/// The background gradient for a missed ray: `lerp(white, sky, t)` with
/// `t = (unit_direction.y + 1) / 2`.
pub open spec fn background_spec(dir: Vec3m) -> Vec3m {
    let unit = vm_normalize(dir);
    let t = fmul(HALF as int, unit.y + SCALE);
    vm_add(
        vm_scale(Vec3m { x: SCALE as int, y: SCALE as int, z: SCALE as int }, SCALE - t),
        vm_scale(Vec3m { x: SKY_R as int, y: SKY_G as int, z: SKY_B as int }, t),
    )
}

/// Every draw in a sequence of randomness is within its ranges.
pub open spec fn rnds_wf(rnds: Seq<ScatterRand>) -> bool {
    forall|i: int| 0 <= i < rnds.len() ==> scatter_rand_wf(#[trigger] rnds[i])
}

/// The result of tracing `ray` through the scene at the given depth, as a
/// function of the sequence of randomness the bounces consume: the
/// background on a miss; on a hit, the attenuated result of a deeper trace
/// when the material continues, the depth allows it, and the scattered
/// direction is usable, else black. Each bounce consumes the head of the
/// sequence.
pub open spec fn trace_out(hs: Seq<HitableKind>, ray: Raym, depth: int, rnds: Seq<ScatterRand>) -> Vec3m
    decreases DEPTH_LIMIT - depth,
{
    match nearest_hit_spec(hs, ray, T_MIN_EPS as int, T_MAX_LIMIT as int) {
        None => background_spec(ray.direction),
        Some(rec) => {
            let sc = scatter_spec(rec.material, ray, rec, rnds[0]);
            if sc.cont && depth < DEPTH_LIMIT && vm_sqlen(sc.ray.direction) >= 1 {
                vm_mul(sc.att, trace_out(hs, sc.ray, depth + 1, rnds.subrange(1, rnds.len() as int)))
            } else {
                Vec3m { x: 0, y: 0, z: 0 }
            }
        },
    }
}

/// The background gradient of a missed ray.
pub fn background(dir: Vec3) -> (r: Vec3)
    requires
        in_range(dir@, DIR_MAX as int),
        vm_sqlen(dir@) >= 1,
    ensures
        r@ == background_spec(dir@),
        in_range(r@, 4 * SCALE),
{
    proof {
        lemma_normalize_bounds(dir@);
    }
    let unit = dir.normalize();
    let one = Fx { v: SCALE };
    proof {
        lemma_fmul_bound(HALF as int, unit@.y + SCALE, HALF as int, 3 * SCALE + 1);
    }
    let t = Fx { v: HALF }.mul(unit.y.add(one));
    let one_minus = one.sub(t);
    let white = Vec3::one();
    let sky = Vec3::new(Fx { v: SKY_R }, Fx { v: SKY_G }, Fx { v: SKY_B });
    proof {
        lemma_fmul_bound(SCALE as int, one_minus.v as int, SCALE as int, 0xc000_0000_1int);
        lemma_fmul_bound(SKY_R as int, t.v as int, SCALE as int, 0x8000_0000_1int);
        lemma_fmul_bound(SKY_G as int, t.v as int, SCALE as int, 0x8000_0000_1int);
        lemma_fmul_bound(SKY_B as int, t.v as int, SCALE as int, 0x8000_0000_1int);
    }
    white.scale(one_minus).add(sky.scale(t))
}

/// Every record that one primitive reports is well formed and carries a
/// well-formed material.
proof fn lemma_kind_rec_wf(h: HitableKind, ray: Raym, t_min: int, t_max: int)
    requires
        crate::hitable::kind_wf(h),
        0 < t_min,
        -(T_BOUND as int) <= t_min,
        t_max <= T_BOUND as int,
        -(T_BOUND as int) <= t_max,
    ensures
        match kind_hit_spec(h, ray, t_min, t_max) {
            Some(rec) => rec_wf(rec) && material_wf(rec.material),
            None => true,
        },
{
}

/// Every record that the nearest-hit fold reports is well formed and
/// carries a well-formed material.
proof fn lemma_fold_rec_wf(
    hs: Seq<HitableKind>,
    ray: Raym,
    t_min: int,
    cur: Option<HitRecordm>,
    cur_t: int,
)
    requires
        scene_wf(hs),
        0 < t_min <= T_BOUND as int,
        -(T_BOUND as int) <= cur_t <= T_BOUND as int,
        match cur {
            Some(rec) => rec_wf(rec) && material_wf(rec.material),
            None => true,
        },
    ensures
        match fold_hit(hs, ray, t_min, cur, cur_t) {
            Some(rec) => rec_wf(rec) && material_wf(rec.material),
            None => true,
        },
    decreases hs.len(),
{
    if hs.len() > 0 {
        assert(kind_wf(hs[0])) by {
            assert(scene_wf(hs));
        }
        lemma_kind_rec_wf(hs[0], ray, t_min, cur_t);
        let rest = hs.subrange(1, hs.len() as int);
        assert(scene_wf(rest)) by {
            assert(forall|i: int|
                0 <= i < rest.len() ==> #[trigger] rest[i] == hs[i + 1] && kind_wf(hs[i + 1]));
        }
        match kind_hit_spec(hs[0], ray, t_min, cur_t) {
            Some(rec) => {
                lemma_fold_rec_wf(rest, ray, t_min, Some(rec), rec.t);
            },
            None => {
                lemma_fold_rec_wf(rest, ray, t_min, cur, cur_t);
            },
        }
    }
}

/// Trace one ray through the scene: find the nearest hit, scatter off its
/// material and recurse with the attenuation applied, or return the
/// background gradient on a miss. A path is cut to black when the material
/// absorbs it, the depth limit is reached, or the scattered direction is
/// degenerate (zero squared length in fixed point).
pub fn trace(ray: &Ray, hitables: &Vec<HitableKind>, rng: &mut rand::rngs::StdRng, depth: u32) -> (r:
    Vec3)
    requires
        scene_wf(hitables@),
        in_range(ray@.origin, POS_MAX as int),
        in_range(ray@.direction, DIR_MAX as int),
        vm_sqlen(ray@.direction) >= 1,
        depth <= DEPTH_LIMIT,
    ensures
        in_range(r@, 4 * SCALE),
        nearest_hit_spec(hitables@, ray@, T_MIN_EPS as int, T_MAX_LIMIT as int) is None ==> r@
            == background_spec(ray@.direction),
        exists|rnds: Seq<ScatterRand>|
            #![trigger rnds_wf(rnds)]
            {
                &&& rnds_wf(rnds)
                &&& r@ == trace_out(hitables@, ray@, depth as int, rnds)
            },
    decreases DEPTH_LIMIT - depth,
{
    proof {
        lemma_fold_rec_wf(
            hitables@,
            ray@,
            T_MIN_EPS as int,
            None,
            T_MAX_LIMIT as int,
        );
    }
    let hit = nearest_hit(hitables, ray, Fx { v: T_MIN_EPS }, Fx { v: T_MAX_LIMIT });
    match hit {
        Some(rec) => {
            let m = rec.material;
            let sc = m.scatter(ray, &rec, rng);
            let ghost w = choose|rnd: ScatterRand|
                scatter_rand_wf(rnd) && scatter_matches(
                    sc,
                    #[trigger] scatter_spec(m, ray@, rec@, rnd),
                );
            proof {
                assert(scatter_rand_wf(w) && scatter_matches(sc, scatter_spec(m, ray@, rec@, w)));
            }
            let ghost scm = scatter_spec(rec@.material, ray@, rec@, w);
            if sc.0 && depth < DEPTH_LIMIT {
                let sd = sc.1.direction.squared_length();
                if sd.v >= 1 {
                    let sub = trace(&sc.1, hitables, rng, depth + 1);
                    proof {
                        lemma_fmul_bound(sc.2@.x, sub@.x, SCALE as int, 4 * SCALE);
                        lemma_fmul_bound(sc.2@.y, sub@.y, SCALE as int, 4 * SCALE);
                        lemma_fmul_bound(sc.2@.z, sub@.z, SCALE as int, 4 * SCALE);
                    }
                    let out = sc.2.mul(sub);
                    proof {
                        let ws = choose|rnds: Seq<ScatterRand>|
                            #![trigger rnds_wf(rnds)]
                            {
                                &&& rnds_wf(rnds)
                                &&& sub@ == trace_out(
                                    hitables@,
                                    scatter_spec(rec@.material, ray@, rec@, w).ray,
                                    depth as int + 1,
                                    rnds,
                                )
                            };
                        let full = seq![w] + ws;
                        assert(full.subrange(1, full.len() as int) =~= ws);
                        assert(full[0] == w);
                        assert(rnds_wf(full)) by {
                            assert(forall|i: int|
                                1 <= i < full.len() ==> full[i] == ws[i - 1]
                                    && scatter_rand_wf(ws[i - 1]));
                        }
                        assert(out@ == trace_out(hitables@, ray@, depth as int, full));
                    }
                    out
                } else {
                    let out = Vec3::zero();
                    proof {
                        let full = seq![w];
                        assert(full[0] == w);
                        assert(rnds_wf(full));
                        assert(vm_sqlen(scm.ray.direction) < 1);
                        assert(out@ == trace_out(hitables@, ray@, depth as int, full));
                    }
                    out
                }
            } else {
                let out = Vec3::zero();
                proof {
                    let full = seq![w];
                    assert(full[0] == w);
                    assert(rnds_wf(full));
                    assert(!(scm.cont && depth < DEPTH_LIMIT));
                    assert(out@ == trace_out(hitables@, ray@, depth as int, full));
                }
                out
            }
        },
        None => {
            let out = background(ray.direction);
            proof {
                let full = Seq::<ScatterRand>::empty();
                assert(rnds_wf(full));
                assert(out@ == trace_out(hitables@, ray@, depth as int, full));
            }
            out
        },
    }
}

/// A jittered pixel coordinate, divided by the image extent, lies in the
/// unit interval.
proof fn lemma_unit_frac(c: int, r: int, w: int)
    requires
        0 <= c < w,
        0 <= r < SCALE,
        w <= 65536,
    ensures
        0 <= fdiv(c * SCALE + r, w * SCALE) <= SCALE,
{
    let s = SCALE as int;
    let n = c * s + r;
    assert(c * s <= (w - 1) * s) by {
        vstd::arithmetic::mul::lemma_mul_inequality(c, w - 1, s);
    }
    assert(0 <= c * s) by {
        vstd::arithmetic::mul::lemma_mul_nonnegative(c, s);
    }
    assert(w * s == (w - 1) * s + s) by (nonlinear_arith);
    assert(w * s > 0) by {
        vstd::arithmetic::mul::lemma_mul_strictly_positive(w, s);
    }
    crate::fixed::lemma_tdiv_abs(n * s, w * s);
    assert(n * s >= 0) by {
        vstd::arithmetic::mul::lemma_mul_nonnegative(n, s);
    }
    assert(n * s < (w * s) * s) by {
        vstd::arithmetic::mul::lemma_mul_strict_inequality(n, w * s, s);
    }
    assert(n * s / (w * s) < s) by {
        vstd::arithmetic::div_mod::lemma_multiply_divide_lt(n * s, w * s, s);
    }
}

/// The truncated average of an accumulation bounded by `n * m` is bounded
/// by `m`.
proof fn lemma_avg_bound(c: int, n: int, m: int)
    requires
        abs(c) <= n * m,
        1 <= n,
        0 <= m,
    ensures
        abs(fdiv(c, n * SCALE)) <= m,
{
    let s = SCALE as int;
    assert((n * m) * s == (n * s) * m) by (nonlinear_arith);
    assert(n * s >= s) by {
        vstd::arithmetic::mul::lemma_mul_inequality(1, n, s);
    }
    crate::fixed::lemma_fdiv_ratio_bound(c, n * s, n * m, n * s, m);
}

/// The randomness one pixel sample consumes: the two coordinate jitters,
/// the lens sample, and the bounce draws of its trace.
pub struct SampleRand {
    pub jx: int,
    pub jy: int,
    pub lens: Vec3m,
    pub bounces: Seq<ScatterRand>,
}

/// The drawn per-sample randomness is within its ranges.
pub open spec fn sample_rand_wf(sr: SampleRand) -> bool {
    &&& 0 <= sr.jx < SCALE
    &&& 0 <= sr.jy < SCALE
    &&& crate::random::in_unit_disc(sr.lens)
    &&& rnds_wf(sr.bounces)
}

/// Every draw of a sample sequence is within its ranges.
pub open spec fn sample_rands_wf(srs: Seq<SampleRand>) -> bool {
    forall|i: int| 0 <= i < srs.len() ==> sample_rand_wf(#[trigger] srs[i])
}

/// One sample's contribution to a pixel: jitter the pixel coordinates into
/// the unit square, generate the lens ray for them, and trace it; a
/// generated direction with zero fixed-point squared length contributes
/// black.
pub open spec fn sample_color(
    cam: crate::camera::Cameram,
    hs: Seq<HitableKind>,
    column: int,
    row: int,
    width: int,
    height: int,
    sr: SampleRand,
) -> Vec3m {
    let u = fdiv(column * SCALE + sr.jx, width * SCALE);
    let v = fdiv(row * SCALE + sr.jy, height * SCALE);
    let ray = crate::camera::get_ray_spec(cam, u, v, sr.lens);
    if vm_sqlen(ray.direction) >= 1 {
        trace_out(hs, ray, 0, sr.bounces)
    } else {
        Vec3m { x: 0, y: 0, z: 0 }
    }
}

/// The componentwise sum of the samples' contributions, accumulated in
/// order.
pub open spec fn sum_sample_colors(
    cam: crate::camera::Cameram,
    hs: Seq<HitableKind>,
    column: int,
    row: int,
    width: int,
    height: int,
    srs: Seq<SampleRand>,
) -> Vec3m
    decreases srs.len(),
{
    if srs.len() == 0 {
        Vec3m { x: 0, y: 0, z: 0 }
    } else {
        vm_add(
            sum_sample_colors(cam, hs, column, row, width, height, srs.drop_last()),
            sample_color(cam, hs, column, row, width, height, srs.last()),
        )
    }
}

/// Estimate one pixel: average `samples` independent traces of lens-jittered
/// camera rays through the scene. The result is the truncated componentwise
/// average, over the sample count, of the per-sample contributions for some
/// admissible draw of all the randomness consumed; a sample whose generated
/// ray has a degenerate direction (zero fixed-point squared length)
/// contributes black.
pub fn render_pixel(
    camera: &Camera,
    hitables: &Vec<HitableKind>,
    column: u32,
    row: u32,
    width: u32,
    height: u32,
    samples: u32,
    rng: &mut rand::rngs::StdRng,
) -> (r: Vec3)
    requires
        camera_wf(camera@),
        scene_wf(hitables@),
        column < width,
        row < height,
        width <= 65536,
        height <= 65536,
        1 <= samples <= 65536,
    ensures
        in_range(r@, 4 * SCALE),
        exists|srs: Seq<SampleRand>|
            #![trigger sample_rands_wf(srs)]
            {
                &&& sample_rands_wf(srs)
                &&& srs.len() == samples
                &&& r@ == crate::vec3::vm_div_s(
                    sum_sample_colors(
                        camera@,
                        hitables@,
                        column as int,
                        row as int,
                        width as int,
                        height as int,
                        srs,
                    ),
                    samples * SCALE,
                )
            },
{
    let mut color = Vec3::zero();
    let mut s: u32 = 0;
    let ghost mut srs: Seq<SampleRand> = Seq::empty();
    let wfx = Fx::from_int(width as i64);
    let hfx = Fx::from_int(height as i64);
    let cfx = Fx::from_int(column as i64);
    let rfx = Fx::from_int(row as i64);
    proof {
        assert(wfx.v >= SCALE && hfx.v >= SCALE) by (nonlinear_arith)
            requires
                wfx.v == width * SCALE,
                hfx.v == height * SCALE,
                width >= 1,
                height >= 1,
                SCALE == 4294967296i128,
        ;
    }
    while s < samples
        invariant
            camera_wf(camera@),
            scene_wf(hitables@),
            column < width,
            row < height,
            width <= 65536,
            height <= 65536,
            1 <= samples <= 65536,
            s <= samples,
            wfx.v == width * SCALE,
            hfx.v == height * SCALE,
            cfx.v == column * SCALE,
            rfx.v == row * SCALE,
            wfx.v >= SCALE,
            hfx.v >= SCALE,
            in_range(color@, s as int * 17179869184),
            srs.len() == s as int,
            sample_rands_wf(srs),
            color@ == sum_sample_colors(
                camera@,
                hitables@,
                column as int,
                row as int,
                width as int,
                height as int,
                srs,
            ),
        decreases samples - s,
    {
        let j1 = rand_unit(rng);
        let j2 = rand_unit(rng);
        proof {
            lemma_unit_frac(column as int, j1.v as int, width as int);
            lemma_unit_frac(row as int, j2.v as int, height as int);
        }
        let u = cfx.add(j1).div(wfx);
        let v = rfx.add(j2).div(hfx);
        let ray = camera.get_ray(u, v, rng);
        let ghost lens = choose|sample: Vec3m|
            #![trigger crate::random::in_unit_disc(sample)]
            {
                &&& crate::random::in_unit_disc(sample)
                &&& ray@ == crate::camera::get_ray_spec(camera@, u.v as int, v.v as int, sample)
            };
        let sl = ray.direction.squared_length();
        if sl.v >= 1 {
            let c = trace(&ray, hitables, rng, 0);
            let ghost bounces = choose|rnds: Seq<ScatterRand>|
                #![trigger rnds_wf(rnds)]
                {
                    &&& rnds_wf(rnds)
                    &&& c@ == trace_out(hitables@, ray@, 0, rnds)
                };
            color = color.add(c);
            proof {
                let sr = SampleRand { jx: j1.v as int, jy: j2.v as int, lens, bounces };
                assert(sample_rand_wf(sr));
                assert(sample_color(
                    camera@,
                    hitables@,
                    column as int,
                    row as int,
                    width as int,
                    height as int,
                    sr,
                ) == c@);
                assert(srs.push(sr).drop_last() =~= srs);
                assert(srs.push(sr).last() == sr);
                srs = srs.push(sr);
                assert(sample_rands_wf(srs)) by {
                    assert(forall|i: int|
                        0 <= i < srs.len() - 1 ==> #[trigger] srs[i] == srs.drop_last()[i]);
                }
            }
        } else {
            proof {
                let sr = SampleRand {
                    jx: j1.v as int,
                    jy: j2.v as int,
                    lens,
                    bounces: Seq::empty(),
                };
                assert(sample_rand_wf(sr));
                assert(sample_color(
                    camera@,
                    hitables@,
                    column as int,
                    row as int,
                    width as int,
                    height as int,
                    sr,
                ) == (Vec3m { x: 0, y: 0, z: 0 }));
                assert(srs.push(sr).drop_last() =~= srs);
                assert(srs.push(sr).last() == sr);
                srs = srs.push(sr);
                assert(sample_rands_wf(srs)) by {
                    assert(forall|i: int|
                        0 <= i < srs.len() - 1 ==> #[trigger] srs[i] == srs.drop_last()[i]);
                }
            }
        }
        s = s + 1;
    }
    proof {
        lemma_avg_bound(color@.x, samples as int, 4 * SCALE);
        lemma_avg_bound(color@.y, samples as int, 4 * SCALE);
        lemma_avg_bound(color@.z, samples as int, 4 * SCALE);
    }
    let n = Fx::from_int(samples as i64);
    proof {
        assert(n.v >= SCALE) by (nonlinear_arith)
            requires
                n.v == samples * SCALE,
                samples >= 1,
                SCALE == 4294967296i128,
        ;
    }
    let r = color.div_s(n);
    proof {
        assert(sample_rands_wf(srs) && srs.len() == samples && r@ == crate::vec3::vm_div_s(
            sum_sample_colors(
                camera@,
                hitables@,
                column as int,
                row as int,
                width as int,
                height as int,
                srs,
            ),
            samples * SCALE,
        ));
    }
    r
}

/// Against an empty scene a trace is exactly the background gradient, for
/// every input ray, every draw of randomness, and independent of the depth.
pub proof fn lemma_trace_empty(hs: Seq<HitableKind>, ray: Raym, depth: int, rnds: Seq<ScatterRand>)
    requires
        hs.len() == 0,
    ensures
        trace_out(hs, ray, depth, rnds) == background_spec(ray.direction),
{
    assert(nearest_hit_spec(hs, ray, T_MIN_EPS as int, T_MAX_LIMIT as int) is None);
}

} // verus!
