//! The intersection protocol: hit records, the primitive variant set, and
//! the nearest-hit query over an ordered scene.

use vstd::prelude::*;

use crate::fixed::Fx;
use crate::fixed::SCALE;
use crate::material::MaterialKind;
use crate::ray::Ray;
use crate::ray::Raym;
use crate::ray::T_BOUND;
use crate::vec3::in_range;
use crate::vec3::vm_sqlen;
use crate::sphere::sphere_hit_spec;
use crate::sphere::sphere_wf;
use crate::sphere::Sphere;
use crate::vec3::Vec3;
use crate::vec3::Vec3m;
use vstd::math::abs;

verus! {

/// Largest hit-position component magnitude a record may carry; hits whose
/// computed position leaves this box are rejected as degenerate.
pub const POS_MAX: i128 = 0x1000_0000_0000;

/// Tolerance on the squared length of a recorded surface normal about one:
/// 2^-8 of the unit, comfortably above the rounding of a well-conditioned
/// intersection and far below anything a meaningful surface frame allows.
pub const NORMAL_TOL: i128 = 16777216;

/// Spec-level model of a hit record.
pub struct HitRecordm {
    pub t: int,
    pub pos: Vec3m,
    pub normal: Vec3m,
    pub material: MaterialKind,
}

/// A successful intersection: parametric distance, world position, outward
/// unit normal, and the material at the hit point.
#[derive(Clone, Copy, PartialEq, Eq, Structural, Debug)]
pub struct HitRecord {
    pub t: Fx,
    pub pos: Vec3,
    pub normal: Vec3,
    pub material: MaterialKind,
}

impl View for HitRecord {
    type V = HitRecordm;

    open spec fn view(&self) -> HitRecordm {
        HitRecordm {
            t: self.t.v as int,
            pos: self.pos@,
            normal: self.normal@,
            material: self.material,
        }
    }
}

impl HitRecord {
    /// Build a hit record from its parts.
    pub fn new(t: Fx, pos: Vec3, normal: Vec3, material: MaterialKind) -> (r: HitRecord)
        ensures
            r.t == t && r.pos == pos && r.normal == normal && r.material == material,
    {
        HitRecord { t, pos, normal, material }
    }
}

/// The spec-level view of an optional hit record.
pub open spec fn opt_rec_view(r: Option<HitRecord>) -> Option<HitRecordm> {
    match r {
        Some(x) => Some(x@),
        None => None,
    }
}

/// Well-formedness of a record's numeric payload: the position stays inside
/// the world box, the normal is unit length to within the tolerance, and the
/// distance is within the parametric range.
pub open spec fn rec_wf(rec: HitRecordm) -> bool {
    &&& abs(rec.t) <= T_BOUND as int
    &&& in_range(rec.pos, POS_MAX as int)
    &&& in_range(rec.normal, 2 * SCALE)
    &&& SCALE - NORMAL_TOL <= vm_sqlen(rec.normal) <= SCALE + NORMAL_TOL
}

/// The closed set of primitives.
#[derive(Clone, Copy, PartialEq, Eq, Structural, Debug)]
pub enum HitableKind {
    Sphere(Sphere),
}

/// Authoring bounds for a primitive.
pub open spec fn kind_wf(h: HitableKind) -> bool {
    match h {
        HitableKind::Sphere(s) => sphere_wf(s),
    }
}

/// Intersection of a ray with one primitive, by variant.
pub open spec fn kind_hit_spec(h: HitableKind, ray: Raym, t_min: int, t_max: int) -> Option<
    HitRecordm,
> {
    match h {
        HitableKind::Sphere(s) => sphere_hit_spec(s, ray, t_min, t_max),
    }
}

/// Every primitive of the scene is within the authoring bounds.
pub open spec fn scene_wf(hs: Seq<HitableKind>) -> bool {
    forall|i: int| 0 <= i < hs.len() ==> kind_wf(#[trigger] hs[i])
}

/// A record reported by a primitive carries a parameter strictly inside the
/// query interval.
pub proof fn lemma_kind_hit_t_range(h: HitableKind, ray: Raym, t_min: int, t_max: int)
    ensures
        match kind_hit_spec(h, ray, t_min, t_max) {
            Some(rec) => t_min < rec.t < t_max,
            None => true,
        },
{
}

impl HitableKind {
    /// Intersect the ray with this primitive.
    pub fn hit(&self, ray: &Ray, t_min: Fx, t_max: Fx) -> (r: Option<HitRecord>)
        requires
            kind_wf(*self),
            in_range(ray@.origin, POS_MAX as int),
            in_range(ray@.direction, crate::ray::DIR_MAX as int),
            abs(t_min.v as int) <= T_BOUND as int,
            abs(t_max.v as int) <= T_BOUND as int,
        ensures
            opt_rec_view(r) == kind_hit_spec(*self, ray@, t_min.v as int, t_max.v as int),
    {
        match self {
            HitableKind::Sphere(sphere) => sphere.hit(ray, t_min, t_max),
        }
    }
}

/// The linear scan with a shrinking upper bound, folded over the remaining
/// primitives: the state is the best record so far and the bound it set.
pub open spec fn fold_hit(
    hs: Seq<HitableKind>,
    ray: Raym,
    t_min: int,
    cur: Option<HitRecordm>,
    cur_t: int,
) -> Option<HitRecordm>
    decreases hs.len(),
{
    if hs.len() == 0 {
        cur
    } else {
        match kind_hit_spec(hs[0], ray, t_min, cur_t) {
            Some(rec) => fold_hit(hs.subrange(1, hs.len() as int), ray, t_min, Some(rec), rec.t),
            None => fold_hit(hs.subrange(1, hs.len() as int), ray, t_min, cur, cur_t),
        }
    }
}

/// The nearest hit of the whole scene: the fold started with no record and
/// the full interval.
pub open spec fn nearest_hit_spec(hs: Seq<HitableKind>, ray: Raym, t_min: int, t_max: int) -> Option<
    HitRecordm,
> {
    fold_hit(hs, ray, t_min, None, t_max)
}

/// Scan all primitives, shrinking the upper bound to each hit found, and
/// return the nearest record.
pub fn nearest_hit(hitables: &Vec<HitableKind>, ray: &Ray, t_min: Fx, t_max: Fx) -> (r: Option<
    HitRecord,
>)
    requires
        scene_wf(hitables@),
        in_range(ray@.origin, POS_MAX as int),
        in_range(ray@.direction, crate::ray::DIR_MAX as int),
        abs(t_min.v as int) <= T_BOUND as int,
        abs(t_max.v as int) <= T_BOUND as int,
    ensures
        opt_rec_view(r) == nearest_hit_spec(hitables@, ray@, t_min.v as int, t_max.v as int),
{
    let ghost target = nearest_hit_spec(hitables@, ray@, t_min.v as int, t_max.v as int);
    let mut closest_rec: Option<HitRecord> = None;
    let mut closest_t: Fx = t_max;
    let n = hitables.len();
    let mut i: usize = 0;
    proof {
        assert(hitables@.subrange(0, n as int) =~= hitables@);
    }
    while i < n
        invariant
            n == hitables@.len(),
            0 <= i <= n,
            scene_wf(hitables@),
            in_range(ray@.origin, POS_MAX as int),
            in_range(ray@.direction, crate::ray::DIR_MAX as int),
            abs(t_min.v as int) <= T_BOUND as int,
            abs(closest_t.v as int) <= T_BOUND as int,
            fold_hit(
                hitables@.subrange(i as int, n as int),
                ray@,
                t_min.v as int,
                opt_rec_view(closest_rec),
                closest_t.v as int,
            ) == target,
        decreases n - i,
    {
        let ghost prev_i = i as int;
        let ghost prev_t = closest_t.v as int;
        let h = hitables[i];
        proof {
            assert(hitables@.subrange(prev_i, n as int)[0] == hitables@[prev_i]);
            lemma_kind_hit_t_range(hitables@[prev_i], ray@, t_min.v as int, prev_t);
        }
        match h.hit(ray, t_min, closest_t) {
            Some(rec) => {
                closest_t = rec.t;
                closest_rec = Some(rec);
            },
            None => {},
        }
        i = i + 1;
        proof {
            assert(hitables@.subrange(prev_i, n as int).subrange(
                1,
                hitables@.subrange(prev_i, n as int).len() as int,
            ) =~= hitables@.subrange(i as int, n as int));
        }
    }
    proof {
        assert(hitables@.subrange(n as int, n as int).len() == 0);
    }
    closest_rec
}

/// A primitive-level miss survives any shrinking of the upper bound.
proof fn lemma_kind_hit_none_mono(h: HitableKind, ray: Raym, t_min: int, m1: int, m2: int)
    requires
        kind_hit_spec(h, ray, t_min, m1) is None,
        m2 <= m1,
    ensures
        kind_hit_spec(h, ray, t_min, m2) is None,
{
    match h {
        HitableKind::Sphere(s) => {
            crate::sphere::lemma_sphere_hit_none_mono(s, ray, t_min, m1, m2);
        },
    }
}

/// Narrowing the bound to a primitive's own reported parameter leaves no hit.
proof fn lemma_kind_hit_shrink_to_self(h: HitableKind, ray: Raym, t_min: int, m: int)
    ensures
        match kind_hit_spec(h, ray, t_min, m) {
            Some(rec) => kind_hit_spec(h, ray, t_min, rec.t) is None,
            None => true,
        },
{
    match h {
        HitableKind::Sphere(s) => {
            crate::sphere::lemma_sphere_hit_shrink_to_self(s, ray, t_min, m);
        },
    }
}

/// The fold's result is the nearest: no scanned primitive reports a hit
/// once the bound is narrowed to the result's parameter (or, if nothing was
/// found, against the bound the fold carried).
#[verifier::rlimit(100)]
proof fn lemma_fold_nearest(
    hs: Seq<HitableKind>,
    ray: Raym,
    t_min: int,
    cur: Option<HitRecordm>,
    cur_t: int,
)
    requires
        match cur {
            Some(c) => c.t == cur_t,
            None => true,
        },
    ensures
        match fold_hit(hs, ray, t_min, cur, cur_t) {
            Some(rec) => rec.t <= cur_t && forall|i: int|
                0 <= i < hs.len() ==> #[trigger] kind_hit_spec(hs[i], ray, t_min, rec.t) is None,
            None => cur is None && forall|i: int|
                0 <= i < hs.len() ==> #[trigger] kind_hit_spec(hs[i], ray, t_min, cur_t) is None,
        },
    decreases hs.len(),
{
    if hs.len() > 0 {
        let rest = hs.subrange(1, hs.len() as int);
        lemma_kind_hit_t_range(hs[0], ray, t_min, cur_t);
        match kind_hit_spec(hs[0], ray, t_min, cur_t) {
            Some(r0) => {
                lemma_fold_nearest(rest, ray, t_min, Some(r0), r0.t);
                lemma_kind_hit_shrink_to_self(hs[0], ray, t_min, cur_t);
                match fold_hit(rest, ray, t_min, Some(r0), r0.t) {
                    Some(rec) => {
                        lemma_kind_hit_none_mono(hs[0], ray, t_min, r0.t, rec.t);
                        assert forall|i: int|
                            1 <= i < hs.len() implies #[trigger] kind_hit_spec(
                            hs[i],
                            ray,
                            t_min,
                            rec.t,
                        ) is None by {
                            assert(rest[i - 1] == hs[i]);
                            assert(kind_hit_spec(rest[i - 1], ray, t_min, rec.t) is None);
                        };
                    },
                    None => {},
                }
            },
            None => {
                lemma_fold_nearest(rest, ray, t_min, cur, cur_t);
                match fold_hit(rest, ray, t_min, cur, cur_t) {
                    Some(rec) => {
                        lemma_kind_hit_none_mono(hs[0], ray, t_min, cur_t, rec.t);
                        assert forall|i: int|
                            1 <= i < hs.len() implies #[trigger] kind_hit_spec(
                            hs[i],
                            ray,
                            t_min,
                            rec.t,
                        ) is None by {
                            assert(rest[i - 1] == hs[i]);
                            assert(kind_hit_spec(rest[i - 1], ray, t_min, rec.t) is None);
                        };
                    },
                    None => {
                        assert forall|i: int|
                            1 <= i < hs.len() implies #[trigger] kind_hit_spec(
                            hs[i],
                            ray,
                            t_min,
                            cur_t,
                        ) is None by {
                            assert(rest[i - 1] == hs[i]);
                            assert(kind_hit_spec(rest[i - 1], ray, t_min, cur_t) is None);
                        };
                    },
                }
            },
        }
    }
}

/// The scene query returns the single nearest hit: no primitive of the
/// scene reports an intersection once the interval is narrowed to the
/// returned parameter, and on a miss no primitive reports one in the whole
/// interval.
pub proof fn lemma_nearest_hit_is_nearest(hs: Seq<HitableKind>, ray: Raym, t_min: int, t_max: int)
    ensures
        match nearest_hit_spec(hs, ray, t_min, t_max) {
            Some(rec) => rec.t <= t_max && forall|i: int|
                0 <= i < hs.len() ==> #[trigger] kind_hit_spec(hs[i], ray, t_min, rec.t) is None,
            None => forall|i: int|
                0 <= i < hs.len() ==> #[trigger] kind_hit_spec(hs[i], ray, t_min, t_max) is None,
        },
{
    lemma_fold_nearest(hs, ray, t_min, None, t_max);
}

/// An ordered collection of primitives, queried for the nearest hit.
#[derive(Clone, Debug)]
pub struct HitableList {
    pub hitables: Vec<HitableKind>,
}

impl HitableList {
    /// The nearest intersection along the ray within `(t_min, t_max)`.
    pub fn hit(&self, ray: &Ray, t_min: Fx, t_max: Fx) -> (r: Option<HitRecord>)
        requires
            scene_wf(self.hitables@),
            in_range(ray@.origin, POS_MAX as int),
            in_range(ray@.direction, crate::ray::DIR_MAX as int),
            abs(t_min.v as int) <= T_BOUND as int,
            abs(t_max.v as int) <= T_BOUND as int,
        ensures
            opt_rec_view(r) == nearest_hit_spec(self.hitables@, ray@, t_min.v as int, t_max.v as int),
    {
        nearest_hit(&self.hitables, ray, t_min, t_max)
    }
}

} // verus!
