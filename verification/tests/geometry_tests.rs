use raytracer::fixed::Fx;
use raytracer::fixed::SCALE;
use raytracer::hitable::HitableKind;
use raytracer::hitable::HitableList;
use raytracer::material::Lambertian;
use raytracer::material::MaterialKind;
use raytracer::ray::Ray;
use raytracer::sphere::Sphere;
use raytracer::vec3::Vec3;

fn fx(n: i64) -> Fx {
    Fx::from_int(n)
}

fn fxr(n: i64, d: i64) -> Fx {
    Fx::from_ratio(n, d)
}

fn v3(x: i64, y: i64, z: i64) -> Vec3 {
    Vec3::new(fx(x), fx(y), fx(z))
}

fn gray() -> MaterialKind {
    MaterialKind::Lambertian(Lambertian { albedo: Vec3::new(fxr(1, 2), fxr(1, 2), fxr(1, 2)) })
}

fn t_min() -> Fx {
    fxr(1, 1000)
}

fn t_max() -> Fx {
    fx(100)
}

#[test]
fn sphere_hit_reports_nearer_root() {
    let s = Sphere::new(v3(0, 0, -1), fxr(1, 2), gray());
    let ray = Ray::new(v3(0, 0, 1), v3(0, 0, -1));
    let rec = s.hit(&ray, t_min(), t_max()).expect("must hit");
    assert_eq!(rec.t.v, 3 * SCALE / 2);
    assert_eq!(rec.pos, Vec3::new(fx(0), fx(0), fxr(-1, 2)));
    assert_eq!(rec.normal, v3(0, 0, 1));
}

#[test]
fn sphere_passed_at_distance_misses() {
    let s = Sphere::new(v3(2, 0, -1), fxr(1, 2), gray());
    let ray = Ray::new(v3(0, 0, 1), v3(0, 0, -1));
    assert!(s.hit(&ray, t_min(), t_max()).is_none());
}

#[test]
fn ray_from_inside_hits_far_boundary() {
    let s = Sphere::new(v3(0, 0, -1), fxr(1, 2), gray());
    let ray = Ray::new(v3(0, 0, -1), v3(0, 0, -1));
    let rec = s.hit(&ray, t_min(), t_max()).expect("must hit");
    assert_eq!(rec.t.v, SCALE / 2);
    assert_eq!(rec.pos, Vec3::new(fx(0), fx(0), fxr(-3, 2)));
    assert_eq!(rec.normal, v3(0, 0, -1));
}

#[test]
fn negated_radius_reverses_normal_at_same_t() {
    let s = Sphere::new(v3(0, 0, -1), fxr(1, 2), gray());
    let hollow = Sphere::new(v3(0, 0, -1), fxr(-1, 2), gray());
    let ray = Ray::new(v3(0, 0, 1), v3(0, 0, -1));
    let a = s.hit(&ray, t_min(), t_max()).expect("must hit");
    let b = hollow.hit(&ray, t_min(), t_max()).expect("must hit");
    assert_eq!(a.t, b.t);
    assert_eq!(a.pos, b.pos);
    assert_eq!(b.normal, a.normal.neg());
    assert_eq!(b.normal, v3(0, 0, -1));
}

#[test]
fn bound_outside_interval_misses() {
    let s = Sphere::new(v3(0, 0, -1), fxr(1, 2), gray());
    let ray = Ray::new(v3(0, 0, 1), v3(0, 0, -1));
    // the hit is at t = 1.5; an upper bound of 1 excludes it
    assert!(s.hit(&ray, t_min(), fx(1)).is_none());
    // a lower bound of 3 excludes both roots
    assert!(s.hit(&ray, fx(3), t_max()).is_none());
}

#[test]
fn list_returns_nearest_hit() {
    let far = HitableKind::Sphere(Sphere::new(v3(0, 0, -5), fxr(1, 2), gray()));
    let near = HitableKind::Sphere(Sphere::new(v3(0, 0, -2), fxr(1, 2), gray()));
    let list = HitableList { hitables: vec![far, near] };
    let ray = Ray::new(v3(0, 0, 1), v3(0, 0, -1));
    let rec = list.hit(&ray, t_min(), t_max()).expect("must hit");
    assert_eq!(rec.t.v, 5 * SCALE / 2);
    // the same nearest hit whatever the order
    let list2 = HitableList { hitables: vec![near, far] };
    let rec2 = list2.hit(&ray, t_min(), t_max()).expect("must hit");
    assert_eq!(rec.t, rec2.t);
    assert_eq!(rec.pos, rec2.pos);
}

#[test]
fn empty_list_misses() {
    let list = HitableList { hitables: vec![] };
    let ray = Ray::new(v3(0, 0, 1), v3(0, 0, -1));
    assert!(list.hit(&ray, t_min(), t_max()).is_none());
}

#[test]
fn point_at_parameter_walks_the_ray() {
    let ray = Ray::new(v3(1, 2, 3), v3(0, -1, 2));
    assert_eq!(ray.point_at_parameter(fx(2)), v3(1, 0, 7));
}
