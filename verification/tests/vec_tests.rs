use raytracer::fixed::Fx;
use raytracer::fixed::SCALE;
use raytracer::vec3::Vec3;

fn fx(n: i64) -> Fx {
    Fx::from_int(n)
}

fn fxr(n: i64, d: i64) -> Fx {
    Fx::from_ratio(n, d)
}

fn v3(x: i64, y: i64, z: i64) -> Vec3 {
    Vec3::new(fx(x), fx(y), fx(z))
}

#[test]
fn add_and_sub_are_componentwise() {
    let a = v3(1, 2, 3);
    let b = v3(4, -5, 6);
    assert_eq!(a.add(b), v3(5, -3, 9));
    assert_eq!(a.sub(b), v3(-3, 7, -3));
}

#[test]
fn add_commutes_and_associates() {
    let a = v3(3, -7, 11);
    let b = v3(-2, 9, 4);
    let c = v3(8, 1, -6);
    assert_eq!(a.add(b), b.add(a));
    assert_eq!(a.add(b).add(c), a.add(b.add(c)));
}

#[test]
fn dot_is_symmetric() {
    let a = Vec3::new(fxr(3, 2), fx(-7), fxr(11, 4));
    let b = Vec3::new(fx(-2), fxr(9, 5), fx(4));
    assert_eq!(a.dot(b), b.dot(a));
    assert_eq!(v3(1, 2, 3).dot(v3(4, 5, 6)).v, 32 * SCALE);
}

#[test]
fn cross_is_antisymmetric() {
    let a = Vec3::new(fxr(3, 2), fx(-7), fxr(11, 4));
    let b = Vec3::new(fx(-2), fxr(9, 5), fx(4));
    assert_eq!(a.cross(b), b.cross(a).neg());
    assert_eq!(v3(1, 0, 0).cross(v3(0, 1, 0)), v3(0, 0, 1));
}

#[test]
fn normalize_gives_unit_length() {
    let a = v3(3, 4, 0);
    let n = a.normalize();
    assert_eq!(a.length().v, 5 * SCALE);
    assert_eq!(n, Vec3::new(fxr(3, 5), fxr(4, 5), fx(0)));
    // length of the unit vector is one, within 1e-5
    let diff = n.length().v - SCALE;
    assert!(diff.abs() < SCALE / 100000);
    // an irrational length too
    let b = v3(1, 1, 1);
    let diff2 = b.normalize().length().v - SCALE;
    assert!(diff2.abs() < SCALE / 100000);
}

#[test]
fn reflect_preserves_negated_incidence() {
    // for the exactly representable unit normal (0, 0, 1) the law is exact
    let n = v3(0, 0, 1);
    let v = Vec3::new(fxr(7, 3), fx(-2), fxr(-5, 4));
    let r = v.reflect(n);
    assert_eq!(r.dot(n).v, -v.dot(n).v);
    assert_eq!(r, Vec3::new(fxr(7, 3), fx(-2), fxr(5, 4)));
}

#[test]
fn squared_length_matches_dot() {
    let a = Vec3::new(fxr(3, 2), fx(-7), fxr(11, 4));
    assert_eq!(a.squared_length(), a.dot(a));
}

#[test]
fn scalar_ops_are_exact_on_integers() {
    let a = v3(3, -4, 5);
    assert_eq!(a.scale(fx(2)), v3(6, -8, 10));
    assert_eq!(a.div_s(fx(-1)), v3(-3, 4, -5));
    assert_eq!(a.neg(), v3(-3, 4, -5));
    assert_eq!(a.mul(v3(2, 3, -1)), v3(6, -12, -5));
    assert_eq!(v3(6, -12, 5).div(v3(2, 3, -1)), v3(3, -4, -5));
}

#[test]
fn reflect_law_holds_for_a_skew_unit_normal() {
    // a skew normal whose fixed-point squared length is exactly one:
    // (0.5, ~0.866, 0), with the second component picked so the truncated
    // squares sum to the unit
    let n = Vec3::new(Fx { v: 2147483648 }, Fx { v: 3719550787 }, fx(0));
    assert_eq!(n.squared_length().v, SCALE);
    let v = Vec3::new(fxr(7, 3), fx(-2), fxr(-5, 4));
    let r = v.reflect(n);
    let lhs = r.dot(n).v;
    let rhs = -v.dot(n).v;
    assert!((lhs - rhs).abs() <= 100);
}

#[test]
fn fixed_point_basics() {
    assert_eq!(fx(1).v, SCALE);
    assert_eq!(fxr(1, 2).v, SCALE / 2);
    assert_eq!(fxr(-1, 2).v, -(SCALE / 2));
    assert_eq!(fx(3).mul(fx(4)).v, 12 * SCALE);
    assert_eq!(fx(3).div(fx(4)).v, 3 * SCALE / 4);
    assert_eq!(fx(9).sqrt().v, 3 * SCALE);
    assert_eq!(fxr(1, 4).sqrt().v, SCALE / 2);
}
