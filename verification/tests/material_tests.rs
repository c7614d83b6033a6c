use raytracer::fixed::Fx;
use raytracer::fixed::SCALE;
use raytracer::hitable::HitRecord;
use raytracer::material::refract;
use raytracer::material::schlick;
use raytracer::material::Dielectric;
use raytracer::material::Lambertian;
use raytracer::material::MaterialKind;
use raytracer::material::Metal;
use raytracer::random::new_rng;
use raytracer::random::rand_unit;
use raytracer::random::random_direction;
use raytracer::ray::Ray;
use raytracer::vec3::Vec3;

fn fx(n: i64) -> Fx {
    Fx::from_int(n)
}

fn fxr(n: i64, d: i64) -> Fx {
    Fx::from_ratio(n, d)
}

fn v3(x: i64, y: i64, z: i64) -> Vec3 {
    Vec3::new(fx(x), fx(y), fx(z))
}

fn record_at_origin(normal: Vec3) -> HitRecord {
    HitRecord::new(
        fx(1),
        v3(0, 0, 0),
        normal,
        MaterialKind::Lambertian(Lambertian { albedo: Vec3::new(fxr(1, 2), fxr(1, 2), fxr(1, 2)) }),
    )
}

#[test]
fn fuzzless_metal_mirrors_perpendicular_incidence() {
    let metal = Metal { albedo: Vec3::new(fxr(4, 5), fxr(3, 5), fxr(1, 5)), fuzz: fx(0) };
    let rec = record_at_origin(v3(0, 0, 1));
    let ray = Ray::new(v3(0, 0, 1), v3(0, 0, -1));
    let mut rng = new_rng(7);
    let (cont, scattered, att) = metal.scatter(&ray, &rec, &mut rng);
    assert!(cont);
    assert_eq!(scattered.origin, rec.pos);
    assert_eq!(scattered.direction, v3(0, 0, 1));
    assert_eq!(att, metal.albedo);
}

#[test]
fn metal_absorbs_a_ray_reflected_to_the_back_side() {
    // a ray arriving from behind the surface: its mirror image points into
    // the surface, so the path is absorbed whatever the fuzz sample
    let metal = Metal { albedo: Vec3::new(fxr(4, 5), fxr(3, 5), fxr(1, 5)), fuzz: fx(0) };
    let rec = record_at_origin(v3(0, 0, 1));
    let ray = Ray::new(v3(0, 0, -1), v3(0, 0, 1));
    let mut rng = new_rng(7);
    let (cont, _scattered, _att) = metal.scatter(&ray, &rec, &mut rng);
    assert!(!cont);
}

#[test]
fn grazing_incidence_gives_total_internal_reflection() {
    // exiting glass at grazing incidence: ratio 1.5, cosine near zero
    let dir = Vec3::new(fx(1), fx(0), fxr(1, 1000));
    let normal = v3(0, 0, 1);
    let (ok, refracted) = refract(dir, normal, fxr(3, 2));
    assert!(!ok);
    assert_eq!(refracted, v3(0, 0, 0));
}

#[test]
fn normal_incidence_refracts_straight_through() {
    let dir = v3(0, 0, -1);
    let normal = v3(0, 0, 1);
    let (ok, refracted) = refract(dir, normal, fxr(2, 3));
    assert!(ok);
    assert_eq!(refracted, v3(0, 0, -1));
}

#[test]
fn schlick_at_normal_incidence_is_four_percent() {
    let r = schlick(fx(1), fxr(3, 2));
    // ((1 - 1.5) / (1 + 1.5))^2 = 0.04
    let expected: i128 = 4 * SCALE / 100;
    assert!((r.v - expected).abs() < SCALE / 100000);
}

#[test]
fn dielectric_always_continues_and_does_not_tint() {
    let glass = Dielectric { ref_idx: fxr(3, 2) };
    let rec = record_at_origin(v3(0, 0, 1));
    let ray = Ray::new(v3(0, 0, 1), Vec3::new(fxr(1, 4), fx(0), fx(-1)));
    let mut rng = new_rng(11);
    for _ in 0..32 {
        let (cont, scattered, att) = glass.scatter(&ray, &rec, &mut rng);
        assert!(cont);
        assert_eq!(att, Vec3::new(fx(1), fx(1), fx(1)));
        assert_eq!(scattered.origin, rec.pos);
    }
}

#[test]
fn dielectric_reflects_about_four_percent_at_normal_incidence() {
    // entering glass head-on: the Schlick probability is the reflectance at
    // normal incidence, about 0.04, so roughly four percent of scattered
    // rays bounce back (positive z) and the rest pass straight through
    let glass = Dielectric { ref_idx: fxr(3, 2) };
    let rec = record_at_origin(v3(0, 0, 1));
    let ray = Ray::new(v3(0, 0, 1), v3(0, 0, -1));
    let mut rng = new_rng(21);
    let mut reflected: u32 = 0;
    for _ in 0..2000 {
        let (_cont, scattered, _att) = glass.scatter(&ray, &rec, &mut rng);
        if scattered.direction.z.v > 0 {
            reflected += 1;
        } else {
            assert_eq!(scattered.direction, v3(0, 0, -1));
        }
    }
    // expected about 80 of 2000; far from both 0 and the ~0.01 rate a
    // mis-scaled cosine would give
    assert!(reflected >= 40 && reflected <= 160);
}

#[test]
fn lambertian_scatters_about_the_normal() {
    let diffuse = Lambertian { albedo: Vec3::new(fxr(1, 10), fxr(2, 10), fxr(5, 10)) };
    let rec = record_at_origin(v3(0, 0, 1));
    let ray = Ray::new(v3(0, 0, 1), v3(0, 0, -1));
    let mut rng = new_rng(3);
    for _ in 0..32 {
        let (cont, scattered, att) = diffuse.scatter(&ray, &rec, &mut rng);
        assert!(cont);
        assert_eq!(att, diffuse.albedo);
        assert_eq!(scattered.origin, rec.pos);
        // direction = normal + a point inside the unit ball: z in (0, 2)
        assert!(scattered.direction.z.v > 0);
        assert!(scattered.direction.z.v < 2 * SCALE);
    }
}

#[test]
fn raw_draws_are_one_unit_of_fraction() {
    let mut rng = new_rng(99);
    for _ in 0..256 {
        let u = rand_unit(&mut rng);
        assert!(0 <= u.v && u.v < SCALE);
    }
}

#[test]
fn ball_samples_stay_inside_the_unit_ball() {
    let mut rng = new_rng(5);
    for _ in 0..256 {
        let d = random_direction(&mut rng);
        assert!(d.squared_length().v < SCALE);
    }
}
