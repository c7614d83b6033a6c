use raytracer::camera::Camera;
use raytracer::fixed::Fx;
use raytracer::fixed::SCALE;
use raytracer::hitable::HitableKind;
use raytracer::material::Dielectric;
use raytracer::material::Lambertian;
use raytracer::material::MaterialKind;
use raytracer::material::Metal;
use raytracer::random::new_rng;
use raytracer::ray::Ray;
use raytracer::sphere::Sphere;
use raytracer::trace::background;
use raytracer::trace::render_pixel;
use raytracer::trace::trace;
use raytracer::vec3::Vec3;

fn fx(n: i64) -> Fx {
    Fx::from_int(n)
}

fn fxr(n: i64, d: i64) -> Fx {
    Fx::from_ratio(n, d)
}

fn v3(x: i64, y: i64, z: i64) -> Vec3 {
    Vec3::new(fx(x), fx(y), fx(z))
}

/// The reference scene: a large ground sphere, a diffuse center sphere, a
/// metal sphere, and two coincident spheres of opposite radius forming a
/// hollow glass shell.
fn reference_scene() -> Vec<HitableKind> {
    vec![
        HitableKind::Sphere(Sphere::new(
            v3(0, 0, -1),
            fxr(1, 2),
            MaterialKind::Lambertian(Lambertian {
                albedo: Vec3::new(fxr(1, 10), fxr(2, 10), fxr(5, 10)),
            }),
        )),
        HitableKind::Sphere(Sphere::new(
            Vec3::new(fx(0), fxr(-201, 2), fx(-1)),
            fx(100),
            MaterialKind::Lambertian(Lambertian {
                albedo: Vec3::new(fxr(8, 10), fxr(8, 10), fx(0)),
            }),
        )),
        HitableKind::Sphere(Sphere::new(
            v3(1, 0, -1),
            fxr(1, 2),
            MaterialKind::Metal(Metal {
                albedo: Vec3::new(fxr(8, 10), fxr(6, 10), fxr(2, 10)),
                fuzz: fx(0),
            }),
        )),
        HitableKind::Sphere(Sphere::new(
            v3(-1, 0, -1),
            fxr(1, 2),
            MaterialKind::Dielectric(Dielectric { ref_idx: fxr(3, 2) }),
        )),
        HitableKind::Sphere(Sphere::new(
            v3(-1, 0, -1),
            fxr(-45, 100),
            MaterialKind::Dielectric(Dielectric { ref_idx: fxr(3, 2) }),
        )),
    ]
}

fn reference_camera() -> Camera {
    Camera::new(
        v3(0, 0, 2),
        v3(0, 0, -1),
        v3(0, 1, 0),
        fx(45),
        fxr(4, 3),
        fxr(1, 20),
        fx(5),
    )
}

#[test]
fn empty_scene_returns_background_for_any_depth() {
    let scene: Vec<HitableKind> = vec![];
    let ray = Ray::new(v3(0, 0, 2), Vec3::new(fxr(1, 3), fxr(-2, 5), fx(-1)));
    let expected = background(ray.direction);
    let mut rng = new_rng(1);
    assert_eq!(trace(&ray, &scene, &mut rng, 0), expected);
    assert_eq!(trace(&ray, &scene, &mut rng, 17), expected);
    assert_eq!(trace(&ray, &scene, &mut rng, 50), expected);
}

#[test]
fn background_is_the_documented_gradient() {
    // a horizontal unit direction: t = 1/2, color (0.75, 0.85, 1.0)
    let bg = background(v3(1, 0, 0));
    assert_eq!(bg.x.v, 3 * SCALE / 4);
    let expected_g: i128 = SCALE / 2 + 3006477107 / 2;
    assert!((bg.y.v - expected_g).abs() <= 2);
    assert_eq!(bg.z.v, SCALE);
    // straight up: t = 1, the sky color
    let up = background(v3(0, 1, 0));
    assert!((up.x.v - SCALE / 2).abs() <= 2);
    assert!((up.z.v - SCALE).abs() <= 2);
}

#[test]
fn zero_aperture_camera_aims_at_the_focal_point() {
    // a square, ninety-degree camera one unit from its target
    let cam = Camera::new(
        v3(0, 0, 0),
        v3(0, 0, -1),
        v3(0, 1, 0),
        fx(90),
        fx(1),
        fx(0),
        fx(1),
    );
    assert_eq!(cam.lens_radius.v, 0);
    assert_eq!(cam.u, v3(1, 0, 0));
    assert_eq!(cam.v, v3(0, 1, 0));
    // the vertical span is -2 * tan(45 degrees), within 1e-4
    assert!((cam.vertical.y.v + 2 * SCALE).abs() < SCALE / 10000);
    // the centre ray points straight at the target
    let mut rng = new_rng(2);
    let ray = cam.get_ray(fxr(1, 2), fxr(1, 2), &mut rng);
    assert_eq!(ray.origin, v3(0, 0, 0));
    assert!(ray.direction.x.v.abs() <= 2);
    assert!(ray.direction.y.v.abs() <= 2);
    assert!((ray.direction.z.v + SCALE).abs() <= 2);
}

#[test]
fn hit_scene_attenuates_or_terminates() {
    // straight at the diffuse sphere: the result is componentwise within
    // the attenuation bound of the engine
    let scene = reference_scene();
    let ray = Ray::new(v3(0, 0, 2), v3(0, 0, -1));
    let mut rng = new_rng(12);
    for _ in 0..16 {
        let c = trace(&ray, &scene, &mut rng, 0);
        assert!(c.x.v.abs() <= 4 * SCALE);
        assert!(c.y.v.abs() <= 4 * SCALE);
        assert!(c.z.v.abs() <= 4 * SCALE);
    }
}

#[test]
fn depth_limit_cuts_to_black() {
    // at the depth limit a hit contributes black whatever the material does
    let scene = reference_scene();
    let ray = Ray::new(v3(0, 0, 2), v3(0, 0, -1));
    let mut rng = new_rng(8);
    let c = trace(&ray, &scene, &mut rng, 50);
    assert_eq!(c, v3(0, 0, 0));
}

#[test]
fn rendering_the_reference_scene_is_reproducible() {
    let scene = reference_scene();
    let cam = reference_camera();
    let width: u32 = 20;
    let height: u32 = 15;
    let samples: u32 = 4;
    let mut first: Vec<Vec3> = Vec::new();
    let mut rng = new_rng(42);
    for row in 0..height {
        for column in 0..width {
            first.push(render_pixel(
                &cam, &scene, column, row, width, height, samples, &mut rng,
            ));
        }
    }
    let mut second: Vec<Vec3> = Vec::new();
    let mut rng2 = new_rng(42);
    for row in 0..height {
        for column in 0..width {
            second.push(render_pixel(
                &cam, &scene, column, row, width, height, samples, &mut rng2,
            ));
        }
    }
    assert_eq!(first.len(), second.len());
    for i in 0..first.len() {
        assert_eq!(first[i], second[i]);
    }
    // and a different seed gives a different image
    let mut third: Vec<Vec3> = Vec::new();
    let mut rng3 = new_rng(43);
    for row in 0..height {
        for column in 0..width {
            third.push(render_pixel(
                &cam, &scene, column, row, width, height, samples, &mut rng3,
            ));
        }
    }
    assert!(first != third);
}
