//! End-to-end exercises of the tracing core on concrete fixed-point values.

use raytracer::fx::{FP_ONE, FX_LIM, fx_mul, fx_div, isqrt, fx_neg_ln};
use raytracer::vec3::Vec3;
use raytracer::ray::Ray;
use raytracer::aabb::AABB;
use raytracer::texture::{Texture, SolidColor, CheckerTexture, ImageTexture};
use raytracer::material::{Material, Lambertian, Metal, Dielectric, DiffuseLight, reflectance};
use raytracer::sphere::{Sphere, MovingSphere};
use raytracer::aarect::{XYRect, XZRect, YZRect};
use raytracer::triangle::Triangle;
use raytracer::ring::Ring;
use raytracer::boxes::Boxes;
use raytracer::medium::ConstantMedium;
use raytracer::object::{Object, HittableList, BvhNode};
use raytracer::pdf::CosPdf;
use raytracer::integrator::ray_color;
use raytracer::color::write_color;
use raytracer::rng::{random_index, random_range_fx};

const S: i128 = 4294967296;

fn v(x: f64, y: f64, z: f64) -> Vec3 {
    Vec3 {
        x: (x * S as f64) as i128,
        y: (y * S as f64) as i128,
        z: (z * S as f64) as i128,
    }
}

fn fx(x: f64) -> i128 {
    (x * S as f64) as i128
}

fn to_f(x: i128) -> f64 {
    x as f64 / S as f64
}

fn gray(level: f64) -> Material {
    Material::Lambertian(Lambertian::new(v(level, level, level)))
}

// A small deterministic generator so geometry fuzzing is reproducible.
struct Lcg(u64);
impl Lcg {
    fn next(&mut self) -> u64 {
        self.0 = self.0.wrapping_mul(6364136223846793005).wrapping_add(1442695040888963407);
        self.0 >> 11
    }
    fn unit(&mut self) -> f64 {
        (self.next() % 1000000) as f64 / 1000000.0
    }
}

#[test]
fn aabb_hit_through_and_miss() {
    let b = AABB::new(v(0.0, 0.0, 0.0), v(1.0, 1.0, 1.0));
    let through = Ray::new(v(-2.0, 0.5, 0.5), v(1.0, 0.0, 0.0), 0);
    assert!(b.hit(&through, 0, FX_LIM));
    let away = Ray::new(v(-2.0, 0.5, 0.5), v(-1.0, 0.0, 0.0), 0);
    assert!(!b.hit(&away, 0, FX_LIM));
    let beside = Ray::new(v(-2.0, 5.0, 0.5), v(1.0, 0.0, 0.0), 0);
    assert!(!b.hit(&beside, 0, FX_LIM));
    // A parallel ray inside the slab still counts.
    let sliding = Ray::new(v(-2.0, 0.5, 0.5), v(1.0, 0.0, 0.0), 0);
    assert!(b.hit(&sliding, 0, FX_LIM));
    // Widening the window can only keep a hit.
    assert!(b.hit(&through, 0, 100 * S));
}

#[test]
fn aabb_window_excludes_box_behind() {
    let b = AABB::new(v(0.0, 0.0, 0.0), v(1.0, 1.0, 1.0));
    let r = Ray::new(v(-2.0, 0.5, 0.5), v(1.0, 0.0, 0.0), 0);
    // The box spans t in [2, 3]; a window ending before it misses.
    assert!(!b.hit(&r, 0, fx(1.5)));
    assert!(b.hit(&r, 0, fx(2.5)));
}

#[test]
fn surrounding_box_contains_both() {
    let a = AABB::new(v(0.0, 0.0, 0.0), v(1.0, 2.0, 3.0));
    let b = AABB::new(v(-1.0, 0.5, 1.0), v(0.5, 5.0, 2.0));
    let s = AABB::surrounding_box(a, b);
    assert!(s.min.x <= a.min.x && a.max.x <= s.max.x);
    assert!(s.min.y <= a.min.y && a.max.y <= s.max.y);
    assert!(s.min.z <= a.min.z && a.max.z <= s.max.z);
    assert!(s.min.x <= b.min.x && b.max.x <= s.max.x);
    assert!(s.min.y <= b.min.y && b.max.y <= s.max.y);
    assert!(s.min.z <= b.min.z && b.max.z <= s.max.z);
    let same = AABB::surrounding_box(a, a);
    assert_eq!(same.min, a.min);
    assert_eq!(same.max, a.max);
}

#[test]
fn sphere_round_trip_from_distance() {
    // From five units away, aimed at the center of a unit sphere: the hit
    // is at t = distance - radius, with a unit outward normal.
    let sp = Sphere::new(v(0.0, 0.0, 0.0), S, gray(0.5));
    let r = Ray::new(v(0.0, 0.0, -5.0), v(0.0, 0.0, 1.0), 0);
    let rec = sp.hit(&r, 0, FX_LIM).expect("must hit");
    assert_eq!(rec.t, 4 * S);
    assert_eq!(rec.p, v(0.0, 0.0, -1.0));
    assert_eq!(rec.normal, v(0.0, 0.0, -1.0));
    assert!(rec.front_face);
    let n2 = to_f(rec.normal.x).powi(2) + to_f(rec.normal.y).powi(2) + to_f(rec.normal.z).powi(2);
    assert!((n2 - 1.0).abs() < 1e-7);
}

#[test]
fn sphere_inside_hits_far_root() {
    let sp = Sphere::new(v(0.0, 0.0, 0.0), S, gray(0.5));
    let r = Ray::new(v(0.0, 0.0, 0.0), v(0.0, 0.0, 1.0), 0);
    let rec = sp.hit(&r, 0, FX_LIM).expect("must hit");
    assert_eq!(rec.t, S);
    assert!(!rec.front_face);
}

#[test]
fn sphere_miss_is_none() {
    let sp = Sphere::new(v(0.0, 0.0, 0.0), S, gray(0.5));
    let r = Ray::new(v(0.0, 3.0, -5.0), v(0.0, 0.0, 1.0), 0);
    assert!(sp.hit(&r, 0, FX_LIM).is_none());
}

#[test]
fn moving_sphere_follows_time() {
    let sp = MovingSphere::new(v(0.0, 0.0, 0.0), v(2.0, 0.0, 0.0), 0, S, S, gray(0.5));
    assert_eq!(sp.center(0), v(0.0, 0.0, 0.0));
    assert_eq!(sp.center(S), v(2.0, 0.0, 0.0));
    assert_eq!(sp.center(S / 2), v(1.0, 0.0, 0.0));
    let at_start = Ray::new(v(0.0, 0.0, -5.0), v(0.0, 0.0, 1.0), 0);
    assert!(sp.hit(&at_start, 0, FX_LIM).is_some());
    let at_end = Ray::new(v(0.0, 0.0, -5.0), v(0.0, 0.0, 1.0), S);
    assert!(sp.hit(&at_end, 0, FX_LIM).is_none());
    let at_end_shifted = Ray::new(v(2.0, 0.0, -5.0), v(0.0, 0.0, 1.0), S);
    assert!(sp.hit(&at_end_shifted, 0, FX_LIM).is_some());
}

#[test]
fn rect_hit_and_uv() {
    let rc = XYRect::new(0, 2 * S, 0, 2 * S, fx(3.0), gray(0.5));
    let r = Ray::new(v(0.5, 1.0, 0.0), v(0.0, 0.0, 1.0), 0);
    let rec = rc.hit(&r, 0, FX_LIM).expect("must hit");
    assert_eq!(rec.t, 3 * S);
    assert_eq!(rec.u, S / 4);
    assert_eq!(rec.v, S / 2);
    // Approaching along the outward normal strikes the back face.
    assert!(!rec.front_face);
    assert_eq!(rec.normal, v(0.0, 0.0, -1.0));
    let parallel = Ray::new(v(0.5, 1.0, 0.0), v(1.0, 0.0, 0.0), 0);
    assert!(rc.hit(&parallel, 0, FX_LIM).is_none());
    let outside = Ray::new(v(5.0, 1.0, 0.0), v(0.0, 0.0, 1.0), 0);
    assert!(outside.dir.z == S && rc.hit(&outside, 0, FX_LIM).is_none());
}

#[test]
fn xz_rect_light_sampling() {
    let rc = XZRect::new(0, S, 0, S, fx(2.0), gray(0.5));
    let origin = v(0.5, 0.0, 0.5);
    for _ in 0..32 {
        let d = rc.random(&origin);
        assert!(0 <= d.x + origin.x && d.x + origin.x < S);
        assert_eq!(d.y + origin.y, fx(2.0));
    }
    let o = Object::XZRect(XZRect::new(0, S, 0, S, fx(2.0), gray(0.5)));
    let up = v(0.0, 1.0, 0.0);
    let pv = o.pdf_value(&origin, &up);
    // Solid-angle density of a unit square two units above: d^2/(cos*area) = 4.
    assert!((to_f(pv) - 4.0).abs() < 0.01);
    let down = v(0.0, -1.0, 0.0);
    assert_eq!(o.pdf_value(&origin, &down), 0);
}

#[test]
fn triangle_hit_inside_only() {
    let t = Triangle::new(v(0.0, 0.0, 2.0), v(2.0, 0.0, 2.0), v(0.0, 2.0, 2.0), gray(0.5));
    let inside = Ray::new(v(0.4, 0.4, 0.0), v(0.0, 0.0, 1.0), 0);
    let rec = t.hit(&inside, 0, FX_LIM).expect("must hit");
    assert_eq!(rec.t, 2 * S);
    let outside = Ray::new(v(1.5, 1.5, 0.0), v(0.0, 0.0, 1.0), 0);
    assert!(t.hit(&outside, 0, FX_LIM).is_none());
}

#[test]
fn ring_hit_annulus_only() {
    let rg = Ring::new(fx(2.0), fx(0.5), gray(0.5));
    let on_ring = Ray::new(v(2.0, 3.0, 0.0), v(0.0, -1.0, 0.0), 0);
    let rec = rg.hit(&on_ring, 0, FX_LIM).expect("must hit");
    assert_eq!(rec.t, 3 * S);
    let in_hole = Ray::new(v(0.0, 3.0, 0.0), v(0.0, -1.0, 0.0), 0);
    assert!(rg.hit(&in_hole, 0, FX_LIM).is_none());
    let far_out = Ray::new(v(4.0, 3.0, 0.0), v(0.0, -1.0, 0.0), 0);
    assert!(rg.hit(&far_out, 0, FX_LIM).is_none());
}

#[test]
fn box_of_six_sides() {
    let b = Boxes::new(v(0.0, 0.0, 0.0), v(1.0, 1.0, 1.0), gray(0.5));
    let o = Object::Boxes(b);
    let r = Ray::new(v(0.5, 0.5, -3.0), v(0.0, 0.0, 1.0), 0);
    let rec = o.hit(&r, 0, FX_LIM).expect("must hit");
    assert_eq!(rec.t, 3 * S);
    let miss = Ray::new(v(2.5, 0.5, -3.0), v(0.0, 0.0, 1.0), 0);
    assert!(o.hit(&miss, 0, FX_LIM).is_none());
}

#[test]
fn translate_shifts_hits() {
    let sp = Object::Sphere(Sphere::new(v(0.0, 0.0, 0.0), S, gray(0.5)));
    let tr = Object::Translate(raytracer::object::Translate::new(sp, v(3.0, 0.0, 0.0)));
    let r = Ray::new(v(3.0, 0.0, -5.0), v(0.0, 0.0, 1.0), 0);
    let rec = tr.hit(&r, 0, FX_LIM).expect("must hit");
    assert_eq!(rec.t, 4 * S);
    assert_eq!(rec.p, v(3.0, 0.0, -1.0));
    let old_spot = Ray::new(v(0.0, 0.0, -5.0), v(0.0, 0.0, 1.0), 0);
    assert!(tr.hit(&old_spot, 0, FX_LIM).is_none());
}

#[test]
fn flip_face_inverts_side() {
    let rc = Object::XYRect(XYRect::new(0, 2 * S, 0, 2 * S, fx(3.0), gray(0.5)));
    let fl = Object::FlipFace(raytracer::object::FlipFace::new(rc));
    let r = Ray::new(v(0.5, 1.0, 0.0), v(0.0, 0.0, 1.0), 0);
    let rec = fl.hit(&r, 0, FX_LIM).expect("must hit");
    assert!(rec.front_face);
}

#[test]
fn bvh_matches_linear_scan() {
    // Property check: the hierarchy reports exactly what the brute-force
    // scan reports, across a grid of spheres and many random rays.
    let mut list = HittableList::empty();
    let mut lcg = Lcg(7);
    for i in 0..4 {
        for j in 0..4 {
            let cx = i as f64 - 1.5;
            let cy = j as f64 - 1.5;
            let cz = 2.0 + lcg.unit() * 3.0;
            let rad = 0.2 + lcg.unit() * 0.3;
            list.add(Object::Sphere(Sphere::new(
                v(cx, cy, cz), fx(rad), gray(0.5),
            )));
        }
    }
    let mut scan_list = HittableList::empty();
    let mut lcg2 = Lcg(7);
    for i in 0..4 {
        for j in 0..4 {
            let cx = i as f64 - 1.5;
            let cy = j as f64 - 1.5;
            let cz = 2.0 + lcg2.unit() * 3.0;
            let rad = 0.2 + lcg2.unit() * 0.3;
            scan_list.add(Object::Sphere(Sphere::new(
                v(cx, cy, cz), fx(rad), gray(0.5),
            )));
        }
    }
    let tree = Object::Bvh(BvhNode::new_list(list, 0, S));
    let scan = Object::List(scan_list);
    let mut rays = Lcg(99);
    let mut hits = 0;
    for _ in 0..300 {
        let ox = rays.unit() * 6.0 - 3.0;
        let oy = rays.unit() * 6.0 - 3.0;
        let dx = rays.unit() * 2.0 - 1.0;
        let dy = rays.unit() * 2.0 - 1.0;
        let r = Ray::new(v(ox, oy, -4.0), v(dx * 0.2, dy * 0.2, 1.0), 0);
        let a = tree.hit(&r, 4294967, FX_LIM);
        let b = scan.hit(&r, 4294967, FX_LIM);
        match (a, b) {
            (Some(x), Some(y)) => {
                assert_eq!(x.t, y.t);
                assert_eq!(x.p, y.p);
                assert_eq!(x.normal, y.normal);
                hits += 1;
            }
            (None, None) => {}
            _ => panic!("hierarchy and scan disagree"),
        }
    }
    assert!(hits > 20);
}

#[test]
fn lambertian_pdf_integrates_to_one() {
    // Numerically integrate max(0, cos theta)/pi over the hemisphere.
    let mat = gray(0.5);
    let sp = Sphere::new(v(0.0, 0.0, 0.0), S, mat);
    let up_ray = Ray::new(v(0.0, -5.0, 0.0), v(0.0, 1.0, 0.0), 0);
    let rec = sp.hit(&up_ray, 0, FX_LIM).expect("must hit");
    let n_theta = 64;
    let n_phi = 64;
    let pi = std::f64::consts::PI;
    let mut total = 0.0f64;
    for it in 0..n_theta {
        let theta = (it as f64 + 0.5) / n_theta as f64 * pi;
        for ip in 0..n_phi {
            let phi = (ip as f64 + 0.5) / n_phi as f64 * 2.0 * pi;
            let dir = v(
                theta.sin() * phi.cos(),
                -(theta.cos()),
                theta.sin() * phi.sin(),
            );
            let scattered = Ray::new(rec.p, dir, 0);
            let pdf = rec.mat_ptr.scattering_pdf(&up_ray, &rec, &scattered);
            let dw = theta.sin() * (pi / n_theta as f64) * (2.0 * pi / n_phi as f64);
            total += to_f(pdf) * dw;
        }
    }
    assert!((total - 1.0).abs() < 0.02, "integral was {total}");
}

#[test]
fn schlick_reflectance_bounds_and_normal_incidence() {
    let ir = fx(1.5);
    for k in 0..=100 {
        let cos = (S / 100) * k;
        let r = reflectance(cos, ir);
        assert!(0 <= r && r <= S);
    }
    let at_normal = reflectance(S, ir);
    let r0 = fx_div(S - ir, S + ir);
    let expect = fx_mul(r0, r0);
    assert_eq!(at_normal, expect);
    assert!((to_f(at_normal) - 0.04).abs() < 1e-8);
}

#[test]
fn dielectric_always_scatters_white() {
    let mat = Material::Dielectric(Dielectric::new(fx(1.5)));
    let sp = Sphere::new(v(0.0, 0.0, 0.0), S, mat);
    let r = Ray::new(v(0.0, 0.0, -5.0), v(0.0, 0.0, 1.0), 0);
    let rec = sp.hit(&r, 0, FX_LIM).expect("must hit");
    let srec = rec.mat_ptr.scatter(&r, &rec).expect("glass always scatters");
    assert_eq!(srec.attenuation, Vec3 { x: S, y: S, z: S });
    assert!(srec.specular_ray.is_some());
    assert!(srec.pdf_ptr.is_none());
}

#[test]
fn metal_reflects_about_normal() {
    let mat = Material::Metal(Metal::new(v(0.8, 0.8, 0.8), 0));
    let sp = Sphere::new(v(0.0, 0.0, 0.0), S, mat);
    let r = Ray::new(v(0.0, 0.0, -5.0), v(0.0, 0.0, 1.0), 0);
    let rec = sp.hit(&r, 0, FX_LIM).expect("must hit");
    let srec = rec.mat_ptr.scatter(&r, &rec).expect("head-on reflection exists");
    let sr = srec.specular_ray.expect("specular");
    // Head-on, the mirror direction points straight back.
    assert!(to_f(sr.dir.z) < -0.99);
    assert!(to_f(sr.dir.x).abs() < 1e-4 && to_f(sr.dir.y).abs() < 1e-4);
}

#[test]
fn diffuse_light_emits_on_front_face_only() {
    let mat = Material::DiffuseLight(DiffuseLight::new(v(4.0, 4.0, 4.0)));
    let rc = XZRect::new(0, S, 0, S, fx(2.0), mat);
    let from_above = Ray::new(v(0.5, 4.0, 0.5), v(0.0, -1.0, 0.0), 0);
    let rec = rc.hit(&from_above, 0, FX_LIM).expect("must hit");
    assert!(rec.mat_ptr.scatter(&from_above, &rec).is_none());
    let e = rec.mat_ptr.emitted(&from_above, rec.front_face, rec.u, rec.v, &rec.p);
    assert_eq!(e, v(4.0, 4.0, 4.0));
    // The back face stays dark.
    let from_below = Ray::new(v(0.5, 0.0, 0.5), v(0.0, 1.0, 0.0), 0);
    let rec2 = rc.hit(&from_below, 0, FX_LIM).expect("must hit");
    let e2 = rec2.mat_ptr.emitted(&from_below, rec2.front_face, rec2.u, rec2.v, &rec2.p);
    assert_eq!(e2, v(0.0, 0.0, 0.0));
}

#[test]
fn checker_texture_alternates() {
    let t = Texture::Checker(CheckerTexture::new(v(1.0, 0.0, 0.0), v(0.0, 1.0, 0.0)));
    let a = t.value(0, 0, &v(0.05, 0.05, 0.05));
    let b = t.value(0, 0, &v(0.05 + 0.3142, 0.05, 0.05));
    assert_ne!(a, b);
}

#[test]
fn image_texture_looks_up_pixels() {
    let pixels = vec![(255u8, 0u8, 0u8), (0u8, 255u8, 0u8), (0u8, 0u8, 255u8), (255u8, 255u8, 255u8)];
    let img = Texture::Image(ImageTexture::new(2, 2, pixels));
    let c = img.value(0, 0, &v(0.0, 0.0, 0.0));
    assert!(to_f(c.x) > 0.99 && to_f(c.y) == 0.0);
    let c2 = img.value(S, S, &v(0.0, 0.0, 0.0));
    assert!(to_f(c2.x) > 0.99 && to_f(c2.y) > 0.99 && to_f(c2.z) > 0.99);
    let empty = Texture::Image(ImageTexture::new(0, 0, Vec::new()));
    let cyan = empty.value(0, 0, &v(0.0, 0.0, 0.0));
    assert_eq!(cyan, Vec3 { x: 0, y: S, z: S });
}

#[test]
fn medium_density_limits() {
    // Vanishing density: the inverse density dominates any span, so the
    // medium never interacts.
    let boundary = Object::Sphere(Sphere::new(v(0.0, 0.0, 0.0), S, gray(0.5)));
    let thin = Object::ConstantMedium(ConstantMedium::new(boundary, 4, v(1.0, 1.0, 1.0)));
    let r = Ray::new(v(0.0, 0.0, -5.0), v(0.0, 0.0, 1.0), 0);
    for _ in 0..100 {
        assert!(thin.hit(&r, 4294967, FX_LIM).is_none());
    }
    // Heavy density: almost every ray interacts inside the boundary.
    let boundary2 = Object::Sphere(Sphere::new(v(0.0, 0.0, 0.0), S, gray(0.5)));
    let dense = Object::ConstantMedium(ConstantMedium::new(boundary2, 1000 * S, v(1.0, 1.0, 1.0)));
    let mut interactions = 0;
    for _ in 0..200 {
        if dense.hit(&r, 4294967, FX_LIM).is_some() {
            interactions += 1;
        }
    }
    assert!(interactions > 190, "only {interactions} interactions");
}

#[test]
fn cosine_pdf_density_matches_formula() {
    let p = CosPdf::new(v(0.0, 1.0, 0.0));
    let straight_up = p.value(v(0.0, 1.0, 0.0));
    assert!((to_f(straight_up) - 1.0 / std::f64::consts::PI).abs() < 1e-3);
    let sideways = p.value(v(1.0, 0.0, 0.0));
    assert!(to_f(sideways).abs() < 1e-3);
    let below = p.value(v(0.0, -1.0, 0.0));
    assert_eq!(below, 0);
    for _ in 0..32 {
        let d = p.generate();
        // Every generated direction points into the upper hemisphere.
        assert!(d.y >= -(S / 256));
    }
}

#[test]
fn ray_color_background_and_light() {
    // A scene with one rectangle light and one diffuse sphere below it.
    let mut world_list = HittableList::empty();
    world_list.add(Object::Sphere(Sphere::new(v(0.0, -1.0, 2.0), S, gray(0.73))));
    world_list.add(Object::FlipFace(raytracer::object::FlipFace::new(Object::XZRect(XZRect::new(
        -S, S, fx(1.0), fx(3.0), fx(3.0),
        Material::DiffuseLight(DiffuseLight::new(v(7.0, 7.0, 7.0))),
    )))));
    let world = Object::Bvh(BvhNode::new_list(world_list, 0, S));
    let lights = Object::List({
        let mut l = HittableList::empty();
        l.add(Object::XZRect(XZRect::new(
            -S, S, fx(1.0), fx(3.0), fx(3.0), gray(0.0),
        )));
        l
    });
    let black = Vec3 { x: 0, y: 0, z: 0 };
    // A ray that leaves the scene reports exactly the background.
    let escaping = Ray::new(v(0.0, 0.0, -5.0), v(0.0, -1.0, 0.0), 0);
    let c = ray_color(&escaping, &black, &world, &lights, 8);
    assert_eq!(c, black);
    // Depth zero is black regardless.
    let toward = Ray::new(v(0.0, -1.0, -4.0), v(0.0, 0.0, 1.0), 0);
    assert_eq!(ray_color(&toward, &black, &world, &lights, 0), black);
    // Average radiance off the lit sphere grows toward a positive level as
    // samples accumulate: view the sphere's upper side, which faces the
    // light.
    let lit = Ray::new(v(0.5, 2.0, 2.0), v(-0.25, -1.0, 0.0), 0);
    let mut sum = 0.0f64;
    let n = 400;
    for _ in 0..n {
        let c = ray_color(&lit, &black, &world, &lights, 6);
        sum += to_f(c.x);
    }
    let mean = sum / n as f64;
    assert!(mean > 0.005, "mean radiance was {mean}");
}

#[test]
fn write_color_quantizes_with_gamma() {
    let white = Vec3 { x: S, y: S, z: S };
    assert_eq!(write_color(&white, 1), (255, 255, 255));
    let black = Vec3 { x: 0, y: 0, z: 0 };
    assert_eq!(write_color(&black, 1), (0, 0, 0));
    // A quarter averaged over one sample gamma-corrects to a half.
    let quarter = Vec3 { x: S / 4, y: 0, z: 0 };
    let (r, g, b) = write_color(&quarter, 1);
    assert!((r as f64 - 0.5 * 255.999).abs() < 1.0);
    assert_eq!((g, b), (0, 0));
    // Averaging divides by the sample count first.
    let accumulated = Vec3 { x: 4 * S, y: 0, z: 0 };
    assert_eq!(write_color(&accumulated, 4).0, 255);
}

#[test]
fn random_draws_respect_bounds() {
    for _ in 0..64 {
        // Would fail if the draw handed back its bound unchanged.
        assert!(random_index(5) < 5);
        let x = random_range_fx(fx(1.0), fx(2.0));
        assert!(fx(1.0) <= x && x < fx(2.0));
    }
}

#[test]
fn square_roots_and_logs_are_exact_or_bounded() {
    assert_eq!(isqrt(0), 0);
    assert_eq!(isqrt(144), 12);
    assert_eq!(isqrt(145), 12);
    assert_eq!(isqrt(S * S), S);
    assert_eq!(fx_neg_ln(S), 0);
    // -ln(1/2) = ln 2, within the series' truncation error.
    let l = fx_neg_ln(S / 2);
    assert!((to_f(l) - 0.6931).abs() < 0.02, "got {}", to_f(l));
    assert!(fx_neg_ln(1) > fx_neg_ln(S / 2));
}

#[test]
fn rotate_y_carries_hits() {
    // A quarter turn about the vertical axis: sin = 1, cos = 0 exactly.
    let b = Object::Boxes(Boxes::new(v(0.0, 0.0, 0.0), v(1.0, 1.0, 1.0), gray(0.5)));
    let rot = Object::RotateY(raytracer::object::RotateY::new(b, S, 0));
    // The box's x extent becomes the rotated z extent [-1, 0].
    let r = Ray::new(v(0.5, 0.5, -3.0), v(0.0, 0.0, 1.0), 0);
    let rec = rot.hit(&r, 0, FX_LIM).expect("must hit the rotated box");
    assert_eq!(rec.t, 2 * S);
    // Where the unrotated box stood, nothing remains past its new footprint.
    let old_spot = Ray::new(v(0.5, 0.5, 0.5), v(1.0, 0.0, 0.0), 4294967);
    assert!(rot.hit(&old_spot, 4294967, FX_LIM).is_none());
}

#[test]
fn basis_is_orthonormal_within_tolerance() {
    let p = CosPdf::new(v(0.3, 0.8, -0.5));
    let uvw = p.uvw;
    let vw = uvw.v().dot(&uvw.w());
    assert!(vw.abs() <= 16, "tangent against normal: {vw}");
    let v2 = uvw.v().len_sqr();
    let w2 = uvw.w().len_sqr();
    assert!((to_f(v2) - 1.0).abs() < 3e-4);
    assert!((to_f(w2) - 1.0).abs() < 3e-4);
}

#[test]
fn cosine_draws_are_near_unit() {
    let p = CosPdf::new(v(0.0, 1.0, 0.0));
    for _ in 0..64 {
        let d = p.generate();
        let l2 = d.len_sqr();
        // The frame image of a near-unit local sample stays near unit up to
        // the frame's own rounding.
        assert!((to_f(l2) - 1.0).abs() < 2e-3, "length^2 {}", to_f(l2));
    }
}

#[test]
fn medium_record_carries_phase_function() {
    let boundary = Object::Sphere(Sphere::new(v(0.0, 0.0, 0.0), S, gray(0.5)));
    let dense = Object::ConstantMedium(ConstantMedium::new(boundary, 1000 * S, v(0.9, 0.9, 0.9)));
    let r = Ray::new(v(0.0, 0.0, -5.0), v(0.0, 0.0, 1.0), 0);
    let mut seen = 0;
    for _ in 0..64 {
        if let Some(rec) = dense.hit(&r, 4294967, FX_LIM) {
            seen += 1;
            assert!(rec.front_face);
            assert_eq!(rec.u, 0);
            assert_eq!(rec.v, 0);
            // The span inside the unit sphere is t in [4, 6].
            assert!(4 * S <= rec.t && rec.t <= 6 * S);
            assert!(matches!(rec.mat_ptr, Material::Isotropic(_)));
        }
    }
    assert!(seen > 32);
}
