use ray_tracer::geo::{in_front, Circle, InfPlane, Rectangle, Sphere, TriSample};
use ray_tracer::material::{Color, Refraction, Texture};
use ray_tracer::material::{INTO_GLASS_BITS, OUT_OF_GLASS_BITS, R0_BITS};
use ray_tracer::scalar::Scalar;
use ray_tracer::vec::{Vec2, Vec3};

type V = [f32; 3];

fn s(x: f32) -> Scalar {
    Scalar::from_bits(x.to_bits())
}

fn f(x: Scalar) -> f32 {
    f32::from_bits(x.to_bits())
}

fn v3(a: V) -> Vec3 {
    Vec3(s(a[0]), s(a[1]), s(a[2]))
}

fn sub(a: V, b: V) -> V {
    [a[0] - b[0], a[1] - b[1], a[2] - b[2]]
}

fn add(a: V, b: V) -> V {
    [a[0] + b[0], a[1] + b[1], a[2] + b[2]]
}

fn scale(a: V, k: f32) -> V {
    [a[0] * k, a[1] * k, a[2] * k]
}

fn dot(a: V, b: V) -> f32 {
    a[0] * b[0] + a[1] * b[1] + a[2] * b[2]
}

fn cross(a: V, b: V) -> V {
    [a[1] * b[2] - a[2] * b[1], a[2] * b[0] - a[0] * b[2], a[0] * b[1] - a[1] * b[0]]
}

fn unit(a: V) -> V {
    scale(a, 1.0 / dot(a, a).sqrt())
}

fn sphere_hit(c: V, r: f32, o: V, d: V) -> Option<(f32, V)> {
    let oc = sub(c, o);
    let b = dot(oc, d);
    let det = b * b - dot(oc, oc) + r * r;
    let root = det.sqrt();
    Sphere::hit(s(det), s(b - root), s(b + root)).map(|t| {
        let t = f(t);
        (t, unit(sub(add(o, scale(d, t)), c)))
    })
}

fn plane_numbers(p: V, n: V, o: V, d: V) -> (f32, f32) {
    let dot_d_n = dot(d, n);
    (dot_d_n, dot(sub(p, o), n) / dot_d_n)
}

#[test]
fn sphere_ahead_is_hit_at_its_near_side() {
    let (t, n) = sphere_hit([0.0, 0.0, 5.0], 1.0, [0.0, 0.0, 0.0], [0.0, 0.0, 1.0]).unwrap();
    assert_eq!(t, 4.0);
    assert_eq!(n, [0.0, 0.0, -1.0]);
}

#[test]
fn sphere_around_the_origin_is_hit_at_its_far_side() {
    let (t, n) = sphere_hit([0.0, 0.0, 0.0], 2.0, [0.0, 0.0, 0.0], [0.0, 0.0, 1.0]).unwrap();
    assert_eq!(t, 2.0);
    assert_eq!(n, [0.0, 0.0, 1.0]);
}

#[test]
fn sphere_behind_or_aside_is_missed() {
    assert!(sphere_hit([0.0, 0.0, -5.0], 1.0, [0.0, 0.0, 0.0], [0.0, 0.0, 1.0]).is_none());
    assert!(sphere_hit([3.0, 0.0, 5.0], 1.0, [0.0, 0.0, 0.0], [0.0, 0.0, 1.0]).is_none());
}

#[test]
fn sphere_roots_are_picked_in_order() {
    assert_eq!(Sphere::hit(s(1.0), s(4.0), s(6.0)), Some(s(4.0)));
    assert_eq!(Sphere::hit(s(1.0), s(-1.0), s(6.0)), Some(s(6.0)));
    assert_eq!(Sphere::hit(s(1.0), s(-6.0), s(-4.0)), None);
    assert_eq!(Sphere::hit(s(-1.0), s(4.0), s(6.0)), None);
    assert_eq!(Sphere::hit(s(0.0), s(4.0), s(4.0)), Some(s(4.0)));
    // a root on the tolerance itself is no hit
    assert_eq!(Sphere::hit(s(1.0), s(1e-3), s(6.0)), Some(s(6.0)));
    assert_eq!(Sphere::hit(s(1.0), s(0.0), s(1e-3)), None);
    assert_eq!(Sphere::hit(s(f32::NAN), s(f32::NAN), s(f32::NAN)), None);
}

#[test]
fn hits_lie_in_front() {
    assert!(in_front(s(1.0)));
    assert!(in_front(s(0.0010001)));
    assert!(!in_front(s(1e-3)));
    assert!(!in_front(s(0.0)));
    assert!(!in_front(s(-1.0)));
    assert!(!in_front(s(f32::NAN)));
}

#[test]
fn plane_is_hit_head_on() {
    let (c, t) = plane_numbers([0.0, 0.0, 3.0], [0.0, 0.0, 1.0], [0.0, 0.0, 0.0], [0.0, 0.0, 1.0]);
    assert_eq!(InfPlane::hit(s(c), s(t)), Some(s(3.0)));
    // from the other side just as well
    let (c, t) = plane_numbers([0.0, 0.0, 3.0], [0.0, 0.0, -1.0], [0.0, 0.0, 0.0], [0.0, 0.0, 1.0]);
    assert_eq!(InfPlane::hit(s(c), s(t)), Some(s(3.0)));
}

#[test]
fn plane_is_missed_along_and_behind() {
    let (c, t) = plane_numbers([0.0, 0.0, 3.0], [0.0, 0.0, 1.0], [0.0, 0.0, 0.0], [1.0, 0.0, 0.0]);
    assert_eq!(InfPlane::hit(s(c), s(t)), None);
    let (c, t) = plane_numbers([0.0, 0.0, -3.0], [0.0, 0.0, 1.0], [0.0, 0.0, 0.0], [0.0, 0.0, 1.0]);
    assert_eq!(InfPlane::hit(s(c), s(t)), None);
    assert_eq!(InfPlane::hit(s(0.0009), s(5.0)), None);
    assert_eq!(InfPlane::hit(s(-0.0009), s(5.0)), None);
    assert_eq!(InfPlane::hit(s(1e-3), s(5.0)), Some(s(5.0)));
    assert_eq!(InfPlane::hit(s(1.0), s(1e-3)), None);
    assert_eq!(InfPlane::hit(s(1.0), s(f32::NAN)), None);
}

#[test]
fn disc_is_hit_inside_its_radius() {
    let r2 = 1.75f32 * 1.75;
    assert_eq!(Circle::hit(s(1.0), s(2.0), s(3.0), s(r2)), Some(s(2.0)));
    assert_eq!(Circle::hit(s(1.0), s(2.0), s(r2), s(r2)), None);
    assert_eq!(Circle::hit(s(1.0), s(2.0), s(3.5), s(r2)), None);
    assert_eq!(Circle::hit(s(0.0), s(2.0), s(3.0), s(r2)), None);
    assert_eq!(Circle::hit(s(1.0), s(-2.0), s(3.0), s(r2)), None);
}

#[test]
fn rectangle_is_hit_inside_its_sides() {
    assert_eq!(
        Rectangle::hit(s(1.0), s(2.0), s(0.5), s(0.25)),
        Some((s(2.0), Vec2(s(0.5), s(0.25))))
    );
    assert_eq!(Rectangle::hit(s(1.0), s(2.0), s(1e-3), s(0.25)), None);
    assert_eq!(Rectangle::hit(s(1.0), s(2.0), s(0.5), s(0.9995)), None);
    assert_eq!(Rectangle::hit(s(1.0), s(2.0), s(0.5), s(1.0 - 1e-3)), None);
    assert_eq!(Rectangle::hit(s(1.0), s(2.0), s(-0.5), s(0.25)), None);
    assert_eq!(Rectangle::hit(s(0.0), s(2.0), s(0.5), s(0.25)), None);
    assert_eq!(Rectangle::hit(s(1.0), s(0.0), s(0.5), s(0.25)), None);
}

fn triangle(p1: V, p2: V, p3: V, o: V, d: V) -> TriSample {
    let (e1, e2) = (sub(p2, p1), sub(p3, p1));
    let p = cross(d, e2);
    let det = dot(e1, p);
    let inv = 1.0 / det;
    let t = sub(o, p1);
    let u = dot(t, p) * inv;
    let q = cross(t, e1);
    let v = dot(d, q) * inv;
    TriSample { det: s(det), u: s(u), v: s(v), sum: s(u + v), t: s(dot(e2, q) * inv) }
}

#[test]
fn triangle_is_hit_inside() {
    let (p1, p2, p3) = ([0.0, 0.0, 2.0], [1.0, 0.0, 2.0], [0.0, 1.0, 2.0]);
    let inside = triangle(p1, p2, p3, [0.25, 0.25, 0.0], [0.0, 0.0, 1.0]);
    assert!(inside.accepts());
    assert_eq!(inside.t, s(2.0));
    assert_eq!(inside.u, s(0.25));
    assert_eq!(inside.v, s(0.25));
    assert!(!triangle(p1, p2, p3, [0.75, 0.75, 0.0], [0.0, 0.0, 1.0]).accepts());
    assert!(!triangle(p1, p2, p3, [-0.25, 0.25, 0.0], [0.0, 0.0, 1.0]).accepts());
    assert!(!triangle(p1, p2, p3, [0.25, -0.25, 0.0], [0.0, 0.0, 1.0]).accepts());
    assert!(!triangle(p1, p2, p3, [0.25, 0.25, 4.0], [0.0, 0.0, 1.0]).accepts());
    assert!(!triangle(p1, p2, p3, [0.25, 0.25, 0.0], [1.0, 0.0, 0.0]).accepts());
}

#[test]
fn triangle_rule_by_the_numbers() {
    let good = TriSample { det: s(1.0), u: s(0.25), v: s(0.5), sum: s(0.75), t: s(2.0) };
    assert!(good.accepts());
    assert!(TriSample { det: s(-1.0), ..good }.accepts());
    assert!(!TriSample { det: s(0.0005), ..good }.accepts());
    assert!(!TriSample { det: s(-0.0005), ..good }.accepts());
    assert!(!TriSample { u: s(-0.1), ..good }.accepts());
    assert!(!TriSample { u: s(1.1), ..good }.accepts());
    assert!(!TriSample { v: s(-0.1), ..good }.accepts());
    assert!(!TriSample { sum: s(1.1), ..good }.accepts());
    assert!(!TriSample { t: s(1e-3), ..good }.accepts());
    assert!(!TriSample { t: s(f32::NAN), ..good }.accepts());
    assert!(TriSample { u: s(0.0), v: s(1.0), sum: s(1.0), ..good }.accepts());
}

#[test]
fn glass_constants_are_the_encodings_they_name() {
    assert_eq!(INTO_GLASS_BITS, (1.5f32 / 1.0f32).to_bits());
    assert_eq!(OUT_OF_GLASS_BITS, (1.0f32 / 1.5f32).to_bits());
    let (na, ng) = (1.0f32, 1.5f32);
    assert_eq!(R0_BITS, ((na - ng) * (na - ng) / ((na + ng) * (na + ng))).to_bits());
}

#[test]
fn fresnel_reflectance_at_normal_incidence() {
    // a ray straight against the normal: the cosine is -1, the sine 0
    let (cos_theta, sin_theta) = (-1.0f32, 0.0f32);
    let r = Texture::refract(s(cos_theta), s(sin_theta));
    assert_eq!(r, Refraction::Entering { ratio: s(1.5) });
    let r0 = f32::from_bits(R0_BITS);
    let reflectance = r0 + (1.0 - r0) * (1.0 - (-cos_theta)).powi(5);
    assert_eq!(reflectance, r0);
    assert!((reflectance - 0.04).abs() < 1e-6);
}

#[test]
fn refraction_cases() {
    assert_eq!(Texture::refract(s(-0.5), s(0.866)), Refraction::Entering { ratio: s(1.5) });
    assert_eq!(Texture::refract(s(0.9), s(0.436)), Refraction::Leaving { ratio: s(1.0 / 1.5) });
    assert_eq!(Texture::refract(s(0.5), s(0.866)), Refraction::TotalReflection);
    assert_eq!(Texture::refract(s(0.7), s(1.0 / 1.5)), Refraction::TotalReflection);
    assert_eq!(Texture::refract(s(0.0), s(1.0)), Refraction::TotalReflection);
    // entering never reflects totally, however flat
    assert_eq!(Texture::refract(s(-0.01), s(0.99995)), Refraction::Entering { ratio: s(1.5) });
}

#[test]
fn mirror_reflection_of_a_diagonal_ray() {
    let k = 1.0 / 2.0f32.sqrt();
    let d = [k, -k, 0.0];
    let n = [0.0, 1.0, 0.0];
    let (c, t) = plane_numbers([0.0, 0.0, 0.0], n, [0.0, 1.0, 0.0], d);
    assert!(InfPlane::hit(s(c), s(t)).is_some());
    let out = sub(d, scale(n, 2.0 * dot(d, n)));
    assert!((out[0] - k).abs() < 1e-6);
    assert!((out[1] - k).abs() < 1e-6);
    assert_eq!(out[2], 0.0);
}

#[test]
fn solid_colour_is_the_same_everywhere() {
    let c = Color::RGB(v3([0.75, 0.25, 0.25]));
    assert_eq!(c.to_vec3(0, 0), v3([0.75, 0.25, 0.25]));
    assert_eq!(c.to_vec3(u32::MAX, 17), v3([0.75, 0.25, 0.25]));
}

#[test]
fn picture_is_looked_up_by_row_and_column() {
    let texel = |i: u32| v3([i as f32, 0.0, 0.0]);
    let c = Color::Image { data: (0..6).map(texel).collect(), w: 3, h: 2 };
    assert_eq!(c.to_vec3(0, 0), texel(0));
    assert_eq!(c.to_vec3(2, 0), texel(2));
    assert_eq!(c.to_vec3(0, 1), texel(3));
    assert_eq!(c.to_vec3(2, 1), texel(5));
    // the picture repeats
    assert_eq!(c.to_vec3(3, 2), texel(0));
    assert_eq!(c.to_vec3(4, 3), texel(4));
    assert_eq!(c.to_vec3(u32::MAX, u32::MAX), texel(3 * (u32::MAX % 2) + u32::MAX % 3));
    // a texture coordinate scaled and cut as the renderer does
    let (u, v) = (0.5f32, 0.75f32);
    assert_eq!(c.to_vec3((u * 3.0) as u32, (v * 2.0) as u32), texel(4));
}
