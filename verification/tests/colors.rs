use raytracer::fixed::{SCALE, T_MAX};
use raytracer::object::Sphere;
use raytracer::ray::Ray;
use raytracer::render::{add_color, background, color_intensity, hit_sphere, ray_color, Color};
use raytracer::vec3::Vec3;

fn v(x: i64, y: i64, z: i64) -> Vec3 {
    Vec3::new(x, y, z)
}

fn rgba(r: u8, g: u8, b: u8, a: u8) -> Color {
    Color { r, g, b, a }
}

#[test]
fn color_intensity_halves_channels() {
    let c = rgba(100, 200, 50, 7);
    // intensity 0.5; alpha is forced to full opacity
    assert_eq!(color_intensity(&c, 32768), rgba(50, 100, 25, 255));
}

#[test]
fn color_intensity_full_is_identity_on_channels() {
    let c = rgba(12, 34, 56, 255);
    assert_eq!(color_intensity(&c, SCALE), rgba(12, 34, 56, 255));
}

#[test]
fn color_intensity_clamps_high_and_low() {
    let c = rgba(100, 200, 50, 255);
    // intensity 2.0 saturates at 255; a negative intensity clamps to 0
    assert_eq!(color_intensity(&c, 2 * SCALE), rgba(200, 255, 100, 255));
    assert_eq!(color_intensity(&c, -SCALE), rgba(0, 0, 0, 255));
}

#[test]
fn add_color_clamps_sum() {
    let c1 = rgba(200, 200, 10, 0);
    let c2 = rgba(100, 10, 20, 0);
    assert_eq!(add_color(&c1, &c2), rgba(255, 210, 30, 255));
}

#[test]
fn background_sky_endpoint() {
    // direction normalized to y == +1 yields the sky endpoint color
    assert_eq!(background(&v(0, 65536, 0)), rgba(127, 178, 255, 255));
    assert_eq!(background(&v(0, 3 * SCALE, 0)), rgba(127, 178, 255, 255));
}

#[test]
fn background_horizon_endpoint() {
    // direction normalized to y == -1 yields the horizon endpoint color
    assert_eq!(background(&v(0, -65536, 0)), rgba(255, 255, 255, 255));
}

#[test]
fn background_level_ray_blends_halfway() {
    // a horizontal direction sits halfway up the gradient: each endpoint
    // contributes its channels scaled by 0.5, truncated, then added
    assert_eq!(background(&v(0, 0, -65536)), rgba(190, 216, 254, 255));
}

#[test]
fn ray_color_miss_is_pure_background() {
    // a ray that misses every primitive resolves to exactly the background
    let world: Vec<Sphere> = vec![Sphere::new(v(0, 0, -65536), 32768)];
    let r = Ray::new(v(0, 0, 0), v(0, 65536, 0));
    assert_eq!(ray_color(&r, &world), background(&v(0, 65536, 0)));
    let empty: Vec<Sphere> = Vec::new();
    let level = Ray::new(v(0, 0, 0), v(0, 0, -65536));
    assert_eq!(ray_color(&level, &empty), rgba(190, 216, 254, 255));
}

#[test]
fn ray_color_hit_shades_by_normal() {
    // head-on hit: normal (0, 0, 1); the inverted mapping sends a zero
    // component to 128 and a full component to 0
    let world: Vec<Sphere> = vec![Sphere::new(v(0, 0, -65536), 32768)];
    let r = Ray::new(v(0, 0, 0), v(0, 0, -65536));
    assert_eq!(ray_color(&r, &world), rgba(128, 128, 0, 255));
}

#[test]
fn ray_color_keeps_nearest_of_two_spheres() {
    let near = Sphere::new(v(0, 0, -131072), 32768);
    let far = Sphere::new(v(0, 0, -262144), 32768);
    let r = Ray::new(v(0, 0, 0), v(0, 0, -65536));
    let c_near_first = ray_color(&r, &vec![near, far]);
    let c_far_first = ray_color(&r, &vec![far, near]);
    // both orders resolve to the nearer sphere's shading
    assert_eq!(c_near_first, c_far_first);
    assert_eq!(c_near_first, ray_color(&r, &vec![near]));
}

#[test]
fn hit_sphere_head_on_root() {
    // full-b discriminant form: same nearer root as the half-b form here
    let center = v(0, 0, -65536);
    let r = Ray::new(v(0, 0, 0), v(0, 0, -65536));
    assert_eq!(hit_sphere(&center, 32768, &r), 32768);
}

#[test]
fn hit_sphere_miss_returns_minus_one() {
    let center = v(0, 0, -65536);
    let r = Ray::new(v(0, 0, 0), v(65536, 0, 0));
    assert_eq!(hit_sphere(&center, 32768, &r), -(SCALE as i128));
}

#[test]
fn hit_sphere_reports_negative_root_behind_origin() {
    // sphere behind the ray origin: the nearer root is negative, and the
    // full-b form reports it rather than rejecting it
    let center = v(0, 0, 131072);
    let r = Ray::new(v(0, 0, 0), v(0, 0, -65536));
    assert_eq!(hit_sphere(&center, 32768, &r), -163840);
}

#[test]
fn scene_interval_is_bounded_by_t_max() {
    // T_MAX stands in for +infinity in the ray-color interval
    assert!(T_MAX > 0);
    let world: Vec<Sphere> = vec![Sphere::new(v(0, 0, -65536), 32768)];
    let r = Ray::new(v(0, 0, 0), v(0, 0, -65536));
    // the head-on hit parameter is far below the interval's upper end
    assert_eq!(ray_color(&r, &world), rgba(128, 128, 0, 255));
}
