use raytracer::fixed::{isqrt, tdiv_i128, SCALE, T_MAX};
use raytracer::hittable::{HitRecord, Hittable};
use raytracer::render::hit_world;
use raytracer::object::Sphere;
use raytracer::ray::Ray;
use raytracer::vec3::Vec3;

fn v(x: i64, y: i64, z: i64) -> Vec3 {
    Vec3::new(x, y, z)
}

#[test]
fn ray_stores_fields_verbatim() {
    let r = Ray::new(v(1, 2, 3), v(4, 5, 6));
    assert_eq!(r.orig, v(1, 2, 3));
    assert_eq!(r.dir, v(4, 5, 6));
}

#[test]
fn ray_at_zero_is_origin() {
    let r = Ray::new(v(100, -200, 300), v(65536, -65536, 131072));
    assert_eq!(r.at(0), v(100, -200, 300));
}

#[test]
fn ray_at_half_unit() {
    // direction (1, 0, 0); half a unit along it
    let r = Ray::new(v(0, 0, 0), v(65536, 0, 0));
    assert_eq!(r.at(32768), v(32768, 0, 0));
}

#[test]
fn ray_at_negative_parameter() {
    let r = Ray::new(v(65536, 0, 0), v(65536, 0, 0));
    assert_eq!(r.at(-65536), v(0, 0, 0));
}

#[test]
fn isqrt_exact_and_floor() {
    assert_eq!(isqrt(0), 0);
    assert_eq!(isqrt(1), 1);
    assert_eq!(isqrt(10), 3);
    assert_eq!(isqrt(4294967296), 65536);
    assert_eq!(isqrt(4294967295), 65535);
}

#[test]
fn tdiv_truncates_toward_zero() {
    assert_eq!(tdiv_i128(7, 2), 3);
    assert_eq!(tdiv_i128(-7, 2), -3);
    assert_eq!(tdiv_i128(6, 3), 2);
    assert_eq!(tdiv_i128(-6, 3), -2);
}

#[test]
fn sphere_head_on_hit() {
    // sphere at (0, 0, -1) radius 0.5, ray from the origin toward (0, 0, -1)
    let s = Sphere::new(v(0, 0, -65536), 32768);
    let r = Ray::new(v(0, 0, 0), v(0, 0, -65536));
    let mut rec = HitRecord::default();
    let hit = s.hit(&r, 0, T_MAX, &mut rec);
    assert!(hit);
    assert_eq!(rec.t, 32768);
    assert_eq!(rec.p, v(0, 0, -32768));
    assert_eq!(rec.normal, v(0, 0, 65536));
    assert!(rec.front_face);
}

#[test]
fn sphere_offset_parallel_ray_misses() {
    // same sphere, ray toward (1, 0, 0): discriminant is negative
    let s = Sphere::new(v(0, 0, -65536), 32768);
    let r = Ray::new(v(0, 0, 0), v(65536, 0, 0));
    let mut rec = HitRecord::default();
    let hit = s.hit(&r, 0, T_MAX, &mut rec);
    assert!(!hit);
    // a miss leaves the record untouched
    assert_eq!(rec, HitRecord::default());
}

#[test]
fn sphere_hit_from_inside_flips_normal() {
    // ray starting at the sphere's center: it exits through the back face,
    // so front_face is false and the stored normal points back inward
    let s = Sphere::new(v(0, 0, -65536), 32768);
    let r = Ray::new(v(0, 0, -65536), v(0, 0, -65536));
    let mut rec = HitRecord::default();
    let hit = s.hit(&r, 0, T_MAX, &mut rec);
    assert!(hit);
    assert_eq!(rec.t, 32768);
    assert_eq!(rec.p, v(0, 0, -98304));
    assert!(!rec.front_face);
    assert_eq!(rec.normal, v(0, 0, 65536));
}

#[test]
fn sphere_aimed_at_center_hits_at_distance_minus_radius() {
    // unit-direction ray straight at a center 3 units away, radius 1:
    // the hit parameter is the distance to the center minus the radius
    let s = Sphere::new(v(3 * SCALE, 0, 0), SCALE);
    let r = Ray::new(v(0, 0, 0), v(SCALE, 0, 0));
    let mut rec = HitRecord::default();
    let hit = s.hit(&r, 0, T_MAX, &mut rec);
    assert!(hit);
    assert_eq!(rec.t, 2 * SCALE);
    assert_eq!(rec.p, v(2 * SCALE, 0, 0));
    assert_eq!(rec.normal, v(-65536, 0, 0));
    assert!(rec.front_face);
}

#[test]
fn sphere_interval_excludes_near_root() {
    // with t_min above the nearer root, the farther root is accepted
    let s = Sphere::new(v(0, 0, -131072), 32768);
    let r = Ray::new(v(0, 0, 0), v(0, 0, -65536));
    let mut rec = HitRecord::default();
    // roots are at 1.5 and 2.5; ask for [2.0, T_MAX]
    let hit = s.hit(&r, 2 * SCALE, T_MAX, &mut rec);
    assert!(hit);
    assert_eq!(rec.t, 163840);
}

#[test]
fn sphere_interval_can_reject_both_roots() {
    let s = Sphere::new(v(0, 0, -131072), 32768);
    let r = Ray::new(v(0, 0, 0), v(0, 0, -65536));
    let mut rec = HitRecord::default();
    // roots are at 1.5 and 2.5; ask for [0, 1.0]
    let hit = s.hit(&r, 0, SCALE, &mut rec);
    assert!(!hit);
    assert_eq!(rec, HitRecord::default());
}

#[test]
fn set_face_normal_orients_against_ray() {
    let r = Ray::new(v(0, 0, 0), v(0, 0, -65536));
    let mut rec = HitRecord::default();
    rec.set_face_normal(&r, &v(0, 0, 65536));
    assert!(rec.front_face);
    assert_eq!(rec.normal, v(0, 0, 65536));
    rec.set_face_normal(&r, &v(0, 0, -65536));
    assert!(!rec.front_face);
    assert_eq!(rec.normal, v(0, 0, 65536));
}

#[test]
fn hit_world_keeps_nearest_hit() {
    let near = Sphere::new(v(0, 0, -131072), 32768);
    let far = Sphere::new(v(0, 0, -262144), 32768);
    let r = Ray::new(v(0, 0, 0), v(0, 0, -65536));
    // whatever the order, the nearer sphere's parameter wins
    let mut rec = HitRecord::default();
    assert!(hit_world(&vec![far, near], &r, 0, T_MAX, &mut rec));
    assert_eq!(rec.t, 98304);
    let mut rec2 = HitRecord::default();
    assert!(hit_world(&vec![near, far], &r, 0, T_MAX, &mut rec2));
    assert_eq!(rec, rec2);
}

#[test]
fn hit_world_miss_leaves_record_untouched() {
    let world = vec![Sphere::new(v(0, 0, -131072), 32768)];
    let r = Ray::new(v(0, 0, 0), v(0, 65536, 0));
    let mut rec = HitRecord::default();
    assert!(!hit_world(&world, &r, 0, T_MAX, &mut rec));
    assert_eq!(rec, HitRecord::default());
}

#[test]
fn hit_point_lies_on_sphere_surface() {
    // the accepted root satisfies the sphere equation exactly here:
    // |p - center|^2 == radius^2 at scale SCALE^2
    let s = Sphere::new(v(0, 0, -131072), 32768);
    let r = Ray::new(v(0, 0, 0), v(0, 0, -65536));
    let mut rec = HitRecord::default();
    assert!(s.hit(&r, 0, T_MAX, &mut rec));
    let dx = rec.p.x - s.center.x;
    let dy = rec.p.y - s.center.y;
    let dz = rec.p.z - s.center.z;
    let d2 = (dx as i128) * (dx as i128) + (dy as i128) * (dy as i128)
        + (dz as i128) * (dz as i128);
    assert_eq!(d2, (s.radius as i128) * (s.radius as i128));
}
