//! Hit records and the `Hittable` capability: what a primitive reports when
//! a ray strikes it, and the orientation rule that keeps the stored normal
//! opposed to the incoming ray.

use vstd::prelude::*;
use crate::fixed::T_MAX;
use crate::ray::Ray;
use crate::vec3::{dot, in_range, lemma_dot_neg, neg_spec, Vec3};

verus! {

/// The record of one intersection: hit point, oriented normal, ray
/// parameter, and whether the ray struck the front (outside) face.
#[derive(Clone, Copy, PartialEq, Eq, Structural, Debug)]
pub struct HitRecord {
    pub p: Vec3,
    pub normal: Vec3,
    pub t: i64,
    pub front_face: bool,
}

/// The ray strikes the front face iff its direction opposes the geometric
/// outward normal.
pub open spec fn front_face_spec(dir: Vec3, outward: Vec3) -> bool {
    dot(dir, outward) < 0
}

/// The normal a record stores: the outward normal itself on a front-face
/// hit, its negation otherwise, so it always points against the ray.
pub open spec fn oriented_normal_spec(dir: Vec3, outward: Vec3) -> Vec3 {
    if front_face_spec(dir, outward) {
        outward
    } else {
        neg_spec(outward)
    }
}

impl Default for HitRecord {
    /// An all-zero record, for callers to pass into hit tests.
    fn default() -> (r: HitRecord)
        ensures
            r == (HitRecord {
                p: Vec3 { x: 0, y: 0, z: 0 },
                normal: Vec3 { x: 0, y: 0, z: 0 },
                t: 0,
                front_face: false,
            }),
    {
        HitRecord {
            p: Vec3 { x: 0, y: 0, z: 0 },
            normal: Vec3 { x: 0, y: 0, z: 0 },
            t: 0,
            front_face: false,
        }
    }
}

impl HitRecord {
    /// Sets `front_face` and `normal` together from the geometric outward
    /// normal, leaving `p` and `t` as they were. Callers hand in the outward
    /// normal already normalized (here: at scale `SCALE`).
    pub fn set_face_normal(&mut self, r: &Ray, outward_normal: &Vec3)
        requires
            in_range(r.dir, 0x4000_0000_0000_0000),
            in_range(*outward_normal, 0x4000_0000_0000_0000),
        ensures
            final(self).front_face == front_face_spec(r.dir, *outward_normal),
            final(self).normal == oriented_normal_spec(r.dir, *outward_normal),
            final(self).p == old(self).p,
            final(self).t == old(self).t,
    {
        let d: i128 = r.dir.dot_wide(outward_normal);
        self.front_face = d < 0;
        self.normal = if self.front_face {
            *outward_normal
        } else {
            outward_normal.negated()
        };
    }
}

/// The capability a geometric primitive offers: report whether and where a
/// ray segment intersects it, inclusive of both interval endpoints.
pub trait Hittable {
    /// Well-formedness the hit test relies on.
    spec fn hit_wf(&self) -> bool;

    /// Whether the ray hits this primitive within `[t_min, t_max]`.
    spec fn hit_some(&self, r: Ray, t_min: int, t_max: int) -> bool;

    /// The record of the nearest accepted hit within `[t_min, t_max]`.
    spec fn hit_rec(&self, r: Ray, t_min: int, t_max: int) -> HitRecord;

    /// Tests the ray against this primitive over `[t_min, t_max]`; on a hit,
    /// fills every field of `rec` and returns true; on a miss, returns false
    /// without mutating `rec`.
    fn hit(&self, r: &Ray, t_min: i64, t_max: i64, rec: &mut HitRecord) -> (b: bool)
        requires
            self.hit_wf(),
            r.wf(),
            -T_MAX <= t_min <= T_MAX,
            -T_MAX <= t_max <= T_MAX,
        ensures
            b == self.hit_some(*r, t_min as int, t_max as int),
            b ==> *final(rec) == self.hit_rec(*r, t_min as int, t_max as int),
            b ==> t_min <= self.hit_rec(*r, t_min as int, t_max as int).t <= t_max,
            !b ==> *final(rec) == *old(rec),
    ;
}

/// Law: `front_face` is true iff the ray direction and the outward normal
/// have a negative dot product, and whichever way the orientation falls, the
/// stored normal's dot product with the ray direction is never positive.
pub proof fn lemma_oriented_normal_opposes(dir: Vec3, outward: Vec3)
    requires
        in_range(outward, 0x4000_0000_0000_0000),
    ensures
        front_face_spec(dir, outward) <==> dot(dir, outward) < 0,
        dot(dir, oriented_normal_spec(dir, outward)) <= 0,
{
    if !front_face_spec(dir, outward) {
        lemma_dot_neg(dir, outward);
    }
}

} // verus!
