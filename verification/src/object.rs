//! Spheres and their ray intersection: the half-b quadratic with
//! nearest-root selection over a bounded parameter interval.

use vstd::prelude::*;
use crate::fixed::{lemma_mul_abs_bound, lemma_sqrt_exists, lemma_square_nonneg,
    lemma_tdiv_multiples_vanish, lemma_tdiv_ordered, lemma_tdiv_small, lemma_sqrt_perfect,
    isqrt, mul_wide, sqrt_floor, tdiv, tdiv_i128, COORD_MAX, SCALE};
use crate::hittable::{front_face_spec, oriented_normal_spec, HitRecord, Hittable};
use crate::ray::Ray;
use crate::vec3::{dot, in_range, lemma_dot_bound, lemma_dot_self_nonneg, sub_spec, Vec3};

verus! {

/// A sphere: center and positive radius, fixed-point at `SCALE`.
#[derive(Clone, Copy, PartialEq, Eq, Structural, Debug)]
pub struct Sphere {
    pub center: Vec3,
    pub radius: i64,
}

impl Sphere {
    /// Geometry the hit test accepts: a center within `COORD_MAX` and a
    /// positive radius no larger than `COORD_MAX`.
    pub open spec fn wf(self) -> bool {
        &&& in_range(self.center, COORD_MAX as int)
        &&& 0 < self.radius <= COORD_MAX
    }

    /// Stores center and radius verbatim.
    pub fn new(center: Vec3, radius: i64) -> (s: Sphere)
        ensures
            s.center == center,
            s.radius == radius,
    {
        Sphere { center, radius }
    }

    /// The vector from the sphere's center to the ray's origin.
    pub open spec fn oc(self, r: Ray) -> Vec3 {
        sub_spec(r.orig, self.center)
    }

    /// Leading coefficient of the hit quadratic: the squared magnitude of
    /// the ray direction (scale SCALE^2).
    pub open spec fn qa(self, r: Ray) -> int {
        dot(r.dir, r.dir)
    }

    /// Half the linear coefficient of the hit quadratic (scale SCALE^2).
    pub open spec fn q_half_b(self, r: Ray) -> int {
        dot(self.oc(r), r.dir)
    }

    /// Constant coefficient of the hit quadratic (scale SCALE^2).
    pub open spec fn qc(self, r: Ray) -> int {
        dot(self.oc(r), self.oc(r)) - self.radius * self.radius
    }

    /// The discriminant of the hit quadratic (scale SCALE^4), exact:
    /// negative exactly when the ray's line misses the sphere.
    pub open spec fn disc(self, r: Ray) -> int {
        self.q_half_b(r) * self.q_half_b(r) - self.qa(r) * self.qc(r)
    }

    /// The nearer candidate root of the quadratic (ray parameter, scale
    /// SCALE).
    pub open spec fn root1(self, r: Ray) -> int {
        tdiv((-self.q_half_b(r) - sqrt_floor(self.disc(r))) * (SCALE as int), self.qa(r))
    }

    /// The farther candidate root of the quadratic.
    pub open spec fn root2(self, r: Ray) -> int {
        tdiv((-self.q_half_b(r) + sqrt_floor(self.disc(r))) * (SCALE as int), self.qa(r))
    }

    /// The ray parameter of the nearest intersection within `[t_min, t_max]`
    /// (both bounds accepted), if any: the nearer root when it lies in the
    /// interval, else the farther root when it does, else nothing.
    pub open spec fn hit_t(self, r: Ray, t_min: int, t_max: int) -> Option<int> {
        if self.disc(r) < 0 {
            None
        } else if t_min <= self.root1(r) <= t_max {
            Some(self.root1(r))
        } else if t_min <= self.root2(r) <= t_max {
            Some(self.root2(r))
        } else {
            None
        }
    }

    /// The geometric outward normal at a surface point: (p - center) divided
    /// by the radius, so a point on the sphere yields a unit (scale SCALE)
    /// vector.
    pub open spec fn outward_normal_spec(self, p: Vec3) -> Vec3 {
        Vec3 {
            x: tdiv((p.x - self.center.x) * (SCALE as int), self.radius as int) as i64,
            y: tdiv((p.y - self.center.y) * (SCALE as int), self.radius as int) as i64,
            z: tdiv((p.z - self.center.z) * (SCALE as int), self.radius as int) as i64,
        }
    }

    /// The full record of a hit at parameter `t`: hit point, oriented
    /// normal, and front-face flag.
    pub open spec fn hit_record_spec(self, r: Ray, t: int) -> HitRecord {
        let p = r.at_spec(t);
        let outward = self.outward_normal_spec(p);
        HitRecord {
            p: p,
            normal: oriented_normal_spec(r.dir, outward),
            t: t as i64,
            front_face: front_face_spec(r.dir, outward),
        }
    }
}

impl Hittable for Sphere {
    open spec fn hit_wf(&self) -> bool {
        self.wf()
    }

    open spec fn hit_some(&self, r: Ray, t_min: int, t_max: int) -> bool {
        match self.hit_t(r, t_min, t_max) {
            Some(_) => true,
            None => false,
        }
    }

    open spec fn hit_rec(&self, r: Ray, t_min: int, t_max: int) -> HitRecord {
        match self.hit_t(r, t_min, t_max) {
            Some(t) => self.hit_record_spec(r, t),
            None => arbitrary(),
        }
    }

    fn hit(&self, r: &Ray, t_min: i64, t_max: i64, rec: &mut HitRecord) -> (b: bool) {
        let oc: Vec3 = r.orig.minus(&self.center);
        let a2: i128 = r.dir.dot_wide(&r.dir);
        let half_b: i128 = oc.dot_wide(&r.dir);
        let rr: i128 = mul_wide(self.radius, self.radius);
        let oc2: i128 = oc.dot_wide(&oc);
        proof {
            lemma_dot_self_nonneg(r.dir);
            lemma_dot_bound(r.dir, r.dir, 0x100_0000, 0x100_0000);
            lemma_dot_bound(oc, r.dir, 0x200_0000, 0x100_0000);
            lemma_dot_bound(oc, oc, 0x200_0000, 0x200_0000);
            lemma_mul_abs_bound(self.radius as int, self.radius as int, 0x100_0000, 0x100_0000);
            lemma_mul_abs_bound(half_b as int, half_b as int, 0x8_0000_0000_0000, 0x8_0000_0000_0000);
        }
        let c2: i128 = oc2 - rr;
        proof {
            lemma_mul_abs_bound(a2 as int, c2 as int, 0x4_0000_0000_0000, 0x20_0000_0000_0000);
        }
        let hb2: i128 = half_b * half_b;
        let ac: i128 = a2 * c2;
        let disc: i128 = hb2 - ac;
        if disc < 0 {
            return false;
        }
        let sd: u128 = isqrt(disc as u128);
        proof {
            assert(sd as int <= 0x10_0000_0000_0000) by (nonlinear_arith)
                requires
                    0 <= sd as int,
                    (sd as int) * (sd as int) < 0x100000000000000000000000000,
            ;
        }
        let sqrtd: i128 = sd as i128;
        let num1: i128 = -half_b - sqrtd;
        proof {
            lemma_mul_abs_bound(num1 as int, SCALE as int, 0x40_0000_0000_0000, 0x1_0000);
        }
        let root1: i128 = tdiv_i128(num1 * (SCALE as i128), a2);
        let root: i128;
        if t_min as i128 <= root1 && root1 <= t_max as i128 {
            root = root1;
        } else {
            let num2: i128 = -half_b + sqrtd;
            proof {
                lemma_mul_abs_bound(num2 as int, SCALE as int, 0x40_0000_0000_0000, 0x1_0000);
            }
            let root2: i128 = tdiv_i128(num2 * (SCALE as i128), a2);
            if t_min as i128 <= root2 && root2 <= t_max as i128 {
                root = root2;
            } else {
                return false;
            }
        }
        let t: i64 = root as i64;
        rec.t = t;
        rec.p = r.at(t);
        let pc: Vec3 = rec.p.minus(&self.center);
        let wx: i128 = mul_wide(pc.x, SCALE);
        let wy: i128 = mul_wide(pc.y, SCALE);
        let wz: i128 = mul_wide(pc.z, SCALE);
        proof {
            lemma_mul_abs_bound(pc.x as int, SCALE as int, 0x2000_0000_0000, 0x1_0000);
            lemma_mul_abs_bound(pc.y as int, SCALE as int, 0x2000_0000_0000, 0x1_0000);
            lemma_mul_abs_bound(pc.z as int, SCALE as int, 0x2000_0000_0000, 0x1_0000);
            lemma_tdiv_small(wx as int, self.radius as int);
            lemma_tdiv_small(wy as int, self.radius as int);
            lemma_tdiv_small(wz as int, self.radius as int);
        }
        let nx: i128 = tdiv_i128(wx, self.radius as i128);
        let ny: i128 = tdiv_i128(wy, self.radius as i128);
        let nz: i128 = tdiv_i128(wz, self.radius as i128);
        let outward: Vec3 = Vec3 { x: nx as i64, y: ny as i64, z: nz as i64 };
        rec.set_face_normal(r, &outward);
        true
    }
}

/// Law: a ray whose discriminant against a sphere is negative never hits it,
/// whatever the interval; by `Hittable::hit`'s contract the test then
/// returns false and leaves the record untouched.
pub proof fn lemma_negative_discriminant_misses(s: Sphere, r: Ray, t_min: int, t_max: int)
    requires
        s.disc(r) < 0,
    ensures
        !s.hit_some(r, t_min, t_max),
{
}

/// Law: an accepted hit parameter is the smallest candidate root that lies
/// within `[t_min, t_max]`: the candidates are ordered, the nearer one wins
/// whenever it is in range, and the accepted parameter itself is in range.
pub proof fn lemma_hit_is_nearest_root(s: Sphere, r: Ray, t_min: int, t_max: int, t: int)
    requires
        r.wf(),
        s.hit_t(r, t_min, t_max) == Some(t),
    ensures
        t == s.root1(r) || t == s.root2(r),
        t_min <= t <= t_max,
        s.root1(r) <= s.root2(r),
        t_min <= s.root1(r) <= t_max ==> t == s.root1(r),
{
    lemma_dot_self_nonneg(r.dir);
    lemma_sqrt_exists(s.disc(r));
    let sq = sqrt_floor(s.disc(r));
    let hb = s.q_half_b(r);
    let a = s.qa(r);
    assert((-hb - sq) * (SCALE as int) <= (-hb + sq) * (SCALE as int)) by (nonlinear_arith)
        requires
            0 <= sq,
    ;
    lemma_tdiv_ordered((-hb - sq) * (SCALE as int), (-hb + sq) * (SCALE as int), a);
}

/// Law: a unit-direction ray aimed straight at a sphere's center from
/// outside hits at parameter `d - radius`, where `d` is the distance to the
/// center; aim and lengths are stated exactly through the dot products.
pub proof fn lemma_aimed_at_center_hits(s: Sphere, r: Ray, d: int, t_min: int, t_max: int)
    requires
        s.wf(),
        r.wf(),
        dot(r.dir, r.dir) == (SCALE as int) * (SCALE as int),
        dot(s.oc(r), s.oc(r)) == d * d,
        dot(s.oc(r), r.dir) == -(d * (SCALE as int)),
        s.radius < d,
        t_min <= d - s.radius <= t_max,
    ensures
        s.hit_t(r, t_min, t_max) == Some(d - s.radius),
{
    let sc = SCALE as int;
    let rad = s.radius as int;
    let hb = s.q_half_b(r);
    let a = s.qa(r);
    let c = s.qc(r);
    assert(hb * hb - a * c == (sc * rad) * (sc * rad)) by (nonlinear_arith)
        requires
            hb == -(d * sc),
            a == sc * sc,
            c == d * d - rad * rad,
    ;
    lemma_square_nonneg(sc * rad);
    assert(0 <= sc * rad) by (nonlinear_arith)
        requires
            0 < sc,
            0 < rad,
    ;
    lemma_sqrt_perfect(sc * rad);
    assert((-hb - sc * rad) * sc == (sc * sc) * (d - rad)) by (nonlinear_arith)
        requires
            hb == -(d * sc),
    ;
    lemma_tdiv_multiples_vanish(d - rad, sc * sc);
    assert(s.root1(r) == d - rad);
}

} // verus!
