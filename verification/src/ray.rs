//! Rays: an origin plus a direction, and the parametric point `at` along the
//! ray's path.

use vstd::prelude::*;
use crate::fixed::{lemma_mul_abs_bound, lemma_tdiv_small, mul_wide, tdiv, tdiv_i128, COORD_MAX,
    SCALE, T_MAX};
use crate::vec3::{in_range, Vec3};

verus! {

/// A ray: origin plus direction, both fixed-point. The direction is stored
/// verbatim and need not be unit length; the ray parameter `t` is measured
/// in units of the direction's length.
#[derive(Clone, Copy, PartialEq, Eq, Structural, Debug)]
pub struct Ray {
    pub orig: Vec3,
    pub dir: Vec3,
}

/// The fixed-point coordinate reached from `orig` after traveling `t` units
/// of `dir`: orig + (dir * t) / SCALE, truncated.
pub open spec fn at_coord(orig: int, dir: int, t: int) -> int {
    orig + tdiv(dir * t, SCALE as int)
}

impl Ray {
    /// Geometry the hit tests accept: coordinates within `COORD_MAX`, and a
    /// nonzero direction (a zero direction degenerates the quadratic).
    pub open spec fn wf(self) -> bool {
        &&& in_range(self.orig, COORD_MAX as int)
        &&& in_range(self.dir, COORD_MAX as int)
        &&& !self.dir.is_zero()
    }

    /// Stores both fields verbatim; no normalization is performed.
    pub fn new(origin: Vec3, direction: Vec3) -> (r: Ray)
        ensures
            r.orig == origin,
            r.dir == direction,
    {
        Ray { orig: origin, dir: direction }
    }

    /// The point reached after traveling `t` units of the direction vector.
    pub open spec fn at_spec(self, t: int) -> Vec3 {
        Vec3 {
            x: at_coord(self.orig.x as int, self.dir.x as int, t) as i64,
            y: at_coord(self.orig.y as int, self.dir.y as int, t) as i64,
            z: at_coord(self.orig.z as int, self.dir.z as int, t) as i64,
        }
    }

    /// Returns `origin + direction * t`: pure, exact per `at_coord`.
    pub fn at(&self, t: i64) -> (p: Vec3)
        requires
            in_range(self.orig, COORD_MAX as int),
            in_range(self.dir, COORD_MAX as int),
            -T_MAX <= t <= T_MAX,
        ensures
            p == self.at_spec(t as int),
            p.x == at_coord(self.orig.x as int, self.dir.x as int, t as int),
            p.y == at_coord(self.orig.y as int, self.dir.y as int, t as int),
            p.z == at_coord(self.orig.z as int, self.dir.z as int, t as int),
            in_range(p, COORD_MAX as int + 0x1000_0000_0000),
    {
        let wx: i128 = mul_wide(self.dir.x, t);
        let wy: i128 = mul_wide(self.dir.y, t);
        let wz: i128 = mul_wide(self.dir.z, t);
        proof {
            lemma_mul_abs_bound(self.dir.x as int, t as int, COORD_MAX as int, T_MAX as int);
            lemma_mul_abs_bound(self.dir.y as int, t as int, COORD_MAX as int, T_MAX as int);
            lemma_mul_abs_bound(self.dir.z as int, t as int, COORD_MAX as int, T_MAX as int);
        }
        let qx: i128 = tdiv_i128(wx, SCALE as i128);
        let qy: i128 = tdiv_i128(wy, SCALE as i128);
        let qz: i128 = tdiv_i128(wz, SCALE as i128);
        proof {
            lemma_tdiv_small(wx as int, SCALE as int);
            lemma_tdiv_small(wy as int, SCALE as int);
            lemma_tdiv_small(wz as int, SCALE as int);
        }
        Vec3 {
            x: self.orig.x + (qx as i64),
            y: self.orig.y + (qy as i64),
            z: self.orig.z + (qz as i64),
        }
    }
}

/// Law: a ray evaluated at parameter zero is exactly its origin.
pub proof fn lemma_at_zero(r: Ray)
    requires
        in_range(r.orig, COORD_MAX as int),
    ensures
        r.at_spec(0) == r.orig,
{
    assert(r.dir.x as int * 0 == 0);
    assert(r.dir.y as int * 0 == 0);
    assert(r.dir.z as int * 0 == 0);
    assert(tdiv(0, SCALE as int) == 0);
}

} // verus!
