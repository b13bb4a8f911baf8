//! 3-component fixed-point vectors, used both for points and for directions,
//! with exact componentwise arithmetic and an exact widened dot product.

use vstd::prelude::*;
use crate::fixed::{lemma_mul_abs_bound, lemma_square_nonneg, mul_wide};

verus! {

/// A 3-component vector (also used as a point), fixed-point at `SCALE`.
#[derive(Clone, Copy, PartialEq, Eq, Structural, Debug)]
pub struct Vec3 {
    pub x: i64,
    pub y: i64,
    pub z: i64,
}

/// Every component's magnitude is at most `bound`.
pub open spec fn in_range(v: Vec3, bound: int) -> bool {
    &&& -bound <= v.x <= bound
    &&& -bound <= v.y <= bound
    &&& -bound <= v.z <= bound
}

/// The dot product of two vectors, exact; its value sits at scale SCALE^2.
pub open spec fn dot(u: Vec3, v: Vec3) -> int {
    u.x * v.x + u.y * v.y + u.z * v.z
}

/// Componentwise difference.
pub open spec fn sub_spec(u: Vec3, v: Vec3) -> Vec3 {
    Vec3 { x: (u.x - v.x) as i64, y: (u.y - v.y) as i64, z: (u.z - v.z) as i64 }
}

/// Componentwise negation.
pub open spec fn neg_spec(v: Vec3) -> Vec3 {
    Vec3 { x: (-(v.x as int)) as i64, y: (-(v.y as int)) as i64, z: (-(v.z as int)) as i64 }
}

impl Vec3 {
    /// Build a vector from its raw fixed-point components.
    pub fn new(x: i64, y: i64, z: i64) -> (v: Vec3)
        ensures
            v == (Vec3 { x, y, z }),
    {
        Vec3 { x, y, z }
    }

    /// All three components are zero.
    pub open spec fn is_zero(self) -> bool {
        self.x == 0 && self.y == 0 && self.z == 0
    }

    /// Componentwise sum.
    pub fn plus(&self, o: &Vec3) -> (r: Vec3)
        requires
            in_range(*self, 0x2000_0000_0000_0000),
            in_range(*o, 0x2000_0000_0000_0000),
        ensures
            r.x == self.x + o.x,
            r.y == self.y + o.y,
            r.z == self.z + o.z,
    {
        Vec3 { x: self.x + o.x, y: self.y + o.y, z: self.z + o.z }
    }

    /// Componentwise difference.
    pub fn minus(&self, o: &Vec3) -> (r: Vec3)
        requires
            in_range(*self, 0x2000_0000_0000_0000),
            in_range(*o, 0x2000_0000_0000_0000),
        ensures
            r == sub_spec(*self, *o),
            r.x == self.x - o.x,
            r.y == self.y - o.y,
            r.z == self.z - o.z,
    {
        Vec3 { x: self.x - o.x, y: self.y - o.y, z: self.z - o.z }
    }

    /// Componentwise negation.
    pub fn negated(&self) -> (r: Vec3)
        requires
            in_range(*self, 0x4000_0000_0000_0000),
        ensures
            r == neg_spec(*self),
            r.x == -(self.x as int),
            r.y == -(self.y as int),
            r.z == -(self.z as int),
    {
        Vec3 { x: -self.x, y: -self.y, z: -self.z }
    }

    /// Exact dot product, widened to 128 bits; the value sits at scale
    /// SCALE^2, so no truncation happens here.
    pub fn dot_wide(&self, o: &Vec3) -> (r: i128)
        requires
            in_range(*self, 0x4000_0000_0000_0000),
            in_range(*o, 0x4000_0000_0000_0000),
        ensures
            r == dot(*self, *o),
    {
        let px: i128 = mul_wide(self.x, o.x);
        let py: i128 = mul_wide(self.y, o.y);
        let pz: i128 = mul_wide(self.z, o.z);
        proof {
            lemma_mul_abs_bound(
                self.x as int,
                o.x as int,
                0x4000_0000_0000_0000,
                0x4000_0000_0000_0000,
            );
            lemma_mul_abs_bound(
                self.y as int,
                o.y as int,
                0x4000_0000_0000_0000,
                0x4000_0000_0000_0000,
            );
            lemma_mul_abs_bound(
                self.z as int,
                o.z as int,
                0x4000_0000_0000_0000,
                0x4000_0000_0000_0000,
            );
        }
        px + py + pz
    }
}

/// A dot product is bounded by three times the product of the componentwise
/// bounds of its arguments.
pub proof fn lemma_dot_bound(u: Vec3, v: Vec3, bu: int, bv: int)
    requires
        in_range(u, bu),
        in_range(v, bv),
        0 <= bu,
        0 <= bv,
    ensures
        -(3 * (bu * bv)) <= dot(u, v) <= 3 * (bu * bv),
{
    lemma_mul_abs_bound(u.x as int, v.x as int, bu, bv);
    lemma_mul_abs_bound(u.y as int, v.y as int, bu, bv);
    lemma_mul_abs_bound(u.z as int, v.z as int, bu, bv);
}

/// A vector's dot product with itself is nonnegative, and at least one when
/// the vector is nonzero.
pub proof fn lemma_dot_self_nonneg(v: Vec3)
    ensures
        0 <= dot(v, v),
        !v.is_zero() ==> 1 <= dot(v, v),
{
    lemma_square_nonneg(v.x as int);
    lemma_square_nonneg(v.y as int);
    lemma_square_nonneg(v.z as int);
}

/// Negating the second argument of a dot product flips its sign.
pub proof fn lemma_dot_neg(u: Vec3, v: Vec3)
    requires
        in_range(v, 0x4000_0000_0000_0000),
    ensures
        dot(u, neg_spec(v)) == -dot(u, v),
{
    assert((u.x as int) * (-(v.x as int)) == -((u.x as int) * (v.x as int)))
        by (nonlinear_arith);
    assert((u.y as int) * (-(v.y as int)) == -((u.y as int) * (v.y as int)))
        by (nonlinear_arith);
    assert((u.z as int) * (-(v.z as int)) == -((u.z as int) * (v.z as int)))
        by (nonlinear_arith);
}

} // verus!
