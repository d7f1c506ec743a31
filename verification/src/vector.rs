//! Fixed-point 3D vectors: cell center positions and velocity vectors.
//!
//! Positions and angular velocities are held as integer triples (a caller
//! picks the fixed-point scale); the cross product of two bounded vectors
//! is then exact, and the tangency of the derived velocity field is a
//! theorem rather than a floating-point approximation.

use vstd::prelude::*;

verus! {

/// Components of every vector handed to `cross` must stay within this bound,
/// so that the products inside a cross product cannot overflow `i64`.
pub const COORD_BOUND: i64 = 0x4000_0000;

/// A 3D vector with integer (fixed-point) components.
#[derive(Clone, Copy, PartialEq, Eq, Structural, Debug)]
pub struct Vec3i {
    pub x: i64,
    pub y: i64,
    pub z: i64,
}

impl Vec3i {
    /// True when every component lies strictly within `COORD_BOUND`.
    pub open spec fn bounded(self) -> bool {
        -COORD_BOUND <= self.x <= COORD_BOUND
            && -COORD_BOUND <= self.y <= COORD_BOUND
            && -COORD_BOUND <= self.z <= COORD_BOUND
    }

    /// The cross product over unbounded integers.
    pub open spec fn spec_cross(self, other: Vec3i) -> (int, int, int) {
        (
            self.y * other.z - self.z * other.y,
            self.z * other.x - self.x * other.z,
            self.x * other.y - self.y * other.x,
        )
    }

    /// The dot product over unbounded integers.
    pub open spec fn spec_dot(self, other: Vec3i) -> int {
        self.x * other.x + self.y * other.y + self.z * other.z
    }

    /// Runtime check for `bounded()`.
    pub fn in_bounds(&self) -> (r: bool)
        ensures
            r == self.bounded(),
    {
        let b = COORD_BOUND;
        -b <= self.x && self.x <= b && -b <= self.y && self.y <= b && -b <= self.z && self.z <= b
    }

    /// The cross product `self x other`, exact for bounded vectors.
    pub fn cross(self, other: Vec3i) -> (r: Vec3i)
        requires
            self.bounded(),
            other.bounded(),
        ensures
            (r.x as int, r.y as int, r.z as int) == self.spec_cross(other),
    {
        proof {
            lemma_cross_components_fit(self, other);
        }
        Vec3i {
            x: self.y * other.z - self.z * other.y,
            y: self.z * other.x - self.x * other.z,
            z: self.x * other.y - self.y * other.x,
        }
    }
}

/// Each component of the cross product of two bounded vectors fits in `i64`.
proof fn lemma_cross_components_fit(a: Vec3i, b: Vec3i)
    requires
        a.bounded(),
        b.bounded(),
    ensures
        -0x1000_0000_0000_0000 <= a.y * b.z <= 0x1000_0000_0000_0000,
        -0x1000_0000_0000_0000 <= a.z * b.y <= 0x1000_0000_0000_0000,
        -0x1000_0000_0000_0000 <= a.z * b.x <= 0x1000_0000_0000_0000,
        -0x1000_0000_0000_0000 <= a.x * b.z <= 0x1000_0000_0000_0000,
        -0x1000_0000_0000_0000 <= a.x * b.y <= 0x1000_0000_0000_0000,
        -0x1000_0000_0000_0000 <= a.y * b.x <= 0x1000_0000_0000_0000,
{
    lemma_product_bound(a.x as int, b.x as int);
    lemma_product_bound(a.x as int, b.y as int);
    lemma_product_bound(a.x as int, b.z as int);
    lemma_product_bound(a.y as int, b.x as int);
    lemma_product_bound(a.y as int, b.y as int);
    lemma_product_bound(a.y as int, b.z as int);
    lemma_product_bound(a.z as int, b.x as int);
    lemma_product_bound(a.z as int, b.y as int);
    lemma_product_bound(a.z as int, b.z as int);
}

/// The product of two components bounded by `COORD_BOUND` is at most 2^60.
proof fn lemma_product_bound(a: int, b: int)
    requires
        -COORD_BOUND <= a <= COORD_BOUND,
        -COORD_BOUND <= b <= COORD_BOUND,
    ensures
        -0x1000_0000_0000_0000 <= a * b <= 0x1000_0000_0000_0000,
{
    assert(-0x1000_0000_0000_0000 <= a * b <= 0x1000_0000_0000_0000) by (nonlinear_arith)
        requires
            -COORD_BOUND <= a <= COORD_BOUND,
            -COORD_BOUND <= b <= COORD_BOUND,
    ;
}

/// A cross product is orthogonal to both of its factors: the velocity field
/// derived from it is tangent to the sphere at every cell, exactly.
pub proof fn lemma_cross_tangent(a: Vec3i, b: Vec3i)
    ensures
        a.spec_cross(b).0 * b.x + a.spec_cross(b).1 * b.y + a.spec_cross(b).2 * b.z == 0,
        a.spec_cross(b).0 * a.x + a.spec_cross(b).1 * a.y + a.spec_cross(b).2 * a.z == 0,
{
    let (cx, cy, cz) = a.spec_cross(b);
    assert((a.y * b.z - a.z * b.y) * b.x + (a.z * b.x - a.x * b.z) * b.y
        + (a.x * b.y - a.y * b.x) * b.z == 0) by (nonlinear_arith);
    assert((a.y * b.z - a.z * b.y) * a.x + (a.z * b.x - a.x * b.z) * a.y
        + (a.x * b.y - a.y * b.x) * a.z == 0) by (nonlinear_arith);
}

} // verus!
