//! Fixed-point 3-component vectors and the chord distance between points.

use vstd::prelude::*;
use crate::math::{
    is_sqrt_floor, isqrt, lemma_mul_abs_bound, lemma_square_nonneg, sqrt_floor, CHORD_BOUND,
    EVAL_BOUND,
};

verus! {

/// A 3-component vector of fixed-point coordinates (thousandths of a meter).
#[derive(Clone, Copy, PartialEq, Eq, Structural, Debug)]
pub struct Vec3 {
    pub x: i64,
    pub y: i64,
    pub z: i64,
}

/// Sum of the squares of the three coordinate differences.
pub open spec fn norm_sq(dx: int, dy: int, dz: int) -> int {
    dx * dx + dy * dy + dz * dz
}

/// Straight-line (chord) distance between two points, rounded down.
pub open spec fn dist_spec(a: Vec3, b: Vec3) -> int {
    sqrt_floor(norm_sq(a.x - b.x, a.y - b.y, a.z - b.z) as nat) as int
}

impl Vec3 {
    /// Every coordinate has magnitude at most `bound`.
    pub open spec fn in_range(self, bound: int) -> bool {
        &&& -bound <= self.x <= bound
        &&& -bound <= self.y <= bound
        &&& -bound <= self.z <= bound
    }

    /// The zero vector, which stands for a degenerate direction.
    pub open spec fn is_zero(self) -> bool {
        self.x == 0 && self.y == 0 && self.z == 0
    }

    pub fn new(x: i64, y: i64, z: i64) -> (v: Vec3)
        ensures
            v == (Vec3 { x, y, z }),
    {
        Vec3 { x, y, z }
    }

    /// The componentwise negation of this vector.
    pub fn negated(&self) -> (v: Vec3)
        requires
            self.in_range(i64::MAX as int),
        ensures
            v.x == -self.x,
            v.y == -self.y,
            v.z == -self.z,
    {
        Vec3 { x: -self.x, y: -self.y, z: -self.z }
    }

    /// Euclidean distance to `other`, rounded down to a whole unit.
    pub fn distance(&self, other: &Vec3) -> (r: i64)
        requires
            self.in_range(EVAL_BOUND as int),
            other.in_range(EVAL_BOUND as int),
        ensures
            r == dist_spec(*self, *other),
            0 <= r <= CHORD_BOUND,
    {
        let dx = self.x - other.x;
        let dy = self.y - other.y;
        let dz = self.z - other.z;
        proof {
            lemma_mul_abs_bound(dx as int, dx as int, 2 * EVAL_BOUND as int, 2 * EVAL_BOUND as int);
            lemma_mul_abs_bound(dy as int, dy as int, 2 * EVAL_BOUND as int, 2 * EVAL_BOUND as int);
            lemma_mul_abs_bound(dz as int, dz as int, 2 * EVAL_BOUND as int, 2 * EVAL_BOUND as int);
            lemma_square_nonneg(dx as int);
            lemma_square_nonneg(dy as int);
            lemma_square_nonneg(dz as int);
        }
        let sq: i128 = (dx as i128) * (dx as i128) + (dy as i128) * (dy as i128) + (dz as i128)
            * (dz as i128);
        let r = isqrt(sq as u128);
        proof {
            if r > CHORD_BOUND as u64 {
                assert((CHORD_BOUND as int + 1) * (CHORD_BOUND as int + 1) <= (r as int) * (
                r as int)) by (nonlinear_arith)
                    requires CHORD_BOUND as int + 1 <= r as int;
            }
        }
        r as i64
    }
}

} // verus!
