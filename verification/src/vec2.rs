//! Planar integer vectors: the coordinate type for particle positions and
//! velocities, with the dot-product and squared-norm operations the collision
//! math is built on.
use crate::num::lemma_mul_bound;
use vstd::prelude::*;

verus! {

/// Largest coordinate magnitude the engine operates on. Keeping positions and
/// velocities within this range lets every intermediate product of the
/// collision math fit comfortably in an `i128`.
pub const COORD_LIMIT: i64 = 1_000_000_000_000;

/// A 2D vector with integer components.
#[derive(Clone, Copy, Debug, PartialEq, Eq, Structural)]
pub struct Vec2 {
    pub x: i64,
    pub y: i64,
}

impl Vec2 {
    /// Both components within the engine's coordinate range.
    pub open spec fn in_range(self) -> bool {
        -COORD_LIMIT <= self.x <= COORD_LIMIT && -COORD_LIMIT <= self.y <= COORD_LIMIT
    }

    /// Mathematical squared Euclidean norm.
    pub open spec fn spec_norm_sq(self) -> int {
        self.x * self.x + self.y * self.y
    }

    /// Squared norm, exact; `in_range` keeps the products inside `i128`.
    pub fn norm_sq(&self) -> (r: i128)
        requires
            self.in_range(),
        ensures
            r == self.spec_norm_sq(),
    {
        let x = self.x as i128;
        let y = self.y as i128;
        proof {
            lemma_mul_bound(x as int, x as int, COORD_LIMIT as int);
            lemma_mul_bound(y as int, y as int, COORD_LIMIT as int);
        }
        x * x + y * y
    }

    /// Componentwise difference; the result may leave `in_range`, but always
    /// fits in `i64` when both operands are in range.
    pub fn sub(&self, other: &Vec2) -> (r: Vec2)
        requires
            self.in_range(),
            other.in_range(),
        ensures
            r.x == self.x - other.x,
            r.y == self.y - other.y,
    {
        Vec2 { x: self.x - other.x, y: self.y - other.y }
    }
}

} // verus!
