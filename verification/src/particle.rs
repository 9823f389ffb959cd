//! The particle record: per-particle kinematic state. Radius and mass are
//! fixed for a particle's lifetime; position and velocity change every tick.
use crate::geom::RADIUS_LIMIT;
use crate::num::iabs;
use crate::vec2::Vec2;
use vstd::prelude::*;

verus! {

/// Largest position component a stored particle may have.
pub const POS_LIMIT: i64 = 1_000_000_000;

/// Largest velocity component a stored particle may have.
pub const VEL_LIMIT: i64 = 1_000_000_000;

/// Largest particle mass the engine accepts.
pub const MASS_LIMIT: u64 = 1_000_000_000;

/// A rigid circular particle.
#[derive(Clone, Copy, Debug, PartialEq, Eq, Structural)]
pub struct Particle {
    pub position: Vec2,
    pub velocity: Vec2,
    pub radius: i64,
    pub mass: u64,
}

impl Particle {
    /// Well-formedness: all kinematic state within the engine's ranges.
    pub open spec fn wf(self) -> bool {
        &&& iabs(self.position.x as int) <= POS_LIMIT as int
        &&& iabs(self.position.y as int) <= POS_LIMIT as int
        &&& iabs(self.velocity.x as int) <= VEL_LIMIT as int
        &&& iabs(self.velocity.y as int) <= VEL_LIMIT as int
        &&& 1 <= self.radius <= RADIUS_LIMIT
        &&& 1 <= self.mass <= MASS_LIMIT
    }
}

} // verus!
