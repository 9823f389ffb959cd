//! A 2D ideal-gas simulation core: rigid circular particles in a rectangular
//! enclosure, with elastic particle-particle and particle-wall collisions and
//! thermodynamic observables (temperature, entropy, speed histogram, and a
//! sampled Maxwell-Boltzmann reference curve) derived from the ensemble.
//!
//! All state is kept in integer-scaled units so that every geometric and
//! thermodynamic computation has an exact arithmetic meaning; the embedding
//! chooses the physical scale.
use vstd::prelude::*;

pub mod collide;
pub mod distribution;
pub mod geom;
pub mod histogram;
pub mod particle;
pub mod resolver;
pub mod rng;
pub mod sim;
pub mod wall;
pub mod motion;
pub mod num;
pub mod thermo;
pub mod vec2;

verus! {

} // verus!
