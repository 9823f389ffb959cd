//! The integrator: advances every particle's position by its velocity over
//! the elapsed time, scaled down by the slow-motion divisor. Velocities are
//! never touched, so slow motion changes apparent speed without disturbing
//! the energy bookkeeping.
use crate::num::{div_trunc, div_trunc_i128, iabs, lemma_div_trunc_abs, lemma_mul_bound2};
use crate::particle::{Particle, POS_LIMIT};
use crate::vec2::Vec2;
use vstd::arithmetic::div_mod::{lemma_div_is_ordered, lemma_div_is_ordered_by_denominator};
use vstd::prelude::*;
use vstd::std_specs::vec::vec_index_mut;

verus! {

/// Longest time step the integrator accepts, in milliseconds.
pub const DT_LIMIT: u64 = 1_000_000_000;

/// Largest slow-motion divisor the engine accepts.
pub const SLOW_LIMIT: u64 = 1_000_000;

/// A particle after one integration step of `dt` milliseconds with
/// slow-motion divisor `slow`: each position component moves by
/// `v * dt / (1000 * slow)`, truncated toward zero; the move is skipped
/// whole if either new component would leave the position range.
pub open spec fn advanced_particle(p: Particle, dt: int, slow: int) -> Particle {
    let mx = div_trunc(p.velocity.x * dt, 1000 * slow);
    let my = div_trunc(p.velocity.y * dt, 1000 * slow);
    let nx = p.position.x + mx;
    let ny = p.position.y + my;
    if iabs(nx) <= POS_LIMIT as int && iabs(ny) <= POS_LIMIT as int {
        Particle {
            position: Vec2 { x: nx as i64, y: ny as i64 },
            velocity: p.velocity,
            radius: p.radius,
            mass: p.mass,
        }
    } else {
        p
    }
}

/// Moves every particle by `velocity * dt / (1000 * slow)`, exactly as
/// `advanced_particle` says; velocities, radii and masses are unchanged.
pub fn advance_positions(particles: &mut Vec<Particle>, dt_millis: u64, slow_motion: u64)
    requires
        forall|k: int| 0 <= k < old(particles)@.len() ==> #[trigger] old(particles)@[k].wf(),
        dt_millis <= DT_LIMIT,
        1 <= slow_motion <= SLOW_LIMIT,
    ensures
        final(particles)@.len() == old(particles)@.len(),
        forall|k: int|
            0 <= k < final(particles)@.len() ==> #[trigger] final(particles)@[k]
                == advanced_particle(old(particles)@[k], dt_millis as int, slow_motion as int),
        forall|k: int| 0 <= k < final(particles)@.len() ==> #[trigger] final(particles)@[k].wf(),
{
    let n = particles.len();
    let mut i: usize = 0;
    while i < n
        invariant
            n == particles@.len(),
            i <= n,
            dt_millis <= DT_LIMIT,
            1 <= slow_motion <= SLOW_LIMIT,
            forall|k: int| 0 <= k < n ==> #[trigger] old(particles)@[k].wf(),
            forall|k: int|
                0 <= k < i ==> #[trigger] particles@[k] == advanced_particle(
                    old(particles)@[k],
                    dt_millis as int,
                    slow_motion as int,
                ),
            forall|k: int| 0 <= k < n ==> #[trigger] particles@[k].wf(),
            forall|k: int| i <= k < n ==> #[trigger] particles@[k] == old(particles)@[k],
        decreases n - i,
    {
        let ghost before = particles@;
        let p = vec_index_mut(particles, i);
        proof {
            assert(old(particles)@[i as int].wf());
        }
        let den: i128 = 1000 * (slow_motion as i128);
        proof {
            lemma_mul_bound2(
                p.velocity.x as int,
                dt_millis as int,
                1_000_000_000,
                1_000_000_000,
            );
            lemma_mul_bound2(
                p.velocity.y as int,
                dt_millis as int,
                1_000_000_000,
                1_000_000_000,
            );
        }
        let numx: i128 = (p.velocity.x as i128) * (dt_millis as i128);
        let numy: i128 = (p.velocity.y as i128) * (dt_millis as i128);
        let mx = div_trunc_i128(numx, den);
        let my = div_trunc_i128(numy, den);
        proof {
            lemma_div_trunc_abs(numx as int, den as int);
            lemma_div_trunc_abs(numy as int, den as int);
            lemma_div_is_ordered_by_denominator(iabs(numx as int), 1000, den as int);
            lemma_div_is_ordered_by_denominator(iabs(numy as int), 1000, den as int);
            lemma_div_is_ordered(iabs(numx as int), 1_000_000_000_000_000_000, 1000);
            lemma_div_is_ordered(iabs(numy as int), 1_000_000_000_000_000_000, 1000);
        }
        let nx = p.position.x + (mx as i64);
        let ny = p.position.y + (my as i64);
        if -POS_LIMIT <= nx && nx <= POS_LIMIT && -POS_LIMIT <= ny && ny <= POS_LIMIT {
            p.position = Vec2 { x: nx, y: ny };
        }
        proof {
            assert(particles@ =~= before.update(i as int, particles@[i as int]));
        }
        i = i + 1;
    }
}

} // verus!
