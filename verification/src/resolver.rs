//! The collision resolver: pairwise particle-particle resolution (velocity
//! impulse plus positional correction) and the exhaustive passes over the
//! particle store. An update whose result would leave the engine's
//! representable range is skipped whole, so a resolved pair always conserves
//! its momentum and every particle stays well-formed.
use crate::collide::{compute_velocity_delta, velocity_delta_spec};
use crate::geom::{particles_overlap, particles_overlap_spec, separate_particles, separation_delta};
use crate::num::iabs;
use crate::particle::{Particle, POS_LIMIT, VEL_LIMIT};
use crate::vec2::Vec2;
use crate::wall::{lemma_wall_pass_push, resolve_wall_collision, wall_pass_particle, Wall};
use vstd::prelude::*;
use vstd::std_specs::vec::vec_index_mut;

verus! {

/// The store after resolving the single pair `(i, j)` in place.
pub open spec fn pair_step(s: Seq<Particle>, i: int, j: int) -> Seq<Particle> {
    let (p1, p2) = pair_resolution(s[i], s[j]);
    s.update(i, p1).update(j, p2)
}

/// The store after finishing row `i` of the pass from pair `(i, j)` on:
/// pairs `(i, j), (i, j + 1), ..., (i, n - 1)` resolved in order.
pub open spec fn pair_pass_row(s: Seq<Particle>, i: int, j: int, n: int) -> Seq<Particle>
    decreases n - j,
{
    if j < n {
        pair_pass_row(pair_step(s, i, j), i, j + 1, n)
    } else {
        s
    }
}

/// The store after resolving all rows from `i` on: row `i` first, then the
/// rest.
pub open spec fn pair_pass_from(s: Seq<Particle>, i: int, n: int) -> Seq<Particle>
    decreases n - i,
{
    if i < n {
        pair_pass_from(pair_pass_row(s, i, i + 1, n), i + 1, n)
    } else {
        s
    }
}

/// The whole particle-particle pass: every unordered pair `(i, j)`, `i < j`,
/// resolved once, in index order, each against the store as earlier pairs
/// left it.
pub open spec fn particle_pass(s: Seq<Particle>) -> Seq<Particle> {
    pair_pass_from(s, 0, s.len() as int)
}

/// The two particles after one particle-particle resolution step.
///
/// A non-overlapping pair is untouched. For an overlapping pair the
/// equal-mass elastic impulse is added to the first velocity and subtracted
/// from the second (skipped for coincident centers, where no line of centers
/// exists, and skipped for both particles whenever either result would leave
/// the velocity range); then both centers are pushed apart by the separation
/// delta (again skipped whole if either would leave the position range).
pub open spec fn pair_resolution(p1: Particle, p2: Particle) -> (Particle, Particle) {
    if !particles_overlap_spec(p1.position, p2.position, p1.radius as int, p2.radius as int) {
        (p1, p2)
    } else {
        let (ax, ay) = velocity_delta_spec(p1.position, p2.position, p1.velocity, p2.velocity);
        let coincident = p1.position.x == p2.position.x && p1.position.y == p2.position.y;
        let vel_ok = !coincident && iabs(p1.velocity.x + ax) <= VEL_LIMIT as int && iabs(
            p1.velocity.y + ay,
        ) <= VEL_LIMIT as int && iabs(p2.velocity.x - ax) <= VEL_LIMIT as int && iabs(
            p2.velocity.y - ay,
        ) <= VEL_LIMIT as int;
        let v1 = if vel_ok {
            Vec2 { x: (p1.velocity.x + ax) as i64, y: (p1.velocity.y + ay) as i64 }
        } else {
            p1.velocity
        };
        let v2 = if vel_ok {
            Vec2 { x: (p2.velocity.x - ax) as i64, y: (p2.velocity.y - ay) as i64 }
        } else {
            p2.velocity
        };
        let (sx, sy) = separation_delta(p1.position, p2.position, p1.radius as int, p2.radius as int);
        let pos_ok = iabs(p1.position.x + sx) <= POS_LIMIT as int && iabs(p1.position.y + sy)
            <= POS_LIMIT as int && iabs(p2.position.x - sx) <= POS_LIMIT as int && iabs(
            p2.position.y - sy,
        ) <= POS_LIMIT as int;
        let n1 = if pos_ok {
            Vec2 { x: (p1.position.x + sx) as i64, y: (p1.position.y + sy) as i64 }
        } else {
            p1.position
        };
        let n2 = if pos_ok {
            Vec2 { x: (p2.position.x - sx) as i64, y: (p2.position.y - sy) as i64 }
        } else {
            p2.position
        };
        (
            Particle { position: n1, velocity: v1, radius: p1.radius, mass: p1.mass },
            Particle { position: n2, velocity: v2, radius: p2.radius, mass: p2.mass },
        )
    }
}

/// Resolves the unordered pair `(i, j)` in place. The pair's total momentum
/// (the vector sum of the two velocities) is preserved exactly, and an
/// overlapping pair whose positional correction was applied is overlapping
/// no longer.
pub fn resolve_pair(particles: &mut Vec<Particle>, i: usize, j: usize)
    requires
        i < old(particles)@.len(),
        j < old(particles)@.len(),
        i != j,
        forall|k: int| 0 <= k < old(particles)@.len() ==> #[trigger] old(particles)@[k].wf(),
    ensures
        final(particles)@.len() == old(particles)@.len(),
        forall|k: int|
            0 <= k < old(particles)@.len() && k != i && k != j ==> #[trigger] final(particles)@[k]
                == old(particles)@[k],
        (final(particles)@[i as int], final(particles)@[j as int]) == pair_resolution(
            old(particles)@[i as int],
            old(particles)@[j as int],
        ),
        forall|k: int| 0 <= k < final(particles)@.len() ==> #[trigger] final(particles)@[k].wf(),
        final(particles)@[i as int].velocity.x + final(particles)@[j as int].velocity.x == old(
            particles,
        )@[i as int].velocity.x + old(particles)@[j as int].velocity.x,
        final(particles)@[i as int].velocity.y + final(particles)@[j as int].velocity.y == old(
            particles,
        )@[i as int].velocity.y + old(particles)@[j as int].velocity.y,
        particles_overlap_spec(
            old(particles)@[i as int].position,
            old(particles)@[j as int].position,
            old(particles)@[i as int].radius as int,
            old(particles)@[j as int].radius as int,
        ) ==> (final(particles)@[i as int].position == old(particles)@[i as int].position
            && final(particles)@[j as int].position == old(particles)@[j as int].position)
            || !particles_overlap_spec(
            final(particles)@[i as int].position,
            final(particles)@[j as int].position,
            old(particles)@[i as int].radius as int,
            old(particles)@[j as int].radius as int,
        ),
{
    let p1 = particles[i];
    let p2 = particles[j];
    proof {
        assert(old(particles)@[i as int].wf());
        assert(old(particles)@[j as int].wf());
    }
    if particles_overlap(&p1.position, &p2.position, p1.radius, p2.radius) {
        let mut q1 = p1;
        let mut q2 = p2;
        if !(p1.position.x == p2.position.x && p1.position.y == p2.position.y) {
            let d = compute_velocity_delta(&p1.position, &p2.position, &p1.velocity, &p2.velocity);
            let w1 = Vec2 { x: p1.velocity.x + d.x, y: p1.velocity.y + d.y };
            let w2 = Vec2 { x: p2.velocity.x - d.x, y: p2.velocity.y - d.y };
            let vel_ok = -VEL_LIMIT <= w1.x && w1.x <= VEL_LIMIT && -VEL_LIMIT <= w1.y && w1.y
                <= VEL_LIMIT && -VEL_LIMIT <= w2.x && w2.x <= VEL_LIMIT && -VEL_LIMIT <= w2.y
                && w2.y <= VEL_LIMIT;
            if vel_ok {
                q1.velocity = w1;
                q2.velocity = w2;
            }
        }
        let (n1, n2) = separate_particles(&p1.position, &p2.position, p1.radius, p2.radius);
        let pos_ok = -POS_LIMIT <= n1.x && n1.x <= POS_LIMIT && -POS_LIMIT <= n1.y && n1.y
            <= POS_LIMIT && -POS_LIMIT <= n2.x && n2.x <= POS_LIMIT && -POS_LIMIT <= n2.y && n2.y
            <= POS_LIMIT;
        if pos_ok {
            q1.position = n1;
            q2.position = n2;
        }
        *vec_index_mut(particles, i) = q1;
        *vec_index_mut(particles, j) = q2;
    }
}

/// One particle-particle pass: every unordered pair is tested and resolved
/// once, in index order; a pair resolved earlier in the pass is not
/// re-tested. Particle count, radii and masses are unchanged and every
/// particle stays well-formed.
pub fn resolve_particle_collisions(particles: &mut Vec<Particle>)
    requires
        forall|k: int| 0 <= k < old(particles)@.len() ==> #[trigger] old(particles)@[k].wf(),
    ensures
        final(particles)@ == particle_pass(old(particles)@),
        final(particles)@.len() == old(particles)@.len(),
        forall|k: int| 0 <= k < final(particles)@.len() ==> #[trigger] final(particles)@[k].wf(),
        forall|k: int|
            0 <= k < final(particles)@.len() ==> #[trigger] final(particles)@[k].radius == old(
                particles,
            )@[k].radius && final(particles)@[k].mass == old(particles)@[k].mass,
{
    let n = particles.len();
    let ghost target = particle_pass(old(particles)@);
    let mut i: usize = 0;
    while i < n
        invariant
            n == particles@.len(),
            i <= n,
            pair_pass_from(particles@, i as int, n as int) == target,
            forall|k: int| 0 <= k < particles@.len() ==> #[trigger] particles@[k].wf(),
            forall|k: int|
                0 <= k < particles@.len() ==> #[trigger] particles@[k].radius == old(
                    particles,
                )@[k].radius && particles@[k].mass == old(particles)@[k].mass,
        decreases n - i,
    {
        let mut j: usize = i + 1;
        while j < n
            invariant
                n == particles@.len(),
                i < j || i + 1 == j,
                i < n,
                j <= n,
                pair_pass_from(pair_pass_row(particles@, i as int, j as int, n as int), i as int
                    + 1, n as int) == target,
                forall|k: int| 0 <= k < particles@.len() ==> #[trigger] particles@[k].wf(),
                forall|k: int|
                    0 <= k < particles@.len() ==> #[trigger] particles@[k].radius == old(
                        particles,
                    )@[k].radius && particles@[k].mass == old(particles)@[k].mass,
            decreases n - j,
        {
            let ghost before = particles@;
            resolve_pair(particles, i, j);
            proof {
                assert(particles@ =~= pair_step(before, i as int, j as int));
                assert(pair_pass_row(before, i as int, j as int, n as int) == pair_pass_row(
                    particles@,
                    i as int,
                    j as int + 1,
                    n as int,
                ));
            }
            j = j + 1;
        }
        i = i + 1;
    }
}

/// One particle-wall pass: every particle is tested against every wall, in
/// order. A wall bounce never changes a particle's squared speed, so the
/// whole pass preserves each particle's squared speed exactly.
pub fn resolve_wall_collisions(particles: &mut Vec<Particle>, walls: &Vec<Wall>)
    requires
        forall|k: int| 0 <= k < old(particles)@.len() ==> #[trigger] old(particles)@[k].wf(),
        forall|w: int| 0 <= w < walls@.len() ==> #[trigger] walls@[w].wf(),
    ensures
        final(particles)@.len() == old(particles)@.len(),
        forall|k: int|
            0 <= k < final(particles)@.len() ==> #[trigger] final(particles)@[k]
                == wall_pass_particle(old(particles)@[k], walls@),
        forall|k: int| 0 <= k < final(particles)@.len() ==> #[trigger] final(particles)@[k].wf(),
        forall|k: int|
            0 <= k < final(particles)@.len() ==> #[trigger] final(particles)@[k].radius == old(
                particles,
            )@[k].radius && final(particles)@[k].mass == old(particles)@[k].mass,
        forall|k: int|
            0 <= k < final(particles)@.len()
                ==> (#[trigger] final(particles)@[k]).velocity.spec_norm_sq() == old(
                particles,
            )@[k].velocity.spec_norm_sq(),
{
    let n = particles.len();
    let mut i: usize = 0;
    while i < n
        invariant
            n == particles@.len(),
            i <= n,
            forall|w: int| 0 <= w < walls@.len() ==> #[trigger] walls@[w].wf(),
            forall|k: int|
                0 <= k < i ==> #[trigger] particles@[k] == wall_pass_particle(
                    old(particles)@[k],
                    walls@,
                ),
            forall|k: int| i <= k < n ==> #[trigger] particles@[k] == old(particles)@[k],
            forall|k: int| 0 <= k < particles@.len() ==> #[trigger] particles@[k].wf(),
            forall|k: int|
                0 <= k < particles@.len() ==> #[trigger] particles@[k].radius == old(
                    particles,
                )@[k].radius && particles@[k].mass == old(particles)@[k].mass,
            forall|k: int|
                0 <= k < particles@.len() ==> #[trigger] particles@[k].velocity.spec_norm_sq()
                    == old(particles)@[k].velocity.spec_norm_sq(),
        decreases n - i,
    {
        let m = walls.len();
        let mut w: usize = 0;
        proof {
            assert(walls@.take(0) =~= Seq::<Wall>::empty());
        }
        while w < m
            invariant
                n == particles@.len(),
                m == walls@.len(),
                i < n,
                w <= m,
                forall|t: int| 0 <= t < walls@.len() ==> #[trigger] walls@[t].wf(),
                particles@[i as int] == wall_pass_particle(
                    old(particles)@[i as int],
                    walls@.take(w as int),
                ),
                forall|k: int|
                    0 <= k < i ==> #[trigger] particles@[k] == wall_pass_particle(
                        old(particles)@[k],
                        walls@,
                    ),
                forall|k: int|
                    i <= k < n && k != i ==> #[trigger] particles@[k] == old(particles)@[k],
                forall|k: int| 0 <= k < particles@.len() ==> #[trigger] particles@[k].wf(),
                forall|k: int|
                    0 <= k < particles@.len() ==> #[trigger] particles@[k].radius == old(
                        particles,
                    )@[k].radius && particles@[k].mass == old(particles)@[k].mass,
                forall|k: int|
                    0 <= k < particles@.len() ==> #[trigger] particles@[k].velocity.spec_norm_sq()
                        == old(particles)@[k].velocity.spec_norm_sq(),
            decreases m - w,
        {
            let ghost before = particles@;
            let p = vec_index_mut(particles, i);
            resolve_wall_collision(p, &walls[w]);
            proof {
                assert(particles@ =~= before.update(i as int, particles@[i as int]));
                lemma_wall_pass_push(
                    old(particles)@[i as int],
                    walls@.take(w as int),
                    walls@[w as int],
                );
                assert(walls@.take(w as int + 1) =~= walls@.take(w as int).push(walls@[w as int]));
            }
            w = w + 1;
        }
        proof {
            assert(walls@.take(m as int) =~= walls@);
        }
        i = i + 1;
    }
}

} // verus!
