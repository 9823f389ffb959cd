use gas_simulation::geom::{particles_overlap, separate_particles};
use gas_simulation::particle::Particle;
use gas_simulation::resolver::resolve_pair;
use gas_simulation::vec2::Vec2;
use gas_simulation::wall::{resolve_wall_collision, wall_overlap, Wall, WallOrientation};

fn particle(x: i64, y: i64, vx: i64, vy: i64, r: i64, m: u64) -> Particle {
    Particle {
        position: Vec2 { x, y },
        velocity: Vec2 { x: vx, y: vy },
        radius: r,
        mass: m,
    }
}

#[test]
fn overlap_strict_inside() {
    assert!(particles_overlap(
        &Vec2 { x: 0, y: 0 },
        &Vec2 { x: 3, y: 0 },
        2,
        2
    ));
}

#[test]
fn overlap_tangent_is_disjoint() {
    assert!(!particles_overlap(
        &Vec2 { x: 0, y: 0 },
        &Vec2 { x: 4, y: 0 },
        2,
        2
    ));
}

#[test]
fn head_on_equal_mass_pair_reverses() {
    // Two equal-mass particles overlapping by one unit, closing head on:
    // the elastic collision swaps their velocities and the positional
    // correction pushes the centers at least the radius sum apart.
    let mut particles = vec![particle(0, 0, 1, 0, 2, 1), particle(3, 0, -1, 0, 2, 1)];
    resolve_pair(&mut particles, 0, 1);
    assert_eq!(particles[0].velocity, Vec2 { x: -1, y: 0 });
    assert_eq!(particles[1].velocity, Vec2 { x: 1, y: 0 });
    let dx = particles[1].position.x - particles[0].position.x;
    let dy = particles[1].position.y - particles[0].position.y;
    assert!(dx * dx + dy * dy >= 16);
    assert!(!particles_overlap(
        &particles[0].position,
        &particles[1].position,
        2,
        2
    ));
}

#[test]
fn pair_momentum_is_preserved() {
    let mut particles = vec![particle(0, 0, 7, -2, 2, 1), particle(3, 1, -5, 4, 2, 1)];
    resolve_pair(&mut particles, 0, 1);
    assert_eq!(
        particles[0].velocity.x + particles[1].velocity.x,
        7 + (-5)
    );
    assert_eq!(particles[0].velocity.y + particles[1].velocity.y, -2 + 4);
}

#[test]
fn coincident_centers_separate() {
    let mut particles = vec![particle(5, 5, 1, 0, 3, 1), particle(5, 5, -1, 0, 3, 1)];
    resolve_pair(&mut particles, 0, 1);
    assert!(!particles_overlap(
        &particles[0].position,
        &particles[1].position,
        3,
        3
    ));
}

#[test]
fn separation_is_exact_for_unit_overlap() {
    let (n1, n2) = separate_particles(&Vec2 { x: 0, y: 0 }, &Vec2 { x: 3, y: 0 }, 2, 2);
    assert_eq!(n1, Vec2 { x: -1, y: 0 });
    assert_eq!(n2, Vec2 { x: 4, y: 0 });
}

fn right_wall() -> Wall {
    Wall {
        center: Vec2 { x: 500, y: 0 },
        width: 10,
        height: 700,
        orientation: WallOrientation::Vertical,
    }
}

#[test]
fn wall_bounce_flips_one_component() {
    // A particle past the right wall's inner boundary: the x velocity flips
    // and the center is pushed back so the circle is tangent to the inner
    // face.
    let mut p = particle(495, 0, 100, 0, 5, 1);
    let w = right_wall();
    assert!(wall_overlap(&p.position, p.radius, &w));
    resolve_wall_collision(&mut p, &w);
    assert_eq!(p.velocity, Vec2 { x: -100, y: 0 });
    assert_eq!(p.position, Vec2 { x: 490, y: 0 });
    assert!(!wall_overlap(&p.position, p.radius, &w));
}

#[test]
fn wall_bounce_preserves_speed() {
    let mut p = particle(495, 3, 100, 7, 5, 1);
    let w = right_wall();
    let before = p.velocity.x * p.velocity.x + p.velocity.y * p.velocity.y;
    resolve_wall_collision(&mut p, &w);
    let after = p.velocity.x * p.velocity.x + p.velocity.y * p.velocity.y;
    assert_eq!(before, after);
    assert_eq!(p.velocity.y, 7);
}

#[test]
fn wall_miss_changes_nothing() {
    let mut p = particle(0, 0, 100, 0, 5, 1);
    let w = right_wall();
    let before = p;
    resolve_wall_collision(&mut p, &w);
    assert_eq!(p, before);
}
