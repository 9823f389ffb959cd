use gas_simulation::sim::{ConfigError, SimConfig, Simulation};

fn demo_config() -> SimConfig {
    SimConfig {
        particle_count: 5,
        particle_radius: 5,
        particle_mass: 2,
        initial_speed: 10,
        enclosure_width: 1000,
        enclosure_height: 700,
        wall_thickness: 10,
        bin_count: 5,
        max_speed_multiplier: 3,
    }
}

#[test]
fn initial_temperature_matches_equipartition() {
    // All particles start at speed 10 with mass 2 and k_B = 1 in natural
    // units: T = m * S^2 / (2 k_B) = 100, exactly, before any collision.
    let sim = Simulation::new(demo_config()).unwrap();
    assert_eq!(sim.temperature(), 100);
}

#[test]
fn initial_speeds_all_equal() {
    // Every direction the initializer draws must have squared norm exactly
    // S^2; speed 5 admits diagonal directions such as (3, 4).
    let mut c = demo_config();
    c.particle_count = 30;
    c.initial_speed = 5;
    let sim = Simulation::new(c).unwrap();
    for p in sim.particles() {
        let v = p.velocity;
        assert_eq!(v.x * v.x + v.y * v.y, 25);
    }
}

#[test]
fn grid_layout_first_particle() {
    let sim = Simulation::new(demo_config()).unwrap();
    let p0 = sim.particles()[0].position;
    // top-left spawn point: (-w/2 - t/2 + 2t, (h - t)/2 + t/2 - 2t).
    assert_eq!(p0.x, -485);
    assert_eq!(p0.y, 330);
    // the second particle sits one gap (four radii) to the right.
    let p1 = sim.particles()[1].position;
    assert_eq!(p1.x, -465);
    assert_eq!(p1.y, 330);
}

#[test]
fn starts_paused_with_unit_slow_motion() {
    let sim = Simulation::new(demo_config()).unwrap();
    assert!(!sim.is_running());
    assert_eq!(sim.slow_motion(), 1);
    assert_eq!(sim.curve_points().len(), 20);
    assert_eq!(sim.histogram().len(), 5);
}

#[test]
fn paused_advance_is_a_no_op() {
    let mut sim = Simulation::new(demo_config()).unwrap();
    let before: Vec<_> = sim.particles().iter().map(|p| p.position).collect();
    sim.advance(1000);
    let after: Vec<_> = sim.particles().iter().map(|p| p.position).collect();
    assert_eq!(before, after);
}

#[test]
fn running_advance_moves_by_velocity() {
    let mut c = demo_config();
    c.particle_count = 1;
    c.initial_speed = 3;
    let mut sim = Simulation::new(c).unwrap();
    sim.set_running(true);
    let p = sim.particles()[0];
    sim.advance(1000);
    let q = sim.particles()[0];
    // one second at slow-motion one: the position moves by one velocity.
    assert_eq!(q.position.x, p.position.x + p.velocity.x);
    assert_eq!(q.position.y, p.position.y + p.velocity.y);
}

#[test]
fn slow_motion_divides_the_step() {
    let mut c = demo_config();
    c.particle_count = 1;
    c.initial_speed = 3;
    let mut sim = Simulation::new(c).unwrap();
    sim.set_running(true);
    sim.set_slow_motion(2);
    let p = sim.particles()[0];
    sim.advance(1000);
    let q = sim.particles()[0];
    assert_eq!(q.position.x, p.position.x + p.velocity.x * 1000 / 2000);
    assert_eq!(q.position.y, p.position.y + p.velocity.y * 1000 / 2000);
}

#[test]
fn slow_motion_commands() {
    let mut sim = Simulation::new(demo_config()).unwrap();
    sim.increase_slow_motion();
    assert_eq!(sim.slow_motion(), 2);
    sim.decrease_slow_motion();
    assert_eq!(sim.slow_motion(), 1);
    // never below one.
    sim.decrease_slow_motion();
    assert_eq!(sim.slow_motion(), 1);
    sim.toggle_running();
    assert!(sim.is_running());
    sim.toggle_running();
    assert!(!sim.is_running());
}

#[test]
fn histogram_counts_bounded_by_particles() {
    let mut sim = Simulation::new(demo_config()).unwrap();
    sim.set_running(true);
    sim.advance(4);
    let total: u64 = sim.histogram().iter().sum();
    assert!(total <= 5);
}

#[test]
fn rejects_zero_particle_count() {
    let mut c = demo_config();
    c.particle_count = 0;
    assert_eq!(
        Simulation::new(c).unwrap_err(),
        ConfigError::ZeroParticleCount
    );
}

#[test]
fn rejects_non_positive_radius() {
    let mut c = demo_config();
    c.particle_radius = 0;
    assert_eq!(Simulation::new(c).unwrap_err(), ConfigError::NonPositiveRadius);
}

#[test]
fn rejects_zero_mass() {
    let mut c = demo_config();
    c.particle_mass = 0;
    assert_eq!(Simulation::new(c).unwrap_err(), ConfigError::ZeroMass);
}

#[test]
fn rejects_non_positive_speed() {
    let mut c = demo_config();
    c.initial_speed = 0;
    assert_eq!(Simulation::new(c).unwrap_err(), ConfigError::NonPositiveSpeed);
}

#[test]
fn rejects_non_positive_enclosure() {
    let mut c = demo_config();
    c.enclosure_height = 0;
    assert_eq!(
        Simulation::new(c).unwrap_err(),
        ConfigError::NonPositiveEnclosure
    );
}

#[test]
fn rejects_non_positive_wall_thickness() {
    let mut c = demo_config();
    c.wall_thickness = -1;
    assert_eq!(
        Simulation::new(c).unwrap_err(),
        ConfigError::NonPositiveWallThickness
    );
}

#[test]
fn rejects_zero_bin_count() {
    let mut c = demo_config();
    c.bin_count = 0;
    assert_eq!(Simulation::new(c).unwrap_err(), ConfigError::ZeroBinCount);
}

#[test]
fn rejects_non_positive_multiplier() {
    let mut c = demo_config();
    c.max_speed_multiplier = 0;
    assert_eq!(
        Simulation::new(c).unwrap_err(),
        ConfigError::NonPositiveMultiplier
    );
}

#[test]
fn rejects_out_of_range_count() {
    let mut c = demo_config();
    c.particle_count = 20_000;
    assert_eq!(Simulation::new(c).unwrap_err(), ConfigError::OutOfRange);
}

#[test]
fn run_keeps_the_ensemble_well_formed() {
    let mut c = demo_config();
    c.particle_count = 9;
    let mut sim = Simulation::new(c).unwrap();
    sim.set_running(true);
    for _ in 0..50 {
        sim.advance(1000);
    }
    assert_eq!(sim.particles().len(), 9);
    for p in sim.particles() {
        assert_eq!(p.radius, 5);
        assert_eq!(p.mass, 2);
    }
    let total: u64 = sim.histogram().iter().sum();
    assert!(total <= 9);
}
