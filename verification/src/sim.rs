//! The simulation context: owns the particle store, the enclosure walls and
//! the derived observables, validates the configuration once at
//! construction, and drives one tick as integrate, particle-particle pass,
//! particle-wall pass, then analytics. The engine works in natural units
//! with the Boltzmann constant equal to one; the embedding chooses scales.
use crate::distribution::{mb_pdf_spec, sample_curve};
use crate::geom::RADIUS_LIMIT;
use crate::histogram::{count_in_bin, sum_counts, update_histogram};
use crate::motion::{advance_positions, advanced_particle, DT_LIMIT, SLOW_LIMIT};
use crate::num::{iabs, isqrt, lemma_mul_bound, lemma_sq_le_bound};
use crate::particle::Particle;
use crate::resolver::{particle_pass, resolve_particle_collisions, resolve_wall_collisions};
use crate::rng::random_below;
use crate::thermo::{calculate_entropy, calculate_temperature, entropy_milli_spec, temperature_spec};
use crate::vec2::Vec2;
use crate::wall::{wall_pass_particle, Wall, WallOrientation};
use vstd::arithmetic::div_mod::{lemma_fundamental_div_mod, lemma_remainder_lower};
use vstd::prelude::*;

verus! {

/// Number of sample points of the reference distribution curve.
pub const CURVE_SAMPLES: usize = 20;

/// The fixed parameter set supplied once at construction.
#[derive(Clone, Copy, Debug, PartialEq, Eq, Structural)]
pub struct SimConfig {
    pub particle_count: usize,
    pub particle_radius: i64,
    pub particle_mass: u64,
    pub initial_speed: i64,
    pub enclosure_width: i64,
    pub enclosure_height: i64,
    pub wall_thickness: i64,
    pub bin_count: usize,
    pub max_speed_multiplier: i64,
}

/// Why a configuration was rejected at setup.
#[derive(Clone, Copy, Debug, PartialEq, Eq, Structural)]
pub enum ConfigError {
    ZeroParticleCount,
    NonPositiveRadius,
    ZeroMass,
    NonPositiveSpeed,
    NonPositiveEnclosure,
    NonPositiveWallThickness,
    ZeroBinCount,
    NonPositiveMultiplier,
    OutOfRange,
}

/// The construction-time validation, in the order the checks are made:
/// non-positive quantities are configuration errors; `OutOfRange` covers the
/// machine limits of the integer-scaled engine.
pub open spec fn config_check(c: SimConfig) -> Option<ConfigError> {
    if c.particle_count == 0 {
        Some(ConfigError::ZeroParticleCount)
    } else if c.particle_radius <= 0 {
        Some(ConfigError::NonPositiveRadius)
    } else if c.particle_mass == 0 {
        Some(ConfigError::ZeroMass)
    } else if c.initial_speed <= 0 {
        Some(ConfigError::NonPositiveSpeed)
    } else if c.enclosure_width <= 0 || c.enclosure_height <= 0 {
        Some(ConfigError::NonPositiveEnclosure)
    } else if c.wall_thickness <= 0 {
        Some(ConfigError::NonPositiveWallThickness)
    } else if c.bin_count == 0 {
        Some(ConfigError::ZeroBinCount)
    } else if c.max_speed_multiplier <= 0 {
        Some(ConfigError::NonPositiveMultiplier)
    } else if c.particle_count > 10_000 || c.particle_radius > RADIUS_LIMIT || c.particle_mass
        > 1_000_000_000 || c.initial_speed > 1_000_000 || c.enclosure_width > 100_000_000
        || c.enclosure_height > 100_000_000 || c.wall_thickness >= c.enclosure_width
        || c.wall_thickness >= c.enclosure_height || c.bin_count > 1000 || c.max_speed_multiplier
        > 1000 || (c.initial_speed as int) * (c.max_speed_multiplier as int) < c.bin_count as int
        || (c.particle_count as int) * (4 * c.particle_radius as int) > 800_000_000 {
        Some(ConfigError::OutOfRange)
    } else {
        None
    }
}

/// The highest speed the histogram spans: a configured multiple of the
/// initial speed.
pub open spec fn max_speed_spec(c: SimConfig) -> int {
    (c.initial_speed as int) * (c.max_speed_multiplier as int)
}

/// The common width of the histogram bins.
pub open spec fn bin_width_spec(c: SimConfig) -> int {
    max_speed_spec(c) / (c.bin_count as int)
}

/// The enclosure's inner area.
pub open spec fn area_spec(c: SimConfig) -> int {
    (c.enclosure_width - c.wall_thickness) * (c.enclosure_height - c.wall_thickness)
}

/// The temperature clamped into the fixed-point range of the entropy
/// formula.
pub open spec fn clamped_temperature(t: int) -> int {
    if t < 1 {
        1
    } else if t > 1_000_000_000 {
        1_000_000_000
    } else {
        t
    }
}

/// The denominator of the logarithm argument `rho * lambda^2 == c_num /
/// (c_den * T)` in natural units, saturated into the fixed-point range
/// (the cap keeps `c_den * T` within `u64` for every clamped temperature).
pub open spec fn entropy_den_spec(c: SimConfig) -> int {
    let raw = 1000 * area_spec(c) * (c.particle_mass as int);
    if raw > 18_000_000_000 {
        18_000_000_000
    } else {
        raw
    }
}

/// The numerator of the logarithm argument: `2 pi` in milli units times the
/// particle count.
pub open spec fn entropy_num_spec(c: SimConfig) -> int {
    6283 * (c.particle_count as int)
}

/// The squared speeds of the ensemble, the input of every observable.
pub open spec fn speeds_sq_of(s: Seq<Particle>) -> Seq<u64> {
    s.map(|i: int, p: Particle| p.velocity.spec_norm_sq() as u64)
}

/// The four enclosure walls, symmetric about the origin: vertical slabs at
/// `(-w/2, 0)` and `(w/2, 0)` of the wall thickness by the enclosure
/// height, horizontal slabs at `(0, (h - t)/2)` and `(0, -(h - t)/2)` of
/// the enclosure width by the wall thickness.
pub open spec fn enclosure_walls(c: SimConfig) -> Seq<Wall> {
    let hori = (c.enclosure_width as int) / 2;
    let vert = ((c.enclosure_height - c.wall_thickness) as int) / 2;
    seq![
        Wall {
            center: Vec2 { x: (-hori) as i64, y: 0 },
            width: c.wall_thickness,
            height: c.enclosure_height,
            orientation: WallOrientation::Vertical,
        },
        Wall {
            center: Vec2 { x: hori as i64, y: 0 },
            width: c.wall_thickness,
            height: c.enclosure_height,
            orientation: WallOrientation::Vertical,
        },
        Wall {
            center: Vec2 { x: 0, y: vert as i64 },
            width: c.enclosure_width,
            height: c.wall_thickness,
            orientation: WallOrientation::Horizontal,
        },
        Wall {
            center: Vec2 { x: 0, y: (-vert) as i64 },
            width: c.enclosure_width,
            height: c.wall_thickness,
            orientation: WallOrientation::Horizontal,
        },
    ]
}

/// The speed-distribution scale `a^2 = k_B T / m` of the reference curve,
/// from the initial temperature, saturated into the fixed-point range.
pub open spec fn curve_scale(c: SimConfig, t: int) -> int {
    if t < 1 {
        1
    } else {
        let sc = t / (c.particle_mass as int);
        if sc < 1 {
            1
        } else if sc > 1_000_000_000_000_000_000 {
            1_000_000_000_000_000_000
        } else {
            sc
        }
    }
}

/// One whole tick on the particle store: every particle integrated, then
/// the particle-particle pass over all pairs in index order, then every
/// particle resolved against each wall in order.
pub open spec fn tick_spec(s: Seq<Particle>, walls: Seq<Wall>, dt: int, slow: int) -> Seq<
    Particle,
> {
    let moved = s.map(|k: int, p: Particle| advanced_particle(p, dt, slow));
    let collided = particle_pass(moved);
    collided.map(|k: int, p: Particle| wall_pass_particle(p, walls))
}

/// The top-left spawn point of the initialization grid.
pub open spec fn spawn_start(c: SimConfig) -> (int, int) {
    (
        -(c.enclosure_width as int / 2) - c.wall_thickness as int / 2 + 2 * c.wall_thickness,
        (c.enclosure_height - c.wall_thickness) as int / 2 + c.wall_thickness as int / 2 - 2
            * c.wall_thickness,
    )
}

/// One step of the grid walk: right by one gap while room remains on the
/// row, else back to the left edge of the next row down. The gap is four
/// particle radii.
pub open spec fn spawn_next(c: SimConfig, p: (int, int)) -> (int, int) {
    let gap = 4 * c.particle_radius as int;
    let right = c.enclosure_width as int / 2 + c.wall_thickness as int / 2 - 2
        * c.wall_thickness;
    if p.0 + gap < right {
        (p.0 + gap, p.1)
    } else {
        (spawn_start(c).0, p.1 - gap)
    }
}

/// Integer directions of exactly the given speed: the four axis-aligned
/// vectors, together with all four sign combinations of each Pythagorean
/// decomposition `a^2 + b^2 == s^2` the search over `a` finds. Every
/// returned vector has squared norm exactly `s^2`.
pub fn speed_directions(s: i64) -> (dirs: Vec<Vec2>)
    requires
        1 <= s <= 1_000_000,
    ensures
        dirs@.len() >= 1,
        forall|i: int|
            0 <= i < dirs@.len() ==> (#[trigger] dirs@[i]).spec_norm_sq() == s * s && iabs(
                dirs@[i].x as int,
            ) <= s && iabs(dirs@[i].y as int) <= s,
{
    let mut dirs: Vec<Vec2> = Vec::new();
    dirs.push(Vec2 { x: s, y: 0 });
    dirs.push(Vec2 { x: -s, y: 0 });
    dirs.push(Vec2 { x: 0, y: s });
    dirs.push(Vec2 { x: 0, y: -s });
    proof {
        lemma_mul_bound(s as int, s as int, 1_000_000);
        assert((-s as int) * (-s as int) == (s as int) * (s as int)) by (nonlinear_arith);
        assert(forall|i: int|
            0 <= i < dirs@.len() ==> (#[trigger] dirs@[i]).spec_norm_sq() == s * s && iabs(
                dirs@[i].x as int,
            ) <= s && iabs(dirs@[i].y as int) <= s);
    }
    let s_sq: u64 = (s as u64) * (s as u64);
    let mut a: i64 = 1;
    while a < s
        invariant
            1 <= s <= 1_000_000,
            1 <= a,
            s_sq == (s as int) * (s as int),
            forall|i: int|
                0 <= i < dirs@.len() ==> (#[trigger] dirs@[i]).spec_norm_sq() == s * s && iabs(
                    dirs@[i].x as int,
                ) <= s && iabs(dirs@[i].y as int) <= s,
            dirs@.len() >= 1,
        decreases s - a,
    {
        proof {
            lemma_mul_bound(a as int, a as int, 1_000_000);
            lemma_mul_bound(s as int, s as int, 1_000_000);
            assert((a as int) * (a as int) <= (s as int) * (s as int)) by (nonlinear_arith)
                requires
                    1 <= a as int <= s as int,
            ;
        }
        let a_sq: u64 = (a as u64) * (a as u64);
        let rem: u64 = s_sq - a_sq;
        let b64: u64 = isqrt(rem);
        proof {
            lemma_sq_le_bound(b64 as int, rem as int, 1_000_000);
            assert((s as int) * (s as int) < ((s as int) + 1) * ((s as int) + 1))
                by (nonlinear_arith)
                requires
                    s as int >= 1,
            ;
            lemma_sq_le_bound(b64 as int, (s as int) * (s as int), s as int);
        }
        let b: i64 = b64 as i64;
        if b64 * b64 == rem {
            proof {
                assert((a as int) * (a as int) + (b as int) * (b as int) == (s as int) * (s as int));
                assert((-a as int) * (-a as int) == (a as int) * (a as int) && (-b as int) * (-b
                    as int) == (b as int) * (b as int)) by (nonlinear_arith);
            }
            dirs.push(Vec2 { x: a, y: b });
            dirs.push(Vec2 { x: -a, y: b });
            dirs.push(Vec2 { x: a, y: -b });
            dirs.push(Vec2 { x: -a, y: -b });
        }
        a = a + 1;
    }
    dirs
}

/// The simulation context: particle store, walls, control state and the
/// derived observables of the last analytics pass.
#[derive(Debug)]
pub struct Simulation {
    pub config: SimConfig,
    pub particles: Vec<Particle>,
    pub walls: Vec<Wall>,
    pub running: bool,
    pub slow_motion: u64,
    pub histogram: Vec<u64>,
    pub temperature: u128,
    pub entropy_milli: i64,
    pub curve: Vec<u64>,
}

impl Simulation {
    /// Well-formedness of the whole context.
    pub open spec fn wf(self) -> bool {
        &&& config_check(self.config) is None
        &&& self.particles@.len() == self.config.particle_count
        &&& forall|k: int| 0 <= k < self.particles@.len() ==> (#[trigger] self.particles@[k]).wf()
        &&& forall|k: int|
            0 <= k < self.particles@.len() ==> (#[trigger] self.particles@[k]).radius
                == self.config.particle_radius && self.particles@[k].mass
                == self.config.particle_mass
        &&& self.walls@.len() == 4
        &&& forall|w: int| 0 <= w < self.walls@.len() ==> (#[trigger] self.walls@[w]).wf()
        &&& 1 <= self.slow_motion <= SLOW_LIMIT
        &&& self.histogram@.len() == self.config.bin_count
    }

    /// The observables reflect the current ensemble.
    pub open spec fn analytics_current(self) -> bool {
        &&& self.temperature == temperature_spec(
            self.config.particle_mass as int,
            1,
            speeds_sq_of(self.particles@),
        )
        &&& forall|i: int|
            0 <= i < self.histogram@.len() ==> #[trigger] self.histogram@[i] == count_in_bin(
                speeds_sq_of(self.particles@),
                i,
                bin_width_spec(self.config),
            )
        &&& sum_counts(self.histogram@) <= self.particles@.len()
        &&& self.entropy_milli == entropy_milli_spec(
            self.config.particle_count as int,
            clamped_temperature(self.temperature as int),
            entropy_num_spec(self.config),
            entropy_den_spec(self.config),
        )
    }

    pub fn is_running(&self) -> (r: bool)
        ensures
            r == self.running,
    {
        self.running
    }

    pub fn slow_motion(&self) -> (r: u64)
        ensures
            r == self.slow_motion,
    {
        self.slow_motion
    }

    pub fn temperature(&self) -> (r: u128)
        ensures
            r == self.temperature,
    {
        self.temperature
    }

    pub fn entropy_milli(&self) -> (r: i64)
        ensures
            r == self.entropy_milli,
    {
        self.entropy_milli
    }

    pub fn particles(&self) -> (r: &Vec<Particle>)
        ensures
            r@ == self.particles@,
    {
        &self.particles
    }

    pub fn histogram(&self) -> (r: &Vec<u64>)
        ensures
            r@ == self.histogram@,
    {
        &self.histogram
    }

    pub fn curve_points(&self) -> (r: &Vec<u64>)
        ensures
            r@ == self.curve@,
    {
        &self.curve
    }

    /// Resumes or pauses the physics passes.
    pub fn set_running(&mut self, running: bool)
        ensures
            *final(self) == (Simulation { running, ..*old(self) }),
    {
        self.running = running;
    }

    /// Flips between paused and running.
    pub fn toggle_running(&mut self)
        ensures
            *final(self) == (Simulation { running: !old(self).running, ..*old(self) }),
    {
        self.running = !self.running;
    }

    /// Sets the slow-motion divisor; the caller keeps it at least one.
    pub fn set_slow_motion(&mut self, n: u64)
        requires
            1 <= n <= SLOW_LIMIT,
        ensures
            *final(self) == (Simulation { slow_motion: n, ..*old(self) }),
    {
        self.slow_motion = n;
    }

    /// Raises the slow-motion divisor by one, saturating at the limit.
    pub fn increase_slow_motion(&mut self)
        requires
            1 <= old(self).slow_motion <= SLOW_LIMIT,
        ensures
            *final(self) == (Simulation {
                slow_motion: if old(self).slow_motion < SLOW_LIMIT {
                    (old(self).slow_motion + 1) as u64
                } else {
                    old(self).slow_motion
                },
                ..*old(self)
            }),
    {
        if self.slow_motion < SLOW_LIMIT {
            self.slow_motion = self.slow_motion + 1;
        }
    }

    /// Builds a simulation from a configuration, rejecting an invalid one
    /// exactly as `config_check` says. On success the store holds the
    /// configured number of particles, laid out on the spawn grid with a
    /// fixed gap of four radii, each with a uniformly random direction of
    /// exactly the initial speed; the simulation starts paused with
    /// slow-motion divisor one, its observables computed and its reference
    /// curve fitted from the initial temperature.
    pub fn new(c: SimConfig) -> (r: Result<Simulation, ConfigError>)
        ensures
            r is Ok <==> config_check(c) is None,
            r matches Err(e) ==> config_check(c) == Some(e),
            r matches Ok(s) ==> s.wf() && s.config == c && !s.is_running_spec()
                && s.slow_motion_spec() == 1 && s.analytics_current(),
            r matches Ok(s) ==> forall|k: int|
                0 <= k < s.particle_seq().len() ==> (
                #[trigger] s.particle_seq()[k]).velocity.spec_norm_sq() == (c.initial_speed as int)
                    * (c.initial_speed as int),
            r matches Ok(s) ==> (s.particle_seq()[0].position.x as int,
            s.particle_seq()[0].position.y as int) == spawn_start(c),
            r matches Ok(s) ==> forall|k: int|
                0 <= k < s.particle_seq().len() - 1 ==> ((
                #[trigger] s.particle_seq()[k + 1]).position.x as int,
                s.particle_seq()[k + 1].position.y as int) == spawn_next(
                    c,
                    (s.particle_seq()[k].position.x as int, s.particle_seq()[k].position.y as int),
                ),
            r matches Ok(s) ==> s.walls@ == enclosure_walls(c),
            r matches Ok(s) ==> s.curve@.len() == CURVE_SAMPLES,
            r matches Ok(s) ==> forall|i: int|
                0 <= i < CURVE_SAMPLES ==> #[trigger] s.curve@[i] == mb_pdf_spec(
                    (i * max_speed_spec(c)) / (CURVE_SAMPLES as int),
                    curve_scale(c, s.temperature as int),
                ),
    {
        if c.particle_count == 0 {
            return Err(ConfigError::ZeroParticleCount);
        }
        if c.particle_radius <= 0 {
            return Err(ConfigError::NonPositiveRadius);
        }
        if c.particle_mass == 0 {
            return Err(ConfigError::ZeroMass);
        }
        if c.initial_speed <= 0 {
            return Err(ConfigError::NonPositiveSpeed);
        }
        if c.enclosure_width <= 0 || c.enclosure_height <= 0 {
            return Err(ConfigError::NonPositiveEnclosure);
        }
        if c.wall_thickness <= 0 {
            return Err(ConfigError::NonPositiveWallThickness);
        }
        if c.bin_count == 0 {
            return Err(ConfigError::ZeroBinCount);
        }
        if c.max_speed_multiplier <= 0 {
            return Err(ConfigError::NonPositiveMultiplier);
        }
        if c.particle_count > 10_000 || c.particle_radius > RADIUS_LIMIT || c.particle_mass
            > 1_000_000_000 || c.initial_speed > 1_000_000 || c.enclosure_width > 100_000_000
            || c.enclosure_height > 100_000_000 || c.wall_thickness >= c.enclosure_width
            || c.wall_thickness >= c.enclosure_height || c.bin_count > 1000
            || c.max_speed_multiplier > 1000 {
            return Err(ConfigError::OutOfRange);
        }
        proof {
            crate::num::lemma_mul_bound2(
                c.initial_speed as int,
                c.max_speed_multiplier as int,
                1_000_000,
                1000,
            );
            crate::num::lemma_mul_bound2(
                c.particle_count as int,
                4 * c.particle_radius as int,
                10_000,
                4_000_000,
            );
        }
        if c.initial_speed * c.max_speed_multiplier < c.bin_count as i64 || (c.particle_count
            as i64) * (4 * c.particle_radius) > 800_000_000 {
            return Err(ConfigError::OutOfRange);
        }
        let t = c.wall_thickness;
        let hori_offset = c.enclosure_width / 2;
        let vert_offset = (c.enclosure_height - t) / 2;
        let mut walls: Vec<Wall> = Vec::new();
        walls.push(
            Wall {
                center: Vec2 { x: -hori_offset, y: 0 },
                width: t,
                height: c.enclosure_height,
                orientation: WallOrientation::Vertical,
            },
        );
        walls.push(
            Wall {
                center: Vec2 { x: hori_offset, y: 0 },
                width: t,
                height: c.enclosure_height,
                orientation: WallOrientation::Vertical,
            },
        );
        walls.push(
            Wall {
                center: Vec2 { x: 0, y: vert_offset },
                width: c.enclosure_width,
                height: t,
                orientation: WallOrientation::Horizontal,
            },
        );
        walls.push(
            Wall {
                center: Vec2 { x: 0, y: -vert_offset },
                width: c.enclosure_width,
                height: t,
                orientation: WallOrientation::Horizontal,
            },
        );
        proof {
            assert(walls@ =~= enclosure_walls(c));
        }
        let dirs = speed_directions(c.initial_speed);
        let gap: i64 = 4 * c.particle_radius;
        let start_x: i64 = -hori_offset - t / 2 + 2 * t;
        let start_y: i64 = vert_offset + t / 2 - 2 * t;
        let right: i64 = hori_offset + t / 2 - 2 * t;
        let mut particles: Vec<Particle> = Vec::new();
        let mut sx: i64 = start_x;
        let mut sy: i64 = start_y;
        let mut i: usize = 0;
        while i < c.particle_count
            invariant
                config_check(c) is None,
                i <= c.particle_count,
                particles@.len() == i,
                gap == 4 * c.particle_radius as int,
                1 <= gap <= 4_000_000,
                start_x == spawn_start(c).0,
                start_y == spawn_start(c).1,
                right == c.enclosure_width as int / 2 + c.wall_thickness as int / 2 - 2
                    * c.wall_thickness,
                iabs(start_x as int) <= 300_000_000,
                iabs(start_y as int) <= 300_000_000,
                start_y >= -200_000_000,
                iabs(right as int) <= 300_000_000,
                sx >= start_x,
                sx == start_x || sx < right,
                (i as int) * gap <= 800_000_000,
                start_y - (i as int) * gap <= sy <= start_y,
                dirs@.len() >= 1,
                forall|d: int|
                    0 <= d < dirs@.len() ==> (#[trigger] dirs@[d]).spec_norm_sq() == (
                    c.initial_speed as int) * (c.initial_speed as int) && iabs(dirs@[d].x as int)
                        <= c.initial_speed && iabs(dirs@[d].y as int) <= c.initial_speed,
                forall|k: int| 0 <= k < i ==> (#[trigger] particles@[k]).wf(),
                forall|k: int|
                    0 <= k < i ==> (#[trigger] particles@[k]).radius == c.particle_radius
                        && particles@[k].mass == c.particle_mass,
                forall|k: int|
                    0 <= k < i ==> (#[trigger] particles@[k]).velocity.spec_norm_sq() == (
                    c.initial_speed as int) * (c.initial_speed as int),
                i > 0 ==> (particles@[0].position.x as int, particles@[0].position.y as int)
                    == spawn_start(c),
                forall|k: int|
                    0 <= k < i - 1 ==> ((#[trigger] particles@[k + 1]).position.x as int,
                    particles@[k + 1].position.y as int) == spawn_next(
                        c,
                        (particles@[k].position.x as int, particles@[k].position.y as int),
                    ),
                i > 0 ==> (sx as int, sy as int) == spawn_next(
                    c,
                    (particles@[i - 1].position.x as int, particles@[i - 1].position.y as int),
                ),
                i == 0 ==> (sx as int, sy as int) == spawn_start(c),
            decreases c.particle_count - i,
        {
            let idx = random_below(dirs.len());
            let v = dirs[idx];
            particles.push(
                Particle {
                    position: Vec2 { x: sx, y: sy },
                    velocity: v,
                    radius: c.particle_radius,
                    mass: c.particle_mass,
                },
            );
            proof {
                assert((i as int + 1) * gap == (i as int) * gap + gap) by (nonlinear_arith);
                assert((i as int) * gap >= 0) by (nonlinear_arith)
                    requires
                        i as int >= 0,
                        gap >= 1,
                ;
                assert((i as int + 1) * gap <= (c.particle_count as int) * gap)
                    by (nonlinear_arith)
                    requires
                        i as int + 1 <= c.particle_count as int,
                        gap >= 0,
                ;
                assert((c.particle_count as int) * gap <= 800_000_000);
            }
            if sx + gap < right {
                sx = sx + gap;
            } else {
                sy = sy - gap;
                sx = start_x;
            }
            i = i + 1;
        }
        let mut histogram: Vec<u64> = Vec::new();
        let mut z: usize = 0;
        while z < c.bin_count
            invariant
                z <= c.bin_count,
                histogram@.len() == z,
            decreases c.bin_count - z,
        {
            histogram.push(0);
            z = z + 1;
        }
        let mut sim = Simulation {
            config: c,
            particles,
            walls,
            running: false,
            slow_motion: 1,
            histogram,
            temperature: 0,
            entropy_milli: 0,
            curve: Vec::new(),
        };
        sim.refresh_analytics();
        let t0 = sim.temperature;
        let a_sq: u64 = if t0 < 1 {
            1
        } else {
            let scaled = t0 / (c.particle_mass as u128);
            if scaled < 1 {
                1
            } else if scaled > 1_000_000_000_000_000_000 {
                1_000_000_000_000_000_000
            } else {
                scaled as u64
            }
        };
        proof {
            crate::num::lemma_mul_bound2(
                c.initial_speed as int,
                c.max_speed_multiplier as int,
                1_000_000,
                1000,
            );
        }
        let ms: u64 = (c.initial_speed as u64) * (c.max_speed_multiplier as u64);
        proof {
            assert(a_sq as int == curve_scale(c, t0 as int));
            assert(ms as int == max_speed_spec(c));
        }
        let curve = sample_curve(CURVE_SAMPLES, ms, a_sq);
        sim.curve = curve;
        Ok(sim)
    }

    /// Whether the physics passes run (spec view).
    pub open spec fn is_running_spec(self) -> bool {
        self.running
    }

    /// The slow-motion divisor (spec view).
    pub open spec fn slow_motion_spec(self) -> int {
        self.slow_motion as int
    }

    /// The particle store (spec view).
    pub open spec fn particle_seq(self) -> Seq<Particle> {
        self.particles@
    }

    /// Recomputes temperature, histogram and entropy from the current
    /// ensemble.
    fn refresh_analytics(&mut self)
        requires
            old(self).wf(),
        ensures
            final(self).wf(),
            final(self).particles@ == old(self).particles@,
            final(self).config == old(self).config,
            final(self).walls@ == old(self).walls@,
            final(self).running == old(self).running,
            final(self).slow_motion == old(self).slow_motion,
            final(self).curve@ == old(self).curve@,
            final(self).analytics_current(),
    {
        let c = self.config;
        let n = self.particles.len();
        let mut speeds: Vec<u64> = Vec::new();
        let mut k: usize = 0;
        while k < n
            invariant
                n == self.particles@.len(),
                k <= n,
                forall|t: int|
                    0 <= t < self.particles@.len() ==> (#[trigger] self.particles@[t]).wf(),
                speeds@.len() == k,
                forall|t: int|
                    0 <= t < k ==> #[trigger] speeds@[t] == speeds_sq_of(self.particles@)[t],
                forall|t: int| 0 <= t < k ==> #[trigger] speeds@[t] <= 2_000_000_000_000_000_000,
            decreases n - k,
        {
            let p = self.particles[k];
            proof {
                assert(self.particles@[k as int].wf());
            }
            let sq = p.velocity.norm_sq();
            proof {
                assert(0 <= p.velocity.spec_norm_sq() <= 2_000_000_000_000_000_000)
                    by (nonlinear_arith)
                    requires
                        p.velocity.spec_norm_sq() == p.velocity.x * p.velocity.x + p.velocity.y
                            * p.velocity.y,
                        iabs(p.velocity.x as int) <= 1_000_000_000,
                        iabs(p.velocity.y as int) <= 1_000_000_000,
                ;
            }
            speeds.push(sq as u64);
            k = k + 1;
        }
        proof {
            assert(speeds@ =~= speeds_sq_of(self.particles@));
        }
        let t = calculate_temperature(c.particle_mass, 1, &speeds);
        self.temperature = t;
        proof {
            crate::num::lemma_mul_bound2(c.initial_speed as int, c.max_speed_multiplier as int, 1_000_000, 1000);
        }
        let ms: u64 = (c.initial_speed as u64) * (c.max_speed_multiplier as u64);
        proof {
            lemma_fundamental_div_mod(ms as int, c.bin_count as int);
            lemma_remainder_lower(ms as int, c.bin_count as int);
            vstd::arithmetic::div_mod::lemma_div_by_self(c.bin_count as int);
            vstd::arithmetic::div_mod::lemma_div_is_ordered(
                c.bin_count as int,
                ms as int,
                c.bin_count as int,
            );
            assert((c.bin_count as int) * (bin_width_spec(c)) <= ms as int) by (nonlinear_arith)
                requires
                    ms as int == (c.bin_count as int) * (ms as int / c.bin_count as int) + (
                    ms as int % c.bin_count as int),
                    ms as int % c.bin_count as int >= 0,
                    bin_width_spec(c) == ms as int / c.bin_count as int,
            ;
        }
        let bw: u64 = ms / (c.bin_count as u64);
        let counts = update_histogram(&speeds, bw, c.bin_count);
        self.histogram = counts;
        let te: u64 = if t < 1 {
            1
        } else if t > 1_000_000_000 {
            1_000_000_000
        } else {
            t as u64
        };
        let cnum: u64 = 6283 * (c.particle_count as u64);
        proof {
            crate::num::lemma_mul_bound2(
                (c.enclosure_width - c.wall_thickness) as int,
                (c.enclosure_height - c.wall_thickness) as int,
                100_000_000,
                100_000_000,
            );
        }
        let area: u128 = ((c.enclosure_width - c.wall_thickness) as u128) * ((c.enclosure_height
            - c.wall_thickness) as u128);
        proof {
            assert(1 <= area as int) by (nonlinear_arith)
                requires
                    area as int == ((c.enclosure_width - c.wall_thickness) as int) * ((
                    c.enclosure_height - c.wall_thickness) as int),
                    (c.enclosure_width - c.wall_thickness) as int >= 1,
                    (c.enclosure_height - c.wall_thickness) as int >= 1,
            ;
            crate::num::lemma_mul_bound2(
                1000 * area as int,
                c.particle_mass as int,
                100_000_000_000_000_000_000,
                1_000_000_000,
            );
            assert(1 <= (1000 * area as int) * (c.particle_mass as int)) by (nonlinear_arith)
                requires
                    area as int >= 1,
                    c.particle_mass as int >= 1,
            ;
        }
        let raw: u128 = (1000 * area) * (c.particle_mass as u128);
        let cden: u64 = if raw > 18_000_000_000 {
            18_000_000_000
        } else {
            raw as u64
        };
        proof {
            crate::num::lemma_mul_bound2(cden as int, te as int, 18_000_000_000, 1_000_000_000);
        }
        let e = calculate_entropy(c.particle_count as u64, te, cnum, cden);
        self.entropy_milli = e;
        proof {
            assert(1000 * area_spec(c) * (c.particle_mass as int) == (1000 * area as int) * (
            c.particle_mass as int)) by (nonlinear_arith)
                requires
                    area as int == area_spec(c),
            ;
        }
    }

    /// One simulation tick: integrate, resolve particle-particle collisions,
    /// resolve particle-wall collisions, then recompute the observables.
    /// When paused, nothing at all happens; the last observables stay
    /// readable.
    pub fn advance(&mut self, dt_millis: u64)
        requires
            old(self).wf(),
            dt_millis <= DT_LIMIT,
        ensures
            final(self).wf(),
            final(self).config == old(self).config,
            final(self).walls@ == old(self).walls@,
            final(self).running == old(self).running,
            final(self).slow_motion == old(self).slow_motion,
            final(self).curve@ == old(self).curve@,
            !old(self).running ==> *final(self) == *old(self),
            old(self).running ==> final(self).particles@ == tick_spec(
                old(self).particles@,
                old(self).walls@,
                dt_millis as int,
                old(self).slow_motion as int,
            ),
            old(self).running ==> final(self).analytics_current(),
    {
        if !self.running {
            return ;
        }
        let c = self.config;
        let slow = self.slow_motion;
        let ghost s0 = self.particles@;
        advance_positions(&mut self.particles, dt_millis, slow);
        proof {
            assert forall|k: int| 0 <= k < self.particles@.len() implies (
            #[trigger] self.particles@[k]).radius == c.particle_radius && self.particles@[k].mass
                == c.particle_mass by {
                assert(old(self).particles@[k].wf());
            }
            assert(self.particles@ =~= s0.map(
                |k: int, p: Particle| advanced_particle(p, dt_millis as int, slow as int),
            ));
        }
        let ghost s1 = self.particles@;
        resolve_particle_collisions(&mut self.particles);
        let ghost s2 = self.particles@;
        resolve_wall_collisions(&mut self.particles, &self.walls);
        proof {
            assert(self.particles@ =~= s2.map(
                |k: int, p: Particle| wall_pass_particle(p, self.walls@),
            ));
            assert(self.particles@ == tick_spec(s0, self.walls@, dt_millis as int, slow as int));
        }
        self.refresh_analytics();
    }

    /// Lowers the slow-motion divisor by one, never below one.
    pub fn decrease_slow_motion(&mut self)
        requires
            1 <= old(self).slow_motion,
        ensures
            *final(self) == (Simulation {
                slow_motion: if old(self).slow_motion >= 2 {
                    (old(self).slow_motion - 1) as u64
                } else {
                    old(self).slow_motion
                },
                ..*old(self)
            }),
    {
        if self.slow_motion >= 2 {
            self.slow_motion = self.slow_motion - 1;
        }
    }
}

} // verus!
