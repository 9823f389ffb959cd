//! Walls: the four immutable axis-aligned slabs that enclose the gas, the
//! circle-rectangle overlap test, and particle-wall collision resolution.
//! A wall reflects the velocity component along its thin axis and pushes the
//! particle back out to the inner boundary.
use crate::num::{iabs, lemma_mul_bound};
use crate::particle::{Particle, POS_LIMIT, VEL_LIMIT};
use crate::vec2::Vec2;
use vstd::prelude::*;

verus! {

/// Which way a wall runs; a horizontal wall is thin along y, a vertical wall
/// thin along x.
#[derive(Clone, Copy, Debug, PartialEq, Eq, Structural)]
pub enum WallOrientation {
    Horizontal,
    Vertical,
}

/// An axis-aligned rectangular slab, symmetric about its center.
#[derive(Clone, Copy, Debug, PartialEq, Eq, Structural)]
pub struct Wall {
    pub center: Vec2,
    pub width: i64,
    pub height: i64,
    pub orientation: WallOrientation,
}

impl Wall {
    /// Well-formedness: within the arena, positive extents.
    pub open spec fn wf(self) -> bool {
        &&& iabs(self.center.x as int) <= POS_LIMIT as int
        &&& iabs(self.center.y as int) <= POS_LIMIT as int
        &&& 1 <= self.width <= POS_LIMIT
        &&& 1 <= self.height <= POS_LIMIT
    }

    /// The wall's extent along its thin axis.
    pub open spec fn spec_thickness(self) -> int {
        match self.orientation {
            WallOrientation::Horizontal => self.height as int,
            WallOrientation::Vertical => self.width as int,
        }
    }

    pub fn thickness(&self) -> (t: i64)
        ensures
            t == self.spec_thickness(),
    {
        match self.orientation {
            WallOrientation::Horizontal => self.height,
            WallOrientation::Vertical => self.width,
        }
    }
}

/// Clamping a value into an interval.
pub open spec fn clamp_spec(v: int, lo: int, hi: int) -> int {
    if v < lo {
        lo
    } else if v > hi {
        hi
    } else {
        v
    }
}

/// A particle's bounding circle intersects a wall's bounding rectangle when
/// the clamped (closest) point of the rectangle is strictly within the
/// radius.
pub open spec fn wall_overlap_spec(p: Vec2, radius: int, w: Wall) -> bool {
    let hw = w.width as int / 2;
    let hh = w.height as int / 2;
    let cx = clamp_spec(p.x as int, w.center.x - hw, w.center.x + hw);
    let cy = clamp_spec(p.y as int, w.center.y - hh, w.center.y + hh);
    (p.x - cx) * (p.x - cx) + (p.y - cy) * (p.y - cy) < radius * radius
}

/// Circle versus axis-aligned rectangle intersection test, exact.
pub fn wall_overlap(p: &Vec2, radius: i64, w: &Wall) -> (r: bool)
    requires
        p.in_range(),
        0 <= radius <= crate::geom::RADIUS_LIMIT,
        w.wf(),
    ensures
        r == wall_overlap_spec(*p, radius as int, *w),
{
    let hw = w.width / 2;
    let hh = w.height / 2;
    let lox = w.center.x - hw;
    let hix = w.center.x + hw;
    let loy = w.center.y - hh;
    let hiy = w.center.y + hh;
    let cx: i64 = if p.x < lox {
        lox
    } else if p.x > hix {
        hix
    } else {
        p.x
    };
    let cy: i64 = if p.y < loy {
        loy
    } else if p.y > hiy {
        hiy
    } else {
        p.y
    };
    let dx = (p.x - cx) as i128;
    let dy = (p.y - cy) as i128;
    proof {
        lemma_mul_bound(dx as int, dx as int, 2_000_000_000_000);
        lemma_mul_bound(dy as int, dy as int, 2_000_000_000_000);
        lemma_mul_bound(radius as int, radius as int, 2_000_000);
    }
    dx * dx + dy * dy < (radius as i128) * (radius as i128)
}

/// The signed overlap of a particle past a wall's inner boundary, measured
/// along the wall's thin axis only; the sign points toward the wall. Walls
/// are assumed to sit on opposite sides of the origin, so the side is read
/// off the sign of the wall-center coordinate.
pub open spec fn wall_penetration_spec(p: Vec2, radius: int, w: Wall) -> (int, int) {
    let ht = w.spec_thickness() / 2;
    match w.orientation {
        WallOrientation::Horizontal => {
            if w.center.y > 0 {
                (0, (p.y + radius) - (w.center.y - ht))
            } else {
                (0, (p.y - radius) - (w.center.y + ht))
            }
        },
        WallOrientation::Vertical => {
            if w.center.x > 0 {
                ((p.x + radius) - (w.center.x - ht), 0)
            } else {
                ((p.x - radius) - (w.center.x + ht), 0)
            }
        },
    }
}

/// Velocity after bouncing off a wall: the component along the thin axis is
/// negated, the other kept.
pub open spec fn reflect_spec(v: Vec2, o: WallOrientation) -> (int, int) {
    match o {
        WallOrientation::Horizontal => (v.x as int, -v.y),
        WallOrientation::Vertical => (-v.x, v.y as int),
    }
}

/// The particle state after one particle-wall resolution: untouched when
/// there is no overlap; otherwise the velocity is reflected and the position
/// shifted back by the penetration, the shift skipped if it would leave the
/// arena.
pub open spec fn wall_resolution(p: Particle, w: Wall) -> Particle {
    if !wall_overlap_spec(p.position, p.radius as int, w) {
        p
    } else {
        let (vx, vy) = reflect_spec(p.velocity, w.orientation);
        let (sx, sy) = wall_penetration_spec(p.position, p.radius as int, w);
        let nx = p.position.x - sx;
        let ny = p.position.y - sy;
        let pos = if iabs(nx) <= POS_LIMIT as int && iabs(ny) <= POS_LIMIT as int {
            Vec2 { x: nx as i64, y: ny as i64 }
        } else {
            p.position
        };
        Particle {
            position: pos,
            velocity: Vec2 { x: vx as i64, y: vy as i64 },
            radius: p.radius,
            mass: p.mass,
        }
    }
}

/// A particle after being resolved against each wall of a sequence, in
/// order: the left fold of `wall_resolution` over the walls.
pub open spec fn wall_pass_particle(p: Particle, walls: Seq<Wall>) -> Particle
    decreases walls.len(),
{
    if walls.len() == 0 {
        p
    } else {
        wall_pass_particle(wall_resolution(p, walls.first()), walls.drop_first())
    }
}

/// Appending one wall to the pass resolves against it last.
pub proof fn lemma_wall_pass_push(p: Particle, walls: Seq<Wall>, w: Wall)
    ensures
        wall_pass_particle(p, walls.push(w)) == wall_resolution(wall_pass_particle(p, walls), w),
    decreases walls.len(),
{
    if walls.len() == 0 {
        assert(walls.push(w).drop_first() =~= Seq::<Wall>::empty());
        assert(walls.push(w).first() == w);
        assert(wall_pass_particle(wall_resolution(p, w), Seq::<Wall>::empty()) == wall_resolution(
            p,
            w,
        ));
        assert(wall_pass_particle(p, Seq::<Wall>::empty()) == p);
    } else {
        assert(walls.push(w).first() == walls.first());
        assert(walls.push(w).drop_first() =~= walls.drop_first().push(w));
        lemma_wall_pass_push(wall_resolution(p, walls.first()), walls.drop_first(), w);
    }
}

/// Resolves one particle against one wall. On overlap the velocity component
/// along the wall's thin axis is exactly negated, so the squared speed is
/// always preserved; the position is pushed back out along that axis.
pub fn resolve_wall_collision(p: &mut Particle, w: &Wall)
    requires
        old(p).wf(),
        w.wf(),
    ensures
        *final(p) == wall_resolution(*old(p), *w),
        final(p).wf(),
        final(p).radius == old(p).radius,
        final(p).mass == old(p).mass,
        final(p).velocity.spec_norm_sq() == old(p).velocity.spec_norm_sq(),
{
    if wall_overlap(&p.position, p.radius, w) {
        match w.orientation {
            WallOrientation::Horizontal => {
                p.velocity = Vec2 { x: p.velocity.x, y: -p.velocity.y };
            },
            WallOrientation::Vertical => {
                p.velocity = Vec2 { x: -p.velocity.x, y: p.velocity.y };
            },
        }
        let ht = w.thickness() / 2;
        let (sx, sy): (i64, i64) = match w.orientation {
            WallOrientation::Horizontal => {
                if w.center.y > 0 {
                    (0, (p.position.y + p.radius) - (w.center.y - ht))
                } else {
                    (0, (p.position.y - p.radius) - (w.center.y + ht))
                }
            },
            WallOrientation::Vertical => {
                if w.center.x > 0 {
                    ((p.position.x + p.radius) - (w.center.x - ht), 0)
                } else {
                    ((p.position.x - p.radius) - (w.center.x + ht), 0)
                }
            },
        };
        let nx = p.position.x - sx;
        let ny = p.position.y - sy;
        let fits = -POS_LIMIT <= nx && nx <= POS_LIMIT && -POS_LIMIT <= ny && ny <= POS_LIMIT;
        if fits {
            p.position = Vec2 { x: nx, y: ny };
        }
        proof {
            let po = *old(p);
            let (rvx, rvy) = reflect_spec(po.velocity, w.orientation);
            assert(p.velocity.x == rvx && p.velocity.y == rvy);
            assert(p.velocity.spec_norm_sq() == po.velocity.spec_norm_sq()) by (nonlinear_arith)
                requires
                    p.velocity.x as int == rvx,
                    p.velocity.y as int == rvy,
                    (rvx == po.velocity.x && rvy == -po.velocity.y) || (rvx == -po.velocity.x && rvy
                        == po.velocity.y),
                    p.velocity.spec_norm_sq() == p.velocity.x * p.velocity.x + p.velocity.y
                        * p.velocity.y,
                    po.velocity.spec_norm_sq() == po.velocity.x * po.velocity.x + po.velocity.y
                        * po.velocity.y,
            ;
        }
    }
}

} // verus!
