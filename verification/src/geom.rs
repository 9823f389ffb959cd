//! Circle-circle collision geometry: the overlap test and the positional
//! de-penetration step. The de-penetration rounds its half-shift away from
//! zero, which is what guarantees that a corrected pair ends up disjoint or
//! tangent in exact integer arithmetic.
use crate::num::{
    div_ceil, div_ceil_u128, iabs, isqrt, lemma_mul_bound, lemma_sqrt_floor_bounds, sqrt_floor,
};
use crate::vec2::Vec2;
use vstd::arithmetic::div_mod::lemma_multiply_divide_lt;
use vstd::prelude::*;

verus! {

/// Largest particle radius the engine accepts.
pub const RADIUS_LIMIT: i64 = 1_000_000;

/// Two circles overlap when their centers are strictly closer than the sum of
/// the radii; tangent circles do not overlap.
pub open spec fn particles_overlap_spec(x1: Vec2, x2: Vec2, r1: int, r2: int) -> bool {
    let dx = x1.x - x2.x;
    let dy = x1.y - x2.y;
    dx * dx + dy * dy < (r1 + r2) * (r1 + r2)
}

/// Bounding-circle intersection test, exact.
pub fn particles_overlap(x1: &Vec2, x2: &Vec2, r1: i64, r2: i64) -> (r: bool)
    requires
        x1.in_range(),
        x2.in_range(),
        0 <= r1 <= RADIUS_LIMIT,
        0 <= r2 <= RADIUS_LIMIT,
    ensures
        r == particles_overlap_spec(*x1, *x2, r1 as int, r2 as int),
{
    let d = x1.sub(x2);
    let dx = d.x as i128;
    let dy = d.y as i128;
    let rr = (r1 + r2) as i128;
    proof {
        lemma_mul_bound(dx as int, dx as int, 2_000_000_000_000);
        lemma_mul_bound(dy as int, dy as int, 2_000_000_000_000);
        lemma_mul_bound(rr as int, rr as int, 2_000_000);
    }
    dx * dx + dy * dy < rr * rr
}

/// The half-shift applied to the first particle of an overlapping pair (the
/// second particle moves by its negation). The direction is from the second
/// center toward the first; a coincident pair falls back to the positive x
/// axis. The magnitude rounds `(R - u) * |d|_i / (2u)` up, where `u` is the
/// integer square root of the squared center distance and `R` the radius sum.
pub open spec fn separation_delta(x1: Vec2, x2: Vec2, r1: int, r2: int) -> (int, int) {
    let dx = x1.x - x2.x;
    let dy = x1.y - x2.y;
    let rr = r1 + r2;
    if dx == 0 && dy == 0 {
        // coincident centers: no line of centers exists, so push the pair
        // apart along the positive x axis, half the radius sum each way.
        ((rr + 1) / 2, 0)
    } else {
        let q = dx * dx + dy * dy;
        let u = sqrt_floor(q as nat) as int;
        let cx = div_ceil((rr - u) * iabs(dx), 2 * u);
        let cy = div_ceil((rr - u) * iabs(dy), 2 * u);
        (
            if dx >= 0 {
                cx
            } else {
                -cx
            },
            if dy >= 0 {
                cy
            } else {
                -cy
            },
        )
    }
}

/// A square is monotone: below the square of a bound means below the bound.
proof fn lemma_sq_lt_implies_lt(a: int, b: int)
    by (nonlinear_arith)
    requires
        0 <= a,
        0 <= b,
        a * a < (b + 1) * (b + 1),
    ensures
        a <= b,
{
}

/// One component of the separation argument: the shifted component `dd`,
/// scaled by `u`, dominates the original component scaled by `rr`.
proof fn lemma_component_dominates(d: int, c: int, u: int, rr: int, dd: int)
    by (nonlinear_arith)
    requires
        1 <= u,
        u < rr,
        0 <= c,
        iabs(d) <= u,
        2 * u * c >= (rr - u) * iabs(d),
        dd == d + 2 * (if d >= 0 {
            c
        } else {
            -c
        }),
    ensures
        u * u * (dd * dd) >= rr * rr * (d * d),
{
}

/// Combining both components: the corrected pair is at squared distance at
/// least `rr * rr`.
proof fn lemma_separated(dx: int, dy: int, u: int, rr: int, ddx: int, ddy: int)
    by (nonlinear_arith)
    requires
        1 <= u,
        u * u <= dx * dx + dy * dy,
        u * u * (ddx * ddx) >= rr * rr * (dx * dx),
        u * u * (ddy * ddy) >= rr * rr * (dy * dy),
        rr >= 0,
    ensures
        ddx * ddx + ddy * ddy >= rr * rr,
{
}

/// Positional correction for an overlapping pair: returns the two centers
/// moved apart along the line of centers so that the circles no longer
/// overlap (they end up disjoint or tangent). Neither center moves farther
/// than the radius sum.
pub fn separate_particles(x1: &Vec2, x2: &Vec2, r1: i64, r2: i64) -> (r: (Vec2, Vec2))
    requires
        x1.in_range(),
        x2.in_range(),
        1 <= r1 <= RADIUS_LIMIT,
        1 <= r2 <= RADIUS_LIMIT,
        particles_overlap_spec(*x1, *x2, r1 as int, r2 as int),
    ensures
        r.0.x - x1.x == separation_delta(*x1, *x2, r1 as int, r2 as int).0,
        r.0.y - x1.y == separation_delta(*x1, *x2, r1 as int, r2 as int).1,
        x2.x - r.1.x == separation_delta(*x1, *x2, r1 as int, r2 as int).0,
        x2.y - r.1.y == separation_delta(*x1, *x2, r1 as int, r2 as int).1,
        !particles_overlap_spec(r.0, r.1, r1 as int, r2 as int),
        iabs(r.0.x - x1.x) <= r1 + r2,
        iabs(r.0.y - x1.y) <= r1 + r2,
{
    let d0 = x1.sub(x2);
    let rr0: i64 = r1 + r2;
    if d0.x == 0 && d0.y == 0 {
        let s: i64 = (rr0 + 1) / 2;
        let n1 = Vec2 { x: x1.x + s, y: x1.y };
        let n2 = Vec2 { x: x2.x - s, y: x2.y };
        proof {
            assert(2 * s >= rr0);
            assert((2 * s) * (2 * s) >= rr0 * rr0) by (nonlinear_arith)
                requires
                    2 * s >= rr0 >= 0,
            ;
            assert(n1.x - n2.x == 2 * s);
            assert(s <= rr0);
        }
        return (n1, n2);
    }
    let (dx, dy): (i64, i64) = (d0.x, d0.y);
    let adx: i64 = if dx >= 0 {
        dx
    } else {
        -dx
    };
    let ady: i64 = if dy >= 0 {
        dy
    } else {
        -dy
    };
    let rr: i64 = rr0;
    proof {
        lemma_mul_bound(dx as int, dx as int, 2_000_000_000_000);
        lemma_mul_bound(dy as int, dy as int, 2_000_000_000_000);
        lemma_mul_bound(rr as int, rr as int, 2_000_000);
    }
    let q: i128 = (dx as i128) * (dx as i128) + (dy as i128) * (dy as i128);
    assert(q < (rr as i128) * (rr as i128));
    assert(q >= 1) by (nonlinear_arith)
        requires
            q == dx * dx + dy * dy,
            dx != 0 || dy != 0,
    ;
    let u: u64 = isqrt(q as u64);
    proof {
        lemma_sqrt_floor_bounds(q as nat);
        // u is at least 1 because q is at least 1, and below rr because
        // u * u <= q < rr * rr.
        assert(u >= 1) by (nonlinear_arith)
            requires
                q >= 1,
                u >= 0,
                q < (u + 1) * (u + 1),
        ;
        lemma_sq_lt_implies_lt(u as int, (rr - 1) as int);
        // each component is bounded by u because its square is below
        // (u + 1) * (u + 1).
        assert(adx * adx <= q && ady * ady <= q) by (nonlinear_arith)
            requires
                q == dx * dx + dy * dy,
                adx == iabs(dx as int),
                ady == iabs(dy as int),
        ;
        lemma_sq_lt_implies_lt(adx as int, u as int);
        lemma_sq_lt_implies_lt(ady as int, u as int);
    }
    let gap: u64 = (rr - u as i64) as u64;
    proof {
        lemma_mul_bound(gap as int, adx as int, 2_000_000);
        lemma_mul_bound(gap as int, ady as int, 2_000_000);
    }
    let cx128 = div_ceil_u128((gap as u128) * (adx as u128), 2 * (u as u128));
    let cy128 = div_ceil_u128((gap as u128) * (ady as u128), 2 * (u as u128));
    proof {
        // the rounded shifts stay below rr: gap * a + 2u - 1 < 2u * rr.
        assert((gap as int) * (adx as int) + 2 * (u as int) - 1 < 2 * (u as int) * (rr as int))
            by (nonlinear_arith)
            requires
                1 <= (u as int),
                iabs(dx as int) <= u as int,
                adx == iabs(dx as int),
                gap == rr - u as int,
                (u as int) < (rr as int),
        ;
        lemma_multiply_divide_lt(
            (gap as int) * (adx as int) + 2 * (u as int) - 1,
            2 * (u as int),
            rr as int,
        );
        assert((gap as int) * (ady as int) + 2 * (u as int) - 1 < 2 * (u as int) * (rr as int))
            by (nonlinear_arith)
            requires
                1 <= (u as int),
                iabs(dy as int) <= u as int,
                ady == iabs(dy as int),
                gap == rr - u as int,
                (u as int) < (rr as int),
        ;
        lemma_multiply_divide_lt(
            (gap as int) * (ady as int) + 2 * (u as int) - 1,
            2 * (u as int),
            rr as int,
        );
    }
    let cx = cx128 as i64;
    let cy = cy128 as i64;
    let sx: i64 = if dx >= 0 {
        cx
    } else {
        -cx
    };
    let sy: i64 = if dy >= 0 {
        cy
    } else {
        -cy
    };
    let n1 = Vec2 { x: x1.x + sx, y: x1.y + sy };
    let n2 = Vec2 { x: x2.x - sx, y: x2.y - sy };
    proof {
        assert(2 * (u as int) * (cx as int) >= (gap as int) * (adx as int)) by (nonlinear_arith)
            requires
                (cx128 as int) * (2 * (u as int)) >= (gap as int) * (adx as int),
                cx as int == cx128 as int,
        ;
        assert(2 * (u as int) * (cy as int) >= (gap as int) * (ady as int)) by (nonlinear_arith)
            requires
                (cy128 as int) * (2 * (u as int)) >= (gap as int) * (ady as int),
                cy as int == cy128 as int,
        ;
        lemma_component_dominates(dx as int, cx as int, u as int, rr as int, dx + 2 * sx);
        lemma_component_dominates(dy as int, cy as int, u as int, rr as int, dy + 2 * sy);
        lemma_separated(dx as int, dy as int, u as int, rr as int, dx + 2 * sx, dy + 2 * sy);
        assert(n1.x - n2.x == dx + 2 * sx && n1.y - n2.y == dy + 2 * sy);
        assert(sx == separation_delta(*x1, *x2, r1 as int, r2 as int).0);
        assert(sy == separation_delta(*x1, *x2, r1 as int, r2 as int).1);
    }
    (n1, n2)
}

} // verus!
