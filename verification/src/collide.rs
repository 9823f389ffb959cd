//! The elastic-collision impulse for two particles of equal mass, and the
//! conservation laws it obeys. The velocity change is
//! `-(((v1-v2)·(x1-x2)) / |x1-x2|^2) * (x1-x2)`, applied with opposite signs
//! to the two particles; each component is computed with division truncated
//! toward zero.
use crate::num::{
    div_trunc, div_trunc_i128, iabs, lemma_div_trunc_abs, lemma_mul_bound, lemma_mul_bound2,
};
use crate::particle::VEL_LIMIT;
use crate::vec2::Vec2;
use vstd::arithmetic::div_mod::{
    lemma_div_multiples_vanish, lemma_fundamental_div_mod, lemma_remainder_lower,
    lemma_remainder_upper,
};
use vstd::prelude::*;

verus! {

/// The squared distance between the two centers.
pub open spec fn pair_q(x1: Vec2, x2: Vec2) -> int {
    let dx = x1.x - x2.x;
    let dy = x1.y - x2.y;
    dx * dx + dy * dy
}

/// The projection numerator: relative velocity dotted with the line of
/// centers.
pub open spec fn pair_s(x1: Vec2, x2: Vec2, v1: Vec2, v2: Vec2) -> int {
    let dx = x1.x - x2.x;
    let dy = x1.y - x2.y;
    (v1.x - v2.x) * dx + (v1.y - v2.y) * dy
}

/// The velocity change of the first particle (the second receives its
/// negation): `-(s/q) * (x1 - x2)`, each component truncated toward zero.
pub open spec fn velocity_delta_spec(x1: Vec2, x2: Vec2, v1: Vec2, v2: Vec2) -> (int, int) {
    let dx = x1.x - x2.x;
    let dy = x1.y - x2.y;
    let s = pair_s(x1, x2, v1, v2);
    let q = pair_q(x1, x2);
    (div_trunc(-(s * dx), q), div_trunc(-(s * dy), q))
}

/// Pre-collision kinetic energy of the pair (in units of half the common
/// mass), scaled by `q * q`.
pub open spec fn scaled_pre_energy(x1: Vec2, x2: Vec2, v1: Vec2, v2: Vec2) -> int {
    let q = pair_q(x1, x2);
    q * q * (v1.spec_norm_sq() + v2.spec_norm_sq())
}

/// Post-collision kinetic energy of the pair under the exact (unrounded)
/// elastic update, scaled by `q * q`: the updated velocities are
/// `v1 - (s/q) d` and `v2 + (s/q) d`, so `q` times them is integral.
pub open spec fn scaled_post_energy(x1: Vec2, x2: Vec2, v1: Vec2, v2: Vec2) -> int {
    let dx = x1.x - x2.x;
    let dy = x1.y - x2.y;
    let s = pair_s(x1, x2, v1, v2);
    let q = pair_q(x1, x2);
    (q * v1.x - s * dx) * (q * v1.x - s * dx) + (q * v1.y - s * dy) * (q * v1.y - s * dy) + (q
        * v2.x + s * dx) * (q * v2.x + s * dx) + (q * v2.y + s * dy) * (q * v2.y + s * dy)
}

/// Expansion of a squared difference over product atoms.
proof fn lemma_sub_sq(a: int, b: int)
    by (nonlinear_arith)
    ensures
        (a - b) * (a - b) == a * a - 2 * (a * b) + b * b,
{
}

/// Expansion of a squared sum over product atoms.
proof fn lemma_add_sq(a: int, b: int)
    by (nonlinear_arith)
    ensures
        (a + b) * (a + b) == a * a + 2 * (a * b) + b * b,
{
}

/// Regrouping a product of two products.
proof fn lemma_mul_regroup(a: int, b: int, c: int, d: int)
    by (nonlinear_arith)
    ensures
        (a * b) * (c * d) == (a * c) * (b * d),
{
}

/// The Lagrange identity in the plane: the square of a dot product plus the
/// square of the cross product equals the product of the squared norms.
proof fn lemma_lagrange(ax: int, ay: int, bx: int, by: int)
    ensures
        (ax * bx + ay * by) * (ax * bx + ay * by) + (ax * by - ay * bx) * (ax * by - ay * bx) == (
        ax * ax + ay * ay) * (bx * bx + by * by),
{
    lemma_add_sq(ax * bx, ay * by);
    lemma_sub_sq(ax * by, ay * bx);
    lemma_mul_regroup(ax, bx, ax, bx);
    lemma_mul_regroup(ay, by, ay, by);
    lemma_mul_regroup(ax, by, ax, by);
    lemma_mul_regroup(ay, bx, ay, bx);
    lemma_mul_regroup(ax, bx, ay, by);
    lemma_mul_regroup(ax, by, ay, bx);
    assert((ax * ay) * (bx * by) == (ax * ay) * (by * bx)) by (nonlinear_arith);
    assert((ax * ax + ay * ay) * (bx * bx + by * by) == (ax * ax) * (bx * bx) + (ax * ax) * (by
        * by) + (ay * ay) * (bx * bx) + (ay * ay) * (by * by)) by (nonlinear_arith);
}

/// The Cauchy-Schwarz inequality in the plane.
proof fn lemma_cauchy_schwarz(ax: int, ay: int, bx: int, by: int)
    ensures
        (ax * bx + ay * by) * (ax * bx + ay * by) <= (ax * ax + ay * ay) * (bx * bx + by * by),
{
    lemma_lagrange(ax, ay, bx, by);
    assert((ax * by - ay * bx) * (ax * by - ay * bx) >= 0) by (nonlinear_arith);
}

/// `(s * d)^2 <= m * q^2` whenever `s^2 <= m * q` and `d^2 <= q`.
proof fn lemma_product_sq_bound(s: int, d: int, q: int, m: int)
    by (nonlinear_arith)
    requires
        s * s <= m * q,
        d * d <= q,
        m >= 0,
        q >= 0,
    ensures
        (s * d) * (s * d) <= m * (q * q),
{
}

/// The magnitude of a quotient, squared, is bounded by `m` when the squared
/// numerator is bounded by `m * q^2`.
proof fn lemma_quotient_sq_bound(t: int, q: int, m: int)
    requires
        q >= 1,
        m >= 0,
        t * t <= m * (q * q),
    ensures
        (iabs(t) / q) * (iabs(t) / q) <= m,
{
    let a = iabs(t);
    let w = a / q;
    lemma_fundamental_div_mod(a, q);
    lemma_remainder_lower(a, q);
    lemma_remainder_upper(a, q);
    assert(w >= 0 && q * w <= a);
    assert(a * a == t * t) by (nonlinear_arith)
        requires
            a == t || a == -t,
    ;
    assert(w * w <= m) by (nonlinear_arith)
        requires
            q >= 1,
            m >= 0,
            w >= 0,
            q * w <= a,
            a >= 0,
            a * a == t * t,
            t * t <= m * (q * q),
    ;
}

/// Computes the elastic-collision velocity change for the first particle of
/// an overlapping pair; the second particle receives its negation. Exact per
/// `velocity_delta_spec`; each component has magnitude at most three times
/// the velocity limit.
pub fn compute_velocity_delta(x1: &Vec2, x2: &Vec2, v1: &Vec2, v2: &Vec2) -> (delta: Vec2)
    requires
        x1.in_range(),
        x2.in_range(),
        !(x1.x == x2.x && x1.y == x2.y),
        iabs(v1.x as int) <= VEL_LIMIT as int,
        iabs(v1.y as int) <= VEL_LIMIT as int,
        iabs(v2.x as int) <= VEL_LIMIT as int,
        iabs(v2.y as int) <= VEL_LIMIT as int,
    ensures
        delta.x == velocity_delta_spec(*x1, *x2, *v1, *v2).0,
        delta.y == velocity_delta_spec(*x1, *x2, *v1, *v2).1,
        iabs(delta.x as int) <= 3 * VEL_LIMIT as int,
        iabs(delta.y as int) <= 3 * VEL_LIMIT as int,
{
    let dx = (x1.x - x2.x) as i128;
    let dy = (x1.y - x2.y) as i128;
    let rx = (v1.x - v2.x) as i128;
    let ry = (v1.y - v2.y) as i128;
    proof {
        lemma_mul_bound(dx as int, dx as int, 2_000_000_000_000);
        lemma_mul_bound(dy as int, dy as int, 2_000_000_000_000);
        lemma_mul_bound2(rx as int, dx as int, 2_000_000_000, 2_000_000_000_000);
        lemma_mul_bound2(ry as int, dy as int, 2_000_000_000, 2_000_000_000_000);
        lemma_mul_bound(rx as int, rx as int, 2_000_000_000);
        lemma_mul_bound(ry as int, ry as int, 2_000_000_000);
    }
    let q: i128 = dx * dx + dy * dy;
    let s: i128 = rx * dx + ry * dy;
    assert(q >= 1) by (nonlinear_arith)
        requires
            q == dx * dx + dy * dy,
            dx != 0 || dy != 0,
    ;
    proof {
        lemma_mul_bound2(s as int, dx as int, 8_000_000_000_000_000_000_000, 2_000_000_000_000);
        lemma_mul_bound2(s as int, dy as int, 8_000_000_000_000_000_000_000, 2_000_000_000_000);
    }
    let tx: i128 = s * dx;
    let ty: i128 = s * dy;
    let ex = div_trunc_i128(-tx, q);
    let ey = div_trunc_i128(-ty, q);
    proof {
        let rel_sq = (rx * rx + ry * ry) as int;
        assert(rel_sq >= 0) by (nonlinear_arith)
            requires
                rel_sq == (rx as int) * (rx as int) + (ry as int) * (ry as int),
        ;
        lemma_cauchy_schwarz(rx as int, ry as int, dx as int, dy as int);
        assert((dx as int) * (dx as int) <= q as int && (dy as int) * (dy as int) <= q as int)
            by (nonlinear_arith)
            requires
                q as int == (dx as int) * (dx as int) + (dy as int) * (dy as int),
        ;
        lemma_product_sq_bound(s as int, dx as int, q as int, rel_sq);
        lemma_product_sq_bound(s as int, dy as int, q as int, rel_sq);
        lemma_quotient_sq_bound(tx as int, q as int, rel_sq);
        lemma_quotient_sq_bound(ty as int, q as int, rel_sq);
        lemma_div_trunc_abs(-(tx as int), q as int);
        lemma_div_trunc_abs(-(ty as int), q as int);
        assert(iabs(-(tx as int)) == iabs(tx as int) && iabs(-(ty as int)) == iabs(ty as int));
        // rel_sq <= 8e18 < (3 * VEL_LIMIT)^2, so each component fits.
        crate::num::lemma_sq_le_bound(iabs(ex as int), rel_sq, 3 * VEL_LIMIT as int);
        crate::num::lemma_sq_le_bound(iabs(ey as int), rel_sq, 3 * VEL_LIMIT as int);
    }
    Vec2 { x: ex as i64, y: ey as i64 }
}

/// Scaled by `q^2`, the exact elastic update conserves the pair's kinetic
/// energy: this is the conservation law behind the equal-mass impulse.
pub proof fn lemma_elastic_energy_conserved(x1: Vec2, x2: Vec2, v1: Vec2, v2: Vec2)
    ensures
        scaled_post_energy(x1, x2, v1, v2) == scaled_pre_energy(x1, x2, v1, v2),
{
    let dx = x1.x - x2.x as int;
    let dy = x1.y - x2.y as int;
    let s = pair_s(x1, x2, v1, v2);
    let q = pair_q(x1, x2);
    lemma_energy_identity(v1.x as int, v1.y as int, v2.x as int, v2.y as int, dx, dy, s, q);
}

/// The algebraic core of energy conservation, with the denominators cleared:
/// an exact ring identity.
proof fn lemma_energy_identity(
    v1x: int,
    v1y: int,
    v2x: int,
    v2y: int,
    dx: int,
    dy: int,
    s: int,
    q: int,
)
    requires
        q == dx * dx + dy * dy,
        s == (v1x - v2x) * dx + (v1y - v2y) * dy,
    ensures
        (q * v1x - s * dx) * (q * v1x - s * dx) + (q * v1y - s * dy) * (q * v1y - s * dy) + (q * v2x
            + s * dx) * (q * v2x + s * dx) + (q * v2y + s * dy) * (q * v2y + s * dy) == q * q * ((
        v1x * v1x + v1y * v1y) + (v2x * v2x + v2y * v2y)),
{
    lemma_sub_sq(q * v1x, s * dx);
    lemma_sub_sq(q * v1y, s * dy);
    lemma_add_sq(q * v2x, s * dx);
    lemma_add_sq(q * v2y, s * dy);
    lemma_mul_regroup(q, v1x, q, v1x);
    lemma_mul_regroup(q, v1y, q, v1y);
    lemma_mul_regroup(q, v2x, q, v2x);
    lemma_mul_regroup(q, v2y, q, v2y);
    lemma_mul_regroup(q, v1x, s, dx);
    lemma_mul_regroup(q, v1y, s, dy);
    lemma_mul_regroup(q, v2x, s, dx);
    lemma_mul_regroup(q, v2y, s, dy);
    lemma_mul_regroup(s, dx, s, dx);
    lemma_mul_regroup(s, dy, s, dy);
    // the cross terms collapse to the projection: (v1 - v2) . d == s.
    assert((q * s) * (v1x * dx) + (q * s) * (v1y * dy) - ((q * s) * (v2x * dx) + (q * s) * (v2y
        * dy)) == (q * s) * s) by (nonlinear_arith)
        requires
            s == (v1x - v2x) * dx + (v1y - v2y) * dy,
    ;
    // the impulse terms recombine to s^2 q.
    assert((s * s) * (dx * dx) + (s * s) * (dy * dy) == (s * s) * q) by (nonlinear_arith)
        requires
            q == dx * dx + dy * dy,
    ;
    assert((q * s) * s == (s * s) * q) by (nonlinear_arith);
    assert(q * q * ((v1x * v1x + v1y * v1y) + (v2x * v2x + v2y * v2y)) == (q * q) * (v1x * v1x) + (q
        * q) * (v1y * v1y) + (q * q) * (v2x * v2x) + (q * q) * (v2y * v2y)) by (nonlinear_arith);
}

/// When the truncating divisions are exact, the implemented update itself
/// conserves the pair's kinetic energy: with `(ax, ay)` the computed velocity
/// change, the post-collision squared speeds sum to the pre-collision ones.
pub proof fn lemma_energy_conserved_exact_division(x1: Vec2, x2: Vec2, v1: Vec2, v2: Vec2)
    requires
        pair_q(x1, x2) >= 1,
        (pair_s(x1, x2, v1, v2) * (x1.x - x2.x)) % pair_q(x1, x2) == 0,
        (pair_s(x1, x2, v1, v2) * (x1.y - x2.y)) % pair_q(x1, x2) == 0,
    ensures
        ({
            let (ax, ay) = velocity_delta_spec(x1, x2, v1, v2);
            (v1.x + ax) * (v1.x + ax) + (v1.y + ay) * (v1.y + ay) + (v2.x - ax) * (v2.x - ax) + (
            v2.y - ay) * (v2.y - ay) == v1.spec_norm_sq() + v2.spec_norm_sq()
        }),
{
    let dx = x1.x - x2.x as int;
    let dy = x1.y - x2.y as int;
    let s = pair_s(x1, x2, v1, v2);
    let q = pair_q(x1, x2);
    let (ax, ay) = velocity_delta_spec(x1, x2, v1, v2);
    lemma_exact_div_trunc(s * dx, q);
    lemma_exact_div_trunc(s * dy, q);
    assert(q * ax == -(s * dx));
    assert(q * ay == -(s * dy));
    lemma_elastic_energy_conserved(x1, x2, v1, v2);
    lemma_scaled_square(q, v1.x as int, ax, -(s * dx));
    lemma_scaled_square(q, v1.y as int, ay, -(s * dy));
    assert(q * -ax == s * dx && q * -ay == s * dy) by (nonlinear_arith)
        requires
            q * ax == -(s * dx),
            q * ay == -(s * dy),
    ;
    lemma_scaled_square(q, v2.x as int, -ax, s * dx);
    lemma_scaled_square(q, v2.y as int, -ay, s * dy);
    assert(q * v1.x + -(s * dx) == q * v1.x - s * dx);
    lemma_cancel_common_square(
        q,
        (v1.x + ax) * (v1.x + ax),
        (v1.y + ay) * (v1.y + ay),
        (v2.x + -ax) * (v2.x + -ax),
        (v2.y + -ay) * (v2.y + -ay),
        (v1.x * v1.x + v1.y * v1.y) + (v2.x * v2.x + v2.y * v2.y),
    );
    assert((v2.x - ax) * (v2.x - ax) == (v2.x + -ax) * (v2.x + -ax)) by (nonlinear_arith);
    assert((v2.y - ay) * (v2.y - ay) == (v2.y + -ay) * (v2.y + -ay)) by (nonlinear_arith);
}

/// Scaling a shifted value before squaring: `q^2 (v + a)^2 == (q v + t)^2`
/// when `q a == t`.
proof fn lemma_scaled_square(q: int, v: int, a: int, t: int)
    by (nonlinear_arith)
    requires
        q * a == t,
    ensures
        q * q * ((v + a) * (v + a)) == (q * v + t) * (q * v + t),
{
}

/// Cancelling the common positive factor `q^2` from a four-term sum.
proof fn lemma_cancel_common_square(q: int, a1: int, a2: int, a3: int, a4: int, b: int)
    by (nonlinear_arith)
    requires
        q >= 1,
        q * q * a1 + q * q * a2 + q * q * a3 + q * q * a4 == q * q * b,
    ensures
        a1 + a2 + a3 + a4 == b,
{
}

/// Multiplying a truncated quotient back misses the numerator by less than
/// the divisor.
proof fn lemma_div_trunc_residual(t: int, q: int)
    requires
        q >= 1,
    ensures
        iabs(q * div_trunc(t, q) - t) <= q - 1,
{
    if t >= 0 {
        lemma_fundamental_div_mod(t, q);
        lemma_remainder_lower(t, q);
        lemma_remainder_upper(t, q);
    } else {
        let u = -t;
        lemma_fundamental_div_mod(u, q);
        lemma_remainder_lower(u, q);
        lemma_remainder_upper(u, q);
        assert(div_trunc(t, q) == -(u / q));
        assert(q * -(u / q) == -(q * (u / q))) by (nonlinear_arith);
    }
}

/// Cancelling the positive factor `q^2` from a bounded product.
proof fn lemma_cancel_sq_bound(q: int, d: int, m: int)
    by (nonlinear_arith)
    requires
        q >= 1,
        m >= 0,
        -(m * (q * q)) <= (q * q) * d <= m * (q * q),
    ensures
        -m <= d <= m,
{
}

/// The truncated impulse that is actually applied conserves the pair's
/// kinetic energy up to a bounded rounding drift: the post-collision summed
/// squared speeds differ from the pre-collision ones by at most
/// `32 * VEL_LIMIT + 12`. Against squared speeds of order `VEL_LIMIT^2`
/// this is a relative error below `10^-7`: the integer counterpart of
/// "conserved within floating-point tolerance".
pub proof fn lemma_energy_drift_bounded(x1: Vec2, x2: Vec2, v1: Vec2, v2: Vec2)
    requires
        pair_q(x1, x2) >= 1,
        iabs(v1.x as int) <= VEL_LIMIT as int,
        iabs(v1.y as int) <= VEL_LIMIT as int,
        iabs(v2.x as int) <= VEL_LIMIT as int,
        iabs(v2.y as int) <= VEL_LIMIT as int,
    ensures
        ({
            let (ax, ay) = velocity_delta_spec(x1, x2, v1, v2);
            iabs(
                (v1.x + ax) * (v1.x + ax) + (v1.y + ay) * (v1.y + ay) + (v2.x - ax) * (v2.x - ax)
                    + (v2.y - ay) * (v2.y - ay) - (v1.spec_norm_sq() + v2.spec_norm_sq()),
            ) <= 32 * (VEL_LIMIT as int) + 12
        }),
{
    let dx = x1.x - x2.x as int;
    let dy = x1.y - x2.y as int;
    let q = pair_q(x1, x2);
    let s = pair_s(x1, x2, v1, v2);
    let (ax, ay) = velocity_delta_spec(x1, x2, v1, v2);
    let v = VEL_LIMIT as int;
    let rx = v1.x - v2.x as int;
    let ry = v1.y - v2.y as int;
    let rel_sq = rx * rx + ry * ry;
    // the quotient bound: each component of the exact impulse is at most
    // the relative speed, by Cauchy-Schwarz.
    lemma_cauchy_schwarz(rx, ry, dx, dy);
    assert(0 <= rel_sq <= 8 * (v * v)) by (nonlinear_arith)
        requires
            rel_sq == rx * rx + ry * ry,
            iabs(rx) <= 2 * v,
            iabs(ry) <= 2 * v,
            v >= 0,
    ;
    assert(dx * dx <= q && dy * dy <= q) by (nonlinear_arith)
        requires
            q == dx * dx + dy * dy,
    ;
    lemma_product_sq_bound(s, dx, q, rel_sq);
    lemma_product_sq_bound(s, dy, q, rel_sq);
    lemma_quotient_sq_bound(s * dx, q, rel_sq);
    lemma_quotient_sq_bound(s * dy, q, rel_sq);
    vstd::arithmetic::div_mod::lemma_div_pos_is_pos(iabs(s * dx), q);
    vstd::arithmetic::div_mod::lemma_div_pos_is_pos(iabs(s * dy), q);
    assert(rel_sq < (3 * v + 1) * (3 * v + 1)) by (nonlinear_arith)
        requires
            rel_sq <= 8 * (v * v),
            v == 1_000_000_000,
    ;
    crate::num::lemma_sq_le_bound(iabs(s * dx) / q, rel_sq, 3 * v);
    crate::num::lemma_sq_le_bound(iabs(s * dy) / q, rel_sq, 3 * v);
    // from the quotient bound to a product bound on s * d.
    lemma_fundamental_div_mod(iabs(s * dx), q);
    lemma_remainder_lower(iabs(s * dx), q);
    lemma_remainder_upper(iabs(s * dx), q);
    lemma_fundamental_div_mod(iabs(s * dy), q);
    lemma_remainder_lower(iabs(s * dy), q);
    lemma_remainder_upper(iabs(s * dy), q);
    assert(iabs(s * dx) <= 3 * v * q + q - 1 && iabs(s * dy) <= 3 * v * q + q - 1)
        by (nonlinear_arith)
        requires
            iabs(s * dx) == q * (iabs(s * dx) / q) + iabs(s * dx) % q,
            iabs(s * dy) == q * (iabs(s * dy) / q) + iabs(s * dy) % q,
            iabs(s * dx) / q <= 3 * v,
            iabs(s * dy) / q <= 3 * v,
            iabs(s * dx) % q <= q - 1,
            iabs(s * dy) % q <= q - 1,
            q >= 1,
            v >= 0,
    ;
    // the truncation residuals of the two applied components.
    lemma_div_trunc_residual(-(s * dx), q);
    lemma_div_trunc_residual(-(s * dy), q);
    let ex = q * ax + s * dx;
    let ey = q * ay + s * dy;
    assert(iabs(ex) <= q - 1 && iabs(ey) <= q - 1);
    // the exact scaled post-collision components and their bound.
    let a1 = q * v1.x - s * dx;
    let a2 = q * v1.y - s * dy;
    let a3 = q * v2.x + s * dx;
    let a4 = q * v2.y + s * dy;
    assert(iabs(q * v1.x) <= q * v && iabs(q * v1.y) <= q * v && iabs(q * v2.x) <= q * v && iabs(
        q * v2.y,
    ) <= q * v) by (nonlinear_arith)
        requires
            q >= 1,
            v >= 0,
            iabs(v1.x as int) <= v,
            iabs(v1.y as int) <= v,
            iabs(v2.x as int) <= v,
            iabs(v2.y as int) <= v,
    ;
    let bb = 4 * v * q + q;
    assert(q * v + (3 * v * q + q - 1) < bb) by (nonlinear_arith)
        requires
            bb == 4 * v * q + q,
            q >= 1,
            v >= 0,
    ;
    assert(iabs(a1) <= bb && iabs(a2) <= bb && iabs(a3) <= bb && iabs(a4) <= bb);
    // scale the applied squares by q^2 and expand.
    lemma_scaled_square(q, v1.x as int, ax, q * ax);
    lemma_scaled_square(q, v1.y as int, ay, q * ay);
    lemma_scaled_square(q, v2.x as int, -ax, q * -ax);
    lemma_scaled_square(q, v2.y as int, -ay, q * -ay);
    assert(q * -ax == -(q * ax) && q * -ay == -(q * ay)) by (nonlinear_arith);
    assert(q * v1.x + q * ax == a1 + ex);
    assert(q * v1.y + q * ay == a2 + ey);
    assert(q * v2.x + -(q * ax) == a3 - ex);
    assert(q * v2.y + -(q * ay) == a4 - ey);
    lemma_add_sq(a1, ex);
    lemma_add_sq(a2, ey);
    lemma_sub_sq(a3, ex);
    lemma_sub_sq(a4, ey);
    lemma_energy_identity(v1.x as int, v1.y as int, v2.x as int, v2.y as int, dx, dy, s, q);
    // bound the cross and residual terms.
    lemma_mul_bound2(a1, ex, bb, q);
    lemma_mul_bound2(a2, ey, bb, q);
    lemma_mul_bound2(a3, ex, bb, q);
    lemma_mul_bound2(a4, ey, bb, q);
    lemma_mul_bound(ex, ex, q);
    lemma_mul_bound(ey, ey, q);
    assert(bb * q == 4 * v * (q * q) + q * q) by (nonlinear_arith)
        requires
            bb == 4 * v * q + q,
    ;
    let post = (v1.x + ax) * (v1.x + ax) + (v1.y + ay) * (v1.y + ay) + (v2.x - ax) * (v2.x - ax)
        + (v2.y - ay) * (v2.y - ay);
    let pre = v1.spec_norm_sq() + v2.spec_norm_sq();
    let drift = 2 * (a1 * ex) + 2 * (a2 * ey) - 2 * (a3 * ex) - 2 * (a4 * ey) + 2 * (ex * ex) + 2
        * (ey * ey);
    assert((q * q) * (post - pre) == drift) by (nonlinear_arith)
        requires
            (q * q) * ((v1.x + ax) * (v1.x + ax)) == (a1 + ex) * (a1 + ex),
            (q * q) * ((v1.y + ay) * (v1.y + ay)) == (a2 + ey) * (a2 + ey),
            (q * q) * ((v2.x - ax) * (v2.x - ax)) == (a3 - ex) * (a3 - ex),
            (q * q) * ((v2.y - ay) * (v2.y - ay)) == (a4 - ey) * (a4 - ey),
            (a1 + ex) * (a1 + ex) == a1 * a1 + 2 * (a1 * ex) + ex * ex,
            (a2 + ey) * (a2 + ey) == a2 * a2 + 2 * (a2 * ey) + ey * ey,
            (a3 - ex) * (a3 - ex) == a3 * a3 - 2 * (a3 * ex) + ex * ex,
            (a4 - ey) * (a4 - ey) == a4 * a4 - 2 * (a4 * ey) + ey * ey,
            a1 * a1 + a2 * a2 + a3 * a3 + a4 * a4 == (q * q) * pre,
            post == (v1.x + ax) * (v1.x + ax) + (v1.y + ay) * (v1.y + ay) + (v2.x - ax) * (v2.x
                - ax) + (v2.y - ay) * (v2.y - ay),
            drift == 2 * (a1 * ex) + 2 * (a2 * ey) - 2 * (a3 * ex) - 2 * (a4 * ey) + 2 * (ex * ex)
                + 2 * (ey * ey),
    ;
    assert(-((32 * v + 12) * (q * q)) <= drift <= (32 * v + 12) * (q * q)) by (nonlinear_arith)
        requires
            drift == 2 * (a1 * ex) + 2 * (a2 * ey) - 2 * (a3 * ex) - 2 * (a4 * ey) + 2 * (ex * ex)
                + 2 * (ey * ey),
            -(bb * q) <= a1 * ex <= bb * q,
            -(bb * q) <= a2 * ey <= bb * q,
            -(bb * q) <= a3 * ex <= bb * q,
            -(bb * q) <= a4 * ey <= bb * q,
            -(q * q) <= ex * ex <= q * q,
            -(q * q) <= ey * ey <= q * q,
            bb * q == 4 * v * (q * q) + q * q,
            q * q >= 0,
            v >= 0,
    ;
    lemma_cancel_sq_bound(q, post - pre, 32 * v + 12);
}

/// When `q` divides `t`, the truncated quotient of `-t` is `-(t / q)` and
/// multiplies back exactly.
proof fn lemma_exact_div_trunc(t: int, q: int)
    requires
        q >= 1,
        t % q == 0,
    ensures
        q * div_trunc(-t, q) == -t,
{
    lemma_fundamental_div_mod(t, q);
    if t == 0 {
        lemma_div_multiples_vanish(0, q);
        assert(q * 0 == 0);
        assert(0int / q == 0);
        assert(-t == 0);
        assert(div_trunc(-t, q) == (-t) / q);
        assert((-t) / q == 0int / q);
    } else if t > 0 {
        assert(div_trunc(-t, q) == -(t / q));
        assert(q * -(t / q) == -(q * (t / q))) by (nonlinear_arith);
    } else {
        lemma_div_multiples_vanish(-(t / q), q);
        assert(q * -(t / q) == -(q * (t / q))) by (nonlinear_arith);
        assert((-t) / q == -(t / q));
        assert(div_trunc(-t, q) == (-t) / q);
    }
}

} // verus!
