//! Exact integer arithmetic helpers: truncating division, ceiling division
//! and the integer square root, each with a pinned-down contract.
use vstd::arithmetic::div_mod::{
    lemma_div_is_ordered, lemma_div_pos_is_pos, lemma_fundamental_div_mod, lemma_div_non_zero,
};
use vstd::prelude::*;

verus! {

/// A product of two factors of magnitude at most `m` has magnitude at most `m * m`.
pub proof fn lemma_mul_bound(a: int, b: int, m: int)
    by (nonlinear_arith)
    requires
        -m <= a <= m,
        -m <= b <= m,
        0 <= m,
    ensures
        -(m * m) <= a * b <= m * m,
{
}

/// A product is bounded by the product of bounds on its factors.
pub proof fn lemma_mul_bound2(a: int, b: int, ma: int, mb: int)
    by (nonlinear_arith)
    requires
        -ma <= a <= ma,
        -mb <= b <= mb,
        0 <= ma,
        0 <= mb,
    ensures
        -(ma * mb) <= a * b <= ma * mb,
{
}

/// A non-negative value whose square is at most `m` is at most `b`, whenever
/// `m` is below `(b + 1)^2`.
pub proof fn lemma_sq_le_bound(w: int, m: int, b: int)
    by (nonlinear_arith)
    requires
        w >= 0,
        b >= 0,
        w * w <= m,
        m < (b + 1) * (b + 1),
    ensures
        w <= b,
{
}

/// Absolute value over the mathematical integers.
pub open spec fn iabs(x: int) -> int {
    if x >= 0 {
        x
    } else {
        -x
    }
}

/// Division truncated toward zero, the rounding rule of Rust's `/` on
/// machine integers (spec-level `/` itself rounds toward negative infinity).
pub open spec fn div_trunc(a: int, b: int) -> int
    recommends
        b > 0,
{
    if a >= 0 {
        a / b
    } else {
        -((-a) / b)
    }
}

/// The truncated quotient `div_trunc(t, q)` has magnitude `iabs(t) / q`.
pub proof fn lemma_div_trunc_abs(t: int, q: int)
    requires
        q >= 1,
    ensures
        iabs(div_trunc(t, q)) == iabs(t) / q,
{
    vstd::arithmetic::div_mod::lemma_div_pos_is_pos(iabs(t), q);
}

/// Ceiling of `a / b` for non-negative `a`, positive `b`.
pub open spec fn div_ceil(a: int, b: int) -> int
    recommends
        a >= 0,
        b > 0,
{
    (a + b - 1) / b
}

/// The integer square root: the largest `r` with `r * r <= n`.
pub open spec fn sqrt_floor(n: nat) -> nat
    decreases n,
{
    if n == 0 {
        0
    } else {
        let s = sqrt_floor((n - 1) as nat);
        if (s + 1) * (s + 1) <= n {
            s + 1
        } else {
            s
        }
    }
}

/// `sqrt_floor` is exactly the floor of the square root.
pub proof fn lemma_sqrt_floor_bounds(n: nat)
    ensures
        sqrt_floor(n) * sqrt_floor(n) <= n,
        n < (sqrt_floor(n) + 1) * (sqrt_floor(n) + 1),
    decreases n,
{
    if n > 0 {
        lemma_sqrt_floor_bounds((n - 1) as nat);
        let s = sqrt_floor((n - 1) as nat);
        assert(s * s <= n - 1 && n - 1 < (s + 1) * (s + 1));
        if (s + 1) * (s + 1) <= n {
            assert(sqrt_floor(n) == s + 1);
            assert(n <= (s + 1) * (s + 1));
            assert((s + 2) * (s + 2) > (s + 1) * (s + 1)) by (nonlinear_arith)
                requires
                    s >= 0,
            ;
            assert(n < (s + 2) * (s + 2));
        } else {
            assert(sqrt_floor(n) == s);
            assert(n < (s + 1) * (s + 1));
        }
    } else {
        assert(sqrt_floor(n) == 0);
        assert(n < 1 * 1) by (nonlinear_arith)
            requires
                n == 0,
        ;
    }
}

/// Any `r` whose square brackets `n` is the integer square root of `n`.
pub proof fn lemma_sqrt_floor_unique(n: nat, r: nat)
    requires
        r * r <= n,
        n < (r + 1) * (r + 1),
    ensures
        r == sqrt_floor(n),
{
    lemma_sqrt_floor_bounds(n);
    let s = sqrt_floor(n);
    if r < s {
        assert((r + 1) * (r + 1) <= s * s) by (nonlinear_arith)
            requires
                r + 1 <= s,
                0 <= r,
        ;
    }
    if s < r {
        assert((s + 1) * (s + 1) <= r * r) by (nonlinear_arith)
            requires
                s + 1 <= r,
                0 <= s,
        ;
    }
}

/// Truncating division on `i128`, for positive divisors.
pub fn div_trunc_i128(a: i128, b: i128) -> (r: i128)
    requires
        b >= 1,
        a > i128::MIN,
    ensures
        r == div_trunc(a as int, b as int),
{
    if a >= 0 {
        let q = (a as u128) / (b as u128);
        proof {
            lemma_div_is_ordered(q as int, a as int, 1);
        }
        q as i128
    } else {
        let n = (-a) as u128;
        let q = n / (b as u128);
        proof {
            lemma_div_is_ordered(q as int, n as int, 1);
        }
        -(q as i128)
    }
}

/// Ceiling division on `u128`.
pub fn div_ceil_u128(a: u128, b: u128) -> (r: u128)
    requires
        b >= 1,
        a + b - 1 <= u128::MAX,
    ensures
        r == div_ceil(a as int, b as int),
        r * b >= a,
        a == 0 ==> r == 0,
{
    let r = (a + (b - 1)) / b;
    proof {
        lemma_fundamental_div_mod((a + b - 1) as int, b as int);
        vstd::arithmetic::div_mod::lemma_remainder_upper((a + b - 1) as int, b as int);
        vstd::arithmetic::div_mod::lemma_remainder_lower((a + b - 1) as int, b as int);
        assert(r * b >= a);
        if a == 0 {
            assert((b - 1) as int / b as int == 0) by {
                vstd::arithmetic::div_mod::lemma_basic_div((b - 1) as int, b as int);
            }
        }
    }
    r
}

/// Integer square root of a `u64`, by bisection.
pub fn isqrt(n: u64) -> (r: u64)
    ensures
        r == sqrt_floor(n as nat),
        r * r <= n,
        n < (r + 1) * (r + 1),
{
    let mut lo: u64 = 0;
    let mut hi: u64 = 4294967295;
    proof {
        assert((hi + 1) * (hi + 1) > u64::MAX) by (nonlinear_arith)
            requires
                hi == 4294967295u64,
        ;
    }
    while lo < hi
        invariant
            lo <= hi,
            hi <= 4294967295,
            lo * lo <= n,
            n < (hi + 1) * (hi + 1),
        decreases hi - lo,
    {
        let mid = lo + (hi - lo + 1) / 2;
        assert(lo < mid <= hi);
        proof {
            lemma_mul_bound(mid as int, mid as int, 4294967295);
        }
        if ((mid as u128) * (mid as u128)) <= (n as u128) {
            lo = mid;
        } else {
            hi = mid - 1;
        }
    }
    proof {
        lemma_sqrt_floor_unique(n as nat, lo as nat);
    }
    lo
}

} // verus!
