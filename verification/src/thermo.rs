//! Thermodynamic analytics: instantaneous temperature by equipartition and
//! entropy by the Sackur-Tetrode relation for a 2D gas, over integer-scaled
//! quantities. The logarithm is a piecewise-linear fixed-point approximation
//! in milli-nats, exact per its spec and monotone, which is what the entropy
//! law rests on.
use crate::num::lemma_mul_bound2;
use vstd::arithmetic::div_mod::{
    lemma_div_is_ordered, lemma_div_is_ordered_by_denominator, lemma_div_pos_is_pos,
    lemma_fundamental_div_mod, lemma_multiply_divide_lt, lemma_remainder_lower,
};
use vstd::arithmetic::power2::{lemma2_to64, lemma2_to64_rest, lemma_pow2_strictly_increases, lemma_pow2_unfold, pow2};
use vstd::prelude::*;
use vstd::seq_lib::group_to_multiset_ensures;

verus! {

/// Sum of a sequence of squared speeds.
pub open spec fn sum_sq(s: Seq<u64>) -> int
    decreases s.len(),
{
    if s.len() == 0 {
        0
    } else {
        sum_sq(s.drop_last()) + s.last()
    }
}

/// Temperature of the ensemble by equipartition for two degrees of freedom:
/// `mass * mean(speed^2) / (2 * k_B)`, as one exact integer quotient.
pub open spec fn temperature_spec(mass: int, kb: int, s: Seq<u64>) -> int {
    (mass * sum_sq(s)) / (2 * kb * s.len())
}

/// Computes the ensemble temperature, exactly as `temperature_spec` says.
pub fn calculate_temperature(mass: u64, kb: u64, speeds_sq: &Vec<u64>) -> (t: u128)
    requires
        1 <= mass <= 1_000_000_000,
        1 <= kb <= 1_000_000_000_000_000_000,
        1 <= speeds_sq@.len() <= 1_000_000,
        forall|i: int|
            0 <= i < speeds_sq@.len() ==> #[trigger] speeds_sq@[i] <= 2_000_000_000_000_000_000,
    ensures
        t == temperature_spec(mass as int, kb as int, speeds_sq@),
{
    let n = speeds_sq.len();
    let mut acc: u128 = 0;
    let mut k: usize = 0;
    while k < n
        invariant
            n == speeds_sq@.len(),
            1 <= n <= 1_000_000,
            k <= n,
            forall|i: int|
                0 <= i < speeds_sq@.len() ==> #[trigger] speeds_sq@[i]
                    <= 2_000_000_000_000_000_000,
            acc == sum_sq(speeds_sq@.take(k as int)),
            acc <= (k as int) * 2_000_000_000_000_000_000,
        decreases n - k,
    {
        proof {
            assert(speeds_sq@.take(k as int + 1).drop_last() =~= speeds_sq@.take(k as int));
        }
        acc = acc + (speeds_sq[k] as u128);
        k = k + 1;
    }
    proof {
        assert(speeds_sq@.take(n as int) =~= speeds_sq@);
        lemma_mul_bound2(mass as int, acc as int, 1_000_000_000, 2_000_000_000_000_000_000_000_000);
        lemma_mul_bound2(kb as int, n as int, 1_000_000_000_000_000_000, 1_000_000);
        assert((kb as int) * (n as int) >= 1) by (nonlinear_arith)
            requires
                kb as int >= 1,
                n as int >= 1,
        ;
        assert(2 * ((kb as int) * (n as int)) == 2 * (kb as int) * (n as int)) by (nonlinear_arith);
    }
    let num: u128 = (mass as u128) * acc;
    let den: u128 = 2 * ((kb as u128) * (n as u128));
    num / den
}

/// Temperature is invariant under any reordering of the speed list: two
/// lists with the same multiset of squared speeds have the same sum, the
/// same length, and hence the same temperature.
pub proof fn lemma_temperature_permutation(mass: int, kb: int, s1: Seq<u64>, s2: Seq<u64>)
    requires
        s1.to_multiset() == s2.to_multiset(),
    ensures
        sum_sq(s1) == sum_sq(s2),
        s1.len() == s2.len(),
        temperature_spec(mass, kb, s1) == temperature_spec(mass, kb, s2),
    decreases s1.len(),
{
    broadcast use group_to_multiset_ensures;

    if s1.len() == 0 {
        assert(s2.to_multiset().len() == 0);
    } else {
        let v = s1.last();
        assert(s1[s1.len() - 1] == v);
        assert(s1.contains(v));
        assert(s2.to_multiset().count(v) > 0);
        assert(s2.contains(v));
        let j = choose|j: int| 0 <= j < s2.len() && s2[j] == v;
        assert(s1.drop_last() =~= s1.remove(s1.len() - 1));
        assert(s1.remove(s1.len() - 1).to_multiset() =~= s1.to_multiset().remove(v));
        assert(s2.remove(j).to_multiset() =~= s2.to_multiset().remove(v));
        lemma_temperature_permutation(mass, kb, s1.drop_last(), s2.remove(j));
        lemma_sum_sq_remove(s2, j);
    }
}

/// Removing one entry removes exactly its contribution from the sum.
proof fn lemma_sum_sq_remove(s: Seq<u64>, j: int)
    requires
        0 <= j < s.len(),
    ensures
        sum_sq(s) == s[j] + sum_sq(s.remove(j)),
    decreases s.len(),
{
    if j == s.len() - 1 {
        assert(s.remove(j) =~= s.drop_last());
    } else {
        assert(s.remove(j).drop_last() =~= s.drop_last().remove(j));
        assert(s.remove(j).last() == s.last());
        lemma_sum_sq_remove(s.drop_last(), j);
    }
}

/// The floor of the base-2 logarithm.
pub open spec fn log2_floor(n: int) -> int
    recommends
        n >= 1,
    decreases n,
{
    if n < 2 {
        0
    } else {
        1 + log2_floor(n / 2)
    }
}

/// The fixed-point natural logarithm in milli-nats: 693 (milli-nats per
/// octave, ln 2 scaled by 1000) times the floor log, plus a linear
/// interpolation within the octave.
pub open spec fn ln_milli_spec(x: int) -> int
    recommends
        x >= 1,
{
    let k = log2_floor(x);
    let p = pow2(k as nat) as int;
    693 * k + ((x - p) * 693) / p
}

/// `log2_floor` brackets its argument between consecutive powers of two.
pub proof fn lemma_log2_bounds(n: int)
    requires
        n >= 1,
    ensures
        log2_floor(n) >= 0,
        pow2(log2_floor(n) as nat) <= n,
        n < pow2((log2_floor(n) + 1) as nat),
    decreases n,
{
    if n < 2 {
        lemma2_to64();
    } else {
        lemma_log2_bounds(n / 2);
        let kk = log2_floor(n / 2);
        lemma_fundamental_div_mod(n, 2);
        lemma_pow2_unfold((kk + 1) as nat);
        lemma_pow2_unfold((kk + 2) as nat);
    }
}

/// `log2_floor` is monotone.
pub proof fn lemma_log2_monotone(x: int, y: int)
    requires
        1 <= x <= y,
    ensures
        log2_floor(x) <= log2_floor(y),
{
    lemma_log2_bounds(x);
    lemma_log2_bounds(y);
    if log2_floor(x) > log2_floor(y) {
        lemma_pow2_strictly_increases((log2_floor(y) + 1) as nat, (log2_floor(x) + 1) as nat);
        assert(pow2((log2_floor(y) + 1) as nat) <= pow2(log2_floor(x) as nat)) by {
            if log2_floor(y) + 1 < log2_floor(x) {
                lemma_pow2_strictly_increases((log2_floor(y) + 1) as nat, log2_floor(x) as nat);
            }
        }
        assert(false);
    }
}

/// The in-octave interpolation term lies in `[0, 693]`.
proof fn lemma_ln_frac_bounds(x: int)
    requires
        x >= 1,
    ensures
        0 <= ((x - pow2(log2_floor(x) as nat) as int) * 693) / (pow2(log2_floor(x) as nat) as int),
        ((x - pow2(log2_floor(x) as nat) as int) * 693) / (pow2(log2_floor(x) as nat) as int)
            <= 693,
{
    lemma_log2_bounds(x);
    let k = log2_floor(x);
    let p = pow2(k as nat) as int;
    lemma_pow2_unfold((k + 1) as nat);
    assert(x - p < p);
    assert((x - p) * 693 >= 0) by (nonlinear_arith)
        requires
            x - p >= 0,
    ;
    lemma_div_pos_is_pos((x - p) * 693, p);
    assert((x - p) * 693 < p * 694) by (nonlinear_arith)
        requires
            x - p < p,
            p >= 1,
    ;
    lemma_multiply_divide_lt((x - p) * 693, p, 694);
}

/// The fixed-point logarithm is monotone: the heart of the entropy law.
pub proof fn lemma_ln_monotone(x: int, y: int)
    requires
        1 <= x <= y,
    ensures
        ln_milli_spec(x) <= ln_milli_spec(y),
{
    lemma_log2_monotone(x, y);
    lemma_log2_bounds(x);
    lemma_log2_bounds(y);
    let kx = log2_floor(x);
    let ky = log2_floor(y);
    let px = pow2(kx as nat) as int;
    let py = pow2(ky as nat) as int;
    if kx == ky {
        vstd::arithmetic::power2::lemma_pow2_pos(kx as nat);
        assert((x - px) * 693 <= (y - px) * 693) by (nonlinear_arith)
            requires
                x <= y,
        ;
        lemma_div_is_ordered((x - px) * 693, (y - px) * 693, px);
    } else {
        lemma_ln_frac_bounds(x);
        lemma_ln_frac_bounds(y);
        assert(693 * kx + 693 <= 693 * ky);
    }
}

/// Computes the fixed-point logarithm, exactly as `ln_milli_spec` says; the
/// result is below 45000.
pub fn ln_milli(x: u64) -> (r: u64)
    requires
        x >= 1,
    ensures
        r == ln_milli_spec(x as int),
        r <= 45_000,
{
    let mut k: u64 = 0;
    let mut t: u64 = x;
    let mut p: u64 = 1;
    proof {
        lemma2_to64();
        lemma2_to64_rest();
    }
    while t >= 2
        invariant
            x >= 1,
            p >= 1,
            p == pow2(k as nat),
            t == x as int / p as int,
            t >= 1,
            log2_floor(x as int) == k + log2_floor(t as int),
            k <= 63,
        decreases t,
    {
        proof {
            lemma_fundamental_div_mod(x as int, p as int);
            lemma_remainder_lower(x as int, p as int);
            assert(x as int >= 2 * p) by (nonlinear_arith)
                requires
                    x as int == p as int * (t as int) + (x as int % p as int),
                    x as int % p as int >= 0,
                    t >= 2,
                    p >= 1,
            ;
            if k == 63 {
                lemma2_to64_rest();
                assert(false);
            }
            lemma_pow2_unfold((k + 1) as nat);
            vstd::arithmetic::div_mod::lemma_div_denominator(x as int, p as int, 2);
        }
        t = t / 2;
        p = p * 2;
        k = k + 1;
    }
    proof {
        lemma_fundamental_div_mod(x as int, p as int);
        lemma_remainder_lower(x as int, p as int);
        assert(p <= x) by (nonlinear_arith)
            requires
                x as int == p as int * (t as int) + (x as int % p as int),
                x as int % p as int >= 0,
                t >= 1,
                p >= 1,
        ;
        lemma_ln_frac_bounds(x as int);
    }
    let frac: u64 = ((((x - p) as u128) * 693) / (p as u128)) as u64;
    693 * k + frac
}

/// Entropy in milli-`k_B` units: `n * (5/2 - ln(rho * lambda^2))` with the
/// logarithm argument split as an exact rational `c_num / (c_den * T)`, so
/// that both logarithm arguments are integers at least 1. The split is the
/// integer-scaled form of the power-of-ten rescaling the formula needs to
/// avoid vanishing intermediates.
pub open spec fn entropy_milli_spec(n: int, t: int, c_num: int, c_den: int) -> int {
    n * (2500 + ln_milli_spec(c_den * t) - ln_milli_spec(c_num))
}

/// Computes the ensemble entropy, exactly as `entropy_milli_spec` says.
pub fn calculate_entropy(n: u64, t: u64, c_num: u64, c_den: u64) -> (r: i64)
    requires
        1 <= n <= 1_000_000_000,
        1 <= t,
        1 <= c_num,
        1 <= c_den,
        (c_den as int) * (t as int) <= u64::MAX,
    ensures
        r == entropy_milli_spec(n as int, t as int, c_num as int, c_den as int),
{
    proof {
        lemma_mul_bound2(c_den as int, t as int, u64::MAX as int, u64::MAX as int);
    }
    proof {
        assert((c_den as int) * (t as int) >= 1) by (nonlinear_arith)
            requires
                c_den as int >= 1,
                t as int >= 1,
        ;
    }
    let arg: u64 = c_den * t;
    let a = ln_milli(arg);
    let b = ln_milli(c_num);
    let inner: i64 = 2500 + (a as i64) - (b as i64);
    proof {
        lemma_mul_bound2(n as int, inner as int, 1_000_000_000, 47_500);
    }
    (n as i64) * inner
}

/// Entropy increases monotonically with temperature, at fixed particle
/// count, area, mass and physical constants.
pub proof fn lemma_entropy_monotone(n: int, t1: int, t2: int, c_num: int, c_den: int)
    requires
        n >= 0,
        1 <= t1 <= t2,
        c_num >= 1,
        c_den >= 1,
    ensures
        entropy_milli_spec(n, t1, c_num, c_den) <= entropy_milli_spec(n, t2, c_num, c_den),
{
    assert(1 <= c_den * t1 <= c_den * t2) by (nonlinear_arith)
        requires
            1 <= t1 <= t2,
            c_den >= 1,
    ;
    lemma_ln_monotone(c_den * t1, c_den * t2);
    assert(n * (2500 + ln_milli_spec(c_den * t1) - ln_milli_spec(c_num)) <= n * (2500
        + ln_milli_spec(c_den * t2) - ln_milli_spec(c_num))) by (nonlinear_arith)
        requires
            n >= 0,
            ln_milli_spec(c_den * t1) <= ln_milli_spec(c_den * t2),
    ;
}

} // verus!
