//! The fitted Maxwell-Boltzmann reference curve: the theoretical 2D speed
//! probability density `f(v) = v/a^2 * exp(-v^2 / (2 a^2))`, `a^2 = k_B T/m`,
//! in fixed point, sampled at evenly spaced speeds once at initialization.
//! The exponential halves once per 693 milli-nats with a linear
//! interpolation inside each octave, the counterpart of the fixed-point
//! logarithm; its argument saturates where the density has long vanished at
//! this resolution.
use crate::num::lemma_mul_bound2;
use vstd::arithmetic::div_mod::{
    lemma_basic_div, lemma_div_is_ordered_by_denominator, lemma_multiply_divide_lt,
};
use vstd::arithmetic::power2::{
    lemma2_to64, lemma_pow2_strictly_increases, lemma_pow2_unfold, pow2,
};
use vstd::prelude::*;

verus! {

/// The exponent argument `v^2 / (2 a^2)` in milli units, saturated at
/// 100 nats.
pub open spec fn mb_exp_arg_milli(speed: int, a_sq: int) -> int {
    let x = (speed * speed * 500) / a_sq;
    if x > 100_000 {
        100_000
    } else {
        x
    }
}

/// `exp(-x)` in milli units: one halving per 693 milli-nats (one factor of
/// two per natural-log two), linearly interpolated from 1000 down to 500
/// inside the octave.
pub open spec fn exp_neg_milli(x: int) -> int
    recommends
        x >= 0,
{
    let k = x / 693;
    let r = x % 693;
    (1000 - (r * 500) / 693) / (pow2(k as nat) as int)
}

/// The density `v/a^2 * exp(-v^2/(2 a^2))`, scaled by one million.
pub open spec fn mb_pdf_spec(speed: int, a_sq: int) -> int {
    (speed * exp_neg_milli(mb_exp_arg_milli(speed, a_sq)) * 1000) / a_sq
}

/// Evaluates the fixed-point 2D Maxwell-Boltzmann density, exactly as
/// `mb_pdf_spec` says.
pub fn maxwell_boltzmann_2d_pdf(speed: u64, a_sq: u64) -> (r: u64)
    requires
        1 <= a_sq,
        speed <= 1_000_000_000_000,
    ensures
        r == mb_pdf_spec(speed as int, a_sq as int),
{
    let sp = speed as u128;
    proof {
        lemma_mul_bound2(sp as int, sp as int, 1_000_000_000_000, 1_000_000_000_000);
    }
    let num1: u128 = sp * sp * 500;
    let x0: u128 = num1 / (a_sq as u128);
    proof {
        lemma_div_is_ordered_by_denominator(num1 as int, 1, a_sq as int);
        vstd::arithmetic::div_mod::lemma_div_basics(num1 as int);
    }
    let x: u128 = if x0 > 100_000 {
        100_000
    } else {
        x0
    };
    let k: u128 = x / 693;
    let r: u128 = x % 693;
    let num: u128 = 1000 - (r * 500) / 693;
    proof {
        lemma_div_is_ordered_by_denominator((r * 500) as int, 1, 693);
        vstd::arithmetic::div_mod::lemma_div_basics((r * 500) as int);
        lemma_multiply_divide_lt((r * 500) as int, 693, 500);
    }
    let e: u128;
    if k >= 10 {
        proof {
            lemma2_to64();
            if k > 10 {
                lemma_pow2_strictly_increases(10, k as nat);
            }
            lemma_basic_div(num as int, pow2(k as nat) as int);
        }
        e = 0;
    } else {
        let mut p: u128 = 1;
        let mut i: u128 = 0;
        proof {
            lemma2_to64();
        }
        while i < k
            invariant
                i <= k,
                k <= 9,
                p == pow2(i as nat),
                p <= 512,
            decreases k - i,
        {
            proof {
                lemma_pow2_unfold((i + 1) as nat);
                lemma2_to64();
                if (i as nat) + 1 < 10 {
                    lemma_pow2_strictly_increases((i + 1) as nat, 10);
                }
            }
            p = p * 2;
            i = i + 1;
        }
        e = num / p;
        proof {
            lemma_div_is_ordered_by_denominator(num as int, 1, p as int);
            vstd::arithmetic::div_mod::lemma_div_basics(num as int);
        }
    }
    proof {
        lemma_mul_bound2(sp as int, e as int, 1_000_000_000_000, 1000);
    }
    let scaled: u128 = sp * e * 1000;
    let r: u128 = scaled / (a_sq as u128);
    proof {
        lemma_div_is_ordered_by_denominator(scaled as int, 1, a_sq as int);
        vstd::arithmetic::div_mod::lemma_div_basics(scaled as int);
    }
    r as u64
}

/// Samples the density at `count` evenly spaced speeds over
/// `[0, max_speed)`: slot `i` holds the density at `i * max_speed / count`.
/// Built once from the initial temperature; never refit.
pub fn sample_curve(count: usize, max_speed: u64, a_sq: u64) -> (points: Vec<u64>)
    requires
        1 <= count <= 1_000_000,
        max_speed <= 1_000_000_000_000,
        1 <= a_sq,
    ensures
        points@.len() == count,
        forall|i: int|
            0 <= i < count ==> #[trigger] points@[i] == mb_pdf_spec(
                (i * max_speed) / (count as int),
                a_sq as int,
            ),
{
    let mut points: Vec<u64> = Vec::new();
    let mut i: usize = 0;
    while i < count
        invariant
            i <= count,
            1 <= count <= 1_000_000,
            max_speed <= 1_000_000_000_000,
            1 <= a_sq,
            points@.len() == i,
            forall|k: int|
                0 <= k < i ==> #[trigger] points@[k] == mb_pdf_spec(
                    (k * max_speed) / (count as int),
                    a_sq as int,
                ),
        decreases count - i,
    {
        proof {
            lemma_mul_bound2(i as int, max_speed as int, 1_000_000, 1_000_000_000_000);
        }
        let num: u128 = (i as u128) * (max_speed as u128);
        let v128: u128 = num / (count as u128);
        proof {
            if max_speed >= 1 {
                assert((i as int) * (max_speed as int) < (count as int) * (max_speed as int))
                    by (nonlinear_arith)
                    requires
                        0 <= (i as int) < (count as int),
                        1 <= max_speed as int,
                ;
                lemma_multiply_divide_lt(
                    (i as int) * (max_speed as int),
                    count as int,
                    max_speed as int,
                );
            } else {
                assert((i as int) * (max_speed as int) == 0) by (nonlinear_arith)
                    requires
                        max_speed as int == 0,
                ;
                vstd::arithmetic::div_mod::lemma_div_basics(0);
            }
        }
        let v: u64 = v128 as u64;
        let p = maxwell_boltzmann_2d_pdf(v, a_sq);
        points.push(p);
        i = i + 1;
    }
    points
}

} // verus!
