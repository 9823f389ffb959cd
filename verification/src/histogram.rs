//! The empirical speed histogram: equal-width bins over squared speeds,
//! recomputed from scratch each analytics tick. The boundary test is strictly
//! open on both ends, so a particle exactly on a threshold, or at or beyond
//! the top edge, is counted nowhere.
//!
//! Comparing squared speeds against squared thresholds is exact and
//! equivalent to comparing speeds, since both are non-negative.
use vstd::prelude::*;

verus! {

/// Whether a squared speed falls strictly inside bin `i` of width `w`:
/// `(i*w)^2 < sq < ((i+1)*w)^2`, the squared form of `i*w < speed < (i+1)*w`.
pub open spec fn in_bin(sq: int, i: int, w: int) -> bool {
    (i * w) * (i * w) < sq && sq < ((i + 1) * w) * ((i + 1) * w)
}

/// How many entries of `s` fall inside bin `i`.
pub open spec fn count_in_bin(s: Seq<u64>, i: int, w: int) -> int
    decreases s.len(),
{
    if s.len() == 0 {
        0
    } else {
        count_in_bin(s.drop_last(), i, w) + if in_bin(s.last() as int, i, w) {
            1int
        } else {
            0int
        }
    }
}

/// Whether a squared speed falls strictly inside any of the bins.
pub open spec fn classified(sq: int, bins: int, w: int) -> bool {
    exists|i: int| 0 <= i < bins && in_bin(sq, i, w)
}

/// How many entries of `s` fall inside some bin.
pub open spec fn count_classified(s: Seq<u64>, bins: int, w: int) -> int
    decreases s.len(),
{
    if s.len() == 0 {
        0
    } else {
        count_classified(s.drop_last(), bins, w) + if classified(s.last() as int, bins, w) {
            1int
        } else {
            0int
        }
    }
}

/// Total of all bin counts.
pub open spec fn sum_counts(s: Seq<u64>) -> int
    decreases s.len(),
{
    if s.len() == 0 {
        0
    } else {
        sum_counts(s.drop_last()) + s.last()
    }
}

/// A bin count never exceeds the number of entries.
proof fn lemma_count_le_len(s: Seq<u64>, i: int, w: int)
    ensures
        0 <= count_in_bin(s, i, w) <= s.len(),
    decreases s.len(),
{
    if s.len() > 0 {
        lemma_count_le_len(s.drop_last(), i, w);
    }
}

/// Distinct bins are disjoint: no squared speed lies strictly inside two.
proof fn lemma_bins_disjoint(sq: int, i: int, j: int, w: int)
    requires
        w >= 1,
        0 <= i < j,
        in_bin(sq, i, w),
    ensures
        !in_bin(sq, j, w),
{
    assert((j * w) * (j * w) >= ((i + 1) * w) * ((i + 1) * w)) by (nonlinear_arith)
        requires
            w >= 1,
            0 <= i,
            i + 1 <= j,
    ;
}

/// Updating one slot changes the total by the difference at that slot.
proof fn lemma_sum_update(s: Seq<u64>, j: int, v: u64)
    requires
        0 <= j < s.len(),
    ensures
        sum_counts(s.update(j, v)) == sum_counts(s) - s[j] + v,
    decreases s.len(),
{
    if j == s.len() - 1 {
        assert(s.update(j, v).drop_last() =~= s.drop_last());
    } else {
        assert(s.update(j, v).drop_last() =~= s.drop_last().update(j, v));
        lemma_sum_update(s.drop_last(), j, v);
    }
}

/// Builds the histogram of `speeds_sq` over `bin_count` bins of width
/// `bin_width`: slot `i` holds exactly the number of entries strictly inside
/// bin `i`, and the counts total at most the number of entries (a particle
/// on a boundary or at or above the top edge is left out).
pub fn update_histogram(speeds_sq: &Vec<u64>, bin_width: u64, bin_count: usize) -> (counts: Vec<
    u64,
>)
    requires
        1 <= bin_width,
        1 <= bin_count,
        (bin_count as int) * (bin_width as int) <= 3_000_000_000,
    ensures
        counts@.len() == bin_count,
        forall|i: int|
            0 <= i < bin_count ==> #[trigger] counts@[i] == count_in_bin(
                speeds_sq@,
                i,
                bin_width as int,
            ),
        sum_counts(counts@) == count_classified(speeds_sq@, bin_count as int, bin_width as int),
        sum_counts(counts@) <= speeds_sq@.len(),
{
    let mut counts: Vec<u64> = Vec::new();
    let mut z: usize = 0;
    while z < bin_count
        invariant
            z <= bin_count,
            counts@.len() == z,
            forall|i: int| 0 <= i < z ==> #[trigger] counts@[i] == 0,
        decreases bin_count - z,
    {
        counts.push(0);
        z = z + 1;
    }
    proof {
        lemma_zero_histogram(counts@, Seq::<u64>::empty(), bin_width as int);
    }
    let n = speeds_sq.len();
    let mut k: usize = 0;
    while k < n
        invariant
            n == speeds_sq@.len(),
            k <= n,
            1 <= bin_width,
            1 <= bin_count,
            (bin_count as int) * (bin_width as int) <= 3_000_000_000,
            counts@.len() == bin_count,
            forall|i: int|
                0 <= i < bin_count ==> #[trigger] counts@[i] == count_in_bin(
                    speeds_sq@.take(k as int),
                    i,
                    bin_width as int,
                ),
            sum_counts(counts@) == count_classified(
                speeds_sq@.take(k as int),
                bin_count as int,
                bin_width as int,
            ),
            sum_counts(counts@) <= k,
        decreases n - k,
    {
        let sq = speeds_sq[k];
        let ghost prefix = speeds_sq@.take(k as int);
        proof {
            assert(speeds_sq@.take(k as int + 1).drop_last() =~= prefix);
            assert(speeds_sq@.take(k as int + 1).last() == sq);
        }
        let mut j: usize = 0;
        let mut placed = false;
        while j < bin_count
            invariant_except_break
                n == speeds_sq@.len(),
                k < n,
                sq == speeds_sq@[k as int],
                prefix == speeds_sq@.take(k as int),
                1 <= bin_width,
                1 <= bin_count,
                (bin_count as int) * (bin_width as int) <= 3_000_000_000,
                counts@.len() == bin_count,
                j <= bin_count,
                !placed,
                forall|t: int| 0 <= t < j ==> !in_bin(sq as int, t, bin_width as int),
                forall|i: int|
                    0 <= i < bin_count ==> #[trigger] counts@[i] == count_in_bin(
                        prefix,
                        i,
                        bin_width as int,
                    ),
                sum_counts(counts@) == count_classified(prefix, bin_count as int, bin_width as int),
                sum_counts(counts@) <= k,
            ensures
                counts@.len() == bin_count,
                sum_counts(counts@) <= k + 1,
                placed ==> classified(sq as int, bin_count as int, bin_width as int)
                    && sum_counts(counts@) == count_classified(
                    prefix,
                    bin_count as int,
                    bin_width as int,
                ) + 1,
                !placed ==> !classified(sq as int, bin_count as int, bin_width as int)
                    && sum_counts(counts@) == count_classified(
                    prefix,
                    bin_count as int,
                    bin_width as int,
                ),
                placed ==> forall|i: int|
                    0 <= i < bin_count ==> #[trigger] counts@[i] == count_in_bin(
                        prefix.push(sq),
                        i,
                        bin_width as int,
                    ),
                !placed ==> sum_counts(counts@) <= k,
                !placed ==> forall|t: int| 0 <= t < bin_count ==> !in_bin(
                    sq as int,
                    t,
                    bin_width as int,
                ),
                !placed ==> forall|i: int|
                    0 <= i < bin_count ==> #[trigger] counts@[i] == count_in_bin(
                        prefix,
                        i,
                        bin_width as int,
                    ),
            decreases bin_count - j,
        {
            proof {
                assert((j as int) * (bin_width as int) <= (bin_count as int) * (bin_width as int)
                    && (j as int + 1) * (bin_width as int) <= (bin_count as int) * (bin_width
                    as int)) by (nonlinear_arith)
                    requires
                        0 <= (j as int) < (bin_count as int),
                        1 <= (bin_width as int),
                ;
                assert(0 <= (j as int) * (bin_width as int) && 0 <= (j as int + 1) * (bin_width
                    as int)) by (nonlinear_arith)
                    requires
                        0 <= (j as int),
                        1 <= (bin_width as int),
                ;
            }
            let lo = (j as u64) * bin_width;
            let hi = (j as u64 + 1) * bin_width;
            proof {
                crate::num::lemma_mul_bound(lo as int, lo as int, 3_000_000_000);
                crate::num::lemma_mul_bound(hi as int, hi as int, 3_000_000_000);
            }
            if lo * lo < sq && sq < hi * hi {
                proof {
                    lemma_count_le_len(prefix, j as int, bin_width as int);
                    lemma_sum_update(counts@, j as int, (counts@[j as int] + 1) as u64);
                    assert forall|i: int| 0 <= i < bin_count implies #[trigger] count_in_bin(
                        prefix.push(sq),
                        i,
                        bin_width as int,
                    ) == count_in_bin(prefix, i, bin_width as int) + if i == j as int {
                        1int
                    } else {
                        0int
                    } by {
                        assert(prefix.push(sq).drop_last() =~= prefix);
                        if i != j as int && in_bin(sq as int, i, bin_width as int) {
                            if i < j as int {
                                lemma_bins_disjoint(sq as int, i, j as int, bin_width as int);
                            } else {
                                lemma_bins_disjoint(sq as int, j as int, i, bin_width as int);
                            }
                        }
                    }
                }
                let c = counts[j];
                proof {
                    lemma_count_le_len(prefix, j as int, bin_width as int);
                    assert(prefix.len() == k as int);
                    assert(c <= k);
                    assert(classified(sq as int, bin_count as int, bin_width as int)) by {
                        assert(in_bin(sq as int, j as int, bin_width as int));
                    }
                }
                *vstd::std_specs::vec::vec_index_mut(&mut counts, j) = c + 1;
                placed = true;
                break ;
            }
            j = j + 1;
        }
        if !placed {
            proof {
                assert forall|i: int| 0 <= i < bin_count implies #[trigger] count_in_bin(
                    prefix.push(sq),
                    i,
                    bin_width as int,
                ) == count_in_bin(prefix, i, bin_width as int) by {
                    assert(prefix.push(sq).drop_last() =~= prefix);
                }
            }
        }
        proof {
            assert(prefix.push(sq).drop_last() =~= prefix);
            assert(count_classified(prefix.push(sq), bin_count as int, bin_width as int)
                == count_classified(prefix, bin_count as int, bin_width as int) + if classified(
                sq as int,
                bin_count as int,
                bin_width as int,
            ) {
                1int
            } else {
                0int
            });
        }
        k = k + 1;
        proof {
            assert(speeds_sq@.take(k as int) =~= prefix.push(sq));
        }
    }
    proof {
        assert(speeds_sq@.take(n as int) =~= speeds_sq@);
    }
    counts
}

/// An all-zero count vector is the histogram of the empty sequence.
proof fn lemma_zero_histogram(counts: Seq<u64>, empty: Seq<u64>, w: int)
    requires
        forall|i: int| 0 <= i < counts.len() ==> #[trigger] counts[i] == 0,
        empty.len() == 0,
    ensures
        forall|i: int| 0 <= i < counts.len() ==> #[trigger] counts[i] == count_in_bin(empty, i, w),
        sum_counts(counts) == 0,
    decreases counts.len(),
{
    if counts.len() > 0 {
        lemma_zero_histogram(counts.drop_last(), empty, w);
    }
}

} // verus!
