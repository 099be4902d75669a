use vstd::prelude::*;
use crate::distribution::{
    exact_p_numerator, null_distribution, params_valid, pow2, SignedRankDistribution,
    WilcoxonError, EXACT_LIMIT,
};
use crate::rank_math::{
    lemma_statistics_permutation, magnitudes_fit, neg_rank_sum2, neg_term, pos_rank_sum2,
    pos_term, sum_of, tie_correction, zero_count, zero_ind, MAX_SAMPLES,
};
use crate::sorting::{sort_by_magnitude, SortStrategy};
use crate::ties::resolve_ties;

verus! {

/// The paired differences `x[i] - y[i]`.
pub open spec fn differences(x: Seq<i64>, y: Seq<i64>) -> Seq<i128> {
    Seq::new(x.len(), |i: int| (x[i] - y[i]) as i128)
}

/// Outcome of a Wilcoxon signed-rank test. Rank sums are doubled, so that
/// they are integers even where ties give half ranks.
#[derive(Clone, Copy, Debug, PartialEq, Eq, Structural)]
pub struct WilcoxonWTest {
    /// Number of pairs.
    pub n: u64,
    /// Number of pairs whose difference is zero.
    pub zeros: u64,
    /// Sum over all tie groups of `t^3 - t`.
    pub tie_correction: u128,
    /// Twice the sum of the ranks of the negative differences (`x < y`).
    pub neg_rank_sum2: u128,
    /// Twice the sum of the ranks of the positive differences (`x > y`).
    pub pos_rank_sum2: u128,
    /// Null distribution of the smaller rank sum.
    pub distribution: SignedRankDistribution,
}

impl WilcoxonWTest {
    /// `self` is the outcome of the test on the differences `d`.
    pub open spec fn describes(self, d: Seq<i128>) -> bool {
        &&& self.n == d.len()
        &&& self.zeros == zero_count(d)
        &&& self.tie_correction == tie_correction(d)
        &&& self.neg_rank_sum2 == neg_rank_sum2(d)
        &&& self.pos_rank_sum2 == pos_rank_sum2(d)
        &&& self.distribution == null_distribution(d.len() as int, zero_count(d), tie_correction(d))
    }

    /// Runs the test on differences computed beforehand: sorts them by
    /// magnitude with `strategy`, ranks them with ties averaged, and sums the
    /// ranks of each sign; zero differences are only counted.
    pub fn from_differences(deltas: Vec<i128>, strategy: SortStrategy) -> (r: Result<
        WilcoxonWTest,
        WilcoxonError,
    >)
        requires
            magnitudes_fit(deltas@),
            deltas@.len() <= MAX_SAMPLES,
        ensures
            r.is_ok() == params_valid(
                deltas@.len() as int,
                zero_count(deltas@),
                tie_correction(deltas@),
            ),
            r matches Ok(t) ==> t.describes(deltas@),
            r matches Err(e) ==> e == WilcoxonError::InvalidDistributionParameters,
    {
        let ghost d = deltas@;
        let mut v = deltas;
        sort_by_magnitude(&mut v, strategy);
        let ghost s = v@;
        proof {
            lemma_statistics_permutation(s, d);
        }
        let res = resolve_ties(&v);
        let n = v.len();
        let mut neg: u128 = 0;
        let mut pos: u128 = 0;
        let mut zeros: u64 = 0;
        let mut k: usize = 0;
        while k < n
            invariant
                s == v@,
                n == s.len(),
                n <= MAX_SAMPLES,
                res.ranks2@.len() == n,
                forall|m: int| 0 <= m < n ==> res.ranks2@[m] == crate::rank_math::rank2(s, s[m]),
                k <= n,
                neg == sum_of(s.subrange(0, k as int), neg_term(s)),
                pos == sum_of(s.subrange(0, k as int), pos_term(s)),
                zeros == sum_of(s.subrange(0, k as int), zero_ind()),
                neg <= k * 0xFFFF_FFFF_FFFF_FFFF,
                pos <= k * 0xFFFF_FFFF_FFFF_FFFF,
                zeros <= k,
            decreases n - k,
        {
            let delta = v[k];
            let rank = res.ranks2[k] as u128;
            proof {
                assert(s.subrange(0, k + 1) =~= s.subrange(0, k as int).push(s[k as int]));
                assert(s.subrange(0, k + 1).drop_last() =~= s.subrange(0, k as int));
            }
            if delta < 0 {
                neg = neg + rank;
            } else if delta > 0 {
                pos = pos + rank;
            } else {
                zeros = zeros + 1;
            }
            k = k + 1;
        }
        proof {
            assert(s.subrange(0, n as int) =~= s);
        }
        let tc = res.tie_correction;
        match SignedRankDistribution::new(n as u64, zeros, tc) {
            Ok(distribution) => Ok(
                WilcoxonWTest {
                    n: n as u64,
                    zeros,
                    tie_correction: tc,
                    neg_rank_sum2: neg,
                    pos_rank_sum2: pos,
                    distribution,
                },
            ),
            Err(e) => Err(e),
        }
    }

    /// Runs the test on the paired samples `x` and `y`, sorting the
    /// differences with `strategy`. Samples of different lengths are refused.
    pub fn paired_with_sort(x: &Vec<i64>, y: &Vec<i64>, strategy: SortStrategy) -> (r: Result<
        WilcoxonWTest,
        WilcoxonError,
    >)
        requires
            x@.len() <= MAX_SAMPLES,
        ensures
            x@.len() != y@.len() ==> r == Err::<WilcoxonWTest, WilcoxonError>(
                WilcoxonError::LengthMismatch,
            ),
            x@.len() == y@.len() ==> {
                let d = differences(x@, y@);
                &&& r.is_ok() == params_valid(x@.len() as int, zero_count(d), tie_correction(d))
                &&& r matches Ok(t) ==> t.describes(d)
                &&& r matches Err(e) ==> e == WilcoxonError::InvalidDistributionParameters
            },
    {
        if x.len() != y.len() {
            return Err(WilcoxonError::LengthMismatch);
        }
        let mut deltas: Vec<i128> = Vec::new();
        let mut i: usize = 0;
        while i < x.len()
            invariant
                x@.len() == y@.len(),
                i <= x@.len(),
                deltas@.len() == i,
                forall|k: int| 0 <= k < i ==> deltas@[k] == differences(x@, y@)[k],
            decreases x@.len() - i,
        {
            deltas.push(x[i] as i128 - y[i] as i128);
            i = i + 1;
        }
        proof {
            assert(deltas@ =~= differences(x@, y@));
        }
        WilcoxonWTest::from_differences(deltas, strategy)
    }

    /// Runs the test, ordering the differences with a comparison sort.
    pub fn paired(x: &Vec<i64>, y: &Vec<i64>) -> (r: Result<WilcoxonWTest, WilcoxonError>)
        requires
            x@.len() <= MAX_SAMPLES,
        ensures
            x@.len() != y@.len() ==> r == Err::<WilcoxonWTest, WilcoxonError>(
                WilcoxonError::LengthMismatch,
            ),
            x@.len() == y@.len() ==> {
                let d = differences(x@, y@);
                &&& r.is_ok() == params_valid(x@.len() as int, zero_count(d), tie_correction(d))
                &&& r matches Ok(t) ==> t.describes(d)
                &&& r matches Err(e) ==> e == WilcoxonError::InvalidDistributionParameters
            },
    {
        WilcoxonWTest::paired_with_sort(x, y, SortStrategy::Comparison)
    }

    /// Runs the test, ordering the differences with a radix sort.
    pub fn voracious_paired(x: &Vec<i64>, y: &Vec<i64>) -> (r: Result<WilcoxonWTest, WilcoxonError>)
        requires
            x@.len() <= MAX_SAMPLES,
        ensures
            x@.len() != y@.len() ==> r == Err::<WilcoxonWTest, WilcoxonError>(
                WilcoxonError::LengthMismatch,
            ),
            x@.len() == y@.len() ==> {
                let d = differences(x@, y@);
                &&& r.is_ok() == params_valid(x@.len() as int, zero_count(d), tie_correction(d))
                &&& r matches Ok(t) ==> t.describes(d)
                &&& r matches Err(e) ==> e == WilcoxonError::InvalidDistributionParameters
            },
    {
        WilcoxonWTest::paired_with_sort(x, y, SortStrategy::Radix)
    }

    /// Twice the rank sums, negative differences first, then positive ones.
    pub fn estimate2(&self) -> (r: (u128, u128))
        ensures
            r == (self.neg_rank_sum2, self.pos_rank_sum2),
    {
        (self.neg_rank_sum2, self.pos_rank_sum2)
    }

    /// Twice the smaller of the two rank sums: the test statistic.
    pub fn min_rank_sum2(&self) -> (r: u128)
        ensures
            r == min_of(self.neg_rank_sum2 as int, self.pos_rank_sum2 as int),
    {
        if self.neg_rank_sum2 < self.pos_rank_sum2 {
            self.neg_rank_sum2
        } else {
            self.pos_rank_sum2
        }
    }

    /// Effect size as a fraction: the smaller rank sum over the largest
    /// possible one, `n(n+1)/2`, both doubled.
    pub fn effect_size_ratio(&self) -> (r: (u128, u128))
        requires
            self.n <= MAX_SAMPLES,
        ensures
            r.0 == min_of(self.neg_rank_sum2 as int, self.pos_rank_sum2 as int),
            r.1 == self.n * (self.n + 1),
    {
        let n = self.n as u128;
        proof {
            assert(n * (n + 1) <= 1_099_511_627_776 * 1_099_511_627_777) by (nonlinear_arith)
                requires n <= 1_099_511_627_776;
        }
        (self.min_rank_sum2(), n * (n + 1))
    }
}

impl WilcoxonWTest {
    /// The p-value as a fraction `(numerator, 2^n)` where the exact null
    /// distribution applies; `None` where the normal approximation does.
    pub fn exact_p_value(&self) -> (r: Option<(u64, u64)>)
        ensures
            match self.distribution {
                SignedRankDistribution::Exact { n } => n < EXACT_LIMIT ==> r == Some(
                    (
                        exact_p_numerator(n as nat, min_of(self.neg_rank_sum2 as int, self.pos_rank_sum2 as int) / 2) as u64,
                        pow2(n as nat) as u64,
                    ),
                ),
                SignedRankDistribution::Normal { .. } => r.is_none(),
            },
            r matches Some(p) ==> p.0 <= p.1,
    {
        match self.distribution {
            SignedRankDistribution::Exact { n } => {
                if n < EXACT_LIMIT {
                    let w = self.min_rank_sum2() / 2;
                    if w > 0xFFFF_FFFF_FFFF_FFFF {
                        proof {
                            assert(n * (n + 1) <= 380) by (nonlinear_arith)
                                requires n < 20;
                            let top = n * (n + 1) / 2;
                            crate::distribution::lemma_tail_count_saturates(n as nat, w as int, top);
                            crate::distribution::lemma_tail_count_saturates(n as nat, 0xFFFF_FFFF_FFFF_FFFF, top);
                        }
                        Some(SignedRankDistribution::exact_p_value(n, 0xFFFF_FFFF_FFFF_FFFF))
                    } else {
                        Some(SignedRankDistribution::exact_p_value(n, w as u64))
                    }
                } else {
                    None
                }
            },
            SignedRankDistribution::Normal { .. } => None,
        }
    }
}

pub open spec fn min_of(a: int, b: int) -> int {
    if a < b {
        a
    } else {
        b
    }
}

} // verus!
