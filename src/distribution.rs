use vstd::prelude::*;

verus! {

/// Why a test could not be carried out.
#[derive(Clone, Copy, Debug, PartialEq, Eq, Structural)]
pub enum WilcoxonError {
    /// The two samples differ in length.
    LengthMismatch,
    /// The null distribution cannot be set up for the sample: it is empty, or
    /// the variance of the normal approximation would not be positive.
    InvalidDistributionParameters,
}

/// Samples below this size, without zero differences or ties, use the exact
/// null distribution; all others the normal approximation.
pub const EXACT_LIMIT: u64 = 20;

/// Null distribution of the signed-rank statistic, set up from the sample
/// size, the number of zero differences and the tie correction. Moments are
/// scaled so that they stay integers.
#[derive(Clone, Copy, Debug, PartialEq, Eq, Structural)]
pub enum SignedRankDistribution {
    /// Exact distribution over the `2^n` sign assignments of ranks `1 ..= n`.
    Exact { n: u64 },
    /// Normal approximation over the `n` non-zero differences, with four
    /// times the mean and forty-eight times the tie-corrected variance.
    Normal { n: u64, mean4: u128, var48: u128 },
}

pub open spec fn uses_exact(n: int, zeros: int, tc: int) -> bool {
    zeros == 0 && tc == 0 && n < EXACT_LIMIT
}

/// Forty-eight times the variance of the statistic over `m` non-zero
/// differences: `m(m+1)(2m+1)/24 - tc/48`.
pub open spec fn normal_var48(m: int, tc: int) -> int {
    2 * m * (m + 1) * (2 * m + 1) - tc
}

/// The distribution can be set up: the sample is not empty and, unless the
/// exact distribution applies, the approximation has a positive variance.
pub open spec fn params_valid(n: int, zeros: int, tc: int) -> bool {
    0 < n && zeros <= n && (uses_exact(n, zeros, tc) || normal_var48(n - zeros, tc) > 0)
}

/// The distribution set up for valid parameters.
pub open spec fn null_distribution(n: int, zeros: int, tc: int) -> SignedRankDistribution {
    if uses_exact(n, zeros, tc) {
        SignedRankDistribution::Exact { n: n as u64 }
    } else {
        let m = n - zeros;
        SignedRankDistribution::Normal {
            n: m as u64,
            mean4: (m * (m + 1)) as u128,
            var48: normal_var48(m, tc) as u128,
        }
    }
}

pub open spec fn pow2(k: nat) -> nat
    decreases k,
{
    if k == 0 {
        1
    } else {
        2 * pow2((k - 1) as nat)
    }
}

/// Number of subsets of `{1, ..., k}` whose elements add up to `s`: the
/// number of sign assignments of ranks `1 ..= k` with positive rank sum `s`.
pub open spec fn subset_count(k: nat, s: int) -> nat
    decreases k,
{
    if s < 0 {
        0
    } else if k == 0 {
        if s == 0 {
            1
        } else {
            0
        }
    } else {
        subset_count((k - 1) as nat, s) + subset_count((k - 1) as nat, s - k)
    }
}

/// Number of subsets of `{1, ..., k}` whose sum is at most `w`.
pub open spec fn tail_count(k: nat, w: int) -> nat
    decreases w + 1,
{
    if w < 0 {
        0
    } else {
        tail_count(k, w - 1) + subset_count(k, w)
    }
}

/// Two-sided exact p-value as a fraction over `2^n`: twice the lower tail
/// at `w`, capped at one.
pub open spec fn exact_p_numerator(n: nat, w: int) -> int {
    if 2 * tail_count(n, w) < pow2(n) {
        (2 * tail_count(n, w)) as int
    } else {
        pow2(n) as int
    }
}

proof fn lemma_subset_count_bounded(k: nat, s: int)
    ensures
        subset_count(k, s) <= pow2(k),
        s > k * (k + 1) / 2 ==> subset_count(k, s) == 0,
    decreases k,
{
    if k > 0 && s >= 0 {
        lemma_subset_count_bounded((k - 1) as nat, s);
        lemma_subset_count_bounded((k - 1) as nat, s - k);
        assert(k * (k + 1) / 2 == (k - 1) * k / 2 + k) by (nonlinear_arith);
    }
}

pub proof fn lemma_tail_count_saturates(k: nat, w: int, top: int)
    requires
        top == k * (k + 1) / 2,
        w >= top,
    ensures
        tail_count(k, w) == tail_count(k, top),
    decreases w - top,
{
    if w > top {
        lemma_subset_count_bounded(k, w);
        lemma_tail_count_saturates(k, w - 1, top);
    }
}

impl SignedRankDistribution {
    /// Exact two-sided p-value of the statistic `w` among `n` ranks, as the
    /// fraction `(numerator, 2^n)`: twice the share of the `2^n` sign
    /// assignments whose positive rank sum is at most `w`, capped at one.
    pub fn exact_p_value(n: u64, w: u64) -> (r: (u64, u64))
        requires
            n < EXACT_LIMIT,
        ensures
            r.1 == pow2(n as nat),
            r.0 == exact_p_numerator(n as nat, w as int),
            r.0 <= r.1,
    {
        proof {
            assert(n * (n + 1) <= 380) by (nonlinear_arith)
                requires n < 20;
        }
        let top: u64 = n * (n + 1) / 2;
        let wc: u64 = if w < top { w } else { top };
        proof {
            if w >= top {
                lemma_tail_count_saturates(n as nat, w as int, top as int);
            }
        }
        let mut counts: Vec<u64> = Vec::new();
        let mut s: u64 = 0;
        while s <= wc
            invariant
                wc <= top <= 190,
                s <= wc + 1,
                counts@.len() == s,
                forall|m: int| 0 <= m < s ==> counts@[m] == subset_count(0, m),
            decreases wc + 1 - s,
        {
            counts.push(if s == 0 { 1 } else { 0 });
            s = s + 1;
        }
        let mut k: u64 = 1;
        let mut full: u64 = 1;
        while k <= n
            invariant
                n < EXACT_LIMIT,
                wc <= top <= 190,
                1 <= k <= n + 1,
                full == pow2((k - 1) as nat),
                counts@.len() == wc + 1,
                forall|m: int| 0 <= m <= wc ==> counts@[m] == subset_count((k - 1) as nat, m),
            decreases n + 1 - k,
        {
            let mut next: Vec<u64> = Vec::new();
            let mut t: u64 = 0;
            while t <= wc
                invariant
                    1 <= k <= n < EXACT_LIMIT,
                    wc <= 190,
                    t <= wc + 1,
                    next@.len() == t,
                    counts@.len() == wc + 1,
                    forall|m: int| 0 <= m <= wc ==> counts@[m] == subset_count((k - 1) as nat, m),
                    forall|m: int| 0 <= m < t ==> next@[m] == subset_count(k as nat, m),
                decreases wc + 1 - t,
            {
                proof {
                    lemma_subset_count_bounded((k - 1) as nat, t as int);
                    lemma_subset_count_bounded((k - 1) as nat, t - k);
                    lemma_pow2_small((k - 1) as nat);
                }
                let c = if t >= k { counts[t as usize] + counts[(t - k) as usize] } else { counts[t as usize] };
                next.push(c);
                proof {
                    assert(subset_count(k as nat, t as int) == subset_count((k - 1) as nat, t as int)
                        + subset_count((k - 1) as nat, t - k));
                }
                t = t + 1;
            }
            counts = next;
            proof {
                lemma_pow2_small((k - 1) as nat);
            }
            full = full * 2;
            k = k + 1;
        }
        let mut tail: u64 = 0;
        let mut u: u64 = 0;
        while u <= wc
            invariant
                n < EXACT_LIMIT,
                wc <= 190,
                u <= wc + 1,
                counts@.len() == wc + 1,
                full == pow2(n as nat),
                forall|m: int| 0 <= m <= wc ==> counts@[m] == subset_count(n as nat, m),
                tail == tail_count(n as nat, u - 1),
                tail <= u * full,
            decreases wc + 1 - u,
        {
            proof {
                lemma_subset_count_bounded(n as nat, u as int);
                lemma_pow2_small(n as nat);
                assert(tail + counts@[u as int] <= (u + 1) * full) by (nonlinear_arith)
                    requires tail <= u * full, counts@[u as int] <= full;
                assert((u + 1) * full <= 191 * 524288) by (nonlinear_arith)
                    requires u + 1 <= 191, full <= 524288;
            }
            tail = tail + counts[u as usize];
            u = u + 1;
        }
        proof {
            lemma_pow2_small(n as nat);
            assert(tail <= 191 * 524288) by (nonlinear_arith)
                requires tail <= u * full, u <= 191, full <= 524288;
            if w >= top {
                lemma_tail_count_saturates(n as nat, w as int, top as int);
            }
        }
        if 2 * tail < full {
            (2 * tail, full)
        } else {
            (full, full)
        }
    }
}

proof fn lemma_pow2_small(k: nat)
    requires
        k < EXACT_LIMIT,
    ensures
        1 <= pow2(k) <= 524288,
    decreases k,
{
    if k > 0 {
        lemma_pow2_small((k - 1) as nat);
    }
    reveal_with_fuel(pow2, 20);
    assert(pow2(19) == 524288);
    if k < 19 {
        lemma_pow2_monotone(k, 19);
    }
}

proof fn lemma_pow2_monotone(a: nat, b: nat)
    requires
        a <= b,
    ensures
        pow2(a) <= pow2(b),
    decreases b - a,
{
    if a < b {
        lemma_pow2_monotone(a, (b - 1) as nat);
    }
}

impl SignedRankDistribution {
    /// Sets up the null distribution for `n` pairs, `zeros` of which have a
    /// zero difference, with tie correction `tc`.
    pub fn new(n: u64, zeros: u64, tc: u128) -> (r: Result<SignedRankDistribution, WilcoxonError>)
        requires
            n <= crate::rank_math::MAX_SAMPLES,
        ensures
            r.is_ok() == params_valid(n as int, zeros as int, tc as int),
            r matches Ok(d) ==> d == null_distribution(n as int, zeros as int, tc as int),
            r matches Err(e) ==> e == WilcoxonError::InvalidDistributionParameters,
    {
        if n == 0 || zeros > n {
            return Err(WilcoxonError::InvalidDistributionParameters);
        }
        if zeros == 0 && tc == 0 && n < EXACT_LIMIT {
            return Ok(SignedRankDistribution::Exact { n });
        }
        let m = (n - zeros) as u128;
        proof {
            assert(m * (m + 1) <= 1_099_511_627_777 * 1_099_511_627_777) by (nonlinear_arith)
                requires m <= 1_099_511_627_776;
            assert(2 * m * (m + 1) <= 2 * 1_099_511_627_777 * 1_099_511_627_777) by (nonlinear_arith)
                requires m <= 1_099_511_627_776;
            assert(2 * m * (m + 1) * (2 * m + 1) <= 2 * 1_099_511_627_777 * 1_099_511_627_777 * 2_199_023_255_553) by (nonlinear_arith)
                requires m <= 1_099_511_627_776;
        }
        let scaled = 2 * m * (m + 1) * (2 * m + 1);
        if scaled <= tc {
            return Err(WilcoxonError::InvalidDistributionParameters);
        }
        Ok(SignedRankDistribution::Normal { n: m as u64, mean4: m * (m + 1), var48: scaled - tc })
    }
}

} // verus!
