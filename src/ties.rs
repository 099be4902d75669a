use vstd::prelude::*;
use crate::abs_wrapper::AbsWrapper;
use crate::rank_math::{
    lemma_group_counts, lemma_sum_append, lemma_sum_const, magnitudes_fit, rank2, sorted_by_abs,
    sum_of, tie_correction, tie_term, rank_term, abs_val, MAX_SAMPLES,
};

verus! {

/// Ranks of a sequence sorted by magnitude, with ties averaged.
pub struct TieResolution {
    /// Twice the rank of each difference, in the order of the sequence.
    pub ranks2: Vec<u64>,
    /// Sum over all tie groups of `t^3 - t`.
    pub tie_correction: u128,
}

/// Gives every difference of `sorted` its rank by magnitude, in one forward
/// scan: the members of a tie group all get the mean of the positions they
/// span. Zero differences form a group like any other magnitude.
pub fn resolve_ties(sorted: &Vec<i128>) -> (r: TieResolution)
    requires
        sorted_by_abs(sorted@),
        magnitudes_fit(sorted@),
        sorted@.len() <= MAX_SAMPLES,
    ensures
        r.ranks2@.len() == sorted@.len(),
        forall|k: int| 0 <= k < sorted@.len() ==> r.ranks2@[k] == rank2(sorted@, sorted@[k]),
        r.tie_correction == tie_correction(sorted@),
        sum_of(sorted@, rank_term(sorted@)) == sorted@.len() * (sorted@.len() + 1),
{
    let ghost s = sorted@;
    let n = sorted.len();
    let mut ranks2: Vec<u64> = Vec::new();
    let mut tc: u128 = 0;
    let mut i: usize = 0;
    while i < n
        invariant
            s == sorted@,
            n == s.len(),
            n <= MAX_SAMPLES,
            sorted_by_abs(s),
            magnitudes_fit(s),
            i <= n,
            ranks2@.len() == i,
            forall|k: int| 0 <= k < i ==> ranks2@[k] == rank2(s, s[k]),
            tc == sum_of(s.subrange(0, i as int), tie_term(s)),
            tc <= (i as int) * (n as int) * (n as int),
            sum_of(s.subrange(0, i as int), rank_term(s)) == i * (i + 1),
            0 < i < n ==> abs_val(s[i - 1]) < abs_val(s[i as int]),
        decreases n - i,
    {
        let head = AbsWrapper::from(sorted[i]);
        let mut j: usize = i + 1;
        // in sorted order, no larger magnitude than the head's means an equal one
        while j < n && AbsWrapper::from(sorted[j]).le_abs(&head)
            invariant
                s == sorted@,
                n == s.len(),
                sorted_by_abs(s),
                magnitudes_fit(s),
                i < j <= n,
                head.value == s[i as int],
                forall|k: int| i <= k < j ==> abs_val(#[trigger] s[k]) == abs_val(s[i as int]),
            decreases n - j,
        {
            j = j + 1;
        }
        let ghost v = s[i as int];
        proof {
            lemma_group_counts(s, i as int, j as int, v);
            assert forall|k: int| i <= k < j implies rank2(s, #[trigger] s[k]) == 2 * i + (j - i) + 1 by {
                lemma_group_counts(s, i as int, j as int, s[k]);
            }
        }
        let t = (j - i) as u64;
        let r = 2 * (i as u64) + t + 1;
        let mut k: usize = i;
        while k < j
            invariant
                i <= k <= j,
                j <= n,
                n == s.len(),
                ranks2@.len() == k,
                r == 2 * i + (j - i) + 1,
                forall|m: int| 0 <= m < k ==> ranks2@[m] == rank2(s, s[m]),
                forall|m: int| i <= m < j ==> rank2(s, #[trigger] s[m]) == 2 * i + (j - i) + 1,
            decreases j - k,
        {
            ranks2.push(r);
            k = k + 1;
        }
        let tw = t as u128;
        proof {
            let g = tie_term(s);
            let grp = s.subrange(i as int, j as int);
            assert forall|m: int| 0 <= m < grp.len() implies g(grp[m]) == (t * t - 1) by {
                lemma_group_counts(s, i as int, j as int, grp[m]);
            }
            lemma_sum_const(grp, g, t * t - 1);
            let rt = rank_term(s);
            assert forall|m: int| 0 <= m < grp.len() implies rt(grp[m]) == 2 * i + t + 1 by {
                lemma_group_counts(s, i as int, j as int, grp[m]);
            }
            lemma_sum_const(grp, rt, 2 * i + t + 1);
            lemma_sum_append(s.subrange(0, i as int), grp, rt);
            assert((2 * i + t + 1) * t + i * (i + 1) == j * (j + 1)) by (nonlinear_arith)
                requires j == i + t;
            assert(sum_of(grp, g) == (t * t - 1) * t);
            assert((t * t - 1) * t == t * (t * t - 1)) by (nonlinear_arith);
            assert(s.subrange(0, j as int) =~= s.subrange(0, i as int) + grp);
            lemma_sum_append(s.subrange(0, i as int), grp, g);
            assert(t <= n);
            assert(t * (t * t - 1) <= t * n * n) by (nonlinear_arith)
                requires t <= n, t >= 1;
            assert((i as int) * n * n + t * n * n == (j as int) * n * n) by (nonlinear_arith)
                requires j == i + t;
            assert(j * n * n <= n * n * n) by (nonlinear_arith)
                requires j <= n;
            assert(n * n * n <= 1_099_511_627_776 * 1_099_511_627_776 * 1_099_511_627_776) by (nonlinear_arith)
                requires n <= 1_099_511_627_776;
            assert(tw * tw * tw <= n * n * n) by (nonlinear_arith)
                requires tw <= n;
            assert(tw * tw <= n * n) by (nonlinear_arith)
                requires tw <= n;
            assert(tw * tw <= 1_208_925_819_614_629_174_706_176) by (nonlinear_arith)
                requires tw <= 1_099_511_627_776;
            assert(tw <= tw * tw * tw) by (nonlinear_arith)
                requires tw >= 1;
            assert(tw * tw * tw - tw == t * (t * t - 1)) by (nonlinear_arith)
                requires tw == t;
            assert(tc + t * (t * t - 1) <= n * n * n);
        }
        tc = tc + (tw * tw * tw - tw);
        proof {
            assert(tc == sum_of(s.subrange(0, j as int), tie_term(s)));
        }
        i = j;
    }
    proof {
        assert(s.subrange(0, n as int) =~= s);
    }
    TieResolution { ranks2, tie_correction: tc }
}

} // verus!
