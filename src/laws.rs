use vstd::prelude::*;
use crate::distribution::null_distribution;
use crate::rank_math::{
    abs_val, lemma_sum_bounds, lemma_sum_congruent, lemma_sum_remove, less_count, less_ind,
    magnitudes_fit, neg_rank_sum2, neg_term, nonzero_rank_sum2, nonzero_term, pos_rank_sum2,
    pos_term, rank2, rank_term, sum_of, tie_correction, tie_count, tie_ind, tie_term,
    zero_count, zero_ind,
};
use crate::wilcoxon::{differences, min_of, WilcoxonWTest};

verus! {

pub proof fn lemma_sum_add(
    s: Seq<i128>,
    f: spec_fn(i128) -> int,
    g: spec_fn(i128) -> int,
    h: spec_fn(i128) -> int,
)
    requires
        forall|i: int| 0 <= i < s.len() ==> h(s[i]) == f(s[i]) + g(s[i]),
    ensures
        sum_of(s, h) == sum_of(s, f) + sum_of(s, g),
    decreases s.len(),
{
    if s.len() > 0 {
        lemma_sum_add(s.drop_last(), f, g, h);
    }
}

pub proof fn lemma_sum_le(s: Seq<i128>, f: spec_fn(i128) -> int, g: spec_fn(i128) -> int)
    requires
        forall|i: int| 0 <= i < s.len() ==> f(s[i]) <= g(s[i]),
    ensures
        sum_of(s, f) <= sum_of(s, g),
    decreases s.len(),
{
    if s.len() > 0 {
        lemma_sum_le(s.drop_last(), f, g);
    }
}

/// A sum of non-negative terms is at least any one of them.
pub proof fn lemma_sum_at_least_term(s: Seq<i128>, g: spec_fn(i128) -> int, i: int)
    requires
        0 <= i < s.len(),
        forall|k: int| 0 <= k < s.len() ==> #[trigger] g(s[k]) >= 0,
    ensures
        sum_of(s, g) >= g(s[i]),
        sum_of(s, g) >= 0,
{
    lemma_sum_remove(s, i, g);
    let r = s.remove(i);
    assert forall|k: int| 0 <= k < r.len() implies #[trigger] g(r[k]) >= 0 by {
        if k < i {
            assert(r[k] == s[k]);
        } else {
            assert(r[k] == s[k + 1]);
        }
    }
    lemma_sum_nonneg(r, g);
}

pub proof fn lemma_sum_nonneg(s: Seq<i128>, g: spec_fn(i128) -> int)
    requires
        forall|k: int| 0 <= k < s.len() ==> #[trigger] g(s[k]) >= 0,
    ensures
        sum_of(s, g) >= 0,
    decreases s.len(),
{
    if s.len() > 0 {
        lemma_sum_nonneg(s.drop_last(), g);
    }
}

pub proof fn lemma_counts_nonneg(d: Seq<i128>, v: i128)
    ensures
        less_count(d, v) >= 0,
        tie_count(d, v) >= 0,
        rank2(d, v) >= 1,
{
    lemma_sum_bounds(d, less_ind(v), 0, 1);
    lemma_sum_bounds(d, tie_ind(v), 0, 1);
}

/// Each difference ties at least with itself.
pub proof fn lemma_tie_count_member(d: Seq<i128>, i: int)
    requires
        0 <= i < d.len(),
    ensures
        tie_count(d, d[i]) >= 1,
{
    lemma_sum_bounds(d, tie_ind(d[i]), 0, 1);
    lemma_sum_at_least_term(d, tie_ind(d[i]), i);
}

/// The doubled ranks of all `n` differences add up to `n(n+1)`: ranks
/// averaged over ties keep the total `1 + 2 + ... + n`.
pub proof fn lemma_total_rank_sum(d: Seq<i128>)
    ensures
        sum_of(d, rank_term(d)) == d.len() * (d.len() + 1),
    decreases d.len(),
{
    if d.len() > 0 {
        let d0 = d.drop_last();
        let x = d.last();
        let n0 = d0.len();
        lemma_total_rank_sum(d0);
        let w = |e: i128|
            2 * (if abs_val(x) < abs_val(e) { 1int } else { 0int }) + (if abs_val(x) == abs_val(
                e,
            ) {
                1int
            } else {
                0int
            });
        assert forall|e: i128| #[trigger] rank_term(d)(e) == rank_term(d0)(e) + w(e) by {
            assert(less_count(d, e) == less_count(d0, e) + less_ind(e)(x));
            assert(tie_count(d, e) == tie_count(d0, e) + tie_ind(e)(x));
        }
        lemma_sum_add(d0, rank_term(d0), w, rank_term(d));
        let back = |e: i128| 2 * less_ind(x)(e) + tie_ind(x)(e);
        let two = |e: i128| 2int;
        assert forall|e: i128| #[trigger] two(e) == w(e) + back(e) by {}
        lemma_sum_add(d0, w, back, two);
        lemma_sum_add(d0, |e: i128| 2 * less_ind(x)(e), tie_ind(x), back);
        lemma_sum_doubled(d0, less_ind(x));
        crate::rank_math::lemma_sum_const(d0, two, 2);
        assert(rank_term(d)(x) == 2 * less_count(d0, x) + tie_count(d0, x) + 2);
        assert(n0 * (n0 + 1) + 2 * n0 + 2 == (n0 + 1) * (n0 + 2)) by (nonlinear_arith);
    }
}

pub proof fn lemma_sum_doubled(s: Seq<i128>, g: spec_fn(i128) -> int)
    ensures
        sum_of(s, |e: i128| 2 * g(e)) == 2 * sum_of(s, g),
    decreases s.len(),
{
    if s.len() > 0 {
        lemma_sum_doubled(s.drop_last(), g);
    }
}

/// The rank sums of the negative and of the positive differences add up to
/// the ranks of all non-zero differences, which is at most `n(n+1)/2`, and
/// exactly that when no difference is zero (all doubled here).
pub proof fn lemma_rank_sums_partition(d: Seq<i128>)
    ensures
        neg_rank_sum2(d) + pos_rank_sum2(d) == nonzero_rank_sum2(d),
        0 <= nonzero_rank_sum2(d) <= d.len() * (d.len() + 1),
        zero_count(d) == 0 ==> nonzero_rank_sum2(d) == d.len() * (d.len() + 1),
{
    assert forall|e: i128| #[trigger] nonzero_term(d)(e) == neg_term(d)(e) + pos_term(d)(e) by {}
    lemma_sum_add(d, neg_term(d), pos_term(d), nonzero_term(d));
    assert forall|i: int| 0 <= i < d.len() implies 0 <= #[trigger] nonzero_term(d)(d[i]) <= rank_term(
        d,
    )(d[i]) by {
        lemma_counts_nonneg(d, d[i]);
    }
    lemma_sum_le(d, nonzero_term(d), rank_term(d));
    lemma_sum_nonneg(d, nonzero_term(d));
    lemma_total_rank_sum(d);
    if zero_count(d) == 0 {
        assert forall|i: int| 0 <= i < d.len() implies #[trigger] nonzero_term(d)(d[i]) == rank_term(
            d,
        )(d[i]) by {
            lemma_sum_bounds(d, zero_ind(), 0, 1);
            lemma_sum_at_least_term(d, zero_ind(), i);
        }
        lemma_sum_congruent(d, nonzero_term(d), rank_term(d));
    }
}

/// The effect size, the smaller rank sum over `n(n+1)/2`, lies in `[0, 1]`.
pub proof fn lemma_effect_size_in_unit_range(t: WilcoxonWTest, d: Seq<i128>)
    requires
        t.describes(d),
    ensures
        0 <= min_of(t.neg_rank_sum2 as int, t.pos_rank_sum2 as int),
        2 * min_of(t.neg_rank_sum2 as int, t.pos_rank_sum2 as int) <= t.n * (t.n + 1),
{
    lemma_rank_sums_partition(d);
}

/// The outcome of the test is determined by the differences alone, whatever
/// sort strategy produced it.
pub proof fn lemma_outcome_determined(t1: WilcoxonWTest, t2: WilcoxonWTest, d: Seq<i128>)
    requires
        t1.describes(d),
        t2.describes(d),
    ensures
        t1 == t2,
{
}

pub proof fn lemma_sum_map(s: Seq<i128>, f: spec_fn(i128) -> i128, g: spec_fn(i128) -> int)
    ensures
        sum_of(s.map_values(f), g) == sum_of(s, |e: i128| g(f(e))),
    decreases s.len(),
{
    if s.len() > 0 {
        assert(s.map_values(f).drop_last() =~= s.drop_last().map_values(f));
        lemma_sum_map(s.drop_last(), f, g);
    }
}

/// Negating a difference, when it can be negated.
pub open spec fn negated(e: i128) -> i128 {
    (-(e as int)) as i128
}

/// The rank of a difference depends on its magnitude only.
pub proof fn lemma_rank_of_negation(d: Seq<i128>, v: i128)
    requires
        v > i128::MIN,
    ensures
        rank2(d, negated(v)) == rank2(d, v),
        tie_count(d, negated(v)) == tie_count(d, v),
{
    lemma_sum_congruent(d, less_ind(negated(v)), less_ind(v));
    lemma_sum_congruent(d, tie_ind(negated(v)), tie_ind(v));
}

/// Flipping the sign of every difference swaps the two rank sums and keeps
/// the zero count and the tie correction.
pub proof fn lemma_sign_flip(d: Seq<i128>)
    requires
        magnitudes_fit(d),
    ensures
        neg_rank_sum2(d.map_values(|e: i128| negated(e))) == pos_rank_sum2(d),
        pos_rank_sum2(d.map_values(|e: i128| negated(e))) == neg_rank_sum2(d),
        zero_count(d.map_values(|e: i128| negated(e))) == zero_count(d),
        tie_correction(d.map_values(|e: i128| negated(e))) == tie_correction(d),
{
    let f = |e: i128| negated(e);
    let d2 = d.map_values(f);
    assert forall|v: i128| rank2(d2, v) == rank2(d, v) && tie_count(d2, v) == tie_count(d, v) by {
        lemma_sum_map(d, f, less_ind(v));
        lemma_sum_congruent(d, |e: i128| less_ind(v)(f(e)), less_ind(v));
        lemma_sum_map(d, f, tie_ind(v));
        lemma_sum_congruent(d, |e: i128| tie_ind(v)(f(e)), tie_ind(v));
    }
    assert forall|i: int| 0 <= i < d.len() implies {
        &&& #[trigger] neg_term(d2)(f(d[i])) == pos_term(d)(d[i])
        &&& pos_term(d2)(f(d[i])) == neg_term(d)(d[i])
        &&& tie_term(d2)(f(d[i])) == tie_term(d)(d[i])
    } by {
        lemma_rank_of_negation(d, d[i]);
    }
    lemma_sum_map(d, f, neg_term(d2));
    lemma_sum_congruent(d, |e: i128| neg_term(d2)(f(e)), pos_term(d));
    lemma_sum_map(d, f, pos_term(d2));
    lemma_sum_congruent(d, |e: i128| pos_term(d2)(f(e)), neg_term(d));
    lemma_sum_map(d, f, zero_ind());
    lemma_sum_congruent(d, |e: i128| zero_ind()(f(e)), zero_ind());
    lemma_sum_map(d, f, tie_term(d2));
    lemma_sum_congruent(d, |e: i128| tie_term(d2)(f(e)), tie_term(d));
}

/// Swapping the two samples swaps the two rank sums and leaves the test
/// statistic, the null distribution, and so the p-value and the effect size,
/// unchanged.
pub proof fn lemma_swap_samples(x: Seq<i64>, y: Seq<i64>, t: WilcoxonWTest, u: WilcoxonWTest)
    requires
        x.len() == y.len(),
        t.describes(differences(x, y)),
        u.describes(differences(y, x)),
    ensures
        u.neg_rank_sum2 == t.pos_rank_sum2,
        u.pos_rank_sum2 == t.neg_rank_sum2,
        u.n == t.n,
        u.zeros == t.zeros,
        u.tie_correction == t.tie_correction,
        u.distribution == t.distribution,
        min_of(u.neg_rank_sum2 as int, u.pos_rank_sum2 as int) == min_of(
            t.neg_rank_sum2 as int,
            t.pos_rank_sum2 as int,
        ),
{
    let d = differences(x, y);
    assert(differences(y, x) =~= d.map_values(|e: i128| negated(e)));
    lemma_sign_flip(d);
}

/// All differences have distinct magnitudes.
pub open spec fn distinct_magnitudes(d: Seq<i128>) -> bool {
    forall|i: int, j: int| 0 <= i < d.len() && 0 <= j < d.len() && i != j ==> abs_val(d[i]) != abs_val(d[j])
}

/// The tie correction is zero when all magnitudes are distinct, and positive
/// as soon as two differences share a magnitude.
pub proof fn lemma_tie_correction_zero_iff_distinct(d: Seq<i128>)
    ensures
        tie_correction(d) >= 0,
        tie_correction(d) == 0 <==> distinct_magnitudes(d),
{
    assert forall|k: int| 0 <= k < d.len() implies #[trigger] tie_term(d)(d[k]) >= 0 by {
        lemma_tie_count_member(d, k);
        let c = tie_count(d, d[k]);
        assert(c * c - 1 >= 0) by (nonlinear_arith)
            requires c >= 1;
    }
    lemma_sum_nonneg(d, tie_term(d));
    if distinct_magnitudes(d) {
        assert forall|k: int| 0 <= k < d.len() implies tie_term(d)(d[k]) == 0 by {
            lemma_sum_remove(d, k, tie_ind(d[k]));
            let r = d.remove(k);
            assert forall|m: int| 0 <= m < r.len() implies tie_ind(d[k])(r[m]) == 0 by {
                if m < k {
                    assert(r[m] == d[m]);
                    assert(abs_val(d[m]) != abs_val(d[k]));
                } else {
                    assert(r[m] == d[m + 1]);
                    assert(abs_val(d[m + 1]) != abs_val(d[k]));
                }
            }
            crate::rank_math::lemma_sum_const(r, tie_ind(d[k]), 0);
            assert(tie_ind(d[k])(d[k]) == 1);
            assert(tie_count(d, d[k]) == 1);
            assert(tie_term(d)(d[k]) == tie_count(d, d[k]) * tie_count(d, d[k]) - 1);
        }
        crate::rank_math::lemma_sum_const(d, tie_term(d), 0);
    } else {
        let (i, j) = choose|i: int, j: int|
            0 <= i < d.len() && 0 <= j < d.len() && i != j && abs_val(d[i]) == abs_val(d[j]);
        lemma_sum_remove(d, i, tie_ind(d[i]));
        let r = d.remove(i);
        let jr = if j < i { j } else { j - 1 };
        assert(r[jr] == d[j]);
        assert forall|m: int| 0 <= m < r.len() implies #[trigger] tie_ind(d[i])(r[m]) >= 0 by {}
        lemma_sum_at_least_term(r, tie_ind(d[i]), jr);
        let c = tie_count(d, d[i]);
        assert(c * c - 1 >= 3) by (nonlinear_arith)
            requires c >= 2;
        lemma_sum_at_least_term(d, tie_term(d), i);
    }
}

} // verus!
