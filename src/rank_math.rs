use vstd::prelude::*;

verus! {

/// Absolute value of a difference, as a mathematical integer.
pub open spec fn abs_val(v: i128) -> int {
    if v < 0 {
        -(v as int)
    } else {
        v as int
    }
}

/// Sum of `g` over the elements of `s`.
pub open spec fn sum_of(s: Seq<i128>, g: spec_fn(i128) -> int) -> int
    decreases s.len(),
{
    if s.len() == 0 {
        0
    } else {
        sum_of(s.drop_last(), g) + g(s.last())
    }
}

/// Largest number of pairs handled: keeps the tie correction, which grows as
/// the cube of the sample size, within 128 bits.
pub const MAX_SAMPLES: u64 = 1_099_511_627_776;

/// Indicator of a magnitude below that of `v`.
pub open spec fn less_ind(v: i128) -> spec_fn(i128) -> int {
    |e: i128| if abs_val(e) < abs_val(v) { 1int } else { 0int }
}

/// Indicator of a magnitude equal to that of `v`.
pub open spec fn tie_ind(v: i128) -> spec_fn(i128) -> int {
    |e: i128| if abs_val(e) == abs_val(v) { 1int } else { 0int }
}

/// Number of differences in `d` whose magnitude is below that of `v`.
pub open spec fn less_count(d: Seq<i128>, v: i128) -> int {
    sum_of(d, less_ind(v))
}

/// Number of differences in `d` whose magnitude equals that of `v`.
pub open spec fn tie_count(d: Seq<i128>, v: i128) -> int {
    sum_of(d, tie_ind(v))
}

/// Twice the tie-averaged rank of `v` among `d`: a tie group occupying the
/// 1-based positions `p ..= p + t - 1` has rank `p + (t - 1) / 2`.
pub open spec fn rank2(d: Seq<i128>, v: i128) -> int {
    2 * less_count(d, v) + tie_count(d, v) + 1
}

pub open spec fn rank_term(d: Seq<i128>) -> spec_fn(i128) -> int {
    |e: i128| rank2(d, e)
}

pub open spec fn neg_term(d: Seq<i128>) -> spec_fn(i128) -> int {
    |e: i128| if e < 0 { rank2(d, e) } else { 0int }
}

pub open spec fn pos_term(d: Seq<i128>) -> spec_fn(i128) -> int {
    |e: i128| if e > 0 { rank2(d, e) } else { 0int }
}

pub open spec fn nonzero_term(d: Seq<i128>) -> spec_fn(i128) -> int {
    |e: i128| if e != 0 { rank2(d, e) } else { 0int }
}

pub open spec fn zero_ind() -> spec_fn(i128) -> int {
    |e: i128| if e == 0 { 1int } else { 0int }
}

/// Every member of a tie group of size `t` contributes `t^2 - 1`, so that
/// the group as a whole contributes `t^3 - t`.
pub open spec fn tie_term(d: Seq<i128>) -> spec_fn(i128) -> int {
    |e: i128| tie_count(d, e) * tie_count(d, e) - 1
}

/// Twice the sum of the ranks of the negative differences.
pub open spec fn neg_rank_sum2(d: Seq<i128>) -> int {
    sum_of(d, neg_term(d))
}

/// Twice the sum of the ranks of the positive differences.
pub open spec fn pos_rank_sum2(d: Seq<i128>) -> int {
    sum_of(d, pos_term(d))
}

/// Twice the sum of the ranks of the non-zero differences.
pub open spec fn nonzero_rank_sum2(d: Seq<i128>) -> int {
    sum_of(d, nonzero_term(d))
}

/// Number of differences equal to zero.
pub open spec fn zero_count(d: Seq<i128>) -> int {
    sum_of(d, zero_ind())
}

/// Sum over all tie groups of `t^3 - t`.
pub open spec fn tie_correction(d: Seq<i128>) -> int {
    sum_of(d, tie_term(d))
}

/// The differences are in ascending order of magnitude.
pub open spec fn sorted_by_abs(s: Seq<i128>) -> bool {
    forall|i: int, j: int| 0 <= i <= j < s.len() ==> abs_val(s[i]) <= abs_val(s[j])
}

/// No difference is `i128::MIN`, whose magnitude has no `i128`.
pub open spec fn magnitudes_fit(s: Seq<i128>) -> bool {
    forall|i: int| 0 <= i < s.len() ==> s[i] > i128::MIN
}

pub proof fn lemma_sum_append(a: Seq<i128>, b: Seq<i128>, g: spec_fn(i128) -> int)
    ensures
        sum_of(a + b, g) == sum_of(a, g) + sum_of(b, g),
    decreases b.len(),
{
    if b.len() > 0 {
        assert((a + b).drop_last() =~= a + b.drop_last());
        lemma_sum_append(a, b.drop_last(), g);
    } else {
        assert(a + b =~= a);
    }
}

pub proof fn lemma_sum_remove(s: Seq<i128>, i: int, g: spec_fn(i128) -> int)
    requires
        0 <= i < s.len(),
    ensures
        sum_of(s, g) == sum_of(s.remove(i), g) + g(s[i]),
{
    let a = s.subrange(0, i);
    let b = s.subrange(i + 1, s.len() as int);
    assert(s =~= a + (seq![s[i]] + b));
    lemma_sum_append(a, seq![s[i]] + b, g);
    lemma_sum_append(seq![s[i]], b, g);
    let one = seq![s[i]];
    assert(one.drop_last() =~= Seq::<i128>::empty());
    assert(sum_of(one, g) == sum_of(one.drop_last(), g) + g(s[i]));
    assert(sum_of(one, g) == g(s[i]));
    assert(s.remove(i) =~= a + b);
    lemma_sum_append(a, b, g);
}

/// A sum does not depend on the order of the elements.
pub proof fn lemma_sum_permutation(a: Seq<i128>, b: Seq<i128>, g: spec_fn(i128) -> int)
    requires
        a.to_multiset() == b.to_multiset(),
    ensures
        sum_of(a, g) == sum_of(b, g),
    decreases a.len(),
{
    broadcast use vstd::seq_lib::group_to_multiset_ensures;

    vstd::seq_lib::to_multiset_len(a);
    vstd::seq_lib::to_multiset_len(b);
    if a.len() == 0 {
        assert(b.len() == 0);
    } else {
        let x = a.last();
        let a0 = a.drop_last();
        assert(a0.push(x) =~= a);
        assert(a.to_multiset().count(x) > 0);
        assert(b.contains(x));
        let j = choose|j: int| 0 <= j < b.len() && b[j] == x;
        let b0 = b.remove(j);
        assert(b0.to_multiset() =~= a0.to_multiset());
        lemma_sum_permutation(a0, b0, g);
        lemma_sum_remove(b, j, g);
    }
}

/// Two sequences holding the same elements still do after the same map.
pub proof fn lemma_map_permutation<A, B>(a: Seq<A>, b: Seq<A>, f: spec_fn(A) -> B)
    requires
        a.to_multiset() == b.to_multiset(),
    ensures
        a.map_values(f).to_multiset() == b.map_values(f).to_multiset(),
    decreases a.len(),
{
    broadcast use vstd::seq_lib::group_to_multiset_ensures;

    vstd::seq_lib::to_multiset_len(a);
    vstd::seq_lib::to_multiset_len(b);
    if a.len() == 0 {
        assert(b.len() == 0);
        assert(a.map_values(f) =~= b.map_values(f));
    } else {
        let x = a.last();
        let a0 = a.drop_last();
        assert(a0.push(x) =~= a);
        assert(a.to_multiset().count(x) > 0);
        assert(b.contains(x));
        let j = choose|j: int| 0 <= j < b.len() && b[j] == x;
        let b0 = b.remove(j);
        assert(b0.to_multiset() =~= a0.to_multiset());
        lemma_map_permutation(a0, b0, f);
        assert(a.map_values(f) =~= a0.map_values(f).push(f(x)));
        assert(b0.map_values(f) =~= b.map_values(f).remove(j));
        assert(b.map_values(f).to_multiset() =~= b0.map_values(f).to_multiset().insert(f(x)));
    }
}

pub proof fn lemma_sum_const(s: Seq<i128>, g: spec_fn(i128) -> int, c: int)
    requires
        forall|i: int| 0 <= i < s.len() ==> g(s[i]) == c,
    ensures
        sum_of(s, g) == c * s.len(),
    decreases s.len(),
{
    if s.len() > 0 {
        lemma_sum_const(s.drop_last(), g, c);
        assert(c * s.len() == c * (s.len() - 1) + c) by (nonlinear_arith);
    }
}

pub proof fn lemma_sum_congruent(s: Seq<i128>, g1: spec_fn(i128) -> int, g2: spec_fn(i128) -> int)
    requires
        forall|i: int| 0 <= i < s.len() ==> g1(s[i]) == g2(s[i]),
    ensures
        sum_of(s, g1) == sum_of(s, g2),
    decreases s.len(),
{
    if s.len() > 0 {
        lemma_sum_congruent(s.drop_last(), g1, g2);
    }
}

pub proof fn lemma_sum_bounds(s: Seq<i128>, g: spec_fn(i128) -> int, lo: int, hi: int)
    requires
        forall|i: int| 0 <= i < s.len() ==> lo <= #[trigger] g(s[i]) <= hi,
    ensures
        lo * s.len() <= sum_of(s, g) <= hi * s.len(),
    decreases s.len(),
{
    if s.len() > 0 {
        lemma_sum_bounds(s.drop_last(), g, lo, hi);
        assert(lo * s.len() == lo * (s.len() - 1) + lo) by (nonlinear_arith);
        assert(hi * s.len() == hi * (s.len() - 1) + hi) by (nonlinear_arith);
    }
}

/// In a sequence sorted by magnitude, a maximal run of equal magnitudes at
/// positions `p .. q` has `p` smaller magnitudes before it and `q - p` ties.
pub proof fn lemma_group_counts(s: Seq<i128>, p: int, q: int, v: i128)
    requires
        sorted_by_abs(s),
        0 <= p < q <= s.len(),
        forall|k: int| p <= k < q ==> abs_val(#[trigger] s[k]) == abs_val(v),
        p == 0 || abs_val(s[p - 1]) < abs_val(v),
        q == s.len() || abs_val(s[q]) > abs_val(v),
    ensures
        less_count(s, v) == p,
        tie_count(s, v) == q - p,
{
    let a = s.subrange(0, p);
    let b = s.subrange(p, q);
    let c = s.subrange(q, s.len() as int);
    assert(s =~= a + b + c);
    assert forall|k: int| 0 <= k < a.len() implies abs_val(a[k]) < abs_val(v) by {
        assert(abs_val(s[k]) <= abs_val(s[p - 1]));
    }
    assert forall|k: int| 0 <= k < c.len() implies abs_val(c[k]) > abs_val(v) by {
        assert(abs_val(s[q]) <= abs_val(s[q + k]));
    }
    lemma_sum_append(a + b, c, less_ind(v));
    lemma_sum_append(a, b, less_ind(v));
    lemma_sum_const(a, less_ind(v), 1);
    lemma_sum_const(b, less_ind(v), 0);
    lemma_sum_const(c, less_ind(v), 0);
    lemma_sum_append(a + b, c, tie_ind(v));
    lemma_sum_append(a, b, tie_ind(v));
    lemma_sum_const(a, tie_ind(v), 0);
    lemma_sum_const(b, tie_ind(v), 1);
    lemma_sum_const(c, tie_ind(v), 0);
}

/// Every statistic of a sample of differences depends on its elements only,
/// not on their order.
pub proof fn lemma_statistics_permutation(a: Seq<i128>, b: Seq<i128>)
    requires
        a.to_multiset() == b.to_multiset(),
    ensures
        forall|v: i128| rank2(a, v) == rank2(b, v),
        neg_rank_sum2(a) == neg_rank_sum2(b),
        pos_rank_sum2(a) == pos_rank_sum2(b),
        nonzero_rank_sum2(a) == nonzero_rank_sum2(b),
        zero_count(a) == zero_count(b),
        tie_correction(a) == tie_correction(b),
        sum_of(a, rank_term(a)) == sum_of(b, rank_term(b)),
        a.len() == b.len(),
        magnitudes_fit(b) ==> magnitudes_fit(a),
{
    broadcast use vstd::seq_lib::group_to_multiset_ensures;

    assert forall|i: int| 0 <= i < a.len() && magnitudes_fit(b) implies a[i] > i128::MIN by {
        assert(a.to_multiset().count(a[i]) > 0);
        assert(b.contains(a[i]));
    }
    vstd::seq_lib::to_multiset_len(a);
    vstd::seq_lib::to_multiset_len(b);
    assert forall|v: i128| rank2(a, v) == rank2(b, v) by {
        lemma_sum_permutation(a, b, less_ind(v));
        lemma_sum_permutation(a, b, tie_ind(v));
    }
    assert forall|v: i128| tie_count(a, v) == tie_count(b, v) by {
        lemma_sum_permutation(a, b, tie_ind(v));
    }
    lemma_sum_congruent(a, neg_term(a), neg_term(b));
    lemma_sum_permutation(a, b, neg_term(b));
    lemma_sum_congruent(a, pos_term(a), pos_term(b));
    lemma_sum_permutation(a, b, pos_term(b));
    lemma_sum_congruent(a, nonzero_term(a), nonzero_term(b));
    lemma_sum_permutation(a, b, nonzero_term(b));
    lemma_sum_permutation(a, b, zero_ind());
    lemma_sum_congruent(a, tie_term(a), tie_term(b));
    lemma_sum_permutation(a, b, tie_term(b));
    lemma_sum_congruent(a, rank_term(a), rank_term(b));
    lemma_sum_permutation(a, b, rank_term(b));
}

} // verus!
