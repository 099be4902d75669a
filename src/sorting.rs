use vstd::prelude::*;
use voracious_radix_sort::RadixSort;
use crate::abs_wrapper::{from_radix_key, radix_key_of, AbsWrapper};
use crate::rank_math::{abs_val, lemma_map_permutation, magnitudes_fit, sorted_by_abs};

verus! {

/// How the differences are put in ascending order of magnitude. The ranks do
/// not depend on the choice: ties are resolved after sorting.
#[derive(Clone, Copy, Debug, PartialEq, Eq, Structural)]
pub enum SortStrategy {
    /// An unstable comparison sort on the magnitude.
    Comparison,
    /// A radix sort on a key made of the magnitude and the sign.
    Radix,
}

/// Magnitude of a difference, the sort key of the comparison strategy.
fn magnitude_of(d: &i128) -> (r: u128)
    ensures
        r == abs_val(*d),
{
    AbsWrapper::from(*d).key()
}

/// Relies on `slice::sort_unstable_by_key`: the slice comes out as a
/// rearrangement of itself, ascending by the key, here the magnitude.
#[verifier::external_body]
fn sort_unstable_by_magnitude(v: &mut Vec<i128>)
    ensures
        final(v)@.to_multiset() == old(v)@.to_multiset(),
        sorted_by_abs(final(v)@),
{
    v.sort_unstable_by_key(magnitude_of);
}

/// Relies on `voracious_radix_sort::RadixSort::voracious_sort` for `u128`:
/// the slice comes out as a rearrangement of itself, in ascending order.
#[verifier::external_body]
fn radix_sort_keys(v: &mut Vec<u128>)
    ensures
        final(v)@.to_multiset() == old(v)@.to_multiset(),
        forall|i: int, j: int| 0 <= i <= j < final(v)@.len() ==> final(v)@[i] <= final(v)@[j],
{
    v.voracious_sort();
}

/// Sorts the differences by radix key, then turns the keys back into
/// differences.
fn radix_sort_by_magnitude(v: &mut Vec<i128>)
    requires
        magnitudes_fit(old(v)@),
    ensures
        final(v)@.to_multiset() == old(v)@.to_multiset(),
        sorted_by_abs(final(v)@),
{
    let ghost orig = v@;
    let mut keys: Vec<u128> = Vec::new();
    let mut i: usize = 0;
    while i < v.len()
        invariant
            v@ == orig,
            magnitudes_fit(orig),
            i <= orig.len(),
            keys@.len() == i,
            forall|k: int| 0 <= k < i ==> keys@[k] == radix_key_of(orig[k]),
            forall|k: int| 0 <= k < i ==> from_radix_key(#[trigger] keys@[k]) == orig[k],
        decreases orig.len() - i,
    {
        keys.push(AbsWrapper::from(v[i]).radix_key());
        i = i + 1;
    }
    let ghost unsorted = keys@;
    radix_sort_keys(&mut keys);
    let mut out: Vec<i128> = Vec::new();
    let mut j: usize = 0;
    while j < keys.len()
        invariant
            j <= keys@.len(),
            out@.len() == j,
            forall|k: int| 0 <= k < j ==> out@[k] == from_radix_key(keys@[k]),
            forall|k: int| 0 <= k < j ==> abs_val(#[trigger] out@[k]) == keys@[k] / 2,
        decreases keys@.len() - j,
    {
        out.push(AbsWrapper::from_radix_key(keys[j]).value);
        j = j + 1;
    }
    proof {
        let dec = |k: u128| from_radix_key(k);
        lemma_map_permutation(keys@, unsorted, dec);
        assert(out@ =~= keys@.map_values(dec));
        assert(unsorted.map_values(dec) =~= orig);
        assert forall|a: int, b: int| 0 <= a <= b < out@.len() implies abs_val(out@[a]) <= abs_val(out@[b]) by {
            assert(keys@[a] <= keys@[b]);
            assert(keys@[a] / 2 <= keys@[b] / 2) by (nonlinear_arith)
                requires keys@[a] <= keys@[b];
        }
    }
    *v = out;
}

/// Reorders the differences ascending by magnitude with the chosen strategy.
pub fn sort_by_magnitude(v: &mut Vec<i128>, strategy: SortStrategy)
    requires
        magnitudes_fit(old(v)@),
    ensures
        final(v)@.to_multiset() == old(v)@.to_multiset(),
        sorted_by_abs(final(v)@),
{
    match strategy {
        SortStrategy::Comparison => sort_unstable_by_magnitude(v),
        SortStrategy::Radix => radix_sort_by_magnitude(v),
    }
}

} // verus!
