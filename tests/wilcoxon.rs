use statrs::distribution::{ContinuousCDF, Normal};
use wilcoxon_w::abs_wrapper::AbsWrapper;
use wilcoxon_w::distribution::{SignedRankDistribution, WilcoxonError};
use wilcoxon_w::sorting::{sort_by_magnitude, SortStrategy};
use wilcoxon_w::ties::resolve_ties;
use wilcoxon_w::wilcoxon::WilcoxonWTest;

fn estimate(t: &WilcoxonWTest) -> (f64, f64) {
    let (neg, pos) = t.estimate2();
    (neg as f64 / 2.0, pos as f64 / 2.0)
}

fn p_value(t: &WilcoxonWTest) -> f64 {
    if let Some((num, den)) = t.exact_p_value() {
        return num as f64 / den as f64;
    }
    match t.distribution {
        SignedRankDistribution::Normal { mean4, var48, .. } => {
            let normal = Normal::new(mean4 as f64 / 4.0, (var48 as f64 / 48.0).sqrt()).unwrap();
            (2.0 * normal.cdf(t.min_rank_sum2() as f64 / 2.0)).min(1.0)
        }
        SignedRankDistribution::Exact { .. } => unreachable!(),
    }
}

fn effect_size(t: &WilcoxonWTest) -> f64 {
    let (num, den) = t.effect_size_ratio();
    num as f64 / den as f64
}

#[test]
fn paired_i64() {
    let x: Vec<i64> = vec![16, 12, 11, 22, 17, 10, 12, 12];
    let y: Vec<i64> = vec![17, 18, 13, 21, 18, 14, 13, 14];
    let test = WilcoxonWTest::paired(&x, &y).unwrap();
    assert_eq!(estimate(&test), (33.5, 2.5));
    assert_eq!(p_value(&test), 0.027785782704095215);
    assert_eq!(effect_size(&test), 0.06944444444444445);
}

#[test]
fn voracious_paired_i64() {
    let x: Vec<i64> = vec![16, 12, 11, 22, 17, 10, 12, 12];
    let y: Vec<i64> = vec![17, 18, 13, 21, 18, 14, 13, 14];
    let test = WilcoxonWTest::voracious_paired(&x, &y).unwrap();
    assert_eq!(estimate(&test), (33.5, 2.5));
    assert_eq!(p_value(&test), 0.027785782704095215);
    assert_eq!(effect_size(&test), 0.06944444444444445);
}

#[test]
fn paired2_i64() {
    let x: Vec<i64> = vec![109, 100, 77, 69, 59, 69, 87, 98];
    let y: Vec<i64> = vec![121, 68, 47, 64, 66, 63, 76, 88];
    let test = WilcoxonWTest::paired(&x, &y).unwrap();
    assert_eq!(estimate(&test), (9.0, 27.0));
    assert_eq!(p_value(&test), 0.25);
    assert_eq!(effect_size(&test), 0.25);
}

#[test]
fn voracious_paired2_i64() {
    let x: Vec<i64> = vec![109, 100, 77, 69, 59, 69, 87, 98];
    let y: Vec<i64> = vec![121, 68, 47, 64, 66, 63, 76, 88];
    let test = WilcoxonWTest::voracious_paired(&x, &y).unwrap();
    assert_eq!(estimate(&test), (9.0, 27.0));
    assert_eq!(p_value(&test), 0.25);
    assert_eq!(effect_size(&test), 0.25);
}

#[test]
fn paired_large_values() {
    let x: Vec<i64> = vec![209, 200, 177, 169, 159, 169, 187, 198];
    let y: Vec<i64> = vec![151, 168, 147, 164, 166, 163, 176, 188];
    let test = WilcoxonWTest::paired(&x, &y).unwrap();
    assert_eq!(estimate(&test), (3.0, 33.0));
    assert_eq!(test.exact_p_value(), Some((10, 256)));
    assert_eq!(p_value(&test), 0.0390625);
    assert_eq!(effect_size(&test), 0.08333333333333333);
}

#[test]
fn strategies_agree() {
    let x: Vec<i64> = vec![16, 12, 11, 22, 17, 10, 12, 12, 5, -3, 7];
    let y: Vec<i64> = vec![17, 18, 13, 21, 18, 14, 13, 14, 5, 4, -7];
    let a = WilcoxonWTest::paired(&x, &y).unwrap();
    let b = WilcoxonWTest::voracious_paired(&x, &y).unwrap();
    assert_eq!(a, b);
    assert_eq!(p_value(&a).to_bits(), p_value(&b).to_bits());
    assert_eq!(effect_size(&a).to_bits(), effect_size(&b).to_bits());
}

#[test]
fn length_mismatch() {
    let x: Vec<i64> = vec![1, 2, 3];
    let y: Vec<i64> = vec![1, 2];
    assert_eq!(WilcoxonWTest::paired(&x, &y), Err(WilcoxonError::LengthMismatch));
    assert_eq!(WilcoxonWTest::voracious_paired(&x, &y), Err(WilcoxonError::LengthMismatch));
    assert_eq!(
        WilcoxonWTest::paired_with_sort(&y, &x, SortStrategy::Comparison),
        Err(WilcoxonError::LengthMismatch)
    );
}

#[test]
fn all_differences_zero() {
    let x: Vec<i64> = vec![4, 5, 6];
    assert_eq!(
        WilcoxonWTest::paired(&x, &x),
        Err(WilcoxonError::InvalidDistributionParameters)
    );
}

#[test]
fn empty_samples() {
    let x: Vec<i64> = vec![];
    assert_eq!(
        WilcoxonWTest::paired(&x, &x),
        Err(WilcoxonError::InvalidDistributionParameters)
    );
}

#[test]
fn zeros_are_counted_not_summed() {
    let x: Vec<i64> = vec![3, 5, 1, 9, 4];
    let y: Vec<i64> = vec![3, 2, 1, 4, 8];
    // differences 0, 3, 0, 5, -4: the two zeros share ranks 1 and 2
    let t = WilcoxonWTest::paired(&x, &y).unwrap();
    assert_eq!(t.zeros, 2);
    assert_eq!(t.estimate2(), (8, 16));
    assert_eq!(t.tie_correction, 6);
    assert_eq!(
        t.distribution,
        SignedRankDistribution::Normal { n: 3, mean4: 12, var48: 162 }
    );
}

#[test]
fn swapping_samples_swaps_rank_sums() {
    let x: Vec<i64> = vec![16, 12, 11, 22, 17, 10, 12, 12];
    let y: Vec<i64> = vec![17, 18, 13, 21, 18, 14, 13, 14];
    let a = WilcoxonWTest::paired(&x, &y).unwrap();
    let b = WilcoxonWTest::paired(&y, &x).unwrap();
    assert_eq!(a.estimate2(), (67, 5));
    assert_eq!(b.estimate2(), (5, 67));
    assert_eq!(p_value(&a), p_value(&b));
    assert_eq!(effect_size(&a), effect_size(&b));
}

#[test]
fn tie_correction_zero_without_ties() {
    let t = WilcoxonWTest::from_differences(vec![3, -1, 2, -5], SortStrategy::Comparison).unwrap();
    assert_eq!(t.tie_correction, 0);
    assert_eq!(t.distribution, SignedRankDistribution::Exact { n: 4 });
}

#[test]
fn tie_correction_positive_with_ties() {
    let t = WilcoxonWTest::from_differences(vec![3, -3, 2, -5], SortStrategy::Radix).unwrap();
    assert_eq!(t.tie_correction, 6);
    assert_eq!(t.estimate2(), (13, 7));
}

#[test]
fn p_value_capped_at_one() {
    let t = WilcoxonWTest::from_differences(vec![1, 2, -3], SortStrategy::Comparison).unwrap();
    assert_eq!(t.estimate2(), (6, 6));
    assert_eq!(t.exact_p_value(), Some((8, 8)));
    assert_eq!(p_value(&t), 1.0);
}

#[test]
fn effect_size_within_unit_range() {
    let t = WilcoxonWTest::from_differences(vec![1, -2, 3, -4, 5, -6], SortStrategy::Radix).unwrap();
    let (num, den) = t.effect_size_ratio();
    assert_eq!((num, den), (18, 42));
    assert!(effect_size(&t) >= 0.0 && effect_size(&t) <= 1.0);
}

#[test]
fn resolve_ties_averages_groups() {
    let sorted: Vec<i128> = vec![1, -1, 2, 3, -3, 3];
    let r = resolve_ties(&sorted);
    assert_eq!(r.ranks2, vec![3, 3, 6, 10, 10, 10]);
    assert_eq!(r.tie_correction, 30);
}

#[test]
fn comparison_sort_orders_by_magnitude() {
    let mut v: Vec<i128> = vec![-7, 3, 0, -1, 5];
    sort_by_magnitude(&mut v, SortStrategy::Comparison);
    assert_eq!(v, vec![0, -1, 3, 5, -7]);
}

#[test]
fn radix_sort_orders_by_magnitude() {
    let mut v: Vec<i128> = vec![-7, 3, 0, -1, 5, i128::MAX, -i128::MAX + 1];
    sort_by_magnitude(&mut v, SortStrategy::Radix);
    assert_eq!(v, vec![0, -1, 3, 5, -7, -i128::MAX + 1, i128::MAX]);
}

#[test]
fn abs_wrapper_keys() {
    let w = AbsWrapper::from(-9);
    assert_eq!(w.value, -9);
    assert_eq!(w.key(), 9);
    assert_eq!(w.radix_key(), 19);
    assert_eq!(AbsWrapper::from_radix_key(19).value, -9);
    assert_eq!(AbsWrapper::from_radix_key(18).value, 9);
    assert!(AbsWrapper::from(-2).le_abs(&AbsWrapper::from(3)));
    assert!(!AbsWrapper::from(-4).le_abs(&AbsWrapper::from(3)));
}

#[test]
fn distribution_setup() {
    assert_eq!(
        SignedRankDistribution::new(8, 0, 66),
        Ok(SignedRankDistribution::Normal { n: 8, mean4: 72, var48: 2382 })
    );
    assert_eq!(SignedRankDistribution::new(8, 0, 0), Ok(SignedRankDistribution::Exact { n: 8 }));
    assert_eq!(
        SignedRankDistribution::new(25, 0, 0),
        Ok(SignedRankDistribution::Normal { n: 25, mean4: 650, var48: 66300 })
    );
    assert_eq!(
        SignedRankDistribution::new(3, 4, 0),
        Err(WilcoxonError::InvalidDistributionParameters)
    );
    assert_eq!(
        SignedRankDistribution::new(4, 3, 30),
        Err(WilcoxonError::InvalidDistributionParameters)
    );
}

#[test]
fn exact_p_value_counts_subsets() {
    assert_eq!(SignedRankDistribution::exact_p_value(8, 3), (10, 256));
    assert_eq!(SignedRankDistribution::exact_p_value(8, 9), (64, 256));
    assert_eq!(SignedRankDistribution::exact_p_value(3, 0), (2, 8));
    assert_eq!(SignedRankDistribution::exact_p_value(3, 1000), (8, 8));
}

#[test]
fn abs_wrapper_compares_by_magnitude() {
    assert!(AbsWrapper::from(-3) == AbsWrapper::from(3));
    assert!(AbsWrapper::from(-2) < AbsWrapper::from(3));
    assert!(AbsWrapper::from(-5) > AbsWrapper::from(4));
    assert_eq!(AbsWrapper::from(i128::MIN).key(), 1u128 << 127);
}
