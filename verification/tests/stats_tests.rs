//! Tests of the statistical comparison utilities. All values are
//! micro-units: `1_000_000` stands for `1.0`.

use forge_e2e_r::stats::compute_stats;
use forge_e2e_r::stats::ks_pvalue;
use forge_e2e_r::stats::ks_statistic;
use forge_e2e_r::stats::ks_test_pvalue;
use forge_e2e_r::stats::percent_of;
use forge_e2e_r::stats::relative_difference;
use forge_e2e_r::stats::within_tolerance;
use forge_e2e_r::stats::Tolerance;
use forge_e2e_r::stats::SCALE;

#[test]
fn test_within_tolerance_pass() {
    assert!(within_tolerance(100_500_000, 100_000_000, 10_000));
}

#[test]
fn test_within_tolerance_fail() {
    assert!(!within_tolerance(102_000_000, 100_000_000, 10_000));
}

#[test]
fn test_tolerance_default() {
    let tol = Tolerance::default();
    assert_eq!(tol.mean, 10_000);
}

#[test]
fn tolerance_presets() {
    let strict = Tolerance::deterministic();
    assert_eq!(strict.mean, 1_000);
    assert_eq!(strict.std, 1_000);
    assert_eq!(strict.percentiles, 1_000);
    assert_eq!(strict.ks_pvalue, 50_000);
    assert_eq!(strict.ci_bounds, 1_000);
    let loose = Tolerance::stochastic();
    assert_eq!(loose.std, 50_000);
    assert_eq!(loose.percentiles, 20_000);
    assert_eq!(loose.ks_pvalue, 50_000);
    assert_eq!(loose.ci_bounds, 20_000);
}

#[test]
fn within_tolerance_reflexive_and_zero_expected() {
    // Reflexivity for an ordinary value and for zero.
    assert!(within_tolerance(123_456_789, 123_456_789, 0));
    assert!(within_tolerance(0, 0, 0));
    // Zero expected value: the absolute fallback decides.
    assert!(within_tolerance(10_000, 0, 10_000));
    assert!(!within_tolerance(10_001, 0, 10_000));
}

#[test]
fn within_tolerance_strict_boundary() {
    // Exactly at the boundary passes; one micro-unit beyond fails.
    assert!(within_tolerance(101_000_000, 100_000_000, 10_000));
    assert!(!within_tolerance(101_000_001, 100_000_000, 10_000));
}

#[test]
fn relative_difference_values() {
    // (105 - 100) / 100 == 5%.
    assert_eq!(relative_difference(105_000_000, 100_000_000), 50_000);
    // Expected zero: the magnitude of the actual value.
    assert_eq!(relative_difference(-3_000_000, 0), 3_000_000);
    // Sign of the deviation does not matter.
    assert_eq!(
        relative_difference(95_000_000, 100_000_000),
        relative_difference(105_000_000, 100_000_000)
    );
}

#[test]
fn relative_difference_agrees_with_decision() {
    // The reported ratio is rounded up, so it agrees exactly with the
    // accept decision: a deviation of one micro-unit is not within an
    // exact-match tolerance of zero, and the reported difference says so.
    assert!(!within_tolerance(100_000_001, 100_000_000, 0));
    assert_eq!(relative_difference(100_000_001, 100_000_000), 1);
    assert!(within_tolerance(100_000_000, 100_000_000, 0));
    assert_eq!(relative_difference(100_000_000, 100_000_000), 0);
    // The agreement also holds where the ratio is astronomically large:
    // the exact ratio exceeds the widest representable tolerance, and the
    // decision rejects accordingly.
    assert!(!within_tolerance(i64::MAX, 1, i64::MAX));
    assert!(relative_difference(i64::MAX, 1) > i64::MAX as i128);
}

#[test]
fn percent_of_values() {
    assert_eq!(percent_of(50_000), 5_000_000);
    assert_eq!(percent_of(0), 0);
    assert_eq!(percent_of(i64::MAX), i64::MAX);
}

#[test]
fn ks_statistic_identical_samples() {
    // Identical multisets yield zero divergence: at a tie both pointers
    // leave the tied value together, so the walk stays in lockstep.
    let s: Vec<i64> = vec![1_000_000, 2_000_000];
    let ks = ks_statistic(&s, &s);
    assert_eq!(ks.den, 4);
    assert_eq!(ks.num, 0);
    let one: Vec<i64> = vec![5_000_000];
    let k1 = ks_statistic(&one, &one);
    assert_eq!(k1.num, 0);
    assert_eq!(k1.den, 1);
    // Same multiset in a different order.
    let shuffled: Vec<i64> = vec![2_000_000, 1_000_000];
    let k2 = ks_statistic(&s, &shuffled);
    assert_eq!(k2.num, 0);
}

#[test]
fn ks_statistic_symmetric() {
    // D = sup |ECDF1 - ECDF2| does not depend on the order of the two
    // samples, tied values included.
    let a: Vec<i64> = vec![0];
    let b: Vec<i64> = vec![0, 1_000_000];
    let ab = ks_statistic(&a, &b);
    let ba = ks_statistic(&b, &a);
    assert_eq!(ab.num, 1);
    assert_eq!(ab.den, 2);
    assert_eq!(ab.num, ba.num);
    assert_eq!(ab.den, ba.den);
}

#[test]
fn ks_statistic_equal_step_functions() {
    // [0, 0, 0] and [0] have the same empirical CDF, so D is zero even
    // though the multisets differ.
    let many: Vec<i64> = vec![0, 0, 0];
    let one: Vec<i64> = vec![0];
    let ks = ks_statistic(&many, &one);
    assert_eq!(ks.num, 0);
    assert_eq!(ks.den, 3);
}

#[test]
fn ks_statistic_empty_is_one() {
    let s: Vec<i64> = vec![1_000_000, 2_000_000];
    let e: Vec<i64> = Vec::new();
    let a = ks_statistic(&e, &s);
    assert_eq!(a.num, a.den);
    let b = ks_statistic(&s, &e);
    assert_eq!(b.num, b.den);
    let c = ks_statistic(&e, &e);
    assert_eq!(c.num, c.den);
}

#[test]
fn ks_statistic_disjoint_is_one() {
    let lo: Vec<i64> = vec![1_000_000, 2_000_000];
    let hi: Vec<i64> = vec![10_000_000, 20_000_000, 30_000_000];
    let ks = ks_statistic(&lo, &hi);
    assert_eq!(ks.den, 6);
    assert_eq!(ks.num, 6);
}

#[test]
fn ks_statistic_sorts_its_inputs() {
    let a: Vec<i64> = vec![3_000_000, 1_000_000, 2_000_000];
    let b: Vec<i64> = vec![1_000_000, 2_000_000, 3_000_000];
    let c: Vec<i64> = vec![2_000_000, 10_000_000];
    let unsorted = ks_statistic(&a, &c);
    let sorted = ks_statistic(&b, &c);
    assert_eq!(unsorted.num, 3);
    assert_eq!(unsorted.den, 6);
    assert_eq!(unsorted.num, sorted.num);
    assert_eq!(unsorted.den, sorted.den);
}

#[test]
fn ks_pvalue_degenerate_cases() {
    // D <= 0: identical distributions, the p-value is one.
    assert_eq!(ks_pvalue(0, 100, 100), SCALE);
    assert_eq!(ks_pvalue(-5, 100, 100), SCALE);
    // D >= 1: maximal divergence, the p-value is zero.
    assert_eq!(ks_pvalue(SCALE, 100, 100), 0);
    assert_eq!(ks_pvalue(SCALE + 7, 100, 100), 0);
}

#[test]
fn ks_pvalue_interior_values() {
    // Values computed by the fixed-point series; they agree with the
    // floating-point Kolmogorov approximation to about five decimals.
    assert_eq!(ks_pvalue(100_000, 100, 100), 676_624);
    assert_eq!(ks_pvalue(200_000, 100, 100), 31_376);
    assert_eq!(ks_pvalue(500_000, 100, 100), 0);
    assert_eq!(ks_pvalue(50_000, 50, 60), SCALE);
}

#[test]
fn ks_pvalue_not_larger_at_extremes() {
    // The ends of the statistic's range bound every p-value.
    let p = ks_pvalue(300_000, 40, 40);
    assert!(p <= ks_pvalue(0, 40, 40));
    assert!(p >= ks_pvalue(SCALE, 40, 40));
}

#[test]
fn ks_test_pvalue_identical_vs_disjoint() {
    let a: Vec<i64> = vec![1_000_000, 2_000_000, 3_000_000];
    // Identical samples: D == 0, p-value 1.
    assert_eq!(ks_test_pvalue(&a, &a), SCALE);
    let one: Vec<i64> = vec![7];
    assert_eq!(ks_test_pvalue(&one, &one), SCALE);
    let hi: Vec<i64> = vec![50_000_000, 60_000_000, 70_000_000];
    // Disjoint samples: D == 1, p-value 0.
    assert_eq!(ks_test_pvalue(&a, &hi), 0);
    // Either sample empty: D == 1, p-value 0.
    let e: Vec<i64> = Vec::new();
    assert_eq!(ks_test_pvalue(&a, &e), 0);
}

#[test]
fn compute_stats_exact() {
    // The classic sample 2, 4, 4, 4, 5, 5, 7, 9: mean 5, population
    // standard deviation 2, both exact in micro-units.
    let s: Vec<i64> = vec![
        2_000_000, 4_000_000, 4_000_000, 4_000_000, 5_000_000, 5_000_000, 7_000_000, 9_000_000,
    ];
    let (mean, std) = compute_stats(&s);
    assert_eq!(mean, 5_000_000);
    assert_eq!(std, 2_000_000);
}

#[test]
fn compute_stats_empty_and_constant() {
    let e: Vec<i64> = Vec::new();
    assert_eq!(compute_stats(&e), (0, 0));
    let c: Vec<i64> = vec![7_000_000, 7_000_000, 7_000_000];
    assert_eq!(compute_stats(&c), (7_000_000, 0));
}

#[test]
fn compute_stats_negative_values() {
    let s: Vec<i64> = vec![-1_000_000, 1_000_000];
    let (mean, std) = compute_stats(&s);
    assert_eq!(mean, 0);
    assert_eq!(std, 1_000_000);
}
