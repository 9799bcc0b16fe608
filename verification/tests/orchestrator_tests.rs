//! Tests of the orchestration: formula translation, the verdict
//! comparator, the planning step, classification of reference failures,
//! and the aggregate summary.

use forge_e2e_r::orchestrator::build_mc_formula;
use forge_e2e_r::orchestrator::compare_forge_r_results;
use forge_e2e_r::orchestrator::conclude_monte_carlo;
use forge_e2e_r::orchestrator::effective_tolerance;
use forge_e2e_r::orchestrator::plan_monte_carlo_test;
use forge_e2e_r::orchestrator::reference_failure_verdict;
use forge_e2e_r::orchestrator::suite_failed;
use forge_e2e_r::orchestrator::suite_failed_with_policy;
use forge_e2e_r::orchestrator::summarize;
use forge_e2e_r::orchestrator::target_failure_verdict;
use forge_e2e_r::orchestrator::ForgeStats;
use forge_e2e_r::orchestrator::McFormula;
use forge_e2e_r::orchestrator::TestPlan;
use forge_e2e_r::stats::percentile_within;
use forge_e2e_r::stats::Tolerance;
use forge_e2e_r::types::default_iterations;
use forge_e2e_r::types::default_seed;
use forge_e2e_r::types::AnalyticsTestSpec;
use forge_e2e_r::types::NumTable;
use forge_e2e_r::types::TestResult;
use forge_e2e_r::types::ToleranceSpec;

fn params(pairs: &[(&str, i64)]) -> NumTable {
    let mut t = NumTable::new();
    for (k, v) in pairs {
        t.insert((*k).to_string(), *v);
    }
    t
}

fn spec_with(distribution: Option<&str>, pairs: &[(&str, i64)]) -> AnalyticsTestSpec {
    AnalyticsTestSpec {
        name: "case".to_string(),
        distribution: distribution.map(|d| d.to_string()),
        params: params(pairs),
        seed: default_seed(),
        iterations: default_iterations(),
        r_validator: None,
        r_expected: None,
        tolerance: None,
    }
}

fn stats_of(mean: i64, std: i64, pcts: &[(&str, i64)]) -> ForgeStats {
    ForgeStats { mean, std, percentiles: params(pcts) }
}

#[test]
fn build_formula_normal() {
    let p = params(&[("mean", 100_000_000), ("sd", 15_000_000)]);
    match build_mc_formula("normal", &p) {
        Ok(McFormula::Normal { mean, sd }) => {
            assert_eq!(mean, 100_000_000);
            assert_eq!(sd, 15_000_000);
        }
        other => panic!("expected a normal formula, got {:?}", other.is_ok()),
    }
}

#[test]
fn build_formula_case_insensitive() {
    let p = params(&[("min", 0), ("max", 10_000_000)]);
    assert!(build_mc_formula("Uniform", &p).is_ok());
    assert!(build_mc_formula("UNIFORM", &p).is_ok());
}

#[test]
fn build_formula_missing_param() {
    let p = params(&[("mean", 100_000_000)]);
    match build_mc_formula("normal", &p) {
        Err(e) => assert_eq!(e, "Missing 'sd' param"),
        Ok(_) => panic!("a normal distribution without 'sd' must be rejected"),
    }
}

#[test]
fn build_formula_exponential_rejected() {
    let p = params(&[("rate", 1_000_000)]);
    match build_mc_formula("exponential", &p) {
        Err(e) => assert!(e.contains("not supported")),
        Ok(_) => panic!("the exponential distribution must be rejected"),
    }
}

#[test]
fn build_formula_unknown_rejected() {
    match build_mc_formula("cauchy", &NumTable::new()) {
        Err(e) => assert!(e.contains("Unsupported distribution")),
        Ok(_) => panic!("an unknown distribution must be rejected"),
    }
}

#[test]
fn build_formula_lognormal_degenerate() {
    // meanlog 0, sdlog 0: mean = exp(0) = 1, variance = 0, stdev = 0.
    let p = params(&[("meanlog", 0), ("sdlog", 0)]);
    match build_mc_formula("lognormal", &p) {
        Ok(McFormula::Lognormal { mean, stdev }) => {
            assert_eq!(mean, 1_000_000);
            assert_eq!(stdev, 0);
        }
        _ => panic!("expected a lognormal formula"),
    }
}

#[test]
fn build_formula_lognormal_moments() {
    // meanlog 0, sdlog 1: mean = exp(0.5) = 1.648721...,
    // stdev = sqrt((e - 1) e) = 2.161197... The fixed-point series
    // matches to about four decimals.
    let p = params(&[("meanlog", 0), ("sdlog", 1_000_000)]);
    match build_mc_formula("lognormal", &p) {
        Ok(McFormula::Lognormal { mean, stdev }) => {
            assert!((mean - 1_648_721).abs() < 200, "mean was {mean}");
            assert!((stdev - 2_161_197).abs() < 400, "stdev was {stdev}");
        }
        _ => panic!("expected a lognormal formula"),
    }
}

#[test]
fn build_formula_lognormal_out_of_range() {
    // exp(40) does not fit the micro-unit range.
    let p = params(&[("meanlog", 40_000_000), ("sdlog", 1_000_000)]);
    match build_mc_formula("lognormal", &p) {
        Err(e) => assert!(e.contains("out of range")),
        Ok(_) => panic!("out-of-range lognormal parameters must be rejected"),
    }
}

#[test]
fn plan_skips_without_distribution() {
    let spec = spec_with(None, &[]);
    match plan_monte_carlo_test(&spec) {
        TestPlan::Skip { verdict } => match verdict {
            TestResult::Skip { name, reason } => {
                assert_eq!(name, "case");
                assert_eq!(reason, "No distribution specified (not a Monte Carlo test)");
            }
            _ => panic!("the verdict must be Skip"),
        },
        TestPlan::Run { .. } => panic!("a spec without a distribution must not run"),
    }
}

#[test]
fn plan_skips_unbuildable_formula() {
    let spec = spec_with(Some("exponential"), &[]);
    match plan_monte_carlo_test(&spec) {
        TestPlan::Skip { verdict } => match verdict {
            TestResult::Skip { reason, .. } => {
                assert!(reason.starts_with("Cannot build formula: "));
                assert!(reason.contains("not supported"));
            }
            _ => panic!("the verdict must be Skip"),
        },
        TestPlan::Run { .. } => panic!("the exponential distribution must not run"),
    }
}

#[test]
fn plan_runs_normal_case() {
    let spec = spec_with(Some("normal"), &[("mean", 100_000_000), ("sd", 15_000_000)]);
    match plan_monte_carlo_test(&spec) {
        TestPlan::Run { formula } => {
            assert!(matches!(formula, McFormula::Normal { .. }));
        }
        TestPlan::Skip { .. } => panic!("a well-formed normal case must run"),
    }
}

#[test]
fn effective_tolerance_merges_overrides() {
    let mut spec = spec_with(Some("normal"), &[]);
    spec.tolerance = Some(ToleranceSpec { mean: Some(30_000), std: None, percentiles: None });
    let t = effective_tolerance(&spec);
    assert_eq!(t.mean, 30_000);
    assert_eq!(t.std, 50_000);
    assert_eq!(t.percentiles, 20_000);
    assert_eq!(t.ks_pvalue, 50_000);
    assert_eq!(t.ci_bounds, 20_000);
    let untouched = effective_tolerance(&spec_with(Some("normal"), &[]));
    assert_eq!(untouched.mean, 10_000);
}

#[test]
fn percentile_passes_on_relative_fallback() {
    // Reference std 10, configured tolerance 0.02: the pair (105, 100)
    // differs by 5%, inside the widened 10% tolerance, so it passes on
    // the relative fallback alone.
    assert!(percentile_within(105_000_000, 100_000_000, 20_000, 10_000_000));
}

#[test]
fn percentile_passes_on_absolute_fallback() {
    // 20% relative difference, but the absolute difference of 2 is within
    // half the reference standard deviation of 10.
    assert!(percentile_within(12_000_000, 10_000_000, 20_000, 10_000_000));
    // Both fallbacks fail: 50% off and far beyond half a std.
    assert!(!percentile_within(15_000_000, 10_000_000, 20_000, 1_000_000));
}

#[test]
fn compare_mean_within_tolerance_passes() {
    // Target mean 99.8 vs reference mean 100.1 with tolerance 0.01:
    // the relative difference of 0.3% is within 1%.
    let f = stats_of(99_800_000, 15_000_000, &[]);
    let r = stats_of(100_100_000, 15_000_000, &[]);
    let v = compare_forge_r_results("normal_case", &f, &r, &Tolerance::default());
    assert!(v.is_pass(), "expected a pass, got {:?}", v.name());
}

#[test]
fn compare_std_mismatch_fails() {
    // Target std 20 vs reference std 15 with tolerance 0.05: the relative
    // difference of 33% exceeds 5% and the verdict names the statistic
    // and both values.
    let f = stats_of(100_000_000, 20_000_000, &[]);
    let r = stats_of(100_000_000, 15_000_000, &[]);
    let v = compare_forge_r_results("normal_case", &f, &r, &Tolerance::default());
    match v {
        TestResult::Fail { name, reason } => {
            assert_eq!(name, "normal_case");
            assert!(reason.contains("Std mismatch"), "reason was: {reason}");
            assert!(reason.contains("20.000000"), "reason was: {reason}");
            assert!(reason.contains("15.000000"), "reason was: {reason}");
        }
        _ => panic!("expected a Fail verdict"),
    }
}

#[test]
fn compare_percentile_mismatch_fails() {
    let f = stats_of(100_000_000, 1_000_000, &[("5", 50_000_000)]);
    let r = stats_of(100_000_000, 1_000_000, &[("5", 80_000_000)]);
    let v = compare_forge_r_results("pct_case", &f, &r, &Tolerance::default());
    match v {
        TestResult::Fail { reason, .. } => {
            assert!(reason.contains("P5 mismatch"), "reason was: {reason}");
        }
        _ => panic!("expected a Fail verdict"),
    }
}

#[test]
fn compare_missing_percentile_is_not_a_mismatch() {
    // A percentile absent on either side is not comparable, never a
    // mismatch.
    let f = stats_of(100_000_000, 1_000_000, &[("5", 50_000_000)]);
    let r = stats_of(100_000_000, 1_000_000, &[("95", 80_000_000)]);
    let v = compare_forge_r_results("pct_case", &f, &r, &Tolerance::default());
    assert!(v.is_pass());
}

#[test]
fn reference_process_failure_is_error_never_fail() {
    // Even with parsable partial statistics on both sides, a reference
    // validator that reported failure gives an Error verdict.
    let spec = spec_with(Some("normal"), &[("mean", 100_000_000), ("sd", 15_000_000)]);
    let f = stats_of(100_000_000, 15_000_000, &[]);
    let r = Some(stats_of(500_000_000, 1_000_000, &[]));
    let v = conclude_monte_carlo(&spec, &f, false, &Some("exit status 1".to_string()), &r);
    match v {
        TestResult::Error { name, error } => {
            assert_eq!(name, "case");
            assert_eq!(error, "R returned error: exit status 1");
        }
        _ => panic!("a reference-side failure must be an Error, never a Fail"),
    }
}

#[test]
fn reference_unparsable_stats_is_error() {
    let spec = spec_with(Some("normal"), &[]);
    let f = stats_of(100_000_000, 15_000_000, &[]);
    let v = conclude_monte_carlo(&spec, &f, true, &None, &None);
    match v {
        TestResult::Error { error, .. } => assert_eq!(error, "Failed to parse R statistics"),
        _ => panic!("unparsable reference statistics must be an Error"),
    }
}

#[test]
fn conclude_compares_on_success() {
    let spec = spec_with(Some("normal"), &[]);
    let f = stats_of(99_800_000, 15_000_000, &[]);
    let r = Some(stats_of(100_100_000, 15_000_000, &[]));
    let v = conclude_monte_carlo(&spec, &f, true, &None, &r);
    assert!(v.is_pass());
}

#[test]
fn invocation_failure_verdicts() {
    let t = target_failure_verdict("case", "spawn failed");
    match t {
        TestResult::Error { error, .. } => assert_eq!(error, "Forge failed: spawn failed"),
        _ => panic!("expected an Error verdict"),
    }
    let r = reference_failure_verdict("case", "timed out after 30000ms");
    match r {
        TestResult::Error { error, .. } => {
            assert_eq!(error, "R validator failed: timed out after 30000ms");
        }
        _ => panic!("expected an Error verdict"),
    }
}

#[test]
fn summarize_counts_and_exit_signal() {
    let results = vec![
        TestResult::Pass { name: "a".to_string(), details: String::new() },
        TestResult::Skip { name: "b".to_string(), reason: String::new() },
        TestResult::Error { name: "c".to_string(), error: String::new() },
        TestResult::Pass { name: "d".to_string(), details: String::new() },
    ];
    let s = summarize(&results);
    assert_eq!((s.passed, s.failed, s.skipped, s.errored), (2, 0, 1, 1));
    // Errors and skips alone do not fail the run under the default policy.
    assert!(!suite_failed(&s));
    // Under an error-gating policy, the error alone fails it.
    assert!(suite_failed_with_policy(&s, true));
    assert!(!suite_failed_with_policy(&s, false));

    let mut with_fail = results;
    with_fail.push(TestResult::Fail { name: "e".to_string(), reason: String::new() });
    let s2 = summarize(&with_fail);
    assert_eq!((s2.passed, s2.failed, s2.skipped, s2.errored), (2, 1, 1, 1));
    assert!(suite_failed(&s2));
    assert!(suite_failed_with_policy(&s2, false));
}
