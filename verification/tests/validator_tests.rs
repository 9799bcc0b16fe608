//! Tests of the reference-validator comparison.

use forge_e2e_r::cli_runner::AnalyticsOutput;
use forge_e2e_r::cli_runner::Stats;
use forge_e2e_r::r_validator::compare_results;
use forge_e2e_r::r_validator::RResult;
use forge_e2e_r::r_validator::ValidationResult;
use forge_e2e_r::stats::Tolerance;
use forge_e2e_r::types::NumTable;

fn stats(mean: Option<i64>, std: Option<i64>, pcts: &[(&str, i64)]) -> Stats {
    let mut percentiles = NumTable::new();
    for (k, v) in pcts {
        percentiles.insert((*k).to_string(), *v);
    }
    Stats { mean, std, percentiles, samples: Vec::new() }
}

fn output_with(stats: Option<Stats>) -> AnalyticsOutput {
    AnalyticsOutput { stats, exit_code: 0, stderr: String::new() }
}

fn r_result(success: bool, results: Option<Stats>, error: Option<&str>) -> RResult {
    RResult {
        validator: "monte_carlo_validator.R".to_string(),
        version: String::new(),
        success,
        results,
        error: error.map(|e| e.to_string()),
    }
}

#[test]
fn reported_failure_is_error() {
    let forge = output_with(Some(stats(Some(100_000_000), Some(15_000_000), &[])));
    let r = r_result(false, Some(stats(Some(1), Some(1), &[])), Some("boom"));
    match compare_results(&forge, &r, &Tolerance::default()) {
        ValidationResult::Error { reason } => assert_eq!(reason, "boom"),
        _ => panic!("a reported reference failure must be an Error"),
    }
}

#[test]
fn reported_failure_without_message() {
    let forge = output_with(None);
    let r = r_result(false, None, None);
    match compare_results(&forge, &r, &Tolerance::default()) {
        ValidationResult::Error { reason } => assert_eq!(reason, "Unknown R error"),
        _ => panic!("expected an Error"),
    }
}

#[test]
fn missing_forge_stats_is_error() {
    let forge = output_with(None);
    let r = r_result(true, Some(stats(Some(1), None, &[])), None);
    match compare_results(&forge, &r, &Tolerance::default()) {
        ValidationResult::Error { reason } => {
            assert_eq!(reason, "No statistics in forge output");
        }
        _ => panic!("expected an Error"),
    }
}

#[test]
fn missing_r_stats_is_error() {
    let forge = output_with(Some(stats(Some(1), None, &[])));
    let r = r_result(true, None, None);
    match compare_results(&forge, &r, &Tolerance::default()) {
        ValidationResult::Error { reason } => {
            assert_eq!(reason, "No statistics in R output");
        }
        _ => panic!("expected an Error"),
    }
}

#[test]
fn mean_mismatch_fails_with_message() {
    let forge = output_with(Some(stats(Some(110_000_000), Some(15_000_000), &[])));
    let r = r_result(true, Some(stats(Some(100_000_000), Some(15_000_000), &[])), None);
    match compare_results(&forge, &r, &Tolerance::default()) {
        ValidationResult::Fail { reason, .. } => {
            assert!(reason.contains("Mean mismatch"), "reason was: {reason}");
            assert!(reason.contains("110.000000"), "reason was: {reason}");
            assert!(reason.contains("100.000000"), "reason was: {reason}");
        }
        _ => panic!("expected a Fail"),
    }
}

#[test]
fn missing_scalar_on_one_side_is_not_compared() {
    // Absent statistics are "not comparable", never a mismatch.
    let forge = output_with(Some(stats(None, Some(15_000_000), &[])));
    let r = r_result(true, Some(stats(Some(100_000_000), Some(15_000_000), &[])), None);
    match compare_results(&forge, &r, &Tolerance::default()) {
        ValidationResult::Pass { details, .. } => {
            assert_eq!(details, "All statistics within tolerance");
        }
        _ => panic!("expected a Pass"),
    }
}

#[test]
fn percentile_mismatch_fails() {
    // 20% off with no reference standard deviation: both the widened
    // relative tolerance and the (vacuous) absolute fallback fail.
    let forge = output_with(Some(stats(Some(100_000_000), None, &[("50", 80_000_000)])));
    let r = r_result(true, Some(stats(Some(100_000_000), None, &[("50", 100_000_000)])), None);
    match compare_results(&forge, &r, &Tolerance::default()) {
        ValidationResult::Fail { reason, .. } => {
            assert!(reason.contains("Percentile 50 mismatch"), "reason was: {reason}");
            assert!(reason.contains("diff="), "reason was: {reason}");
        }
        _ => panic!("expected a Fail"),
    }
}

#[test]
fn percentile_lenient_rule_passes() {
    // 5% off is inside the widened ten-percent tolerance, whatever the
    // configured percentile tolerance says.
    let forge = output_with(Some(stats(Some(100_000_000), None, &[("50", 105_000_000)])));
    let r = r_result(true, Some(stats(Some(100_000_000), None, &[("50", 100_000_000)])), None);
    assert!(compare_results(&forge, &r, &Tolerance::default()).is_pass());
}

#[test]
fn percentile_absolute_fallback_uses_reference_std() {
    // 20% off but within half the reference standard deviation.
    let forge = output_with(Some(stats(
        Some(10_000_000),
        Some(10_000_000),
        &[("5", 12_000_000)],
    )));
    let r = r_result(
        true,
        Some(stats(Some(10_000_000), Some(10_000_000), &[("5", 10_000_000)])),
        None,
    );
    assert!(compare_results(&forge, &r, &Tolerance::default()).is_pass());
}

#[test]
fn percentile_off_key_is_not_checked() {
    // Only the 5th, 50th and 95th percentiles are compared; a wildly
    // different 25th percentile is not a mismatch.
    let forge = output_with(Some(stats(Some(100_000_000), None, &[("25", 1_000_000)])));
    let r = r_result(true, Some(stats(Some(100_000_000), None, &[("25", 99_000_000)])), None);
    assert!(compare_results(&forge, &r, &Tolerance::default()).is_pass());
}

#[test]
fn everything_within_tolerance_passes() {
    let forge = output_with(Some(stats(
        Some(100_200_000),
        Some(15_100_000),
        &[("5", 75_000_000), ("95", 125_000_000)],
    )));
    let r = r_result(
        true,
        Some(stats(
            Some(100_000_000),
            Some(15_000_000),
            &[("5", 75_500_000), ("95", 124_500_000)],
        )),
        None,
    );
    let mut tol = Tolerance::default();
    tol.mean = 10_000;
    tol.std = 50_000;
    tol.percentiles = 20_000;
    match compare_results(&forge, &r, &tol) {
        ValidationResult::Pass { details, .. } => {
            assert_eq!(details, "All statistics within tolerance");
        }
        _ => panic!("expected a Pass"),
    }
}
