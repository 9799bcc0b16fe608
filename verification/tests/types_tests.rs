//! Tests of the common types: configurations, the keyed value table, the
//! verdict type, and suite resolution.

use forge_e2e_r::cli_runner::RunnerConfig;
use forge_e2e_r::cli_runner::Stats;
use forge_e2e_r::format::fixed_to_string;
use forge_e2e_r::r_validator::RConfig;
use forge_e2e_r::r_validator::RParams;
use forge_e2e_r::r_validator::ValidationResult;
use forge_e2e_r::types::default_iterations;
use forge_e2e_r::types::default_seed;
use forge_e2e_r::types::resolve_suite;
use forge_e2e_r::types::AnalyticsTestFile;
use forge_e2e_r::types::AnalyticsTestSpec;
use forge_e2e_r::types::NumTable;
use forge_e2e_r::types::TestResult;

#[test]
fn test_runner_config_default() {
    let config = RunnerConfig::default();
    assert_eq!(config.forge_bin, "forge");
}

#[test]
fn test_r_config_default() {
    let config = RConfig::default();
    assert_eq!(config.rscript_bin, "Rscript");
}

#[test]
fn test_r_params_default() {
    let params = RParams::default();
    assert_eq!(params.seed, 42);
    assert_eq!(params.iterations, 10_000);
}

#[test]
fn test_validation_result_is_pass() {
    let result = ValidationResult::Pass {
        forge_stats: Stats::default(),
        r_stats: Stats::default(),
        details: "OK".to_string(),
    };
    assert!(result.is_pass());
}

#[test]
fn defaults() {
    assert_eq!(default_seed(), 42);
    assert_eq!(default_iterations(), 10_000);
}

#[test]
fn num_table_get_insert_replace() {
    let mut t = NumTable::new();
    assert!(t.is_empty());
    assert_eq!(t.get("mean"), None);
    t.insert("mean".to_string(), 100_000_000);
    t.insert("sd".to_string(), 15_000_000);
    assert_eq!(t.len(), 2);
    assert_eq!(t.get("mean"), Some(100_000_000));
    assert_eq!(t.get("sd"), Some(15_000_000));
    assert_eq!(t.get("mode"), None);
    // Replacing keeps the key unique and changes only that binding.
    t.insert("mean".to_string(), 99_000_000);
    assert_eq!(t.len(), 2);
    assert_eq!(t.get("mean"), Some(99_000_000));
    assert_eq!(t.get("sd"), Some(15_000_000));
}

#[test]
fn test_result_accessors() {
    let pass = TestResult::Pass { name: "a".to_string(), details: "d".to_string() };
    let fail = TestResult::Fail { name: "b".to_string(), reason: "r".to_string() };
    let error = TestResult::Error { name: "c".to_string(), error: "e".to_string() };
    let skip = TestResult::Skip { name: "d".to_string(), reason: "s".to_string() };
    assert!(pass.is_pass() && !pass.is_fail());
    assert!(fail.is_fail() && !fail.is_pass());
    assert!(!error.is_pass() && !error.is_fail());
    assert!(!skip.is_pass() && !skip.is_fail());
    assert_eq!(pass.name(), "a");
    assert_eq!(fail.name(), "b");
    assert_eq!(error.name(), "c");
    assert_eq!(skip.name(), "d");
}

fn bare_spec(validator: Option<&str>) -> AnalyticsTestSpec {
    AnalyticsTestSpec {
        name: String::new(),
        distribution: Some("normal".to_string()),
        params: NumTable::new(),
        seed: default_seed(),
        iterations: default_iterations(),
        r_validator: validator.map(|v| v.to_string()),
        r_expected: None,
        tolerance: None,
    }
}

#[test]
fn resolve_suite_names_and_inherited_validator() {
    let file = AnalyticsTestFile {
        r_validator: Some("monte_carlo_validator.R".to_string()),
        tests: vec![
            ("first".to_string(), bare_spec(None)),
            ("second".to_string(), bare_spec(Some("own.R"))),
        ],
    };
    let specs = resolve_suite(file);
    assert_eq!(specs.len(), 2);
    assert_eq!(specs[0].name, "first");
    assert_eq!(specs[0].r_validator.as_deref(), Some("monte_carlo_validator.R"));
    assert_eq!(specs[1].name, "second");
    assert_eq!(specs[1].r_validator.as_deref(), Some("own.R"));
}

#[test]
fn resolve_suite_no_default_validator() {
    let file = AnalyticsTestFile {
        r_validator: None,
        tests: vec![("only".to_string(), bare_spec(None))],
    };
    let specs = resolve_suite(file);
    assert_eq!(specs.len(), 1);
    assert_eq!(specs[0].name, "only");
    assert_eq!(specs[0].r_validator, None);
}

#[test]
fn fixed_to_string_values() {
    assert_eq!(fixed_to_string(100_500_000), "100.500000");
    assert_eq!(fixed_to_string(0), "0.000000");
    assert_eq!(fixed_to_string(-250_000), "-0.250000");
    assert_eq!(fixed_to_string(15_000_000), "15.000000");
    assert_eq!(fixed_to_string(-1), "-0.000001");
}
