//! Reference-validator comparison: the parameters handed to the reference
//! implementation, its reported result, and the tolerance-based comparison
//! of its statistics against the target engine's.
//!
//! The reference implementation runs as an external process; the shell
//! around this library invokes it and parses its output into an `RResult`
//! before the verified comparison below classifies the case.

use vstd::prelude::*;

use crate::cli_runner::AnalyticsOutput;
use crate::cli_runner::Stats;
use crate::format::fixed_to_string;
use crate::format::spec_fixed_str;
use crate::stats::percent_of;
use crate::stats::percentile_within;
use crate::stats::sat_rel_diff;
use crate::stats::spec_effective_pct_tolerance;
use crate::stats::spec_percent_of;
use crate::stats::spec_percentile_ok;
use crate::stats::spec_sat_rel_diff;
use crate::stats::spec_within_tolerance;
use crate::stats::within_tolerance;
use crate::stats::Tolerance;
use crate::types::table_lookup;
use crate::types::NumTable;

verus! {

/// Parameters to pass to a reference validator.
pub struct RParams {
    /// Distribution type.
    pub distribution: Option<String>,
    /// Numeric parameters, micro-units.
    pub params: NumTable,
    /// Random seed.
    pub seed: u64,
    /// Number of iterations.
    pub iterations: usize,
}

impl Default for RParams {
    /// No distribution, no parameters, the default seed and iteration
    /// count.
    fn default() -> (r: RParams)
        ensures
            r.distribution is None,
            r.params.spec_len() == 0,
            r.seed == 42,
            r.iterations == 10_000,
    {
        RParams { distribution: None, params: NumTable::new(), seed: 42, iterations: 10_000 }
    }
}

/// Result reported by a reference validator run, with its statistics
/// already parsed out of the process output.
pub struct RResult {
    /// Validator name.
    pub validator: String,
    /// Validator version.
    pub version: String,
    /// Whether validation succeeded.
    pub success: bool,
    /// Parsed statistics (if present in the output).
    pub results: Option<Stats>,
    /// Error message (if failed).
    pub error: Option<String>,
}

/// Validation result comparing target-engine and reference outputs.
pub enum ValidationResult {
    /// Results match within tolerance.
    Pass { forge_stats: Stats, r_stats: Stats, details: String },
    /// Results differ beyond tolerance.
    Fail { forge_stats: Stats, r_stats: Stats, reason: String },
    /// Validation could not be performed.
    Error { reason: String },
}

impl ValidationResult {
    pub fn is_pass(&self) -> (r: bool)
        ensures
            r == (self is Pass),
    {
        match self {
            ValidationResult::Pass { .. } => true,
            _ => false,
        }
    }
}

/// Configuration for the reference validator runner.
pub struct RConfig {
    /// Path to the reference interpreter binary.
    pub rscript_bin: String,
    /// Directory containing the validator scripts.
    pub validators_dir: String,
    /// Timeout for script execution, milliseconds.
    pub timeout_ms: u64,
}

impl Default for RConfig {
    fn default() -> (r: RConfig)
        ensures
            r.rscript_bin@ == "Rscript"@,
            r.validators_dir@ == "validators/r"@,
            r.timeout_ms == 30_000,
    {
        RConfig {
            rscript_bin: "Rscript".to_owned(),
            validators_dir: "validators/r".to_owned(),
            timeout_ms: 30_000,
        }
    }
}

/// The reason of an `Error` outcome when the reference validator itself
/// reported failure: its own message, or a fixed fallback.
pub open spec fn spec_r_error_reason(error: Option<String>) -> Seq<char> {
    match error {
        Some(e) => e@,
        None => "Unknown R error"@,
    }
}

/// The mismatch message for a scalar statistic: the statistic's name, both
/// values, the percent difference, and the tolerance that was exceeded, as
/// a percentage.
pub open spec fn spec_scalar_mismatch_msg(label: Seq<char>, forge: int, r: int, tol: int) -> Seq<
    char,
> {
    label + " mismatch: forge="@ + spec_fixed_str(forge) + ", R="@ + spec_fixed_str(r) + " (diff="@
        + spec_fixed_str(spec_percent_of(spec_sat_rel_diff(forge, r))) + "%, tolerance="@
        + spec_fixed_str(spec_percent_of(tol)) + "%)"@
}

/// The mismatch message for a percentile: its label, both values, the
/// percent difference, and the effective tolerance applied.
pub open spec fn spec_pct_mismatch_msg(label: Seq<char>, forge: int, r: int, eff: int) -> Seq<
    char,
> {
    "Percentile "@ + label + " mismatch: forge="@ + spec_fixed_str(forge) + ", R="@
        + spec_fixed_str(r) + " (diff="@ + spec_fixed_str(
        spec_percent_of(spec_sat_rel_diff(forge, r)),
    ) + "%, tolerance="@ + spec_fixed_str(spec_percent_of(eff)) + "%)"@
}

/// Builds the scalar mismatch message.
fn scalar_mismatch_msg(label: &str, forge: i64, r: i64, tol: i64) -> (s: String)
    ensures
        s@ == spec_scalar_mismatch_msg(label@, forge as int, r as int, tol as int),
{
    let mut s: String = label.to_owned();
    s.append(" mismatch: forge=");
    s.append(fixed_to_string(forge).as_str());
    s.append(", R=");
    s.append(fixed_to_string(r).as_str());
    s.append(" (diff=");
    s.append(fixed_to_string(percent_of(sat_rel_diff(forge, r))).as_str());
    s.append("%, tolerance=");
    s.append(fixed_to_string(percent_of(tol)).as_str());
    s.append("%)");
    s
}

/// Builds the percentile mismatch message.
fn pct_mismatch_msg(label: &str, forge: i64, r: i64, eff: i64) -> (s: String)
    ensures
        s@ == spec_pct_mismatch_msg(label@, forge as int, r as int, eff as int),
{
    let mut s: String = "Percentile ".to_owned();
    s.append(label);
    s.append(" mismatch: forge=");
    s.append(fixed_to_string(forge).as_str());
    s.append(", R=");
    s.append(fixed_to_string(r).as_str());
    s.append(" (diff=");
    s.append(fixed_to_string(percent_of(sat_rel_diff(forge, r))).as_str());
    s.append("%, tolerance=");
    s.append(fixed_to_string(percent_of(eff)).as_str());
    s.append("%)");
    s
}

/// The statistics carried in a comparison outcome are the ones that were
/// compared.
pub open spec fn spec_stats_match(a: Stats, b: Stats) -> bool {
    &&& a.mean == b.mean
    &&& a.std == b.std
    &&& a.percentiles.entries@ == b.percentiles.entries@
    &&& a.samples@ == b.samples@
}

/// Compares target-engine output with a reference validation result.
///
/// A reference-side failure, or statistics missing from either side, is an
/// `Error`, never a `Fail`; then the mean, the standard deviation, and the
/// percentiles labelled `5`, `50` and `95` are compared in that order, each
/// only where both sides report it. The percentiles use the lenient rule of
/// `spec_percentile_ok`: within the effective tolerance of at least ten
/// percent, or within half the reference standard deviation absolute (taken
/// as zero when the reference reports no standard deviation, which makes
/// the absolute fallback vacuous). The first statistic outside its envelope
/// decides a `Fail` whose reason names the statistic, both values, the
/// percent difference, and the tolerance.
pub fn compare_results(forge: &AnalyticsOutput, r_result: &RResult, tolerance: &Tolerance) -> (v:
    ValidationResult)
    ensures
        r_result.success ==> (forge.stats matches Some(fs) ==> (r_result.results matches Some(rs)
            ==> {
            &&& (v matches ValidationResult::Fail { forge_stats, r_stats, .. } ==> (
            spec_stats_match(forge_stats, fs) && spec_stats_match(r_stats, rs)))
            &&& (v matches ValidationResult::Pass { forge_stats, r_stats, .. } ==> (
            spec_stats_match(forge_stats, fs) && spec_stats_match(r_stats, rs)))
        })),
        !r_result.success ==> (v matches ValidationResult::Error { reason } && reason@
            == spec_r_error_reason(r_result.error)),
        r_result.success && forge.stats is None ==> (v matches ValidationResult::Error { reason }
            && reason@ == "No statistics in forge output"@),
        r_result.success && forge.stats is Some && r_result.results is None ==> (v
            matches ValidationResult::Error { reason } && reason@ == "No statistics in R output"@),
        r_result.success ==> (forge.stats matches Some(fs) ==> (r_result.results matches Some(rs)
            ==> {
            let mean_bad = fs.mean is Some && rs.mean is Some && !spec_within_tolerance(
                fs.mean->0 as int,
                rs.mean->0 as int,
                tolerance.mean as int,
            );
            let std_bad = fs.std is Some && rs.std is Some && !spec_within_tolerance(
                fs.std->0 as int,
                rs.std->0 as int,
                tolerance.std as int,
            );
            let ref_std: int = if rs.std is Some {
                rs.std->0 as int
            } else {
                0
            };
            let fents = fs.percentiles.entries@;
            let rents = rs.percentiles.entries@;
            let p5 = (table_lookup(fents, "5"@), table_lookup(rents, "5"@));
            let p50 = (table_lookup(fents, "50"@), table_lookup(rents, "50"@));
            let p95 = (table_lookup(fents, "95"@), table_lookup(rents, "95"@));
            let eff = spec_effective_pct_tolerance(tolerance.percentiles as int);
            if mean_bad {
                (v matches ValidationResult::Fail { reason, .. } && reason@
                    == spec_scalar_mismatch_msg(
                    "Mean"@,
                    fs.mean->0 as int,
                    rs.mean->0 as int,
                    tolerance.mean as int,
                ))
            } else if std_bad {
                (v matches ValidationResult::Fail { reason, .. } && reason@
                    == spec_scalar_mismatch_msg(
                    "Std"@,
                    fs.std->0 as int,
                    rs.std->0 as int,
                    tolerance.std as int,
                ))
            } else if p5.0 is Some && p5.1 is Some && !spec_percentile_ok(
                p5.0->0 as int,
                p5.1->0 as int,
                tolerance.percentiles as int,
                ref_std,
            ) {
                (v matches ValidationResult::Fail { reason, .. } && reason@
                    == spec_pct_mismatch_msg("5"@, p5.0->0 as int, p5.1->0 as int, eff))
            } else if p50.0 is Some && p50.1 is Some && !spec_percentile_ok(
                p50.0->0 as int,
                p50.1->0 as int,
                tolerance.percentiles as int,
                ref_std,
            ) {
                (v matches ValidationResult::Fail { reason, .. } && reason@
                    == spec_pct_mismatch_msg("50"@, p50.0->0 as int, p50.1->0 as int, eff))
            } else if p95.0 is Some && p95.1 is Some && !spec_percentile_ok(
                p95.0->0 as int,
                p95.1->0 as int,
                tolerance.percentiles as int,
                ref_std,
            ) {
                (v matches ValidationResult::Fail { reason, .. } && reason@
                    == spec_pct_mismatch_msg("95"@, p95.0->0 as int, p95.1->0 as int, eff))
            } else {
                (v matches ValidationResult::Pass { details, .. } && details@
                    == "All statistics within tolerance"@)
            }
        })),
{
    if !r_result.success {
        let reason: String = match &r_result.error {
            Some(e) => e.clone(),
            None => "Unknown R error".to_owned(),
        };
        return ValidationResult::Error { reason };
    }

    let forge_stats: Stats = match &forge.stats {
        Some(s) => s.clone(),
        None => {
            return ValidationResult::Error { reason: "No statistics in forge output".to_owned() };
        },
    };

    let r_stats: Stats = match &r_result.results {
        Some(s) => s.clone(),
        None => {
            return ValidationResult::Error { reason: "No statistics in R output".to_owned() };
        },
    };

    // Compare mean.
    if let (Some(forge_mean), Some(r_mean)) = (forge_stats.mean, r_stats.mean) {
        if !within_tolerance(forge_mean, r_mean, tolerance.mean) {
            let reason = scalar_mismatch_msg("Mean", forge_mean, r_mean, tolerance.mean);
            return ValidationResult::Fail { forge_stats, r_stats, reason };
        }
    }

    // Compare std.
    if let (Some(forge_std), Some(r_std)) = (forge_stats.std, r_stats.std) {
        if !within_tolerance(forge_std, r_std, tolerance.std) {
            let reason = scalar_mismatch_msg("Std", forge_std, r_std, tolerance.std);
            return ValidationResult::Fail { forge_stats, r_stats, reason };
        }
    }

    // Compare the key percentiles (5, 50, 95) under the lenient rule: the
    // absolute fallback is half the reference standard deviation, or
    // vacuous when the reference reports none.
    let ref_std: i64 = match r_stats.std {
        Some(sd) => sd,
        None => 0,
    };
    let eff: i64 = if tolerance.percentiles > 100_000 {
        tolerance.percentiles
    } else {
        100_000
    };

    if let (Some(fv), Some(rv)) = (forge_stats.percentiles.get("5"), r_stats.percentiles.get("5")) {
        if !percentile_within(fv, rv, tolerance.percentiles, ref_std) {
            let reason = pct_mismatch_msg("5", fv, rv, eff);
            return ValidationResult::Fail { forge_stats, r_stats, reason };
        }
    }
    if let (Some(fv), Some(rv)) = (
        forge_stats.percentiles.get("50"),
        r_stats.percentiles.get("50"),
    ) {
        if !percentile_within(fv, rv, tolerance.percentiles, ref_std) {
            let reason = pct_mismatch_msg("50", fv, rv, eff);
            return ValidationResult::Fail { forge_stats, r_stats, reason };
        }
    }
    if let (Some(fv), Some(rv)) = (
        forge_stats.percentiles.get("95"),
        r_stats.percentiles.get("95"),
    ) {
        if !percentile_within(fv, rv, tolerance.percentiles, ref_std) {
            let reason = pct_mismatch_msg("95", fv, rv, eff);
            return ValidationResult::Fail { forge_stats, r_stats, reason };
        }
    }

    ValidationResult::Pass {
        forge_stats,
        r_stats,
        details: "All statistics within tolerance".to_owned(),
    }
}

} // verus!
