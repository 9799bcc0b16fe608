//! Orchestration of one test case: translation of the declarative
//! specification into the target engine's formula, the comparison of the two
//! implementations' statistics, the classification of every exit path into a
//! verdict, and the aggregate summary.

use vstd::prelude::*;

use crate::format::fixed_to_string;
use crate::format::spec_fixed_str;
use crate::stats::percent_of;
use crate::stats::percentile_within;
use crate::stats::spec_effective_pct_tolerance;
use crate::stats::spec_exp_neg;
use crate::stats::spec_exp_pos;
use crate::stats::spec_isqrt;
use crate::stats::spec_percent_of;
use crate::stats::spec_percentile_ok;
use crate::stats::spec_sat_rel_diff;
use crate::stats::spec_within_tolerance;
use crate::stats::Tolerance;
use crate::stats::EXP_ARG_MAX;
use crate::stats::EXP_NEG_CUTOFF;
use crate::stats::SCALE;
use crate::types::table_lookup;
use crate::types::AnalyticsTestSpec;
use crate::types::NumTable;
use crate::types::TestResult;

verus! {

/// `a` is `b` up to folding ASCII uppercase letters of `a` to lowercase;
/// used to match a distribution name against its lowercase canonical form.
pub open spec fn char_matches_folded(a: char, b: char) -> bool {
    (a as int) == (b as int) || (65 <= a as int <= 90 && a as int + 32 == b as int)
}

pub open spec fn matches_folded(a: Seq<char>, b: Seq<char>) -> bool {
    a.len() == b.len() && (forall|i: int| 0 <= i < a.len() ==> char_matches_folded(a[i], b[i]))
}

/// ASCII case-insensitive match of a string against a lowercase pattern.
fn eq_folded(a: &str, pattern: &str) -> (r: bool)
    ensures
        r == matches_folded(a@, pattern@),
{
    let la = a.unicode_len();
    let lb = pattern.unicode_len();
    if la != lb {
        return false;
    }
    let mut i: usize = 0;
    while i < la
        invariant
            i <= la,
            la == a@.len(),
            la == pattern@.len(),
            forall|k: int| 0 <= k < i ==> char_matches_folded(a@[k], pattern@[k]),
        decreases la - i,
    {
        let ca: u32 = a.get_char(i) as u32;
        let cb: u32 = pattern.get_char(i) as u32;
        let ok = ca == cb || (65 <= ca && ca <= 90 && ca + 32 == cb);
        if !ok {
            return false;
        }
        i += 1;
    }
    true
}

/// A simulation formula in the target engine's native parameterization, all
/// parameters micro-units.
pub enum McFormula {
    Normal { mean: i64, sd: i64 },
    Uniform { min: i64, max: i64 },
    Lognormal { mean: i64, stdev: i64 },
    Triangular { min: i64, mode: i64, max: i64 },
    Pert { min: i64, mode: i64, max: i64 },
}

/// Cut-off for the exponential's argument above which the result would not
/// fit the micro-unit range of an `i64`.
pub const EXP_FIT_MAX: i64 = 29_000_000;

/// The fixed-point exponential for a signed argument.
pub open spec fn spec_exp_signed(x: int) -> int {
    if x >= 0 {
        spec_exp_pos(x)
    } else {
        spec_exp_neg(-x)
    }
}

/// Fixed-point `exp` of a signed micro-unit argument.
fn exp_signed(x: i64) -> (r: u128)
    requires
        x <= EXP_ARG_MAX,
    ensures
        r == spec_exp_signed(x as int),
{
    if x >= 0 {
        crate::stats::exp_pos_scaled(x as u64)
    } else {
        let m: i128 = -(x as i128);
        if m >= EXP_NEG_CUTOFF as i128 {
            0
        } else {
            crate::stats::exp_neg_scaled(m as u64) as u128
        }
    }
}

/// The linear-space moments of a lognormal distribution given its log-space
/// parameters, micro-units: `mean = exp(meanlog + sdlog^2 / 2)` and
/// `stdev = sqrt((exp(sdlog^2) - 1) * exp(2 meanlog + sdlog^2))`, or `None`
/// where an intermediate leaves the representable range.
pub open spec fn spec_lognormal_moments(ml: int, sl: int) -> Option<(int, int)> {
    let v = sl * sl / (SCALE as int);
    if v > EXP_FIT_MAX as int {
        Option::None
    } else {
        let a1 = ml + v / 2;
        if a1 > EXP_FIT_MAX as int {
            Option::None
        } else {
            let mean = spec_exp_signed(a1);
            if mean > i64::MAX as int {
                Option::None
            } else {
                let a2 = 2 * ml + v;
                if a2 > EXP_FIT_MAX as int {
                    Option::None
                } else {
                    let ev = spec_exp_signed(v);
                    if ev > i64::MAX as int {
                        Option::None
                    } else {
                        let e2 = spec_exp_signed(a2);
                        if e2 > i64::MAX as int {
                            Option::None
                        } else {
                            let variance = (ev - (SCALE as int)) * e2 / (SCALE as int);
                            let sd = spec_isqrt((variance * (SCALE as int)) as nat) as int;
                            if sd > i64::MAX as int {
                                Option::None
                            } else {
                                Option::Some((mean, sd))
                            }
                        }
                    }
                }
            }
        }
    }
}

/// Computes the lognormal moments, mirroring `spec_lognormal_moments`.
fn lognormal_moments(ml: i64, sl: i64) -> (r: Option<(i64, i64)>)
    ensures
        r matches Some(p) ==> spec_lognormal_moments(ml as int, sl as int) == Option::Some(
            (p.0 as int, p.1 as int),
        ),
        r is None ==> spec_lognormal_moments(ml as int, sl as int) is None,
{
    let sl_w: i128 = sl as i128;
    proof {
        assert(0 <= (sl_w as int) * (sl_w as int)
            <= 0x4000_0000_0000_0000_0000_0000_0000_0000) by (nonlinear_arith)
            requires
                -0x8000_0000_0000_0000 <= sl_w as int <= 0x8000_0000_0000_0000,
        ;
    }
    let prod: i128 = sl_w * sl_w;
    let v128: u128 = (prod as u128) / (SCALE as u128);
    if v128 > EXP_FIT_MAX as u128 {
        return None;
    }
    let v: i64 = v128 as i64;
    let a1_w: i128 = ml as i128 + (v / 2) as i128;
    if a1_w > EXP_FIT_MAX as i128 {
        return None;
    }
    let a1: i64 = a1_w as i64;
    let mean_u: u128 = exp_signed(a1);
    if mean_u > i64::MAX as u128 {
        return None;
    }
    let mean: i64 = mean_u as i64;
    let a2_w: i128 = 2 * (ml as i128) + v as i128;
    if a2_w > EXP_FIT_MAX as i128 {
        return None;
    }
    let e2_u: u128;
    if a2_w < -(EXP_NEG_CUTOFF as i128) {
        e2_u = 0;
        proof {
            assert(spec_exp_neg(-(a2_w as int)) == 0);
        }
    } else {
        e2_u = exp_signed(a2_w as i64);
    }
    proof {
        assert(e2_u == spec_exp_signed(a2_w as int));
    }
    if e2_u > i64::MAX as u128 {
        return None;
    }
    let ev_u: u128 = exp_signed(v);
    if ev_u > i64::MAX as u128 {
        return None;
    }
    proof {
        crate::stats::lemma_exp_pos_lower(v as int);
        vstd::arithmetic::mul::lemma_mul_upper_bound(
            (ev_u - (SCALE as u128)) as int,
            i64::MAX as int,
            e2_u as int,
            i64::MAX as int,
        );
        vstd::arithmetic::mul::lemma_mul_nonnegative(
            (ev_u - (SCALE as u128)) as int,
            e2_u as int,
        );
        vstd::arithmetic::div_mod::lemma_div_pos_is_pos(
            ((ev_u - (SCALE as u128)) as int) * (e2_u as int),
            SCALE as int,
        );
        vstd::arithmetic::div_mod::lemma_div_is_ordered_by_denominator(
            ((ev_u - (SCALE as u128)) as int) * (e2_u as int),
            1,
            SCALE as int,
        );
        assert((((ev_u - (SCALE as u128)) as int) * (e2_u as int)) / 1 == ((ev_u - (
        SCALE as u128)) as int) * (e2_u as int)) by (nonlinear_arith);
        vstd::arithmetic::mul::lemma_mul_upper_bound(
            (ev_u - (SCALE as u128)) as int,
            i64::MAX as int,
            e2_u as int,
            i64::MAX as int,
        );
    }
    let variance: u128 = (ev_u - (SCALE as u128)) * e2_u / (SCALE as u128);
    proof {
        vstd::arithmetic::div_mod::lemma_div_is_ordered(
            ((ev_u - (SCALE as u128)) as int) * (e2_u as int),
            85070591730234615847396907784232501249,
            SCALE as int,
        );
        vstd::arithmetic::mul::lemma_mul_upper_bound(
            variance as int,
            85070591730234615847396907784232,
            SCALE as int,
            SCALE as int,
        );
    }
    let sd_u: u128 = crate::stats::isqrt(variance * (SCALE as u128));
    if sd_u > i64::MAX as u128 {
        return None;
    }
    Some((mean, sd_u as i64))
}

/// The formula in the target engine's parameterization for a distribution
/// name (matched case-insensitively) and its parameters, or the message
/// explaining why the case cannot be built: a missing required parameter,
/// the declared-unsupported exponential, an unknown name, or lognormal
/// parameters whose moments leave the representable range.
pub open spec fn spec_build_mc_formula(dist: Seq<char>, params: Seq<(String, i64)>) -> Result<
    McFormula,
    Seq<char>,
> {
    if matches_folded(dist, "normal"@) {
        match table_lookup(params, "mean"@) {
            Option::None => Result::Err("Missing 'mean' param"@),
            Option::Some(mean) => match table_lookup(params, "sd"@) {
                Option::None => Result::Err("Missing 'sd' param"@),
                Option::Some(sd) => Result::Ok(McFormula::Normal { mean, sd }),
            },
        }
    } else if matches_folded(dist, "uniform"@) {
        match table_lookup(params, "min"@) {
            Option::None => Result::Err("Missing 'min' param"@),
            Option::Some(min) => match table_lookup(params, "max"@) {
                Option::None => Result::Err("Missing 'max' param"@),
                Option::Some(max) => Result::Ok(McFormula::Uniform { min, max }),
            },
        }
    } else if matches_folded(dist, "lognormal"@) {
        match table_lookup(params, "meanlog"@) {
            Option::None => Result::Err("Missing 'meanlog' param"@),
            Option::Some(ml) => match table_lookup(params, "sdlog"@) {
                Option::None => Result::Err("Missing 'sdlog' param"@),
                Option::Some(sl) => match spec_lognormal_moments(ml as int, sl as int) {
                    Option::None => Result::Err("lognormal parameters out of range"@),
                    Option::Some(m) => Result::Ok(
                        McFormula::Lognormal { mean: m.0 as i64, stdev: m.1 as i64 },
                    ),
                },
            },
        }
    } else if matches_folded(dist, "triangular"@) {
        match table_lookup(params, "min"@) {
            Option::None => Result::Err("Missing 'min' param"@),
            Option::Some(min) => match table_lookup(params, "mode"@) {
                Option::None => Result::Err("Missing 'mode' param"@),
                Option::Some(mode) => match table_lookup(params, "max"@) {
                    Option::None => Result::Err("Missing 'max' param"@),
                    Option::Some(max) => Result::Ok(McFormula::Triangular { min, mode, max }),
                },
            },
        }
    } else if matches_folded(dist, "pert"@) {
        match table_lookup(params, "min"@) {
            Option::None => Result::Err("Missing 'min' param"@),
            Option::Some(min) => match table_lookup(params, "mode"@) {
                Option::None => Result::Err("Missing 'mode' param"@),
                Option::Some(mode) => match table_lookup(params, "max"@) {
                    Option::None => Result::Err("Missing 'max' param"@),
                    Option::Some(max) => Result::Ok(McFormula::Pert { min, mode, max }),
                },
            },
        }
    } else if matches_folded(dist, "exponential"@) {
        Result::Err("Exponential distribution not supported by forge"@)
    } else {
        Result::Err("Unsupported distribution: "@ + dist)
    }
}

/// Builds the target engine's formula for a distribution and its
/// parameters.
///
/// The translation is the closed mapping of `spec_build_mc_formula`: the
/// supported distributions pass their required parameters through (the
/// lognormal converts its log-space parameters to linear-space moments
/// first), the exponential is rejected as declared-unsupported, and any
/// other name is rejected as unknown.
pub fn build_mc_formula(distribution: &str, params: &NumTable) -> (r: Result<McFormula, String>)
    ensures
        r matches Ok(f) ==> spec_build_mc_formula(distribution@, params.entries@) == Result::<
            McFormula,
            Seq<char>,
        >::Ok(f),
        r matches Err(e) ==> (spec_build_mc_formula(distribution@, params.entries@) matches
            Result::Err(se) && e@ == se),
{
    if eq_folded(distribution, "normal") {
        let mean = match params.get("mean") {
            Some(v) => v,
            None => {
                return Err("Missing 'mean' param".to_owned());
            },
        };
        let sd = match params.get("sd") {
            Some(v) => v,
            None => {
                return Err("Missing 'sd' param".to_owned());
            },
        };
        Ok(McFormula::Normal { mean, sd })
    } else if eq_folded(distribution, "uniform") {
        let min = match params.get("min") {
            Some(v) => v,
            None => {
                return Err("Missing 'min' param".to_owned());
            },
        };
        let max = match params.get("max") {
            Some(v) => v,
            None => {
                return Err("Missing 'max' param".to_owned());
            },
        };
        Ok(McFormula::Uniform { min, max })
    } else if eq_folded(distribution, "lognormal") {
        let ml = match params.get("meanlog") {
            Some(v) => v,
            None => {
                return Err("Missing 'meanlog' param".to_owned());
            },
        };
        let sl = match params.get("sdlog") {
            Some(v) => v,
            None => {
                return Err("Missing 'sdlog' param".to_owned());
            },
        };
        match lognormal_moments(ml, sl) {
            Some(m) => Ok(McFormula::Lognormal { mean: m.0, stdev: m.1 }),
            None => Err("lognormal parameters out of range".to_owned()),
        }
    } else if eq_folded(distribution, "triangular") {
        let min = match params.get("min") {
            Some(v) => v,
            None => {
                return Err("Missing 'min' param".to_owned());
            },
        };
        let mode = match params.get("mode") {
            Some(v) => v,
            None => {
                return Err("Missing 'mode' param".to_owned());
            },
        };
        let max = match params.get("max") {
            Some(v) => v,
            None => {
                return Err("Missing 'max' param".to_owned());
            },
        };
        Ok(McFormula::Triangular { min, mode, max })
    } else if eq_folded(distribution, "pert") {
        let min = match params.get("min") {
            Some(v) => v,
            None => {
                return Err("Missing 'min' param".to_owned());
            },
        };
        let mode = match params.get("mode") {
            Some(v) => v,
            None => {
                return Err("Missing 'mode' param".to_owned());
            },
        };
        let max = match params.get("max") {
            Some(v) => v,
            None => {
                return Err("Missing 'max' param".to_owned());
            },
        };
        Ok(McFormula::Pert { min, mode, max })
    } else if eq_folded(distribution, "exponential") {
        Err("Exponential distribution not supported by forge".to_owned())
    } else {
        let mut e: String = "Unsupported distribution: ".to_owned();
        e.append(distribution);
        Err(e)
    }
}

/// Parsed statistics from either the target engine or the reference,
/// micro-units, for a run where both scalar statistics are present.
pub struct ForgeStats {
    pub mean: i64,
    pub std: i64,
    pub percentiles: NumTable,
}

/// The mismatch message of the verdict comparator: the statistic's label,
/// both values, the percent difference, and the percent tolerance applied.
pub open spec fn spec_fr_mismatch_msg(
    label: Seq<char>,
    fv: int,
    rv: int,
    tol_shown: int,
) -> Seq<char> {
    label + " mismatch: forge="@ + spec_fixed_str(fv) + ", R="@ + spec_fixed_str(rv) + " (diff="@
        + spec_fixed_str(spec_percent_of(spec_sat_rel_diff(fv, rv))) + "%, tol="@ + spec_fixed_str(
        spec_percent_of(tol_shown),
    ) + "%)"@
}

/// The details line of a passing comparison.
pub open spec fn spec_fr_pass_details(mean: int, std: int) -> Seq<char> {
    "mean="@ + spec_fixed_str(mean) + " std="@ + spec_fixed_str(std) + " (within tolerance)"@
}

fn fr_mismatch_msg(label: &str, fv: i64, rv: i64, tol_shown: i64) -> (s: String)
    ensures
        s@ == spec_fr_mismatch_msg(label@, fv as int, rv as int, tol_shown as int),
{
    let mut s: String = label.to_owned();
    s.append(" mismatch: forge=");
    s.append(fixed_to_string(fv).as_str());
    s.append(", R=");
    s.append(fixed_to_string(rv).as_str());
    s.append(" (diff=");
    s.append(fixed_to_string(percent_of(crate::stats::sat_rel_diff(fv, rv))).as_str());
    s.append("%, tol=");
    s.append(fixed_to_string(percent_of(tol_shown)).as_str());
    s.append("%)");
    s
}

/// The correctness predicate of the verdict comparison: the mean, then the
/// standard deviation, then the percentiles labelled `5`, `50` and `95` in
/// that order, the first statistic outside its envelope short-circuiting to
/// a `Fail` whose message names the statistic, both values, the percent
/// difference and the tolerance; agreement on everything is a `Pass`.
pub open spec fn spec_fr_verdict_ok(
    v: TestResult,
    name: Seq<char>,
    f: ForgeStats,
    r: ForgeStats,
    t: Tolerance,
) -> bool {
    let fents = f.percentiles.entries@;
    let rents = r.percentiles.entries@;
    let p5 = (table_lookup(fents, "5"@), table_lookup(rents, "5"@));
    let p50 = (table_lookup(fents, "50"@), table_lookup(rents, "50"@));
    let p95 = (table_lookup(fents, "95"@), table_lookup(rents, "95"@));
    let eff = spec_effective_pct_tolerance(t.percentiles as int);
    if !spec_within_tolerance(f.mean as int, r.mean as int, t.mean as int) {
        v matches TestResult::Fail { name: n, reason } && n@ == name && reason@
            == spec_fr_mismatch_msg("Mean"@, f.mean as int, r.mean as int, t.mean as int)
    } else if !spec_within_tolerance(f.std as int, r.std as int, t.std as int) {
        v matches TestResult::Fail { name: n, reason } && n@ == name && reason@
            == spec_fr_mismatch_msg("Std"@, f.std as int, r.std as int, t.std as int)
    } else if p5.0 is Some && p5.1 is Some && !spec_percentile_ok(
        p5.0->0 as int,
        p5.1->0 as int,
        t.percentiles as int,
        r.std as int,
    ) {
        v matches TestResult::Fail { name: n, reason } && n@ == name && reason@
            == spec_fr_mismatch_msg("P5"@, p5.0->0 as int, p5.1->0 as int, eff)
    } else if p50.0 is Some && p50.1 is Some && !spec_percentile_ok(
        p50.0->0 as int,
        p50.1->0 as int,
        t.percentiles as int,
        r.std as int,
    ) {
        v matches TestResult::Fail { name: n, reason } && n@ == name && reason@
            == spec_fr_mismatch_msg("P50"@, p50.0->0 as int, p50.1->0 as int, eff)
    } else if p95.0 is Some && p95.1 is Some && !spec_percentile_ok(
        p95.0->0 as int,
        p95.1->0 as int,
        t.percentiles as int,
        r.std as int,
    ) {
        v matches TestResult::Fail { name: n, reason } && n@ == name && reason@
            == spec_fr_mismatch_msg("P95"@, p95.0->0 as int, p95.1->0 as int, eff)
    } else {
        v matches TestResult::Pass { name: n, details } && n@ == name && details@
            == spec_fr_pass_details(f.mean as int, f.std as int)
    }
}

/// Compares target-engine and reference statistics, returning the `Pass`
/// or `Fail` verdict described by `spec_fr_verdict_ok`.
pub fn compare_forge_r_results(
    test_name: &str,
    forge: &ForgeStats,
    r: &ForgeStats,
    tolerance: &Tolerance,
) -> (v: TestResult)
    ensures
        spec_fr_verdict_ok(v, test_name@, *forge, *r, *tolerance),
{
    // Compare mean.
    if !crate::stats::within_tolerance(forge.mean, r.mean, tolerance.mean) {
        return TestResult::Fail {
            name: test_name.to_owned(),
            reason: fr_mismatch_msg("Mean", forge.mean, r.mean, tolerance.mean),
        };
    }

    // Compare std.
    if !crate::stats::within_tolerance(forge.std, r.std, tolerance.std) {
        return TestResult::Fail {
            name: test_name.to_owned(),
            reason: fr_mismatch_msg("Std", forge.std, r.std, tolerance.std),
        };
    }

    // Compare key percentiles (5, 50, 95): different pseudo-random streams
    // make order statistics noisier than the mean and the standard
    // deviation, so the tolerance is widened to at least ten percent with
    // an absolute fallback of half the reference standard deviation.
    let eff: i64 = if tolerance.percentiles > 100_000 {
        tolerance.percentiles
    } else {
        100_000
    };

    if let (Some(fv), Some(rv)) = (forge.percentiles.get("5"), r.percentiles.get("5")) {
        if !percentile_within(fv, rv, tolerance.percentiles, r.std) {
            return TestResult::Fail {
                name: test_name.to_owned(),
                reason: fr_mismatch_msg("P5", fv, rv, eff),
            };
        }
    }
    if let (Some(fv), Some(rv)) = (forge.percentiles.get("50"), r.percentiles.get("50")) {
        if !percentile_within(fv, rv, tolerance.percentiles, r.std) {
            return TestResult::Fail {
                name: test_name.to_owned(),
                reason: fr_mismatch_msg("P50", fv, rv, eff),
            };
        }
    }
    if let (Some(fv), Some(rv)) = (forge.percentiles.get("95"), r.percentiles.get("95")) {
        if !percentile_within(fv, rv, tolerance.percentiles, r.std) {
            return TestResult::Fail {
                name: test_name.to_owned(),
                reason: fr_mismatch_msg("P95", fv, rv, eff),
            };
        }
    }

    let mut details: String = "mean=".to_owned();
    details.append(fixed_to_string(forge.mean).as_str());
    details.append(" std=");
    details.append(fixed_to_string(forge.std).as_str());
    details.append(" (within tolerance)");
    TestResult::Pass { name: test_name.to_owned(), details }
}

/// The first decision of the state machine for one test case: skip it
/// before any external invocation, or run it with a translated formula.
pub enum TestPlan {
    /// The case is structurally not applicable or not constructible.
    Skip { verdict: TestResult },
    /// The case runs the target engine with this formula.
    Run { formula: McFormula },
}

/// Decides whether a test case runs at all: a specification without a
/// distribution is not a Monte Carlo case and is skipped, one whose formula
/// cannot be built (unsupported distribution, missing parameter) is skipped
/// with the builder's message, and any other yields the formula to run.
pub fn plan_monte_carlo_test(test: &AnalyticsTestSpec) -> (p: TestPlan)
    ensures
        test.distribution is None ==> (p matches TestPlan::Skip { verdict } && (verdict
            matches TestResult::Skip { name, reason } && name@ == test.name@ && reason@
            == "No distribution specified (not a Monte Carlo test)"@)),
        test.distribution matches Some(d) ==> match spec_build_mc_formula(
            d@,
            test.params.entries@,
        ) {
            Result::Err(e) => p matches TestPlan::Skip { verdict } && (verdict
                matches TestResult::Skip { name, reason } && name@ == test.name@ && reason@
                == "Cannot build formula: "@ + e),
            Result::Ok(f) => p matches TestPlan::Run { formula } && formula == f,
        },
{
    let distribution: &String = match &test.distribution {
        Some(d) => d,
        None => {
            return TestPlan::Skip {
                verdict: TestResult::Skip {
                    name: test.name.clone(),
                    reason: "No distribution specified (not a Monte Carlo test)".to_owned(),
                },
            };
        },
    };
    match build_mc_formula(distribution.as_str(), &test.params) {
        Ok(formula) => TestPlan::Run { formula },
        Err(e) => {
            let mut reason: String = "Cannot build formula: ".to_owned();
            reason.append(e.as_str());
            TestPlan::Skip {
                verdict: TestResult::Skip { name: test.name.clone(), reason },
            }
        },
    }
}

/// The tolerance in force for one case: the per-case override field by
/// field where set, else the stochastic defaults.
pub open spec fn spec_effective_tolerance(test: AnalyticsTestSpec) -> Tolerance {
    match test.tolerance {
        Option::Some(ts) => Tolerance {
            mean: if ts.mean is Some {
                ts.mean->0
            } else {
                10_000
            },
            std: if ts.std is Some {
                ts.std->0
            } else {
                50_000
            },
            percentiles: if ts.percentiles is Some {
                ts.percentiles->0
            } else {
                20_000
            },
            ks_pvalue: 50_000,
            ci_bounds: 20_000,
        },
        Option::None => Tolerance::spec_stochastic(),
    }
}

/// Merges the case's tolerance override with the defaults.
pub fn effective_tolerance(test: &AnalyticsTestSpec) -> (t: Tolerance)
    ensures
        t == spec_effective_tolerance(*test),
{
    match &test.tolerance {
        Some(ts) => Tolerance {
            mean: match ts.mean {
                Some(m) => m,
                None => 10_000,
            },
            std: match ts.std {
                Some(s) => s,
                None => 50_000,
            },
            percentiles: match ts.percentiles {
                Some(p) => p,
                None => 20_000,
            },
            ks_pvalue: 50_000,
            ci_bounds: 20_000,
        },
        None => Tolerance::stochastic(),
    }
}

/// Classifies a case after the reference validator ran: a reference-side
/// failure is an `Error` (never a `Fail`, whatever partial output came
/// back), statistics that could not be parsed are an `Error`, and
/// otherwise the two sides are compared under the case's effective
/// tolerance.
pub fn conclude_monte_carlo(
    test: &AnalyticsTestSpec,
    forge_stats: &ForgeStats,
    r_success: bool,
    r_error: &Option<String>,
    r_stats: &Option<ForgeStats>,
) -> (v: TestResult)
    ensures
        !r_success ==> (v matches TestResult::Error { name, error } && name@ == test.name@
            && error@ == "R returned error: "@ + (if r_error is Some {
            r_error->0@
        } else {
            "Unknown"@
        })),
        r_success && r_stats is None ==> (v matches TestResult::Error { name, error } && name@
            == test.name@ && error@ == "Failed to parse R statistics"@),
        r_success ==> (r_stats matches Some(rs) ==> spec_fr_verdict_ok(
            v,
            test.name@,
            *forge_stats,
            *rs,
            spec_effective_tolerance(*test),
        )),
{
    if !r_success {
        let mut error: String = "R returned error: ".to_owned();
        match r_error {
            Some(e) => error.append(e.as_str()),
            None => error.append("Unknown"),
        }
        return TestResult::Error { name: test.name.clone(), error };
    }
    let rs: &ForgeStats = match r_stats {
        Some(rs) => rs,
        None => {
            return TestResult::Error {
                name: test.name.clone(),
                error: "Failed to parse R statistics".to_owned(),
            };
        },
    };
    let tolerance = effective_tolerance(test);
    compare_forge_r_results(test.name.as_str(), forge_stats, rs, &tolerance)
}

/// The verdict for a case whose target-engine invocation failed.
pub fn target_failure_verdict(test_name: &str, message: &str) -> (v: TestResult)
    ensures
        v matches TestResult::Error { name, error } && name@ == test_name@ && error@
            == "Forge failed: "@ + message@,
{
    let mut error: String = "Forge failed: ".to_owned();
    error.append(message);
    TestResult::Error { name: test_name.to_owned(), error }
}

/// The verdict for a case whose reference-validator invocation failed
/// before the validator could report anything.
pub fn reference_failure_verdict(test_name: &str, message: &str) -> (v: TestResult)
    ensures
        v matches TestResult::Error { name, error } && name@ == test_name@ && error@
            == "R validator failed: "@ + message@,
{
    let mut error: String = "R validator failed: ".to_owned();
    error.append(message);
    TestResult::Error { name: test_name.to_owned(), error }
}

/// How many of the verdicts are `Pass`.
pub open spec fn spec_count_pass(s: Seq<TestResult>) -> int
    decreases s.len(),
{
    if s.len() == 0 {
        0
    } else {
        spec_count_pass(s.drop_last()) + (if s.last() is Pass {
            1int
        } else {
            0int
        })
    }
}

/// How many of the verdicts are `Fail`.
pub open spec fn spec_count_fail(s: Seq<TestResult>) -> int
    decreases s.len(),
{
    if s.len() == 0 {
        0
    } else {
        spec_count_fail(s.drop_last()) + (if s.last() is Fail {
            1int
        } else {
            0int
        })
    }
}

/// How many of the verdicts are `Skip`.
pub open spec fn spec_count_skip(s: Seq<TestResult>) -> int
    decreases s.len(),
{
    if s.len() == 0 {
        0
    } else {
        spec_count_skip(s.drop_last()) + (if s.last() is Skip {
            1int
        } else {
            0int
        })
    }
}

/// How many of the verdicts are `Error`.
pub open spec fn spec_count_error(s: Seq<TestResult>) -> int
    decreases s.len(),
{
    if s.len() == 0 {
        0
    } else {
        spec_count_error(s.drop_last()) + (if s.last() is Error {
            1int
        } else {
            0int
        })
    }
}

/// Aggregate counts over a suite's verdicts, taken only after every case
/// has reached its terminal verdict.
pub struct Summary {
    pub passed: usize,
    pub failed: usize,
    pub skipped: usize,
    pub errored: usize,
}

proof fn lemma_counts_le_len(s: Seq<TestResult>)
    ensures
        0 <= spec_count_pass(s) <= s.len(),
        0 <= spec_count_fail(s) <= s.len(),
        0 <= spec_count_skip(s) <= s.len(),
        0 <= spec_count_error(s) <= s.len(),
    decreases s.len(),
{
    if s.len() > 0 {
        lemma_counts_le_len(s.drop_last());
    }
}

/// Counts the passed, failed, skipped and errored verdicts of a suite.
pub fn summarize(results: &Vec<TestResult>) -> (s: Summary)
    ensures
        s.passed == spec_count_pass(results@),
        s.failed == spec_count_fail(results@),
        s.skipped == spec_count_skip(results@),
        s.errored == spec_count_error(results@),
{
    let mut passed: usize = 0;
    let mut failed: usize = 0;
    let mut skipped: usize = 0;
    let mut errored: usize = 0;
    let mut i: usize = 0;
    proof {
        assert(results@.take(0) =~= Seq::<TestResult>::empty());
    }
    while i < results.len()
        invariant
            i <= results@.len(),
            passed == spec_count_pass(results@.take(i as int)),
            failed == spec_count_fail(results@.take(i as int)),
            skipped == spec_count_skip(results@.take(i as int)),
            errored == spec_count_error(results@.take(i as int)),
        decreases results@.len() - i,
    {
        proof {
            lemma_counts_le_len(results@.take(i as int));
            assert(results@.take(i as int).len() == i);
            assert(results@.take(i as int + 1).drop_last() =~= results@.take(i as int));
            assert(results@.take(i as int + 1).last() == results@[i as int]);
        }
        match &results[i] {
            TestResult::Pass { .. } => {
                passed += 1;
            },
            TestResult::Fail { .. } => {
                failed += 1;
            },
            TestResult::Skip { .. } => {
                skipped += 1;
            },
            TestResult::Error { .. } => {
                errored += 1;
            },
        }
        i += 1;
    }
    proof {
        assert(results@.take(results@.len() as int) =~= results@);
    }
    Summary { passed, failed, skipped, errored }
}

/// The orchestration failed overall iff at least one case's verdict is
/// `Fail`; `Error` and `Skip` verdicts do not, by themselves, fail the
/// run.
pub fn suite_failed(summary: &Summary) -> (r: bool)
    ensures
        r == (summary.failed > 0),
{
    summary.failed > 0
}

/// The overall exit signal under an explicit gating policy: a `Fail`
/// always fails the run, and an `Error` fails it too when the caller
/// chooses to gate on errors. Whether an infrastructure error should
/// fail a gate the way a statistical disagreement does is a policy
/// decision, so it is an explicit argument here rather than a fixed rule.
pub fn suite_failed_with_policy(summary: &Summary, fail_on_error: bool) -> (r: bool)
    ensures
        r == (summary.failed > 0 || (fail_on_error && summary.errored > 0)),
{
    summary.failed > 0 || (fail_on_error && summary.errored > 0)
}

/// The failed count is positive exactly when some verdict is a `Fail`:
/// the process-level failure signal reflects the presence of a genuine
/// statistical disagreement and nothing else.
pub proof fn lemma_fail_count_iff_exists(s: Seq<TestResult>)
    ensures
        spec_count_fail(s) > 0 <==> exists|i: int| 0 <= i < s.len() && s[i] is Fail,
    decreases s.len(),
{
    if s.len() > 0 {
        lemma_fail_count_iff_exists(s.drop_last());
        lemma_counts_le_len(s.drop_last());
        if s.last() is Fail {
            assert(s[s.len() - 1] is Fail);
        } else if spec_count_fail(s.drop_last()) > 0 {
            let i = choose|i: int| 0 <= i < s.drop_last().len() && s.drop_last()[i] is Fail;
            assert(s[i] is Fail);
        } else {
            assert forall|i: int| 0 <= i < s.len() implies !(s[i] is Fail) by {
                if i < s.len() - 1 {
                    assert(s.drop_last()[i] == s[i]);
                }
            }
        }
    }
}

} // verus!
