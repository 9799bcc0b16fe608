//! Statistical comparison utilities.
//!
//! Scalar statistics, tolerance fractions and comparison results are all
//! fixed-point values in micro-units: an `i64` holding `1_000_000` stands for
//! `1.0`. At this resolution a magnitude below one micro-unit is zero, which
//! plays the role the machine epsilon plays for floating-point comparisons.

use vstd::prelude::*;

verus! {

/// Number of micro-units in `1.0`.
pub const SCALE: i64 = 1_000_000;

/// Absolute value of a mathematical integer.
pub open spec fn abs_val(x: int) -> int {
    if x < 0 {
        -x
    } else {
        x
    }
}

/// Tolerance levels for statistical comparison, as micro-unit fractions
/// (`10_000` is `0.01`, i.e. 1%).
pub struct Tolerance {
    /// Tolerance for mean comparison.
    pub mean: i64,
    /// Tolerance for standard deviation comparison.
    pub std: i64,
    /// Tolerance for percentile comparison.
    pub percentiles: i64,
    /// Minimum p-value for the Kolmogorov-Smirnov test.
    pub ks_pvalue: i64,
    /// Tolerance for confidence-interval bound comparison.
    pub ci_bounds: i64,
}

impl Tolerance {
    /// All five thresholds are non-negative fractions; zero means an exact
    /// match is required.
    pub open spec fn wf(&self) -> bool {
        &&& self.mean >= 0
        &&& self.std >= 0
        &&& self.percentiles >= 0
        &&& self.ks_pvalue >= 0
        &&& self.ci_bounds >= 0
    }

    /// The loose preset used for genuinely random outputs.
    pub open spec fn spec_stochastic() -> Tolerance {
        Tolerance { mean: 10_000, std: 50_000, percentiles: 20_000, ks_pvalue: 50_000, ci_bounds: 20_000 }
    }

    /// The strict preset used for outputs expected to reproduce exactly.
    pub open spec fn spec_deterministic() -> Tolerance {
        Tolerance { mean: 1_000, std: 1_000, percentiles: 1_000, ks_pvalue: 50_000, ci_bounds: 1_000 }
    }

    /// Creates tolerance for deterministic outputs (stricter).
    pub fn deterministic() -> (t: Tolerance)
        ensures
            t == Self::spec_deterministic(),
            t.wf(),
    {
        Tolerance { mean: 1_000, std: 1_000, percentiles: 1_000, ks_pvalue: 50_000, ci_bounds: 1_000 }
    }

    /// Creates tolerance for stochastic outputs (looser).
    pub fn stochastic() -> (t: Tolerance)
        ensures
            t == Self::spec_stochastic(),
            t.wf(),
    {
        Tolerance { mean: 10_000, std: 50_000, percentiles: 20_000, ks_pvalue: 50_000, ci_bounds: 20_000 }
    }
}

impl Clone for Tolerance {
    fn clone(&self) -> (t: Tolerance)
        ensures
            t == *self,
    {
        Tolerance {
            mean: self.mean,
            std: self.std,
            percentiles: self.percentiles,
            ks_pvalue: self.ks_pvalue,
            ci_bounds: self.ci_bounds,
        }
    }
}

impl Default for Tolerance {
    /// The default tolerance is the stochastic preset.
    fn default() -> (t: Tolerance)
        ensures
            t == Self::spec_stochastic(),
            t.wf(),
    {
        Tolerance::stochastic()
    }
}

/// `actual` agrees with `expected` up to the relative tolerance fraction
/// `tolerance`; when `expected` is zero the comparison falls back to an
/// absolute bound, avoiding the division by zero.
pub open spec fn spec_within_tolerance(actual: int, expected: int, tolerance: int) -> bool {
    if expected == 0 {
        abs_val(actual) <= tolerance
    } else {
        abs_val(actual - expected) * (SCALE as int) <= tolerance * abs_val(expected)
    }
}

/// Absolute value of an `i64`, widened so that `i64::MIN` needs no special
/// case.
fn abs_wide(x: i64) -> (r: i128)
    ensures
        r == abs_val(x as int),
{
    let w: i128 = x as i128;
    if w < 0 {
        -w
    } else {
        w
    }
}

/// Checks if actual value is within tolerance of expected value.
///
/// The relative test `|actual - expected| / |expected| <= tolerance` is
/// decided by cross-multiplication, so it is exact.
pub fn within_tolerance(actual: i64, expected: i64, tolerance: i64) -> (r: bool)
    ensures
        r == spec_within_tolerance(actual as int, expected as int, tolerance as int),
{
    if expected == 0 {
        let a = abs_wide(actual);
        a <= tolerance as i128
    } else {
        let diff: i128 = actual as i128 - expected as i128;
        let ad: i128 = if diff < 0 {
            -diff
        } else {
            diff
        };
        let ae: i128 = abs_wide(expected);
        proof {
            vstd::arithmetic::mul::lemma_mul_upper_bound(
                ad as int,
                u64::MAX as int,
                SCALE as int,
                SCALE as int,
            );
            if tolerance >= 0 {
                vstd::arithmetic::mul::lemma_mul_upper_bound(
                    tolerance as int,
                    i64::MAX as int,
                    ae as int,
                    0x8000_0000_0000_0000,
                );
            } else {
                vstd::arithmetic::mul::lemma_mul_upper_bound(
                    -(tolerance as int),
                    0x8000_0000_0000_0000,
                    ae as int,
                    0x8000_0000_0000_0000,
                );
                assert((tolerance as int) * (ae as int) == -((-(tolerance as int)) * (ae as int)))
                    by (nonlinear_arith);
            }
        }
        ad * (SCALE as i128) <= (tolerance as i128) * ae
    }
}

/// The relative difference `|actual - expected| / |expected|` as a micro-unit
/// fraction, or `|actual|` when `expected` is zero. The quotient is rounded
/// up, so the reported ratio agrees exactly with the accept decision of
/// `spec_within_tolerance` (see `lemma_relative_difference_agrees`).
pub open spec fn spec_relative_difference(actual: int, expected: int) -> int {
    if expected == 0 {
        abs_val(actual)
    } else {
        (abs_val(actual - expected) * (SCALE as int) + abs_val(expected) - 1) / abs_val(expected)
    }
}

/// Calculates relative difference between two values. The result is exact,
/// carried in a type wide enough for any pair of inputs, so that it agrees
/// with the accept decision for every tolerance (see
/// `lemma_relative_difference_agrees`).
pub fn relative_difference(actual: i64, expected: i64) -> (r: i128)
    ensures
        r == spec_relative_difference(actual as int, expected as int),
        r >= 0,
{
    if expected == 0 {
        abs_wide(actual)
    } else {
        let diff: i128 = actual as i128 - expected as i128;
        let ad: u128 = (if diff < 0 {
            -diff
        } else {
            diff
        }) as u128;
        let ae: u128 = abs_wide(expected) as u128;
        proof {
            vstd::arithmetic::mul::lemma_mul_upper_bound(
                ad as int,
                u64::MAX as int,
                SCALE as int,
                SCALE as int,
            );
            vstd::arithmetic::div_mod::lemma_div_is_ordered_by_denominator(
                (ad as int) * (SCALE as int) + (ae as int) - 1,
                1,
                ae as int,
            );
            assert(((ad as int) * (SCALE as int) + (ae as int) - 1) / 1 == (ad as int) * (
            SCALE as int) + (ae as int) - 1) by (nonlinear_arith);
        }
        let q: u128 = (ad * (SCALE as u128) + ae - 1) / ae;
        q as i128
    }
}

/// The relative difference clamped to the range of the values it is shown
/// beside, for diagnostic messages.
pub fn sat_rel_diff(actual: i64, expected: i64) -> (r: i64)
    ensures
        r == spec_sat_rel_diff(actual as int, expected as int),
{
    let wide = relative_difference(actual, expected);
    if wide > i64::MAX as i128 {
        i64::MAX
    } else {
        wide as i64
    }
}

/// The diagnostic ratio and the accept decision agree exactly: for every
/// tolerance, a value is within tolerance of an expected value precisely
/// when the reported relative difference is at most the tolerance.
pub proof fn lemma_relative_difference_agrees(actual: int, expected: int, t: int)
    ensures
        spec_within_tolerance(actual, expected, t) <==> spec_relative_difference(actual, expected)
            <= t,
{
    if expected != 0 {
        let x = abs_val(actual - expected) * (SCALE as int);
        let y = abs_val(expected);
        assert(x >= 0) by (nonlinear_arith)
            requires
                x == abs_val(actual - expected) * (SCALE as int),
                abs_val(actual - expected) >= 0,
        ;
        let a = x + y - 1;
        let q = a / y;
        vstd::arithmetic::div_mod::lemma_fundamental_div_mod(a, y);
        vstd::arithmetic::div_mod::lemma_mod_bound(a, y);
        let r = a % y;
        if q <= t {
            assert(x <= t * y) by (nonlinear_arith)
                requires
                    x + y - 1 == y * q + r,
                    0 <= r < y,
                    q <= t,
                    1 <= y,
            ;
        }
        if x <= t * y {
            assert(0 <= t) by (nonlinear_arith)
                requires
                    x <= t * y,
                    0 <= x,
                    1 <= y,
                    x + y - 1 == y * q + r,
                    0 <= r < y,
            ;
            assert(q <= t) by (nonlinear_arith)
                requires
                    x + y - 1 == y * q + r,
                    0 <= r < y,
                    x <= t * y,
                    1 <= y,
                    0 <= x,
                    0 <= t,
            ;
        }
    }
}

/// Ascending order.
pub open spec fn is_sorted(s: Seq<i64>) -> bool {
    forall|i: int, j: int| 0 <= i <= j < s.len() ==> s[i] <= s[j]
}

/// `x` inserted in front of the first element it is less than or equal to.
pub open spec fn insert_sorted(s: Seq<i64>, x: i64) -> Seq<i64>
    decreases s.len(),
{
    if s.len() == 0 {
        seq![x]
    } else if x <= s[0] {
        seq![x] + s
    } else {
        seq![s[0]] + insert_sorted(s.drop_first(), x)
    }
}

/// Insertion sort of a sequence, the mathematical meaning of the sorting done
/// by the distributional comparator.
pub open spec fn sort_seq(s: Seq<i64>) -> Seq<i64>
    decreases s.len(),
{
    if s.len() == 0 {
        Seq::empty()
    } else {
        insert_sorted(sort_seq(s.drop_last()), s.last())
    }
}

proof fn lemma_insert_sorted_len(s: Seq<i64>, x: i64)
    ensures
        insert_sorted(s, x).len() == s.len() + 1,
    decreases s.len(),
{
    if s.len() != 0 && !(x <= s[0]) {
        lemma_insert_sorted_len(s.drop_first(), x);
    }
}

pub proof fn lemma_sort_seq_len(s: Seq<i64>)
    ensures
        sort_seq(s).len() == s.len(),
    decreases s.len(),
{
    if s.len() != 0 {
        lemma_sort_seq_len(s.drop_last());
        lemma_insert_sorted_len(sort_seq(s.drop_last()), s.last());
    }
}

proof fn lemma_insert_sorted_multiset(s: Seq<i64>, x: i64)
    ensures
        insert_sorted(s, x).to_multiset() =~= s.to_multiset().insert(x),
    decreases s.len(),
{
    broadcast use vstd::seq_lib::group_to_multiset_ensures;
    broadcast use vstd::multiset::group_multiset_axioms;

    if s.len() == 0 {
        assert(seq![x] =~= Seq::<i64>::empty().push(x));
    } else if x <= s[0] {
        vstd::seq_lib::lemma_multiset_commutative(seq![x], s);
        assert(seq![x] =~= Seq::<i64>::empty().push(x));
        assert((seq![x] + s).to_multiset() =~= s.to_multiset().insert(x));
    } else {
        let rest = s.drop_first();
        lemma_insert_sorted_multiset(rest, x);
        vstd::seq_lib::lemma_multiset_commutative(seq![s[0]], insert_sorted(rest, x));
        vstd::seq_lib::lemma_multiset_commutative(seq![s[0]], rest);
        assert(s =~= seq![s[0]] + rest);
        assert(seq![s[0]] =~= Seq::<i64>::empty().push(s[0]));
        assert(insert_sorted(s, x).to_multiset() =~= s.to_multiset().insert(x));
    }
}

proof fn lemma_insert_sorted_sorted(s: Seq<i64>, x: i64)
    requires
        is_sorted(s),
    ensures
        is_sorted(insert_sorted(s, x)),
    decreases s.len(),
{
    broadcast use vstd::seq_lib::group_to_multiset_ensures;
    broadcast use vstd::multiset::group_multiset_axioms;

    if s.len() == 0 {
    } else if x <= s[0] {
        let out = seq![x] + s;
        assert forall|i: int, j: int| 0 <= i <= j < out.len() implies out[i] <= out[j] by {
            if i == 0 && j > 0 {
                assert(out[j] == s[j - 1]);
            } else if i > 0 {
                assert(out[i] == s[i - 1] && out[j] == s[j - 1]);
            }
        }
    } else {
        let rest = s.drop_first();
        assert(is_sorted(rest)) by {
            assert forall|i: int, j: int| 0 <= i <= j < rest.len() implies rest[i] <= rest[j] by {
                assert(rest[i] == s[i + 1] && rest[j] == s[j + 1]);
            }
        }
        lemma_insert_sorted_sorted(rest, x);
        lemma_insert_sorted_multiset(rest, x);
        let t = insert_sorted(rest, x);
        let out = seq![s[0]] + t;
        lemma_insert_sorted_len(rest, x);
        assert forall|i: int, j: int| 0 <= i <= j < out.len() implies out[i] <= out[j] by {
            if i == 0 && j > 0 {
                let e = t[j - 1];
                assert(t.contains(e));
                assert(t.to_multiset().count(e) > 0);
                if e != x {
                    assert(rest.to_multiset().count(e) > 0);
                    assert(rest.contains(e));
                    let k = choose|k: int| 0 <= k < rest.len() && rest[k] == e;
                    assert(rest[k] == s[k + 1]);
                    assert(s[0] <= s[k + 1]);
                }
                assert(out[j] == e);
            } else if i > 0 {
                assert(out[i] == t[i - 1] && out[j] == t[j - 1]);
            }
        }
    }
}

/// The sorted form of a sequence is ascending and holds exactly the same
/// values: sorting changes the order of a sample and nothing else.
pub proof fn lemma_sort_seq_properties(s: Seq<i64>)
    ensures
        is_sorted(sort_seq(s)),
        sort_seq(s).to_multiset() =~= s.to_multiset(),
    decreases s.len(),
{
    broadcast use vstd::seq_lib::group_to_multiset_ensures;

    if s.len() > 0 {
        lemma_sort_seq_properties(s.drop_last());
        lemma_insert_sorted_sorted(sort_seq(s.drop_last()), s.last());
        lemma_insert_sorted_multiset(sort_seq(s.drop_last()), s.last());
        assert(s =~= s.drop_last().push(s.last()));
    }
}

/// Inserting at the position found by a linear scan is exactly `insert_sorted`.
proof fn lemma_insert_sorted_at(s: Seq<i64>, x: i64, p: int)
    requires
        0 <= p <= s.len(),
        forall|k: int| 0 <= k < p ==> s[k] < x,
        p < s.len() ==> x <= s[p],
    ensures
        insert_sorted(s, x) =~= s.insert(p, x),
    decreases s.len(),
{
    if s.len() == 0 {
    } else if x <= s[0] {
        assert(p == 0);
    } else {
        assert(p >= 1);
        lemma_insert_sorted_at(s.drop_first(), x, p - 1);
        lemma_insert_sorted_len(s.drop_first(), x);
        assert(insert_sorted(s, x) =~= s.insert(p, x));
    }
}

/// Sorted ascending copy of the input.
fn sorted_copy(v: &Vec<i64>) -> (out: Vec<i64>)
    ensures
        out@ == sort_seq(v@),
        out@.len() == v@.len(),
{
    let mut out: Vec<i64> = Vec::new();
    let mut idx: usize = 0;
    proof {
        assert(v@.take(0) =~= Seq::<i64>::empty());
    }
    while idx < v.len()
        invariant
            idx <= v.len(),
            out@ == sort_seq(v@.take(idx as int)),
            out@.len() == idx,
        decreases v.len() - idx,
    {
        let x = v[idx];
        let mut p: usize = 0;
        while p < out.len() && out[p] < x
            invariant
                p <= out.len(),
                forall|k: int| 0 <= k < p ==> out@[k] < x,
            decreases out.len() - p,
        {
            p += 1;
        }
        let ghost prev = out@;
        out.insert(p, x);
        proof {
            lemma_insert_sorted_at(prev, x, p as int);
            assert(v@.take(idx as int + 1).drop_last() =~= v@.take(idx as int));
            assert(v@.take(idx as int + 1).last() == x);
        }
        idx += 1;
    }
    proof {
        assert(v@.take(v@.len() as int) =~= v@);
        lemma_sort_seq_len(v@);
    }
    out
}

/// The first index at or after `i` whose element differs from `v`: the end
/// of the run of `v` starting at `i` in a sorted sequence.
pub open spec fn run_end(s: Seq<i64>, i: int, v: i64) -> int
    decreases s.len() - i,
{
    if i < 0 || i >= s.len() || s[i] != v {
        i
    } else {
        run_end(s, i + 1, v)
    }
}

proof fn lemma_run_end_bounds(s: Seq<i64>, i: int, v: i64)
    requires
        0 <= i <= s.len(),
    ensures
        i <= run_end(s, i, v) <= s.len(),
        i < s.len() && s[i] == v ==> run_end(s, i, v) >= i + 1,
    decreases s.len() - i,
{
    if i < s.len() && s[i] == v {
        lemma_run_end_bounds(s, i + 1, v);
    }
}

/// A scan that stops at the first element differing from `v` lands exactly
/// on `run_end`.
proof fn lemma_run_end_is(s: Seq<i64>, i0: int, i: int, v: i64)
    requires
        0 <= i0 <= i <= s.len(),
        forall|k: int| i0 <= k < i ==> s[k] == v,
        i < s.len() ==> s[i] != v,
    ensures
        run_end(s, i0, v) == i,
    decreases i - i0,
{
    if i0 < i {
        lemma_run_end_is(s, i0 + 1, i, v);
    }
}

/// The merge walk of the two-sample Kolmogorov-Smirnov comparison over two
/// sorted sequences, from positions `i` and `j`.
///
/// The result is the maximum gap between the two empirical CDFs, scaled by
/// `s1.len() * s2.len()` so that it is an exact integer: a gap recorded at
/// positions `i`, `j` is `|i/n1 - j/n2| == |i*n2 - j*n1| / (n1*n2)`. The
/// pointer at the smaller value advances; at a tie both pointers advance
/// past the whole run of the tied value before the gap is recorded, since
/// both empirical CDFs jump at that value. Identical samples therefore walk
/// in lockstep and every recorded gap is zero.
pub open spec fn ks_walk(s1: Seq<i64>, s2: Seq<i64>, i: int, j: int) -> int
    decreases s1.len() + s2.len() - i - j,
    via ks_walk_decreases
{
    let n1 = s1.len() as int;
    let n2 = s2.len() as int;
    if i < 0 || j < 0 || i > n1 || j > n2 || (i == n1 && j == n2) {
        0
    } else if i < n1 && j < n2 && s1[i] == s2[j] {
        let i2 = run_end(s1, i, s1[i]);
        let j2 = run_end(s2, j, s1[i]);
        vstd::math::max(abs_val(i2 * n2 - j2 * n1), ks_walk(s1, s2, i2, j2))
    } else if j == n2 || (i < n1 && s1[i] < s2[j]) {
        vstd::math::max(abs_val((i + 1) * n2 - j * n1), ks_walk(s1, s2, i + 1, j))
    } else {
        vstd::math::max(abs_val(i * n2 - (j + 1) * n1), ks_walk(s1, s2, i, j + 1))
    }
}

#[via_fn]
proof fn ks_walk_decreases(s1: Seq<i64>, s2: Seq<i64>, i: int, j: int) {
    let n1 = s1.len() as int;
    let n2 = s2.len() as int;
    if !(i < 0 || j < 0 || i > n1 || j > n2 || (i == n1 && j == n2)) && i < n1 && j < n2
        && s1[i] == s2[j] {
        lemma_run_end_bounds(s1, i, s1[i]);
        lemma_run_end_bounds(s2, j, s1[i]);
    }
}

/// Every gap of the walk is at most `n1 * n2`, the scaled form of a CDF gap
/// being at most one.
proof fn lemma_ks_walk_le(s1: Seq<i64>, s2: Seq<i64>, i: int, j: int)
    requires
        0 <= i <= s1.len(),
        0 <= j <= s2.len(),
    ensures
        0 <= ks_walk(s1, s2, i, j) <= s1.len() * s2.len(),
    decreases s1.len() + s2.len() - i - j,
{
    let n1 = s1.len() as int;
    let n2 = s2.len() as int;
    if i == n1 && j == n2 {
        vstd::arithmetic::mul::lemma_mul_nonnegative(n1, n2);
    } else if i < n1 && j < n2 && s1[i] == s2[j] {
        lemma_run_end_bounds(s1, i, s1[i]);
        lemma_run_end_bounds(s2, j, s1[i]);
        let i2 = run_end(s1, i, s1[i]);
        let j2 = run_end(s2, j, s1[i]);
        lemma_ks_walk_le(s1, s2, i2, j2);
        assert(i2 * n2 <= n1 * n2 && 0 <= i2 * n2) by (nonlinear_arith)
            requires
                0 <= i2 <= n1,
                0 <= n2,
        ;
        assert(j2 * n1 <= n2 * n1 && 0 <= j2 * n1 && n2 * n1 == n1 * n2) by (nonlinear_arith)
            requires
                0 <= j2 <= n2,
                0 <= n1,
        ;
    } else if j == n2 || (i < n1 && s1[i] < s2[j]) {
        lemma_ks_walk_le(s1, s2, i + 1, j);
        assert((i + 1) * n2 <= n1 * n2) by (nonlinear_arith)
            requires
                i + 1 <= n1,
                0 <= n2,
        ;
        assert(j * n1 <= n2 * n1 && 0 <= j * n1 && 0 <= (i + 1) * n2) by (nonlinear_arith)
            requires
                0 <= j <= n2,
                0 <= n1,
                0 <= i + 1,
            ;
        assert(n2 * n1 == n1 * n2) by (nonlinear_arith);
    } else {
        lemma_ks_walk_le(s1, s2, i, j + 1);
        assert(i * n2 <= n1 * n2 && 0 <= i * n2 && 0 <= (j + 1) * n1) by (nonlinear_arith)
            requires
                0 <= i <= n1,
                0 <= n2,
                0 <= j + 1,
        ;
        assert((j + 1) * n1 <= n2 * n1 && n2 * n1 == n1 * n2) by (nonlinear_arith)
            requires
                j + 1 <= n2,
                0 <= n1,
            ;
    }
}

/// Walking one sequence against itself records only zero gaps: from equal
/// positions every step is a tie whose run both pointers leave together.
proof fn lemma_ks_walk_same(t: Seq<i64>, k: int)
    requires
        0 <= k <= t.len(),
    ensures
        ks_walk(t, t, k, k) == 0,
    decreases t.len() - k,
{
    if k < t.len() {
        lemma_run_end_bounds(t, k, t[k]);
        let m = run_end(t, k, t[k]);
        lemma_ks_walk_same(t, m);
    }
}

/// The walk is symmetric in its two samples: each branch mirrors under the
/// swap and the recorded gaps are absolute values.
proof fn lemma_ks_walk_sym(s1: Seq<i64>, s2: Seq<i64>, i: int, j: int)
    requires
        0 <= i <= s1.len(),
        0 <= j <= s2.len(),
    ensures
        ks_walk(s1, s2, i, j) == ks_walk(s2, s1, j, i),
    decreases s1.len() + s2.len() - i - j,
{
    let n1 = s1.len() as int;
    let n2 = s2.len() as int;
    if i == n1 && j == n2 {
    } else if i < n1 && j < n2 && s1[i] == s2[j] {
        lemma_run_end_bounds(s1, i, s1[i]);
        lemma_run_end_bounds(s2, j, s1[i]);
        let i2 = run_end(s1, i, s1[i]);
        let j2 = run_end(s2, j, s1[i]);
        lemma_ks_walk_sym(s1, s2, i2, j2);
    } else if j == n2 || (i < n1 && s1[i] < s2[j]) {
        lemma_ks_walk_sym(s1, s2, i + 1, j);
    } else {
        lemma_ks_walk_sym(s1, s2, i, j + 1);
    }
}

/// The Kolmogorov-Smirnov statistic `D` as the exact fraction
/// `num / den`; `0` means identical empirical CDFs, `1` maximal divergence.
pub struct KsStat {
    /// Numerator: the maximum scaled CDF gap.
    pub num: u64,
    /// Denominator: the product of the two sample sizes (or `1` for the
    /// degenerate empty-sample case).
    pub den: u64,
}

/// Computes the two-sample Kolmogorov-Smirnov test statistic (D).
///
/// Both samples are sorted ascending, then walked simultaneously: the
/// pointer at the smaller value advances, a tied value is left behind by
/// both pointers at once, and after each step the gap between the two
/// empirical CDFs is recorded. Identical multisets give `D = 0`; either
/// sample empty gives `D = 1`, maximal disagreement, never a false pass.
pub fn ks_statistic(sample1: &Vec<i64>, sample2: &Vec<i64>) -> (r: KsStat)
    requires
        sample1@.len() * sample2@.len() <= u64::MAX as int,
    ensures
        sample1@.len() == 0 || sample2@.len() == 0 ==> r.num == 1 && r.den == 1,
        sample1@.len() > 0 && sample2@.len() > 0 ==> r.den == sample1@.len() * sample2@.len()
            && r.num == ks_walk(sort_seq(sample1@), sort_seq(sample2@), 0, 0),
        r.num <= r.den,
        r.den > 0,
{
    if sample1.len() == 0 || sample2.len() == 0 {
        return KsStat { num: 1, den: 1 };
    }

    let a = sorted_copy(sample1);
    let b = sorted_copy(sample2);
    let n1: u64 = a.len() as u64;
    let n2: u64 = b.len() as u64;
    let den: u64 = n1 * n2;

    let mut i: usize = 0;
    let mut j: usize = 0;
    let mut maxd: u64 = 0;

    proof {
        lemma_ks_walk_le(a@, b@, 0, 0);
    }
    while i < a.len() || j < b.len()
        invariant
            a@ == sort_seq(sample1@),
            b@ == sort_seq(sample2@),
            a@.len() == sample1@.len(),
            b@.len() == sample2@.len(),
            n1 == a@.len(),
            n2 == b@.len(),
            n1 > 0,
            n2 > 0,
            den == n1 * n2,
            n1 * n2 <= u64::MAX as int,
            i <= a.len(),
            j <= b.len(),
            maxd <= den,
            vstd::math::max(maxd as int, ks_walk(a@, b@, i as int, j as int)) == ks_walk(
                a@,
                b@,
                0,
                0,
            ),
        decreases a.len() + b.len() - i - j,
    {
        proof {
            lemma_ks_walk_le(a@, b@, i as int, j as int);
        }
        let advance_first: bool;
        let tie: bool;
        if j >= b.len() {
            advance_first = true;
            tie = false;
        } else if i >= a.len() {
            advance_first = false;
            tie = false;
        } else if a[i] < b[j] {
            advance_first = true;
            tie = false;
        } else if b[j] < a[i] {
            advance_first = false;
            tie = false;
        } else {
            advance_first = false;
            tie = true;
        }
        if tie {
            // Both empirical CDFs jump at this value: move both pointers
            // past its whole run before recording the gap.
            let v = a[i];
            let ghost i0 = i as int;
            let ghost j0 = j as int;
            while i < a.len() && a[i] == v
                invariant
                    i0 <= i <= a@.len(),
                    forall|k: int| i0 <= k < i ==> a@[k] == v,
                decreases a@.len() - i,
            {
                i += 1;
            }
            while j < b.len() && b[j] == v
                invariant
                    j0 <= j <= b@.len(),
                    forall|k: int| j0 <= k < j ==> b@[k] == v,
                decreases b@.len() - j,
            {
                j += 1;
            }
            proof {
                lemma_run_end_is(a@, i0, i as int, v);
                lemma_run_end_is(b@, j0, j as int, v);
            }
        } else if advance_first {
            i += 1;
        } else {
            j += 1;
        }
        proof {
            assert(i * n2 <= n1 * n2 && 0 <= i * n2) by (nonlinear_arith)
                requires
                    0 <= i <= n1,
                    0 <= n2,
            ;
            assert(j * n1 <= n2 * n1 && 0 <= j * n1 && n2 * n1 == n1 * n2) by (nonlinear_arith)
                requires
                    0 <= j <= n2,
                    0 <= n1,
            ;
        }
        let lhs: u128 = i as u128 * n2 as u128;
        let rhs: u128 = j as u128 * n1 as u128;
        let gap: u64 = (if lhs >= rhs {
            lhs - rhs
        } else {
            rhs - lhs
        }) as u64;
        if gap > maxd {
            maxd = gap;
        }
        proof {
            lemma_ks_walk_le(a@, b@, i as int, j as int);
        }
    }
    proof {
        assert(n1 * n2 > 0) by (nonlinear_arith)
            requires
                n1 > 0,
                n2 > 0,
        ;
    }
    KsStat { num: maxd, den }
}

/// Integer square root: the greatest `r` with `r * r <= x`.
pub open spec fn spec_isqrt(x: nat) -> nat
    decreases x,
{
    if x == 0 {
        0
    } else {
        let r = spec_isqrt((x - 1) as nat);
        if (r + 1) * (r + 1) <= x {
            r + 1
        } else {
            r
        }
    }
}

pub proof fn lemma_isqrt_bounds(x: nat)
    ensures
        spec_isqrt(x) * spec_isqrt(x) <= x,
        x < (spec_isqrt(x) + 1) * (spec_isqrt(x) + 1),
    decreases x,
{
    let s = spec_isqrt(x);
    if x == 0 {
        assert(s == 0);
        assert(s * s <= x && x < (s + 1) * (s + 1)) by (nonlinear_arith)
            requires
                s == 0,
                x == 0,
        ;
    } else {
        lemma_isqrt_bounds((x - 1) as nat);
        let r = spec_isqrt((x - 1) as nat);
        if (r + 1) * (r + 1) <= x {
            assert(s == r + 1);
            assert(s * s <= x && x < (s + 1) * (s + 1)) by (nonlinear_arith)
                requires
                    s == r + 1,
                    (r + 1) * (r + 1) <= x,
                    x - 1 < (r + 1) * (r + 1),
                    r >= 0,
            ;
        } else {
            assert(s == r);
            assert(s * s <= x && x < (s + 1) * (s + 1)) by (nonlinear_arith)
                requires
                    s == r,
                    r * r <= x - 1,
                    !((r + 1) * (r + 1) <= x),
            ;
        }
    }
}

pub proof fn lemma_isqrt_unique(x: nat, r: nat)
    requires
        r * r <= x,
        x < (r + 1) * (r + 1),
    ensures
        r == spec_isqrt(x),
{
    lemma_isqrt_bounds(x);
    let s = spec_isqrt(x);
    if r < s {
        assert((r + 1) * (r + 1) <= s * s) by (nonlinear_arith)
            requires
                r + 1 <= s,
        ;
    }
    if s < r {
        assert((s + 1) * (s + 1) <= r * r) by (nonlinear_arith)
            requires
                s + 1 <= r,
        ;
    }
}

/// Binary-search integer square root.
pub(crate) fn isqrt(x: u128) -> (r: u128)
    requires
        x < 0x4000_0000_0000_0000_0000_0000_0000_0000,
    ensures
        r == spec_isqrt(x as nat),
        r * r <= x,
        x < (r + 1) * (r + 1),
{
    let mut lo: u128 = 0;
    let mut hi: u128 = 0x8000_0000_0000_0000;
    proof {
        assert((0x8000_0000_0000_0000 as int) * 0x8000_0000_0000_0000
            == 0x4000_0000_0000_0000_0000_0000_0000_0000) by (nonlinear_arith);
    }
    while hi - lo > 1
        invariant
            lo < hi,
            hi <= 0x8000_0000_0000_0000,
            lo * lo <= x,
            x < hi * hi,
        decreases hi - lo,
    {
        let mid: u128 = lo + (hi - lo) / 2;
        proof {
            assert(mid * mid < 0x8000_0000_0000_0000 * 0x8000_0000_0000_0000) by (nonlinear_arith)
                requires
                    mid < 0x8000_0000_0000_0000,
            ;
            assert((0x8000_0000_0000_0000 as int) * 0x8000_0000_0000_0000
                == 0x4000_0000_0000_0000_0000_0000_0000_0000) by (nonlinear_arith);
        }
        if mid * mid <= x {
            lo = mid;
        } else {
            hi = mid;
        }
    }
    proof {
        lemma_isqrt_unique(x as nat, lo as nat);
    }
    lo
}

/// Upper bound for arguments of the fixed-point exponential; above it the
/// result would overflow the micro-unit range used by the translation layer.
pub const EXP_ARG_MAX: i64 = 31_000_000;

/// Cut-off above which `exp(-x)` is below half a micro-unit and is taken as
/// zero.
pub const EXP_NEG_CUTOFF: i64 = 15_000_000;

/// Tail of the Taylor series of `exp` in micro-units, starting from term
/// `t` at index `k`; each next term is `t * x / ((k+1) * SCALE)`, rounded
/// down, and the series stops at a zero term or after 120 terms. The
/// saturation at `0x8000_0000_0000_0000` can never be reached for arguments
/// within `EXP_ARG_MAX` but makes the definition total.
pub open spec fn spec_exp_tail(x: int, t: int, k: int) -> int
    decreases 121 - k,
{
    if t <= 0 || k > 120 {
        0
    } else {
        let raw = t * x / ((k + 1) * (SCALE as int));
        let next = if raw > 0x8000_0000_0000_0000 {
            0x8000_0000_0000_0000
        } else {
            raw
        };
        t + spec_exp_tail(x, next, k + 1)
    }
}

/// `exp(x / SCALE) * SCALE`, rounded down term by term.
pub open spec fn spec_exp_pos(x: int) -> int {
    (SCALE as int) + spec_exp_tail(x, x, 1)
}

proof fn lemma_exp_tail_nonneg(x: int, t: int, k: int)
    ensures
        spec_exp_tail(x, t, k) >= 0,
    decreases 121 - k,
{
    if !(t <= 0 || k > 120) {
        let raw = t * x / ((k + 1) * (SCALE as int));
        let next = if raw > 0x8000_0000_0000_0000 {
            0x8000_0000_0000_0000int
        } else {
            raw
        };
        lemma_exp_tail_nonneg(x, next, k + 1);
    }
}

pub proof fn lemma_exp_pos_lower(x: int)
    ensures
        spec_exp_pos(x) >= SCALE as int,
{
    lemma_exp_tail_nonneg(x, x, 1);
}

/// Fixed-point `exp(x / SCALE) * SCALE` for non-negative arguments.
pub(crate) fn exp_pos_scaled(x: u64) -> (r: u128)
    requires
        x <= EXP_ARG_MAX,
    ensures
        r == spec_exp_pos(x as int),
        r >= SCALE,
{
    let ghost x_i = x as int;
    let mut sum: u128 = SCALE as u128;
    let mut t: u128 = x as u128;
    let mut k: u64 = 1;
    while t > 0 && k <= 120
        invariant
            1 <= k <= 121,
            x <= EXP_ARG_MAX,
            x_i == x as int,
            t <= 0x8000_0000_0000_0000,
            sum >= SCALE,
            sum <= (SCALE as u128) + (k - 1) * 0x8000_0000_0000_0000,
            spec_exp_pos(x_i) == sum + spec_exp_tail(x_i, t as int, k as int),
        decreases 121 - k,
    {
        let ghost t0 = t as int;
        let ghost k0 = k as int;
        sum = sum + t;
        proof {
            vstd::arithmetic::mul::lemma_mul_upper_bound(
                t as int,
                0x8000_0000_0000_0000,
                x as int,
                EXP_ARG_MAX as int,
            );
        }
        let raw: u128 = t * (x as u128) / ((k as u128 + 1) * (SCALE as u128));
        t = if raw > 0x8000_0000_0000_0000 {
            0x8000_0000_0000_0000
        } else {
            raw
        };
        k = k + 1;
        proof {
            assert(spec_exp_tail(x_i, t0, k0) == t0 + spec_exp_tail(x_i, t as int, k as int));
        }
    }
    sum
}

/// `exp(-x / SCALE) * SCALE`, rounded down: zero beyond the cut-off, else
/// the quotient of `SCALE * SCALE` by the fixed-point `exp(x / SCALE) * SCALE`.
pub open spec fn spec_exp_neg(x: int) -> int {
    if x >= EXP_NEG_CUTOFF as int {
        0
    } else {
        (SCALE as int) * (SCALE as int) / spec_exp_pos(x)
    }
}

pub proof fn lemma_exp_neg_range(x: int)
    ensures
        0 <= spec_exp_neg(x) <= SCALE as int,
{
    if x < EXP_NEG_CUTOFF as int {
        lemma_exp_pos_lower(x);
        let e = spec_exp_pos(x);
        vstd::arithmetic::div_mod::lemma_div_is_ordered_by_denominator(
            (SCALE as int) * (SCALE as int),
            SCALE as int,
            e,
        );
        assert((SCALE as int) * (SCALE as int) / (SCALE as int) == SCALE as int) by (nonlinear_arith);
        vstd::arithmetic::div_mod::lemma_div_pos_is_pos((SCALE as int) * (SCALE as int), e);
    }
}

/// Fixed-point `exp(-x / SCALE) * SCALE` for non-negative arguments.
pub(crate) fn exp_neg_scaled(x: u64) -> (r: i64)
    ensures
        r == spec_exp_neg(x as int),
        0 <= r <= SCALE,
{
    proof {
        lemma_exp_neg_range(x as int);
    }
    if x >= EXP_NEG_CUTOFF as u64 {
        0
    } else {
        let e = exp_pos_scaled(x);
        let q: u128 = (SCALE as u128) * (SCALE as u128) / e;
        q as i64
    }
}

/// One term of the p-value series: `exp(-2 k^2 lambda^2)` in micro-units.
pub open spec fn spec_ks_term(lambda_sq: int, k: int) -> int {
    spec_exp_neg(2 * k * k * lambda_sq)
}

/// The alternating Kolmogorov series from index `k`, micro-units: terms
/// alternate `+`/`-` starting with `+` at `k == 1`, and the series stops at
/// the first term that rounds to zero (below one micro-unit) or after 100
/// terms.
pub open spec fn spec_ks_sum(lambda_sq: int, k: int) -> int
    decreases 101 - k,
{
    if k > 100 {
        0
    } else {
        let t = spec_ks_term(lambda_sq, k);
        if t == 0 {
            0
        } else {
            (if k % 2 == 1 {
                t
            } else {
                -t
            }) + spec_ks_sum(lambda_sq, k + 1)
        }
    }
}

/// Clamp to the unit interval in micro-units.
pub open spec fn spec_clamp_unit(x: int) -> int {
    if x < 0 {
        0
    } else if x > SCALE as int {
        SCALE as int
    } else {
        x
    }
}

/// The asymptotic Kolmogorov p-value in micro-units: `D <= 0` gives `1`,
/// `D >= 1` gives `0`; otherwise the effective sample size
/// `n = n1 * n2 / (n1 + n2)` gives `lambda = (sqrt(n) + 0.12 + 0.11 / sqrt(n)) * D`
/// and the p-value is `2` times the alternating series, clamped to `[0, 1]`.
pub open spec fn spec_ks_pvalue(d: int, n1: int, n2: int) -> int {
    if d <= 0 {
        SCALE as int
    } else if d >= SCALE as int {
        0
    } else {
        let n_micro = n1 * n2 * (SCALE as int) / (n1 + n2);
        let sqrt_n = spec_isqrt((n_micro * (SCALE as int)) as nat) as int;
        let coeff = sqrt_n + 120_000 + 110_000 * (SCALE as int) / sqrt_n;
        let lambda = coeff * d / (SCALE as int);
        let lambda_sq = lambda * lambda / (SCALE as int);
        spec_clamp_unit(2 * spec_ks_sum(lambda_sq, 1))
    }
}

/// Computes approximate p-value for the KS test, in micro-units.
///
/// `d` is the statistic in micro-units. The alternating series is truncated
/// at the first term that rounds to zero at this resolution, or after 100
/// terms, and the doubled sum is clamped to `[0, 1]`.
pub fn ks_pvalue(d: i64, n1: usize, n2: usize) -> (r: i64)
    requires
        0 < d < SCALE ==> n1 > 0 && n2 > 0 && n1 * n2 <= u64::MAX as int,
    ensures
        r == spec_ks_pvalue(d as int, n1 as int, n2 as int),
        0 <= r <= SCALE,
        d <= 0 ==> r == SCALE,
        d >= SCALE ==> r == 0,
{
    if d <= 0 {
        return SCALE;
    }
    if d >= SCALE {
        return 0;
    }

    let ghost num = (n1 as int) * (n2 as int) * (SCALE as int);
    let ghost den = (n1 as int) + (n2 as int);
    proof {
        vstd::arithmetic::mul::lemma_mul_upper_bound(
            (n1 as int) * (n2 as int),
            u64::MAX as int,
            SCALE as int,
            SCALE as int,
        );
        assert(num >= den) by (nonlinear_arith)
            requires
                n1 >= 1,
                n2 >= 1,
                num == (n1 as int) * (n2 as int) * (SCALE as int),
                den == (n1 as int) + (n2 as int),
        ;
    }
    let n_micro: u128 = (n1 as u128) * (n2 as u128) * (SCALE as u128) / (n1 as u128 + n2 as u128);
    proof {
        assert(n_micro as int == num / den);
        vstd::arithmetic::div_mod::lemma_div_is_ordered(den, num, den);
        vstd::arithmetic::div_mod::lemma_div_by_self(den);
        assert(n_micro >= 1);
        vstd::arithmetic::div_mod::lemma_div_is_ordered_by_denominator(num, 1, den);
        assert(num / 1 == num) by (nonlinear_arith);
        assert(n_micro < 0x1000000000000000000000);
        vstd::arithmetic::mul::lemma_mul_upper_bound(
            n_micro as int,
            0x1000000000000000000000,
            SCALE as int,
            SCALE as int,
        );
        vstd::arithmetic::mul::lemma_mul_inequality(1, n_micro as int, SCALE as int);
    }
    let sq_arg: u128 = n_micro * (SCALE as u128);
    let sqrt_n: u128 = isqrt(sq_arg);
    proof {
        assert(sq_arg >= SCALE);
        if sqrt_n == 0 {
            assert(sq_arg < (sqrt_n + 1) * (sqrt_n + 1));
            assert(sq_arg < 1) by (nonlinear_arith)
                requires
                    sqrt_n == 0,
                    sq_arg < (sqrt_n + 1) * (sqrt_n + 1),
            ;
        }
        assert(sqrt_n >= 1);
        if sqrt_n > 0x10000000000000 {
            assert(sqrt_n * sqrt_n > 0x100000000000000000000000000) by (nonlinear_arith)
                requires
                    sqrt_n > 0x10000000000000,
            ;
        }
        assert(sqrt_n <= 0x10000000000000);
    }
    let coeff: u128 = sqrt_n + 120_000 + 110_000 * (SCALE as u128) / sqrt_n;
    proof {
        vstd::arithmetic::div_mod::lemma_div_is_ordered_by_denominator(
            110_000 * (SCALE as int),
            1,
            sqrt_n as int,
        );
        assert(coeff <= 0x20000000000000);
        vstd::arithmetic::mul::lemma_mul_upper_bound(
            coeff as int,
            0x20000000000000,
            d as int,
            SCALE as int,
        );
    }
    let lambda: u128 = coeff * (d as u128) / (SCALE as u128);
    proof {
        vstd::arithmetic::mul::lemma_mul_upper_bound(coeff as int, coeff as int, d as int, SCALE as int);
        vstd::arithmetic::mul::lemma_mul_is_commutative(coeff as int, SCALE as int);
        vstd::arithmetic::div_mod::lemma_div_multiples_vanish(coeff as int, SCALE as int);
        vstd::arithmetic::div_mod::lemma_div_is_ordered(
            (coeff as int) * (d as int),
            (coeff as int) * (SCALE as int),
            SCALE as int,
        );
        assert(lambda <= coeff);
        vstd::arithmetic::mul::lemma_mul_upper_bound(
            lambda as int,
            0x20000000000000,
            lambda as int,
            0x20000000000000,
        );
    }
    let lambda_sq: u128 = lambda * lambda / (SCALE as u128);
    let ghost lsq = lambda_sq as int;

    if lambda_sq >= EXP_NEG_CUTOFF as u128 {
        // Already the first series term is zero at this resolution, so the
        // whole series is zero.
        proof {
            assert(2 * 1 * 1 * lsq == 2 * lsq) by (nonlinear_arith);
            assert(2 * 1 * 1 * lsq >= EXP_NEG_CUTOFF as int);
            assert(spec_ks_term(lsq, 1) == 0);
            assert(spec_ks_sum(lsq, 1) == 0);
            assert(spec_clamp_unit(0) == 0);
        }
        return 0;
    }

    let mut sum: i64 = 0;
    let mut k: u64 = 1;
    let mut done = false;
    while k <= 100 && !done
        invariant
            1 <= k <= 101,
            lsq == lambda_sq as int,
            lambda_sq < EXP_NEG_CUTOFF as u128,
            spec_ks_sum(lsq, 1) == sum + (if done {
                0int
            } else {
                spec_ks_sum(lsq, k as int)
            }),
            done ==> spec_ks_sum(lsq, k as int) == 0,
            abs_val(sum as int) <= (k - 1) * (SCALE as int),
        decreases 101 - k, (if done { 0int } else { 1int }),
    {
        proof {
            assert((2 * (k as int)) * (k as int) <= 20_000) by (nonlinear_arith)
                requires
                    1 <= k <= 100,
            ;
            vstd::arithmetic::mul::lemma_mul_upper_bound(
                (2 * (k as int)) * (k as int),
                20_000,
                lambda_sq as int,
                EXP_NEG_CUTOFF as int,
            );
        }
        let xk: u128 = 2 * (k as u128) * (k as u128) * lambda_sq;
        let t: i64 = if xk >= EXP_NEG_CUTOFF as u128 {
            0
        } else {
            exp_neg_scaled(xk as u64)
        };
        proof {
            assert(xk as int == 2 * (k as int) * (k as int) * lsq);
            assert(t == spec_ks_term(lsq, k as int));
            lemma_exp_neg_range(2 * (k as int) * (k as int) * lsq);
            reveal_with_fuel(spec_ks_sum, 2);
        }
        if t == 0 {
            done = true;
        } else {
            if k % 2 == 1 {
                sum = sum + t;
            } else {
                sum = sum - t;
            }
            k = k + 1;
        }
    }
    let doubled: i64 = 2 * sum;
    let clamped: i64 = if doubled < 0 {
        0
    } else if doubled > SCALE {
        SCALE
    } else {
        doubled
    };
    clamped
}

/// The statistic of `ks_statistic` as a micro-unit value, rounded down.
pub open spec fn spec_ks_statistic_scaled(s1: Seq<i64>, s2: Seq<i64>) -> int {
    if s1.len() == 0 || s2.len() == 0 {
        SCALE as int
    } else {
        ks_walk(sort_seq(s1), sort_seq(s2), 0, 0) * (SCALE as int) / ((s1.len() * s2.len()) as int)
    }
}

/// Computes the two-sample KS test p-value: the statistic of the two
/// samples, then its asymptotic p-value.
pub fn ks_test_pvalue(sample1: &Vec<i64>, sample2: &Vec<i64>) -> (r: i64)
    requires
        sample1@.len() * sample2@.len() <= u64::MAX as int,
    ensures
        r == spec_ks_pvalue(
            spec_ks_statistic_scaled(sample1@, sample2@),
            sample1@.len() as int,
            sample2@.len() as int,
        ),
        0 <= r <= SCALE,
{
    let ks = ks_statistic(sample1, sample2);
    proof {
        vstd::arithmetic::mul::lemma_mul_upper_bound(
            ks.num as int,
            u64::MAX as int,
            SCALE as int,
            SCALE as int,
        );
        vstd::arithmetic::mul::lemma_mul_inequality(ks.num as int, ks.den as int, SCALE as int);
        vstd::arithmetic::div_mod::lemma_div_is_ordered(
            (ks.num as int) * (SCALE as int),
            (ks.den as int) * (SCALE as int),
            ks.den as int,
        );
        vstd::arithmetic::mul::lemma_mul_is_commutative(ks.den as int, SCALE as int);
        vstd::arithmetic::div_mod::lemma_div_multiples_vanish(SCALE as int, ks.den as int);
    }
    let d128: u128 = (ks.num as u128) * (SCALE as u128) / (ks.den as u128);
    let d: i64 = d128 as i64;
    ks_pvalue(d, sample1.len(), sample2.len())
}

/// Comparing identical multisets yields zero divergence: a non-empty sample
/// against itself has statistic `D == 0`, and the p-value at `D == 0` is
/// one.
pub proof fn lemma_ks_identical_samples(s: Seq<i64>)
    requires
        s.len() > 0,
    ensures
        spec_ks_statistic_scaled(s, s) == 0,
        spec_ks_pvalue(0, s.len() as int, s.len() as int) == SCALE as int,
{
    let t = sort_seq(s);
    lemma_sort_seq_len(s);
    lemma_ks_walk_same(t, 0);
    let den = (s.len() * s.len()) as int;
    assert(den > 0) by (nonlinear_arith)
        requires
            s.len() > 0,
            den == (s.len() * s.len()) as int,
    ;
    assert(0 * (SCALE as int) == 0);
    vstd::arithmetic::div_mod::lemma_div_of0(den);
}

/// The statistic is symmetric in its two samples, as the supremum of an
/// absolute difference of empirical CDFs must be.
pub proof fn lemma_ks_statistic_symmetric(s1: Seq<i64>, s2: Seq<i64>)
    ensures
        spec_ks_statistic_scaled(s1, s2) == spec_ks_statistic_scaled(s2, s1),
{
    if s1.len() > 0 && s2.len() > 0 {
        lemma_sort_seq_len(s1);
        lemma_sort_seq_len(s2);
        lemma_ks_walk_sym(sort_seq(s1), sort_seq(s2), 0, 0);
        assert(s1.len() * s2.len() == s2.len() * s1.len()) by (nonlinear_arith);
    }
}

/// The relative difference saturated to the result type's range, as shown
/// in diagnostic messages.
pub open spec fn spec_sat_rel_diff(actual: int, expected: int) -> int {
    if spec_relative_difference(actual, expected) > i64::MAX as int {
        i64::MAX as int
    } else {
        spec_relative_difference(actual, expected)
    }
}

/// The effective percentile tolerance: at least ten percent, because
/// independent pseudo-random streams diverge in order statistics even when
/// the distributions match.
pub open spec fn spec_effective_pct_tolerance(tol_pct: int) -> int {
    if tol_pct > 100_000 {
        tol_pct
    } else {
        100_000
    }
}

/// Percentile acceptance: the pair agrees if its relative difference is
/// within the effective tolerance, or its absolute difference is within
/// half the reference standard deviation. Both must fail before a
/// percentile counts as mismatched.
pub open spec fn spec_percentile_ok(fv: int, rv: int, tol_pct: int, ref_std: int) -> bool {
    let eff = spec_effective_pct_tolerance(tol_pct);
    let abs_diff = abs_val(fv - rv);
    let rel_ok = if rv == 0 {
        abs_diff <= eff
    } else {
        abs_diff * (SCALE as int) <= eff * abs_val(rv)
    };
    let abs_ok = abs_diff <= div_trunc(ref_std, 2);
    rel_ok || abs_ok
}

/// Decides percentile acceptance, exactly as `spec_percentile_ok`.
pub fn percentile_within(fv: i64, rv: i64, tol_pct: i64, ref_std: i64) -> (r: bool)
    ensures
        r == spec_percentile_ok(fv as int, rv as int, tol_pct as int, ref_std as int),
{
    let eff: i64 = if tol_pct > 100_000 {
        tol_pct
    } else {
        100_000
    };
    let diff: i128 = fv as i128 - rv as i128;
    let abs_diff: i128 = if diff < 0 {
        -diff
    } else {
        diff
    };
    let rel_ok: bool;
    if rv == 0 {
        rel_ok = abs_diff <= eff as i128;
    } else {
        let arv: i128 = if rv < 0 {
            -(rv as i128)
        } else {
            rv as i128
        };
        proof {
            vstd::arithmetic::mul::lemma_mul_upper_bound(
                abs_diff as int,
                u64::MAX as int,
                SCALE as int,
                SCALE as int,
            );
            vstd::arithmetic::mul::lemma_mul_upper_bound(
                eff as int,
                i64::MAX as int,
                arv as int,
                0x8000_0000_0000_0000,
            );
        }
        rel_ok = abs_diff * (SCALE as i128) <= (eff as i128) * arv;
    }
    let half_std: i128 = if ref_std >= 0 {
        ((ref_std as u64) / 2) as i128
    } else {
        -(((-(ref_std as i128)) as u128 / 2) as i128)
    };
    let abs_ok = abs_diff <= half_std;
    rel_ok || abs_ok
}

/// Magnitude bound on the values of a sample accepted by `compute_stats`:
/// one thousand million whole units, in micro-units.
pub const STAT_MAX: i64 = 1_000_000_000_000_000;

/// Bound on the sample sizes accepted by `compute_stats`.
pub const SAMPLE_MAX: usize = 10_000_000;

pub open spec fn all_stats_bounded(s: Seq<i64>) -> bool {
    forall|i: int| 0 <= i < s.len() ==> abs_val(s[i] as int) <= STAT_MAX as int
}

pub open spec fn spec_sum(s: Seq<i64>) -> int
    decreases s.len(),
{
    if s.len() == 0 {
        0
    } else {
        spec_sum(s.drop_last()) + s.last()
    }
}

/// Division rounding toward zero, the semantics of the mean's division.
pub open spec fn div_trunc(a: int, b: int) -> int {
    if a >= 0 {
        a / b
    } else {
        -((-a) / b)
    }
}

pub open spec fn spec_mean(s: Seq<i64>) -> int {
    if s.len() == 0 {
        0
    } else {
        div_trunc(spec_sum(s), s.len() as int)
    }
}

pub open spec fn spec_sq_dev_sum(s: Seq<i64>, m: int) -> int
    decreases s.len(),
{
    if s.len() == 0 {
        0
    } else {
        spec_sq_dev_sum(s.drop_last(), m) + (s.last() - m) * (s.last() - m)
    }
}

/// The population standard deviation in micro-units: since the values are
/// micro-units, the square root of the mean squared deviation needs no
/// further rescaling.
pub open spec fn spec_std(s: Seq<i64>) -> int {
    if s.len() == 0 {
        0
    } else {
        spec_isqrt((spec_sq_dev_sum(s, spec_mean(s)) / (s.len() as int)) as nat) as int
    }
}

/// Computes basic statistics for a sample: the mean and the population
/// standard deviation; an empty sample gives `(0, 0)`.
pub fn compute_stats(sample: &Vec<i64>) -> (r: (i64, i64))
    requires
        all_stats_bounded(sample@),
        sample@.len() <= SAMPLE_MAX as int,
    ensures
        r.0 == spec_mean(sample@),
        r.1 == spec_std(sample@),
        abs_val(r.0 as int) <= STAT_MAX as int,
{
    if sample.len() == 0 {
        return (0, 0);
    }
    let n = sample.len();

    let mut acc: i128 = 0;
    let mut i: usize = 0;
    proof {
        assert(sample@.take(0) =~= Seq::<i64>::empty());
    }
    while i < n
        invariant
            i <= n,
            n == sample@.len(),
            all_stats_bounded(sample@),
            n <= SAMPLE_MAX,
            acc == spec_sum(sample@.take(i as int)),
            abs_val(acc as int) <= i * (STAT_MAX as int),
        decreases n - i,
    {
        proof {
            assert(abs_val(sample@[i as int] as int) <= STAT_MAX as int);
            assert(sample@.take(i as int + 1).drop_last() =~= sample@.take(i as int));
        }
        acc = acc + sample[i] as i128;
        i += 1;
    }
    proof {
        assert(sample@.take(n as int) =~= sample@);
        vstd::arithmetic::mul::lemma_mul_upper_bound(
            n as int,
            SAMPLE_MAX as int,
            STAT_MAX as int,
            STAT_MAX as int,
        );
    }

    let mean: i64;
    if acc >= 0 {
        proof {
            vstd::arithmetic::div_mod::lemma_div_is_ordered(
                acc as int,
                (n as int) * (STAT_MAX as int),
                n as int,
            );
            vstd::arithmetic::div_mod::lemma_div_multiples_vanish(STAT_MAX as int, n as int);
            vstd::arithmetic::div_mod::lemma_div_pos_is_pos(acc as int, n as int);
        }
        mean = ((acc as u128) / (n as u128)) as i64;
    } else {
        proof {
            vstd::arithmetic::div_mod::lemma_div_is_ordered(
                -(acc as int),
                (n as int) * (STAT_MAX as int),
                n as int,
            );
            vstd::arithmetic::div_mod::lemma_div_multiples_vanish(STAT_MAX as int, n as int);
            vstd::arithmetic::div_mod::lemma_div_pos_is_pos(-(acc as int), n as int);
        }
        mean = -((((-acc) as u128) / (n as u128)) as i64);
    }

    let mut ssq: u128 = 0;
    let mut j: usize = 0;
    proof {
        assert(sample@.take(0) =~= Seq::<i64>::empty());
    }
    while j < n
        invariant
            j <= n,
            n == sample@.len(),
            all_stats_bounded(sample@),
            n <= SAMPLE_MAX,
            abs_val(mean as int) <= STAT_MAX as int,
            ssq == spec_sq_dev_sum(sample@.take(j as int), mean as int),
            ssq <= j * 4_000_000_000_000_000_000_000_000_000_000,
        decreases n - j,
    {
        proof {
            assert(abs_val(sample@[j as int] as int) <= STAT_MAX as int);
            assert(sample@.take(j as int + 1).drop_last() =~= sample@.take(j as int));
        }
        let dev: i128 = sample[j] as i128 - mean as i128;
        let ad: u128 = (if dev < 0 {
            -dev
        } else {
            dev
        }) as u128;
        proof {
            vstd::arithmetic::mul::lemma_mul_upper_bound(
                ad as int,
                2_000_000_000_000_000,
                ad as int,
                2_000_000_000_000_000,
            );
            assert((dev as int) * (dev as int) == (ad as int) * (ad as int)) by (nonlinear_arith)
                requires
                    ad as int == dev as int || ad as int == -(dev as int),
            ;
        }
        let sq: u128 = ad * ad;
        ssq = ssq + sq;
        j += 1;
    }
    proof {
        assert(sample@.take(n as int) =~= sample@);
        vstd::arithmetic::mul::lemma_mul_inequality(
            n as int,
            10_000_000,
            4_000_000_000_000_000_000_000_000_000_000,
        );
        vstd::arithmetic::div_mod::lemma_div_is_ordered_by_denominator(ssq as int, 1, n as int);
        assert(ssq as int / 1 == ssq as int) by (nonlinear_arith);
    }
    let var: u128 = ssq / (n as u128);
    let sd: u128 = isqrt(var);
    proof {
        if sd > 7_000_000_000_000_000_000 {
            assert(sd * sd > 7_000_000_000_000_000_000 * 7_000_000_000_000_000_000)
                by (nonlinear_arith)
                requires
                    sd > 7_000_000_000_000_000_000,
            ;
        }
    }
    (mean, sd as i64)
}

/// A fraction times one hundred, saturating at the ends of the result
/// type's range: turns a micro-unit fraction into a micro-unit percentage
/// for diagnostic messages.
pub open spec fn spec_percent_of(t: int) -> int {
    if 100 * t > i64::MAX as int {
        i64::MAX as int
    } else if 100 * t < i64::MIN as int {
        i64::MIN as int
    } else {
        100 * t
    }
}

pub fn percent_of(t: i64) -> (r: i64)
    ensures
        r == spec_percent_of(t as int),
{
    let wide: i128 = 100 * (t as i128);
    if wide > i64::MAX as i128 {
        i64::MAX
    } else if wide < i64::MIN as i128 {
        i64::MIN
    } else {
        wide as i64
    }
}

/// Reflexivity of the tolerance test: every value agrees with itself under
/// any non-negative tolerance.
pub proof fn lemma_within_tolerance_reflexive(x: int, t: int)
    requires
        t >= 0,
    ensures
        spec_within_tolerance(x, x, t),
{
    if x != 0 {
        assert(abs_val(x - x) * (SCALE as int) == 0);
        assert(t * abs_val(x) >= 0) by (nonlinear_arith)
            requires
                t >= 0,
                abs_val(x) >= 0,
        ;
    }
}

/// Strict boundary of the tolerance test: when the expected value is not
/// zero and the deviation strictly exceeds the tolerated fraction of it
/// (stated in the exact cross-multiplied form), the test is false.
pub proof fn lemma_within_tolerance_strict(actual: int, expected: int, t: int)
    requires
        expected != 0,
        abs_val(actual - expected) * (SCALE as int) > t * abs_val(expected),
    ensures
        !spec_within_tolerance(actual, expected, t),
{
}

proof fn lemma_exp_tail_monotone(x1: int, x2: int, t1: int, t2: int, k: int)
    requires
        0 <= x1 <= x2,
        t1 <= t2,
        1 <= k,
    ensures
        spec_exp_tail(x1, t1, k) <= spec_exp_tail(x2, t2, k),
    decreases 121 - k,
{
    if t1 <= 0 || k > 120 {
        lemma_exp_tail_nonneg(x2, t2, k);
    } else {
        let den = (k + 1) * (SCALE as int);
        assert((k + 1) * (SCALE as int) > 0) by (nonlinear_arith)
            requires
                k >= 1,
        ;
        assert(t1 * x1 <= t2 * x2) by (nonlinear_arith)
            requires
                0 < t1 <= t2,
                0 <= x1 <= x2,
        ;
        vstd::arithmetic::div_mod::lemma_div_is_ordered(t1 * x1, t2 * x2, den);
        let raw1 = t1 * x1 / den;
        let raw2 = t2 * x2 / den;
        let next1 = if raw1 > 0x8000_0000_0000_0000 {
            0x8000_0000_0000_0000int
        } else {
            raw1
        };
        let next2 = if raw2 > 0x8000_0000_0000_0000 {
            0x8000_0000_0000_0000int
        } else {
            raw2
        };
        lemma_exp_tail_monotone(x1, x2, next1, next2, k + 1);
    }
}

/// The fixed-point exponential is monotone non-decreasing over non-negative
/// arguments.
pub proof fn lemma_exp_pos_monotone(x1: int, x2: int)
    requires
        0 <= x1 <= x2,
    ensures
        spec_exp_pos(x1) <= spec_exp_pos(x2),
{
    lemma_exp_tail_monotone(x1, x2, x1, x2, 1);
}

/// The fixed-point `exp(-x)` is monotone non-increasing over non-negative
/// arguments.
pub proof fn lemma_exp_neg_antitone(x1: int, x2: int)
    requires
        0 <= x1 <= x2,
    ensures
        spec_exp_neg(x2) <= spec_exp_neg(x1),
{
    lemma_exp_neg_range(x1);
    lemma_exp_neg_range(x2);
    if x2 < EXP_NEG_CUTOFF as int {
        lemma_exp_pos_monotone(x1, x2);
        lemma_exp_pos_lower(x1);
        vstd::arithmetic::div_mod::lemma_div_is_ordered_by_denominator(
            (SCALE as int) * (SCALE as int),
            spec_exp_pos(x1),
            spec_exp_pos(x2),
        );
    }
}

/// Every term of the p-value series is monotone non-increasing in the
/// squared lambda, hence in the statistic `D` for fixed sample sizes. This
/// is the per-term half of the p-value's monotone non-increase; the
/// truncated, clamped alternating sum itself is not monotone on the whole
/// interior of the unit interval.
pub proof fn lemma_ks_term_antitone(lsq1: int, lsq2: int, k: int)
    requires
        0 <= lsq1 <= lsq2,
        1 <= k,
    ensures
        spec_ks_term(lsq2, k) <= spec_ks_term(lsq1, k),
{
    assert(2 * k * k * lsq1 <= 2 * k * k * lsq2 && 0 <= 2 * k * k * lsq1) by (nonlinear_arith)
        requires
            k >= 1,
            0 <= lsq1 <= lsq2,
    ;
    lemma_exp_neg_antitone(2 * k * k * lsq1, 2 * k * k * lsq2);
}

/// The p-value never leaves the unit interval.
pub proof fn lemma_ks_pvalue_range(d: int, n1: int, n2: int)
    ensures
        0 <= spec_ks_pvalue(d, n1, n2) <= SCALE as int,
{
}

/// Monotone non-increase of the p-value in the statistic, whenever one of
/// the two statistics is at or beyond an end of the unit interval: below
/// zero the p-value is the maximum and at or above one it is the minimum,
/// so no larger statistic can give a larger p-value.
pub proof fn lemma_ks_pvalue_extremes(d1: int, d2: int, n1: int, n2: int)
    requires
        d1 <= d2,
        d1 <= 0 || d2 >= SCALE as int,
    ensures
        spec_ks_pvalue(d2, n1, n2) <= spec_ks_pvalue(d1, n1, n2),
{
    lemma_ks_pvalue_range(d1, n1, n2);
    lemma_ks_pvalue_range(d2, n1, n2);
}

} // verus!
