//! Common types: test specifications and verdicts.

use vstd::prelude::*;


verus! {

/// First-match lookup in an association list of string keys and micro-unit
/// values.
pub open spec fn table_lookup(entries: Seq<(String, i64)>, key: Seq<char>) -> Option<i64>
    decreases entries.len(),
{
    if entries.len() == 0 {
        Option::None
    } else if entries[0].0@ == key {
        Option::Some(entries[0].1)
    } else {
        table_lookup(entries.drop_first(), key)
    }
}

proof fn lemma_lookup_first_match(entries: Seq<(String, i64)>, key: Seq<char>, idx: int)
    requires
        0 <= idx < entries.len(),
        forall|j: int| 0 <= j < idx ==> entries[j].0@ != key,
        entries[idx].0@ == key,
    ensures
        table_lookup(entries, key) == Option::Some(entries[idx].1),
    decreases idx,
{
    if idx > 0 {
        assert(entries.drop_first() =~= entries.subrange(1, entries.len() as int));
        lemma_lookup_first_match(entries.drop_first(), key, idx - 1);
    }
}

proof fn lemma_lookup_no_match(entries: Seq<(String, i64)>, key: Seq<char>)
    requires
        forall|j: int| 0 <= j < entries.len() ==> entries[j].0@ != key,
    ensures
        table_lookup(entries, key) == Option::<i64>::None,
    decreases entries.len(),
{
    if entries.len() > 0 {
        lemma_lookup_no_match(entries.drop_first(), key);
    }
}

proof fn lemma_lookup_update(entries: Seq<(String, i64)>, idx: int, p: (String, i64), k2: Seq<char>)
    requires
        0 <= idx < entries.len(),
        entries[idx].0@ == p.0@,
        k2 != p.0@,
    ensures
        table_lookup(entries.update(idx, p), k2) == table_lookup(entries, k2),
    decreases entries.len(),
{
    let upd = entries.update(idx, p);
    if idx == 0 {
        assert(upd.drop_first() =~= entries.drop_first());
    } else {
        assert(upd.drop_first() =~= entries.drop_first().update(idx - 1, p));
        lemma_lookup_update(entries.drop_first(), idx - 1, p, k2);
    }
}

proof fn lemma_lookup_push(entries: Seq<(String, i64)>, p: (String, i64), k2: Seq<char>)
    ensures
        table_lookup(entries.push(p), k2) == (if table_lookup(entries, k2) is Some {
            table_lookup(entries, k2)
        } else if p.0@ == k2 {
            Option::Some(p.1)
        } else {
            Option::<i64>::None
        }),
    decreases entries.len(),
{
    if entries.len() == 0 {
        assert(entries.push(p).drop_first() =~= Seq::<(String, i64)>::empty());
        assert(entries.push(p)[0] == p);
        assert(table_lookup(Seq::<(String, i64)>::empty(), k2) == Option::<i64>::None);
        assert(table_lookup(entries, k2) == Option::<i64>::None);
    } else {
        let rest = entries.drop_first();
        assert(entries.push(p)[0] == entries[0]);
        assert(entries.push(p).drop_first() =~= rest.push(p));
        lemma_lookup_push(rest, p, k2);
        if entries[0].0@ == k2 {
            assert(table_lookup(entries, k2) == Option::Some(entries[0].1));
            assert(table_lookup(entries.push(p), k2) == Option::Some(entries[0].1));
        } else {
            assert(table_lookup(entries, k2) == table_lookup(rest, k2));
            assert(table_lookup(entries.push(p), k2) == table_lookup(rest.push(p), k2));
        }
    }
}

/// A small keyed table of micro-unit values: the model of the maps from
/// parameter name or percentile label to value. Lookup is by the first
/// matching key; `insert` keeps keys unique.
pub struct NumTable {
    pub entries: Vec<(String, i64)>,
}

impl NumTable {
    /// What the table associates with `key`.
    pub open spec fn spec_get(&self, key: Seq<char>) -> Option<i64> {
        table_lookup(self.entries@, key)
    }

    pub open spec fn spec_len(&self) -> int {
        self.entries@.len() as int
    }

    pub fn new() -> (r: NumTable)
        ensures
            r.entries@.len() == 0,
            forall|k: Seq<char>| r.spec_get(k) is None,
    {
        NumTable { entries: Vec::new() }
    }

    pub fn len(&self) -> (r: usize)
        ensures
            r == self.spec_len(),
    {
        self.entries.len()
    }

    pub fn is_empty(&self) -> (r: bool)
        ensures
            r == (self.spec_len() == 0),
    {
        self.entries.len() == 0
    }

    /// Looks a key up, scanning for the first match.
    pub fn get(&self, key: &str) -> (r: Option<i64>)
        ensures
            r == self.spec_get(key@),
    {
        let owned: String = key.to_owned();
        let mut i: usize = 0;
        proof {
            assert(self.entries@.skip(0) =~= self.entries@);
        }
        while i < self.entries.len()
            invariant
                i <= self.entries@.len(),
                owned@ == key@,
                table_lookup(self.entries@, key@) == table_lookup(
                    self.entries@.skip(i as int),
                    key@,
                ),
            decreases self.entries@.len() - i,
        {
            let hit = self.entries[i].0 == owned;
            proof {
                assert(self.entries@.skip(i as int)[0] == self.entries@[i as int]);
                assert(self.entries@.skip(i as int).drop_first() =~= self.entries@.skip(
                    i as int + 1,
                ));
            }
            if hit {
                return Some(self.entries[i].1);
            }
            i += 1;
        }
        proof {
            assert(self.entries@.skip(self.entries@.len() as int) =~= Seq::<(String, i64)>::empty());
        }
        None
    }

    /// Binds `key` to `value`, replacing an existing binding of the same
    /// key and leaving every other key unchanged.
    pub fn insert(&mut self, key: String, value: i64)
        ensures
            final(self).spec_get(key@) == Option::Some(value),
            forall|k2: Seq<char>| k2 != key@ ==> final(self).spec_get(k2) == old(self).spec_get(k2),
    {
        let ghost key_view = key@;
        let mut i: usize = 0;
        while i < self.entries.len()
            invariant
                i <= self.entries@.len(),
                key@ == key_view,
                self.entries@ == old(self).entries@,
                forall|j: int| 0 <= j < i ==> self.entries@[j].0@ != key_view,
            decreases self.entries@.len() - i,
        {
            let hit = self.entries[i].0 == key;
            if hit {
                let ghost before = self.entries@;
                self.entries[i] = (key, value);
                proof {
                    assert(self.entries@ =~= before.update(i as int, self.entries@[i as int]));
                    lemma_lookup_first_match(self.entries@, key_view, i as int);
                    assert forall|k2: Seq<char>| k2 != key_view implies table_lookup(
                        self.entries@,
                        k2,
                    ) == table_lookup(before, k2) by {
                        lemma_lookup_update(before, i as int, self.entries@[i as int], k2);
                    }
                }
                return ;
            }
            i += 1;
        }
        let ghost before = self.entries@;
        proof {
            lemma_lookup_no_match(before, key_view);
        }
        self.entries.push((key, value));
        proof {
            lemma_lookup_first_match(self.entries@, key_view, before.len() as int);
            assert forall|k2: Seq<char>| k2 != key_view implies table_lookup(self.entries@, k2)
                == table_lookup(before, k2) by {
                lemma_lookup_push(before, self.entries@[before.len() as int], k2);
            }
        }
    }
}

impl Clone for NumTable {
    fn clone(&self) -> (r: NumTable)
        ensures
            r.entries@ == self.entries@,
    {
        let mut out: Vec<(String, i64)> = Vec::new();
        let mut i: usize = 0;
        while i < self.entries.len()
            invariant
                i <= self.entries@.len(),
                out@ =~= self.entries@.take(i as int),
            decreases self.entries@.len() - i,
        {
            let k = self.entries[i].0.clone();
            let v = self.entries[i].1;
            proof {
                assert(k@ == self.entries@[i as int].0@);
            }
            out.push((k, v));
            proof {
                assert(out@ =~= self.entries@.take(i as int + 1));
            }
            i += 1;
        }
        proof {
            assert(self.entries@.take(self.entries@.len() as int) =~= self.entries@);
        }
        NumTable { entries: out }
    }
}

/// The default random seed of a test specification.
pub fn default_seed() -> (r: u64)
    ensures
        r == 42,
{
    42
}

/// The default iteration count of a test specification.
pub fn default_iterations() -> (r: usize)
    ensures
        r == 10_000,
{
    10_000
}

/// Expected values from the reference validator, micro-units.
pub struct RExpected {
    pub mean: Option<i64>,
    pub std: Option<i64>,
    pub percentiles: NumTable,
}

/// Per-case tolerance override; an unset field falls back to the default.
pub struct ToleranceSpec {
    pub mean: Option<i64>,
    pub std: Option<i64>,
    pub percentiles: Option<i64>,
}

/// Analytics test specification: one named comparison case.
pub struct AnalyticsTestSpec {
    /// Test name (populated from the suite's key).
    pub name: String,
    /// Distribution type (for Monte Carlo); a spec without one is skipped.
    pub distribution: Option<String>,
    /// Parameters for the distribution, micro-units.
    pub params: NumTable,
    /// Random seed for reproducibility.
    pub seed: u64,
    /// Number of iterations.
    pub iterations: usize,
    /// Reference validator script to use.
    pub r_validator: Option<String>,
    /// Expected results from the reference validator.
    pub r_expected: Option<RExpected>,
    /// Tolerance levels.
    pub tolerance: Option<ToleranceSpec>,
}

/// Result of running a test: the terminal classification of one case.
pub enum TestResult {
    /// Test passed.
    Pass { name: String, details: String },
    /// Test failed: a genuine statistical disagreement.
    Fail { name: String, reason: String },
    /// Test errored: an external collaborator failed, not a disagreement.
    Error { name: String, error: String },
    /// Test was skipped: the case is not applicable or not constructible.
    Skip { name: String, reason: String },
}

impl TestResult {
    /// The name of the case the verdict is about.
    pub open spec fn spec_name(&self) -> Seq<char> {
        match self {
            TestResult::Pass { name, .. } => name@,
            TestResult::Fail { name, .. } => name@,
            TestResult::Error { name, .. } => name@,
            TestResult::Skip { name, .. } => name@,
        }
    }

    pub fn is_pass(&self) -> (r: bool)
        ensures
            r == (self is Pass),
    {
        match self {
            TestResult::Pass { .. } => true,
            _ => false,
        }
    }

    pub fn is_fail(&self) -> (r: bool)
        ensures
            r == (self is Fail),
    {
        match self {
            TestResult::Fail { .. } => true,
            _ => false,
        }
    }

    pub fn name(&self) -> (r: &str)
        ensures
            r@ == self.spec_name(),
    {
        match self {
            TestResult::Pass { name, .. } => name.as_str(),
            TestResult::Fail { name, .. } => name.as_str(),
            TestResult::Error { name, .. } => name.as_str(),
            TestResult::Skip { name, .. } => name.as_str(),
        }
    }
}

/// Analytics test file structure: the suite-wide default reference
/// validator, and the named test specifications in suite order.
pub struct AnalyticsTestFile {
    /// Reference validator inherited by any spec that sets none.
    pub r_validator: Option<String>,
    /// Tests in this file, keyed by name.
    pub tests: Vec<(String, AnalyticsTestSpec)>,
}

/// The fields of a resolved spec that the resolution step must not touch.
pub open spec fn same_spec_body(a: AnalyticsTestSpec, b: AnalyticsTestSpec) -> bool {
    &&& a.distribution == b.distribution
    &&& a.params == b.params
    &&& a.seed == b.seed
    &&& a.iterations == b.iterations
    &&& a.r_expected == b.r_expected
    &&& a.tolerance == b.tolerance
}

/// Resolves a loaded suite into its test specifications: each spec takes
/// its name from its key, and a spec without its own reference validator
/// inherits the suite-wide default.
pub fn resolve_suite(file: AnalyticsTestFile) -> (r: Vec<AnalyticsTestSpec>)
    ensures
        r@.len() == file.tests@.len(),
        forall|i: int|
            0 <= i < r@.len() ==> {
                &&& r@[i].name == file.tests@[i].0
                &&& same_spec_body(r@[i], file.tests@[i].1)
                &&& r@[i].r_validator == (if file.tests@[i].1.r_validator is Some {
                    file.tests@[i].1.r_validator
                } else {
                    file.r_validator
                })
            },
{
    let AnalyticsTestFile { r_validator, tests } = file;
    let ghost tests0 = tests@;
    let mut out: Vec<AnalyticsTestSpec> = Vec::new();
    let n = tests.len();
    let mut rest = tests;
    let mut consumed: usize = 0;
    while rest.len() > 0
        invariant
            n == tests0.len(),
            consumed + rest.len() == n,
            out@.len() == consumed,
            rest@ =~= tests0.skip(consumed as int),
            forall|j: int|
                0 <= j < consumed ==> {
                    &&& out@[j].name == tests0[j].0
                    &&& same_spec_body(out@[j], tests0[j].1)
                    &&& out@[j].r_validator == (if tests0[j].1.r_validator is Some {
                        tests0[j].1.r_validator
                    } else {
                        r_validator
                    })
                },
        decreases rest@.len(),
    {
        let (name, mut spec) = rest.remove(0);
        proof {
            assert(tests0.skip(consumed as int)[0] == tests0[consumed as int]);
            assert(tests0.skip(consumed as int).drop_first() =~= tests0.skip(consumed as int + 1));
        }
        spec.name = name;
        if spec.r_validator.is_none() {
            spec.r_validator = match &r_validator {
                Some(v) => Some(v.clone()),
                None => None,
            };
            proof {
                assert(spec.r_validator == r_validator);
            }
        }
        out.push(spec);
        consumed += 1;
    }
    out
}

} // verus!
