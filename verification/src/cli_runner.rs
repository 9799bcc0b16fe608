//! Models of the target-engine invocation: the command to run, its
//! configuration, and the statistics extracted from its output.
//!
//! The engine itself runs as an external process; the shell around this
//! library spawns it, parses its output, and hands the extracted statistics
//! in as plain micro-unit values.

use vstd::prelude::*;

use crate::types::NumTable;

verus! {

/// A target-engine command to execute.
pub struct ForgeCommand {
    /// Command name (e.g., "simulate", "tornado").
    pub cmd: String,
    /// Command arguments.
    pub args: Vec<String>,
    /// Path to the fixture file.
    pub fixture: String,
}

/// Summary statistics from analytics output, micro-units.
pub struct Stats {
    /// Mean value.
    pub mean: Option<i64>,
    /// Standard deviation.
    pub std: Option<i64>,
    /// Percentiles, keyed by decimal percentile label.
    pub percentiles: NumTable,
    /// Sample values (for the KS test).
    pub samples: Vec<i64>,
}

impl Default for Stats {
    /// An empty statistics record: nothing measured.
    fn default() -> (r: Stats)
        ensures
            r.mean is None,
            r.std is None,
            r.percentiles.spec_len() == 0,
            r.samples@.len() == 0,
    {
        Stats { mean: None, std: None, percentiles: NumTable::new(), samples: Vec::new() }
    }
}

impl Clone for Stats {
    fn clone(&self) -> (r: Stats)
        ensures
            r.mean == self.mean,
            r.std == self.std,
            r.percentiles.entries@ == self.percentiles.entries@,
            r.samples@ == self.samples@,
    {
        Stats {
            mean: self.mean,
            std: self.std,
            percentiles: self.percentiles.clone(),
            samples: self.samples.clone(),
        }
    }
}

/// Output from a target-engine analytics command, with the statistics
/// already extracted from it.
pub struct AnalyticsOutput {
    /// Parsed summary statistics, if the output held any.
    pub stats: Option<Stats>,
    /// Exit code.
    pub exit_code: i32,
    /// Stderr output.
    pub stderr: String,
}

/// Configuration for the target-engine runner.
pub struct RunnerConfig {
    /// Path to the engine binary.
    pub forge_bin: String,
    /// Timeout for command execution, milliseconds.
    pub timeout_ms: u64,
    /// Working directory, if any.
    pub working_dir: Option<String>,
}

impl Default for RunnerConfig {
    /// The engine binary is found on the search path by default, with a
    /// thirty-second timeout.
    fn default() -> (r: RunnerConfig)
        ensures
            r.forge_bin@ == "forge"@,
            r.timeout_ms == 30_000,
            r.working_dir is None,
    {
        RunnerConfig { forge_bin: "forge".to_owned(), timeout_ms: 30_000, working_dir: None }
    }
}

} // verus!
