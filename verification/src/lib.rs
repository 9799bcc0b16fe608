//! Statistical agreement engine for cross-validating a stochastic analytics
//! engine against an independent statistical reference implementation.
//!
//! Two implementations of the same probabilistic computation never agree
//! bit-for-bit, so agreement is defined statistically: a tolerance model for
//! scalar statistics, a two-sample Kolmogorov-Smirnov comparison for whole
//! samples, and an orchestration state machine that turns a declarative test
//! specification into a Pass / Fail / Error / Skip verdict.
//!
//! All statistics and tolerance fractions are carried as fixed-point values
//! in micro-units (one unit is `1e-6`), so that every comparison and every
//! formula is exact integer arithmetic with a proved contract. The thin
//! process-running shell around this library converts its floating-point
//! inputs to micro-units at the boundary.

pub mod cli_runner;
pub mod format;
pub mod orchestrator;
pub mod r_validator;
pub mod stats;
pub mod types;
