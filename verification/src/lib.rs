//! Statistical aggregation engine for repeated web-performance measurements.
//!
//! The library collects per-run numeric metrics for a page into a
//! [`metrics::PSIResultValues`] set, computes descriptive statistics (mean,
//! population variance, standard deviation, 95% confidence interval, median)
//! over each metric, and models the batch orchestration that retries failed
//! pages. Samples are fixed-point integers; statistics are exact rationals.

use vstd::prelude::*;

pub mod metrics;
pub mod naming;
pub mod orchestrator;
pub mod rational;
pub mod statistics;
pub mod urls;

verus! {

/// Errors surfaced by the library instead of panicking or dividing by zero.
#[derive(Clone, Copy, Debug, PartialEq, Eq, Structural)]
pub enum PsiError {
    /// A statistic was requested over zero samples.
    InsufficientData,
    /// A page URL could not be parsed, so no request URL can be built for it.
    InvalidUrl,
}

} // verus!
