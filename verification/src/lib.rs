//! Monte Carlo estimation of pi by dart throwing, with the arithmetic that
//! surrounds the sampling proved correct.
//!
//! The crate holds the parts of the estimator that are exact: how a sample
//! budget is dealt over workers ([`partition`]), how many workers a run gets
//! ([`schedule`]), how distances are classified and counted ([`estimate`]),
//! and how the batches of concurrent workers are joined ([`reduce`]).
//! Drawing the samples and printing the result are left to the caller.

pub mod estimate;
pub mod partition;
mod rearrange;
pub mod reduce;
pub mod schedule;
