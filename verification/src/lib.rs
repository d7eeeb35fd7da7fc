//! Volatility of a chain's per-block base fee over a span of blocks.
//!
//! The crate holds the decisions of the job: which block a timestamp
//! resolves to, how a range of blocks is cut into batches and put together,
//! how a series is continued with synthetic blocks, and which pairs of fees
//! enter the return sample. A driver performs the network calls between the
//! decisions, and the floating-point statistic on the sample.

pub mod block;
pub mod fetch;
pub mod job;
pub mod locate;
pub mod synthetic;
pub mod volatility;
