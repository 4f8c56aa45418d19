//! Result-processing layer of a database wire-protocol client.
//!
//! Given the ordered sequence of decoded protocol events produced by
//! executing one batch, this library reconstructs the logical structure of
//! zero or more result sets, each with its own column schema and rows, and
//! exposes it through a pull-based interface. A sibling multiplexer sums
//! per-statement affected-row counts for row-count-only batches.

pub mod execute;
pub mod query;
pub mod source;
pub mod token;
