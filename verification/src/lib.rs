//! Verified core of a range-query training-data generator.
//!
//! The engine turns a numeric table into (range, aggregate) training pairs:
//! it projects a configured subset of columns out of an in-memory matrix,
//! splits the rows into contiguous partitions for parallel work, synthesizes
//! a randomized range around every row, builds one parameterized aggregate
//! SQL statement per configuration, and reassembles the per-partition
//! results in original row order.
//!
//! Numeric cell values are carried as IEEE-754 double-precision bit
//! patterns (`u64`), so the contracts here speak of plain integers; the
//! surrounding binary converts at the boundary and performs all I/O,
//! sampling and arithmetic on the decoded values.

pub mod config;
pub mod error;
pub mod generate;
pub mod init;
pub mod matrix;
pub mod text;
