//! Per-application records of the signatures of its transactions.

pub mod per_db;
