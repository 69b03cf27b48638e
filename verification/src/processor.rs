//! Transfers, the instructions that carry them to the base chain, and the
//! settlement ledger that nets them.

pub mod instruction;
pub mod transaction;
pub mod settler;
