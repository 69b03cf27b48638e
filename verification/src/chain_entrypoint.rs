//! How transactions enter the rollup: account privileges per instruction,
//! and the path from submission through the queues to thread scheduling.

pub mod transaction_context;
pub mod tx_entrypoint;
