//! Verified core of a rollup sequencer: account locks per worker thread,
//! transaction line-up queues, fee-payer pools, in-memory account stores
//! and the settlement ledger that nets transfers before they reach the
//! base chain.

pub mod assoc_map;
pub mod pubkey;
pub mod scheduler;
pub mod processor;
pub mod line_up_queue;
pub mod pool;
pub mod per_db;
pub mod users_handler;
pub mod accounts_db;
pub mod chain_entrypoint;
