//! Fee-payer pools that pay the base-chain fees of settlements.

pub mod pool;
