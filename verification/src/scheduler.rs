//! Per-account read and write locks, pinned to worker threads.

pub mod read_write_locks;
