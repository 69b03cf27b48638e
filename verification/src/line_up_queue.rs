//! Queues that line transactions up for scheduling.

pub mod line_up_queue;
