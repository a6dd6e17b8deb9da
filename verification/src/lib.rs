//! A fixed-size worker pool, specified and verified over its protocol:
//! a FIFO queue of submitted tasks, a fixed set of workers that claim and
//! run them one at a time, and a two-phase shutdown that closes the queue
//! and lets every worker drain it before terminating.

pub mod pool;
pub mod worker;
