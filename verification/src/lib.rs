//! Monte Carlo estimation of pi, run by a pool of independent workers.
//!
//! The library holds the verified logic of the run: resolving the worker
//! count from command-line arguments, naming the workers, deciding the
//! order in which results are collected, and the integer bookkeeping of
//! each worker's result. The unverifiable edges (threads, random floating
//! point sampling, printing) live outside the library and hand it plain
//! values.

pub mod config;
pub mod digits;
pub mod pool;
