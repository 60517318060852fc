//! A fixed-size worker pool: the shared job queue, the state of each worker and
//! the decisions that workers and submitters make, with their contracts.
//! The threads that run the jobs are started and driven by the host program.
pub mod http;
pub mod laws;
pub mod pool;
pub mod worker;
