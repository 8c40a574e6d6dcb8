//! A batch file processor built around a fixed-size worker pool.
//!
//! The crate models the concurrent core of the processor — the job queue
//! protocol of the pool, the dispatcher that feeds it while watching a
//! cooperative cancellation flag, and the progress-event stream — together
//! with the pure per-file statistics. Everything here is verified; the
//! thin runtime around it (threads, channels, file reads) lives outside
//! the library and drives these functions.

pub mod analyzer;
pub mod processor;
pub mod thread_pool;
