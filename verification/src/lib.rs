//! Verified core of a concurrent load generator.
//!
//! The crate covers the logic of a load-testing run: splitting a total
//! number of work units fairly over a set of workers, classifying the
//! outcome of each HTTP call or WebSocket session into a result record,
//! aggregating those records into latency and outcome statistics, and
//! deriving the final summary. Network transport, task spawning and
//! report printing live outside the library and exchange plain values
//! with it.

pub mod aggregate;
pub mod config;
pub mod distribute;
pub mod histogram;
pub mod outcome;
pub mod summary;
pub mod text;
