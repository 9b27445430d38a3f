//! A distributed, checkpointable vertex-centric graph-processing engine.
//!
//! A job describes an input graph and an iterative algorithm; the engine
//! partitions the graph across workers, runs the algorithm as a sequence of
//! bulk-synchronous supersteps, exchanges per-vertex messages between
//! supersteps via a driver-coordinated shuffle, keeps per-worker graph
//! state with snapshot checkpointing, and supports checkpoint/restart of an
//! in-flight job.

pub mod error;
pub mod types;
pub mod wire;
pub mod protocol;
pub mod partition;
pub mod shuffle;
pub mod state;
pub mod algorithm;
pub mod worker;
pub mod driver;
pub mod scheduler;
pub mod config;
pub mod checkpoint;
pub mod plan;
pub mod master;
pub mod jobs;
pub mod graph;
pub mod wcc;
pub mod stream;
pub mod pipeline;
pub mod http;
