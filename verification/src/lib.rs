//! A task-scheduling simulation, as a verified library: tasks and workload
//! configurations, the dispatching manager with its two policies and its CPU cap,
//! and the metrics gathered over a run.
//!
//! Times are plain nanosecond counts measured from one origin chosen by the caller.

pub mod task;

pub mod metrics;

pub mod manager;
