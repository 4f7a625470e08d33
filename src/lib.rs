//! Event-delivery core of a telemetry sink: partitioning, batching, request
//! building, retry and rate decisions, and finalization bookkeeping.
pub mod batcher;
pub mod chronicle;
pub mod delivery;
pub mod event;
pub mod finalize;
pub mod gelf;
pub mod outside;
pub mod request;
pub mod sink;
pub mod template;
pub mod vector_source;
