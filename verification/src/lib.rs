//! A span-collection and batching engine for distributed tracing.
//!
//! The library records causal trees of timed operations ("spans"), stitches
//! spans produced on different threads into one trace, bounds the memory a
//! trace may take, and schedules delivery of finished span records to a
//! reporter in batches.
//!
//! All state is explicit: per-thread recording state lives in a
//! [`local::LocalStack`] value, the process-wide aggregation state in a
//! [`collector::GlobalCollector`] value, and every operation that needs the
//! clock takes the current time as an argument. An embedding wraps these in
//! its own thread-local and global cells and supplies the real clock.

#![allow(non_camel_case_types)]

pub mod collector;
pub mod local;
pub mod record;
pub mod span;
