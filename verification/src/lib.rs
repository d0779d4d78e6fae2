//! A verified frame-pacing controller core: an event-driven decision
//! loop that turns per-frame jank telemetry into bounded-latency
//! control actions, with a hot-reloadable configuration document, a
//! bounded-staleness control-node store, per-producer sliding-window
//! policy evaluation, and priority resolution across producers.
//!
//! The embedding process supplies the outside world — file and
//! process I/O, the telemetry channel, threads, and the performance
//! controller backend — and drives [`looper::Looper::process`] one
//! cycle at a time.

pub mod error;
pub mod text;
pub mod config;
pub mod node;
pub mod policy;
pub mod buffer;
pub mod looper;
pub mod topapp;
