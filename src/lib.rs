//! Control and hand-off logic of a live-steered sine tone generator.
//!
//! A line-oriented control source names raw control values; the control loop
//! turns each line into an action, and frequencies travel to the real-time
//! audio callback through a bounded single-producer / single-consumer channel
//! whose consumer drains it with a bounded, coalescing loop.

pub mod channel;
pub mod control_line;
pub mod control_loop;
