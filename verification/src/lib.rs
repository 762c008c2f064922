//! A verified model of a small GPIO firmware core: digital pin state,
//! two periodic tasks (an input poller and an output toggler), a
//! fixed-capacity cooperative scheduler driven by a monotonic clock,
//! and the one-shot bring-up sequence that wires them together.

pub mod bringup;
pub mod pin;
pub mod sched;
pub mod tasks;
