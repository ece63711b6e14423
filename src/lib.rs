//! Network quality measurement between a probing client and a reflecting hub:
//! the probe message, the per-session state kept by both endpoints, and the
//! decisions of the transmitter and of the analyzers.
//!
//! All timestamps are microseconds on a process-local clock.

pub mod timing;
pub mod keyed;
pub mod factor;
pub mod message;
pub mod hub;
pub mod client;
pub mod pacing;
