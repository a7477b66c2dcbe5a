//! Streaming indicators over a fixed-size window of samples.
//!
//! A sample is an `i64`: a price or a volume in fixed-point units of the
//! caller's choice. Every indicator offers the same four operations: a
//! constructor that takes the window size, `next` to push a sample, `update`
//! to revise the newest sample, and `reset` to blank the window.

pub mod hhv;
pub mod llv;
pub mod moving_average;
pub mod window;

pub use hhv::HHV;
pub use llv::LLV;
pub use moving_average::MovingAverage;
