//! Audio threshold monitor core.
//!
//! Levels are carried in fixed point: decibels in thousandths (milli-dB,
//! `i32`) and linear amplitudes in millionths of full scale (micro-
//! amplitude, `u32`, so full scale is 1_000_000). All of the monitoring
//! logic — peak metering, display smoothing, edge-triggered threshold
//! detection, and the shared snapshot that a consumer loop polls — works
//! on these integer values; conversion from raw device samples to
//! micro-amplitudes is the caller's concern.

pub mod args;
pub mod detector;
pub mod level;
pub mod monitor;
pub mod smoothing;
pub mod state;
