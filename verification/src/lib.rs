//! A bounded, coordinate-ordered window over a live stream of measurements.
//!
//! The window retains only the most recent contiguous run of measurements
//! whose coordinates lie within a fixed look-behind interval of the newest
//! coordinate, and resets whenever the coordinate regresses.

pub mod measurements;
pub mod shared;
