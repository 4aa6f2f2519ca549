//! Timed light patterns for a bank of digital output pins.
//!
//! The library decides what a device is asked to do and in which order: every
//! pattern is a sequence of [`step::Step`]s, each of which configures a pin,
//! drives a pin high or low, or pauses. Performing the steps on hardware is
//! left to the caller.

pub mod blocks;
pub mod demo;
pub mod engine;
pub mod laws;
pub mod observe;
pub mod script;
pub mod step;
