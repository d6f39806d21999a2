//! Core of a satellite orbital-propagation service.
//!
//! The crate owns the parts of the service that are pure data logic: decoding
//! and validating Two-Line Element (TLE) sets, converting a TLE epoch to a
//! Unix instant, laying out the uniform time grid of a trajectory sweep, and
//! running the visibility state machine that turns a series of look angles
//! into AOS/TCA/LOS passes.  Angles cross this boundary as integers in
//! micro-degrees, altitudes in millimetres, times as Unix seconds, so that
//! every rule here is stated and proved exactly.  The floating-point orbital
//! mechanics (SGP4 itself, frame rotations, geodesy) live with the callers
//! that host them.

pub mod error;
pub mod metrics;
pub mod tle;
pub mod epoch;
pub mod trajectory;
pub mod visibility;
pub mod validate;
