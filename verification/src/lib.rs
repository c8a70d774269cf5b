//! Closed-loop fan-speed control for a GPU-class device.
//!
//! The library holds the safety-critical decision logic of the controller:
//! validation of the temperature/fan-speed curve, linear interpolation of
//! the target speed, hysteresis filtering of the temperature signal, the
//! one-shot safety trip that permanently blocks manual fan writes, and the
//! per-iteration planning of the control loop.  Device access, signal
//! handling and argument parsing live outside the library and only hand
//! plain values in and out.

pub mod cli;
pub mod control;
pub mod curve;
pub mod hysteresis;
pub mod parse;
pub mod trip;

pub use curve::TempFanPair;
