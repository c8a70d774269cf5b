//! The configuration the controller runs under, as plain values.  The
//! process's argument parser fills one of these in and hands it over.

use vstd::prelude::*;

verus! {

/// Everything the controller can be told at startup.
#[derive(Clone, Debug)]
pub struct Cli {
    /// GPU index.
    pub index: u32,
    /// Core clock offset (MHz).
    pub core_clock_offset: Option<i32>,
    /// Memory clock offset (MHz).
    pub memory_clock_offset: Option<i32>,
    /// Power limit (W).
    pub power_limit: Option<u32>,
    /// Temperature (°C) and fan speed (%) pairs in the format
    /// `temp1:fan1,temp2:fan2,...`.
    pub pairs: Option<String>,
    /// Fan speed update period (s).
    pub fan_speed_update_period: u64,
    /// Temperature hysteresis (°C).
    pub temperature_hysteresis: u32,
}

} // verus!
