//! Hysteresis filtering of the temperature signal: a falling temperature
//! only lowers the effective temperature once it has dropped by more than
//! the configured margin below the last recorded ceiling.

use vstd::prelude::*;

verus! {

/// The sticky temperature ceiling recorded by the filter.
#[derive(Clone, Copy, Debug, PartialEq, Eq, Structural)]
pub struct HysteresisState {
    pub upper_bound: u32,
}

/// The raw sample `t` lies inside the hysteresis band below the ceiling
/// `ub`: it dropped, but by no more than `margin`.
pub open spec fn hyst_in_band(ub: u32, t: u32, margin: u32) -> bool {
    t < ub && t + margin >= ub
}

/// The effective temperature the filter reports: a drop within the band
/// is suppressed (the stale ceiling is reported) while the sample is
/// still above the curve's lowest temperature `floor`; any other sample
/// passes through unchanged.
pub open spec fn hyst_effective(ub: u32, t: u32, margin: u32, floor: u32) -> u32 {
    if hyst_in_band(ub, t, margin) {
        if t > floor {
            ub
        } else {
            t
        }
    } else {
        t
    }
}

/// The ceiling after a sample: kept while the sample stays within the
/// band, adopted from the sample otherwise (it rose, or fell beyond the
/// margin).
pub open spec fn hyst_next(ub: u32, t: u32, margin: u32) -> u32 {
    if hyst_in_band(ub, t, margin) {
        ub
    } else {
        t
    }
}

impl HysteresisState {
    /// A fresh filter with no ceiling recorded yet.
    pub fn new() -> (s: Self)
        ensures
            s.upper_bound == 0,
    {
        HysteresisState { upper_bound: 0 }
    }

    /// Feeds one raw temperature sample through the filter, updating the
    /// ceiling and returning the effective temperature to look up in the
    /// curve.  A margin of zero disables the filter: the effective
    /// temperature then always equals the raw sample.
    pub fn apply(
        &mut self,
        raw_temperature: u32,
        hysteresis_margin: u32,
        floor_temperature: u32,
    ) -> (effective: u32)
        ensures
            effective == hyst_effective(
                old(self).upper_bound,
                raw_temperature,
                hysteresis_margin,
                floor_temperature,
            ),
            final(self).upper_bound == hyst_next(
                old(self).upper_bound,
                raw_temperature,
                hysteresis_margin,
            ),
            hysteresis_margin == 0 ==> effective == raw_temperature,
    {
        let in_band = raw_temperature < self.upper_bound && raw_temperature as u64
            + hysteresis_margin as u64 >= self.upper_bound as u64;
        if in_band {
            if raw_temperature > floor_temperature {
                self.upper_bound
            } else {
                raw_temperature
            }
        } else {
            self.upper_bound = raw_temperature;
            raw_temperature
        }
    }
}

} // verus!
