//! The fan curve: ordered temperature/fan-speed control points, their
//! validation, and linear interpolation of the target speed.

use vstd::prelude::*;

verus! {

/// Highest temperature (°C) a control point may name.
pub const MAX_TEMPERATURE: u32 = 120;

/// Highest fan speed (%) a control point may name.
pub const MAX_FAN_SPEED: u32 = 100;

/// One control point of the fan curve: at `temperature` °C the fan is to
/// run at `fan_speed` percent.
#[derive(Clone, Copy, Debug, PartialEq, Eq, Structural)]
pub struct TempFanPair {
    pub temperature: u32,
    pub fan_speed: u32,
}

/// Why a curve was rejected.
#[derive(Clone, Copy, Debug, PartialEq, Eq, Structural)]
pub enum ValidationError {
    /// No control point was supplied.
    EmptyCurve,
    /// Some consecutive pair of points has non-increasing temperature.
    NonMonotonicTemperature,
    /// Some consecutive pair of points has decreasing fan speed.
    DecreasingFanSpeed,
    /// Some temperature or fan speed exceeds its bound.
    OutOfRange,
}

/// Both values of a control point are within their bounds.
pub open spec fn point_in_range(p: TempFanPair) -> bool {
    p.temperature <= MAX_TEMPERATURE && p.fan_speed <= MAX_FAN_SPEED
}

/// A well-formed curve: non-empty, strictly increasing temperatures,
/// non-decreasing fan speeds, every value within its bound.
pub open spec fn curve_wf(ps: Seq<TempFanPair>) -> bool {
    &&& ps.len() > 0
    &&& forall|i: int| 0 <= i < ps.len() ==> point_in_range(#[trigger] ps[i])
    &&& forall|i: int, j: int|
        0 <= i < j < ps.len() ==> #[trigger] ps[i].temperature < #[trigger] ps[j].temperature
            && ps[i].fan_speed <= ps[j].fan_speed
}

/// Linear interpolation between the points `l` and `u` at temperature `t`,
/// rounded to the nearest integer (ties rounding up).
pub open spec fn lerp(l: TempFanPair, u: TempFanPair, t: int) -> int
    recommends
        l.temperature < u.temperature,
        l.temperature <= t <= u.temperature,
{
    let d = u.temperature - l.temperature;
    let n = l.fan_speed * (u.temperature - t) + u.fan_speed * (t - l.temperature);
    (2 * n + d) / (2 * d)
}

/// The fan speed the curve assigns to temperature `t`, searching for the
/// bracketing pair of points from index `i` upward.
pub open spec fn interp_from(ps: Seq<TempFanPair>, i: int, t: int) -> int
    decreases ps.len() - i,
{
    if i < 1 || i >= ps.len() {
        MAX_FAN_SPEED as int
    } else if ps[i - 1].temperature <= t && t <= ps[i].temperature {
        lerp(ps[i - 1], ps[i], t)
    } else {
        interp_from(ps, i + 1, t)
    }
}

/// The fan speed the curve assigns to temperature `t`: clamped to the
/// first point's speed below the curve, to the last point's speed above
/// it, and linearly interpolated between the bracketing pair otherwise.
pub open spec fn interpolate_spec(ps: Seq<TempFanPair>, t: int) -> int
    recommends
        curve_wf(ps),
{
    if t <= ps[0].temperature {
        ps[0].fan_speed as int
    } else if t >= ps[ps.len() - 1].temperature {
        ps[ps.len() - 1].fan_speed as int
    } else {
        interp_from(ps, 1, t)
    }
}

/// The verdict of validation on the points from index `i` upward, given
/// that the points before `i` are acceptable: the first offence found,
/// examining each consecutive pair's temperatures, then its fan speeds,
/// then the newer point's bounds.
pub open spec fn check_from(ps: Seq<TempFanPair>, i: int) -> Result<(), ValidationError>
    decreases ps.len() - i,
{
    if i >= ps.len() {
        Ok(())
    } else if i >= 1 && ps[i].temperature <= ps[i - 1].temperature {
        Err(ValidationError::NonMonotonicTemperature)
    } else if i >= 1 && ps[i].fan_speed < ps[i - 1].fan_speed {
        Err(ValidationError::DecreasingFanSpeed)
    } else if !point_in_range(ps[i]) {
        Err(ValidationError::OutOfRange)
    } else {
        check_from(ps, i + 1)
    }
}

/// The verdict of validation on a prospective curve.
pub open spec fn check_spec(ps: Seq<TempFanPair>) -> Result<(), ValidationError> {
    if ps.len() == 0 {
        Err(ValidationError::EmptyCurve)
    } else {
        check_from(ps, 0)
    }
}

/// Validation of the points from `i` upward succeeds exactly when every
/// point from `i` on is in range and every consecutive pair from `i` on
/// is ordered.
proof fn lemma_check_from_ok(ps: Seq<TempFanPair>, i: int)
    requires
        0 <= i <= ps.len(),
    ensures
        check_from(ps, i) is Ok <==> (forall|j: int| i <= j < ps.len() ==> point_in_range(
            #[trigger] ps[j],
        )) && (forall|j: int|
            i <= j < ps.len() && j >= 1 ==> (#[trigger] ps[j]).temperature > ps[j
                - 1].temperature && ps[j].fan_speed >= ps[j - 1].fan_speed),
    decreases ps.len() - i,
{
    if i < ps.len() {
        lemma_check_from_ok(ps, i + 1);
    }
}

/// Chains consecutive orderedness into orderedness of any two indices.
proof fn lemma_chain_monotone(ps: Seq<TempFanPair>, i: int, j: int)
    requires
        0 <= i <= j < ps.len(),
        forall|k: int|
            0 < k < ps.len() ==> (#[trigger] ps[k]).temperature > ps[k - 1].temperature
                && ps[k].fan_speed >= ps[k - 1].fan_speed,
    ensures
        i < j ==> ps[i].temperature < ps[j].temperature,
        ps[i].fan_speed <= ps[j].fan_speed,
    decreases j - i,
{
    if i < j {
        lemma_chain_monotone(ps, i, j - 1);
    }
}

/// Validates a prospective curve: rejects an empty list, a consecutive
/// pair with non-increasing temperature or decreasing fan speed, and any
/// value beyond its bound; accepts exactly the well-formed curves.
pub fn check_temperature_fan_speed_pairs(pairs: &Vec<TempFanPair>) -> (r: Result<
    (),
    ValidationError,
>)
    ensures
        r == check_spec(pairs@),
        r is Ok <==> curve_wf(pairs@),
{
    let ghost ps = pairs@;
    proof {
        lemma_check_from_ok(ps, 0);
        if check_spec(ps) is Ok {
            assert forall|i: int, j: int| 0 <= i < j < ps.len() implies #[trigger] ps[i].temperature
                < #[trigger] ps[j].temperature && ps[i].fan_speed <= ps[j].fan_speed by {
                lemma_chain_monotone(ps, i, j);
            }
        }
    }
    let num_pairs = pairs.len();
    if num_pairs == 0 {
        return Err(ValidationError::EmptyCurve);
    }
    let mut i: usize = 0;
    while i < num_pairs
        invariant
            num_pairs == pairs@.len(),
            0 <= i <= num_pairs,
            check_from(pairs@, 0) == check_from(pairs@, i as int),
        decreases num_pairs - i,
    {
        if i >= 1 && pairs[i].temperature <= pairs[i - 1].temperature {
            return Err(ValidationError::NonMonotonicTemperature);
        }
        if i >= 1 && pairs[i].fan_speed < pairs[i - 1].fan_speed {
            return Err(ValidationError::DecreasingFanSpeed);
        }
        if pairs[i].temperature > MAX_TEMPERATURE || pairs[i].fan_speed > MAX_FAN_SPEED {
            return Err(ValidationError::OutOfRange);
        }
        i = i + 1;
    }
    Ok(())
}

/// Rounded linear interpolation stays between the two speeds it mixes.
pub proof fn lemma_lerp_bounds(l: TempFanPair, u: TempFanPair, t: int)
    requires
        l.temperature < u.temperature,
        l.temperature <= t <= u.temperature,
        l.fan_speed <= u.fan_speed,
    ensures
        l.fan_speed <= lerp(l, u, t) <= u.fan_speed,
{
    let d = u.temperature - l.temperature;
    let n = l.fan_speed * (u.temperature - t) + u.fan_speed * (t - l.temperature);
    assert(n >= l.fan_speed * d && n <= u.fan_speed * d) by (nonlinear_arith)
        requires
            d == u.temperature - l.temperature,
            n == l.fan_speed * (u.temperature - t) + u.fan_speed * (t - l.temperature),
            l.temperature <= t <= u.temperature,
            l.temperature < u.temperature,
            l.fan_speed <= u.fan_speed,
    ;
    assert(l.fan_speed <= (2 * n + d) / (2 * d) <= u.fan_speed) by (nonlinear_arith)
        requires
            d > 0,
            l.fan_speed * d <= n <= u.fan_speed * d,
            l.fan_speed >= 0,
    ;
}

/// Computes the rounded linear interpolation between two in-range points
/// whose temperatures bracket `current_temp`.
fn lerp_exec(lower: TempFanPair, upper: TempFanPair, current_temp: u32) -> (r: u32)
    requires
        point_in_range(lower),
        point_in_range(upper),
        lower.fan_speed <= upper.fan_speed,
        lower.temperature < upper.temperature,
        lower.temperature <= current_temp <= upper.temperature,
    ensures
        r as int == lerp(lower, upper, current_temp as int),
        lower.fan_speed <= r <= upper.fan_speed,
{
    let ghost t = current_temp as int;
    proof {
        lemma_lerp_bounds(lower, upper, t);
    }
    let d = (upper.temperature - lower.temperature) as u64;
    let dt_hi = (upper.temperature - current_temp) as u64;
    let dt_lo = (current_temp - lower.temperature) as u64;
    proof {
        assert((lower.fan_speed as u64) * dt_hi <= MAX_FAN_SPEED * MAX_TEMPERATURE)
            by (nonlinear_arith)
            requires
                lower.fan_speed <= MAX_FAN_SPEED,
                dt_hi <= MAX_TEMPERATURE,
        ;
        assert((upper.fan_speed as u64) * dt_lo <= MAX_FAN_SPEED * MAX_TEMPERATURE)
            by (nonlinear_arith)
            requires
                upper.fan_speed <= MAX_FAN_SPEED,
                dt_lo <= MAX_TEMPERATURE,
        ;
    }
    let n = (lower.fan_speed as u64) * dt_hi + (upper.fan_speed as u64) * dt_lo;
    ((2 * n + d) / (2 * d)) as u32
}

/// Computes the fan speed for `current_temp` from a well-formed curve:
/// the first point's speed at or below the curve, the last point's speed
/// at or above it, and the rounded linear interpolation between the
/// bracketing pair of points otherwise.
pub fn interpolate_fan_speed(temp_fan_pairs: &Vec<TempFanPair>, current_temp: u32) -> (r: u32)
    requires
        curve_wf(temp_fan_pairs@),
    ensures
        r as int == interpolate_spec(temp_fan_pairs@, current_temp as int),
        r <= MAX_FAN_SPEED,
        current_temp <= temp_fan_pairs@[0].temperature ==> r == temp_fan_pairs@[0].fan_speed,
        current_temp >= temp_fan_pairs@.last().temperature ==> r == temp_fan_pairs@.last().fan_speed,
{
    let ghost ps = temp_fan_pairs@;
    let ghost t = current_temp as int;
    let num_pairs = temp_fan_pairs.len();

    if current_temp <= temp_fan_pairs[0].temperature {
        return temp_fan_pairs[0].fan_speed;
    }
    if current_temp >= temp_fan_pairs[num_pairs - 1].temperature {
        return temp_fan_pairs[num_pairs - 1].fan_speed;
    }

    let mut i: usize = 1;
    while i < num_pairs
        invariant
            curve_wf(ps),
            ps == temp_fan_pairs@,
            t == current_temp as int,
            num_pairs == ps.len(),
            1 <= i <= num_pairs,
            ps[i - 1].temperature < t,
            t < ps[num_pairs - 1].temperature,
            interp_from(ps, 1, t) == interp_from(ps, i as int, t),
        decreases num_pairs - i,
    {
        let lower = temp_fan_pairs[i - 1];
        let upper = temp_fan_pairs[i];

        if current_temp <= upper.temperature {
            let speed = lerp_exec(lower, upper, current_temp);
            proof {
                assert(interp_from(ps, i as int, t) == lerp(lower, upper, t));
            }
            return speed;
        }
        i = i + 1;
    }
    // Never reached: the clamp branches above rule out temperatures
    // outside the curve, so some pair of points brackets `current_temp`.
    proof {
        assert(false);
    }
    MAX_FAN_SPEED
}

} // verus!
