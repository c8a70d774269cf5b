//! The control loop's per-iteration decisions: filter the temperature,
//! consult the curve, and decide whether a manual fan-speed write is due.
//! The surrounding process performs the writes and reports their outcome
//! back; once a write is reported blocked, no further write is ever
//! planned.

use vstd::prelude::*;

use crate::curve::{curve_wf, interpolate_fan_speed, interpolate_spec, TempFanPair};
use crate::hysteresis::{hyst_effective, hyst_next, HysteresisState};

verus! {

/// What the loop asks the device layer to do this iteration.
#[derive(Clone, Copy, Debug, PartialEq, Eq, Structural)]
pub enum ControlAction {
    /// Write this speed (%) to every fan, past the safety-trip guard.
    SetFanSpeed(u32),
    /// Touch nothing: the computed speed is already applied, or writes
    /// are blocked for good.
    NoWrite,
}

/// The loop-local state: the hysteresis ceiling, the last speed whose
/// write succeeded, and whether a write has come back blocked.
#[derive(Clone, Copy, Debug)]
pub struct ControlState {
    pub hysteresis: HysteresisState,
    pub last_applied: Option<u32>,
    pub blocked: bool,
}

/// The action an iteration plans: nothing once blocked; otherwise the
/// curve's speed for the filtered temperature, and a write only when that
/// speed differs from the last applied one.
pub open spec fn plan_action(
    ps: Seq<TempFanPair>,
    margin: u32,
    s: ControlState,
    raw: u32,
) -> ControlAction
    recommends
        curve_wf(ps),
{
    if s.blocked {
        ControlAction::NoWrite
    } else {
        let eff = hyst_effective(s.hysteresis.upper_bound, raw, margin, ps[0].temperature);
        let speed = interpolate_spec(ps, eff as int) as u32;
        if s.last_applied == Some(speed) {
            ControlAction::NoWrite
        } else {
            ControlAction::SetFanSpeed(speed)
        }
    }
}

/// The loop state after an iteration's planning: unchanged once blocked,
/// otherwise the hysteresis ceiling advances.
pub open spec fn plan_next(
    ps: Seq<TempFanPair>,
    margin: u32,
    s: ControlState,
    raw: u32,
) -> ControlState {
    if s.blocked {
        s
    } else {
        ControlState {
            hysteresis: HysteresisState {
                upper_bound: hyst_next(s.hysteresis.upper_bound, raw, margin),
            },
            ..s
        }
    }
}

impl ControlState {
    /// The state the loop starts from: no ceiling, no speed applied yet,
    /// writes permitted.
    pub fn new() -> (s: Self)
        ensures
            s.hysteresis.upper_bound == 0,
            s.last_applied is None,
            !s.blocked,
    {
        ControlState { hysteresis: HysteresisState::new(), last_applied: None, blocked: false }
    }
}

/// Plans one iteration of the control loop for the raw temperature just
/// read: feeds it through the hysteresis filter and the curve and asks
/// for a write exactly when the computed speed is news.  Once the state
/// is blocked, nothing is planned and nothing changes.
pub fn plan_iteration(
    temp_fan_pairs: &Vec<TempFanPair>,
    hysteresis_margin: u32,
    state: &mut ControlState,
    raw_temperature: u32,
) -> (action: ControlAction)
    requires
        curve_wf(temp_fan_pairs@),
    ensures
        action == plan_action(temp_fan_pairs@, hysteresis_margin, *old(state), raw_temperature),
        *final(state) == plan_next(temp_fan_pairs@, hysteresis_margin, *old(state), raw_temperature),
        old(state).blocked ==> action is NoWrite && *final(state) == *old(state),
{
    if state.blocked {
        return ControlAction::NoWrite;
    }
    let floor = temp_fan_pairs[0].temperature;
    let effective = state.hysteresis.apply(raw_temperature, hysteresis_margin, floor);
    let speed = interpolate_fan_speed(temp_fan_pairs, effective);
    let is_news = match state.last_applied {
        Some(last) => last != speed,
        None => true,
    };
    if is_news {
        ControlAction::SetFanSpeed(speed)
    } else {
        ControlAction::NoWrite
    }
}

/// Records that the planned write was performed: the speed is now the
/// last applied one.
pub fn record_write_ok(state: &mut ControlState, speed: u32)
    ensures
        *final(state) == (ControlState { last_applied: Some(speed), ..*old(state) }),
{
    state.last_applied = Some(speed);
}

/// Records that the planned write came back `Blocked`: the safety trip is
/// engaged, and the loop must never attempt a manual write again.
pub fn record_blocked(state: &mut ControlState)
    ensures
        *final(state) == (ControlState { blocked: true, ..*old(state) }),
{
    state.blocked = true;
}

/// One whole iteration at the model level, `reply_blocked` telling
/// whether the device layer answered a planned write with `Blocked`.
pub open spec fn run_step(
    ps: Seq<TempFanPair>,
    margin: u32,
    s: ControlState,
    raw: u32,
    reply_blocked: bool,
) -> ControlState {
    let planned = plan_next(ps, margin, s, raw);
    match plan_action(ps, margin, s, raw) {
        ControlAction::SetFanSpeed(v) => if reply_blocked {
            ControlState { blocked: true, ..planned }
        } else {
            ControlState { last_applied: Some(v), ..planned }
        },
        ControlAction::NoWrite => planned,
    }
}

/// The model state after the first `n` iterations over the raw samples
/// `raws` with the device layer's replies `replies`.
pub open spec fn run_from(
    ps: Seq<TempFanPair>,
    margin: u32,
    s: ControlState,
    raws: Seq<u32>,
    replies: Seq<bool>,
    n: int,
) -> ControlState
    decreases n,
{
    if n <= 0 {
        s
    } else {
        run_step(ps, margin, run_from(ps, margin, s, raws, replies, n - 1), raws[n - 1], replies[n
            - 1])
    }
}

/// Once the loop is blocked it stays blocked, whatever temperatures are
/// read and whatever the device layer replies.
pub proof fn lemma_blocked_is_permanent(
    ps: Seq<TempFanPair>,
    margin: u32,
    s: ControlState,
    raws: Seq<u32>,
    replies: Seq<bool>,
    k: int,
    n: int,
)
    requires
        0 <= k <= n,
        run_from(ps, margin, s, raws, replies, k).blocked,
    ensures
        run_from(ps, margin, s, raws, replies, n).blocked,
    decreases n - k,
{
    if k < n {
        lemma_blocked_is_permanent(ps, margin, s, raws, replies, k + 1, n);
    }
}

/// Once the loop observes `Blocked` — its state at some iteration `k` is
/// blocked — no later iteration ever plans a fan-speed write.
pub proof fn lemma_no_writes_after_blocked(
    ps: Seq<TempFanPair>,
    margin: u32,
    s: ControlState,
    raws: Seq<u32>,
    replies: Seq<bool>,
    k: int,
)
    requires
        0 <= k <= raws.len(),
        run_from(ps, margin, s, raws, replies, k).blocked,
    ensures
        forall|n: int|
            k <= n < raws.len() ==> plan_action(
                ps,
                margin,
                run_from(ps, margin, s, raws, replies, n),
                raws[n],
            ) is NoWrite,
{
    assert forall|n: int| k <= n < raws.len() implies plan_action(
        ps,
        margin,
        run_from(ps, margin, s, raws, replies, n),
        raws[n],
    ) is NoWrite by {
        lemma_blocked_is_permanent(ps, margin, s, raws, replies, k, n);
    }
}

} // verus!
