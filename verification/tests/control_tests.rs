use fan_control::control::{
    plan_iteration, record_blocked, record_write_ok, ControlAction, ControlState,
};
use fan_control::curve::TempFanPair;
use fan_control::hysteresis::HysteresisState;
use fan_control::trip::{
    trip_reason_for_event, Blocked, ProcessEvent, TrapRegistry, TripReason, TripState,
};

fn curve(points: &[(u32, u32)]) -> Vec<TempFanPair> {
    let mut v = Vec::new();
    for &(temperature, fan_speed) in points {
        v.push(TempFanPair { temperature, fan_speed });
    }
    v
}

#[test]
fn hysteresis_suppresses_drop_within_margin() {
    let mut state = HysteresisState { upper_bound: 60 };
    let effective = state.apply(57, 5, 30);
    assert_eq!(effective, 60);
    assert_eq!(state.upper_bound, 60);
}

#[test]
fn hysteresis_lets_large_drop_through() {
    let mut state = HysteresisState { upper_bound: 60 };
    let effective = state.apply(54, 5, 30);
    assert_eq!(effective, 54);
    assert_eq!(state.upper_bound, 54);
}

#[test]
fn hysteresis_adopts_rising_temperature() {
    let mut state = HysteresisState { upper_bound: 60 };
    let effective = state.apply(65, 5, 30);
    assert_eq!(effective, 65);
    assert_eq!(state.upper_bound, 65);
}

#[test]
fn hysteresis_lets_drop_through_at_curve_floor() {
    // Within the margin, but not above the curve's lowest temperature:
    // the drop passes, the ceiling stays.
    let mut state = HysteresisState { upper_bound: 60 };
    let effective = state.apply(57, 5, 57);
    assert_eq!(effective, 57);
    assert_eq!(state.upper_bound, 60);
}

#[test]
fn hysteresis_zero_margin_is_disabled() {
    let mut state = HysteresisState::new();
    assert_eq!(state.apply(50, 0, 30), 50);
    assert_eq!(state.apply(49, 0, 30), 49);
    assert_eq!(state.apply(52, 0, 30), 52);
}

#[test]
fn trip_engage_is_idempotent() {
    let mut trip = TripState::new();
    assert!(!trip.is_engaged());
    assert!(trip.try_manual_write(40).is_ok());

    let first = trip.engage(TripReason::Fault);
    assert!(first);
    assert!(trip.is_engaged());

    let second = trip.engage(TripReason::Terminate);
    assert!(!second);
    assert!(trip.is_engaged());

    assert_eq!(trip.try_manual_write(40), Err(Blocked));
    assert_eq!(trip.try_manual_write(0), Err(Blocked));
}

#[test]
fn trap_registry_installs_once() {
    let mut traps = TrapRegistry::new();
    assert!(traps.mark_installed());
    assert!(!traps.mark_installed());
    assert!(traps.installed);
}

#[test]
fn stop_requests_never_trip() {
    assert_eq!(trip_reason_for_event(ProcessEvent::Fault), Some(TripReason::Fault));
    assert_eq!(
        trip_reason_for_event(ProcessEvent::Terminate),
        Some(TripReason::Terminate)
    );
    assert_eq!(trip_reason_for_event(ProcessEvent::Stop), None);
}

#[test]
fn control_loop_end_to_end() {
    // Curve [(30,0),(80,100)], no hysteresis, raw temperatures
    // [50, 52, 49]: issued speeds [40, 44, 38], in order.
    let pairs = curve(&[(30, 0), (80, 100)]);
    let mut state = ControlState::new();
    let mut issued = Vec::new();
    for raw in [50u32, 52, 49] {
        match plan_iteration(&pairs, 0, &mut state, raw) {
            ControlAction::SetFanSpeed(speed) => {
                issued.push(speed);
                record_write_ok(&mut state, speed);
            }
            ControlAction::NoWrite => {}
        }
    }
    assert_eq!(issued, vec![40, 44, 38]);
}

#[test]
fn control_loop_skips_repeated_speed() {
    let pairs = curve(&[(30, 0), (80, 100)]);
    let mut state = ControlState::new();

    let first = plan_iteration(&pairs, 0, &mut state, 50);
    assert_eq!(first, ControlAction::SetFanSpeed(40));
    record_write_ok(&mut state, 40);

    let second = plan_iteration(&pairs, 0, &mut state, 50);
    assert_eq!(second, ControlAction::NoWrite);

    let third = plan_iteration(&pairs, 0, &mut state, 51);
    assert_eq!(third, ControlAction::SetFanSpeed(42));
}

#[test]
fn control_loop_applies_hysteresis() {
    let pairs = curve(&[(30, 0), (80, 100)]);
    let mut state = ControlState::new();

    assert_eq!(plan_iteration(&pairs, 5, &mut state, 60), ControlAction::SetFanSpeed(60));
    record_write_ok(&mut state, 60);

    // A drop within the margin keeps the effective temperature at 60,
    // so the speed repeats and no write is planned.
    assert_eq!(plan_iteration(&pairs, 5, &mut state, 57), ControlAction::NoWrite);

    // A drop beyond the margin passes through.
    assert_eq!(plan_iteration(&pairs, 5, &mut state, 54), ControlAction::SetFanSpeed(48));
}

#[test]
fn no_writes_planned_after_blocked() {
    let pairs = curve(&[(30, 0), (80, 100)]);
    let mut state = ControlState::new();

    assert_eq!(plan_iteration(&pairs, 0, &mut state, 50), ControlAction::SetFanSpeed(40));
    // The device layer answers the write with Blocked: the trip engaged.
    record_blocked(&mut state);

    for raw in [55u32, 60, 45, 80, 30] {
        assert_eq!(plan_iteration(&pairs, 0, &mut state, raw), ControlAction::NoWrite);
    }
}
