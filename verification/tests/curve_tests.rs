use fan_control::curve::{
    check_temperature_fan_speed_pairs, interpolate_fan_speed, TempFanPair, ValidationError,
};

fn curve(points: &[(u32, u32)]) -> Vec<TempFanPair> {
    let mut v = Vec::new();
    for &(temperature, fan_speed) in points {
        v.push(TempFanPair { temperature, fan_speed });
    }
    v
}

#[test]
fn interpolation_between_points() {
    let pairs = curve(&[(30, 20), (50, 40), (70, 100)]);
    assert_eq!(interpolate_fan_speed(&pairs, 40), 30);
    assert_eq!(interpolate_fan_speed(&pairs, 60), 70);
}

#[test]
fn interpolation_clamps_below_minimum_point() {
    let pairs = curve(&[(30, 20), (50, 40), (70, 100)]);
    assert_eq!(interpolate_fan_speed(&pairs, 0), 20);
    assert_eq!(interpolate_fan_speed(&pairs, 29), 20);
    assert_eq!(interpolate_fan_speed(&pairs, 30), 20);
}

#[test]
fn interpolation_clamps_above_maximum_point() {
    let pairs = curve(&[(30, 20), (50, 40), (70, 100)]);
    assert_eq!(interpolate_fan_speed(&pairs, 70), 100);
    assert_eq!(interpolate_fan_speed(&pairs, 71), 100);
    assert_eq!(interpolate_fan_speed(&pairs, 120), 100);
}

#[test]
fn interpolation_hits_control_points_exactly() {
    let pairs = curve(&[(30, 20), (50, 40), (70, 100)]);
    assert_eq!(interpolate_fan_speed(&pairs, 50), 40);
}

#[test]
fn interpolation_rounds_to_nearest() {
    // Between (0,0) and (3,1): at 1 the exact value is 1/3, at 2 it is 2/3.
    let pairs = curve(&[(0, 0), (3, 1)]);
    assert_eq!(interpolate_fan_speed(&pairs, 1), 0);
    assert_eq!(interpolate_fan_speed(&pairs, 2), 1);
    // Between (0,0) and (2,1): at 1 the exact value is 1/2, rounded up.
    let pairs = curve(&[(0, 0), (2, 1)]);
    assert_eq!(interpolate_fan_speed(&pairs, 1), 1);
}

#[test]
fn single_point_curve_is_constant() {
    let pairs = curve(&[(42, 33)]);
    assert_eq!(interpolate_fan_speed(&pairs, 0), 33);
    assert_eq!(interpolate_fan_speed(&pairs, 42), 33);
    assert_eq!(interpolate_fan_speed(&pairs, 100), 33);
}

#[test]
fn validation_rejects_non_increasing_temperature() {
    let pairs = curve(&[(50, 10), (40, 20)]);
    assert_eq!(
        check_temperature_fan_speed_pairs(&pairs),
        Err(ValidationError::NonMonotonicTemperature)
    );
}

#[test]
fn validation_rejects_decreasing_fan_speed() {
    let pairs = curve(&[(40, 30), (50, 20)]);
    assert_eq!(
        check_temperature_fan_speed_pairs(&pairs),
        Err(ValidationError::DecreasingFanSpeed)
    );
}

#[test]
fn validation_accepts_equal_fan_speeds() {
    let pairs = curve(&[(40, 20), (50, 20), (60, 40)]);
    assert_eq!(check_temperature_fan_speed_pairs(&pairs), Ok(()));
}

#[test]
fn validation_rejects_empty_curve() {
    let pairs: Vec<TempFanPair> = Vec::new();
    assert_eq!(
        check_temperature_fan_speed_pairs(&pairs),
        Err(ValidationError::EmptyCurve)
    );
}

#[test]
fn validation_rejects_out_of_range_values() {
    let pairs = curve(&[(121, 50)]);
    assert_eq!(
        check_temperature_fan_speed_pairs(&pairs),
        Err(ValidationError::OutOfRange)
    );
    let pairs = curve(&[(50, 101)]);
    assert_eq!(
        check_temperature_fan_speed_pairs(&pairs),
        Err(ValidationError::OutOfRange)
    );
}

#[test]
fn validation_accepts_boundary_values() {
    let pairs = curve(&[(0, 0), (120, 100)]);
    assert_eq!(check_temperature_fan_speed_pairs(&pairs), Ok(()));
    assert_eq!(interpolate_fan_speed(&pairs, 120), 100);
    assert_eq!(interpolate_fan_speed(&pairs, 0), 0);
}

#[test]
fn validation_rejects_equal_temperatures() {
    let pairs = curve(&[(50, 10), (50, 20)]);
    assert_eq!(
        check_temperature_fan_speed_pairs(&pairs),
        Err(ValidationError::NonMonotonicTemperature)
    );
}
