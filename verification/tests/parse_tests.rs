use fan_control::curve::TempFanPair;
use fan_control::parse::{
    check_driver_version, parse_temperature_fan_speed_pairs, parse_temperature_fan_speed_parts,
    validate_fan_speed_update_period, ConfigError,
};

#[test]
fn parses_simple_pairs() {
    let pairs = parse_temperature_fan_speed_pairs("30:20,50:40,70:100").unwrap();
    assert_eq!(pairs.len(), 3);
    assert_eq!(pairs[0], TempFanPair { temperature: 30, fan_speed: 20 });
    assert_eq!(pairs[1], TempFanPair { temperature: 50, fan_speed: 40 });
    assert_eq!(pairs[2], TempFanPair { temperature: 70, fan_speed: 100 });
}

#[test]
fn parses_single_pair() {
    let pairs = parse_temperature_fan_speed_pairs("42:33").unwrap();
    assert_eq!(pairs, vec![TempFanPair { temperature: 42, fan_speed: 33 }]);
}

#[test]
fn parses_pairs_with_whitespace() {
    let pairs = parse_temperature_fan_speed_pairs(" 30 : 20 ,\t50:40").unwrap();
    assert_eq!(pairs.len(), 2);
    assert_eq!(pairs[0], TempFanPair { temperature: 30, fan_speed: 20 });
    assert_eq!(pairs[1], TempFanPair { temperature: 50, fan_speed: 40 });
}

#[test]
fn parses_pairs_with_plus_sign() {
    let pairs = parse_temperature_fan_speed_pairs("+30:+20").unwrap();
    assert_eq!(pairs, vec![TempFanPair { temperature: 30, fan_speed: 20 }]);
}

#[test]
fn rejects_entry_without_colon() {
    assert_eq!(
        parse_temperature_fan_speed_pairs("30"),
        Err(ConfigError::PairFormat)
    );
}

#[test]
fn rejects_entry_with_two_colons() {
    assert_eq!(
        parse_temperature_fan_speed_pairs("30:20:10"),
        Err(ConfigError::PairFormat)
    );
}

#[test]
fn rejects_empty_input() {
    assert_eq!(
        parse_temperature_fan_speed_pairs(""),
        Err(ConfigError::PairFormat)
    );
}

#[test]
fn rejects_trailing_comma() {
    assert_eq!(
        parse_temperature_fan_speed_pairs("30:20,"),
        Err(ConfigError::PairFormat)
    );
}

#[test]
fn rejects_non_numeric_temperature() {
    assert_eq!(
        parse_temperature_fan_speed_pairs("abc:20"),
        Err(ConfigError::InvalidTemperature)
    );
}

#[test]
fn rejects_non_numeric_fan_speed() {
    assert_eq!(
        parse_temperature_fan_speed_pairs("30:x"),
        Err(ConfigError::InvalidFanSpeed)
    );
}

#[test]
fn rejects_negative_temperature() {
    assert_eq!(
        parse_temperature_fan_speed_pairs("-30:20"),
        Err(ConfigError::InvalidTemperature)
    );
}

#[test]
fn rejects_huge_temperature_as_invalid() {
    assert_eq!(
        parse_temperature_fan_speed_pairs("99999999999999999999:50"),
        Err(ConfigError::InvalidTemperature)
    );
}

#[test]
fn rejects_temperature_above_limit() {
    assert_eq!(
        parse_temperature_fan_speed_pairs("121:50"),
        Err(ConfigError::TemperatureTooHigh)
    );
}

#[test]
fn rejects_fan_speed_above_limit() {
    assert_eq!(
        parse_temperature_fan_speed_pairs("50:101"),
        Err(ConfigError::FanSpeedTooHigh)
    );
}

#[test]
fn first_offending_entry_wins() {
    assert_eq!(
        parse_temperature_fan_speed_pairs("30:20,bad:40,50:101"),
        Err(ConfigError::InvalidTemperature)
    );
}

#[test]
fn parses_parts_pair() {
    assert_eq!(
        parse_temperature_fan_speed_parts(&["30", "20"]),
        Ok(TempFanPair { temperature: 30, fan_speed: 20 })
    );
    assert_eq!(
        parse_temperature_fan_speed_parts(&[" 30 ", "\t20"]),
        Ok(TempFanPair { temperature: 30, fan_speed: 20 })
    );
}

#[test]
fn rejects_wrong_number_of_parts() {
    assert_eq!(
        parse_temperature_fan_speed_parts(&["30"]),
        Err(ConfigError::PairFormat)
    );
    assert_eq!(
        parse_temperature_fan_speed_parts(&["30", "20", "10"]),
        Err(ConfigError::PairFormat)
    );
}

#[test]
fn accepts_period_within_limit() {
    assert_eq!(validate_fan_speed_update_period("2"), Ok(2));
    assert_eq!(validate_fan_speed_update_period("60"), Ok(60));
    assert_eq!(validate_fan_speed_update_period("+5"), Ok(5));
    assert_eq!(validate_fan_speed_update_period("0"), Ok(0));
}

#[test]
fn rejects_period_above_limit() {
    assert_eq!(
        validate_fan_speed_update_period("61"),
        Err(ConfigError::PeriodTooLong)
    );
}

#[test]
fn rejects_malformed_period() {
    assert_eq!(
        validate_fan_speed_update_period("abc"),
        Err(ConfigError::InvalidPeriod)
    );
    assert_eq!(
        validate_fan_speed_update_period(""),
        Err(ConfigError::InvalidPeriod)
    );
    assert_eq!(
        validate_fan_speed_update_period(" 2"),
        Err(ConfigError::InvalidPeriod)
    );
    assert_eq!(
        validate_fan_speed_update_period("99999999999999999999999"),
        Err(ConfigError::InvalidPeriod)
    );
}

#[test]
fn accepts_recent_driver() {
    assert_eq!(check_driver_version("535.104.05"), Ok(()));
    assert_eq!(check_driver_version("520.0"), Ok(()));
    assert_eq!(check_driver_version("520"), Ok(()));
}

#[test]
fn rejects_old_driver() {
    assert_eq!(check_driver_version("519.99"), Err(ConfigError::DriverTooOld));
    assert_eq!(check_driver_version("-5.0"), Err(ConfigError::DriverTooOld));
}

#[test]
fn rejects_malformed_driver_version() {
    assert_eq!(
        check_driver_version("abc.1"),
        Err(ConfigError::InvalidDriverVersion)
    );
    assert_eq!(check_driver_version(""), Err(ConfigError::InvalidDriverVersion));
    assert_eq!(
        check_driver_version(".5"),
        Err(ConfigError::InvalidDriverVersion)
    );
}
