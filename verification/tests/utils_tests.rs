use sensor_fusion::utils::get_cycle_duration;
use std::time::Duration;

#[test]
fn given_frequency_expect_cycle_duration() {
    let frequency = 10;
    let expected_cycle_duration = Duration::from_millis(100);
    assert_eq!(
        u128::from(get_cycle_duration(frequency)),
        expected_cycle_duration.as_nanos()
    );
}

#[test]
fn cycle_duration_truncates_toward_zero() {
    assert_eq!(get_cycle_duration(3), 333_333_333);
    assert_eq!(get_cycle_duration(1), 1_000_000_000);
}
