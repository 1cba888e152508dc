use sensor_fusion::data::{Data, Telemetry};
use sensor_fusion::errors::EstimatorError;
use sensor_fusion::estimators::initialize_state_using_gps_data;
use sensor_fusion::estimators::kalman::{KalmanConfig, KalmanFilter};
use sensor_fusion::estimators::inertial_navigator::InertialNavigator;
use sensor_fusion::frac::Rational;
use sensor_fusion::matrix::Matrix;
use std::sync::mpsc;

fn sample(x: i64, y: i64, z: i64, timestamp: u64) -> Data {
    Data {
        x: Rational::from_int(x),
        y: Rational::from_int(y),
        z: Rational::from_int(z),
        timestamp,
    }
}

#[test]
fn initialize_state_using_gps_data_happy_path_test() {
    let mut gps_samples_received: u32 = 0;
    let mut state = Matrix::zeros(6, 1);
    let mut prev_gps_data = sample(0, 0, 0, 0);

    // Acceleration samples make no bootstrap progress.
    let telemetry_from_imu = Telemetry::Acceleration(sample(9, 9, 9, 500));
    initialize_state_using_gps_data(
        &telemetry_from_imu,
        &mut gps_samples_received,
        &mut state,
        &mut prev_gps_data,
    )
    .unwrap();
    assert_eq!(gps_samples_received, 0);

    // First fix: recorded, state untouched.
    let first = Telemetry::Position(sample(0, 0, 0, 1_000_000_000));
    initialize_state_using_gps_data(
        &first,
        &mut gps_samples_received,
        &mut state,
        &mut prev_gps_data,
    )
    .unwrap();
    assert_eq!(gps_samples_received, 1);
    assert_eq!(state.get(0, 0), Rational::from_int(0));

    // Second fix one second later: positions from the fix, velocities from
    // the finite difference.
    let second = Telemetry::Position(sample(1, 1, 1, 2_000_000_000));
    initialize_state_using_gps_data(
        &second,
        &mut gps_samples_received,
        &mut state,
        &mut prev_gps_data,
    )
    .unwrap();
    assert_eq!(gps_samples_received, 2);
    for i in 0..6 {
        assert_eq!(state.get(i, 0), Rational::from_int(1));
    }
}

#[test]
fn bootstrap_refuses_clock_going_backwards() {
    let mut gps_samples_received: u32 = 0;
    let mut state = Matrix::zeros(6, 1);
    let mut prev_gps_data = sample(0, 0, 0, 0);

    let first = Telemetry::Position(sample(0, 0, 0, 2_000_000_000));
    initialize_state_using_gps_data(
        &first,
        &mut gps_samples_received,
        &mut state,
        &mut prev_gps_data,
    )
    .unwrap();

    let second = Telemetry::Position(sample(1, 1, 1, 1_000_000_000));
    let err = initialize_state_using_gps_data(
        &second,
        &mut gps_samples_received,
        &mut state,
        &mut prev_gps_data,
    )
    .unwrap_err();
    assert_eq!(err, EstimatorError::TimeNotIncreasing);
    assert_eq!(gps_samples_received, 1);
    assert_eq!(state.get(0, 0), Rational::from_int(0));
}

#[test]
fn test_new_inertial_navigator() {
    let (tx, _rx) = mpsc::channel();
    let inertial_navigator = InertialNavigator::new(vec![tx], 20).unwrap();
    // A couples each position to its velocity through the nominal period.
    assert_eq!(inertial_navigator.a.get(0, 3), Rational::new(1, 20));
    assert_eq!(inertial_navigator.state.get(0, 0), Rational::from_int(0));
}

#[test]
fn inertial_navigator_ignores_position_after_bootstrap() {
    let mut nav = InertialNavigator::new(Vec::new(), 1).unwrap();
    nav.step(&Telemetry::Position(sample(0, 0, 0, 1_000_000_000)), 1).unwrap();
    nav.step(&Telemetry::Position(sample(0, 0, 0, 2_000_000_000)), 2).unwrap();
    assert_eq!(nav.gps_samples_received, 2);

    // A position sample changes nothing and emits nothing.
    let out = nav.step(&Telemetry::Position(sample(50, 50, 50, 3_000_000_000)), 3).unwrap();
    assert!(out.is_none());
    assert_eq!(nav.state.get(0, 0), Rational::from_int(0));

    // An acceleration sample drives the motion model and emits.
    let out = nav
        .step(&Telemetry::Acceleration(sample(2, 0, 0, 3_000_000_000)), 7)
        .unwrap()
        .unwrap();
    // dt = 1: position advances by v * dt + a * dt^2 / 2 = 0 + 1.
    assert_eq!(out.x, Rational::from_int(1));
    assert_eq!(out.timestamp, 7);
    // Velocity integrated the acceleration: v = a * dt = 2.
    assert_eq!(nav.state.get(3, 0), Rational::from_int(2));
}

#[test]
fn inertial_dead_reckoning_accumulates_drift() {
    // The platform is in fact stationary at the origin, but the accelerometer
    // reports a constant bias of one unit.  The open-loop navigator drifts
    // quadratically; the Kalman estimator, corrected by an honest position
    // fix, snaps back near the truth under the same input.
    let cfg = KalmanConfig {
        imu_freq: 1,
        acc_sigma: Rational::from_int(4),
        gps_sigma: Rational::from_int(10),
        timing_tolerance: Rational::new(2, 100),
    };
    let mut nav = InertialNavigator::new(Vec::new(), 1).unwrap();
    let mut filter = KalmanFilter::new(Vec::new(), cfg, 0).unwrap();

    // Shared bootstrap: two fixes at the origin, one second apart.
    let fix1 = Telemetry::Position(sample(0, 0, 0, 1_000_000_000));
    let fix2 = Telemetry::Position(sample(0, 0, 0, 2_000_000_000));
    nav.step(&fix1, 1).unwrap();
    nav.step(&fix2, 2).unwrap();
    filter.step(&fix1, 1).unwrap();
    filter.step(&fix2, 2).unwrap();

    // Three nominal periods of biased acceleration, fed to both estimators.
    for k in 1..=3u64 {
        let now = k * 1_000_000_000;
        let accel = Telemetry::Acceleration(sample(1, 1, 1, now));
        nav.step(&accel, now).unwrap();
        filter.step(&accel, now).unwrap();
    }

    // Both have dead-reckoned to the same drifted position.
    let drifted = nav.state.get(0, 0);
    assert_eq!(drifted, Rational::new(9, 2));
    assert_eq!(filter.state.x.get(0, 0), drifted);

    // One honest fix at the origin corrects the Kalman estimate; the
    // navigator receives it too but ignores it.
    let fix = Telemetry::Position(sample(0, 0, 0, 3_000_000_001));
    nav.step(&fix, 3_000_000_001).unwrap();
    filter.step(&fix, 3_000_000_001).unwrap();

    let corrected = filter.state.x.get(0, 0);
    assert_eq!(nav.state.get(0, 0), drifted);
    assert!(Rational::from_int(4).le(&drifted));
    assert!(corrected.lt(&Rational::from_int(1)));
    assert!(corrected.lt(&drifted));
    assert!(Rational::from_int(0).le(&corrected));
}

#[test]
fn rerunning_inertial_sequence_gives_same_estimates() {
    let mut inputs: Vec<(Telemetry, u64)> = Vec::new();
    inputs.push((Telemetry::Position(sample(0, 0, 0, 1_000_000_000)), 1));
    inputs.push((Telemetry::Position(sample(1, 2, 3, 2_000_000_000)), 2));
    for i in 0..5u64 {
        inputs.push((Telemetry::Acceleration(sample(1, -1, 0, 3_000_000_000 + i)), 10 + i));
        inputs.push((Telemetry::Position(sample(9, 9, 9, 4_000_000_000 + i)), 20 + i));
    }
    let first =
        sensor_fusion::estimators::inertial_navigator::process_sequence(2, &inputs).unwrap();
    let second =
        sensor_fusion::estimators::inertial_navigator::process_sequence(2, &inputs).unwrap();
    assert_eq!(first.len(), second.len());
    for (a, b) in first.iter().zip(second.iter()) {
        match (a, b) {
            (None, None) => {}
            (Some(da), Some(db)) => {
                assert_eq!(da.x, db.x);
                assert_eq!(da.y, db.y);
                assert_eq!(da.z, db.z);
                assert_eq!(da.timestamp, db.timestamp);
            }
            _ => panic!("runs disagree on whether a step emitted"),
        }
    }
}
