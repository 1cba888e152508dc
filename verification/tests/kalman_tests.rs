use sensor_fusion::data::{Data, Telemetry};
use sensor_fusion::errors::EstimatorError;
use sensor_fusion::estimators::kalman::{
    cadence_verdict, create_matrix_A, create_matrix_B, create_matrix_H, create_matrix_Q,
    create_matrix_R, max_expected_imu_interval, min_expected_imu_interval, nominal_period,
    telemetry_check, CadenceVerdict, KalmanConfig, KalmanData, KalmanFilter,
};
use sensor_fusion::frac::Rational;
use sensor_fusion::matrix::Matrix;

fn sample(x: i64, y: i64, z: i64, timestamp: u64) -> Data {
    Data {
        x: Rational::from_int(x),
        y: Rational::from_int(y),
        z: Rational::from_int(z),
        timestamp,
    }
}

fn config() -> KalmanConfig {
    KalmanConfig {
        imu_freq: 20,
        acc_sigma: Rational::from_int(1),
        gps_sigma: Rational::from_int(10),
        timing_tolerance: Rational::new(2, 100),
    }
}

#[test]
fn test_create_matrix_A() {
    let dt = Rational::new(1, 10);
    let a = create_matrix_A(&dt);
    assert_eq!(a.get(0, 0), Rational::from_int(1));
    assert_eq!(a.get(0, 3), dt);
}

#[test]
fn test_create_matrix_B() {
    let dt = Rational::new(1, 10);
    let b = create_matrix_B(&dt).unwrap();
    // dt * dt / 2 = 1 / 200.
    assert_eq!(b.get(0, 0), Rational::new(1, 200));
    assert_eq!(b.get(0, 1), Rational::from_int(0));
}

#[test]
fn test_create_matrix_H() {
    let h = create_matrix_H();
    assert_eq!(h.get(0, 0), Rational::from_int(1));
    assert_eq!(h.get(0, 1), Rational::from_int(0));
}

#[test]
fn test_create_matrix_Q() {
    let dt = Rational::new(1, 10);
    let sigma = Rational::from_int(1);
    let q = create_matrix_Q(&dt, &sigma).unwrap();
    // dt^4 / 4 = 1 / 40000.
    assert_eq!(q.get(0, 0), Rational::new(1, 40000));
    assert_eq!(q.get(0, 1), Rational::from_int(0));
}

#[test]
fn test_create_matrix_R() {
    let sigma = Rational::new(1, 100);
    let r = create_matrix_R(&sigma);
    assert_eq!(r.get(0, 0), Rational::new(1, 100));
    assert_eq!(r.get(0, 1), Rational::from_int(0));
}

#[test]
fn test_KalmanData_init() {
    let dt = nominal_period(20);
    let kd = KalmanData::new(&dt, &Rational::from_int(1)).unwrap();
    assert_eq!(kd.p.get(5, 1), Rational::from_int(0));
    assert_eq!(kd.x.get(5, 0), Rational::from_int(0));
}

#[test]
fn test_max_expected_imu_interval() {
    let period = nominal_period(20);
    let tol = Rational::new(2, 100);
    let max = max_expected_imu_interval(&period, &tol).unwrap();
    // (1 / 20) * (1 + 0.02) = 51 / 1000.
    assert_eq!(max, Rational::new(51, 1000));
}

#[test]
fn test_min_expected_imu_interval() {
    let period = nominal_period(20);
    let tol = Rational::new(2, 100);
    let min = min_expected_imu_interval(&period, &tol).unwrap();
    // (1 / 20) * (1 - 0.02) = 49 / 1000.
    assert_eq!(min, Rational::new(49, 1000));
}

#[test]
fn cadence_on_time_accepts() {
    // Nominal period 0.1 s, tolerance 0.02: accepted band [0.098 s, 0.102 s].
    let period = nominal_period(10);
    let tol = Rational::new(2, 100);
    let min = min_expected_imu_interval(&period, &tol).unwrap();
    let max = max_expected_imu_interval(&period, &tol).unwrap();
    let v = cadence_verdict(0, 100_000_000, &min, &max);
    assert_eq!(v, CadenceVerdict::OnTime);
    assert!(v.accepted());
}

#[test]
fn cadence_too_soon_rejects() {
    let period = nominal_period(10);
    let tol = Rational::new(2, 100);
    let min = min_expected_imu_interval(&period, &tol).unwrap();
    let max = max_expected_imu_interval(&period, &tol).unwrap();
    let v = cadence_verdict(0, 40_000_000, &min, &max);
    assert_eq!(v, CadenceVerdict::TooSoon);
    assert!(!v.accepted());
}

#[test]
fn cadence_late_accepts_with_warning() {
    let period = nominal_period(10);
    let tol = Rational::new(2, 100);
    let min = min_expected_imu_interval(&period, &tol).unwrap();
    let max = max_expected_imu_interval(&period, &tol).unwrap();
    let v = cadence_verdict(0, 200_000_000, &min, &max);
    assert_eq!(v, CadenceVerdict::Late);
    assert!(v.accepted());
}

#[test]
fn cadence_time_inversion_rejects() {
    let period = nominal_period(10);
    let tol = Rational::new(2, 100);
    let min = min_expected_imu_interval(&period, &tol).unwrap();
    let max = max_expected_imu_interval(&period, &tol).unwrap();
    assert_eq!(cadence_verdict(50, 50, &min, &max), CadenceVerdict::TimeInversion);
    assert_eq!(cadence_verdict(100, 50, &min, &max), CadenceVerdict::TimeInversion);
}

#[test]
fn kalman_round_trip_zero_acceleration() {
    // Bootstrap to position (1,1,1), velocity (1,1,1); a zero acceleration
    // advances each position by velocity * dt; a correction at exactly the
    // predicted position leaves the estimate unchanged.  The nominal period
    // is one second, so the model matrices are integral.
    let cfg = KalmanConfig {
        imu_freq: 1,
        acc_sigma: Rational::from_int(4),
        gps_sigma: Rational::from_int(10),
        timing_tolerance: Rational::new(2, 100),
    };
    let mut filter = KalmanFilter::new(Vec::new(), cfg, 0).unwrap();

    let fix1 = Telemetry::Position(sample(0, 0, 0, 1_000_000_000));
    let fix2 = Telemetry::Position(sample(1, 1, 1, 2_000_000_000));
    assert!(filter.step(&fix1, 10).unwrap().is_none());
    assert!(filter.step(&fix2, 20).unwrap().is_none());
    assert_eq!(filter.gps_samples_received, 2);
    assert_eq!(filter.state.x.get(0, 0), Rational::from_int(1));
    assert_eq!(filter.state.x.get(3, 0), Rational::from_int(1));

    // One on-time zero acceleration, one nominal period after the start.
    let accel = Telemetry::Acceleration(sample(0, 0, 0, 1_000_000_000));
    let est = filter.step(&accel, 1_000_000_000).unwrap().unwrap();
    let expected = Rational::from_int(2);
    assert_eq!(est.x, expected);
    assert_eq!(est.y, expected);
    assert_eq!(est.z, expected);
    assert_eq!(filter.state.x.get(3, 0), Rational::from_int(1));

    // Correct at exactly the predicted position: the estimate is unchanged.
    let fix3 = Telemetry::Position(Data {
        x: expected,
        y: expected,
        z: expected,
        timestamp: 1_500_000_000,
    });
    let est2 = filter.step(&fix3, 1_500_000_000).unwrap().unwrap();
    assert_eq!(est2.x, expected);
    assert_eq!(est2.y, expected);
    assert_eq!(est2.z, expected);
}

#[test]
fn kalman_rejects_too_soon_sample_without_update() {
    let mut filter = KalmanFilter::new(Vec::new(), config(), 0).unwrap();
    let fix1 = Telemetry::Position(sample(0, 0, 0, 1_000_000_000));
    let fix2 = Telemetry::Position(sample(1, 1, 1, 2_000_000_000));
    filter.step(&fix1, 10).unwrap();
    filter.step(&fix2, 20).unwrap();

    // Far below the accepted band: rejected, no emission, state unchanged.
    let accel = Telemetry::Acceleration(sample(5, 5, 5, 1_000_000));
    let out = filter.step(&accel, 1_000_000).unwrap();
    assert!(out.is_none());
    assert_eq!(filter.state.x.get(0, 0), Rational::from_int(1));
    // The cadence state was still advanced.
    assert_eq!(filter.last_imu_data_timestamp, 1_000_000);
}

#[test]
fn bootstrap_rejects_non_increasing_timestamps() {
    let mut filter = KalmanFilter::new(Vec::new(), config(), 0).unwrap();
    let fix1 = Telemetry::Position(sample(0, 0, 0, 2_000_000_000));
    let fix2 = Telemetry::Position(sample(1, 1, 1, 2_000_000_000));
    filter.step(&fix1, 10).unwrap();
    let err = filter.step(&fix2, 20).unwrap_err();
    assert_eq!(err, EstimatorError::TimeNotIncreasing);
}

#[test]
fn singular_innovation_covariance_is_reported() {
    let zero = Matrix::zeros(3, 3);
    let err = zero.try_inverse3().unwrap_err();
    assert_eq!(err, EstimatorError::SingularCovariance);
}

#[test]
fn overflow_is_reported_not_silently_lost() {
    let huge = Rational::from_int(i64::MAX);
    assert!(huge.try_mul(&huge).is_none());
    let two_thirds = Rational::new(2, 3);
    assert!(huge.try_add(&two_thirds).is_none());
}

#[test]
fn telemetry_check_passes_positions_untouched() {
    let period = nominal_period(10);
    let tol = Rational::new(2, 100);
    let min = min_expected_imu_interval(&period, &tol).unwrap();
    let max = max_expected_imu_interval(&period, &tol).unwrap();
    let mut last: u64 = 500;

    // Position samples always pass and leave the cadence state alone.
    let pos = Telemetry::Position(sample(1, 2, 3, 900));
    assert!(telemetry_check(&pos, &mut last, 1_000_000_000, &min, &max));
    assert_eq!(last, 500);

    // An on-time acceleration sample passes and advances the cadence state.
    let accel = Telemetry::Acceleration(sample(1, 2, 3, 900));
    assert!(telemetry_check(&accel, &mut last, 100_000_500, &min, &max));
    assert_eq!(last, 100_000_500);

    // A too-soon acceleration sample is rejected but still advances it.
    assert!(!telemetry_check(&accel, &mut last, 100_000_600, &min, &max));
    assert_eq!(last, 100_000_600);
}

#[test]
fn kalman_accepts_late_sample_and_predicts() {
    // A sample far beyond the accepted band is late: accepted with a
    // warning, and it still drives a prediction over the nominal period.
    let cfg = KalmanConfig {
        imu_freq: 1,
        acc_sigma: Rational::from_int(4),
        gps_sigma: Rational::from_int(10),
        timing_tolerance: Rational::new(2, 100),
    };
    let mut filter = KalmanFilter::new(Vec::new(), cfg, 0).unwrap();
    filter
        .step(&Telemetry::Position(sample(1, 1, 1, 1_000_000_000)), 10)
        .unwrap();
    filter
        .step(&Telemetry::Position(sample(2, 2, 2, 2_000_000_000)), 20)
        .unwrap();

    // Ten seconds elapsed against a one-second nominal period: late.
    let est = filter
        .step(&Telemetry::Acceleration(sample(0, 0, 0, 10_000_000_000)), 10_000_000_000)
        .unwrap()
        .unwrap();
    // The fixed-period model integrates one nominal period, not ten.
    assert_eq!(est.x, Rational::from_int(3));
}
