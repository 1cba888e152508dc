use sensor_fusion::channel::fan_out;
use sensor_fusion::data::{Data, Telemetry};
use sensor_fusion::estimators::kalman::{KalmanConfig, KalmanFilter};
use sensor_fusion::frac::Rational;
use std::sync::mpsc;

fn sample(v: i64, timestamp: u64) -> Data {
    Data {
        x: Rational::from_int(v),
        y: Rational::from_int(v),
        z: Rational::from_int(v),
        timestamp,
    }
}

#[test]
fn fan_out_prunes_dead_subscribers() {
    let (tx_dead, rx_dead) = mpsc::channel();
    let (tx_live, rx_live) = mpsc::channel();
    drop(rx_dead);
    let mut subscribers = vec![tx_dead, tx_live];
    let alive = fan_out(&mut subscribers, Telemetry::Position(sample(1, 0)));
    assert!(alive);
    assert_eq!(subscribers.len(), 1);
    assert!(rx_live.recv().is_ok());
}

#[test]
fn fan_out_reports_when_no_subscriber_is_left() {
    let (tx_dead, rx_dead) = mpsc::channel();
    drop(rx_dead);
    let mut subscribers = vec![tx_dead];
    let alive = fan_out(&mut subscribers, Telemetry::Position(sample(1, 0)));
    assert!(!alive);
    assert!(subscribers.is_empty());
}

#[test]
fn estimator_notices_lost_subscribers_within_one_cycle() {
    // All receivers are dropped: the first emission prunes every subscriber
    // and the caller's loop stops after the current sample.
    let (tx, rx) = mpsc::channel();
    drop(rx);
    let cfg = KalmanConfig {
        imu_freq: 1,
        acc_sigma: Rational::from_int(1),
        gps_sigma: Rational::from_int(10),
        timing_tolerance: Rational::new(2, 100),
    };
    let mut filter = KalmanFilter::new(vec![tx], cfg, 0).unwrap();
    filter
        .step(&Telemetry::Position(sample(0, 1_000_000_000)), 1)
        .unwrap();
    filter
        .step(&Telemetry::Position(sample(0, 2_000_000_000)), 2)
        .unwrap();
    assert!(filter.has_subscribers());

    // The first emitted estimate fails to send and the subscriber is pruned.
    let out = filter
        .step(&Telemetry::Position(sample(0, 3_000_000_000)), 3)
        .unwrap();
    assert!(out.is_some());
    assert!(!filter.has_subscribers());
}
