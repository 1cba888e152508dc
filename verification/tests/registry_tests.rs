use sensor_fusion::communication_registry::{CommunicationRegistry, DataSource};
use std::sync::mpsc;

#[test]
fn new_returns_empty_registry() {
    let mut registry = CommunicationRegistry::new();
    assert!(registry.get_registered_transmitters(DataSource::Average).is_none());
    assert!(registry.get_registered_transmitters(DataSource::Gps).is_none());
    assert!(registry.get_registered_transmitters(DataSource::Kalman).is_none());
    assert!(registry.get_registered_transmitters(DataSource::Imu).is_none());
}

#[test]
fn default_returns_empty_registry() {
    let mut registry = CommunicationRegistry::default();
    assert!(registry.get_registered_transmitters(DataSource::Average).is_none());
    assert!(registry.get_registered_transmitters(DataSource::Gps).is_none());
    assert!(registry.get_registered_transmitters(DataSource::Kalman).is_none());
    assert!(registry.get_registered_transmitters(DataSource::Imu).is_none());
}

#[test]
fn given_one_subscriber_expect_one_transmitter_provided_along_with_ownership() {
    let (tx, _rx) = mpsc::channel();
    let mut registry = CommunicationRegistry::new();
    registry.register_for_input(DataSource::Imu, tx.clone());
    registry.register_for_input(DataSource::Gps, tx);

    assert_eq!(registry.get_registered_transmitters(DataSource::Imu).unwrap().len(), 1);
    assert!(registry.get_registered_transmitters(DataSource::Imu).is_none());
}

#[test]
fn given_multiple_subscribers_expect_multiple_transmitters_provided() {
    let (tx, _rx) = mpsc::channel();
    let mut registry = CommunicationRegistry::new();
    registry.register_for_input(DataSource::Imu, tx.clone());
    registry.register_for_input(DataSource::Imu, tx);

    assert_eq!(registry.get_registered_transmitters(DataSource::Imu).unwrap().len(), 2);
    assert!(registry.get_registered_transmitters(DataSource::Imu).is_none());
}
