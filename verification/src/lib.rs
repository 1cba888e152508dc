//! Verified core of a 3D position-estimation pipeline.
//!
//! The library fuses two asynchronous sample streams — accelerometer-derived
//! acceleration samples and GPS position fixes — into a corrected trajectory
//! estimate.  All estimator arithmetic is exact: coordinates and durations are
//! canonical rational numbers, so every contract states precisely what each
//! estimator computes.

pub mod average;
pub mod channel;
pub mod communication_registry;
pub mod csv_handler;
pub mod data;
pub mod errors;
pub mod estimators;
pub mod frac;
pub mod logger;
pub mod matrix;
pub mod non_blocking_generator;
pub mod utils;
