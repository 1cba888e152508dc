use sensor_fusion::average::Average;
use sensor_fusion::data::{Data, Telemetry};
use sensor_fusion::frac::Rational;
use std::collections::VecDeque;

fn sample(x: Rational, y: Rational, z: Rational, timestamp: u64) -> Data {
    Data { x, y, z, timestamp }
}

#[test]
fn test_calculate_average() {
    let mut buffer: VecDeque<Data> = VecDeque::new();
    buffer.push_back(sample(
        Rational::new(22, 10),
        Rational::new(45, 10),
        Rational::new(78, 10),
        0,
    ));
    buffer.push_back(sample(
        Rational::new(446, 10),
        Rational::new(882, 10),
        Rational::new(9871, 10),
        1,
    ));
    buffer.push_back(sample(
        Rational::new(2345, 10),
        Rational::new(5551, 10),
        Rational::new(333, 10),
        2,
    ));

    let three = Rational::from_int(3);
    let local_avg_x = buffer[0]
        .x
        .try_add(&buffer[1].x)
        .unwrap()
        .try_add(&buffer[2].x)
        .unwrap()
        .try_div(&three)
        .unwrap();
    let local_avg_y = buffer[0]
        .y
        .try_add(&buffer[1].y)
        .unwrap()
        .try_add(&buffer[2].y)
        .unwrap()
        .try_div(&three)
        .unwrap();
    let local_avg_z = buffer[0]
        .z
        .try_add(&buffer[1].z)
        .unwrap()
        .try_add(&buffer[2].z)
        .unwrap()
        .try_div(&three)
        .unwrap();

    let calculate_average_output = Average::calculate_average(&buffer, 3).unwrap();

    assert_eq!(calculate_average_output.x, local_avg_x);
    assert_eq!(calculate_average_output.y, local_avg_y);
    assert_eq!(calculate_average_output.z, local_avg_z);
    // The exact means, written out: 281.3 / 3, 647.8 / 3 and 1028.2 / 3.
    assert_eq!(calculate_average_output.x, Rational::new(2813, 30));
    assert_eq!(calculate_average_output.y, Rational::new(6478, 30));
    assert_eq!(calculate_average_output.z, Rational::new(10282, 30));
}

#[test]
fn test_handle_data_buffer() {
    let mut buffer: VecDeque<Data> = VecDeque::new();
    let data = sample(
        Rational::new(2345, 10),
        Rational::new(5551, 10),
        Rational::new(333, 10),
        9,
    );

    let buffer_length: usize = 3;
    buffer.push_back(sample(
        Rational::from_int(1),
        Rational::from_int(2),
        Rational::from_int(3),
        0,
    ));
    buffer.push_back(sample(
        Rational::from_int(4),
        Rational::from_int(5),
        Rational::from_int(6),
        1,
    ));
    Average::handle_data_buffer(&mut buffer, data, buffer_length);
    assert!(buffer.len() == 3);
    assert_eq!(buffer[2].x, data.x);

    buffer.clear();
    assert!(buffer.is_empty());
}

#[test]
fn sliding_window_evicts_oldest() {
    let mut buffer: VecDeque<Data> = VecDeque::new();
    for i in 0..3u64 {
        buffer.push_back(sample(
            Rational::from_int(i as i64),
            Rational::from_int(0),
            Rational::from_int(0),
            i,
        ));
    }
    let newest = sample(Rational::from_int(7), Rational::from_int(0), Rational::from_int(0), 3);
    Average::handle_data_buffer(&mut buffer, newest, 3);
    assert_eq!(buffer.len(), 3);
    assert_eq!(buffer[0].x, Rational::from_int(1));
    assert_eq!(buffer[2].x, Rational::from_int(7));
}

#[test]
fn average_ignores_acceleration_samples() {
    let mut est = Average::new(Vec::new(), 3);
    let accel = Telemetry::Acceleration(sample(
        Rational::from_int(1),
        Rational::from_int(1),
        Rational::from_int(1),
        0,
    ));
    let out = est.step(&accel, 5).unwrap();
    assert!(out.is_none());
    let pos = Telemetry::Position(sample(
        Rational::from_int(2),
        Rational::from_int(4),
        Rational::from_int(6),
        1,
    ));
    let out = est.step(&pos, 6).unwrap().unwrap();
    assert_eq!(out.x, Rational::from_int(2));
    assert_eq!(out.timestamp, 6);
}

#[test]
fn rerunning_same_sequence_gives_same_estimates() {
    let mut inputs: Vec<(Telemetry, u64)> = Vec::new();
    for i in 0..6u64 {
        inputs.push((
            Telemetry::Position(sample(
                Rational::new(i as i64 * 10 + 1, 3),
                Rational::new(i as i64 - 2, 7),
                Rational::from_int(i as i64),
                i,
            )),
            100 + i,
        ));
        inputs.push((
            Telemetry::Acceleration(sample(
                Rational::from_int(1),
                Rational::from_int(1),
                Rational::from_int(1),
                i,
            )),
            200 + i,
        ));
    }
    let first = sensor_fusion::average::process_sequence(3, &inputs).unwrap();
    let second = sensor_fusion::average::process_sequence(3, &inputs).unwrap();
    assert_eq!(first.len(), second.len());
    for (a, b) in first.iter().zip(second.iter()) {
        match (a, b) {
            (None, None) => {}
            (Some(da), Some(db)) => {
                assert_eq!(da.x, db.x);
                assert_eq!(da.y, db.y);
                assert_eq!(da.z, db.z);
                assert_eq!(da.timestamp, db.timestamp);
            }
            _ => panic!("runs disagree on whether a step emitted"),
        }
    }
}

#[test]
fn average_surfaces_overflow_instead_of_losing_precision() {
    let mut buffer: VecDeque<Data> = VecDeque::new();
    let huge = Rational::from_int(i64::MAX);
    let third = Rational::new(1, 3);
    buffer.push_back(sample(huge, third, third, 0));
    buffer.push_back(sample(huge, third, third, 1));
    let err = Average::calculate_average(&buffer, 2).unwrap_err();
    assert_eq!(err, sensor_fusion::errors::EstimatorError::Overflow);
}
