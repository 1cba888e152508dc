use sensor_fusion::logger::{get_data, log, Logger};

#[test]
fn test_single_component_log() {
    let mut logger: Logger<&str> = Logger::new();
    log(&mut logger, "test_component", 10, "test message");
    let data = get_data(&logger, "test_component").unwrap();
    assert_eq!(data.len(), 1);
    assert_eq!(data[0].data, "test message");
}

#[test]
fn test_no_call_to_log_for_component() {
    let logger: Logger<String> = Logger::new();
    let result = get_data(&logger, "some_coponent");
    assert!(
        result.is_none(),
        "Result shall be None when component has not logged anything"
    );
}

#[test]
fn test_multiple_components_log() {
    let mut string_logger: Logger<&str> = Logger::new();
    let mut number_logger: Logger<i32> = Logger::new();
    log(&mut string_logger, "string_component", 10, "string data");
    log(&mut number_logger, "number_component", 10, 42);

    let string_data = get_data(&string_logger, "string_component").unwrap();
    let number_data = get_data(&number_logger, "number_component").unwrap();

    assert_eq!(string_data[0].data, "string data");
    assert_eq!(number_data[0].data, 42);
}

#[test]
fn entries_accumulate_in_arrival_order() {
    let mut logger: Logger<u32> = Logger::new();
    log(&mut logger, "imu", 1, 11);
    log(&mut logger, "gps", 2, 22);
    log(&mut logger, "imu", 3, 33);
    let imu = get_data(&logger, "imu").unwrap();
    assert_eq!(imu.len(), 2);
    assert_eq!(imu[0].data, 11);
    assert_eq!(imu[1].data, 33);
    assert_eq!(imu[1].timestamp, 3);
    assert_eq!(get_data(&logger, "gps").unwrap().len(), 1);
}
