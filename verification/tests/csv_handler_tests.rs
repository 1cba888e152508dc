use sensor_fusion::csv_handler::concat_path;
use std::path::PathBuf;

const OUTPUT_PATH: &str = "output";
const CSV_EXTENSION: &str = "csv";
const TEST_COMPONENT: &str = "TEST_COMPONENT";

#[test]
fn test_concat_path() {
    let expected_path = PathBuf::from(OUTPUT_PATH)
        .join(format!(
            "{}.{}",
            TEST_COMPONENT.to_lowercase(),
            CSV_EXTENSION
        ))
        .to_string_lossy()
        .into_owned();

    let result = concat_path(TEST_COMPONENT);

    assert_eq!(result, expected_path);
}

#[test]
fn concat_path_lowercases_mixed_case_names() {
    assert_eq!(concat_path("Kalman"), "output/kalman.csv");
    assert_eq!(concat_path(""), "output/.csv");
}
