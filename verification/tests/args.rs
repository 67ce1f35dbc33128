use wyclef_rs::{get_app_arguments_from_program_args, AppError};

#[test]
fn throws_error_when_file_name_args_is_missing() {
    let args = vec!["not-used-for-this-test".to_string()];
    let result = get_app_arguments_from_program_args(&args);
    assert!(result.is_err());
}

#[test]
fn can_resolve_file_path_from_args() {
    let args = vec![
        "not-used-for-this-test".to_string(),
        "test.jlog".to_string(),
    ];

    let result = get_app_arguments_from_program_args(&args);

    assert!(result.is_ok());
    assert_eq!(result.unwrap().file_path, "test.jlog");
}

#[test]
fn missing_argument_is_an_argument_error() {
    let no_args: Vec<String> = Vec::new();
    let result = get_app_arguments_from_program_args(&no_args);
    assert_eq!(result.unwrap_err(), AppError::ArgumentError);
}

#[test]
fn argument_error_reports_the_documented_message() {
    assert_eq!(
        AppError::ArgumentError.message(),
        "Please provide a path to a log file!"
    );
}
