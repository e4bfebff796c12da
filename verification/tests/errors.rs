use igniscope::error::{exit_code_for_error, AppError};

#[test]
fn archive_read_maps_to_exit_code_10() {
    let err = AppError::archive_read("sample.zip", "bad zip");
    assert_eq!(exit_code_for_error(&err), 10);
}

#[test]
fn project_root_detection_maps_to_exit_code_11() {
    let err = AppError::project_root_detection("sample.zip", "no roots");
    assert_eq!(exit_code_for_error(&err), 11);
}

#[test]
fn json_parse_maps_to_exit_code_12() {
    let err = AppError::json_parse("sample.zip", "project.json", "invalid");
    assert_eq!(exit_code_for_error(&err), 12);
}

#[test]
fn resource_integrity_and_internal_exit_codes() {
    assert_eq!(exit_code_for_error(&AppError::resource_integrity("missing")), 13);
    assert_eq!(exit_code_for_error(&AppError::internal("oops")), 20);
}

#[test]
fn exit_codes_are_distinct_and_nonzero() {
    let errors = [
        AppError::archive_read("a", "b"),
        AppError::project_root_detection("a", "b"),
        AppError::json_parse("a", "j", "b"),
        AppError::resource_integrity("b"),
        AppError::internal("b"),
    ];
    let codes: Vec<i32> = errors.iter().map(exit_code_for_error).collect();
    for (i, a) in codes.iter().enumerate() {
        assert_ne!(*a, 0);
        for b in &codes[i + 1..] {
            assert_ne!(a, b);
        }
    }
}

#[test]
fn constructors_keep_their_fields() {
    assert_eq!(
        AppError::archive_read("sample.zip", "bad zip"),
        AppError::ArchiveRead { archive_path: "sample.zip".to_string(), details: "bad zip".to_string() }
    );
    assert_eq!(
        AppError::json_parse("sample.zip", "project.json", "invalid"),
        AppError::JsonParse {
            archive_path: "sample.zip".to_string(),
            json_path: "project.json".to_string(),
            details: "invalid".to_string(),
        }
    );
}

#[test]
fn messages_name_the_error_and_its_place() {
    assert_eq!(
        AppError::archive_read("sample.zip", "bad zip").message(),
        "Failed to read archive `sample.zip`: bad zip"
    );
    assert_eq!(
        AppError::project_root_detection("sample.zip", "no roots").message(),
        "Could not detect project roots in `sample.zip`: no roots"
    );
    assert_eq!(
        AppError::json_parse("sample.zip", "project.json", "invalid").message(),
        "Failed to parse JSON `project.json` in `sample.zip`: invalid"
    );
    assert_eq!(
        AppError::resource_integrity("missing").message(),
        "Manifest integrity error: missing"
    );
    assert_eq!(AppError::internal("oops").message(), "Internal error: oops");
}
