use wyclef_rs::clef::{resolve_level, Level};

#[test]
fn resolves_each_level_name_case_insensitively() {
    assert_eq!(resolve_level(b"Verbose"), Level::Verbose);
    assert_eq!(resolve_level(b"DEBUG"), Level::Debug);
    assert_eq!(resolve_level(b"information"), Level::Information);
    assert_eq!(resolve_level(b"Warning"), Level::Warning);
    assert_eq!(resolve_level(b"ERROR"), Level::Error);
    assert_eq!(resolve_level(b"fatal"), Level::Fatal);
}

#[test]
fn resolves_quoted_and_punctuated_level_names() {
    assert_eq!(resolve_level(b"\"Information\""), Level::Information);
    assert_eq!(resolve_level(b"\"ERROR\""), Level::Error);
    assert_eq!(resolve_level(b" ver-bose "), Level::Verbose);
}

#[test]
fn unrecognized_or_empty_levels_default_to_information() {
    assert_eq!(resolve_level(b""), Level::Information);
    assert_eq!(resolve_level(b"\"\""), Level::Information);
    assert_eq!(resolve_level(b"critical"), Level::Information);
    assert_eq!(resolve_level(b"warn"), Level::Information);
    assert_eq!(resolve_level(b"!!!"), Level::Information);
}

#[test]
fn resolves_numeric_level_codes() {
    assert_eq!(resolve_level(b"1"), Level::Verbose);
    assert_eq!(resolve_level(b"2"), Level::Debug);
    assert_eq!(resolve_level(b"3"), Level::Information);
    assert_eq!(resolve_level(b"4"), Level::Warning);
    assert_eq!(resolve_level(b"5"), Level::Error);
    assert_eq!(resolve_level(b"6"), Level::Fatal);
}

#[test]
fn numeric_codes_out_of_range_default_to_information() {
    assert_eq!(resolve_level(b"0"), Level::Information);
    assert_eq!(resolve_level(b"7"), Level::Information);
    assert_eq!(resolve_level(b"16"), Level::Information);
}
