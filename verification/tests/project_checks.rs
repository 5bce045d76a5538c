use vtest::project_checks::{
    check_rust_file_path, check_rust_file_scope, enum_variant_query, enum_variant_verdict, is_project_rust_path,
    sorted_distinct,
};

fn strings(items: &[&str]) -> Vec<String> {
    items.iter().map(|s| s.to_string()).collect()
}

#[test]
fn an_enum_answer_names_type_path_enum_and_variant() {
    assert_eq!(
        enum_variant_query("Mode::Fast"),
        Some(("Mode".to_owned(), "Mode".to_owned(), "Fast".to_owned()))
    );
    assert_eq!(
        enum_variant_query("crate::config::Mode::Fast"),
        Some(("crate::config::Mode".to_owned(), "Mode".to_owned(), "Fast".to_owned()))
    );
}

#[test]
fn an_enum_answer_without_two_identifiers_is_not_checked() {
    assert_eq!(enum_variant_query("Fast"), None);
    assert_eq!(enum_variant_query("Mode::"), None);
    assert_eq!(enum_variant_query("Mode::fn"), None);
    assert_eq!(enum_variant_query("my-mode::Fast"), None);
}

#[test]
fn an_enum_variant_is_accepted_when_found_or_nothing_was_found() {
    assert!(enum_variant_verdict("Mode::Fast", "Mode", "Fast", &vec![]).is_ok());
    assert!(enum_variant_verdict("Mode::Fast", "Mode", "Fast", &strings(&["Slow", "Fast"])).is_ok());
}

#[test]
fn an_unknown_enum_variant_lists_the_found_ones_once_in_order() {
    let error =
        enum_variant_verdict("m::Mode::Quick", "m::Mode", "Quick", &strings(&["Slow", "Fast", "Slow"])).unwrap_err();
    assert_eq!(error.code, "E-OP-001");
    assert_eq!(error.message, "enum variant `m::Mode::Quick` does not exist");
    assert_eq!(error.candidates, strings(&["m::Mode::Fast", "m::Mode::Slow"]));
}

#[test]
fn sorted_distinct_keeps_each_text_once_in_byte_order() {
    assert_eq!(sorted_distinct(&strings(&["b", "a", "b", "c", "B"])), strings(&["B", "a", "b", "c"]));
    assert_eq!(sorted_distinct(&vec![]), Vec::<String>::new());
}

#[test]
fn rust_file_answers_are_relative_rust_paths() {
    assert!(is_project_rust_path("tests/calc.rs"));
    assert!(is_project_rust_path("tests/./calc.rs"));
    assert!(is_project_rust_path("tests/calc.rs/"));
    assert!(is_project_rust_path("a..rs"));
    assert!(!is_project_rust_path("/tests/calc.rs"));
    assert!(!is_project_rust_path("../calc.rs"));
    assert!(!is_project_rust_path("tests/../calc.rs"));
    assert!(!is_project_rust_path("tests/calc.txt"));
    assert!(!is_project_rust_path("tests/.rs"));
    assert!(!is_project_rust_path("tests"));
    assert!(!is_project_rust_path(""));
}

#[test]
fn a_malformed_rust_file_answer_is_named_in_the_error() {
    assert!(check_rust_file_path("src/lib.rs").is_ok());
    let error = check_rust_file_path("../lib.rs").unwrap_err();
    assert_eq!(error.code, "E-OP-001");
    assert_eq!(error.message, "Rust file must be a project-relative .rs path: `../lib.rs`");
}

#[test]
fn rust_file_answers_must_lie_under_a_scan_root() {
    let includes = strings(&["src", "tests/"]);
    assert!(check_rust_file_scope("tests/calc.rs", &includes).is_ok());
    assert!(check_rust_file_scope("src/deep/mod.rs", &includes).is_ok());
    let error = check_rust_file_scope("testsuite/a.rs", &includes).unwrap_err();
    assert_eq!(error.message, "Rust file is outside every registered adapter's scan.include: `testsuite/a.rs`");
    assert!(check_rust_file_scope("tests/calc.rs", &strings(&["./tests"])).is_err());
}
