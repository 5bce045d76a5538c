use vtest::desired::DesiredTest;
use vtest::hash::ContentHash;
use vtest::ids::{AdapterId, TestId, VoId};
use vtest::source::SourceLocation;
use vtest::test_entity::{ExecutionDescriptor, TestEntity};
use vtest::test_render::{plan_test_edit, plan_test_insertion, render_edited_test};

fn current() -> TestEntity {
    TestEntity {
        id: TestId::new("TEST-ADD-001"),
        covers: vec![VoId::new("VO-ADD")],
        targets: vec![],
        intent: "adds".to_owned(),
        input: None,
        expect: None,
        kind: None,
        cases: vec![],
        related: vec![],
        location: SourceLocation {
            file: "tests/calc.rs".to_owned(),
            function: "adds".to_owned(),
            start_line: 1,
            end_line: 8,
            start_byte: 0,
            end_byte: 100,
        },
        content_hash: ContentHash::from_text("adds"),
        execution: ExecutionDescriptor {
            adapter: AdapterId::new("rust-cargo"),
            project: None,
            suite: None,
            selector: "adds".to_owned(),
        },
    }
}

fn desired(fn_name: &str) -> DesiredTest {
    DesiredTest {
        id: "TEST-ADD-001".to_owned(),
        covers: vec!["VO-ADD".to_owned(), "VO-SUM".to_owned()],
        targets: vec!["src/lib.rs::add".to_owned()],
        intent: "adds two numbers".to_owned(),
        input: None,
        expect: Some("3".to_owned()),
        kind: Some("unit-normal".to_owned()),
        cases: vec![],
        related: vec!["TEST-SUB-001".to_owned()],
        fn_name: fn_name.to_owned(),
        file: "tests/calc.rs".to_owned(),
    }
}

const SOURCE: &str = "/// Free doc before.\n/// @vtest.id TEST-ADD-001\n/// @vtest.covers VO-ADD\n/// Free after.\n#[test]\nfn adds() {\n    assert_eq!(add(1, 2), 3);\n}";

#[test]
fn annotations_are_rendered_from_the_desired_state_around_free_doc_lines() {
    let rendered = render_edited_test(SOURCE, &current(), "adds", &desired("adds_numbers"), None).unwrap();
    let expected = [
        "/// Free doc before.",
        "/// @vtest.id TEST-ADD-001",
        "/// @vtest.covers VO-ADD,VO-SUM",
        "/// @vtest.target src/lib.rs::add",
        "/// @vtest.intent adds two numbers",
        "/// @vtest.expect 3",
        "/// @vtest.kind unit-normal",
        "/// @vtest.related TEST-SUB-001",
        "/// Free after.",
        "#[test]",
        "fn adds_numbers() {",
        "    assert_eq!(add(1, 2), 3);",
        "}",
    ]
    .join("\n");
    assert_eq!(rendered, expected);
}

#[test]
fn a_given_body_replaces_the_function_block() {
    let rendered =
        render_edited_test(SOURCE, &current(), "adds", &desired("adds"), Some("  assert!(true);\n")).unwrap();
    assert!(rendered.ends_with("#[test]\nfn adds() {\nassert!(true);\n}"), "{rendered}");
    let braced = render_edited_test(SOURCE, &current(), "adds", &desired("adds"), Some("{ check(); }")).unwrap();
    assert!(braced.ends_with("#[test]\nfn adds() { check(); }"), "{braced}");
}

#[test]
fn a_body_that_is_not_a_block_is_refused() {
    let error = render_edited_test(SOURCE, &current(), "adds", &desired("adds"), Some("let x = ;")).unwrap_err();
    assert_eq!(error.code, "E-OP-001");
    assert!(error.message.starts_with("body file does not contain a valid Rust block: "), "{}", error.message);
}

#[test]
fn a_source_without_a_function_is_refused() {
    let error = render_edited_test("/// @vtest.id TEST-ADD-001", &current(), "adds", &desired("adds"), None).unwrap_err();
    assert_eq!(error.code, "E-OP-002");
    assert_eq!(error.message, "Test `TEST-ADD-001` has no function body in its source range");
}

#[test]
fn a_rename_needs_the_current_signature() {
    let error = render_edited_test(SOURCE, &current(), "sums", &desired("adds_numbers"), None).unwrap_err();
    assert_eq!(error.code, "E-OP-002");
    assert_eq!(error.message, "Test `TEST-ADD-001` function signature could not be located");
}

const FILE: &str = "use calc::add;\n\nmod cases {\n    /// @vtest.id TEST-ADD-001\n    /// @vtest.covers VO-ADD\n    /// @vtest.intent adds\n    #[test]\n    fn adds() {\n        assert_eq!(add(1, 2), 3);\n    }\n}\n";

fn located(start: usize, end: usize, text: &str) -> TestEntity {
    let mut test = current();
    test.location.start_byte = start as u64;
    test.location.end_byte = end as u64;
    test.content_hash = ContentHash::from_text(text);
    test
}

fn file_test() -> TestEntity {
    let start = FILE.find("/// @vtest.id").unwrap();
    let end = FILE.rfind("\n}\n").unwrap();
    located(start, end, &FILE[start..end])
}

fn same_as_file() -> DesiredTest {
    DesiredTest {
        id: "TEST-ADD-001".to_owned(),
        covers: vec!["VO-ADD".to_owned()],
        targets: vec![],
        intent: "adds".to_owned(),
        input: None,
        expect: None,
        kind: None,
        cases: vec![],
        related: vec![],
        fn_name: "adds".to_owned(),
        file: "tests/calc.rs".to_owned(),
    }
}

#[test]
fn an_edit_is_planned_in_place_with_the_test_indentation() {
    let test = file_test();
    let (result, text) = plan_test_edit(FILE, &test, "adds", &desired("adds_numbers"), None, true).unwrap();
    let expected = [
        "/// @vtest.id TEST-ADD-001",
        "    /// @vtest.covers VO-ADD,VO-SUM",
        "    /// @vtest.target src/lib.rs::add",
        "    /// @vtest.intent adds two numbers",
        "    /// @vtest.expect 3",
        "    /// @vtest.kind unit-normal",
        "    /// @vtest.related TEST-SUB-001",
        "    #[test]",
        "    fn adds_numbers() {",
        "        assert_eq!(add(1, 2), 3);",
        "    }",
    ]
    .join("\n");
    assert_eq!(result.rendered, expected);
    let start = test.location.start_byte as usize;
    assert_eq!(result.start_byte, start);
    assert_eq!(result.end_byte, start + expected.len());
    assert!(result.changed);
    assert!(result.dry_run);
    assert_eq!(result.test_id, "TEST-ADD-001");
    assert_eq!(result.file, "tests/calc.rs");
    assert_eq!(text, format!("{}{}{}", &FILE[..start], expected, &FILE[test.location.end_byte as usize..]));
}

#[test]
fn an_edit_to_the_same_state_changes_nothing() {
    let (result, text) = plan_test_edit(FILE, &file_test(), "adds", &same_as_file(), None, false).unwrap();
    assert!(!result.changed);
    assert_eq!(text, FILE);
}

#[test]
fn a_test_whose_source_moved_on_is_not_edited() {
    let start = FILE.find("/// @vtest.id").unwrap();
    let end = FILE.rfind("\n}\n").unwrap();
    let changed = located(start, end, "something else");
    let error = plan_test_edit(FILE, &changed, "adds", &same_as_file(), None, false).unwrap_err();
    assert_eq!(error.code, "E-OP-002");
    assert_eq!(error.message, "Test `TEST-ADD-001` changed before edit could be applied");
    let stale = located(start, FILE.len() + 5, "");
    let error = plan_test_edit(FILE, &stale, "adds", &same_as_file(), None, false).unwrap_err();
    assert_eq!(error.message, "Test `TEST-ADD-001` source range is stale");
}

#[test]
fn an_edit_that_breaks_the_file_is_refused() {
    let mut bad = same_as_file();
    bad.fn_name = "1adds".to_owned();
    let error = plan_test_edit(FILE, &file_test(), "adds", &bad, None, false).unwrap_err();
    assert_eq!(error.code, "E-OP-003");
    assert!(
        error.message.starts_with("edited Test `TEST-ADD-001` would make the file invalid: "),
        "{}",
        error.message
    );
}

const NEW_TEST: &str = "#[test]\nfn subtracts() {\n    assert_eq!(sub(3, 2), 1);\n}";

#[test]
fn a_new_test_is_appended_after_a_blank_line() {
    for (original, separator) in [("", ""), ("use calc::sub;\n", "\n"), ("use calc::sub;", "\n\n"), ("use calc::sub;\n\n", "")] {
        let (result, text) = plan_test_insertion(original, "tests/calc.rs", "TEST-SUB-001", NEW_TEST, false).unwrap();
        assert_eq!(text, format!("{original}{separator}{NEW_TEST}"));
        assert_eq!(result.start_byte, original.len() + separator.len());
        assert_eq!(result.end_byte, text.len());
        assert!(result.changed);
        assert_eq!(result.rendered, NEW_TEST);
        assert_eq!(result.test_id, "TEST-SUB-001");
    }
}

#[test]
fn a_rendered_test_must_be_a_function_and_keep_the_file_valid() {
    let error = plan_test_insertion("", "tests/calc.rs", "TEST-SUB-001", "not a function", false).unwrap_err();
    assert_eq!(error.code, "E-OP-001");
    assert!(error.message.starts_with("form rendered an invalid Rust test function: "), "{}", error.message);
    let error = plan_test_insertion("fn open(", "tests/calc.rs", "TEST-SUB-001", NEW_TEST, false).unwrap_err();
    assert!(error.message.starts_with("test insertion would make `tests/calc.rs` invalid Rust: "), "{}", error.message);
}

use vtest::annotations::parse_annotations;

#[test]
fn rendered_annotation_lines_read_back_as_the_desired_state() {
    let rendered = render_edited_test(SOURCE, &current(), "adds", &desired("adds"), None).unwrap();
    let doc_texts: Vec<String> = rendered
        .lines()
        .filter(|line| line.starts_with("/// @vtest."))
        .map(|line| line[3..].to_owned())
        .collect();
    let parsed = parse_annotations(&doc_texts).expect("annotations");
    let values: Vec<(&str, &str)> = parsed.values.iter().map(|(k, v)| (k.as_str(), v.as_str())).collect();
    assert_eq!(
        values,
        vec![
            ("covers", "VO-ADD,VO-SUM"),
            ("expect", "3"),
            ("id", "TEST-ADD-001"),
            ("intent", "adds two numbers"),
            ("kind", "unit-normal"),
        ]
    );
    let repeated: Vec<(&str, Vec<&str>)> =
        parsed.repeated.iter().map(|(k, vs)| (k.as_str(), vs.iter().map(|v| v.as_str()).collect())).collect();
    assert_eq!(repeated, vec![("related", vec!["TEST-SUB-001"]), ("target", vec!["src/lib.rs::add"])]);
}
