use vtest::diagnostic::{Diagnostic, DiagnosticSeverity};
use vtest::discovery::{join_module_path, line_offsets, Locator as RustLocator, RUST_ADAPTER_ID};
use vtest::forms::{
    list_answer, parse_test_set_values, scalar_answer, trim_text, validate_value_shape, value_strings,
    FormField, FormValue,
};
use vtest::hash::ContentHash;
use vtest::ids::{AdapterId, SrcId, TestId, VoId};
use vtest::operations::{
    edit_distance, id_candidates, last_path_segment, list_tests, symbol_candidates, target_string,
    test_id_candidates,
};
use vtest::protocol::ScanSummary;
use vtest::scan::ScanResult;
use vtest::scan_records::validate_parent_graph;
use vtest::source::{Locator, SourceFunction, SourceLocation, TargetRef};
use vtest::test_entity::{ExecutionDescriptor, TestEntity};

fn field(name: &str, field_type: &str) -> FormField {
    FormField {
        name: name.to_owned(),
        question: String::new(),
        field_type: field_type.to_owned(),
        required: false,
        options: Vec::new(),
        validate: Vec::new(),
    }
}

fn location(file: &str, start: u64) -> SourceLocation {
    SourceLocation {
        file: file.to_owned(),
        function: "f".to_owned(),
        start_line: 1,
        end_line: 2,
        start_byte: start,
        end_byte: start + 10,
    }
}

fn test_entity(id: &str, covers: Vec<&str>) -> TestEntity {
    TestEntity {
        id: TestId::new(id),
        covers: covers.into_iter().map(VoId::new).collect(),
        targets: vec![],
        intent: "intent".to_owned(),
        input: None,
        expect: None,
        kind: None,
        cases: vec![],
        related: vec![],
        location: location("tests/a.rs", 0),
        content_hash: ContentHash::from_text(id),
        execution: ExecutionDescriptor {
            adapter: AdapterId::new("rust-cargo"),
            project: None,
            suite: None,
            selector: id.to_owned(),
        },
    }
}

fn source(value: &str) -> SourceFunction {
    SourceFunction {
        locator: Locator { adapter: AdapterId::new("rust-cargo"), value: value.to_owned() },
        src_id: None,
        location: location("src/lib.rs", 0),
        content_hash: ContentHash::from_text(value),
    }
}

fn scan_with(tests: Vec<TestEntity>, sources: Vec<SourceFunction>, diagnostics: Vec<Diagnostic>) -> ScanResult {
    ScanResult {
        summary: ScanSummary { files: 0, tests: tests.len() as u64, sources: sources.len() as u64 },
        tests,
        discovered: vec![],
        sources,
        diagnostics,
    }
}

fn messages(diagnostics: &[Diagnostic]) -> Vec<String> {
    diagnostics.iter().map(|d| format!("{} {}", d.code, d.message)).collect()
}

#[test]
fn edit_distance_handles_transcription_errors() {
    assert_eq!(edit_distance("parse", "prase"), 2);
    assert_eq!(edit_distance("add", "add"), 0);
    assert_eq!(edit_distance("subtract", "add"), 7);
}

#[test]
fn edit_distance_counts_characters_not_bytes() {
    assert_eq!(edit_distance("", "abc"), 3);
    assert_eq!(edit_distance("abc", ""), 3);
    assert_eq!(edit_distance("é", "e"), 1);
    assert_eq!(edit_distance("kitten", "sitting"), 3);
}

#[test]
fn vo_ref_field_does_not_enforce_an_id_prefix() {
    let field = field("covers", "vo-ref");
    let value = FormValue::Scalar("WIDGET-ADD".to_owned());
    assert!(validate_value_shape(&field, &value).is_ok());
}

#[test]
fn vo_ref_list_field_does_not_enforce_an_id_prefix() {
    let field = field("covers", "vo-ref-list");
    let value = FormValue::List(vec!["WIDGET-ADD".to_owned(), "GADGET-ADD".to_owned()]);
    assert!(validate_value_shape(&field, &value).is_ok());
}

#[test]
fn test_ref_field_does_not_enforce_an_id_prefix() {
    let field = field("related", "test-ref");
    let value = FormValue::Scalar("WIDGET-CHECK".to_owned());
    assert!(validate_value_shape(&field, &value).is_ok());
}

#[test]
fn vo_ref_field_still_rejects_an_empty_scalar() {
    let field = field("covers", "vo-ref");
    let value = FormValue::Scalar(String::new());
    assert!(validate_value_shape(&field, &value).is_err());
}

#[test]
fn vo_ref_list_field_rejects_a_scalar() {
    let field = field("covers", "vo-ref-list");
    let value = FormValue::Scalar("WIDGET-ADD".to_owned());
    assert!(validate_value_shape(&field, &value).is_err());
}

#[test]
fn value_shape_messages_name_the_field() {
    let list = validate_value_shape(&field("targets", "symbol-list"), &FormValue::Scalar("x".to_owned()));
    assert_eq!(list.unwrap_err().message, "answer `targets` must be a list");
    let scalar = validate_value_shape(&field("name", "string"), &FormValue::List(vec![]));
    assert_eq!(scalar.unwrap_err().message, "answer `name` must be a scalar");
    let blank = validate_value_shape(&field("name", "path"), &FormValue::Scalar("  ".to_owned()));
    let blank = blank.unwrap_err();
    assert_eq!(blank.code, "E-OP-001");
    assert_eq!(blank.message, "answer `name` must be a non-empty scalar");
}

#[test]
fn symbol_fields_require_source_locators() {
    let ok = FormValue::Scalar("src/lib.rs::widget::add".to_owned());
    assert!(validate_value_shape(&field("target", "symbol"), &ok).is_ok());
    let bad = FormValue::Scalar("widget::add".to_owned());
    assert_eq!(
        validate_value_shape(&field("target", "symbol"), &bad).unwrap_err().message,
        "answer `target` is not a source locator"
    );
    let list = FormValue::List(vec!["src/lib.rs::a".to_owned(), "lib::b".to_owned()]);
    assert_eq!(
        validate_value_shape(&field("targets", "symbol-list"), &list).unwrap_err().message,
        "answer `targets` contains an invalid source locator"
    );
}

#[test]
fn enum_fields_offer_their_options() {
    let mut kind = field("kind", "enum");
    kind.options = vec!["unit".to_owned(), "integration".to_owned()];
    assert!(validate_value_shape(&kind, &FormValue::Scalar("unit".to_owned())).is_ok());
    let error = validate_value_shape(&kind, &FormValue::Scalar("e2e".to_owned())).unwrap_err();
    assert_eq!(error.message, "invalid value `e2e` for `kind`");
    assert_eq!(error.candidates, vec!["unit".to_owned(), "integration".to_owned()]);
}

#[test]
fn ident_fields_accept_rust_identifiers_only() {
    let ident = field("fn_name", "ident");
    assert!(validate_value_shape(&ident, &FormValue::Scalar("adds_two_numbers".to_owned())).is_ok());
    let error = validate_value_shape(&ident, &FormValue::Scalar("1st".to_owned())).unwrap_err();
    assert_eq!(error.message, "answer `fn_name` is not a Rust identifier");
    assert!(validate_value_shape(&ident, &FormValue::Scalar("fn".to_owned())).is_err());
    assert!(validate_value_shape(&field("x", "unknown-type"), &FormValue::Scalar(String::new())).is_ok());
}

#[test]
fn set_values_split_lists_and_trim() {
    let values = vec![
        "id = TEST-1".to_owned(),
        "covers= VO-A, ,VO-B ".to_owned(),
        "intent=a=b".to_owned(),
    ];
    let parsed = parse_test_set_values(&values).unwrap();
    assert_eq!(parsed.len(), 3);
    assert_eq!(parsed[0].0, "id");
    assert_eq!(parsed[0].1, FormValue::Scalar("TEST-1".to_owned()));
    assert_eq!(parsed[1].0, "covers");
    assert_eq!(parsed[1].1, FormValue::List(vec!["VO-A".to_owned(), "VO-B".to_owned()]));
    assert_eq!(parsed[2].1, FormValue::Scalar("a=b".to_owned()));
    assert_eq!(scalar_answer(&parsed, "id").unwrap(), "TEST-1");
    assert_eq!(list_answer(&parsed, "covers").unwrap(), vec!["VO-A".to_owned(), "VO-B".to_owned()]);
    assert_eq!(value_strings(&parsed[0].1), vec!["TEST-1".to_owned()]);
}

#[test]
fn set_values_reject_malformed_entries() {
    let missing = parse_test_set_values(&vec!["covers".to_owned()]).unwrap_err();
    assert_eq!(missing.code, "E-OP-001");
    assert_eq!(missing.message, "--set requires field=value, got `covers`");
    let duplicate = parse_test_set_values(&vec!["id=A".to_owned(), " id =B".to_owned()]).unwrap_err();
    assert_eq!(duplicate.message, "duplicate or empty --set field `id`");
    let empty_name = parse_test_set_values(&vec![" =A".to_owned()]).unwrap_err();
    assert_eq!(empty_name.message, "duplicate or empty --set field ``");
    let empty_value = parse_test_set_values(&vec!["intent=  ".to_owned()]).unwrap_err();
    assert_eq!(empty_value.message, "--set field `intent` has an empty value");
    assert!(parse_test_set_values(&vec![]).unwrap().is_empty());
}

#[test]
fn trim_removes_unicode_white_space() {
    assert_eq!(trim_text("\u{3000} a b \t\n"), "a b");
    assert_eq!(trim_text("   "), "");
}

#[test]
fn list_tests_filters_by_vo_and_sorts_by_id() {
    let tests = vec![
        test_entity("TEST-C", vec!["VO-1"]),
        test_entity("TEST-A", vec!["VO-2"]),
        test_entity("TEST-B", vec!["VO-1", "VO-2"]),
    ];
    let unmanaged = vec![
        Diagnostic::warning("W-SCAN-101", "unregistered").with_location(location("tests/b.rs", 40)),
        Diagnostic::warning("W-SCAN-102", "isolated").with_location(location("tests/a.rs", 1)),
        Diagnostic::warning("W-SCAN-101", "unregistered").with_location(location("tests/a.rs", 90)),
        Diagnostic::warning("W-SCAN-101", "unregistered"),
        Diagnostic::warning("W-SCAN-101", "unregistered").with_location(location("tests/a.rs", 5)),
    ];
    let scan = scan_with(tests, vec![], unmanaged);
    let all = list_tests(&scan, None, false);
    let ids: Vec<&str> = all.tests.iter().map(|t| t.id.as_str()).collect();
    assert_eq!(ids, vec!["TEST-A", "TEST-B", "TEST-C"]);
    assert!(all.unregistered.is_empty());
    let vo1 = list_tests(&scan, Some("VO-1"), true);
    let ids: Vec<&str> = vo1.tests.iter().map(|t| t.id.as_str()).collect();
    assert_eq!(ids, vec!["TEST-B", "TEST-C"]);
    let places: Vec<(String, u64)> = vo1.unregistered.iter().map(|l| (l.file.clone(), l.start_byte)).collect();
    assert_eq!(
        places,
        vec![("tests/a.rs".to_owned(), 5), ("tests/a.rs".to_owned(), 90), ("tests/b.rs".to_owned(), 40)]
    );
    assert!(list_tests(&scan, Some("VO-9"), false).tests.is_empty());
}

#[test]
fn id_candidates_are_near_and_sorted() {
    let ids = vec!["TEST-3".to_owned(), "TEST-1".to_owned(), "OTHER".to_owned(), "TEST-12".to_owned()];
    assert_eq!(
        id_candidates(&ids, "TEST-2"),
        vec!["TEST-1".to_owned(), "TEST-12".to_owned(), "TEST-3".to_owned()]
    );
    assert!(id_candidates(&ids, "ZZZZZZZZ").is_empty());
    let scan = scan_with(vec![test_entity("TEST-A", vec![]), test_entity("TEST-AB", vec![])], vec![], vec![]);
    assert_eq!(test_id_candidates(&scan, "TEST-B"), vec!["TEST-A".to_owned(), "TEST-AB".to_owned()]);
}

#[test]
fn symbol_candidates_list_exact_suffixes_before_near_names() {
    let scan = scan_with(
        vec![],
        vec![
            source("src/b.rs::widget::add"),
            source("src/a.rs::gadget::add"),
            source("src/a.rs::gadget::ad"),
            source("src/a.rs::gadget::subtract"),
            source("src/b.rs::widget::add"),
        ],
        vec![],
    );
    assert_eq!(
        symbol_candidates(&scan, "src/z.rs::widget::add"),
        vec![
            "src/a.rs::gadget::add".to_owned(),
            "src/b.rs::widget::add".to_owned(),
            "src/a.rs::gadget::ad".to_owned(),
        ]
    );
    assert_eq!(last_path_segment("a::b::c"), "c");
    assert_eq!(last_path_segment("plain"), "plain");
}

#[test]
fn target_string_shows_the_locator_or_the_src_id() {
    let by_locator = TargetRef::Locator(Locator { adapter: AdapterId::new("rust-cargo"), value: "src/a.rs::f".to_owned() });
    assert_eq!(target_string(&by_locator), "src/a.rs::f");
    assert_eq!(target_string(&TargetRef::SrcId(SrcId::new("SRC-1"))), "SRC-1");
}

#[test]
fn rust_locators_parse_path_and_item() {
    let parsed = RustLocator::parse("src\\widget.rs::widget::add").unwrap();
    assert_eq!(parsed.path, "src/widget.rs");
    assert_eq!(parsed.item_path, "widget::add");
    assert_eq!(parsed.as_string(), "src/widget.rs::widget::add");
    match parsed.as_target() {
        TargetRef::Locator(locator) => {
            assert_eq!(locator.adapter.as_str(), RUST_ADAPTER_ID);
            assert_eq!(locator.value, "src/widget.rs::widget::add");
        }
        TargetRef::SrcId(_) => panic!("expected a locator"),
    }
    assert!(RustLocator::parse("widget::add").is_none());
    assert!(RustLocator::parse("src/lib.rs").is_none());
    assert!(RustLocator::parse("::add").is_none());
    assert!(RustLocator::parse("src/lib.rs::").is_none());
}

#[test]
fn module_paths_and_line_offsets() {
    assert_eq!(join_module_path("", "add"), "add");
    assert_eq!(join_module_path("widget", "add"), "widget::add");
    assert_eq!(line_offsets("a\nbc\n"), vec![0, 2, 5]);
    assert_eq!(line_offsets(""), vec![0]);
    assert_eq!(line_offsets("é\nx"), vec![0, 3]);
}

fn parents(items: &[(&str, Option<&str>)]) -> Vec<(String, Option<String>)> {
    items.iter().map(|(id, parent)| (id.to_string(), parent.map(str::to_owned))).collect()
}

#[test]
fn parent_graph_reports_missing_parents() {
    let mut diagnostics = Vec::new();
    let records = parents(&[("VO-A", None), ("VO-B", Some("VO-A")), ("VO-C", Some("VO-X"))]);
    validate_parent_graph(".verify/vo", &records, "VO", &mut diagnostics);
    assert_eq!(
        messages(&diagnostics),
        vec!["E-SCAN-008 VO VO-C references missing parent VO-X (.verify/vo/VO-C.yaml)".to_owned()]
    );
    assert_eq!(diagnostics[0].severity, DiagnosticSeverity::Error);
}

#[test]
fn parent_graph_reports_each_cycle_once() {
    let mut diagnostics = Vec::new();
    let records = parents(&[
        ("VO-A", Some("VO-B")),
        ("VO-B", Some("VO-C")),
        ("VO-C", Some("VO-A")),
        ("VO-D", Some("VO-A")),
        ("VO-E", Some("VO-E")),
    ]);
    validate_parent_graph(".verify/vo", &records, "VO", &mut diagnostics);
    assert_eq!(
        messages(&diagnostics),
        vec![
            "E-SCAN-008 VO parent cycle: VO-A -> VO-B -> VO-C (.verify/vo/VO-A.yaml)".to_owned(),
            "E-SCAN-008 VO parent cycle: VO-E (.verify/vo/VO-E.yaml)".to_owned(),
        ]
    );
}

#[test]
fn parent_graph_without_problems_reports_nothing() {
    let mut diagnostics = vec![Diagnostic::warning("W-X", "kept")];
    let records = parents(&[("VO-A", None), ("VO-B", Some("VO-A")), ("VO-C", Some("VO-B"))]);
    validate_parent_graph(".verify/vo", &records, "VO", &mut diagnostics);
    assert_eq!(messages(&diagnostics), vec!["W-X kept".to_owned()]);
}

use vtest::queries::{query_tests, validate_symbols};

fn targeting(id: &str, targets: Vec<&str>) -> TestEntity {
    let mut t = test_entity(id, vec!["VO-1"]);
    t.targets = targets
        .into_iter()
        .map(|v| TargetRef::Locator(Locator { adapter: AdapterId::new("rust-cargo"), value: v.to_owned() }))
        .collect();
    t
}

#[test]
fn query_tests_finds_the_tests_targeting_a_symbol() {
    let mut other = targeting("TEST-C", vec![]);
    other.targets.push(TargetRef::SrcId(SrcId::new("src/lib.rs::widget::add")));
    let scan = scan_with(
        vec![
            targeting("TEST-B", vec!["src/lib.rs::widget::add"]),
            targeting("TEST-A", vec!["src/other.rs::x", "src/lib.rs::widget::add"]),
            other,
        ],
        vec![source("src/lib.rs::widget::add"), source("src/lib.rs::widget::sub")],
        vec![],
    );
    let found = query_tests(&scan, "src\\lib.rs::widget::add").unwrap();
    let ids: Vec<&str> = found.iter().map(|t| t.id.as_str()).collect();
    assert_eq!(ids, vec!["TEST-A", "TEST-B"]);
    assert!(query_tests(&scan, "src/lib.rs::widget::sub").unwrap().is_empty());
    let missing = query_tests(&scan, "src/lib.rs::widget::ad").unwrap_err();
    assert_eq!(missing.code, "E-OP-001");
    assert_eq!(missing.message, "source symbol `src/lib.rs::widget::ad` does not exist");
    assert_eq!(missing.candidates, vec!["src/lib.rs::widget::add".to_owned()]);
    let invalid = query_tests(&scan, "widget::add").unwrap_err();
    assert_eq!(invalid.message, "invalid source locator `widget::add`");
    assert_eq!(invalid.candidates, vec!["src/lib.rs::widget::add".to_owned()]);
}

#[test]
fn symbol_answers_must_name_source_targets() {
    let scan = scan_with(vec![], vec![source("src/lib.rs::widget::add")], vec![]);
    let one = FormValue::Scalar("src/lib.rs::widget::add".to_owned());
    assert!(validate_symbols(&scan, "target", &one, false).is_ok());
    let shape = validate_symbols(&scan, "targets", &one, true).unwrap_err();
    assert_eq!(shape.message, "answer `targets` has the wrong type");
    let list = FormValue::List(vec!["src/lib.rs::widget::add".to_owned(), "bad".to_owned(), "src/x.rs::y".to_owned()]);
    let error = validate_symbols(&scan, "targets", &list, true).unwrap_err();
    assert_eq!(error.message, "invalid source locator `bad`");
    let list = FormValue::List(vec!["src/x.rs::add".to_owned()]);
    let error = validate_symbols(&scan, "targets", &list, true).unwrap_err();
    assert_eq!(error.message, "source symbol `src/x.rs::add` does not exist");
    assert_eq!(error.candidates, vec!["src/lib.rs::widget::add".to_owned()]);
}

use vtest::queries::destination_file;

#[test]
fn destination_file_comes_from_file_or_target() {
    let file = vec![("file".to_owned(), FormValue::Scalar("tests\\widget.rs".to_owned()))];
    assert_eq!(destination_file(&file).unwrap(), "tests/widget.rs");
    let target = vec![("target".to_owned(), FormValue::Scalar("src\\lib.rs::widget::add".to_owned()))];
    assert_eq!(destination_file(&target).unwrap(), "src/lib.rs");
    let both = vec![
        ("target".to_owned(), FormValue::Scalar("src/lib.rs::a".to_owned())),
        ("file".to_owned(), FormValue::Scalar(" ".to_owned())),
    ];
    assert_eq!(destination_file(&both).unwrap_err().message, "answer `file` must be a non-empty scalar");
    let bad = vec![("target".to_owned(), FormValue::Scalar("widget".to_owned()))];
    assert_eq!(destination_file(&bad).unwrap_err().message, "target is not a locator");
    let list = vec![("target".to_owned(), FormValue::List(vec!["src/lib.rs::a".to_owned()]))];
    assert_eq!(destination_file(&list).unwrap_err().message, "answer `target` must be a non-empty scalar");
    let none = destination_file(&vec![]).unwrap_err();
    assert_eq!(none.code, "E-OP-001");
    assert_eq!(none.message, "answers require `file` when no single target is present");
}

use vtest::desired::{validate_desired_test, DesiredTest};

fn desired_for(current: &TestEntity) -> DesiredTest {
    DesiredTest {
        id: current.id.as_str().to_owned(),
        covers: vec!["VO-ADD".to_owned()],
        targets: vec!["src/lib.rs::widget::add".to_owned()],
        intent: "adds".to_owned(),
        input: None,
        expect: None,
        kind: Some("unit-normal".to_owned()),
        cases: vec![],
        related: vec![],
        fn_name: "adds_numbers".to_owned(),
        file: current.location.file.clone(),
    }
}

fn edit_scan() -> (ScanResult, TestEntity) {
    let current = test_entity("TEST-ADD", vec!["VO-ADD"]);
    let mut existing_fn = source("tests/a.rs::taken_name");
    existing_fn.location = location("tests/a.rs", 500);
    let scan = scan_with(
        vec![current.clone(), test_entity("TEST-OTHER", vec!["VO-ADD"])],
        vec![source("src/lib.rs::widget::add"), source("src/lib.rs::widget::sub"), existing_fn],
        vec![],
    );
    (scan, current)
}

fn edit_error(desired: &DesiredTest, vo_ids: Result<Vec<String>, String>) -> Diagnostic {
    let (scan, current) = edit_scan();
    validate_desired_test(&scan, &current, desired, &vo_ids).unwrap_err()
}

fn vos() -> Result<Vec<String>, String> {
    Ok(vec!["VO-ADD".to_owned(), "VO-SUB".to_owned()])
}

#[test]
fn a_desired_test_that_keeps_to_the_rules_passes() {
    let (scan, current) = edit_scan();
    let mut desired = desired_for(&current);
    desired.related = vec!["TEST-OTHER".to_owned(), "TEST-ADD".to_owned()];
    assert!(validate_desired_test(&scan, &current, &desired, &vos()).is_ok());
    desired.targets.push("src/lib.rs::widget::sub".to_owned());
    desired.kind = Some("integration-normal".to_owned());
    assert!(validate_desired_test(&scan, &current, &desired, &vos()).is_ok());
}

#[test]
fn edit_test_allows_multiple_targets_for_a_lib_test_regardless_of_kind_string() {
    let (scan, current) = edit_scan();
    let mut desired = desired_for(&current);
    desired.targets = vec!["src/lib.rs::widget::add".to_owned(), "src/lib.rs::widget::sub".to_owned()];
    for kind in [None, Some("unit-normal"), Some("integration-normal")] {
        desired.kind = kind.map(str::to_owned);
        assert!(validate_desired_test(&scan, &current, &desired, &vos()).is_ok());
    }
}

#[test]
fn a_desired_test_may_not_change_its_id_or_file() {
    let (_, current) = edit_scan();
    let mut desired = desired_for(&current);
    desired.id = "TEST-NEW".to_owned();
    let error = edit_error(&desired, vos());
    assert_eq!((error.code.as_str(), error.message.as_str()), ("E-OP-001", "Structured Edit cannot change a Test ID"));
    let mut desired = desired_for(&current);
    desired.file = "tests/b.rs".to_owned();
    let error = edit_error(&desired, vos());
    assert_eq!((error.code.as_str(), error.message.as_str()), ("E-OP-003", "Structured Edit cannot move a Test to another file"));
}

#[test]
fn a_desired_test_must_cover_known_objectives() {
    let (_, current) = edit_scan();
    let mut desired = desired_for(&current);
    desired.covers.clear();
    assert_eq!(edit_error(&desired, vos()).message, "covers must contain at least one VO ID");
    let desired = desired_for(&current);
    let unreadable = edit_error(&desired, Err("permission denied".to_owned()));
    assert_eq!((unreadable.code.as_str(), unreadable.message.as_str()), ("E-CORE-001", "could not read entity IDs: permission denied"));
    let mut desired = desired_for(&current);
    desired.covers = vec!["VO-ADD".to_owned(), "VO-SUBB".to_owned()];
    let missing = edit_error(&desired, vos());
    assert_eq!(missing.message, "VO `VO-SUBB` does not exist");
    assert_eq!(missing.candidates, vec!["VO-SUB".to_owned()]);
}

#[test]
fn a_desired_test_must_target_existing_symbols() {
    let (_, current) = edit_scan();
    let mut desired = desired_for(&current);
    desired.targets.clear();
    assert_eq!(edit_error(&desired, vos()).message, "target must contain at least one source locator");
    let mut desired = desired_for(&current);
    desired.targets.push("src/lib.rs::widget::sub".to_owned());
    desired.kind = Some("unit-normal".to_owned());
    let (scan, _) = edit_scan();
    assert!(
        validate_desired_test(&scan, &current, &desired, &vos()).is_ok(),
        "several existing targets pass whatever the kind"
    );
    let mut desired = desired_for(&current);
    desired.targets = vec!["src/lib.rs::widget::ad".to_owned()];
    let error = edit_error(&desired, vos());
    assert_eq!(error.message, "source symbol `src/lib.rs::widget::ad` does not exist");
    assert_eq!(error.candidates, vec!["src/lib.rs::widget::add".to_owned()]);
}

#[test]
fn a_desired_test_needs_an_intent_and_a_free_function_name() {
    let (_, current) = edit_scan();
    let mut desired = desired_for(&current);
    desired.intent = "  ".to_owned();
    assert_eq!(edit_error(&desired, vos()).message, "intent must not be empty");
    let mut desired = desired_for(&current);
    desired.fn_name = "2fast".to_owned();
    assert_eq!(edit_error(&desired, vos()).message, "`2fast` is not a Rust identifier");
    let mut desired = desired_for(&current);
    desired.fn_name = "taken_name".to_owned();
    assert_eq!(edit_error(&desired, vos()).message, "function `taken_name` already exists in `tests/a.rs`");
    let mut desired = desired_for(&current);
    desired.related = vec!["TEST-OTHR".to_owned()];
    let error = edit_error(&desired, vos());
    assert_eq!(error.message, "related Test `TEST-OTHR` does not exist");
    assert_eq!(error.candidates, vec!["TEST-OTHER".to_owned()]);
}

#[test]
fn edit_distance_is_symmetric_and_bounded() {
    for (a, b) in [("kitten", "sitting"), ("", "abc"), ("flaw", "lawn"), ("é", "e")] {
        let d = edit_distance(a, b);
        assert_eq!(d, edit_distance(b, a));
        let (ca, cb) = (a.chars().count(), b.chars().count());
        assert!(ca.max(cb) - ca.min(cb) <= d && d <= ca.max(cb));
    }
    assert_eq!(edit_distance("kitten", "sitting"), 3);
    assert_eq!(edit_distance("same", "same"), 0);
    for (a, b, c) in [("kitten", "sitten", "sitting"), ("abc", "", "cba"), ("flaw", "law", "lawn")] {
        assert!(edit_distance(a, c) <= edit_distance(a, b) + edit_distance(b, c));
    }
}

#[test]
fn a_parsed_locator_written_back_parses_to_itself() {
    let parsed = RustLocator::parse("src\\lib.rs::widget::add").unwrap();
    assert_eq!(parsed.path, "src/lib.rs");
    let again = RustLocator::parse(&parsed.as_string()).unwrap();
    assert_eq!(again, parsed);
}
