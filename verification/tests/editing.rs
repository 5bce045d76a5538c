use vtest::editing::{deindent, indent_multiline, source_offset, unresolved_placeholder};
use vtest::hash::ContentHash;
use vtest::ids::{AdapterId, TestId};
use vtest::protocol::ScanSummary;
use vtest::scan::ScanResult;
use vtest::source::SourceLocation;
use vtest::test_edits::{audit_mentions_test, test_hashes, verify_other_test_hashes};
use vtest::test_entity::{ExecutionDescriptor, TestEntity};

#[test]
fn source_offsets_address_lines_and_columns() {
    let source = "ab\ncde\n\nf";
    assert_eq!(source_offset(source, 1, 0), Some(0));
    assert_eq!(source_offset(source, 1, 2), Some(2));
    assert_eq!(source_offset(source, 1, 3), None);
    assert_eq!(source_offset(source, 2, 3), Some(6));
    assert_eq!(source_offset(source, 3, 0), Some(7));
    assert_eq!(source_offset(source, 3, 1), None);
    assert_eq!(source_offset(source, 4, 1), Some(9));
    assert_eq!(source_offset(source, 5, 0), None);
    assert_eq!(source_offset(source, 0, 0), None);
    assert_eq!(source_offset("a\n", 2, 0), None);
    assert_eq!(source_offset("", 1, 0), None);
    assert_eq!(source_offset("é\nx", 2, 1), Some(4));
}

#[test]
fn multiline_text_is_indented_after_each_newline() {
    assert_eq!(indent_multiline("a\nb\n", "    "), "a\n    b\n    ");
    assert_eq!(indent_multiline("single", "  "), "single");
    assert_eq!(indent_multiline("", "  "), "");
}

#[test]
fn deindent_strips_the_indent_from_every_line_but_the_first() {
    assert_eq!(deindent("fn a() {\n        x();\n    }", "    "), "fn a() {\n    x();\n}");
    assert_eq!(deindent("    first\n  short\n", "    "), "    first\n  short");
    assert_eq!(deindent("a\r\n    b\r\n", "    "), "a\nb");
    assert_eq!(deindent("", "    "), "");
    assert_eq!(deindent("a\n\n", "  "), "a\n");
}

#[test]
fn unresolved_placeholders_are_found_left_to_right() {
    assert_eq!(unresolved_placeholder("fn {fn_name}() {}"), Some("fn_name".to_owned()));
    assert_eq!(unresolved_placeholder("let x = {}; let y = {Y_2};"), Some("Y_2".to_owned()));
    assert_eq!(unresolved_placeholder("{not valid} then {ok}"), Some("ok".to_owned()));
    assert_eq!(unresolved_placeholder("nothing here"), None);
    assert_eq!(unresolved_placeholder("open { without close"), None);
    assert_eq!(unresolved_placeholder("{é} {}"), None);
}

#[test]
fn audits_mention_a_test_under_a_test_subject() {
    let audit = "id: AUD-1\nsubjects:\n  - kind: 'vo'\n    id: TEST-1\n  - kind: \"test\"\n    id: 'TEST-1'\n";
    assert!(audit_mentions_test(audit, "TEST-1"));
    assert!(!audit_mentions_test(audit, "TEST-2"));
    let only_vo = "subjects:\n  - kind: vo\n    id: TEST-1\n";
    assert!(!audit_mentions_test(only_vo, "TEST-1"));
    let first_id_only = "- kind: test\n  id: TEST-A\n  id: TEST-B\n";
    assert!(audit_mentions_test(first_id_only, "TEST-A"));
    assert!(!audit_mentions_test(first_id_only, "TEST-B"));
    assert!(!audit_mentions_test("", "TEST-1"));
}

fn test(id: &str, hash_text: &str) -> TestEntity {
    TestEntity {
        id: TestId::new(id),
        covers: vec![],
        targets: vec![],
        intent: "i".to_owned(),
        input: None,
        expect: None,
        kind: None,
        cases: vec![],
        related: vec![],
        location: SourceLocation {
            file: "tests/a.rs".to_owned(),
            function: "f".to_owned(),
            start_line: 1,
            end_line: 1,
            start_byte: 0,
            end_byte: 1,
        },
        content_hash: ContentHash::from_text(hash_text),
        execution: ExecutionDescriptor {
            adapter: AdapterId::new("rust-cargo"),
            project: None,
            suite: None,
            selector: id.to_owned(),
        },
    }
}

fn scan(tests: Vec<TestEntity>) -> ScanResult {
    ScanResult {
        summary: ScanSummary { files: 0, tests: tests.len() as u64, sources: 0 },
        tests,
        discovered: vec![],
        sources: vec![],
        diagnostics: vec![],
    }
}

#[test]
fn test_hashes_keep_the_last_test_of_each_id_in_id_order() {
    let before = scan(vec![test("TEST-B", "b"), test("TEST-A", "a1"), test("TEST-A", "a2")]);
    let table = test_hashes(&before);
    let ids: Vec<&str> = table.iter().map(|(id, _)| id.as_str()).collect();
    assert_eq!(ids, vec!["TEST-A", "TEST-B"]);
    assert_eq!(table[0].1, ContentHash::from_text("a2"));
    assert_eq!(table[1].1, ContentHash::from_text("b"));
}

#[test]
fn an_unchanged_scan_passes_its_own_hash_check() {
    let unchanged = scan(vec![test("TEST-A", "a"), test("TEST-B", "b")]);
    let table = test_hashes(&unchanged);
    assert!(verify_other_test_hashes(&unchanged, &table, None).is_ok());
    assert!(verify_other_test_hashes(&unchanged, &table, Some("TEST-A")).is_ok());
}

#[test]
fn a_change_outside_the_edited_test_is_reported() {
    let before = scan(vec![test("TEST-A", "a"), test("TEST-B", "b"), test("TEST-C", "c")]);
    let table = test_hashes(&before);
    let after = scan(vec![test("TEST-A", "a-edited"), test("TEST-B", "b-changed")]);
    assert!(verify_other_test_hashes(&after, &table, Some("TEST-B")).is_err());
    let error = verify_other_test_hashes(&after, &table, Some("TEST-A")).unwrap_err();
    assert_eq!(error.code, "E-OP-003");
    assert_eq!(error.message, "operation changed Test `TEST-B` outside its edit boundary");
    let gone = scan(vec![test("TEST-A", "a"), test("TEST-B", "b")]);
    let error = verify_other_test_hashes(&gone, &table, None).unwrap_err();
    assert_eq!(error.message, "operation changed Test `TEST-C` outside its edit boundary");
}

#[test]
fn colliding_ids_with_different_hashes_fail_their_own_check() {
    let colliding = scan(vec![test("TEST-A", "first"), test("TEST-A", "second")]);
    let table = test_hashes(&colliding);
    assert!(verify_other_test_hashes(&colliding, &table, None).is_err());
}

use vtest::forms::FormValue;
use vtest::test_ids::{parse_u64, select_test_id};

fn covers(value: FormValue) -> Vec<(String, FormValue)> {
    vec![("intent".to_owned(), FormValue::Scalar("x".to_owned())), ("covers".to_owned(), value)]
}

#[test]
fn u64_parsing_follows_the_standard_rules() {
    assert_eq!(parse_u64("007"), Some(7));
    assert_eq!(parse_u64("+12"), Some(12));
    assert_eq!(parse_u64("18446744073709551615"), Some(u64::MAX));
    assert_eq!(parse_u64("18446744073709551616"), None);
    assert_eq!(parse_u64(""), None);
    assert_eq!(parse_u64("+"), None);
    assert_eq!(parse_u64("-1"), None);
    assert_eq!(parse_u64("1a"), None);
}

#[test]
fn explicit_test_ids_must_be_free_and_without_white_space() {
    let existing = scan(vec![test("TEST-A-001", "a")]);
    assert_eq!(select_test_id(&existing, &vec![], Some("TEST-NEW")).unwrap(), "TEST-NEW");
    let taken = select_test_id(&existing, &vec![], Some("TEST-A-001")).unwrap_err();
    assert_eq!(taken.code, "E-OP-001");
    assert_eq!(taken.message, "Test ID `TEST-A-001` already exists");
    let spaced = select_test_id(&existing, &vec![], Some("TEST A")).unwrap_err();
    assert_eq!(spaced.message, "Test ID must be non-empty and contain no whitespace");
    assert!(select_test_id(&existing, &vec![], Some("")).is_err());
}

#[test]
fn generated_test_ids_continue_the_area_series() {
    let existing = scan(vec![
        test("TEST-WIDGET-001", "a"),
        test("TEST-WIDGET-009", "b"),
        test("TEST-WIDGET-x", "c"),
        test("TEST-OTHER-050", "d"),
    ]);
    let answers = covers(FormValue::List(vec!["VO-WIDGET-ADD".to_owned(), "VO-OTHER".to_owned()]));
    assert_eq!(select_test_id(&existing, &answers, None).unwrap(), "TEST-WIDGET-010");
    let fresh = covers(FormValue::Scalar("GADGET".to_owned()));
    assert_eq!(select_test_id(&existing, &fresh, None).unwrap(), "TEST-GADGET-001");
    let no_area = covers(FormValue::List(vec!["VO--X".to_owned()]));
    assert_eq!(select_test_id(&existing, &no_area, None).unwrap(), "TEST-AUTO-001");
    let big = scan(vec![test("TEST-W-1234", "a")]);
    let answers = covers(FormValue::List(vec!["VO-W".to_owned()]));
    assert_eq!(select_test_id(&big, &answers, None).unwrap(), "TEST-W-1235");
}

#[test]
fn generated_test_ids_report_what_is_missing() {
    let empty = scan(vec![]);
    assert_eq!(select_test_id(&empty, &vec![], None).unwrap_err().message, "answers require `covers`");
    assert_eq!(
        select_test_id(&empty, &covers(FormValue::List(vec![])), None).unwrap_err().message,
        "answers require a non-empty `covers`"
    );
    let full = scan(vec![test("TEST-W-18446744073709551615", "a")]);
    assert_eq!(
        select_test_id(&full, &covers(FormValue::List(vec!["VO-W".to_owned()])), None).unwrap_err().message,
        "Test ID sequence overflow"
    );
    let padded = scan(vec![test("TEST-W-1", "a"), test("TEST-W-002", "b"), test("TEST-W-+02", "c")]);
    let generated = select_test_id(&padded, &covers(FormValue::List(vec!["VO-W".to_owned()])), None);
    assert_eq!(generated.unwrap(), "TEST-W-003");
}

use vtest::discovery::{line_offsets, make_location};
use vtest::editing::{line_indent, source_slice};

#[test]
fn line_indent_is_the_text_before_a_byte_on_its_line() {
    let source = "mod m {\n    fn a() {}\n}\n";
    assert_eq!(line_indent(source, 12), "    ");
    assert_eq!(line_indent(source, 0), "");
    assert_eq!(line_indent(source, 8), "");
    assert_eq!(line_indent("é x", 3), "é ");
}

#[test]
fn source_slices_cover_whole_characters_only() {
    let source = "aé\nbc";
    let at = |start: u64, end: u64| SourceLocation {
        file: "src/lib.rs".to_owned(),
        function: "f".to_owned(),
        start_line: 1,
        end_line: 1,
        start_byte: start,
        end_byte: end,
    };
    assert_eq!(source_slice(source, &at(0, 3)), "aé");
    assert_eq!(source_slice(source, &at(4, 6)), "bc");
    assert_eq!(source_slice(source, &at(0, 2)), "");
    assert_eq!(source_slice(source, &at(3, 2)), "");
    assert_eq!(source_slice(source, &at(0, 7)), "");
    assert_eq!(source_slice(source, &at(6, 6)), "");
}

#[test]
fn locations_come_from_lines_and_columns() {
    let source = "fn a() {}\nfn b() {\n}\n";
    let offsets = line_offsets(source);
    let location = make_location("src/lib.rs", "b", (2, 0), (3, 1), source.len(), &offsets);
    assert_eq!(location.file, "src/lib.rs");
    assert_eq!(location.function, "b");
    assert_eq!((location.start_line, location.end_line), (2, 3));
    assert_eq!((location.start_byte, location.end_byte), (10, 20));
    let clamped = make_location("src/lib.rs", "x", (0, 2), (0, 99), source.len(), &offsets);
    assert_eq!((clamped.start_line, clamped.end_line), (1, 1));
    assert_eq!((clamped.start_byte, clamped.end_byte), (2, 21));
    let past = make_location("src/lib.rs", "y", (9, 0), (9, 0), source.len(), &offsets);
    assert_eq!((past.start_byte, past.end_byte), (0, 21));
}

use vtest::evidence::{
    EvidenceHashes, EvidenceRecord, ExecutionState, Revision, RunnerInfo, TargetCoverage, TargetCoverageResult,
    TestResult,
};
use vtest::operations::{evidence_state, CheckValue};

fn evidence(checked: bool, result: TargetCoverageResult) -> EvidenceRecord {
    EvidenceRecord {
        id: "EV-1".to_owned(),
        test_id: TestId::new("TEST-1"),
        adapter: AdapterId::new("rust-cargo"),
        result: TestResult::Fail,
        executed_at: "2026-01-01T00:00:00Z".to_owned(),
        revision: Revision { commit: None, dirty: false },
        execution_state: ExecutionState { schema: "s".to_owned(), complete: false, hash: None },
        hashes: EvidenceHashes {
            test_fn: ContentHash::from_text("t"),
            target_fn: ContentHash::from_text("f"),
            target_fns: vec![],
        },
        runner: RunnerInfo { kind: "cargo".to_owned(), command: "cargo test".to_owned(), exit_code: 101 },
        target_coverage: TargetCoverage { checked, method: None, result, count: None },
        log_ref: "log".to_owned(),
    }
}

#[test]
fn evidence_shows_target_execution_only_when_checked() {
    let shown = evidence_state(&evidence(true, TargetCoverageResult::Unknown));
    assert_eq!(shown.id, "EV-1");
    assert_eq!(shown.result, TestResult::Fail);
    assert_eq!(shown.target_execution, CheckValue::Unknown);
    assert_eq!(shown.executed_at, "2026-01-01T00:00:00Z");
    assert_eq!(evidence_state(&evidence(true, TargetCoverageResult::Pass)).target_execution, CheckValue::Pass);
    assert_eq!(evidence_state(&evidence(true, TargetCoverageResult::Fail)).target_execution, CheckValue::Fail);
    assert_eq!(evidence_state(&evidence(false, TargetCoverageResult::Pass)).target_execution, CheckValue::NotChecked);
}

use vtest::operations::{order_evidence, test_to_show, EvidenceState};

fn shown(id: &str, at: &str) -> EvidenceState {
    EvidenceState {
        id: id.to_owned(),
        result: TestResult::Pass,
        target_execution: CheckValue::NotChecked,
        executed_at: at.to_owned(),
    }
}

#[test]
fn evidence_is_shown_by_execution_time_keeping_ties_in_order() {
    let ordered = order_evidence(vec![
        shown("EV-3", "2026-02-01T00:00:00Z"),
        shown("EV-1", "2026-01-01T00:00:00Z"),
        shown("EV-2", "2026-02-01T00:00:00Z"),
        shown("EV-0", "2025-12-31T23:59:59Z"),
    ]);
    let ids: Vec<&str> = ordered.iter().map(|e| e.id.as_str()).collect();
    assert_eq!(ids, vec!["EV-0", "EV-1", "EV-3", "EV-2"]);
}

#[test]
fn a_test_to_show_must_exist() {
    let scan = scan(vec![test("TEST-ADD-001", "adds")]);
    assert_eq!(test_to_show(&scan, "TEST-ADD-001").unwrap().id.0, "TEST-ADD-001");
    let error = test_to_show(&scan, "TEST-ADD-002").unwrap_err();
    assert_eq!(error.code, "E-OP-001");
    assert_eq!(error.message, "Test `TEST-ADD-002` does not exist");
    assert_eq!(error.candidates, vec!["TEST-ADD-001".to_owned()]);
}

#[test]
fn deindent_takes_back_what_indent_multiline_added() {
    for text in ["fn a() {\n    x();\n}", "one\n\ntwo\n", "", "single line"] {
        assert_eq!(deindent(&indent_multiline(text, "    "), "    "), text);
    }
    assert_eq!(deindent(&indent_multiline("a\nb", ""), ""), "a\nb");
}
