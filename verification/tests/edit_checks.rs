use vtest::desired::DesiredTest;
use vtest::edit_checks::{test_matches_desired, verify_edit};
use vtest::hash::ContentHash;
use vtest::ids::{AdapterId, TestId, VoId};
use vtest::protocol::ScanSummary;
use vtest::scan::ScanResult;
use vtest::source::{Locator, SourceLocation, TargetRef};
use vtest::test_entity::{ExecutionDescriptor, TestEntity};

fn test(id: &str, function: &str, hash: &str) -> TestEntity {
    TestEntity {
        id: TestId::new(id),
        covers: vec![VoId::new("VO-ADD")],
        targets: vec![TargetRef::Locator(Locator {
            adapter: AdapterId::new("rust-cargo"),
            value: "src/lib.rs::add".to_owned(),
        })],
        intent: "adds".to_owned(),
        input: None,
        expect: Some("3".to_owned()),
        kind: None,
        cases: vec![],
        related: vec![],
        location: SourceLocation {
            file: "tests/calc.rs".to_owned(),
            function: function.to_owned(),
            start_line: 1,
            end_line: 5,
            start_byte: 0,
            end_byte: 50,
        },
        content_hash: ContentHash::from_text(hash),
        execution: ExecutionDescriptor {
            adapter: AdapterId::new("rust-cargo"),
            project: None,
            suite: None,
            selector: function.to_owned(),
        },
    }
}

fn desired() -> DesiredTest {
    DesiredTest {
        id: "TEST-ADD-001".to_owned(),
        covers: vec!["VO-ADD".to_owned()],
        targets: vec!["src/lib.rs::add".to_owned()],
        intent: "adds".to_owned(),
        input: None,
        expect: Some("3".to_owned()),
        kind: None,
        cases: vec![],
        related: vec![],
        fn_name: "adds".to_owned(),
        file: "tests/calc.rs".to_owned(),
    }
}

fn scan(tests: Vec<TestEntity>) -> ScanResult {
    ScanResult {
        summary: ScanSummary { files: 1, tests: tests.len() as u64, sources: 0 },
        tests,
        discovered: vec![],
        sources: vec![],
        diagnostics: vec![],
    }
}

fn before() -> Vec<(String, ContentHash)> {
    vec![
        ("TEST-ADD-001".to_owned(), ContentHash::from_text("old edited body")),
        ("TEST-SUB-001".to_owned(), ContentHash::from_text("sub body")),
    ]
}

#[test]
fn a_rescanned_test_in_the_desired_state_passes() {
    let after = scan(vec![test("TEST-ADD-001", "adds", "new body"), test("TEST-SUB-001", "subs", "sub body")]);
    assert!(test_matches_desired(&after.tests[0], &desired()));
    assert!(verify_edit(&after, "TEST-ADD-001", &desired(), &before()).is_ok());
}

#[test]
fn an_edited_test_the_scanner_lost_is_reported() {
    let after = scan(vec![test("TEST-SUB-001", "subs", "sub body")]);
    let error = verify_edit(&after, "TEST-ADD-001", &desired(), &before()).unwrap_err();
    assert_eq!(error.code, "E-OP-003");
    assert_eq!(error.message, "edited Test `TEST-ADD-001` was not recognized by the scanner");
}

#[test]
fn an_edited_test_in_another_state_is_reported() {
    let mut renamed = desired();
    renamed.fn_name = "adds_numbers".to_owned();
    let after = scan(vec![test("TEST-ADD-001", "adds", "new body")]);
    assert!(!test_matches_desired(&after.tests[0], &renamed));
    let error = verify_edit(&after, "TEST-ADD-001", &renamed, &before()).unwrap_err();
    assert_eq!(error.message, "edited Test `TEST-ADD-001` does not match the desired state");
}

#[test]
fn another_test_changed_by_the_edit_is_reported() {
    let after = scan(vec![test("TEST-ADD-001", "adds", "new body"), test("TEST-SUB-001", "subs", "changed")]);
    let error = verify_edit(&after, "TEST-ADD-001", &desired(), &before()).unwrap_err();
    assert_eq!(error.code, "E-OP-003");
    assert_eq!(error.message, "operation changed Test `TEST-SUB-001` outside its edit boundary");
}

#[test]
fn the_current_state_of_a_test_is_a_desired_state_it_matches() {
    let current = test("TEST-ADD-001", "adds", "body");
    let state = DesiredTest::from_current(&current);
    assert!(test_matches_desired(&current, &state));
    assert_eq!(state.id, "TEST-ADD-001");
    assert_eq!(state.covers, vec!["VO-ADD".to_owned()]);
    assert_eq!(state.targets, vec!["src/lib.rs::add".to_owned()]);
    assert_eq!(state.expect.as_deref(), Some("3"));
    assert_eq!(state.fn_name, "adds");
    assert_eq!(state.file, "tests/calc.rs");
}

use vtest::edit_checks::{check_edit_request, test_to_edit};

#[test]
fn an_edit_request_asks_for_one_kind_of_change() {
    let both = check_edit_request(true, true, false).unwrap_err();
    assert_eq!(both.code, "E-OP-001");
    assert_eq!(both.message, "test edit accepts either --answers or --set, not both");
    let nothing = check_edit_request(false, false, false).unwrap_err();
    assert_eq!(nothing.message, "test edit requires --answers, --set, or --body-file");
    assert!(check_edit_request(true, false, false).is_ok());
    assert!(check_edit_request(false, true, true).is_ok());
    assert!(check_edit_request(false, false, true).is_ok());
}

#[test]
fn a_test_to_edit_must_be_located() {
    let found = scan(vec![test("TEST-ADD-001", "adds", "body")]);
    assert_eq!(test_to_edit(&found, "TEST-ADD-001").unwrap().location.function, "adds");
    let error = test_to_edit(&found, "TEST-ADD-01").unwrap_err();
    assert_eq!(error.code, "E-OP-002");
    assert_eq!(error.message, "Test `TEST-ADD-01` could not be located");
    assert_eq!(error.candidates, vec!["TEST-ADD-001".to_owned()]);
}

#[test]
fn edit_test_rejects_a_colliding_test_id() {
    let colliding = scan(vec![
        test("TEST-EDIT-COLLISION", "edit_collision_first", "first"),
        test("TEST-EDIT-COLLISION", "edit_collision_second", "second"),
    ]);
    let error = test_to_edit(&colliding, "TEST-EDIT-COLLISION").unwrap_err();
    assert_eq!(error.code, "E-OP-002");
    assert!(error.message.contains("2 Test constructs"), "{}", error.message);
    assert_eq!(error.message, "Test ID `TEST-EDIT-COLLISION` is declared by 2 Test constructs");
}

use vtest::forms::FormValue;

fn scalar(text: &str) -> FormValue {
    FormValue::Scalar(text.to_owned())
}

fn list(items: &[&str]) -> FormValue {
    FormValue::List(items.iter().map(|i| i.to_string()).collect())
}

#[test]
fn set_values_replace_the_named_fields_in_order() {
    let mut state = DesiredTest::from_current(&test("TEST-ADD-001", "adds", "body"));
    let set = vec![
        ("behavior".to_owned(), scalar("adds two numbers")),
        ("case".to_owned(), list(&["zero", "negative"])),
        ("targets".to_owned(), list(&["src/lib.rs::add", "src/lib.rs::sum"])),
        ("test_kind".to_owned(), scalar("normal")),
    ];
    state.apply_sets(&set).unwrap();
    assert_eq!(state.intent, "adds two numbers");
    assert_eq!(state.cases, vec!["zero".to_owned(), "negative".to_owned()]);
    assert_eq!(state.targets.len(), 2);
    assert_eq!(state.kind.as_deref(), Some("unit-normal"));
    let mut single = DesiredTest::from_current(&test("TEST-ADD-001", "adds", "body"));
    single.apply_sets(&vec![("test_kind".to_owned(), scalar("normal"))]).unwrap();
    assert_eq!(single.kind.as_deref(), Some("unit-normal"));
}

#[test]
fn a_set_value_for_another_field_is_refused() {
    let mut state = DesiredTest::from_current(&test("TEST-ADD-001", "adds", "body"));
    let set = vec![("expect".to_owned(), scalar("4")), ("id".to_owned(), scalar("TEST-NEW"))];
    let error = state.apply_sets(&set).unwrap_err();
    assert_eq!(error.code, "E-OP-001");
    assert_eq!(error.message, "test edit cannot set field `id`");
    assert_eq!(state.expect.as_deref(), Some("4"));
    assert_eq!(state.id, "TEST-ADD-001");
}

#[test]
fn complete_answers_give_the_whole_desired_state() {
    let mut state = DesiredTest::from_current(&test("TEST-ADD-001", "adds", "body"));
    let answers = vec![
        ("behavior".to_owned(), scalar("combines calculator operations")),
        ("covers".to_owned(), list(&["VO-ADD"])),
        ("file".to_owned(), scalar("tests\\calc.rs")),
        ("fn_name".to_owned(), scalar("adds")),
        ("targets".to_owned(), list(&["src/lib.rs::add", "src/lib.rs::subtract"])),
        ("test_kind".to_owned(), scalar("normal")),
    ];
    state.apply_complete_answers(&answers).unwrap();
    assert_eq!(state.intent, "combines calculator operations");
    assert_eq!(state.file, "tests/calc.rs");
    assert_eq!(state.kind.as_deref(), Some("unit-normal"));
    assert_eq!(state.expect, None);
    assert!(state.cases.is_empty());
    let mut missing = DesiredTest::from_current(&test("TEST-ADD-001", "adds", "body"));
    let error = missing.apply_complete_answers(&vec![("covers".to_owned(), list(&["VO-ADD"]))]).unwrap_err();
    assert_eq!(error.message, "desired state requires scalar answer `target`");
    assert_eq!(missing.covers, vec!["VO-ADD".to_owned()]);
}

use vtest::edit_sets::{test_matches_answers, verify_create};

fn creation_answers() -> Vec<(String, FormValue)> {
    vec![
        ("behavior".to_owned(), scalar("adds")),
        ("covers".to_owned(), list(&["VO-ADD"])),
        ("target".to_owned(), scalar("src/lib.rs::add")),
    ]
}

#[test]
fn a_created_test_has_what_the_answers_asked_for() {
    let created = test("TEST-ADD-001", "adds", "body");
    assert!(test_matches_answers(&created, &creation_answers()));
    assert!(test_matches_answers(&created, &vec![]));
    let other_intent = vec![("behavior".to_owned(), scalar("subtracts"))];
    assert!(!test_matches_answers(&created, &other_intent));
    let other_covers = vec![("covers".to_owned(), list(&["VO-ADD", "VO-SUB"]))];
    assert!(!test_matches_answers(&created, &other_covers));
    let by_targets = vec![("targets".to_owned(), list(&["src/lib.rs::add"]))];
    assert!(test_matches_answers(&created, &by_targets));
    let target_first = vec![
        ("target".to_owned(), scalar("src/lib.rs::subtract")),
        ("targets".to_owned(), list(&["src/lib.rs::add"])),
    ];
    assert!(!test_matches_answers(&created, &target_first));
}

#[test]
fn a_rescanned_created_test_is_checked_against_the_answers() {
    let earlier = vec![("TEST-SUB-001".to_owned(), ContentHash::from_text("sub body"))];
    let after = scan(vec![test("TEST-ADD-001", "adds", "new body"), test("TEST-SUB-001", "subs", "sub body")]);
    assert!(verify_create(&after, "TEST-ADD-001", &creation_answers(), &earlier).is_ok());

    let lost = scan(vec![test("TEST-SUB-001", "subs", "sub body")]);
    let error = verify_create(&lost, "TEST-ADD-001", &creation_answers(), &earlier).unwrap_err();
    assert_eq!(error.code, "E-OP-003");
    assert_eq!(error.message, "created Test `TEST-ADD-001` was not recognized by the scanner");

    let other = vec![("behavior".to_owned(), scalar("subtracts"))];
    let error = verify_create(&after, "TEST-ADD-001", &other, &earlier).unwrap_err();
    assert_eq!(error.message, "created Test `TEST-ADD-001` does not match the desired state");

    let changed = scan(vec![test("TEST-ADD-001", "adds", "new body"), test("TEST-SUB-001", "subs", "changed")]);
    let error = verify_create(&changed, "TEST-ADD-001", &creation_answers(), &earlier).unwrap_err();
    assert_eq!(error.message, "operation changed Test `TEST-SUB-001` outside its edit boundary");
}

use vtest::test_render::render_edited_test;

const EDITED_SOURCE: &str = "/// @vtest.id TEST-ADD\n/// @vtest.covers VO-ADD\n/// @vtest.intent adds\n#[test]\nfn adds() {\n    assert_eq!(add(1, 2), 3);\n}";

#[test]
fn edit_test_set_test_kind_always_generates_the_unit_prefix_regardless_of_target_count() {
    let current = test("TEST-ADD", "adds", "body");
    let mut state = DesiredTest::from_current(&current);
    let set = vec![
        ("targets".to_owned(), list(&["src/lib.rs::add", "src/lib.rs::subtract"])),
        ("test_kind".to_owned(), scalar("normal")),
    ];
    state.apply_sets(&set).expect("editing an integration test's targets and test_kind together must succeed");
    assert_eq!(state.targets, vec!["src/lib.rs::add".to_owned(), "src/lib.rs::subtract".to_owned()]);
    assert_eq!(state.kind.as_deref(), Some("unit-normal"));
    let rendered = render_edited_test(EDITED_SOURCE, &current, "adds", &state, None).unwrap();
    assert!(rendered.contains("@vtest.kind unit-normal"), "expected `unit-normal`, got rendered output: {rendered}");
    assert!(!rendered.contains("@vtest.kind integration-"), "must not generate an `integration-` prefix: {rendered}");
}

#[test]
fn edit_test_with_rust_integration_answers_generates_the_unit_prefix() {
    let current = test("TEST-ADD", "adds", "body");
    let mut state = DesiredTest::from_current(&current);
    let answers = vec![
        ("behavior".to_owned(), scalar("combines calculator operations")),
        ("covers".to_owned(), list(&["VO-ADD"])),
        ("expect".to_owned(), scalar("consistent arithmetic")),
        ("file".to_owned(), scalar("tests/calc.rs")),
        ("fn_name".to_owned(), scalar("adds")),
        ("input".to_owned(), scalar("two integers")),
        ("targets".to_owned(), list(&["src/lib.rs::add", "src/lib.rs::subtract"])),
        ("test_kind".to_owned(), scalar("normal")),
    ];
    state
        .apply_complete_answers(&answers)
        .expect("editing via the rust-integration built-in Form must succeed");
    assert_eq!(state.kind.as_deref(), Some("unit-normal"));
    assert_eq!(state.targets, vec!["src/lib.rs::add".to_owned(), "src/lib.rs::subtract".to_owned()]);
    assert_eq!(state.intent, "combines calculator operations");
    assert_eq!(state.fn_name, "adds");
    assert!(state.cases.is_empty());
    assert!(state.related.is_empty());
    let rendered = render_edited_test(EDITED_SOURCE, &current, "adds", &state, None).unwrap();
    assert!(rendered.contains("@vtest.kind unit-normal"), "expected `unit-normal`, got rendered output: {rendered}");
}
