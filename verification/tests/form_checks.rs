use vtest::diagnostic::Diagnostic;
use vtest::form_answers::{
    validate_form_answers, validate_form_answers_for, FormAnswers, FormCheck, FormSchema, ProjectCheck,
};
use vtest::forms::{FormField, FormValue};
use vtest::hash::ContentHash;
use vtest::ids::{AdapterId, TestId, VoId};
use vtest::protocol::ScanSummary;
use vtest::scan::ScanResult;
use vtest::source::{Locator, SourceFunction, SourceLocation};
use vtest::test_entity::{ExecutionDescriptor, TestEntity};

fn field(name: &str, field_type: &str, required: bool, validate: &[&str]) -> FormField {
    FormField {
        name: name.to_owned(),
        question: String::new(),
        field_type: field_type.to_owned(),
        required,
        options: Vec::new(),
        validate: validate.iter().map(|v| v.to_string()).collect(),
    }
}

fn location(file: &str, function: &str, start: u64) -> SourceLocation {
    SourceLocation {
        file: file.to_owned(),
        function: function.to_owned(),
        start_line: 1,
        end_line: 2,
        start_byte: start,
        end_byte: start + 10,
    }
}

fn test_in(id: &str, file: &str, function: &str, start: u64) -> TestEntity {
    TestEntity {
        id: TestId::new(id),
        covers: vec![VoId::new("VO-ADD")],
        targets: vec![],
        intent: "intent".to_owned(),
        input: None,
        expect: None,
        kind: None,
        cases: vec![],
        related: vec![],
        location: location(file, function, start),
        content_hash: ContentHash::from_text(id),
        execution: ExecutionDescriptor {
            adapter: AdapterId::new("rust-cargo"),
            project: None,
            suite: None,
            selector: id.to_owned(),
        },
    }
}

fn source_in(value: &str, file: &str, function: &str, start: u64) -> SourceFunction {
    SourceFunction {
        locator: Locator { adapter: AdapterId::new("rust-cargo"), value: value.to_owned() },
        src_id: None,
        location: location(file, function, start),
        content_hash: ContentHash::from_text(value),
    }
}

fn scan() -> ScanResult {
    let tests = vec![test_in("TEST-ADD-001", "tests/calc.rs", "adds", 0)];
    let sources = vec![
        source_in("src/lib.rs::add", "src/lib.rs", "add", 0),
        source_in("tests/calc.rs::adds", "tests/calc.rs", "adds", 0),
    ];
    ScanResult {
        summary: ScanSummary { files: 2, tests: tests.len() as u64, sources: sources.len() as u64 },
        tests,
        discovered: vec![],
        sources,
        diagnostics: vec![],
    }
}

fn schema(fields: Vec<FormField>) -> FormSchema {
    FormSchema { kind: "rust-unit".to_owned(), fields, template: String::new() }
}

fn scalar(text: &str) -> FormValue {
    FormValue::Scalar(text.to_owned())
}

fn list(items: &[&str]) -> FormValue {
    FormValue::List(items.iter().map(|i| i.to_string()).collect())
}

fn answers(form: &str, items: Vec<(&str, FormValue)>) -> FormAnswers {
    FormAnswers { form: form.to_owned(), answers: items.into_iter().map(|(n, v)| (n.to_owned(), v)).collect() }
}

fn vos() -> Result<Vec<String>, String> {
    Ok(vec!["VO-ADD".to_owned(), "VO-SUB".to_owned()])
}

fn problem(check: &FormCheck) -> &Diagnostic {
    check.problem.as_ref().expect("a problem")
}

#[test]
fn answers_for_another_form_are_refused() {
    let check = validate_form_answers(&schema(vec![]), &answers("rust-integration", vec![]), &scan(), &vos());
    assert_eq!(problem(&check).code, "E-OP-001");
    assert_eq!(
        problem(&check).message,
        "answers form `rust-integration` does not match requested form `rust-unit`"
    );
    assert!(check.pending.is_empty());
}

#[test]
fn an_answer_for_no_field_is_refused() {
    let form = schema(vec![field("intent", "text", true, &[])]);
    let given = answers("rust-unit", vec![("extra", scalar("x")), ("intent", scalar("adds"))]);
    let check = validate_form_answers(&form, &given, &scan(), &vos());
    assert_eq!(problem(&check).message, "unknown answer field `extra`");
}

#[test]
fn unreadable_objective_ids_are_reported_as_a_core_error() {
    let form = schema(vec![field("intent", "text", true, &[])]);
    let given = answers("rust-unit", vec![("intent", scalar("adds"))]);
    let check = validate_form_answers(&form, &given, &scan(), &Err("no index".to_owned()));
    assert_eq!(problem(&check).code, "E-CORE-001");
    assert_eq!(problem(&check).message, "could not read entity IDs: no index");
}

#[test]
fn required_answers_must_be_present_and_not_empty() {
    let form = schema(vec![field("covers", "vo-ref-list", true, &[])]);
    let missing = validate_form_answers(&form, &answers("rust-unit", vec![]), &scan(), &vos());
    assert_eq!(problem(&missing).message, "required answer `covers` is missing");
    let empty = validate_form_answers(&form, &answers("rust-unit", vec![("covers", list(&[]))]), &scan(), &vos());
    assert_eq!(problem(&empty).message, "required answer `covers` is missing");
    let optional = schema(vec![field("covers", "vo-ref-list", false, &[])]);
    let absent = validate_form_answers(&optional, &answers("rust-unit", vec![]), &scan(), &vos());
    assert!(absent.problem.is_none());
}

#[test]
fn answers_of_the_wrong_shape_are_refused() {
    let form = schema(vec![field("covers", "vo-ref-list", true, &[])]);
    let check = validate_form_answers(&form, &answers("rust-unit", vec![("covers", scalar("VO-ADD"))]), &scan(), &vos());
    assert_eq!(problem(&check).message, "answer `covers` must be a list");
}

#[test]
fn covered_objectives_must_exist() {
    let form = schema(vec![field("covers", "vo-ref-list", true, &["vo-exists"])]);
    let ok = validate_form_answers(&form, &answers("rust-unit", vec![("covers", list(&["VO-ADD"]))]), &scan(), &vos());
    assert!(ok.problem.is_none());
    let check = validate_form_answers(
        &form,
        &answers("rust-unit", vec![("covers", list(&["VO-ADD", "VO-ADE", "VO-XYZ"]))]),
        &scan(),
        &vos(),
    );
    assert_eq!(problem(&check).message, "VO `VO-ADE` does not exist");
    assert_eq!(problem(&check).candidates, vec!["VO-ADD".to_owned()]);
}

#[test]
fn related_tests_must_exist() {
    let form = schema(vec![field("related", "test-ref", false, &["test-exists"])]);
    let check =
        validate_form_answers(&form, &answers("rust-unit", vec![("related", scalar("TEST-ADD-002"))]), &scan(), &vos());
    assert_eq!(problem(&check).message, "Test `TEST-ADD-002` does not exist");
    assert_eq!(problem(&check).candidates, vec!["TEST-ADD-001".to_owned()]);
}

#[test]
fn symbol_answers_must_resolve() {
    let form = schema(vec![field("targets", "symbol-list", true, &["symbols-exist"])]);
    let ok =
        validate_form_answers(&form, &answers("rust-unit", vec![("targets", list(&["src/lib.rs::add"]))]), &scan(), &vos());
    assert!(ok.problem.is_none());
    let check =
        validate_form_answers(&form, &answers("rust-unit", vec![("targets", list(&["src/lib.rs::sub"]))]), &scan(), &vos());
    assert_eq!(problem(&check).message, "source symbol `src/lib.rs::sub` does not exist");
}

#[test]
fn a_new_function_name_must_be_free_in_its_file() {
    let form = schema(vec![
        field("file", "text", false, &[]),
        field("fn_name", "ident", true, &["unique-fn-name"]),
    ]);
    let taken = answers("rust-unit", vec![("file", scalar("tests/calc.rs")), ("fn_name", scalar("adds"))]);
    let check = validate_form_answers(&form, &taken, &scan(), &vos());
    assert_eq!(problem(&check).message, "function `adds` already exists in `tests/calc.rs`");
    let free = answers("rust-unit", vec![("file", scalar("tests/calc.rs")), ("fn_name", scalar("subtracts"))]);
    assert!(validate_form_answers(&form, &free, &scan(), &vos()).problem.is_none());
}

#[test]
fn the_edited_test_keeps_its_own_function_name() {
    let form = schema(vec![field("fn_name", "ident", true, &["unique-fn-name"])]);
    let given = answers("rust-unit", vec![("fn_name", scalar("adds"))]);
    let check = validate_form_answers_for(&form, &given, &scan(), &vos(), Some("TEST-ADD-001"));
    assert!(check.problem.is_none());
    let new_test = validate_form_answers(&form, &given, &scan(), &vos());
    assert_eq!(
        problem(&new_test).message,
        "answers require `file` when no single target is present"
    );
}

#[test]
fn project_file_checks_are_left_to_the_caller_in_order() {
    let form = schema(vec![
        field("file", "text", true, &["rust-file"]),
        field("variant", "text", true, &["enum-variant-exists"]),
        field("covers", "vo-ref-list", true, &["vo-exists"]),
    ]);
    let given = answers(
        "rust-unit",
        vec![
            ("covers", list(&["VO-NONE"])),
            ("file", scalar("tests/calc.rs")),
            ("variant", scalar("Mode::Fast")),
        ],
    );
    let check = validate_form_answers(&form, &given, &scan(), &vos());
    assert_eq!(check.pending.len(), 2);
    assert!(matches!(&check.pending[0], ProjectCheck::RustFile(f) if f == "tests/calc.rs"));
    assert!(matches!(&check.pending[1], ProjectCheck::EnumVariant(v) if v == "Mode::Fast"));
    assert_eq!(problem(&check).message, "VO `VO-NONE` does not exist");
}

#[test]
fn a_project_check_needs_a_scalar_answer() {
    let form = schema(vec![field("file", "text", true, &["rust-file"])]);
    let check = validate_form_answers(&form, &answers("rust-unit", vec![("file", scalar("   "))]), &scan(), &vos());
    assert!(check.pending.is_empty());
    assert_eq!(problem(&check).message, "answer `file` must be a non-empty scalar");
}

#[test]
fn an_unknown_validator_is_refused() {
    let form = schema(vec![field("intent", "text", true, &["spell-check"])]);
    let check = validate_form_answers(&form, &answers("rust-unit", vec![("intent", scalar("adds"))]), &scan(), &vos());
    assert_eq!(problem(&check).message, "form `rust-unit` uses unsupported validator `spell-check`");
}
