use vtest::diagnostic::{Diagnostic, DiagnosticSeverity};
use vtest::document::DerivesFrom;
use vtest::encoding::FieldValue;
use vtest::hash::ContentHash;
use vtest::ids::{AdapterId, DocumentId, SrcId, TestId, VoId};
use vtest::protocol::ScanSummary;
use vtest::scan::{check_vo_references, ScanError, ScanResult, TestIdLookup};
use vtest::scan_records::{
    annotate_record_diagnostic, check_vo_combinations, invalid_vo_combinations,
    validate_vo_document_references, validate_vo_warnings,
};
use vtest::scan_targets::resolve_targets;
use vtest::scan_tests::{materialize_tests, MissingTestConstruct, TestDraft};
use vtest::source::{Locator, SourceFunction, SourceLocation, TargetRef};
use vtest::test_entity::{ExecutionDescriptor, ManagedTestLink, TestEntity};
use vtest::vo::{CombinationEntry, CoveragePolicy, Dimension, VoRecord};

fn location(file: &str, start: u64) -> SourceLocation {
    SourceLocation {
        file: file.to_owned(),
        function: "f".to_owned(),
        start_line: 1,
        end_line: 2,
        start_byte: start,
        end_byte: start + 10,
    }
}

fn execution() -> ExecutionDescriptor {
    ExecutionDescriptor {
        adapter: AdapterId::new("rust-cargo"),
        project: None,
        suite: None,
        selector: "t".to_owned(),
    }
}

fn test_entity(id: &str, covers: Vec<&str>, targets: Vec<TargetRef>) -> TestEntity {
    TestEntity {
        id: TestId::new(id),
        covers: covers.into_iter().map(VoId::new).collect(),
        targets,
        intent: "intent".to_owned(),
        input: None,
        expect: None,
        kind: None,
        cases: vec![],
        related: vec![],
        location: location("tests/a.rs", 0),
        content_hash: ContentHash::from_text(id),
        execution: execution(),
    }
}

fn locator(value: &str) -> Locator {
    Locator {
        adapter: AdapterId::new("rust-cargo"),
        value: value.to_owned(),
    }
}

fn source(value: &str, src_id: Option<&str>, start: u64) -> SourceFunction {
    SourceFunction {
        locator: locator(value),
        src_id: src_id.map(SrcId::new),
        location: location("src/lib.rs", start),
        content_hash: ContentHash::from_text(value),
    }
}

fn result_with(tests: Vec<TestEntity>, diagnostics: Vec<Diagnostic>) -> ScanResult {
    ScanResult {
        summary: ScanSummary { files: 0, tests: tests.len() as u64, sources: 0 },
        tests,
        discovered: vec![],
        sources: vec![],
        diagnostics,
    }
}

#[test]
fn scan_error_codes() {
    assert_eq!(
        ScanError::Discovery { path: "x".into(), message: "m".into() }.code(),
        Some("E-ADAPTER-002")
    );
    assert_eq!(ScanError::UnknownAdapterId { message: "m".into() }.code(), Some("E-CONFIG-001"));
    assert_eq!(ScanError::Config("c".into()).code(), None);
    assert_eq!(ScanError::Store("s".into()).code(), None);
    assert_eq!(ScanError::Io { path: "p".into(), message: "m".into() }.code(), None);
}

#[test]
fn has_errors_only_counts_errors() {
    assert!(!result_with(vec![], vec![]).has_errors());
    assert!(!result_with(vec![], vec![Diagnostic::warning("W", "w")]).has_errors());
    assert!(result_with(vec![], vec![Diagnostic::warning("W", "w"), Diagnostic::error("E", "e")]).has_errors());
}

#[test]
fn tests_by_id_distinguishes_unique_collided_and_missing() {
    let scan = result_with(
        vec![
            test_entity("TEST-A", vec![], vec![]),
            test_entity("TEST-B", vec![], vec![]),
            test_entity("TEST-A", vec!["VO-1"], vec![]),
        ],
        vec![],
    );
    assert!(matches!(scan.tests_by_id("TEST-C"), TestIdLookup::NotFound));
    match scan.tests_by_id("TEST-B") {
        TestIdLookup::Unique(test) => assert_eq!(test.id.as_str(), "TEST-B"),
        other => panic!("unexpected {:?}", other),
    }
    match scan.tests_by_id("TEST-A") {
        TestIdLookup::Collided(all) => {
            assert_eq!(all.len(), 2);
            assert!(all[0].covers.is_empty());
            assert_eq!(all[1].covers[0].as_str(), "VO-1");
        }
        other => panic!("unexpected {:?}", other),
    }
}

#[test]
fn missing_vo_references_are_reported_per_cover() {
    let tests = vec![
        test_entity("TEST-A", vec!["VO-1", "VO-MISSING"], vec![]),
        test_entity("TEST-B", vec!["VO-OTHER"], vec![]),
    ];
    let diagnostics = check_vo_references(&tests, &vec!["VO-1".to_owned()]);
    assert_eq!(diagnostics.len(), 2);
    assert_eq!(diagnostics[0].code, "E-SCAN-003");
    assert_eq!(diagnostics[0].message, "test `TEST-A` references missing VO `VO-MISSING`");
    assert_eq!(diagnostics[1].message, "test `TEST-B` references missing VO `VO-OTHER`");
    assert_eq!(diagnostics[0].location.as_deref(), Some(&tests[0].location));
}

#[test]
fn targets_resolve_by_locator_and_src_id() {
    let sources = vec![
        source("src/lib.rs::add", Some("SRC-ADD"), 0),
        source("src/lib.rs::dup", None, 20),
        source("src/lib.rs::dup", None, 40),
        source("src/lib.rs::one", Some("SRC-TWICE"), 60),
        source("src/lib.rs::two", Some("SRC-TWICE"), 80),
    ];
    let tests = vec![
        test_entity(
            "TEST-A",
            vec![],
            vec![
                TargetRef::Locator(locator("src/lib.rs::add")),
                TargetRef::SrcId(SrcId::new("SRC-ADD")),
                TargetRef::Locator(locator("src/lib.rs::missing")),
                TargetRef::Locator(locator("src/lib.rs::dup")),
                TargetRef::SrcId(SrcId::new("SRC-NONE")),
                TargetRef::SrcId(SrcId::new("SRC-TWICE")),
            ],
        ),
        test_entity("TEST-B", vec![], vec![TargetRef::Locator(locator("src/lib.rs::add"))]),
    ];
    let diagnostics = resolve_targets(&tests, &sources);
    let codes = diagnostics.iter().map(|d| d.code.as_str()).collect::<Vec<_>>();
    assert_eq!(codes, vec!["E-SCAN-011", "E-SCAN-004", "E-SCAN-004", "E-SCAN-004", "E-SCAN-005"]);
    assert_eq!(diagnostics[0].message, "permanent SRC ID `SRC-TWICE` is declared by 2 Source Targets");
    assert_eq!(diagnostics[0].location.as_deref(), Some(&sources[3].location));
    assert_eq!(diagnostics[1].message, "test `TEST-A` target `src/lib.rs::missing` cannot be resolved");
    assert_eq!(diagnostics[2].message, "test `TEST-A` target `src/lib.rs::dup` cannot be resolved");
    assert_eq!(diagnostics[3].message, "test `TEST-A` target `SRC-NONE` cannot be resolved");
    assert_eq!(
        diagnostics[4].message,
        "test `TEST-A` declares multiple targets (`src/lib.rs::add`, `SRC-ADD`) that resolve to the same Source Target `rust-cargo::src/lib.rs::add`"
    );
}

#[test]
fn same_spelling_twice_is_not_a_same_target_conflict() {
    let sources = vec![source("src/lib.rs::add", None, 0)];
    let tests = vec![test_entity(
        "TEST-A",
        vec![],
        vec![
            TargetRef::Locator(locator("src/lib.rs::add")),
            TargetRef::Locator(locator("src/lib.rs::add")),
        ],
    )];
    assert!(resolve_targets(&tests, &sources).is_empty());
}

fn draft(id: &str, start: u64, text: &str) -> (AdapterId, TestDraft) {
    (
        AdapterId::new("rust-cargo"),
        TestDraft {
            id: TestId::new(id),
            covers: vec![VoId::new("VO-1")],
            targets: vec![],
            intent: "i".to_owned(),
            input: None,
            expect: None,
            kind: None,
            cases: vec![],
            related: vec![],
            location: location("tests/a.rs", start),
            execution: execution(),
            subject_hash: ContentHash::from_text("subject"),
            construct_text: text.to_owned(),
        },
    )
}

#[test]
fn colliding_test_ids_are_all_kept_and_all_reported() {
    let drafts = vec![
        draft("TEST-COLLISION", 0, "fn a() {}"),
        draft("TEST-OTHER", 20, "fn b() {}"),
        draft("TEST-COLLISION", 40, "fn c() {}"),
    ];
    let missing = vec![(
        AdapterId::new("rust-cargo"),
        MissingTestConstruct { location: location("tests/a.rs", 60), construct_text: "fn d() {}".to_owned() },
    )];
    let (tests, discovered, diagnostics) = materialize_tests(drafts, missing);
    assert_eq!(tests.len(), 3);
    assert_eq!(discovered.len(), 4);
    assert_eq!(discovered[0].managed, ManagedTestLink::One(TestId::new("TEST-COLLISION")));
    assert_eq!(discovered[2].managed, ManagedTestLink::One(TestId::new("TEST-COLLISION")));
    assert_eq!(discovered[3].managed, ManagedTestLink::Missing);
    assert_eq!(discovered[3].content_hash, ContentHash::from_text("fn d() {}"));
    assert_eq!(discovered[1].content_hash, ContentHash::from_text("fn b() {}"));
    assert_eq!(tests[2].content_hash, ContentHash::from_text("subject"));
    assert_eq!(diagnostics.len(), 2);
    for (d, start) in diagnostics.iter().zip([0u64, 40]) {
        assert_eq!(d.code, "E-SCAN-002");
        assert_eq!(d.message, "Test ID `TEST-COLLISION` is declared by 2 Test constructs");
        assert_eq!(d.location.as_ref().unwrap().start_byte, start);
        assert!(!d.message.contains("E-SCAN-010"));
    }
}

fn vo(id: &str, parent: Option<&str>) -> VoRecord {
    VoRecord {
        id: VoId::new(id),
        parent: parent.map(VoId::new),
        derives_from: vec![DerivesFrom { doc: DocumentId::new("ROOT-001"), anchor: None, note: None }],
        claim: "claim".to_owned(),
        dimensions: vec![
            Dimension { name: "d1".to_owned(), partitions: vec!["a".to_owned(), "b".to_owned()] },
            Dimension { name: "d2".to_owned(), partitions: vec!["x".to_owned()] },
        ],
        coverage_policy: Some(CoveragePolicy::Explicit),
        combinations: vec![CombinationEntry::from_iter(vec![
            ("d1".to_owned(), "a".to_owned()),
            ("d2".to_owned(), "x".to_owned()),
        ])],
        representative_cases: vec![],
        created: "2026-01-01".to_owned(),
        updated: "2026-01-01".to_owned(),
    }
}

fn pairs(items: &[(&str, &str)]) -> CombinationEntry {
    CombinationEntry::from_iter(items.iter().map(|(a, b)| (a.to_string(), b.to_string())).collect())
}

#[test]
fn explicit_combinations_are_checked_against_dimensions() {
    assert_eq!(invalid_vo_combinations(&vo("VO-1", None)), None);

    let mut not_explicit = vo("VO-1", None);
    not_explicit.coverage_policy = Some(CoveragePolicy::FullProduct);
    assert_eq!(
        invalid_vo_combinations(&not_explicit).as_deref(),
        Some("has combinations but coverage_policy is not `explicit`")
    );
    not_explicit.combinations.clear();
    assert_eq!(invalid_vo_combinations(&not_explicit), None);

    let mut no_combinations = vo("VO-1", None);
    no_combinations.combinations.clear();
    assert_eq!(
        invalid_vo_combinations(&no_combinations).as_deref(),
        Some("explicit coverage_policy requires at least one combination")
    );

    let mut no_dimensions = vo("VO-1", None);
    no_dimensions.dimensions.clear();
    assert_eq!(
        invalid_vo_combinations(&no_dimensions).as_deref(),
        Some("explicit coverage_policy requires at least one dimension")
    );

    let mut repeated = vo("VO-1", None);
    repeated.combinations = vec![pairs(&[("d1", "a"), ("d1", "b")])];
    assert_eq!(
        invalid_vo_combinations(&repeated).as_deref(),
        Some("has a combination that declares dimension `d1` more than once")
    );

    let mut missing = vo("VO-1", None);
    missing.combinations = vec![pairs(&[("d1", "a")])];
    assert_eq!(
        invalid_vo_combinations(&missing).as_deref(),
        Some("has a combination missing a declared dimension")
    );

    let mut undeclared = vo("VO-1", None);
    undeclared.combinations = vec![pairs(&[("d1", "a"), ("d3", "x")])];
    assert_eq!(
        invalid_vo_combinations(&undeclared).as_deref(),
        Some("has a combination with undeclared dimension `d3`")
    );

    let mut bad_partition = vo("VO-1", None);
    bad_partition.combinations = vec![pairs(&[("d1", "z"), ("d2", "x")])];
    assert_eq!(
        invalid_vo_combinations(&bad_partition).as_deref(),
        Some("has a combination with undeclared partition `z` for dimension `d1`")
    );

    let mut duplicate = vo("VO-1", None);
    duplicate.combinations = vec![pairs(&[("d1", "a"), ("d2", "x")]), pairs(&[("d2", "x"), ("d1", "a")])];
    assert_eq!(
        invalid_vo_combinations(&duplicate).as_deref(),
        Some("has duplicate explicit combinations")
    );

    let mut diagnostics = Vec::new();
    check_vo_combinations("VO-1", &duplicate, &mut diagnostics);
    assert_eq!(diagnostics.len(), 1);
    assert_eq!(diagnostics[0].code, "E-SCAN-017");
    assert_eq!(diagnostics[0].message, "VO VO-1 has duplicate explicit combinations (.verify/vo/VO-1.yaml)");
}

#[test]
fn vo_warnings_report_isolated_and_non_leaf_coverage() {
    let vos = vec![
        ("VO-CHILD".to_owned(), vo("VO-CHILD", Some("VO-PARENT"))),
        ("VO-LONE".to_owned(), vo("VO-LONE", None)),
        ("VO-PARENT".to_owned(), vo("VO-PARENT", None)),
    ];
    let tests = vec![test_entity("TEST-A", vec!["VO-PARENT", "VO-CHILD"], vec![])];
    let mut diagnostics = Vec::new();
    validate_vo_warnings(&vos, &tests, &mut diagnostics);
    assert_eq!(diagnostics.len(), 2, "{:?}", diagnostics);
    assert_eq!(diagnostics[0].code, "W-SCAN-102");
    assert_eq!(diagnostics[0].severity, DiagnosticSeverity::Warning);
    assert_eq!(diagnostics[0].message, "VO VO-LONE is isolated and has no covering test (.verify/vo/VO-LONE.yaml)");
    assert_eq!(diagnostics[1].code, "W-SCAN-103");
    assert_eq!(diagnostics[1].message, "test TEST-A covers non-leaf VO VO-PARENT");
}

#[test]
fn vo_document_references_must_name_known_nodes() {
    let mut record = vo("VO-1", None);
    record.derives_from.push(DerivesFrom { doc: DocumentId::new("SPEC-404"), anchor: None, note: None });
    let mut diagnostics = Vec::new();
    validate_vo_document_references(&vec![("VO-1".to_owned(), record)], &vec!["ROOT-001".to_owned()], &mut diagnostics);
    assert_eq!(diagnostics.len(), 1);
    assert_eq!(diagnostics[0].code, "E-SCAN-012");
    assert_eq!(diagnostics[0].message, "VO VO-1 derives_from missing node SPEC-404 (.verify/vo/VO-1.yaml)");
}

#[test]
fn record_diagnostics_are_annotated_with_their_record() {
    let d = annotate_record_diagnostic(Diagnostic::warning("W-STORE-007", "unknown field"), "VO VO-1 (x)");
    assert_eq!(d.message, "VO VO-1 (x): unknown field");
    assert_eq!(d.code, "W-STORE-007");
}

#[test]
fn field_value_text_fragment_is_a_scalar() {
    assert!(matches!(FieldValue::text_fragment("x"), FieldValue::Scalar(_)));
}

use vtest::scan_assembly::{adapter_scan_order, assemble_scan, SourceDraft};

fn strings(items: &[&str]) -> Vec<String> {
    items.iter().map(|s| s.to_string()).collect()
}

#[test]
fn adapters_are_asked_in_id_order() {
    let order = adapter_scan_order(&strings(&["rust-cargo", "python", "go"]), &strings(&["rust-cargo", "python", "go"]));
    assert_eq!(order.unwrap(), strings(&["go", "python", "rust-cargo"]));
}

#[test]
fn a_configuration_without_adapters_is_refused() {
    match adapter_scan_order(&vec![], &strings(&["rust-cargo"])) {
        Err(ScanError::Config(message)) => assert_eq!(
            message,
            "no adapters are registered in config.yaml (adapters: []); scan has nothing to discover"
        ),
        other => panic!("unexpected {other:?}"),
    }
}

#[test]
fn an_unregistered_adapter_is_refused_naming_the_registered_ones() {
    match adapter_scan_order(&strings(&["zig", "rust-cargo", "ada"]), &strings(&["rust-cargo", "cpp", "cpp"])) {
        Err(ScanError::UnknownAdapterId { message }) => assert_eq!(
            message,
            "config.yaml declares adapter id `ada` which is not registered; registered adapter id(s): cpp, rust-cargo"
        ),
        other => panic!("unexpected {other:?}"),
    }
    match adapter_scan_order(&strings(&["rust-cargo"]), &vec![]) {
        Err(ScanError::UnknownAdapterId { message }) => assert_eq!(
            message,
            "config.yaml declares adapter id `rust-cargo` which is not registered; registered adapter id(s): (none registered)"
        ),
        other => panic!("unexpected {other:?}"),
    }
}

#[test]
fn a_scan_is_assembled_with_its_diagnostics_in_order() {
    let adapter_warning = Diagnostic::warning("W-SCAN-101", "unregistered test");
    let drafts = vec![draft("TEST-COLLISION", 0, "fn a() {}"), draft("TEST-COLLISION", 40, "fn b() {}")];
    let sources = vec![SourceDraft {
        locator: locator("src/lib.rs::add"),
        src_id: None,
        location: location("src/lib.rs", 0),
        construct_text: "pub fn add() {}".to_owned(),
    }];
    let result = assemble_scan(3, vec![adapter_warning], drafts, vec![], sources, &strings(&["VO-OTHER"]));
    assert_eq!(result.summary, ScanSummary { files: 3, tests: 2, sources: 1 });
    assert_eq!(result.discovered.len(), 2);
    let codes: Vec<&str> = result.diagnostics.iter().map(|d| d.code.as_str()).collect();
    assert_eq!(codes, vec!["W-SCAN-101", "E-SCAN-002", "E-SCAN-002", "E-SCAN-003", "E-SCAN-003"]);
    assert_eq!(result.sources[0].locator.value, "src/lib.rs::add");
}

use vtest::scan_record_checks::{record_diagnostics, report_unaccounted_entries, VoRead};

#[test]
fn an_entry_of_the_document_directory_that_is_no_document_is_reported() {
    let mut diagnostics = Vec::new();
    report_unaccounted_entries(&vec!["notes.txt".to_owned(), "old\\draft.md".to_owned()], &mut diagnostics);
    assert_eq!(diagnostics.len(), 2);
    assert_eq!(diagnostics[0].code, "E-SCAN-010");
    assert_eq!(diagnostics[0].severity, DiagnosticSeverity::Error);
    assert_eq!(
        diagnostics[0].message,
        "notes.txt in .verify/doc/ is not an upstream document file and is not accounted for by any check (.verify/doc/notes.txt)"
    );
    assert_eq!(
        diagnostics[1].message,
        "old\\draft.md in .verify/doc/ is not an upstream document file and is not accounted for by any check (.verify/doc/old/draft.md)"
    );
}

#[test]
fn record_checks_report_in_scan_order() {
    let diagnostics = record_diagnostics(
        &vec!["notes.txt".to_owned()],
        vec![("broken".to_owned(), Err("bad json".to_owned()))],
        vec![
            ("VO-A".to_owned(), VoRead::Invalid("missing claim".to_owned())),
            (
                "VO-B".to_owned(),
                VoRead::Read { record: vo("VO-B", Some("VO-X")), warnings: vec![Diagnostic::warning("W-STORE-007", "unknown field")] },
            ),
        ],
        &vec![],
        &vec![],
        &vec![],
        &vec![],
    );
    let seen: Vec<(String, String)> = diagnostics.iter().map(|d| (d.code.clone(), d.message.clone())).collect();
    let expected = vec![
        ("E-SCAN-010", "notes.txt in .verify/doc/ is not an upstream document file and is not accounted for by any check (.verify/doc/notes.txt)"),
        ("E-SCAN-010", "document broken has an invalid record: bad json (.verify/doc/broken.json)"),
        ("E-SCAN-010", "VO VO-A has an invalid record: missing claim (.verify/vo/VO-A.yaml)"),
        ("W-STORE-007", "VO VO-B (.verify/vo/VO-B.yaml): unknown field"),
        ("E-SCAN-012", "VO VO-B derives_from missing node ROOT-001 (.verify/vo/VO-B.yaml)"),
        ("E-SCAN-008", "VO VO-B references missing parent VO-X (.verify/vo/VO-B.yaml)"),
        ("W-SCAN-102", "VO VO-B is isolated and has no covering test (.verify/vo/VO-B.yaml)"),
    ];
    let expected: Vec<(String, String)> = expected.into_iter().map(|(c, m)| (c.to_owned(), m.to_owned())).collect();
    assert_eq!(seen, expected);
}
