use vtest::annotations::parse_annotations;
use vtest::diagnostic::Diagnostic;
use vtest::encoding::{FieldMap, FieldValue, SubjectDomain, SubjectHashInput};
use vtest::hash::ContentHash;
use vtest::ids::{AdapterId, SrcId, TestId, VoId};
use vtest::scan_approvals::{
    approval_required_fields, check_approvals, missing_fields, ApprovalFields, ApprovalFile, ApprovalRead,
};
use vtest::scan_relations::{check_relations, known_entity_ids, RelationFile, RelationRead};
use vtest::source::{Locator, SourceFunction, SourceLocation};
use vtest::test_entity::{ExecutionDescriptor, TestEntity};

fn messages(diagnostics: &[Diagnostic]) -> Vec<String> {
    diagnostics.iter().map(|d| format!("{} {}", d.code, d.message)).collect()
}

fn docs(lines: &[&str]) -> Vec<String> {
    lines.iter().map(|line| format!(" {line}")).collect()
}

fn value<'a>(values: &'a [(String, String)], key: &str) -> Option<&'a str> {
    values.iter().find(|(k, _)| k == key).map(|(_, v)| v.as_str())
}

#[test]
fn annotations_read_single_and_repeated_keys() {
    let texts = docs(&[
        "This test exercises addition end to end.",
        "@vtest.id TEST-REPEATED",
        "@vtest.covers VO-ADD, VO-SUB",
        "See also the design notes.",
        "@vtest.target src/lib.rs::add",
        "@vtest.intent allows case and related to repeat",
        "@vtest.case zero",
        "@vtest.case negative",
        "@vtest.related TEST-ADD",
        "@vtest.related\tTEST-OTHER  ",
    ]);
    let parsed = parse_annotations(&texts).unwrap();
    let keys: Vec<&str> = parsed.values.iter().map(|(k, _)| k.as_str()).collect();
    assert_eq!(keys, vec!["covers", "id", "intent"]);
    assert_eq!(value(&parsed.values, "id"), Some("TEST-REPEATED"));
    assert_eq!(value(&parsed.values, "covers"), Some("VO-ADD, VO-SUB"));
    assert_eq!(value(&parsed.values, "intent"), Some("allows case and related to repeat"));
    assert_eq!(
        parsed.repeated,
        vec![
            ("case".to_owned(), vec!["zero".to_owned(), "negative".to_owned()]),
            ("related".to_owned(), vec!["TEST-ADD".to_owned(), "TEST-OTHER".to_owned()]),
            ("target".to_owned(), vec!["src/lib.rs::add".to_owned()]),
        ]
    );
}

#[test]
fn annotations_span_attributes_and_lines() {
    let texts = vec![" @vtest.id A\n @vtest.kind unit\r\n".to_owned(), "@vtest.src-id SRC-1".to_owned()];
    let parsed = parse_annotations(&texts).unwrap();
    assert_eq!(value(&parsed.values, "id"), Some("A"));
    assert_eq!(value(&parsed.values, "kind"), Some("unit"));
    assert_eq!(value(&parsed.values, "src-id"), Some("SRC-1"));
    assert!(parsed.repeated.is_empty());
}

#[test]
fn doc_comments_without_the_marker_have_no_annotations() {
    assert!(parse_annotations(&docs(&["Adds two numbers.", "vtest.id not a marker"])).is_none());
    assert!(parse_annotations(&vec![]).is_none());
    let mentioned = parse_annotations(&docs(&["see @vtest.id in the guide"])).unwrap();
    assert!(mentioned.values.is_empty());
    assert!(mentioned.repeated.is_empty());
}

#[test]
fn unknown_and_duplicate_keys_are_reported_through_the_parse_error() {
    let unknown = parse_annotations(&docs(&["@vtest.id TEST-UNKNOWN", "@vtest.typo value", "@vtest.other x"])).unwrap();
    assert_eq!(value(&unknown.values, "__parse_error__"), Some("unknown:other"));
    assert_eq!(value(&unknown.values, "id"), Some("TEST-UNKNOWN"));
    assert_eq!(value(&unknown.values, "__duplicate_key__"), None);

    let duplicate = parse_annotations(&docs(&["@vtest.id TEST-DUPLICATE", "@vtest.id TEST-DUPLICATE-2"])).unwrap();
    assert_eq!(value(&duplicate.values, "__parse_error__"), Some("duplicate:id"));
    assert_eq!(value(&duplicate.values, "id"), Some("TEST-DUPLICATE-2"));

    let both = parse_annotations(&docs(&["@vtest.intent a", "@vtest.intent b", "@vtest.nope"])).unwrap();
    assert_eq!(value(&both.values, "__parse_error__"), Some("unknown:nope"));
    assert_eq!(value(&both.values, "__duplicate_key__"), Some("intent"));
    let keys: Vec<&str> = both.values.iter().map(|(k, _)| k.as_str()).collect();
    assert_eq!(keys, vec!["__duplicate_key__", "__parse_error__", "intent"]);

    let empty_key = parse_annotations(&docs(&["@vtest."])).unwrap();
    assert_eq!(value(&empty_key.values, "__parse_error__"), Some("unknown:"));
}

fn relation(file_id: &str, payload: Option<&str>, read: RelationRead) -> RelationFile {
    RelationFile {
        file_id: file_id.to_owned(),
        record_path: format!(".verify/rel/{file_id}.yaml"),
        payload: payload.map(str::to_owned),
        read,
    }
}

fn parsed(from: &str, to: &str) -> RelationRead {
    RelationRead::Parsed { from: from.to_owned(), to: to.to_owned(), diagnostics: vec![] }
}

#[test]
fn relations_with_one_ulid_payload_are_reported_once_per_alias() {
    let files = vec![
        relation("01J00000000000000000000000", Some("01J00000000000000000000000"), parsed("VO-ADD", "VO-ADD")),
        relation("REL-01J00000000000000000000000", Some("01J00000000000000000000000"), parsed("VO-ADD", "VO-ADD")),
        relation("REL-OTHER", None, parsed("VO-ADD", "VO-ADD")),
    ];
    let mut diagnostics = Vec::new();
    check_relations(&files, &vec!["VO-ADD".to_owned()], &mut diagnostics);
    assert_eq!(
        messages(&diagnostics),
        vec![
            "E-SCAN-010 relation IDs 01J00000000000000000000000 and REL-01J00000000000000000000000 use the same ULID payload 01J00000000000000000000000 (.verify/rel/REL-01J00000000000000000000000.yaml)".to_owned(),
        ]
    );
    assert!(diagnostics[0].location.is_none());
}

#[test]
fn a_third_alias_names_the_latest_holder_of_the_payload() {
    let files = vec![
        relation("A-P", Some("P"), parsed("X", "X")),
        relation("B-P", Some("P"), parsed("X", "X")),
        relation("C-P", Some("P"), parsed("X", "X")),
    ];
    let mut diagnostics = Vec::new();
    check_relations(&files, &vec!["X".to_owned()], &mut diagnostics);
    assert_eq!(
        messages(&diagnostics),
        vec![
            "E-SCAN-010 relation IDs A-P and B-P use the same ULID payload P (.verify/rel/B-P.yaml)".to_owned(),
            "E-SCAN-010 relation IDs B-P and C-P use the same ULID payload P (.verify/rel/C-P.yaml)".to_owned(),
        ]
    );
}

#[test]
fn relation_endpoints_must_name_known_entities() {
    let reader_note = Diagnostic::warning("W-STORE-007", "unknown field `extra`");
    let files = vec![
        relation("REL-1", None, RelationRead::Parsed {
            from: "ROOT-001".to_owned(),
            to: "DOC-TEST".to_owned(),
            diagnostics: vec![reader_note],
        }),
        relation("REL-2", None, RelationRead::Unreadable("permission denied".to_owned())),
        relation("REL-3", None, RelationRead::Invalid("missing field `to`".to_owned())),
        relation("REL-4", None, parsed("GONE", "ALSO-GONE")),
    ];
    let mut diagnostics = vec![Diagnostic::error("E-X", "earlier")];
    check_relations(&files, &vec!["ROOT-001".to_owned()], &mut diagnostics);
    assert_eq!(
        messages(&diagnostics),
        vec![
            "E-X earlier".to_owned(),
            "W-STORE-007 unknown field `extra`".to_owned(),
            "E-SCAN-009 relation REL-1 to references missing entity DOC-TEST (.verify/rel/REL-1.yaml)".to_owned(),
            "E-SCAN-010 relation REL-2 cannot be read: permission denied (.verify/rel/REL-2.yaml)".to_owned(),
            "E-SCAN-010 relation REL-3 has an invalid schema: missing field `to` (.verify/rel/REL-3.yaml)".to_owned(),
            "E-SCAN-009 relation REL-4 from references missing entity GONE (.verify/rel/REL-4.yaml)".to_owned(),
            "E-SCAN-009 relation REL-4 to references missing entity ALSO-GONE (.verify/rel/REL-4.yaml)".to_owned(),
        ]
    );
}

fn location() -> SourceLocation {
    SourceLocation {
        file: "src/lib.rs".to_owned(),
        function: "add".to_owned(),
        start_line: 1,
        end_line: 2,
        start_byte: 0,
        end_byte: 10,
    }
}

#[test]
fn known_ids_gather_every_entity_kind_in_order() {
    let test = TestEntity {
        id: TestId::new("TEST-1"),
        covers: vec![VoId::new("VO-1")],
        targets: vec![],
        intent: "i".to_owned(),
        input: None,
        expect: None,
        kind: None,
        cases: vec![],
        related: vec![],
        location: location(),
        content_hash: ContentHash::from_text("t"),
        execution: ExecutionDescriptor {
            adapter: AdapterId::new("rust-cargo"),
            project: None,
            suite: None,
            selector: "t".to_owned(),
        },
    };
    let sources = vec![
        SourceFunction {
            locator: Locator { adapter: AdapterId::new("rust-cargo"), value: "src/lib.rs::add".to_owned() },
            src_id: Some(SrcId::new("SRC-ADD")),
            location: location(),
            content_hash: ContentHash::from_text("add"),
        },
        SourceFunction {
            locator: Locator { adapter: AdapterId::new("rust-cargo"), value: "src/lib.rs::sub".to_owned() },
            src_id: None,
            location: location(),
            content_hash: ContentHash::from_text("sub"),
        },
    ];
    let known = known_entity_ids(&vec!["VO-1".to_owned()], &vec![test], &sources, &vec!["ROOT-001".to_owned()]);
    assert_eq!(
        known,
        vec!["VO-1", "TEST-1", "src/lib.rs::add", "SRC-ADD", "src/lib.rs::sub", "ROOT-001"]
            .into_iter()
            .map(str::to_owned)
            .collect::<Vec<_>>()
    );
}

fn fields(values: &[Option<&str>]) -> Vec<(String, Option<String>)> {
    approval_required_fields()
        .into_iter()
        .zip(values.iter())
        .map(|(name, value)| (name.to_owned(), value.map(str::to_owned)))
        .collect()
}

fn complete() -> Vec<(String, Option<String>)> {
    fields(&[Some("A1"), Some("vo"), Some("VO-1"), Some("sha256:x"), Some("approved"), Some("2026-01-01")])
}

fn approval(file_id: &str, read: ApprovalRead) -> ApprovalFile {
    ApprovalFile { file_id: file_id.to_owned(), record_path: format!(".verify/approvals/{file_id}.yaml"), read }
}

fn record(id: &str, subject_type: &str, subject: &str) -> Result<ApprovalFields, String> {
    Ok(ApprovalFields { id: id.to_owned(), subject_type: subject_type.to_owned(), subject: subject.to_owned() })
}

#[test]
fn missing_fields_lists_absent_and_blank_values() {
    assert_eq!(approval_required_fields(), vec!["id", "subject_type", "subject", "subject_hash", "approved_state", "approved_at"]);
    assert_eq!(missing_fields(&complete()), None);
    let partial = fields(&[Some("A1"), None, Some("  "), Some("h"), Some("s"), None]);
    assert_eq!(missing_fields(&partial), Some("subject_type, subject, approved_at".to_owned()));
}

#[test]
fn approvals_are_checked_for_schema_and_subject() {
    let files = vec![
        approval("A1", ApprovalRead::Read { valid_ulid: true, fields: complete(), record: record("A1", "vo", "VO-1") }),
        approval("A2", ApprovalRead::Read { valid_ulid: true, fields: complete(), record: record("A2", "vo", "VO-GONE") }),
        approval("A3", ApprovalRead::Read { valid_ulid: true, fields: complete(), record: record("A3", "document", "DOC-GONE") }),
        approval("A4", ApprovalRead::Unreadable("denied".to_owned())),
        approval("bad", ApprovalRead::Read {
            valid_ulid: false,
            fields: fields(&[Some("x"), None, None, None, None, None]),
            record: Err("missing field `subject`".to_owned()),
        }),
        approval("A6", ApprovalRead::Read { valid_ulid: true, fields: complete(), record: record("A7", "vo", "VO-GONE") }),
    ];
    let mut diagnostics = Vec::new();
    check_approvals(&files, &vec!["VO-1".to_owned()], &mut diagnostics);
    assert_eq!(
        messages(&diagnostics),
        vec![
            "E-SCAN-010 approval A2 references missing VO VO-GONE (.verify/approvals/A2.yaml)".to_owned(),
            "E-SCAN-010 approval A4 cannot be read: denied (.verify/approvals/A4.yaml)".to_owned(),
            "E-SCAN-010 approval file name bad is not a valid ULID (.verify/approvals/bad.yaml)".to_owned(),
            "E-SCAN-010 approval bad is missing required fields: subject_type, subject, subject_hash, approved_state, approved_at (.verify/approvals/bad.yaml)".to_owned(),
            "E-SCAN-010 approval bad has an invalid schema: missing field `subject` (.verify/approvals/bad.yaml)".to_owned(),
            "E-SCAN-010 approval file name A6 does not match record id A7 (.verify/approvals/A6.yaml)".to_owned(),
        ]
    );
}

fn map_of(entries: &[(&str, &[u8])]) -> FieldMap {
    let mut map = FieldMap::new();
    for (key, value) in entries {
        map.insert(key.to_string(), value.to_vec());
    }
    map
}

#[test]
fn map_fields_hash_the_same_whatever_the_insertion_order() {
    let forward = map_of(&[("a", b"1"), ("b", b"2"), ("c", b"3")]);
    let backward = map_of(&[("c", b"3"), ("a", b"0"), ("b", b"2"), ("a", b"1")]);
    let h1 = SubjectHashInput::new(SubjectDomain::RecordSubject).field("m", FieldValue::MapOf(forward)).finish();
    let h2 = SubjectHashInput::new(SubjectDomain::RecordSubject).field("m", FieldValue::MapOf(backward)).finish();
    assert_eq!(h1, h2);
    let other = map_of(&[("a", b"1"), ("b", b"2"), ("c", b"4")]);
    let h3 = SubjectHashInput::new(SubjectDomain::RecordSubject).field("m", FieldValue::MapOf(other)).finish();
    assert_ne!(h1, h3);
}

#[test]
fn every_computed_hash_reads_back() {
    for hash in [
        ContentHash::from_text("a\n"),
        ContentHash::from_bytes(&[0xff, 0x61]),
        ContentHash::from_canonical_bytes(b""),
    ] {
        let text = hash.as_str().to_owned();
        assert_eq!(text.len(), 71);
        let parsed = ContentHash::parse(&text).unwrap();
        assert_eq!(parsed, hash);
    }
}
