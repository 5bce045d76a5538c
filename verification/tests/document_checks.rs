use vtest::diagnostic::Diagnostic;
use vtest::document::{DocumentFile, NodeSource, RootNode, SectionNode, SentenceNode};
use vtest::ids::DocumentId;
use vtest::scan_documents::{invalid_document_diagnostic, validate_document_nodes};

fn fixture_node_source() -> NodeSource {
    NodeSource {
        doc: "docs/test.md".to_owned(),
        heading: "1".to_owned(),
        lines: [1, 1],
    }
}

fn empty_file() -> DocumentFile {
    DocumentFile {
        schema_version: "0.1".to_owned(),
        root: Vec::new(),
        request: Vec::new(),
        require: Vec::new(),
        spec: Vec::new(),
        detailed_spec: Vec::new(),
        basic_design: Vec::new(),
        design: Vec::new(),
    }
}

fn root_fixture() -> (String, DocumentFile) {
    let mut file = empty_file();
    file.root = vec![RootNode {
        id: DocumentId::new("ROOT-001"),
        statement: "fixture root ruling".to_owned(),
        description: None,
        source: fixture_node_source(),
    }];
    ("DOC-TEST".to_owned(), file)
}

fn sentence(id: &str, statement: &str, derives_from: Vec<&str>) -> SentenceNode {
    SentenceNode {
        id: DocumentId::new(id),
        statement: statement.to_owned(),
        description: None,
        derives_from: derives_from.into_iter().map(DocumentId::new).collect(),
        cites: None,
        source: fixture_node_source(),
    }
}

fn scan(files: Vec<(String, DocumentFile)>) -> (Vec<String>, Vec<Diagnostic>) {
    let mut all = vec![root_fixture()];
    all.extend(files);
    let mut diagnostics = Vec::new();
    let known = validate_document_nodes(&all, &mut diagnostics);
    (known, diagnostics)
}

fn any(diagnostics: &[Diagnostic], code: &str, needles: &[&str]) -> bool {
    diagnostics
        .iter()
        .any(|d| d.code == code && needles.iter().all(|n| d.message.contains(n)))
}

#[test]
fn reports_document_derives_from_dangling_reference() {
    let mut file = empty_file();
    file.request = vec![sentence("R-901", "dangling reference fixture", vec!["SPEC-999"])];
    let (_, diagnostics) = scan(vec![("DOC-DANGLING".to_owned(), file)]);
    let dangling = diagnostics
        .iter()
        .filter(|d| d.code == "E-SCAN-012" && d.message.contains("R-901"))
        .collect::<Vec<_>>();
    assert_eq!(dangling.len(), 1, "diagnostics: {:?}", diagnostics);
    assert!(dangling[0].message.contains("SPEC-999"));
    assert_eq!(
        dangling[0].message,
        "document node R-901 derives_from missing node SPEC-999 (.verify/doc/DOC-DANGLING.json)"
    );
    assert!(!any(&diagnostics, "E-SCAN-016", &["R-901"]));
}

#[test]
fn reports_document_node_id_collision_across_files() {
    let mut file_a = empty_file();
    file_a.request = vec![sentence("R-908", "first definition", vec![])];
    let mut file_b = empty_file();
    file_b.request = vec![
        sentence("R-908", "second definition", vec![]),
        sentence("R-905", "cites the colliding id", vec!["R-908"]),
    ];
    let (known, diagnostics) = scan(vec![
        ("DOC-DUP-B".to_owned(), file_b),
        ("DOC-DUP-A".to_owned(), file_a),
    ]);
    let collisions = diagnostics
        .iter()
        .filter(|d| d.code == "E-SCAN-010" && d.message.contains("R-908"))
        .collect::<Vec<_>>();
    assert_eq!(collisions.len(), 1, "diagnostics: {:?}", diagnostics);
    assert_eq!(
        collisions[0].message,
        "document node id R-908 occurs more than once, in: DOC-DUP-A, DOC-DUP-B (.verify/doc/DOC-DUP-B.json)"
    );
    assert!(any(&diagnostics, "E-SCAN-012", &["R-905", "R-908"]));
    assert!(!known.contains(&"R-908".to_owned()));
    assert_eq!(known, vec!["R-905".to_owned(), "ROOT-001".to_owned()]);
}

#[test]
fn reports_document_node_id_collision_within_one_file() {
    let mut file = empty_file();
    file.request = vec![
        sentence("R-909", "first definition", vec![]),
        sentence("R-909", "second definition, same file", vec![]),
    ];
    let (_, diagnostics) = scan(vec![("DOC-SAME-FILE-DUP".to_owned(), file)]);
    assert!(
        diagnostics.iter().any(|d| d.code == "E-SCAN-010"
            && d.message
                == "document node id R-909 occurs more than once, in: DOC-SAME-FILE-DUP (.verify/doc/DOC-SAME-FILE-DUP.json)"),
        "diagnostics: {:?}",
        diagnostics
    );
}

#[test]
fn no_document_node_collision_reports_no_e_scan_010() {
    let mut file_a = empty_file();
    file_a.request = vec![sentence("R-906", "no collision fixture A", vec![])];
    let mut file_b = empty_file();
    file_b.request = vec![sentence("R-907", "no collision fixture B", vec!["R-906"])];
    let (_, diagnostics) = scan(vec![
        ("DOC-NO-COLLISION-A".to_owned(), file_a),
        ("DOC-NO-COLLISION-B".to_owned(), file_b),
    ]);
    assert!(!diagnostics.iter().any(|d| d.code == "E-SCAN-010"), "{:?}", diagnostics);
}

#[test]
fn reports_orphan_node_with_no_effective_upstream() {
    let mut file = empty_file();
    file.request = vec![sentence("R-902", "orphan fixture", vec![])];
    let (_, diagnostics) = scan(vec![("DOC-ORPHAN".to_owned(), file)]);
    let orphan = diagnostics
        .iter()
        .filter(|d| d.code == "E-SCAN-016" && d.message.contains("R-902"))
        .collect::<Vec<_>>();
    assert_eq!(orphan.len(), 1, "diagnostics: {:?}", diagnostics);
    assert_eq!(
        orphan[0].message,
        "document node R-902 is orphaned: no effective upstream (own or ancestor derives_from edges) (.verify/doc/DOC-ORPHAN.json)"
    );
    assert!(!any(&diagnostics, "E-SCAN-012", &["R-902"]));
}

#[test]
fn sentence_with_empty_derives_from_is_rescued_by_ancestor_section_edge() {
    let mut file = empty_file();
    file.require = vec![SectionNode {
        id: DocumentId::new("REQ-S901"),
        title: "ancestor with an edge".to_owned(),
        description: None,
        source: fixture_node_source(),
        derives_from: Some(vec![DocumentId::new("ROOT-001")]),
        sections: None,
        items: Some(vec![sentence("REQ-903", "rescued by ancestor", vec![])]),
    }];
    let (_, diagnostics) = scan(vec![("DOC-ANCESTOR-RESCUE".to_owned(), file)]);
    assert!(
        !diagnostics.iter().any(|d| d.code == "E-SCAN-016"
            && (d.message.contains("REQ-903") || d.message.contains("REQ-S901"))),
        "diagnostics: {:?}",
        diagnostics
    );
    assert!(diagnostics.is_empty(), "diagnostics: {:?}", diagnostics);
}

#[test]
fn reports_orphaned_section_node_with_no_own_or_ancestor_edge() {
    let mut file = empty_file();
    file.require = vec![SectionNode {
        id: DocumentId::new("REQ-S902"),
        title: "a section with no edge of its own and no ancestor".to_owned(),
        description: None,
        source: fixture_node_source(),
        derives_from: None,
        sections: None,
        items: None,
    }];
    let (_, diagnostics) = scan(vec![("DOC-ORPHAN-SECTION".to_owned(), file)]);
    assert!(any(&diagnostics, "E-SCAN-016", &["REQ-S902"]), "{:?}", diagnostics);
}

#[test]
fn reports_dangling_derives_from_on_section_node_without_orphan() {
    let mut file = empty_file();
    file.require = vec![SectionNode {
        id: DocumentId::new("REQ-S903"),
        title: "a section with a dangling edge of its own".to_owned(),
        description: None,
        source: fixture_node_source(),
        derives_from: Some(vec![DocumentId::new("SPEC-999")]),
        sections: None,
        items: None,
    }];
    let (_, diagnostics) = scan(vec![("DOC-SECTION-DANGLING".to_owned(), file)]);
    assert!(any(&diagnostics, "E-SCAN-012", &["REQ-S903", "SPEC-999"]), "{:?}", diagnostics);
    assert!(!any(&diagnostics, "E-SCAN-016", &["REQ-S903"]), "{:?}", diagnostics);
}

#[test]
fn orphan_rescue_propagates_through_nested_sections_at_depth_two() {
    let mut file = empty_file();
    file.require = vec![SectionNode {
        id: DocumentId::new("REQ-S904"),
        title: "outer section with the only edge".to_owned(),
        description: None,
        source: fixture_node_source(),
        derives_from: Some(vec![DocumentId::new("ROOT-001")]),
        sections: Some(vec![SectionNode {
            id: DocumentId::new("REQ-S905"),
            title: "nested child section with no edge of its own".to_owned(),
            description: None,
            source: fixture_node_source(),
            derives_from: None,
            sections: None,
            items: Some(vec![sentence(
                "REQ-906",
                "rescued through two levels of ancestor sections",
                vec![],
            )]),
        }]),
        items: None,
    }];
    let (_, diagnostics) = scan(vec![("DOC-NESTED-RESCUE".to_owned(), file)]);
    assert!(
        !diagnostics.iter().any(|d| d.code == "E-SCAN-016"
            && (d.message.contains("REQ-S905") || d.message.contains("REQ-906"))),
        "diagnostics: {:?}",
        diagnostics
    );
}

#[test]
fn node_referenced_by_another_nodes_derives_from_is_still_orphan() {
    let mut file = empty_file();
    file.request = vec![
        sentence("R-904", "cited by R-905 but has no upstream edge itself", vec![]),
        sentence("R-905", "cites R-904", vec!["R-904"]),
    ];
    let (_, diagnostics) = scan(vec![("DOC-INCOMING-REF-ONLY".to_owned(), file)]);
    assert!(any(&diagnostics, "E-SCAN-016", &["R-904"]), "{:?}", diagnostics);
}

#[test]
fn well_formed_documents_report_no_document_layer_diagnostics() {
    let mut file = empty_file();
    file.request = vec![sentence("R-906", "derives from the fixture root", vec!["ROOT-001"])];
    let (_, diagnostics) = scan(vec![("DOC-CHILD".to_owned(), file)]);
    let document_layer_codes = ["E-SCAN-012", "E-SCAN-016"];
    assert!(
        !diagnostics.iter().any(|d| document_layer_codes.contains(&d.code.as_str())),
        "diagnostics: {:?}",
        diagnostics
    );
}

#[test]
fn malformed_document_file_reports_e_scan_010_and_scan_continues() {
    let mut diagnostics = vec![invalid_document_diagnostic("DOC-BROKEN", "expected value")];
    let mut file = empty_file();
    file.request = vec![sentence("R-907", "an orphaned request", vec![])];
    let files = vec![root_fixture(), ("DOC-OK".to_owned(), file)];
    validate_document_nodes(&files, &mut diagnostics);
    assert_eq!(diagnostics[0].code, "E-SCAN-010");
    assert_eq!(
        diagnostics[0].message,
        "document DOC-BROKEN has an invalid record: expected value (.verify/doc/DOC-BROKEN.json)"
    );
    assert!(any(&diagnostics, "E-SCAN-016", &["R-907"]));
}

#[test]
fn collisions_are_reported_in_ascending_id_order() {
    let mut file = empty_file();
    file.request = vec![
        sentence("R-2", "x", vec!["ROOT-001"]),
        sentence("R-1", "x", vec!["ROOT-001"]),
        sentence("R-2", "y", vec!["ROOT-001"]),
        sentence("R-1", "y", vec!["ROOT-001"]),
    ];
    let (known, diagnostics) = scan(vec![("DOC-ORDER".to_owned(), file)]);
    let collisions = diagnostics
        .iter()
        .filter(|d| d.code == "E-SCAN-010")
        .map(|d| d.message.clone())
        .collect::<Vec<_>>();
    assert_eq!(collisions.len(), 2);
    assert!(collisions[0].starts_with("document node id R-1 "));
    assert!(collisions[1].starts_with("document node id R-2 "));
    assert_eq!(known, vec!["ROOT-001".to_owned()]);
}
