use vtest::document::{DerivesFrom, NodeSource, RootNode, SectionNode, SentenceNode};
use vtest::encoding::{FieldValue, SubjectDomain, SubjectHashInput};
use vtest::ids::{AdapterId, DocumentId, VoId};
use vtest::source::Locator;
use vtest::subject_hash::{
    root_node_subject_hash, section_node_subject_hash, sentence_node_subject_hash,
    source_target_subject_hash, vo_subject_hash,
};
use vtest::vo::{CombinationEntry, CoveragePolicy, Dimension, VoRecord};

fn sample_source() -> NodeSource {
    NodeSource {
        doc: "docs/guide.md".to_string(),
        heading: "1".to_string(),
        lines: [1, 1],
    }
}

fn base_vo() -> VoRecord {
    VoRecord {
        id: VoId::new("VO-PARSER-UTF8-003"),
        parent: Some(VoId::new("VO-PARSER-UTF8")),
        derives_from: vec![DerivesFrom {
            doc: DocumentId::new("DOC-BASIC-001"),
            anchor: Some("§8.2条項2".to_string()),
            note: Some("".to_string()),
        }],
        claim: "不正な continuation byte を含む入力を与えた場合、ParseError::InvalidUtf8 を返す"
            .to_string(),
        dimensions: vec![Dimension {
            name: "operand-sign".to_string(),
            partitions: vec!["positive".to_string(), "negative".to_string()],
        }],
        coverage_policy: Some(CoveragePolicy::Explicit),
        combinations: vec![CombinationEntry::from_iter(vec![
            ("operand-sign".to_string(), "positive".to_string()),
            ("operator".to_string(), "div".to_string()),
        ])],
        representative_cases: vec!["empty input".to_string()],
        created: "2026-08-08".to_string(),
        updated: "2026-08-08".to_string(),
    }
}

fn sample_sentence(id: &str, statement: &str) -> SentenceNode {
    SentenceNode {
        id: DocumentId::new(id),
        statement: statement.to_string(),
        description: None,
        derives_from: vec![],
        cites: None,
        source: sample_source(),
    }
}

fn sample_root(id: &str, statement: &str) -> RootNode {
    RootNode {
        id: DocumentId::new(id),
        statement: statement.to_string(),
        description: None,
        source: sample_source(),
    }
}

fn sample_section(id: &str, items: Vec<SentenceNode>, sections: Vec<SectionNode>) -> SectionNode {
    SectionNode {
        id: DocumentId::new(id),
        title: format!("title for {id}"),
        description: None,
        source: sample_source(),
        derives_from: None,
        sections: if sections.is_empty() { None } else { Some(sections) },
        items: if items.is_empty() { None } else { Some(items) },
    }
}

#[test]
fn document_node_subject_hash_is_deterministic() {
    let node = sample_sentence("REQ-001", "a requirement");
    assert_eq!(sentence_node_subject_hash(&node), sentence_node_subject_hash(&node));

    let section = sample_section("REQ-S001", vec![sample_sentence("REQ-002", "x")], vec![]);
    assert_eq!(section_node_subject_hash(&section), section_node_subject_hash(&section));
}

#[test]
fn sentence_node_subject_hash_changes_when_id_or_statement_changes() {
    let base = sentence_node_subject_hash(&sample_sentence("REQ-001", "a requirement"));

    let id_changed = sample_sentence("REQ-002", "a requirement");
    assert_ne!(base, sentence_node_subject_hash(&id_changed));

    let statement_changed = sample_sentence("REQ-001", "a different requirement");
    assert_ne!(base, sentence_node_subject_hash(&statement_changed));
}

#[test]
fn sentence_node_subject_hash_ignores_description() {
    let mut without_description = sample_sentence("REQ-001", "a requirement");
    without_description.description = None;
    let mut with_description = sample_sentence("REQ-001", "a requirement");
    with_description.description = Some("an explanatory note".to_string());
    assert_eq!(
        sentence_node_subject_hash(&without_description),
        sentence_node_subject_hash(&with_description)
    );
}

#[test]
fn sentence_node_subject_hash_ignores_derives_from_and_cites() {
    let base = sentence_node_subject_hash(&sample_sentence("REQ-001", "a requirement"));

    let mut derives_from_changed = sample_sentence("REQ-001", "a requirement");
    derives_from_changed.derives_from = vec![DocumentId::new("ROOT-001")];
    assert_eq!(base, sentence_node_subject_hash(&derives_from_changed));

    let mut cites_changed = sample_sentence("REQ-001", "a requirement");
    cites_changed.cites = Some(vec!["基本仕様 §3.2".to_string()]);
    assert_eq!(base, sentence_node_subject_hash(&cites_changed));
}

#[test]
fn root_node_subject_hash_follows_the_sentence_node_rule() {
    let root = sample_root("ROOT-001", "Frozen ruling.");
    let sentence_with_same_id_and_statement = sample_sentence("ROOT-001", "Frozen ruling.");
    assert_eq!(
        root_node_subject_hash(&root),
        sentence_node_subject_hash(&sentence_with_same_id_and_statement),
        "one rule applied regardless of layer"
    );

    let base = root_node_subject_hash(&sample_root("ROOT-001", "Frozen ruling."));
    assert_ne!(base, root_node_subject_hash(&sample_root("ROOT-002", "Frozen ruling.")));
    assert_ne!(base, root_node_subject_hash(&sample_root("ROOT-001", "A different ruling.")));

    let mut with_description = sample_root("ROOT-001", "Frozen ruling.");
    with_description.description = Some("context".to_string());
    assert_eq!(base, root_node_subject_hash(&with_description));
}

#[test]
fn section_node_subject_hash_changes_when_children_are_reordered() {
    let forward_items = sample_section(
        "REQ-S001",
        vec![sample_sentence("REQ-001", "first"), sample_sentence("REQ-002", "second")],
        vec![],
    );
    let reversed_items = sample_section(
        "REQ-S001",
        vec![sample_sentence("REQ-002", "second"), sample_sentence("REQ-001", "first")],
        vec![],
    );
    assert_ne!(
        section_node_subject_hash(&forward_items),
        section_node_subject_hash(&reversed_items)
    );

    let forward_sections = sample_section(
        "REQ-S002",
        vec![],
        vec![
            sample_section("REQ-S003", vec![sample_sentence("REQ-003", "a")], vec![]),
            sample_section("REQ-S004", vec![sample_sentence("REQ-004", "b")], vec![]),
        ],
    );
    let reversed_sections = sample_section(
        "REQ-S002",
        vec![],
        vec![
            sample_section("REQ-S004", vec![sample_sentence("REQ-004", "b")], vec![]),
            sample_section("REQ-S003", vec![sample_sentence("REQ-003", "a")], vec![]),
        ],
    );
    assert_ne!(
        section_node_subject_hash(&forward_sections),
        section_node_subject_hash(&reversed_sections)
    );
}

#[test]
fn subject_hash_input_same_value_differs_by_field_name_alone() {
    let same_child_hash_bytes = b"same-child-subject-hash-bytes".to_vec();
    let as_items = SubjectHashInput::new(SubjectDomain::DocumentSubject)
        .field("items", FieldValue::Ordered(vec![same_child_hash_bytes.clone()]))
        .finish();
    let as_sections = SubjectHashInput::new(SubjectDomain::DocumentSubject)
        .field("sections", FieldValue::Ordered(vec![same_child_hash_bytes]))
        .finish();
    assert_ne!(as_items, as_sections);
}

#[test]
fn subject_hash_input_items_field_differs_from_sections_field_for_the_same_content() {
    let same_child_hash_bytes = b"same-child-subject-hash-bytes".to_vec();
    let as_items = SubjectHashInput::new(SubjectDomain::DocumentSubject)
        .field("items", FieldValue::Ordered(vec![same_child_hash_bytes.clone()]))
        .field("sections", FieldValue::Ordered(vec![]))
        .finish();
    let as_sections = SubjectHashInput::new(SubjectDomain::DocumentSubject)
        .field("items", FieldValue::Ordered(vec![]))
        .field("sections", FieldValue::Ordered(vec![same_child_hash_bytes]))
        .finish();
    assert_ne!(as_items, as_sections);
}

#[test]
fn section_node_subject_hash_changes_when_a_child_moves_into_a_nested_section() {
    let leaf_sentence = sample_sentence("REQ-001", "shared content");
    let as_item = sample_section("REQ-S001", vec![leaf_sentence.clone()], vec![]);
    let as_section = sample_section(
        "REQ-S001",
        vec![],
        vec![sample_section("REQ-S002", vec![leaf_sentence], vec![])],
    );
    assert_ne!(section_node_subject_hash(&as_item), section_node_subject_hash(&as_section));
}

#[test]
fn section_node_subject_hash_treats_absent_and_explicit_empty_the_same() {
    let mut none_children = sample_section("REQ-S001", vec![], vec![]);
    none_children.items = None;
    none_children.sections = None;

    let mut explicit_empty_children = sample_section("REQ-S001", vec![], vec![]);
    explicit_empty_children.items = Some(vec![]);
    explicit_empty_children.sections = Some(vec![]);

    assert_eq!(
        section_node_subject_hash(&none_children),
        section_node_subject_hash(&explicit_empty_children)
    );
}

#[test]
fn section_node_subject_hash_ignores_its_own_identity_fields() {
    let build = || sample_section("REQ-S001", vec![sample_sentence("REQ-001", "x")], vec![]);
    let base_hash = section_node_subject_hash(&build());

    let mut id_changed = build();
    id_changed.id = DocumentId::new("REQ-S999");
    assert_eq!(base_hash, section_node_subject_hash(&id_changed));

    let mut title_changed = build();
    title_changed.title = "a different title".to_string();
    assert_eq!(base_hash, section_node_subject_hash(&title_changed));

    let mut description_changed = build();
    description_changed.description = Some("context".to_string());
    assert_eq!(base_hash, section_node_subject_hash(&description_changed));

    let mut derives_from_changed = build();
    derives_from_changed.derives_from = Some(vec![DocumentId::new("ROOT-001")]);
    assert_eq!(base_hash, section_node_subject_hash(&derives_from_changed));
}

#[test]
fn section_node_subject_hash_propagates_changes_from_nested_descendants() {
    let build = |leaf_statement: &str| {
        sample_section(
            "REQ-S001",
            vec![],
            vec![sample_section("REQ-S002", vec![sample_sentence("REQ-001", leaf_statement)], vec![])],
        )
    };
    assert_ne!(
        section_node_subject_hash(&build("original")),
        section_node_subject_hash(&build("changed"))
    );
}

#[test]
fn vo_subject_hash_changes_when_derives_from_or_parent_changes() {
    let base = vo_subject_hash(&base_vo());

    let mut parent_changed = base_vo();
    parent_changed.parent = Some(VoId::new("VO-OTHER-PARENT"));
    assert_ne!(base, vo_subject_hash(&parent_changed));

    let mut derives_from_changed = base_vo();
    derives_from_changed.derives_from[0].doc = DocumentId::new("DOC-OTHER-001");
    assert_ne!(base, vo_subject_hash(&derives_from_changed));
}

#[test]
fn vo_subject_hash_does_not_change_when_derives_from_anchor_or_note_changes() {
    let base = vo_subject_hash(&base_vo());

    let mut anchor_changed = base_vo();
    anchor_changed.derives_from[0].anchor = Some("§different".to_string());
    assert_eq!(base, vo_subject_hash(&anchor_changed));

    let mut note_changed = base_vo();
    note_changed.derives_from[0].note = Some("a different reason".to_string());
    assert_eq!(base, vo_subject_hash(&note_changed));
}

#[test]
fn vo_subject_hash_dedupes_derives_from_entries_pointing_at_the_same_document() {
    let single_entry = vo_subject_hash(&base_vo());

    let mut duplicated = base_vo();
    duplicated.derives_from.push(DerivesFrom {
        doc: duplicated.derives_from[0].doc.clone(),
        anchor: Some("§a-different-clause".to_string()),
        note: None,
    });
    assert_eq!(single_entry, vo_subject_hash(&duplicated));
}

#[test]
fn vo_subject_hash_changes_when_combinations_changes() {
    let base = vo_subject_hash(&base_vo());
    let mut changed = base_vo();
    changed.combinations = vec![CombinationEntry::from_iter(vec![
        ("operand-sign".to_string(), "negative".to_string()),
        ("operator".to_string(), "div".to_string()),
    ])];
    assert_ne!(base, vo_subject_hash(&changed));
}

#[test]
fn vo_subject_hash_combination_entry_is_independent_of_pair_declaration_order() {
    let mut forward_order = base_vo();
    forward_order.combinations = vec![CombinationEntry::from_iter(vec![
        ("operand-sign".to_string(), "positive".to_string()),
        ("operator".to_string(), "div".to_string()),
    ])];

    let mut reversed_order = base_vo();
    reversed_order.combinations = vec![CombinationEntry::from_iter(vec![
        ("operator".to_string(), "div".to_string()),
        ("operand-sign".to_string(), "positive".to_string()),
    ])];

    assert_eq!(vo_subject_hash(&forward_order), vo_subject_hash(&reversed_order));
}

#[test]
fn vo_subject_hash_changes_when_any_other_canonical_field_changes() {
    let base = vo_subject_hash(&base_vo());

    let mut id_changed = base_vo();
    id_changed.id = VoId::new("VO-OTHER-ID");
    assert_ne!(base, vo_subject_hash(&id_changed));

    let mut claim_changed = base_vo();
    claim_changed.claim = "a different claim".to_string();
    assert_ne!(base, vo_subject_hash(&claim_changed));

    let mut dimensions_changed = base_vo();
    dimensions_changed.dimensions[0].partitions.push("zero".to_string());
    assert_ne!(base, vo_subject_hash(&dimensions_changed));

    let mut coverage_policy_changed = base_vo();
    coverage_policy_changed.coverage_policy = Some(CoveragePolicy::FullProduct);
    assert_ne!(base, vo_subject_hash(&coverage_policy_changed));

    let mut representative_cases_changed = base_vo();
    representative_cases_changed.representative_cases.push("max length input".to_string());
    assert_ne!(base, vo_subject_hash(&representative_cases_changed));

    let mut created_changed = base_vo();
    created_changed.created = "2026-01-01".to_string();
    assert_ne!(base, vo_subject_hash(&created_changed));

    let mut updated_changed = base_vo();
    updated_changed.updated = "2026-01-01".to_string();
    assert_ne!(base, vo_subject_hash(&updated_changed));
}

#[test]
fn vo_subject_hash_normalizes_record_text_fields() {
    let mut crlf_claim = base_vo();
    crlf_claim.claim = "a claim with trailing space  \r\nsecond line  \r\n".to_string();
    let mut lf_claim = base_vo();
    lf_claim.claim = "a claim with trailing space\nsecond line\n".to_string();
    assert_eq!(
        vo_subject_hash(&crlf_claim),
        vo_subject_hash(&lf_claim),
        "claim is a normalized text fragment"
    );
}

#[test]
fn vo_subject_hash_distinguishes_absent_parent_from_present_parent() {
    let mut no_parent = base_vo();
    no_parent.parent = None;
    let with_parent = base_vo();
    assert_ne!(vo_subject_hash(&no_parent), vo_subject_hash(&with_parent));
}

fn base_locator() -> Locator {
    Locator {
        adapter: AdapterId::new("rust-cargo"),
        value: "src/parser.rs::Parser::parse".to_string(),
    }
}

#[test]
fn source_target_subject_hash_changes_when_locator_or_construct_changes() {
    let base = source_target_subject_hash(&base_locator(), "fn parse() {}");

    let mut adapter_changed = base_locator();
    adapter_changed.adapter = AdapterId::new("other-lang");
    assert_ne!(base, source_target_subject_hash(&adapter_changed, "fn parse() {}"));

    let mut value_changed = base_locator();
    value_changed.value = "src/parser.rs::Parser::other".to_string();
    assert_ne!(base, source_target_subject_hash(&value_changed, "fn parse() {}"));

    assert_ne!(base, source_target_subject_hash(&base_locator(), "fn parse_other() {}"));
}

#[test]
fn source_target_subject_hash_normalizes_construct_text() {
    let crlf = source_target_subject_hash(&base_locator(), "fn parse() {  \r\n    body()  \r\n}");
    let lf = source_target_subject_hash(&base_locator(), "fn parse() {\n    body()\n}");
    assert_eq!(crlf, lf);
}

#[test]
fn source_target_subject_hash_preserves_leading_space_and_trailing_newline_in_construct() {
    let leading_space = source_target_subject_hash(&base_locator(), "fn parse() {\n    body()\n}");
    let no_leading_space = source_target_subject_hash(&base_locator(), "fn parse() {\nbody()\n}");
    assert_ne!(leading_space, no_leading_space);

    let without_trailing_newline = source_target_subject_hash(&base_locator(), "fn parse() {}");
    let with_trailing_newline = source_target_subject_hash(&base_locator(), "fn parse() {}\n");
    assert_ne!(without_trailing_newline, with_trailing_newline);
}

#[test]
fn source_target_subject_hash_changes_when_an_in_construct_src_id_comment_is_added() {
    let without_src_id_comment = source_target_subject_hash(&base_locator(), "fn parse() {}");
    let with_src_id_comment = source_target_subject_hash(
        &base_locator(),
        "/// @vtest.src-id SRC-PARSER-001\nfn parse() {}",
    );
    assert_ne!(without_src_id_comment, with_src_id_comment);
}

#[test]
fn vo_subject_hash_does_not_depend_on_derives_from_order() {
    let mut two = base_vo();
    two.derives_from.push(DerivesFrom {
        doc: DocumentId::new("DOC-OTHER-002"),
        anchor: None,
        note: None,
    });
    let mut reversed = two.clone();
    reversed.derives_from.reverse();
    assert_eq!(vo_subject_hash(&two), vo_subject_hash(&reversed));
}

#[test]
fn vo_subject_hash_normalizes_derives_from_ids() {
    let mut spaced = base_vo();
    spaced.derives_from[0].doc = DocumentId::new("DOC-BASIC-001  ");
    assert_eq!(vo_subject_hash(&spaced), vo_subject_hash(&base_vo()));
}

#[test]
fn vo_subject_hash_ignores_the_order_of_references_and_of_combination_pairs() {
    let mut a = base_vo();
    a.derives_from = vec![
        DerivesFrom { doc: DocumentId::new("DOC-A"), anchor: None, note: None },
        DerivesFrom { doc: DocumentId::new("DOC-B"), anchor: Some("x".to_owned()), note: None },
    ];
    a.combinations = vec![CombinationEntry::from_iter(vec![
        ("region".to_owned(), "jp".to_owned()),
        ("tier".to_owned(), "free".to_owned()),
    ])];
    let mut b = a.clone();
    b.derives_from = vec![
        DerivesFrom { doc: DocumentId::new("DOC-B"), anchor: None, note: Some("n".to_owned()) },
        DerivesFrom { doc: DocumentId::new("DOC-A"), anchor: None, note: None },
        DerivesFrom { doc: DocumentId::new("DOC-A"), anchor: None, note: None },
    ];
    b.combinations = vec![CombinationEntry::from_iter(vec![
        ("tier".to_owned(), "free".to_owned()),
        ("region".to_owned(), "jp".to_owned()),
    ])];
    assert_eq!(vo_subject_hash(&a), vo_subject_hash(&b));
}
