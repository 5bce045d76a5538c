use vtest::encoding::{FieldMap, FieldValue, SubjectDomain, SubjectHashInput};
use vtest::hash::ContentHash;
use vtest::normalize::normalize_hashed_text;

#[test]
fn hash_normalization_only_changes_line_endings_and_trailing_space() {
    assert_eq!(
        ContentHash::from_text("a  \r\nb  \r\n"),
        ContentHash::from_text("a\nb\n")
    );
    assert_ne!(
        ContentHash::from_text("a\n b\n"),
        ContentHash::from_text("a\nb\n")
    );
    assert_ne!(ContentHash::from_text("a"), ContentHash::from_text("a\n"));
}

#[test]
fn content_hash_from_canonical_bytes_does_not_normalize() {
    assert_ne!(
        ContentHash::from_canonical_bytes(b"a  \r\n"),
        ContentHash::from_canonical_bytes(b"a\n")
    );
}

#[test]
fn canonical_hash_domain_separator_distinguishes_all_five_domains() {
    let domains = [
        SubjectDomain::TestSubject,
        SubjectDomain::TargetSubject,
        SubjectDomain::DocumentSubject,
        SubjectDomain::RecordSubject,
        SubjectDomain::ExecutionState,
    ];
    let hashes: Vec<ContentHash> = domains
        .iter()
        .map(|&domain| {
            SubjectHashInput::new(domain)
                .field("id", FieldValue::exact_bytes(b"same-field-content".to_vec()))
                .finish()
        })
        .collect();
    for i in 0..hashes.len() {
        for j in (i + 1)..hashes.len() {
            assert_ne!(
                hashes[i], hashes[j],
                "domains {:?} and {:?} collided",
                domains[i], domains[j]
            );
        }
    }
}

#[test]
fn canonical_hash_null_empty_string_and_empty_list_are_pairwise_distinct() {
    let null_hash = SubjectHashInput::new(SubjectDomain::TestSubject)
        .field("input", FieldValue::Null)
        .finish();
    let empty_string_hash = SubjectHashInput::new(SubjectDomain::TestSubject)
        .field("input", FieldValue::exact_bytes(Vec::<u8>::new()))
        .finish();
    let empty_list_hash = SubjectHashInput::new(SubjectDomain::TestSubject)
        .field("input", FieldValue::Ordered(Vec::new()))
        .finish();
    assert_ne!(null_hash, empty_string_hash);
    assert_ne!(null_hash, empty_list_hash);
    assert_ne!(empty_string_hash, empty_list_hash);
}

#[test]
fn canonical_hash_length_prefixing_distinguishes_inputs_that_would_naively_collide() {
    let split_ab = SubjectHashInput::new(SubjectDomain::TestSubject)
        .field("a", FieldValue::exact_bytes(b"xy".to_vec()))
        .field("b", FieldValue::exact_bytes(b"z".to_vec()))
        .finish();
    let split_a_b2 = SubjectHashInput::new(SubjectDomain::TestSubject)
        .field("a", FieldValue::exact_bytes(b"x".to_vec()))
        .field("b", FieldValue::exact_bytes(b"yz".to_vec()))
        .finish();
    assert_ne!(split_ab, split_a_b2);
}

#[test]
fn canonical_hash_map_field_is_independent_of_insertion_order() {
    let mut map_ab = FieldMap::new();
    map_ab.insert("a".to_string(), b"1".to_vec());
    map_ab.insert("b".to_string(), b"2".to_vec());

    let mut map_ba = FieldMap::new();
    map_ba.insert("b".to_string(), b"2".to_vec());
    map_ba.insert("a".to_string(), b"1".to_vec());

    let hash_ab = SubjectHashInput::new(SubjectDomain::ExecutionState)
        .field("config", FieldValue::MapOf(map_ab))
        .finish();
    let hash_ba = SubjectHashInput::new(SubjectDomain::ExecutionState)
        .field("config", FieldValue::MapOf(map_ba))
        .finish();
    assert_eq!(hash_ab, hash_ba);
}

#[test]
fn canonical_hash_set_field_is_independent_of_declared_order() {
    let forward = vec![b"VO-A".to_vec(), b"VO-B".to_vec(), b"VO-C".to_vec()];
    let mut shuffled = forward.clone();
    shuffled.reverse();
    assert_ne!(
        forward, shuffled,
        "precondition: the two orders must actually differ"
    );

    let hash_forward = SubjectHashInput::new(SubjectDomain::TestSubject)
        .field("covers", FieldValue::SetOf(forward))
        .finish();
    let hash_shuffled = SubjectHashInput::new(SubjectDomain::TestSubject)
        .field("covers", FieldValue::SetOf(shuffled))
        .finish();
    assert_eq!(hash_forward, hash_shuffled);
}

#[test]
fn canonical_hash_ordered_field_changes_when_declaration_order_changes() {
    let forward = vec![b"case-one".to_vec(), b"case-two".to_vec()];
    let mut reversed = forward.clone();
    reversed.reverse();

    let hash_forward = SubjectHashInput::new(SubjectDomain::TestSubject)
        .field("cases", FieldValue::Ordered(forward))
        .finish();
    let hash_reversed = SubjectHashInput::new(SubjectDomain::TestSubject)
        .field("cases", FieldValue::Ordered(reversed))
        .finish();
    assert_ne!(hash_forward, hash_reversed);
}

#[test]
fn canonical_hash_text_fragment_field_normalizes_line_endings_and_trailing_space() {
    let crlf = SubjectHashInput::new(SubjectDomain::TestSubject)
        .field("intent", FieldValue::text_fragment("a  \r\nb  \r\n"))
        .finish();
    let lf = SubjectHashInput::new(SubjectDomain::TestSubject)
        .field("intent", FieldValue::text_fragment("a\nb\n"))
        .finish();
    assert_eq!(crlf, lf);
}

#[test]
fn canonical_hash_text_fragment_field_preserves_leading_space_and_trailing_newline_presence() {
    let leading_space = SubjectHashInput::new(SubjectDomain::TestSubject)
        .field("intent", FieldValue::text_fragment("a\n b\n"))
        .finish();
    let no_leading_space = SubjectHashInput::new(SubjectDomain::TestSubject)
        .field("intent", FieldValue::text_fragment("a\nb\n"))
        .finish();
    assert_ne!(leading_space, no_leading_space);

    let with_trailing_newline = SubjectHashInput::new(SubjectDomain::TestSubject)
        .field("intent", FieldValue::text_fragment("a"))
        .finish();
    let without_trailing_newline = SubjectHashInput::new(SubjectDomain::TestSubject)
        .field("intent", FieldValue::text_fragment("a\n"))
        .finish();
    assert_ne!(with_trailing_newline, without_trailing_newline);
}

#[test]
fn canonical_hash_exact_bytes_field_does_not_normalize() {
    let crlf = SubjectHashInput::new(SubjectDomain::ExecutionState)
        .field("manifest_entry", FieldValue::exact_bytes(b"a  \r\n".to_vec()))
        .finish();
    let lf = SubjectHashInput::new(SubjectDomain::ExecutionState)
        .field("manifest_entry", FieldValue::exact_bytes(b"a\n".to_vec()))
        .finish();
    assert_ne!(crlf, lf);
}

#[test]
fn content_hash_of_empty_text_is_the_sha256_of_nothing() {
    assert_eq!(
        ContentHash::from_text("").as_str(),
        "sha256:e3b0c44298fc1c149afbf4c8996fb92427ae41e4649b934ca495991b7852b855"
    );
}

#[test]
fn content_hash_of_bytes_reads_them_as_text() {
    assert_eq!(ContentHash::from_bytes(b"a \r\n"), ContentHash::from_text("a\n"));
    assert_ne!(
        ContentHash::from_canonical_bytes(b"abc"),
        ContentHash::from_text("abd")
    );
}

#[test]
fn content_hash_parse_accepts_the_textual_form_only() {
    let hash = ContentHash::from_text("x");
    let parsed = ContentHash::parse(hash.as_str()).unwrap();
    assert_eq!(parsed, hash);
    let upper = format!("sha256:{}", "A".repeat(64));
    assert!(ContentHash::parse(&upper).is_ok());
    assert_eq!(
        ContentHash::parse("sha256:abc").unwrap_err(),
        "content hash must be sha256:<64 hexadecimal characters>"
    );
    assert!(ContentHash::parse(&format!("md5:{}", "a".repeat(64))).is_err());
    assert!(ContentHash::parse(&format!("sha256:{}", "g".repeat(64))).is_err());
    let from_str: ContentHash = hash.as_str().parse().unwrap();
    assert_eq!(from_str, hash);
}

#[test]
fn normalization_unifies_line_endings_and_strips_trailing_blanks() {
    assert_eq!(normalize_hashed_text("a \t\r\nb\rc  "), "a\nb\nc");
    assert_eq!(normalize_hashed_text("  lead\n"), "  lead\n");
    assert_eq!(normalize_hashed_text(""), "");
    let once = normalize_hashed_text("x  \r\n\r\ny\t");
    assert_eq!(normalize_hashed_text(&once), once);
}

#[test]
fn subject_domain_names_are_the_versioned_literals() {
    assert_eq!(SubjectDomain::TestSubject.as_str(), "vtest:test-subject:v1");
    assert_eq!(SubjectDomain::TargetSubject.as_str(), "vtest:target-subject:v1");
    assert_eq!(SubjectDomain::DocumentSubject.as_str(), "vtest:document-subject:v1");
    assert_eq!(SubjectDomain::RecordSubject.as_str(), "vtest:record-subject:v1");
    assert_eq!(SubjectDomain::ExecutionState.as_str(), "vtest:execution-state:v1");
}

#[test]
fn nested_fields_encode_like_hash_input_fields_without_a_domain() {
    let bytes = vtest::encoding::encode_nested_fields(vec![("k", FieldValue::exact_bytes(b"v".to_vec()))]);
    let mut expected = Vec::new();
    expected.extend_from_slice(&1u64.to_be_bytes());
    expected.extend_from_slice(b"k");
    expected.push(1);
    expected.extend_from_slice(&1u64.to_be_bytes());
    expected.extend_from_slice(b"v");
    assert_eq!(bytes, expected);
}

#[test]
fn field_map_keeps_the_last_value_for_a_key() {
    let mut once = FieldMap::new();
    once.insert("k".to_string(), b"2".to_vec());
    let mut twice = FieldMap::new();
    twice.insert("k".to_string(), b"1".to_vec());
    twice.insert("k".to_string(), b"2".to_vec());
    let a = SubjectHashInput::new(SubjectDomain::ExecutionState)
        .field("m", FieldValue::MapOf(once))
        .finish();
    let b = SubjectHashInput::new(SubjectDomain::ExecutionState)
        .field("m", FieldValue::MapOf(twice))
        .finish();
    assert_eq!(a, b);
}

#[test]
fn a_built_hash_input_is_the_length_prefixed_domain_then_the_fields_in_call_order() {
    let built = SubjectHashInput::new(SubjectDomain::DocumentSubject)
        .field("items", FieldValue::Ordered(vec![b"h1".to_vec(), b"h2".to_vec()]))
        .field("sections", FieldValue::exact_bytes(b"s".to_vec()))
        .finish();
    let domain = SubjectDomain::DocumentSubject.as_str().as_bytes();
    let fields = vtest::encoding::encode_nested_fields(vec![
        ("items", FieldValue::Ordered(vec![b"h1".to_vec(), b"h2".to_vec()])),
        ("sections", FieldValue::exact_bytes(b"s".to_vec())),
    ]);
    let bytes = [(domain.len() as u64).to_be_bytes().to_vec(), domain.to_vec(), fields].concat();
    assert_eq!(built, ContentHash::from_canonical_bytes(&bytes));
}
