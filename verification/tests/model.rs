use vtest::diagnostic::{Diagnostic, DiagnosticSeverity};
use vtest::document::Layer;
use vtest::ids::{AdapterId, TestId};
use vtest::protocol::{ExitCode, JsonEnvelope, ScanSummary};
use vtest::source::{Locator, SourceLocation};
use vtest::vo::CombinationEntry;

#[test]
fn layer_from_id_prefix_matches_bd_318() {
    assert_eq!(Layer::from_id_prefix("ROOT-001"), Some(Layer::Root));
    assert_eq!(Layer::from_id_prefix("R-001"), Some(Layer::Request));
    assert_eq!(Layer::from_id_prefix("P-001"), Some(Layer::Require));
    assert_eq!(Layer::from_id_prefix("REQ-001"), Some(Layer::Require));
    assert_eq!(Layer::from_id_prefix("SPEC-001"), Some(Layer::Spec));
    assert_eq!(Layer::from_id_prefix("DS-001"), Some(Layer::DetailedSpec));
    assert_eq!(Layer::from_id_prefix("BD-001"), Some(Layer::BasicDesign));
    assert_eq!(Layer::from_id_prefix("DES-001"), Some(Layer::Design));
    assert_eq!(Layer::from_id_prefix("UNKNOWN-001"), None);
}

#[test]
fn layer_prefix_must_be_a_prefix() {
    assert_eq!(Layer::from_id_prefix("XROOT-1"), None);
    assert_eq!(Layer::from_id_prefix("ROOT"), None);
    assert_eq!(Layer::from_id_prefix(""), None);
}

#[test]
fn locators_compare_by_adapter_and_opaque_value_only() {
    let left = Locator {
        adapter: AdapterId::new("rust-cargo"),
        value: "src/lib.rs::module::function".to_owned(),
    };
    let same = Locator {
        adapter: AdapterId::new("rust-cargo"),
        value: "src/lib.rs::module::function".to_owned(),
    };
    let different_value = Locator {
        adapter: AdapterId::new("rust-cargo"),
        value: "src/lib.rs::module::other".to_owned(),
    };
    let different_adapter = Locator {
        adapter: AdapterId::new("other-lang"),
        value: "src/lib.rs::module::function".to_owned(),
    };
    assert_eq!(left, same);
    assert_ne!(left, different_value);
    assert_ne!(left, different_adapter);
    assert!(left.same_as(&same));
    assert!(!left.same_as(&different_value));
    assert!(!left.same_as(&different_adapter));
}

#[test]
fn combination_entry_without_a_duplicate_reports_none() {
    let entry = CombinationEntry::from_iter(vec![
        ("d1".to_string(), "a".to_string()),
        ("d2".to_string(), "x".to_string()),
    ]);
    assert!(entry.duplicate_dimension_names().is_empty());
    assert_eq!(entry.get("d1"), Some("a"));
    assert_eq!(entry.get("d2"), Some("x"));
    assert_eq!(entry.get("d3"), None);
}

#[test]
fn combination_entry_equality_is_order_independent() {
    let first = CombinationEntry::from_iter(vec![
        ("d1".to_string(), "a".to_string()),
        ("d2".to_string(), "x".to_string()),
    ]);
    let second = CombinationEntry::from_iter(vec![
        ("d2".to_string(), "x".to_string()),
        ("d1".to_string(), "a".to_string()),
    ]);
    assert_eq!(first, second);
}

#[test]
fn combination_entry_keeps_a_repeated_dimension_in_order() {
    let entry = CombinationEntry::from_iter(vec![
        ("d1".to_string(), "a".to_string()),
        ("d2".to_string(), "x".to_string()),
        ("d1".to_string(), "b".to_string()),
        ("d2".to_string(), "y".to_string()),
        ("d1".to_string(), "c".to_string()),
    ]);
    assert_eq!(entry.len(), 5);
    assert!(!entry.is_empty());
    assert_eq!(entry.get("d1"), Some("a"));
    assert_eq!(entry.duplicate_dimension_names(), vec!["d1", "d2"]);
    assert_eq!(entry.iter()[2], ("d1", "b"));
    assert!(CombinationEntry::from_iter(vec![]).is_empty());
}

#[test]
fn combination_entry_equality_counts_multiplicity() {
    let once = CombinationEntry::from_iter(vec![("d1".to_string(), "a".to_string())]);
    let twice = CombinationEntry::from_iter(vec![
        ("d1".to_string(), "a".to_string()),
        ("d1".to_string(), "a".to_string()),
    ]);
    assert_ne!(once, twice);
    let other_value = CombinationEntry::from_iter(vec![("d1".to_string(), "b".to_string())]);
    assert_ne!(once, other_value);
}

#[test]
fn diagnostics_carry_code_severity_message_location_and_candidates() {
    let error = Diagnostic::error("E-X-001", "broken");
    assert!(error.is_error());
    assert_eq!(error.code, "E-X-001");
    assert_eq!(error.message, "broken");
    assert!(error.location.is_none());
    let warning = Diagnostic::warning("W-X-001", String::from("careful"));
    assert!(!warning.is_error());
    assert_eq!(warning.severity, DiagnosticSeverity::Warning);
    let location = SourceLocation {
        file: "src/lib.rs".to_string(),
        function: "f".to_string(),
        start_line: 1,
        end_line: 2,
        start_byte: 0,
        end_byte: 10,
    };
    let located = warning
        .with_location(location.clone())
        .with_candidates(vec!["a".to_string()]);
    assert_eq!(located.location.as_deref(), Some(&location));
    assert_eq!(located.candidates, vec!["a".to_string()]);
    assert_eq!(located.code, "W-X-001");
}

#[test]
fn envelope_and_exit_codes() {
    let envelope = JsonEnvelope::new(true, ScanSummary { files: 1, tests: 2, sources: 3 }, vec![]);
    assert!(envelope.ok);
    assert_eq!(envelope.data.tests, 2);
    assert!(envelope.diagnostics.is_empty());
    assert_eq!(ExitCode::Success.as_u8(), 0);
    assert_eq!(ExitCode::VerificationFailed.as_u8(), 1);
    assert_eq!(ExitCode::Usage.as_u8(), 2);
    assert_eq!(ExitCode::Internal.as_u8(), 3);
}

#[test]
fn identifiers_wrap_their_text() {
    let id = TestId::new("TEST-1");
    assert_eq!(id.as_str(), "TEST-1");
    assert_eq!(TestId::new(String::from("TEST-1")), id);
    assert_eq!(id.duplicate(), id);
}

#[test]
fn combination_entry_with_a_duplicate_dimension_name_refuses_to_serialize() {
    let entry = CombinationEntry::from_iter(vec![
        ("d1".to_string(), "a".to_string()),
        ("d1".to_string(), "b".to_string()),
    ]);
    assert!(
        entry.serialization_refusal().is_some(),
        "serializing a combinations entry with a duplicate dimension name must fail closed"
    );
}

#[test]
fn the_serialization_refusal_names_each_repeated_dimension() {
    let entry = CombinationEntry::from_iter(vec![
        ("d1".to_string(), "a".to_string()),
        ("d2".to_string(), "x".to_string()),
        ("d1".to_string(), "b".to_string()),
        ("d2".to_string(), "y".to_string()),
    ]);
    assert_eq!(
        entry.serialization_refusal().as_deref(),
        Some("combinations entry declares dimension `d1`, `d2` more than once; refusing to serialize a YAML mapping with a duplicate key")
    );
    let unique = CombinationEntry::from_iter(vec![("d1".to_string(), "a".to_string())]);
    assert_eq!(unique.serialization_refusal(), None);
}
