//! Shared model types, canonical content hashing and the scan-time
//! integrity checks of the vtest tool, with their contracts.

pub mod annotations;
pub mod desired;
pub mod diagnostic;
pub mod edit_checks;
pub mod edit_sets;
pub mod digest;
pub mod discovery;
pub mod doc_registry;
pub mod document;
pub mod editing;
pub mod encoding;
pub mod evidence;
pub mod form_answers;
pub mod forms;
pub mod grouping;
pub mod hash;
pub mod hash_laws;
pub mod indent_laws;
pub mod ids;
pub mod normalize;
pub mod operations;
pub mod order;
pub mod project_checks;
pub mod protocol;
pub mod render_laws;
pub mod queries;
pub mod scan;
pub mod scan_approvals;
pub mod scan_assembly;
pub mod scan_documents;
pub mod scan_record_checks;
pub mod scan_records;
pub mod scan_relations;
pub mod scan_targets;
pub mod scan_tests;
pub mod source;
pub mod subject_hash;
pub mod subject_laws;
pub mod test_edits;
pub mod test_ids;
pub mod test_render;
pub mod test_entity;
pub mod text;
pub mod verification;
pub mod vo;

pub use text::{chars_of, string_from_chars};
