//! The checks on approval records: what the approval files held, checked
//! for their schema and against the verification objectives that exist.

use vstd::prelude::*;

use crate::diagnostic::{Diagnostic, DiagnosticSeverity};
use crate::forms::{trim, trim_text};
use crate::scan::{contains_string, diag_view, diag_views};
use crate::scan_documents::{join_names, join_with, unlocated_error};
use crate::source::SourceLocation;
use crate::text::{push_text, text_eq};

verus! {

/// The fields an approval record must carry with a non-empty value, in the
/// order they are reported.
pub open spec fn required_approval_fields() -> Seq<Seq<char>> {
    seq!["id"@, "subject_type"@, "subject"@, "subject_hash"@, "approved_state"@, "approved_at"@]
}

/// The names of the fields an approval record must carry, in order.
pub fn approval_required_fields() -> (names: Vec<&'static str>)
    ensures
        names@.map_values(|n: &str| n@) == required_approval_fields(),
{
    let names = vec!["id", "subject_type", "subject", "subject_hash", "approved_state", "approved_at"];
    proof {
        reveal_strlit("id");
        reveal_strlit("subject_type");
        reveal_strlit("subject");
        reveal_strlit("subject_hash");
        reveal_strlit("approved_state");
        reveal_strlit("approved_at");
    }
    assert(names@.map_values(|n: &str| n@) =~= required_approval_fields());
    names
}

/// The fields of a parsed approval record that the checks read.
pub struct ApprovalFields {
    pub id: String,
    pub subject_type: String,
    pub subject: String,
}

/// What reading one approval record gave.
pub enum ApprovalRead {
    /// The file could not be read; the reason.
    Unreadable(String),
    /// The file was read.
    Read {
        /// Whether the file name is a valid ULID.
        valid_ulid: bool,
        /// Each required field with the scalar value the file gives it, if
        /// any.
        fields: Vec<(String, Option<String>)>,
        /// The record, or why it does not parse.
        record: Result<ApprovalFields, String>,
    },
}

/// One approval record file.
pub struct ApprovalFile {
    /// The file name without its extension.
    pub file_id: String,
    /// The file's path, as shown in messages.
    pub record_path: String,
    pub read: ApprovalRead,
}

/// The names of the fields with no value or only white space, in order.
pub open spec fn missing_names(fields: Seq<(String, Option<String>)>) -> Seq<Seq<char>>
    decreases fields.len(),
{
    if fields.len() == 0 {
        Seq::empty()
    } else {
        let earlier = missing_names(fields.drop_last());
        let (name, value) = fields.last();
        let missing = match value {
            Some(v) => trim(v@).len() == 0,
            None => true,
        };
        if missing {
            earlier.push(name@)
        } else {
            earlier
        }
    }
}

/// ` (<path>)`, the end of every approval message.
pub open spec fn path_tail(path: Seq<char>) -> Seq<char> {
    " ("@ + path + ")"@
}

/// The report for a file name that is not a ULID, if it is not.
pub open spec fn ulid_report(valid_ulid: bool, id: Seq<char>, path: Seq<char>) -> Seq<
    (Seq<char>, DiagnosticSeverity, Seq<char>, Option<SourceLocation>),
> {
    if valid_ulid {
        Seq::empty()
    } else {
        seq![unlocated_error("E-SCAN-010"@, "approval file name "@ + id + " is not a valid ULID"@ + path_tail(path))]
    }
}

/// The report for missing required fields, if any are missing.
pub open spec fn missing_report(fields: Seq<(String, Option<String>)>, id: Seq<char>, path: Seq<char>) -> Seq<
    (Seq<char>, DiagnosticSeverity, Seq<char>, Option<SourceLocation>),
> {
    if missing_names(fields).len() == 0 {
        Seq::empty()
    } else {
        seq![
            unlocated_error(
                "E-SCAN-010"@,
                "approval "@ + id + " is missing required fields: "@ + join_with(missing_names(fields), ", "@)
                    + path_tail(path),
            ),
        ]
    }
}

/// The report for a record id that differs from the file name, if it does.
pub open spec fn id_report(record_id: Seq<char>, id: Seq<char>, path: Seq<char>) -> Seq<
    (Seq<char>, DiagnosticSeverity, Seq<char>, Option<SourceLocation>),
> {
    if record_id == id {
        Seq::empty()
    } else {
        seq![
            unlocated_error(
                "E-SCAN-010"@,
                "approval file name "@ + id + " does not match record id "@ + record_id + path_tail(path),
            ),
        ]
    }
}

/// The reports for one approval file, given the ids of the verification
/// objectives whose records could be read.
pub open spec fn approval_file_reports(f: ApprovalFile, vo_ids: Seq<Seq<char>>) -> Seq<
    (Seq<char>, DiagnosticSeverity, Seq<char>, Option<SourceLocation>),
> {
    let id = f.file_id@;
    let path = f.record_path@;
    match f.read {
        ApprovalRead::Unreadable(e) => seq![
            unlocated_error("E-SCAN-010"@, "approval "@ + id + " cannot be read: "@ + e@ + path_tail(path)),
        ],
        ApprovalRead::Read { valid_ulid, fields, record } => {
            let first = ulid_report(valid_ulid, id, path) + missing_report(fields@, id, path);
            match record {
                Err(e) => first.push(
                    unlocated_error("E-SCAN-010"@, "approval "@ + id + " has an invalid schema: "@ + e@ + path_tail(path)),
                ),
                Ok(r) => {
                    let checked = first + id_report(r.id@, id, path);
                    let invalid = !valid_ulid || missing_names(fields@).len() > 0 || r.id@ != id;
                    if invalid || r.subject_type@ != "vo"@ || vo_ids.contains(r.subject@) {
                        checked
                    } else {
                        checked.push(
                            unlocated_error(
                                "E-SCAN-010"@,
                                "approval "@ + id + " references missing VO "@ + r.subject@ + path_tail(path),
                            ),
                        )
                    }
                },
            }
        },
    }
}

/// The reports for the approval files, in order.
pub open spec fn approval_reports(files: Seq<ApprovalFile>, vo_ids: Seq<Seq<char>>) -> Seq<
    (Seq<char>, DiagnosticSeverity, Seq<char>, Option<SourceLocation>),
>
    decreases files.len(),
{
    if files.len() == 0 {
        Seq::empty()
    } else {
        approval_reports(files.drop_last(), vo_ids) + approval_file_reports(files.last(), vo_ids)
    }
}

/// The names of the fields with no value or only white space, joined with
/// `, `; none when every field has a value.
pub fn missing_fields(fields: &Vec<(String, Option<String>)>) -> (r: Option<String>)
    ensures
        match r {
            Some(s) => missing_names(fields@).len() > 0 && s@ == join_with(missing_names(fields@), ", "@),
            None => missing_names(fields@).len() == 0,
        },
{
    let mut missing: Vec<String> = Vec::new();
    let mut i: usize = 0;
    while i < fields.len()
        invariant
            i <= fields@.len(),
            missing@.map_values(|n: String| n@) == missing_names(fields@.take(i as int)),
        decreases fields.len() - i,
    {
        let ghost t = fields@.take(i as int + 1);
        assert(t.drop_last() =~= fields@.take(i as int));
        assert(t.last() == fields@[i as int]);
        let absent = match &fields[i].1 {
            Some(v) => {
                let trimmed = trim_text(v.as_str());
                trimmed.as_str().unicode_len() == 0
            },
            None => true,
        };
        if absent {
            let ghost before = missing@;
            missing.push(fields[i].0.clone());
            assert(missing@.map_values(|n: String| n@) =~= before.map_values(|n: String| n@).push(
                fields@[i as int].0@,
            ));
        }
        i = i + 1;
    }
    assert(fields@.take(i as int) =~= fields@);
    if missing.len() == 0 {
        None
    } else {
        Some(join_names(&missing, ", "))
    }
}

fn approval_error(prefix: &str, id: &str, middle: &str, detail: &str, path: &str) -> (d: Diagnostic)
    ensures
        diag_view(d) == unlocated_error("E-SCAN-010"@, prefix@ + id@ + middle@ + detail@ + path_tail(path@)),
{
    let mut message = String::new();
    push_text(&mut message, prefix);
    push_text(&mut message, id);
    push_text(&mut message, middle);
    push_text(&mut message, detail);
    push_text(&mut message, " (");
    push_text(&mut message, path);
    push_text(&mut message, ")");
    assert(message@ =~= prefix@ + id@ + middle@ + detail@ + path_tail(path@));
    Diagnostic::error("E-SCAN-010", message)
}

fn push_report(diagnostics: &mut Vec<Diagnostic>, d: Diagnostic)
    ensures
        diag_views(final(diagnostics)@) == diag_views(old(diagnostics)@).push(diag_view(d)),
{
    diagnostics.push(d);
    assert(diag_views(diagnostics@) =~= diag_views(old(diagnostics)@).push(diag_view(d)));
}

fn check_approval_file(f: &ApprovalFile, vo_ids: &Vec<String>, diagnostics: &mut Vec<Diagnostic>)
    ensures
        diag_views(final(diagnostics)@) == diag_views(old(diagnostics)@) + approval_file_reports(
            *f,
            vo_ids@.map_values(|t: String| t@),
        ),
{
    let ghost base = diag_views(diagnostics@);
    let ghost expected = approval_file_reports(*f, vo_ids@.map_values(|t: String| t@));
    let id = f.file_id.as_str();
    let path = f.record_path.as_str();
    match &f.read {
        ApprovalRead::Unreadable(e) => {
            push_report(diagnostics, approval_error("approval ", id, " cannot be read: ", e.as_str(), path));
            assert(diag_views(diagnostics@) =~= base + expected);
        },
        ApprovalRead::Read { valid_ulid, fields, record } => {
            let mut invalid = false;
            if !*valid_ulid {
                let d = approval_error("approval file name ", id, " is not a valid ULID", "", path);
                proof {
                    reveal_strlit("");
                    assert(diag_view(d).2 =~= "approval file name "@ + id@ + " is not a valid ULID"@ + path_tail(path@));
                }
                push_report(diagnostics, d);
                invalid = true;
            }
            assert(diag_views(diagnostics@) =~= base + ulid_report(*valid_ulid, id@, path@));
            match missing_fields(fields) {
                Some(missing) => {
                    push_report(
                        diagnostics,
                        approval_error("approval ", id, " is missing required fields: ", missing.as_str(), path),
                    );
                    invalid = true;
                },
                None => {},
            }
            let ghost first = ulid_report(*valid_ulid, id@, path@) + missing_report(fields@, id@, path@);
            assert(diag_views(diagnostics@) =~= base + first);
            assert(invalid == (!*valid_ulid || missing_names(fields@).len() > 0));
            match record {
                Err(e) => {
                    push_report(
                        diagnostics,
                        approval_error("approval ", id, " has an invalid schema: ", e.as_str(), path),
                    );
                    assert(diag_views(diagnostics@) =~= base + expected);
                },
                Ok(r) => {
                    if !text_eq(r.id.as_str(), id) {
                        push_report(
                            diagnostics,
                            approval_error("approval file name ", id, " does not match record id ", r.id.as_str(), path),
                        );
                        invalid = true;
                    }
                    let ghost checked = first + id_report(r.id@, id@, path@);
                    assert(diag_views(diagnostics@) =~= base + checked);
                    if !invalid && text_eq(r.subject_type.as_str(), "vo") && !contains_string(vo_ids, r.subject.as_str()) {
                        push_report(
                            diagnostics,
                            approval_error("approval ", id, " references missing VO ", r.subject.as_str(), path),
                        );
                    }
                    assert(diag_views(diagnostics@) =~= base + expected);
                },
            }
        },
    }
}

/// Checks the approval record files, in order: an unreadable file is
/// reported and skipped; otherwise a file name that is not a ULID, missing
/// required fields, a record that does not parse (which ends that file's
/// checks) and a record id that differs from the file name are each
/// reported (`E-SCAN-010`); a record with none of these problems whose
/// subject type is `vo` must name one of `vo_ids`, else it is reported too.
pub fn check_approvals(files: &Vec<ApprovalFile>, vo_ids: &Vec<String>, diagnostics: &mut Vec<Diagnostic>)
    ensures
        diag_views(final(diagnostics)@) == diag_views(old(diagnostics)@) + approval_reports(
            files@,
            vo_ids@.map_values(|t: String| t@),
        ),
{
    let ghost base = diag_views(diagnostics@);
    let mut i: usize = 0;
    while i < files.len()
        invariant
            i <= files@.len(),
            base == diag_views(old(diagnostics)@),
            diag_views(diagnostics@) == base + approval_reports(files@.take(i as int), vo_ids@.map_values(|t: String| t@)),
        decreases files.len() - i,
    {
        let ghost t = files@.take(i as int + 1);
        assert(t.drop_last() =~= files@.take(i as int));
        assert(t.last() == files@[i as int]);
        check_approval_file(&files[i], vo_ids, diagnostics);
        i = i + 1;
    }
    assert(files@.take(i as int) =~= files@);
}

} // verus!
