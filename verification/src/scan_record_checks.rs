//! The checks of the records under `.verify/`, put together in the order a
//! scan reports them: what the document directory holds besides document
//! files, the document files, the verification objectives, their parent
//! links, the relations, the objectives' coverage warnings and the
//! approvals.

use vstd::prelude::*;

use crate::diagnostic::{Diagnostic, DiagnosticSeverity};
use crate::discovery::forward_slashes;
use crate::document::DocumentFile;
use crate::scan::{diag_view, diag_views};
use crate::scan_documents::{doc_record_path, invalid_document_diagnostic, unlocated_error};
use crate::source::SourceLocation;
use crate::text::push_text;
use crate::scan_records::{annotate_record_diagnostic, check_vo_combinations, combination_problem, combination_report, vo_path_of, vo_record_path};
use crate::vo::VoRecord;
use crate::project_checks::strictly_ascending;
use crate::scan_approvals::{approval_reports, check_approvals, ApprovalFile};
use crate::scan_documents::{all_occurrences, collision_reports, distinct_ids, files_reports, unique_ids, validate_document_nodes};
use crate::scan_records::{
    covered_ids, cycle_reports, isolated_reports, missing_parent_reports, parent_ids, tests_non_leaf_reports,
    validate_parent_graph, validate_vo_document_references, validate_vo_warnings, vos_reference_reports,
};
use crate::scan_relations::{check_relations, known_entity_ids, relation_reports, source_ids, RelationFile};
use crate::source::SourceFunction;
use crate::test_entity::TestEntity;

verus! {

/// The repository-relative path of an entry of the document directory.
pub open spec fn doc_entry_path(name: Seq<char>) -> Seq<char> {
    forward_slashes(".verify/doc/"@ + name)
}

/// The report for an entry of the document directory that is not a
/// document file.
pub open spec fn unaccounted_report(name: Seq<char>) -> (Seq<char>, DiagnosticSeverity, Seq<char>, Option<SourceLocation>) {
    unlocated_error(
        "E-SCAN-010"@,
        name + " in .verify/doc/ is not an upstream document file and is not accounted for by any check ("@
            + doc_entry_path(name) + ")"@,
    )
}

/// The reports for such entries, in order.
pub open spec fn unaccounted_reports(names: Seq<String>) -> Seq<(Seq<char>, DiagnosticSeverity, Seq<char>, Option<SourceLocation>)> {
    names.map_values(|n: String| unaccounted_report(n@))
}

fn doc_entry_path_of(name: &str) -> (p: String)
    ensures
        p@ == doc_entry_path(name@),
{
    let mut whole = String::new();
    push_text(&mut whole, ".verify/doc/");
    push_text(&mut whole, name);
    let chars = crate::text::chars_of(whole.as_str());
    let mut out: Vec<char> = Vec::new();
    let mut k: usize = 0;
    while k < chars.len()
        invariant
            k <= chars@.len(),
            out@ == forward_slashes(chars@.take(k as int)),
        decreases chars.len() - k,
    {
        let c = if chars[k] == '\\' { '/' } else { chars[k] };
        out.push(c);
        assert(forward_slashes(chars@.take(k as int + 1)) =~= forward_slashes(chars@.take(k as int)).push(c));
        k = k + 1;
    }
    assert(chars@.take(k as int) =~= chars@);
    proof {
        reveal_strlit(".verify/doc/");
    }
    crate::text::string_from_chars(&out)
}

/// Reports each entry of the document directory that is not a document
/// file (`E-SCAN-010`), in order.
pub fn report_unaccounted_entries(names: &Vec<String>, diagnostics: &mut Vec<Diagnostic>)
    ensures
        diag_views(final(diagnostics)@) == diag_views(old(diagnostics)@) + unaccounted_reports(names@),
{
    let ghost base = diag_views(diagnostics@);
    let mut i: usize = 0;
    while i < names.len()
        invariant
            i <= names@.len(),
            base == diag_views(old(diagnostics)@),
            diag_views(diagnostics@) == base + unaccounted_reports(names@.take(i as int)),
        decreases names.len() - i,
    {
        let name = names[i].as_str();
        let path = doc_entry_path_of(name);
        let mut message = String::new();
        push_text(&mut message, name);
        push_text(
            &mut message,
            " in .verify/doc/ is not an upstream document file and is not accounted for by any check (",
        );
        push_text(&mut message, path.as_str());
        push_text(&mut message, ")");
        let d = Diagnostic::error("E-SCAN-010", message);
        let ghost before = diagnostics@;
        diagnostics.push(d);
        proof {
            reveal_strlit(" in .verify/doc/ is not an upstream document file and is not accounted for by any check (");
            reveal_strlit(")");
            assert(diag_view(d) == unaccounted_report(names@[i as int]@));
            assert(names@.take(i as int + 1) =~= names@.take(i as int).push(names@[i as int]));
            assert(diag_views(diagnostics@) =~= diag_views(before).push(diag_view(d)));
            assert(unaccounted_reports(names@.take(i as int + 1)) =~= unaccounted_reports(names@.take(i as int)).push(
                unaccounted_report(names@[i as int]@),
            ));
        }
        i = i + 1;
    }
    assert(names@.take(i as int) =~= names@);
}

/// The report for a document file that could not be read.
pub open spec fn invalid_document_report(name: Seq<char>, error: Seq<char>) -> (Seq<char>, DiagnosticSeverity, Seq<char>, Option<SourceLocation>) {
    unlocated_error(
        "E-SCAN-010"@,
        "document "@ + name + " has an invalid record: "@ + error + " ("@ + doc_record_path(name) + ")"@,
    )
}

/// The reports for the document files that could not be read, in order.
pub open spec fn doc_read_reports(reads: Seq<(String, Result<DocumentFile, String>)>) -> Seq<
    (Seq<char>, DiagnosticSeverity, Seq<char>, Option<SourceLocation>),
>
    decreases reads.len(),
{
    if reads.len() == 0 {
        Seq::empty()
    } else {
        let earlier = doc_read_reports(reads.drop_last());
        match reads.last().1 {
            Ok(_) => earlier,
            Err(e) => earlier.push(invalid_document_report(reads.last().0@, e@)),
        }
    }
}

/// The document files that were read, with their names, in order.
pub open spec fn docs_read(reads: Seq<(String, Result<DocumentFile, String>)>) -> Seq<(String, DocumentFile)>
    decreases reads.len(),
{
    if reads.len() == 0 {
        Seq::empty()
    } else {
        let earlier = docs_read(reads.drop_last());
        match reads.last().1 {
            Ok(f) => earlier.push((reads.last().0, f)),
            Err(_) => earlier,
        }
    }
}

/// Keeps the document files that were read (each with its name, in
/// order) and reports each that could not be (`E-SCAN-010`, with the
/// reader's error).
pub fn take_documents(reads: Vec<(String, Result<DocumentFile, String>)>, diagnostics: &mut Vec<Diagnostic>) -> (files: Vec<(String, DocumentFile)>)
    ensures
        files@ == docs_read(reads@),
        diag_views(final(diagnostics)@) == diag_views(old(diagnostics)@) + doc_read_reports(reads@),
{
    let ghost all = reads@;
    let ghost base = diag_views(diagnostics@);
    let mut rest = reads;
    let mut files: Vec<(String, DocumentFile)> = Vec::new();
    let ghost mut i: int = 0;
    while rest.len() > 0
        invariant
            0 <= i <= all.len(),
            rest@ == all.skip(i),
            base == diag_views(old(diagnostics)@),
            files@ == docs_read(all.take(i)),
            diag_views(diagnostics@) == base + doc_read_reports(all.take(i)),
        decreases rest.len(),
    {
        proof {
            assert(all.take(i + 1).drop_last() =~= all.take(i));
            assert(all.take(i + 1).last() == all[i]);
        }
        let (name, read) = rest.remove(0);
        match read {
            Ok(file) => {
                files.push((name, file));
            },
            Err(error) => {
                let d = invalid_document_diagnostic(name.as_str(), error.as_str());
                let ghost before = diagnostics@;
                diagnostics.push(d);
                assert(diag_views(diagnostics@) =~= diag_views(before).push(diag_view(d)));
            },
        }
        proof {
            i = i + 1;
            assert(rest@ =~= all.skip(i));
        }
    }
    assert(all.take(i) =~= all);
    files
}

/// What reading one verification objective record gave: the record with
/// the warnings the reader found in it, or the reader's error.
pub enum VoRead {
    Read { record: VoRecord, warnings: Vec<Diagnostic> },
    Invalid(String),
}

/// What names a record in its reports: the id and the record's path.
pub open spec fn vo_context(id: Seq<char>) -> Seq<char> {
    "VO "@ + id + " ("@ + vo_record_path(id) + ")"@
}

/// The reader's warnings, each with `context` and a colon put before its
/// message.
pub open spec fn annotated_views(warnings: Seq<Diagnostic>, context: Seq<char>) -> Seq<
    (Seq<char>, DiagnosticSeverity, Seq<char>, Option<SourceLocation>),
> {
    warnings.map_values(
        |w: Diagnostic| (w.code@, w.severity, context + ": "@ + w.message@, diag_view(w).3),
    )
}

/// The reports of reading one record: an unreadable record is invalid
/// (`E-SCAN-010`, with the reader's error); a read record gives the
/// reader's warnings, named by the record, then the report on its
/// combinations, if they are invalid.
pub open spec fn vo_read_reports(id: Seq<char>, read: VoRead) -> Seq<
    (Seq<char>, DiagnosticSeverity, Seq<char>, Option<SourceLocation>),
> {
    match read {
        VoRead::Invalid(e) => seq![
            unlocated_error(
                "E-SCAN-010"@,
                "VO "@ + id + " has an invalid record: "@ + e@ + " ("@ + vo_record_path(id) + ")"@,
            ),
        ],
        VoRead::Read { record, warnings } => annotated_views(warnings@, vo_context(id)) + match combination_problem(
            record,
        ) {
            Some(p) => seq![combination_report(id, p)],
            None => Seq::empty(),
        },
    }
}

/// The reports of reading each record, in order.
pub open spec fn vo_reads_reports(reads: Seq<(String, VoRead)>) -> Seq<
    (Seq<char>, DiagnosticSeverity, Seq<char>, Option<SourceLocation>),
>
    decreases reads.len(),
{
    if reads.len() == 0 {
        Seq::empty()
    } else {
        vo_reads_reports(reads.drop_last()) + vo_read_reports(reads.last().0@, reads.last().1)
    }
}

/// The records that were read, with their ids, in order.
pub open spec fn vos_read(reads: Seq<(String, VoRead)>) -> Seq<(String, VoRecord)>
    decreases reads.len(),
{
    if reads.len() == 0 {
        Seq::empty()
    } else {
        let earlier = vos_read(reads.drop_last());
        match reads.last().1 {
            VoRead::Read { record, .. } => earlier.push((reads.last().0, record)),
            VoRead::Invalid(_) => earlier,
        }
    }
}

fn report_read(id: &str, read: VoRead, diagnostics: &mut Vec<Diagnostic>) -> (r: Option<VoRecord>)
    ensures
        diag_views(final(diagnostics)@) == diag_views(old(diagnostics)@) + vo_read_reports(id@, read),
        match read {
            VoRead::Read { record, .. } => r == Some(record),
            VoRead::Invalid(_) => r is None,
        },
{
    let path = vo_path_of(id);
    match read {
        VoRead::Invalid(error) => {
            let mut message = String::new();
            push_text(&mut message, "VO ");
            push_text(&mut message, id);
            push_text(&mut message, " has an invalid record: ");
            push_text(&mut message, error.as_str());
            push_text(&mut message, " (");
            push_text(&mut message, path.as_str());
            push_text(&mut message, ")");
            let d = Diagnostic::error("E-SCAN-010", message);
            let ghost before = diagnostics@;
            diagnostics.push(d);
            proof {
                reveal_strlit("VO ");
                reveal_strlit(" has an invalid record: ");
                reveal_strlit(" (");
                reveal_strlit(")");
                assert(diag_views(diagnostics@) =~= diag_views(before).push(diag_view(d)));
                assert(diag_view(d).2 =~= "VO "@ + id@ + " has an invalid record: "@ + error@ + " ("@
                    + vo_record_path(id@) + ")"@);
            }
            None
        },
        VoRead::Read { record, warnings } => {
            let mut context = String::new();
            push_text(&mut context, "VO ");
            push_text(&mut context, id);
            push_text(&mut context, " (");
            push_text(&mut context, path.as_str());
            push_text(&mut context, ")");
            proof {
                reveal_strlit("VO ");
                reveal_strlit(" (");
                reveal_strlit(")");
                assert(context@ =~= vo_context(id@));
            }
            let ghost all = warnings@;
            let ghost base = diag_views(diagnostics@);
            let mut rest = warnings;
            let ghost mut i: int = 0;
            while rest.len() > 0
                invariant
                    0 <= i <= all.len(),
                    rest@ == all.skip(i),
                    context@ == vo_context(id@),
                    diag_views(diagnostics@) == base + annotated_views(all.take(i), context@),
                decreases rest.len(),
            {
                let w = rest.remove(0);
                let ghost wv = w;
                let d = annotate_record_diagnostic(w, context.as_str());
                let ghost before = diagnostics@;
                diagnostics.push(d);
                proof {
                    assert(wv == all[i]);
                    assert(all.take(i + 1) =~= all.take(i).push(all[i]));
                    assert(diag_views(diagnostics@) =~= diag_views(before).push(diag_view(d)));
                    assert(annotated_views(all.take(i + 1), context@) =~= annotated_views(all.take(i), context@).push(
                        diag_view(d),
                    ));
                    i = i + 1;
                    assert(rest@ =~= all.skip(i));
                }
            }
            assert(all.take(i) =~= all);
            check_vo_combinations(id, &record, diagnostics);
            Some(record)
        },
    }
}

/// Reads out each record that was read (with its id, in order) and
/// reports what reading each gave (see `vo_read_reports`).
pub fn take_objectives(reads: Vec<(String, VoRead)>, diagnostics: &mut Vec<Diagnostic>) -> (vos: Vec<(String, VoRecord)>)
    ensures
        vos@ == vos_read(reads@),
        diag_views(final(diagnostics)@) == diag_views(old(diagnostics)@) + vo_reads_reports(reads@),
{
    let ghost all = reads@;
    let ghost base = diag_views(diagnostics@);
    let mut rest = reads;
    let mut vos: Vec<(String, VoRecord)> = Vec::new();
    let ghost mut i: int = 0;
    while rest.len() > 0
        invariant
            0 <= i <= all.len(),
            rest@ == all.skip(i),
            base == diag_views(old(diagnostics)@),
            vos@ == vos_read(all.take(i)),
            diag_views(diagnostics@) == base + vo_reads_reports(all.take(i)),
        decreases rest.len(),
    {
        proof {
            assert(all.take(i + 1).drop_last() =~= all.take(i));
            assert(all.take(i + 1).last() == all[i]);
        }
        let (id, read) = rest.remove(0);
        let ghost before = diag_views(diagnostics@);
        match report_read(id.as_str(), read, diagnostics) {
            Some(record) => {
                vos.push((id, record));
            },
            None => {},
        }
        proof {
            assert(diag_views(diagnostics@) =~= base + vo_reads_reports(all.take(i + 1)));
            i = i + 1;
            assert(rest@ =~= all.skip(i));
        }
    }
    assert(all.take(i) =~= all);
    vos
}

/// Each record's id with its parent's id, if any.
pub open spec fn parent_links(vos: Seq<(String, VoRecord)>) -> Seq<(String, Option<String>)> {
    vos.map_values(
        |p: (String, VoRecord)|
            (
                p.0,
                match p.1.parent {
                    Some(v) => Some(v.0),
                    None => None,
                },
            ),
    )
}

/// The ids of the records asked for, read or not.
pub open spec fn read_ids(reads: Seq<(String, VoRead)>) -> Seq<Seq<char>> {
    reads.map_values(|p: (String, VoRead)| p.0@)
}

/// Everything the records under `.verify/` report, in the order a scan
/// reports it: the entries of the document directory that are not
/// document files; the document files that could not be read, the node
/// ids that occur more than once and each file's node checks (against the
/// node ids defined once); what reading each objective gave; the
/// objectives' upstream references to unknown nodes; their parents that
/// are not records, then their parent cycles; the relations (against
/// every id an entity answers to: the objectives asked for, the tests,
/// the source targets and the document nodes); the objectives no test
/// covers and the tests that cover an objective with children; and the
/// approvals (against the objectives read).
pub open spec fn record_reports(
    unaccounted: Seq<String>,
    doc_reads: Seq<(String, Result<DocumentFile, String>)>,
    vo_reads: Seq<(String, VoRead)>,
    relations: Seq<RelationFile>,
    approvals: Seq<ApprovalFile>,
    tests: Seq<TestEntity>,
    sources: Seq<SourceFunction>,
) -> Seq<(Seq<char>, DiagnosticSeverity, Seq<char>, Option<SourceLocation>)> {
    let files = docs_read(doc_reads);
    let occ = all_occurrences(files);
    let node_ids = unique_ids(occ, distinct_ids(occ));
    let vos = vos_read(vo_reads);
    let parents = parent_links(vos);
    let known = read_ids(vo_reads) + tests.map_values(|t: TestEntity| t.id@) + source_ids(sources) + node_ids;
    unaccounted_reports(unaccounted) + doc_read_reports(doc_reads) + collision_reports(occ, distinct_ids(occ))
        + files_reports(files, node_ids) + vo_reads_reports(vo_reads) + vos_reference_reports(vos, node_ids)
        + missing_parent_reports(parents, parents, "VO"@, ".verify/vo"@) + cycle_reports(
        parents,
        parents,
        "VO"@,
        ".verify/vo"@,
    ).0 + relation_reports(relations, known) + isolated_reports(vos, parent_ids(vos), covered_ids(tests))
        + tests_non_leaf_reports(tests, parent_ids(vos)) + approval_reports(
        approvals,
        vos.map_values(|p: (String, VoRecord)| p.0@),
    )
}

proof fn lemma_read_records_ascending(reads: Seq<(String, VoRead)>)
    requires
        strictly_ascending(reads.map_values(|p: (String, VoRead)| p.0)),
    ensures
        strictly_ascending(vos_read(reads).map_values(|p: (String, VoRecord)| p.0)),
        forall|k: int|
            0 <= k < vos_read(reads).len() ==> exists|j: int|
                0 <= j < reads.len() && (#[trigger] vos_read(reads)[k]).0 == reads[j].0,
    decreases reads.len(),
{
    if reads.len() > 0 {
        let d = reads.drop_last();
        let keys = reads.map_values(|p: (String, VoRead)| p.0);
        assert(d.map_values(|p: (String, VoRead)| p.0) =~= keys.drop_last());
        lemma_read_records_ascending(d);
        let e = vos_read(d);
        let last = reads.last();
        assert forall|k: int| 0 <= k < e.len() implies crate::project_checks::text_before(
            (#[trigger] e[k]).0@,
            last.0@,
        ) by {
            let j = choose|j: int| 0 <= j < d.len() && e[k].0 == d[j].0;
            assert(keys[j] == d[j].0);
            assert(keys[reads.len() - 1] == last.0);
        }
        match last.1 {
            VoRead::Read { record, .. } => {
                let v = e.push((last.0, record));
                assert(vos_read(reads) == v);
                let vk = v.map_values(|p: (String, VoRecord)| p.0);
                assert forall|a: int, b: int| 0 <= a < b < vk.len() implies crate::project_checks::text_before(
                    #[trigger] vk[a]@,
                    #[trigger] vk[b]@,
                ) by {
                    assert(vk[a] == v[a].0);
                    assert(vk[b] == v[b].0);
                    if b < e.len() {
                        let ek = e.map_values(|p: (String, VoRecord)| p.0);
                        assert(ek[a] == e[a].0 && ek[b] == e[b].0);
                    }
                }
                assert forall|k: int| 0 <= k < v.len() implies exists|j: int|
                    0 <= j < reads.len() && (#[trigger] v[k]).0 == reads[j].0 by {
                    if k < e.len() {
                        let j = choose|j: int| 0 <= j < d.len() && e[k].0 == d[j].0;
                        assert(v[k].0 == reads[j].0);
                    } else {
                        assert(v[k].0 == reads[reads.len() - 1].0);
                    }
                }
            },
            VoRead::Invalid(_) => {
                assert(vos_read(reads) == e);
                assert forall|k: int| 0 <= k < e.len() implies exists|j: int|
                    0 <= j < reads.len() && (#[trigger] e[k]).0 == reads[j].0 by {
                    let j = choose|j: int| 0 <= j < d.len() && e[k].0 == d[j].0;
                    assert(e[k].0 == reads[j].0);
                }
            },
        }
    }
}

fn parent_links_of(vos: &Vec<(String, VoRecord)>) -> (out: Vec<(String, Option<String>)>)
    ensures
        out@ == parent_links(vos@),
{
    let mut out: Vec<(String, Option<String>)> = Vec::new();
    let mut i: usize = 0;
    while i < vos.len()
        invariant
            i <= vos@.len(),
            out@ == parent_links(vos@.take(i as int)),
        decreases vos.len() - i,
    {
        let parent = match &vos[i].1.parent {
            Some(v) => Some(v.0.clone()),
            None => None,
        };
        out.push((vos[i].0.clone(), parent));
        assert(vos@.take(i as int + 1) =~= vos@.take(i as int).push(vos@[i as int]));
        assert(out@ =~= parent_links(vos@.take(i as int + 1)));
        i = i + 1;
    }
    assert(vos@.take(i as int) =~= vos@);
    out
}

fn record_ids(vos: &Vec<(String, VoRecord)>) -> (out: Vec<String>)
    ensures
        out@.map_values(|t: String| t@) == vos@.map_values(|p: (String, VoRecord)| p.0@),
{
    let mut out: Vec<String> = Vec::new();
    let mut i: usize = 0;
    while i < vos.len()
        invariant
            i <= vos@.len(),
            out@.map_values(|t: String| t@) == vos@.take(i as int).map_values(|p: (String, VoRecord)| p.0@),
        decreases vos.len() - i,
    {
        let ghost before = out@;
        out.push(vos[i].0.clone());
        assert(vos@.take(i as int + 1) =~= vos@.take(i as int).push(vos@[i as int]));
        assert(out@.map_values(|t: String| t@) =~= before.map_values(|t: String| t@).push(vos@[i as int].0@));
        assert(out@.map_values(|t: String| t@) =~= vos@.take(i as int + 1).map_values(|p: (String, VoRecord)| p.0@));
        i = i + 1;
    }
    assert(vos@.take(i as int) =~= vos@);
    out
}

fn requested_ids(reads: &Vec<(String, VoRead)>) -> (out: Vec<String>)
    ensures
        out@.map_values(|t: String| t@) == read_ids(reads@),
{
    let mut out: Vec<String> = Vec::new();
    let mut i: usize = 0;
    while i < reads.len()
        invariant
            i <= reads@.len(),
            out@.map_values(|t: String| t@) == read_ids(reads@.take(i as int)),
        decreases reads.len() - i,
    {
        let ghost before = out@;
        out.push(reads[i].0.clone());
        assert(reads@.take(i as int + 1) =~= reads@.take(i as int).push(reads@[i as int]));
        assert(out@.map_values(|t: String| t@) =~= before.map_values(|t: String| t@).push(reads@[i as int].0@));
        assert(out@.map_values(|t: String| t@) =~= read_ids(reads@.take(i as int + 1)));
        i = i + 1;
    }
    assert(reads@.take(i as int) =~= reads@);
    out
}

/// Checks the records under `.verify/` and returns what they report (see
/// `record_reports`): `unaccounted` are the entries of the document
/// directory that are not document files, `doc_reads` what reading each
/// document file gave, `vo_reads` what reading each objective record gave
/// (each id once, ascending, as a set of ids holds them).
pub fn record_diagnostics(
    unaccounted: &Vec<String>,
    doc_reads: Vec<(String, Result<DocumentFile, String>)>,
    vo_reads: Vec<(String, VoRead)>,
    relations: &Vec<RelationFile>,
    approvals: &Vec<ApprovalFile>,
    tests: &Vec<TestEntity>,
    sources: &Vec<SourceFunction>,
) -> (out: Vec<Diagnostic>)
    requires
        strictly_ascending(vo_reads@.map_values(|p: (String, VoRead)| p.0)),
    ensures
        diag_views(out@) == record_reports(
            unaccounted@,
            doc_reads@,
            vo_reads@,
            relations@,
            approvals@,
            tests@,
            sources@,
        ),
{
    let ghost dr = doc_reads@;
    let ghost vr = vo_reads@;
    let mut diagnostics: Vec<Diagnostic> = Vec::new();
    assert(diag_views(diagnostics@) =~= Seq::empty());
    report_unaccounted_entries(unaccounted, &mut diagnostics);
    let files = take_documents(doc_reads, &mut diagnostics);
    let node_ids = validate_document_nodes(&files, &mut diagnostics);
    let vo_ids = requested_ids(&vo_reads);
    proof {
        lemma_read_records_ascending(vr);
    }
    let vos = take_objectives(vo_reads, &mut diagnostics);
    validate_vo_document_references(&vos, &node_ids, &mut diagnostics);
    let parents = parent_links_of(&vos);
    assert(parents@.map_values(|p: (String, Option<String>)| p.0) =~= vos@.map_values(|p: (String, VoRecord)| p.0));
    validate_parent_graph(".verify/vo", &parents, "VO", &mut diagnostics);
    let known = known_entity_ids(&vo_ids, tests, sources, &node_ids);
    check_relations(relations, &known, &mut diagnostics);
    validate_vo_warnings(&vos, tests, &mut diagnostics);
    let read = record_ids(&vos);
    check_approvals(approvals, &read, &mut diagnostics);
    proof {
        reveal_strlit(".verify/vo");
        reveal_strlit("VO");
    }
    assert(diag_views(diagnostics@) =~= record_reports(unaccounted@, dr, vr, relations@, approvals@, tests@, sources@));
    diagnostics
}

} // verus!
