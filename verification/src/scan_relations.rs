//! The checks on relation records: what the relation files held, checked
//! against the ids the scan knows.

use vstd::prelude::*;

use crate::diagnostic::{Diagnostic, DiagnosticSeverity};
use crate::scan::{contains_string, diag_view, diag_views};
use crate::scan_documents::unlocated_error;
use crate::source::{SourceFunction, SourceLocation};
use crate::test_entity::TestEntity;
use crate::text::{push_text, text_eq};

verus! {

/// What reading one relation record gave.
pub enum RelationRead {
    /// The file could not be read; the reason.
    Unreadable(String),
    /// The file does not hold a valid relation record; the reason.
    Invalid(String),
    /// The record's endpoints, with what the record reader reported.
    Parsed { from: String, to: String, diagnostics: Vec<Diagnostic> },
}

/// One relation record file, as checked: files come in ascending path
/// order.
pub struct RelationFile {
    /// The file name without its extension.
    pub file_id: String,
    /// The file's path, as shown in messages.
    pub record_path: String,
    /// The ULID payload of the file id, when the id carries one.
    pub payload: Option<String>,
    pub read: RelationRead,
}

/// The text of an optional string.
pub open spec fn optional_text(o: Option<String>) -> Option<Seq<char>> {
    match o {
        Some(s) => Some(s@),
        None => None,
    }
}

/// The (payload, file id) of each earlier file whose id carries a payload,
/// in order.
pub open spec fn payload_owners(files: Seq<RelationFile>) -> Seq<(Seq<char>, Seq<char>)>
    decreases files.len(),
{
    if files.len() == 0 {
        Seq::empty()
    } else {
        let earlier = payload_owners(files.drop_last());
        match files.last().payload {
            Some(p) => earlier.push((p@, files.last().file_id@)),
            None => earlier,
        }
    }
}

/// The file id most recently recorded for `payload`.
pub open spec fn last_owner(owners: Seq<(Seq<char>, Seq<char>)>, payload: Seq<char>) -> Option<Seq<char>>
    decreases owners.len(),
{
    if owners.len() == 0 {
        None
    } else if owners.last().0 == payload {
        Some(owners.last().1)
    } else {
        last_owner(owners.drop_last(), payload)
    }
}

/// The report for an endpoint that names no known id, if it does not.
pub open spec fn endpoint_report(
    file_id: Seq<char>,
    field: Seq<char>,
    value: Seq<char>,
    known: Seq<Seq<char>>,
    path: Seq<char>,
) -> Seq<(Seq<char>, DiagnosticSeverity, Seq<char>, Option<SourceLocation>)> {
    if known.contains(value) {
        Seq::empty()
    } else {
        seq![
            unlocated_error(
                "E-SCAN-009"@,
                "relation "@ + file_id + " "@ + field + " references missing entity "@ + value + " ("@ + path
                    + ")"@,
            ),
        ]
    }
}

/// The reports for one relation file, given the file id last recorded for
/// its payload by an earlier file.
pub open spec fn relation_file_reports(f: RelationFile, earlier: Option<Seq<char>>, known: Seq<Seq<char>>) -> Seq<
    (Seq<char>, DiagnosticSeverity, Seq<char>, Option<SourceLocation>),
> {
    let id = f.file_id@;
    let path = f.record_path@;
    if f.payload is Some && earlier is Some {
        seq![
            unlocated_error(
                "E-SCAN-010"@,
                "relation IDs "@ + earlier->0 + " and "@ + id + " use the same ULID payload "@ + f.payload->0@
                    + " ("@ + path + ")"@,
            ),
        ]
    } else {
        match f.read {
            RelationRead::Unreadable(e) => seq![
                unlocated_error("E-SCAN-010"@, "relation "@ + id + " cannot be read: "@ + e@ + " ("@ + path + ")"@),
            ],
            RelationRead::Invalid(e) => seq![
                unlocated_error(
                    "E-SCAN-010"@,
                    "relation "@ + id + " has an invalid schema: "@ + e@ + " ("@ + path + ")"@,
                ),
            ],
            RelationRead::Parsed { from, to, diagnostics } => diag_views(diagnostics@) + endpoint_report(
                id,
                "from"@,
                from@,
                known,
                path,
            ) + endpoint_report(id, "to"@, to@, known, path),
        }
    }
}

/// The reports for the relation files, in order.
pub open spec fn relation_reports(files: Seq<RelationFile>, known: Seq<Seq<char>>) -> Seq<
    (Seq<char>, DiagnosticSeverity, Seq<char>, Option<SourceLocation>),
>
    decreases files.len(),
{
    if files.len() == 0 {
        Seq::empty()
    } else {
        let f = files.last();
        let earlier = match f.payload {
            Some(p) => last_owner(payload_owners(files.drop_last()), p@),
            None => None,
        };
        relation_reports(files.drop_last(), known) + relation_file_reports(f, earlier, known)
    }
}

fn last_owner_of(owners: &Vec<(String, String)>, payload: &str) -> (r: Option<String>)
    ensures
        match r {
            Some(id) => last_owner(owners@.map_values(|o: (String, String)| (o.0@, o.1@)), payload@) == Some(id@),
            None => last_owner(owners@.map_values(|o: (String, String)| (o.0@, o.1@)), payload@) is None,
        },
{
    let ghost views = owners@.map_values(|o: (String, String)| (o.0@, o.1@));
    let mut k: usize = owners.len();
    assert(views.take(k as int) =~= views);
    while k > 0
        invariant
            k <= owners@.len(),
            views == owners@.map_values(|o: (String, String)| (o.0@, o.1@)),
            last_owner(views, payload@) == last_owner(views.take(k as int), payload@),
        decreases k,
    {
        let ghost t = views.take(k as int);
        assert(t.drop_last() =~= views.take(k as int - 1));
        assert(t.last() == views[k as int - 1]);
        if text_eq(owners[k - 1].0.as_str(), payload) {
            return Some(owners[k - 1].1.clone());
        }
        k = k - 1;
    }
    None
}

fn endpoint_check(
    file_id: &str,
    field: &str,
    value: &str,
    known: &Vec<String>,
    path: &str,
    diagnostics: &mut Vec<Diagnostic>,
)
    ensures
        diag_views(final(diagnostics)@) == diag_views(old(diagnostics)@) + endpoint_report(
            file_id@,
            field@,
            value@,
            known@.map_values(|t: String| t@),
            path@,
        ),
{
    if !contains_string(known, value) {
        let mut message = String::new();
        push_text(&mut message, "relation ");
        push_text(&mut message, file_id);
        push_text(&mut message, " ");
        push_text(&mut message, field);
        push_text(&mut message, " references missing entity ");
        push_text(&mut message, value);
        push_text(&mut message, " (");
        push_text(&mut message, path);
        push_text(&mut message, ")");
        let d = Diagnostic::error("E-SCAN-009", message);
        let ghost before = diagnostics@;
        diagnostics.push(d);
        assert(diag_views(diagnostics@) =~= diag_views(before).push(diag_view(d)));
    } else {
        assert(diag_views(diagnostics@) =~= diag_views(old(diagnostics)@) + Seq::empty());
    }
}

fn read_failure(file_id: &str, what: &str, reason: &str, path: &str) -> (d: Diagnostic)
    ensures
        diag_view(d) == unlocated_error("E-SCAN-010"@, "relation "@ + file_id@ + what@ + reason@ + " ("@ + path@ + ")"@),
{
    let mut message = String::new();
    push_text(&mut message, "relation ");
    push_text(&mut message, file_id);
    push_text(&mut message, what);
    push_text(&mut message, reason);
    push_text(&mut message, " (");
    push_text(&mut message, path);
    push_text(&mut message, ")");
    Diagnostic::error("E-SCAN-010", message)
}

fn check_relation_file(
    f: &RelationFile,
    earlier: Option<String>,
    known: &Vec<String>,
    diagnostics: &mut Vec<Diagnostic>,
)
    ensures
        diag_views(final(diagnostics)@) == diag_views(old(diagnostics)@) + relation_file_reports(
            *f,
            optional_text(earlier),
            known@.map_values(|t: String| t@),
        ),
{
    let ghost kv = known@.map_values(|t: String| t@);
    let ghost ev = optional_text(earlier);
    let ghost before = diagnostics@;
    if f.payload.is_some() && earlier.is_some() {
        let payload = match &f.payload {
            Some(p) => p,
            None => {
                return;
            },
        };
        let first = match &earlier {
            Some(e) => e,
            None => {
                return;
            },
        };
        let mut message = String::new();
        push_text(&mut message, "relation IDs ");
        push_text(&mut message, first.as_str());
        push_text(&mut message, " and ");
        push_text(&mut message, f.file_id.as_str());
        push_text(&mut message, " use the same ULID payload ");
        push_text(&mut message, payload.as_str());
        push_text(&mut message, " (");
        push_text(&mut message, f.record_path.as_str());
        push_text(&mut message, ")");
        let d = Diagnostic::error("E-SCAN-010", message);
        diagnostics.push(d);
        assert(diag_views(diagnostics@) =~= diag_views(before).push(diag_view(d)));
        assert(relation_file_reports(*f, ev, kv) =~= seq![diag_view(d)]);
        return;
    }
    match &f.read {
        RelationRead::Unreadable(e) => {
            let d = read_failure(f.file_id.as_str(), " cannot be read: ", e.as_str(), f.record_path.as_str());
            diagnostics.push(d);
            assert(diag_views(diagnostics@) =~= diag_views(before).push(diag_view(d)));
            assert(relation_file_reports(*f, ev, kv) =~= seq![diag_view(d)]);
        },
        RelationRead::Invalid(e) => {
            let d = read_failure(f.file_id.as_str(), " has an invalid schema: ", e.as_str(), f.record_path.as_str());
            diagnostics.push(d);
            assert(diag_views(diagnostics@) =~= diag_views(before).push(diag_view(d)));
            assert(relation_file_reports(*f, ev, kv) =~= seq![diag_view(d)]);
        },
        RelationRead::Parsed { from, to, diagnostics: reported } => {
            let mut j: usize = 0;
            while j < reported.len()
                invariant
                    j <= reported@.len(),
                    diag_views(diagnostics@) == diag_views(before) + diag_views(reported@.take(j as int)),
                decreases reported.len() - j,
            {
                let d = reported[j].duplicate();
                let ghost mid = diagnostics@;
                diagnostics.push(d);
                assert(diag_view(d) == diag_view(reported@[j as int]));
                assert(reported@.take(j as int + 1) =~= reported@.take(j as int).push(reported@[j as int]));
                assert(diag_views(diagnostics@) =~= diag_views(mid).push(diag_view(d)));
                assert(diag_views(reported@.take(j as int + 1)) =~= diag_views(reported@.take(j as int)).push(
                    diag_view(d),
                ));
                j = j + 1;
            }
            assert(reported@.take(j as int) =~= reported@);
            let ghost after_reported = diagnostics@;
            endpoint_check(f.file_id.as_str(), "from", from.as_str(), known, f.record_path.as_str(), diagnostics);
            endpoint_check(f.file_id.as_str(), "to", to.as_str(), known, f.record_path.as_str(), diagnostics);
            assert(diag_views(diagnostics@) =~= diag_views(before) + relation_file_reports(*f, ev, kv));
        },
    }
}

/// Checks the relation record files, in order: a file whose id carries the
/// same ULID payload as an earlier file's is reported (`E-SCAN-010`, naming
/// the file last recorded for that payload) and not checked further; an
/// unreadable or invalid file is reported (`E-SCAN-010`); otherwise the
/// reader's own diagnostics are kept and each endpoint (`from`, then `to`)
/// that names no id in `known` is reported (`E-SCAN-009`).
pub fn check_relations(files: &Vec<RelationFile>, known: &Vec<String>, diagnostics: &mut Vec<Diagnostic>)
    ensures
        diag_views(final(diagnostics)@) == diag_views(old(diagnostics)@) + relation_reports(
            files@,
            known@.map_values(|t: String| t@),
        ),
{
    let ghost kv = known@.map_values(|t: String| t@);
    let ghost base = diag_views(diagnostics@);
    let mut owners: Vec<(String, String)> = Vec::new();
    let mut i: usize = 0;
    while i < files.len()
        invariant
            i <= files@.len(),
            base == diag_views(old(diagnostics)@),
            kv == known@.map_values(|t: String| t@),
            owners@.map_values(|o: (String, String)| (o.0@, o.1@)) == payload_owners(files@.take(i as int)),
            diag_views(diagnostics@) == base + relation_reports(files@.take(i as int), kv),
        decreases files.len() - i,
    {
        let ghost t = files@.take(i as int + 1);
        assert(t.drop_last() =~= files@.take(i as int));
        assert(t.last() == files@[i as int]);
        let f = &files[i];
        let earlier = match &f.payload {
            Some(p) => last_owner_of(&owners, p.as_str()),
            None => None,
        };
        let ghost mid = diag_views(diagnostics@);
        check_relation_file(f, earlier, known, diagnostics);
        match &f.payload {
            Some(p) => {
                let ghost ob = owners@;
                owners.push((p.clone(), f.file_id.clone()));
                assert(owners@.map_values(|o: (String, String)| (o.0@, o.1@)) =~= ob.map_values(
                    |o: (String, String)| (o.0@, o.1@),
                ).push((p@, f.file_id@)));
            },
            None => {},
        }
        i = i + 1;
    }
    assert(files@.take(i as int) =~= files@);
}

/// The ids the source targets answer to: each target's locator value, then
/// its permanent id if it has one.
pub open spec fn source_ids(sources: Seq<SourceFunction>) -> Seq<Seq<char>>
    decreases sources.len(),
{
    if sources.len() == 0 {
        Seq::empty()
    } else {
        let s = sources.last();
        let earlier = source_ids(sources.drop_last()).push(s.locator.value@);
        match s.src_id {
            Some(id) => earlier.push(id@),
            None => earlier,
        }
    }
}

/// Every id an entity answers to in the scan, as a relation endpoint may
/// name it: the verification objectives' ids, the tests' ids, the source
/// targets' locators and permanent ids, and the document node ids.
pub fn known_entity_ids(
    vo_ids: &Vec<String>,
    tests: &Vec<TestEntity>,
    sources: &Vec<SourceFunction>,
    node_ids: &Vec<String>,
) -> (known: Vec<String>)
    ensures
        known@.map_values(|t: String| t@) == vo_ids@.map_values(|t: String| t@) + tests@.map_values(
            |t: TestEntity| t.id@,
        ) + source_ids(sources@) + node_ids@.map_values(|t: String| t@),
{
    let mut known: Vec<String> = Vec::new();
    let mut i: usize = 0;
    while i < vo_ids.len()
        invariant
            i <= vo_ids@.len(),
            known@.map_values(|t: String| t@) == vo_ids@.take(i as int).map_values(|t: String| t@),
        decreases vo_ids.len() - i,
    {
        let ghost before = known@;
        known.push(vo_ids[i].clone());
        assert(vo_ids@.take(i as int + 1) =~= vo_ids@.take(i as int).push(vo_ids@[i as int]));
        assert(known@.map_values(|t: String| t@) =~= before.map_values(|t: String| t@).push(vo_ids@[i as int]@));
        i = i + 1;
    }
    assert(vo_ids@.take(i as int) =~= vo_ids@);
    let ghost after_vos = known@.map_values(|t: String| t@);
    let mut i: usize = 0;
    while i < tests.len()
        invariant
            i <= tests@.len(),
            known@.map_values(|t: String| t@) == after_vos + tests@.take(i as int).map_values(|t: TestEntity| t.id@),
        decreases tests.len() - i,
    {
        let ghost before = known@;
        known.push(tests[i].id.0.clone());
        assert(tests@.take(i as int + 1) =~= tests@.take(i as int).push(tests@[i as int]));
        assert(known@.map_values(|t: String| t@) =~= before.map_values(|t: String| t@).push(tests@[i as int].id@));
        i = i + 1;
    }
    assert(tests@.take(i as int) =~= tests@);
    let ghost after_tests = known@.map_values(|t: String| t@);
    let mut i: usize = 0;
    while i < sources.len()
        invariant
            i <= sources@.len(),
            known@.map_values(|t: String| t@) == after_tests + source_ids(sources@.take(i as int)),
        decreases sources.len() - i,
    {
        let ghost t = sources@.take(i as int + 1);
        assert(t.drop_last() =~= sources@.take(i as int));
        assert(t.last() == sources@[i as int]);
        let ghost before = known@;
        known.push(sources[i].locator.value.clone());
        assert(known@.map_values(|t: String| t@) =~= before.map_values(|t: String| t@).push(
            sources@[i as int].locator.value@,
        ));
        match &sources[i].src_id {
            Some(id) => {
                let ghost mid = known@;
                known.push(id.0.clone());
                assert(known@.map_values(|t: String| t@) =~= mid.map_values(|t: String| t@).push(id@));
            },
            None => {},
        }
        i = i + 1;
    }
    assert(sources@.take(i as int) =~= sources@);
    let ghost after_sources = known@.map_values(|t: String| t@);
    let mut i: usize = 0;
    while i < node_ids.len()
        invariant
            i <= node_ids@.len(),
            known@.map_values(|t: String| t@) == after_sources + node_ids@.take(i as int).map_values(|t: String| t@),
        decreases node_ids.len() - i,
    {
        let ghost before = known@;
        known.push(node_ids[i].clone());
        assert(node_ids@.take(i as int + 1) =~= node_ids@.take(i as int).push(node_ids@[i as int]));
        assert(known@.map_values(|t: String| t@) =~= before.map_values(|t: String| t@).push(node_ids@[i as int]@));
        i = i + 1;
    }
    assert(node_ids@.take(i as int) =~= node_ids@);
    known
}

} // verus!
