//! The decisions of a scan around its adapters: in which order the
//! configured adapters run, which configurations are refused, and how the
//! scan's results are put together from what the adapters found.

use vstd::prelude::*;

use crate::desired::texts;
use crate::order::{stable_sort_by_key, stable_sorted};
use crate::project_checks::{has_text, sorted_distinct, strictly_ascending};
use crate::diagnostic::Diagnostic;
use crate::ids::{AdapterId, SrcId};
use crate::protocol::ScanSummary;
use crate::scan::{check_vo_references, contains_string, diag_views, vo_reference_reports, ScanError, ScanResult};
use crate::scan_targets::{resolution_reports, resolve_targets};
use crate::scan_tests::{
    discovered_draft, discovered_missing, draft_locations, entity_of, materialize_tests, test_id_collision_reports,
    MissingTestConstruct, TestDraft,
};
use crate::grouping::group_keys;
use crate::source::{Locator, SourceFunction, SourceLocation};
use crate::subject_hash::{source_target_subject_hash, target_hash};
use crate::scan_documents::{join_names, join_with};
use crate::text::push_text;

verus! {

/// The message for a configuration that declares no adapter.
pub open spec fn no_adapters_message() -> Seq<char> {
    "no adapters are registered in config.yaml (adapters: []); scan has nothing to discover"@
}

/// The registered ids as listed in a message: `(none registered)` when
/// there are none, else `list` joined by `, ` (where `list` holds each
/// registered id once, in ascending order).
pub open spec fn registered_list(registered: Seq<String>, list: Seq<String>) -> Seq<char> {
    if registered.len() == 0 {
        "(none registered)"@
    } else {
        join_with(texts(list), ", "@)
    }
}

/// The position of the first id of `order` that is not registered.
pub open spec fn first_unregistered(order: Seq<String>, registered: Seq<String>) -> Option<int> {
    if exists|k: int| 0 <= k < order.len() && !has_text(registered, #[trigger] order[k]@) {
        Some(
            choose|k: int|
                0 <= k < order.len() && !has_text(registered, #[trigger] order[k]@) && forall|j: int|
                    0 <= j < k ==> has_text(registered, order[j]@),
        )
    } else {
        None
    }
}

/// The order in which the configured adapters are asked to discover: by
/// id (ascending by bytes), not in the order the configuration lists them.
/// A configuration with no adapter is refused (`Config`); so is one that
/// declares an id that is not registered: the first such id in that order
/// is named, with the registered ids (`UnknownAdapterId`).
pub fn adapter_scan_order(configured: &Vec<String>, registered: &Vec<String>) -> (r: Result<Vec<String>, ScanError>)
    ensures
        if configured@.len() == 0 {
            r matches Err(ScanError::Config(m)) && m@ == no_adapters_message()
        } else {
            match first_unregistered(stable_sorted(configured@), registered@) {
                None => r matches Ok(v) && v@ == stable_sorted(configured@),
                Some(k) => r matches Err(ScanError::UnknownAdapterId { message }) && exists|list: Seq<String>|
                    strictly_ascending(list) && (forall|t: Seq<char>| has_text(list, t) <==> has_text(registered@, t))
                        && message@ == "config.yaml declares adapter id `"@ + stable_sorted(configured@)[k]@
                        + "` which is not registered; registered adapter id(s): "@ + registered_list(registered@, list),
            }
        },
{
    if configured.len() == 0 {
        return Err(ScanError::Config(
            "no adapters are registered in config.yaml (adapters: []); scan has nothing to discover".to_string(),
        ));
    }
    let mut copies: Vec<String> = Vec::new();
    let mut i: usize = 0;
    while i < configured.len()
        invariant
            i <= configured@.len(),
            copies@ == configured@.take(i as int),
        decreases configured.len() - i,
    {
        copies.push(configured[i].clone());
        assert(copies@ =~= configured@.take(i as int + 1));
        i = i + 1;
    }
    assert(configured@.take(i as int) =~= configured@);
    let order = stable_sort_by_key(copies);
    let ghost ov = order@;
    let mut k: usize = 0;
    while k < order.len()
        invariant
            k <= order@.len(),
            ov == order@,
            order@ == stable_sorted(configured@),
            configured@.len() > 0,
            forall|j: int| 0 <= j < k ==> has_text(registered@, #[trigger] order@[j]@),
        decreases order.len() - k,
    {
        if !contains_string(registered, order[k].as_str()) {
            proof {
                assert(!has_text(registered@, order@[k as int]@)) by {
                    if has_text(registered@, order@[k as int]@) {
                        let w = choose|w: int| 0 <= w < registered@.len() && (#[trigger] registered@[w])@ == order@[k as int]@;
                        assert(registered@.map_values(|t: String| t@)[w] == order@[k as int]@);
                    }
                }
                assert(0 <= k < ov.len() && !has_text(registered@, ov[k as int]@) && forall|j: int|
                    0 <= j < k ==> has_text(registered@, ov[j]@));
                let w = first_unregistered(ov, registered@)->Some_0;
                if w < k {
                    assert(has_text(registered@, ov[w]@));
                }
                if w > k {
                    assert(has_text(registered@, ov[k as int]@));
                }
            }
            let list = sorted_distinct(registered);
            let mut message = String::new();
            push_text(&mut message, "config.yaml declares adapter id `");
            push_text(&mut message, order[k].as_str());
            push_text(&mut message, "` which is not registered; registered adapter id(s): ");
            if registered.len() == 0 {
                push_text(&mut message, "(none registered)");
            } else {
                let joined = join_names(&list, ", ");
                push_text(&mut message, joined.as_str());
            }
            return Err(ScanError::UnknownAdapterId { message });
        }
        proof {
            let views = registered@.map_values(|t: String| t@);
            let w = choose|w: int| 0 <= w < views.len() && views[w] == order@[k as int]@;
            assert(registered@[w]@ == order@[k as int]@);
        }
        k = k + 1;
    }
    Ok(order)
}

/// A source target as an adapter found it.
pub struct SourceDraft {
    pub locator: Locator,
    pub src_id: Option<SrcId>,
    pub location: SourceLocation,
    pub construct_text: String,
}

/// The source target a draft becomes: its content hash is the target
/// subject hash of its locator and construct text.
pub open spec fn source_from_draft(d: SourceDraft, s: SourceFunction) -> bool {
    &&& s.locator == d.locator
    &&& s.src_id == d.src_id
    &&& s.location == d.location
    &&& s.content_hash@ == target_hash(d.locator, d.construct_text@)
}

/// Puts a scan's results together from what the adapters found:
/// `files` files were scanned and `adapter_diagnostics` reported; the test
/// drafts become the managed tests (colliding ids reported), the source
/// drafts the source targets; then the tests' objective references are
/// checked against `vo_ids` and their targets resolved. The diagnostics
/// come in that order: the adapters', the collisions, the unknown
/// objectives, the target resolution. The summary counts the files, tests
/// and sources.
pub fn assemble_scan(
    files: u64,
    adapter_diagnostics: Vec<Diagnostic>,
    test_drafts: Vec<(AdapterId, TestDraft)>,
    missing_drafts: Vec<(AdapterId, MissingTestConstruct)>,
    source_drafts: Vec<SourceDraft>,
    vo_ids: &Vec<String>,
) -> (r: ScanResult)
    ensures
        r.summary.files == files,
        r.summary.tests == r.tests@.len(),
        r.summary.sources == r.sources@.len(),
        r.tests@ == test_drafts@.map_values(|d: (AdapterId, TestDraft)| entity_of(d.1)),
        r.sources@.len() == source_drafts@.len(),
        forall|i: int| 0 <= i < source_drafts@.len() ==> source_from_draft(source_drafts@[i], #[trigger] r.sources@[i]),
        r.discovered@.len() == test_drafts@.len() + missing_drafts@.len(),
        forall|i: int| 0 <= i < test_drafts@.len() ==> discovered_draft(test_drafts@[i], #[trigger] r.discovered@[i]),
        forall|i: int|
            0 <= i < missing_drafts@.len() ==> discovered_missing(
                missing_drafts@[i],
                #[trigger] r.discovered@[test_drafts@.len() + i],
            ),
        diag_views(r.diagnostics@) == diag_views(adapter_diagnostics@) + test_id_collision_reports(
            draft_locations(test_drafts@),
            group_keys(draft_locations(test_drafts@)),
        ) + vo_reference_reports(r.tests@, texts(vo_ids@)) + resolution_reports(r.tests@, r.sources@),
{
    let ghost drafts_view = test_drafts@;
    let mut sources: Vec<SourceFunction> = Vec::new();
    let mut k: usize = 0;
    while k < source_drafts.len()
        invariant
            k <= source_drafts@.len(),
            sources@.len() == k,
            forall|i: int| 0 <= i < k ==> source_from_draft(source_drafts@[i], #[trigger] sources@[i]),
        decreases source_drafts.len() - k,
    {
        let d = &source_drafts[k];
        let hash = source_target_subject_hash(&d.locator, d.construct_text.as_str());
        let made = SourceFunction {
            locator: d.locator.duplicate(),
            src_id: match &d.src_id {
                Some(id) => Some(id.duplicate()),
                None => None,
            },
            location: d.location.duplicate(),
            content_hash: hash,
        };
        sources.push(made);
        k = k + 1;
    }
    let (tests, discovered, collisions) = materialize_tests(test_drafts, missing_drafts);
    let vo_reports = check_vo_references(&tests, vo_ids);
    let target_reports = resolve_targets(&tests, &sources);
    let ghost d0 = adapter_diagnostics@;
    let ghost d1 = collisions@;
    let ghost d2 = vo_reports@;
    let ghost d3 = target_reports@;
    let mut diagnostics = adapter_diagnostics;
    let mut more = collisions;
    diagnostics.append(&mut more);
    let mut more = vo_reports;
    diagnostics.append(&mut more);
    let mut more = target_reports;
    diagnostics.append(&mut more);
    assert(diagnostics@ =~= d0 + d1 + d2 + d3);
    assert(diag_views(d0 + d1 + d2 + d3) =~= diag_views(d0) + diag_views(d1) + diag_views(d2) + diag_views(d3));
    assert(texts(vo_ids@) =~= vo_ids@.map_values(|t: String| t@));
    let n_tests = tests.len() as u64;
    let n_sources = sources.len() as u64;
    ScanResult {
        summary: ScanSummary { files, tests: n_tests, sources: n_sources },
        tests,
        discovered,
        sources,
        diagnostics,
    }
}

} // verus!
