//! Materializing discovered test constructs into managed tests: every
//! draft becomes a test, colliding test ids are all kept and all reported,
//! and every construct (managed or not) is listed as discovered.

use vstd::prelude::*;
use vstd::utf8::{decode_utf8, encode_utf8};

use crate::diagnostic::{Diagnostic, DiagnosticSeverity};
use crate::grouping::{group_by_key, group_keys, is_grouping, values_for};
use crate::hash::{text_hash, ContentHash};
use crate::ids::{AdapterId, TestId, VoId};
use crate::scan::{diag_view, diag_views, located_error};
use crate::source::{SourceLocation, TargetRef};
use crate::test_entity::{DiscoveredTest, ExecutionDescriptor, ManagedTestLink, TestEntity};
use crate::text::{decimal_text, push_decimal, push_text};

verus! {

/// A test construct an adapter could turn into a managed test: its
/// metadata, location, execution, subject hash and construct text.
#[derive(Clone, Debug)]
pub struct TestDraft {
    pub id: TestId,
    pub covers: Vec<VoId>,
    pub targets: Vec<TargetRef>,
    pub intent: String,
    pub input: Option<String>,
    pub expect: Option<String>,
    pub kind: Option<String>,
    pub cases: Vec<String>,
    pub related: Vec<TestId>,
    pub location: SourceLocation,
    pub execution: ExecutionDescriptor,
    /// The test subject hash the adapter computed for this construct.
    pub subject_hash: ContentHash,
    pub construct_text: String,
}

/// A test construct an adapter recognized but could not turn into a
/// managed test (no management declaration, or required metadata missing).
#[derive(Clone, Debug)]
pub struct MissingTestConstruct {
    pub location: SourceLocation,
    pub construct_text: String,
}

/// The managed test a draft becomes.
pub open spec fn entity_of(d: TestDraft) -> TestEntity {
    TestEntity {
        id: d.id,
        covers: d.covers,
        targets: d.targets,
        intent: d.intent,
        input: d.input,
        expect: d.expect,
        kind: d.kind,
        cases: d.cases,
        related: d.related,
        location: d.location,
        content_hash: d.subject_hash,
        execution: d.execution,
    }
}

/// The message for a test id declared by several constructs.
pub open spec fn collision_message(id: Seq<char>, n: nat) -> Seq<char> {
    "Test ID `"@ + id + "` is declared by "@ + decimal_text(n) + " Test constructs"@
}

/// One report per location.
pub open spec fn located_reports(message: Seq<char>, locations: Seq<SourceLocation>) -> Seq<
    (Seq<char>, DiagnosticSeverity, Seq<char>, Option<SourceLocation>),
> {
    locations.map_values(|l: SourceLocation| located_error("E-SCAN-002"@, message, l))
}

/// For each id (ascending) declared more than once, one report at each of
/// its declarations, in order.
pub open spec fn test_id_collision_reports(occ: Seq<(String, SourceLocation)>, keys: Seq<Seq<u8>>) -> Seq<
    (Seq<char>, DiagnosticSeverity, Seq<char>, Option<SourceLocation>),
>
    decreases keys.len(),
{
    if keys.len() == 0 {
        Seq::empty()
    } else {
        let earlier = test_id_collision_reports(occ, keys.drop_last());
        let locs = values_for(occ, keys.last());
        if locs.len() > 1 {
            earlier + located_reports(collision_message(decode_utf8(keys.last()), locs.len()), locs)
        } else {
            earlier
        }
    }
}

/// The (id, location) of each draft, in order.
pub open spec fn draft_locations(drafts: Seq<(AdapterId, TestDraft)>) -> Seq<(String, SourceLocation)> {
    drafts.map_values(|d: (AdapterId, TestDraft)| (d.1.id.0, d.1.location))
}

/// The discovered entry for a draft.
pub open spec fn discovered_draft(d: (AdapterId, TestDraft), h: DiscoveredTest) -> bool {
    &&& h.adapter == d.0
    &&& h.location == d.1.location
    &&& h.content_hash@ == text_hash(d.1.construct_text@)
    &&& h.managed == ManagedTestLink::One(d.1.id)
}

/// The discovered entry for a construct that is not managed.
pub open spec fn discovered_missing(d: (AdapterId, MissingTestConstruct), h: DiscoveredTest) -> bool {
    &&& h.adapter == d.0
    &&& h.location == d.1.location
    &&& h.content_hash@ == text_hash(d.1.construct_text@)
    &&& h.managed == ManagedTestLink::Missing
}

/// Turns every draft into a managed test (none is dropped, colliding ids
/// included), lists every construct as discovered (the drafts, each linked
/// to its own id, then the unmanaged constructs, each with the hash of its
/// construct text), and reports `E-SCAN-002` at every declaration of an id
/// declared more than once.
pub fn materialize_tests(
    drafts: Vec<(AdapterId, TestDraft)>,
    missing_drafts: Vec<(AdapterId, MissingTestConstruct)>,
) -> (r: (Vec<TestEntity>, Vec<DiscoveredTest>, Vec<Diagnostic>))
    ensures
        r.0@ == drafts@.map_values(|d: (AdapterId, TestDraft)| entity_of(d.1)),
        r.1@.len() == drafts@.len() + missing_drafts@.len(),
        forall|i: int| 0 <= i < drafts@.len() ==> discovered_draft(drafts@[i], #[trigger] r.1@[i]),
        forall|i: int|
            0 <= i < missing_drafts@.len() ==> discovered_missing(
                missing_drafts@[i],
                #[trigger] r.1@[drafts@.len() + i],
            ),
        diag_views(r.2@) == test_id_collision_reports(
            draft_locations(drafts@),
            group_keys(draft_locations(drafts@)),
        ),
{
    let ghost all = drafts@;
    let ghost all_missing = missing_drafts@;
    let mut tests: Vec<TestEntity> = Vec::new();
    let mut discovered: Vec<DiscoveredTest> = Vec::new();
    let mut occ: Vec<(String, SourceLocation)> = Vec::new();
    let mut rest = drafts;
    let ghost mut done: int = 0;
    while rest.len() > 0
        invariant
            0 <= done <= all.len(),
            rest@ == all.skip(done),
            tests@ == all.take(done).map_values(|d: (AdapterId, TestDraft)| entity_of(d.1)),
            discovered@.len() == done,
            forall|i: int| 0 <= i < done ==> discovered_draft(all[i], #[trigger] discovered@[i]),
            occ@ == draft_locations(all.take(done)),
        decreases rest.len(),
    {
        let (adapter, draft) = rest.remove(0);
        assert(all[done] == (adapter, draft));
        let ghost d = draft;
        let construct_hash = ContentHash::from_text(draft.construct_text.as_str());
        occ.push((draft.id.0.clone(), draft.location.duplicate()));
        discovered.push(DiscoveredTest {
            adapter,
            location: draft.location.duplicate(),
            content_hash: construct_hash,
            managed: ManagedTestLink::One(draft.id.duplicate()),
        });
        let TestDraft { id, covers, targets, intent, input, expect, kind, cases, related, location, execution, subject_hash, construct_text } = draft;
        tests.push(TestEntity {
            id,
            covers,
            targets,
            intent,
            input,
            expect,
            kind,
            cases,
            related,
            location,
            content_hash: subject_hash,
            execution,
        });
        proof {
            assert(tests@ =~= all.take(done + 1).map_values(|d: (AdapterId, TestDraft)| entity_of(d.1)));
            assert(occ@ =~= draft_locations(all.take(done + 1)));
            done = done + 1;
        }
        assert(rest@ =~= all.skip(done));
    }
    assert(all.take(done) =~= all);
    let mut rest = missing_drafts;
    let ghost mut m: int = 0;
    while rest.len() > 0
        invariant
            0 <= m <= all_missing.len(),
            rest@ == all_missing.skip(m),
            discovered@.len() == all.len() + m,
            forall|i: int| 0 <= i < all.len() ==> discovered_draft(all[i], #[trigger] discovered@[i]),
            forall|i: int| 0 <= i < m ==> discovered_missing(all_missing[i], #[trigger] discovered@[all.len() + i]),
        decreases rest.len(),
    {
        let (adapter, draft) = rest.remove(0);
        assert(all_missing[m] == (adapter, draft));
        let construct_hash = ContentHash::from_text(draft.construct_text.as_str());
        let ghost before = discovered@;
        discovered.push(DiscoveredTest {
            adapter,
            location: draft.location,
            content_hash: construct_hash,
            managed: ManagedTestLink::Missing,
        });
        proof {
            assert forall|i: int| 0 <= i < all.len() implies discovered_draft(all[i], #[trigger] discovered@[i]) by {
                assert(discovered@[i] == before[i]);
            }
            assert forall|i: int| 0 <= i < m + 1 implies discovered_missing(all_missing[i], #[trigger] discovered@[all.len() + i]) by {
                if i < m {
                    assert(discovered@[all.len() + i] == before[all.len() + i]);
                }
            }
            m = m + 1;
        }
        assert(rest@ =~= all_missing.skip(m));
    }
    let ghost o = occ@;
    let groups = group_by_key(occ);
    let ghost keys = group_keys(o);
    let mut diagnostics: Vec<Diagnostic> = Vec::new();
    let mut g: usize = 0;
    while g < groups.len()
        invariant
            g <= groups@.len(),
            is_grouping(o, groups@),
            keys == group_keys(o),
            diag_views(diagnostics@) == test_id_collision_reports(o, keys.take(g as int)),
        decreases groups.len() - g,
    {
        let ghost kt = keys.take(g as int + 1);
        assert(kt.drop_last() =~= keys.take(g as int));
        assert(kt.last() == keys[g as int]);
        let id = &groups[g].0;
        let locations = &groups[g].1;
        proof {
            assert(encode_utf8(groups@[g as int].0@) == keys[g as int]);
            vstd::utf8::encode_utf8_decode_utf8(id@);
        }
        if locations.len() > 1 {
            let mut message = String::new();
            push_text(&mut message, "Test ID `");
            push_text(&mut message, id.as_str());
            push_text(&mut message, "` is declared by ");
            push_decimal(&mut message, locations.len() as u64);
            push_text(&mut message, " Test constructs");
            assert(message@ =~= collision_message(id@, locations@.len()));
            let ghost base = diag_views(diagnostics@);
            let mut j: usize = 0;
            while j < locations.len()
                invariant
                    j <= locations@.len(),
                    diag_views(diagnostics@) == base + located_reports(message@, locations@.take(j as int)),
                decreases locations.len() - j,
            {
                let d = Diagnostic::error("E-SCAN-002", message.clone()).with_location(locations[j].duplicate());
                let ghost before = diagnostics@;
                diagnostics.push(d);
                assert(diag_views(diagnostics@) =~= diag_views(before).push(diag_view(d)));
                assert(located_reports(message@, locations@.take(j as int + 1)) =~= located_reports(message@, locations@.take(j as int)).push(
                    located_error("E-SCAN-002"@, message@, locations@[j as int]),
                ));
                j = j + 1;
            }
            assert(locations@.take(j as int) =~= locations@);
        }
        g = g + 1;
    }
    assert(keys.take(g as int) =~= keys);
    (tests, discovered, diagnostics)
}

} // verus!
