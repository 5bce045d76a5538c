//! Target resolution: each target a test declares must name exactly one
//! source target, permanent SRC IDs must be unique, and two spellings of a
//! test's targets must not reach the same source target.

use vstd::prelude::*;
use vstd::utf8::{decode_utf8, encode_utf8};

use crate::diagnostic::{Diagnostic, DiagnosticSeverity};
use crate::grouping::{group_by_key, group_keys, is_grouping, occurrence_keys, values_for};
use crate::scan::{diag_view, diag_views, located_error};
use crate::source::{SourceFunction, SourceLocation, TargetRef};
use crate::test_entity::TestEntity;
use crate::text::{decimal_text, push_decimal, push_text, text_eq};

verus! {

/// A canonical locator as (adapter, value).
pub open spec fn source_key(s: SourceFunction) -> (Seq<char>, Seq<char>) {
    (s.locator.adapter@, s.locator.value@)
}

/// How many source targets have the given canonical locator.
pub open spec fn locator_count(sources: Seq<SourceFunction>, key: (Seq<char>, Seq<char>)) -> nat
    decreases sources.len(),
{
    if sources.len() == 0 {
        0
    } else {
        locator_count(sources.drop_last(), key) + if source_key(sources.last()) == key {
            1nat
        } else {
            0nat
        }
    }
}

/// The (src id, locator, location) entries of the sources that declare a
/// permanent SRC ID, in order.
pub open spec fn src_id_entries(sources: Seq<SourceFunction>) -> Seq<(Seq<char>, (Seq<char>, Seq<char>), SourceLocation)>
    decreases sources.len(),
{
    if sources.len() == 0 {
        Seq::empty()
    } else {
        let earlier = src_id_entries(sources.drop_last());
        let s = sources.last();
        match s.src_id {
            Some(id) => earlier.push((id@, source_key(s), s.location)),
            None => earlier,
        }
    }
}

/// The entries declaring the SRC ID given by its bytes, in order.
pub open spec fn entries_for(entries: Seq<(Seq<char>, (Seq<char>, Seq<char>), SourceLocation)>, k: Seq<u8>) -> Seq<
    ((Seq<char>, Seq<char>), SourceLocation),
>
    decreases entries.len(),
{
    if entries.len() == 0 {
        Seq::empty()
    } else {
        let earlier = entries_for(entries.drop_last(), k);
        if encode_utf8(entries.last().0) == k {
            earlier.push((entries.last().1, entries.last().2))
        } else {
            earlier
        }
    }
}

/// The distinct declared SRC IDs (as bytes), ascending.
pub open spec fn declared_src_ids(entries: Seq<(Seq<char>, (Seq<char>, Seq<char>), SourceLocation)>) -> Seq<Seq<u8>> {
    crate::encoding::sorted_set(
        crate::subject_hash::first_occurrences(
            entries.map_values(|e: (Seq<char>, (Seq<char>, Seq<char>), SourceLocation)| encode_utf8(e.0)),
        ),
    )
}

/// The message for a SRC ID declared by several source targets.
pub open spec fn duplicate_src_message(id: Seq<char>, n: nat) -> Seq<char> {
    "permanent SRC ID `"@ + id + "` is declared by "@ + decimal_text(n) + " Source Targets"@
}

/// One report per SRC ID (ascending) declared by more than one source
/// target, located at its first declaration.
pub open spec fn duplicate_src_reports(entries: Seq<(Seq<char>, (Seq<char>, Seq<char>), SourceLocation)>, keys: Seq<Seq<u8>>) -> Seq<
    (Seq<char>, DiagnosticSeverity, Seq<char>, Option<SourceLocation>),
>
    decreases keys.len(),
{
    if keys.len() == 0 {
        Seq::empty()
    } else {
        let earlier = duplicate_src_reports(entries, keys.drop_last());
        let es = entries_for(entries, keys.last());
        if es.len() > 1 {
            earlier.push(
                located_error(
                    "E-SCAN-011"@,
                    duplicate_src_message(decode_utf8(keys.last()), es.len()),
                    es[0].1,
                ),
            )
        } else {
            earlier
        }
    }
}

/// How a declared target resolves: to one canonical locator (with the
/// spelling used), to nothing, or ambiguously.
pub enum Resolution {
    Resolved(Seq<char>, (Seq<char>, Seq<char>)),
    NotFound(Seq<char>),
    Ambiguous,
}

/// How one declared target resolves against the sources.
pub open spec fn resolve(sources: Seq<SourceFunction>, target: TargetRef) -> Resolution {
    match target {
        TargetRef::Locator(l) => {
            let key = (l.adapter@, l.value@);
            let n = locator_count(sources, key);
            if n == 1 {
                Resolution::Resolved(l.value@, key)
            } else {
                Resolution::NotFound(l.value@)
            }
        },
        TargetRef::SrcId(id) => {
            let es = entries_for(src_id_entries(sources), encode_utf8(id@));
            if es.len() == 1 {
                Resolution::Resolved(id@, es[0].0)
            } else if es.len() == 0 {
                Resolution::NotFound(id@)
            } else {
                Resolution::Ambiguous
            }
        },
    }
}

/// The message for a target that cannot be resolved.
pub open spec fn unresolved_message(test: Seq<char>, target: Seq<char>) -> Seq<char> {
    "test `"@ + test + "` target `"@ + target + "` cannot be resolved"@
}

/// The `E-SCAN-004` reports for a test's targets, in order.
pub open spec fn unresolved_reports(sources: Seq<SourceFunction>, t: TestEntity, targets: Seq<TargetRef>) -> Seq<
    (Seq<char>, DiagnosticSeverity, Seq<char>, Option<SourceLocation>),
>
    decreases targets.len(),
{
    if targets.len() == 0 {
        Seq::empty()
    } else {
        let earlier = unresolved_reports(sources, t, targets.drop_last());
        match resolve(sources, targets.last()) {
            Resolution::NotFound(spelling) => earlier.push(
                located_error("E-SCAN-004"@, unresolved_message(t.id@, spelling), t.location),
            ),
            _ => earlier,
        }
    }
}

/// The targets that resolve, as (spelling, canonical locator), in order.
pub open spec fn resolved_targets(sources: Seq<SourceFunction>, targets: Seq<TargetRef>) -> Seq<(Seq<char>, (Seq<char>, Seq<char>))>
    decreases targets.len(),
{
    if targets.len() == 0 {
        Seq::empty()
    } else {
        let earlier = resolved_targets(sources, targets.drop_last());
        match resolve(sources, targets.last()) {
            Resolution::Resolved(spelling, key) => earlier.push((spelling, key)),
            _ => earlier,
        }
    }
}

/// The spelling of the first resolved target reaching `key`, if any.
pub open spec fn first_spelling(resolved: Seq<(Seq<char>, (Seq<char>, Seq<char>))>, key: (Seq<char>, Seq<char>)) -> Option<Seq<char>>
    decreases resolved.len(),
{
    if resolved.len() == 0 {
        None
    } else {
        let earlier = first_spelling(resolved.drop_last(), key);
        if earlier is Some {
            earlier
        } else if resolved.last().1 == key {
            Some(resolved.last().0)
        } else {
            None
        }
    }
}

/// The message for two spellings reaching the same source target.
pub open spec fn same_target_message(test: Seq<char>, previous: Seq<char>, spelling: Seq<char>, key: (Seq<char>, Seq<char>)) -> Seq<char> {
    "test `"@ + test + "` declares multiple targets (`"@ + previous + "`, `"@ + spelling
        + "`) that resolve to the same Source Target `"@ + key.0 + "::"@ + key.1 + "`"@
}

/// The `E-SCAN-005` reports: each resolved target whose source target was
/// first reached under a different spelling.
pub open spec fn same_target_reports(t: TestEntity, resolved: Seq<(Seq<char>, (Seq<char>, Seq<char>))>) -> Seq<
    (Seq<char>, DiagnosticSeverity, Seq<char>, Option<SourceLocation>),
>
    decreases resolved.len(),
{
    if resolved.len() == 0 {
        Seq::empty()
    } else {
        let earlier = same_target_reports(t, resolved.drop_last());
        let (spelling, key) = resolved.last();
        match first_spelling(resolved.drop_last(), key) {
            Some(previous) => if previous != spelling {
                earlier.push(
                    located_error(
                        "E-SCAN-005"@,
                        same_target_message(t.id@, previous, spelling, key),
                        t.location,
                    ),
                )
            } else {
                earlier
            },
            None => earlier,
        }
    }
}

/// The reports for every test, in order.
pub open spec fn target_reports(sources: Seq<SourceFunction>, tests: Seq<TestEntity>) -> Seq<
    (Seq<char>, DiagnosticSeverity, Seq<char>, Option<SourceLocation>),
>
    decreases tests.len(),
{
    if tests.len() == 0 {
        Seq::empty()
    } else {
        let t = tests.last();
        target_reports(sources, tests.drop_last()) + unresolved_reports(sources, t, t.targets@)
            + same_target_reports(t, resolved_targets(sources, t.targets@))
    }
}

/// Everything target resolution reports: the duplicate SRC IDs, then each
/// test's unresolvable targets and same-target spellings.
pub open spec fn resolution_reports(tests: Seq<TestEntity>, sources: Seq<SourceFunction>) -> Seq<
    (Seq<char>, DiagnosticSeverity, Seq<char>, Option<SourceLocation>),
> {
    let entries = src_id_entries(sources);
    duplicate_src_reports(entries, declared_src_ids(entries)) + target_reports(sources, tests)
}

/// The views of a group's (locator, location) values.
pub open spec fn entry_views(v: Seq<((String, String), SourceLocation)>) -> Seq<((Seq<char>, Seq<char>), SourceLocation)> {
    v.map_values(|e: ((String, String), SourceLocation)| ((e.0.0@, e.0.1@), e.1))
}

/// The exec form of `src_id_entries`.
pub open spec fn entry_occurrences_view(occ: Seq<(String, ((String, String), SourceLocation))>) -> Seq<
    (Seq<char>, (Seq<char>, Seq<char>), SourceLocation),
> {
    occ.map_values(|e: (String, ((String, String), SourceLocation))| (e.0@, (e.1.0.0@, e.1.0.1@), e.1.1))
}

proof fn lemma_entry_grouping_views(occ: Seq<(String, ((String, String), SourceLocation))>, k: Seq<u8>)
    ensures
        occurrence_keys(occ) == entry_occurrences_view(occ).map_values(
            |e: (Seq<char>, (Seq<char>, Seq<char>), SourceLocation)| encode_utf8(e.0),
        ),
        entry_views(values_for(occ, k)) == entries_for(entry_occurrences_view(occ), k),
    decreases occ.len(),
{
    assert(occurrence_keys(occ) =~= entry_occurrences_view(occ).map_values(
        |e: (Seq<char>, (Seq<char>, Seq<char>), SourceLocation)| encode_utf8(e.0),
    ));
    if occ.len() > 0 {
        lemma_entry_grouping_views(occ.drop_last(), k);
        assert(entry_occurrences_view(occ.drop_last()) =~= entry_occurrences_view(occ).drop_last());
        let earlier = values_for(occ.drop_last(), k);
        assert(entry_views(earlier.push(occ.last().1)) =~= entry_views(earlier).push(
            ((occ.last().1.0.0@, occ.last().1.0.1@), occ.last().1.1),
        ));
    }
}

/// `groups` holds one entry per distinct declared SRC ID of `entries`,
/// ascending by bytes, with that id's declarations in order.
pub open spec fn src_groups_ok(
    groups: Seq<(String, Vec<((String, String), SourceLocation)>)>,
    entries: Seq<(Seq<char>, (Seq<char>, Seq<char>), SourceLocation)>,
) -> bool {
    &&& groups.len() == declared_src_ids(entries).len()
    &&& forall|g: int|
        0 <= g < groups.len() ==> encode_utf8(#[trigger] groups[g].0@) == declared_src_ids(entries)[g]
            && entry_views(groups[g].1@) == entries_for(entries, declared_src_ids(entries)[g])
}

/// The SRC ID groups: one per distinct declared SRC ID, ascending, each
/// with the (locator, location) of its declarations in order.
fn src_id_groups(sources: &Vec<SourceFunction>) -> (groups: Vec<(String, Vec<((String, String), SourceLocation)>)>)
    ensures
        src_groups_ok(groups@, src_id_entries(sources@)),
{
    let mut occ: Vec<(String, ((String, String), SourceLocation))> = Vec::new();
    let mut i: usize = 0;
    while i < sources.len()
        invariant
            i <= sources@.len(),
            entry_occurrences_view(occ@) == src_id_entries(sources@.take(i as int)),
        decreases sources.len() - i,
    {
        let ghost t = sources@.take(i as int + 1);
        assert(t.drop_last() =~= sources@.take(i as int));
        assert(t.last() == sources@[i as int]);
        let source = &sources[i];
        match &source.src_id {
            Some(id) => {
                let entry = (
                    id.as_str().to_owned(),
                    (
                        (source.locator.adapter.as_str().to_owned(), source.locator.value.clone()),
                        source.location.duplicate(),
                    ),
                );
                let ghost before = occ@;
                occ.push(entry);
                assert(entry_occurrences_view(occ@) =~= entry_occurrences_view(before).push(
                    (id@, source_key(*source), source.location),
                ));
            },
            None => {},
        }
        i = i + 1;
    }
    assert(sources@.take(i as int) =~= sources@);
    let ghost o = occ@;
    proof {
        lemma_entry_grouping_views(o, Seq::empty());
    }
    let groups = group_by_key(occ);
    proof {
        assert(entry_occurrences_view(o) == src_id_entries(sources@));
        assert(group_keys(o) == declared_src_ids(src_id_entries(sources@)));
        assert forall|g: int| 0 <= g < groups@.len() implies encode_utf8(#[trigger] groups@[g].0@)
            == declared_src_ids(src_id_entries(sources@))[g] && entry_views(groups@[g].1@)
            == entries_for(src_id_entries(sources@), declared_src_ids(src_id_entries(sources@))[g]) by {
            assert(encode_utf8(groups@[g].0@) == group_keys(o)[g]);
            assert(groups@[g].1@ == values_for(o, group_keys(o)[g]));
            lemma_entry_grouping_views(o, group_keys(o)[g]);
            assert(entry_views(groups@[g].1@) == entries_for(entry_occurrences_view(o), group_keys(o)[g]));
        }
        assert(src_groups_ok(groups@, src_id_entries(sources@)));
    }
    groups
}

fn report_duplicate_src_ids(
    groups: &Vec<(String, Vec<((String, String), SourceLocation)>)>,
    Ghost(entries): Ghost<Seq<(Seq<char>, (Seq<char>, Seq<char>), SourceLocation)>>,
    diagnostics: &mut Vec<Diagnostic>,
)
    requires
        src_groups_ok(groups@, entries),
    ensures
        diag_views(final(diagnostics)@) == diag_views(old(diagnostics)@) + duplicate_src_reports(
            entries,
            declared_src_ids(entries),
        ),
{
    let ghost keys = declared_src_ids(entries);
    let ghost base = diag_views(diagnostics@);
    let mut g: usize = 0;
    while g < groups.len()
        invariant
            g <= groups@.len(),
            groups@.len() == keys.len(),
            keys == declared_src_ids(entries),
            forall|h: int|
                0 <= h < groups@.len() ==> encode_utf8(#[trigger] groups@[h].0@) == keys[h]
                    && entry_views(groups@[h].1@) == entries_for(entries, keys[h]),
            base == diag_views(old(diagnostics)@),
            diag_views(diagnostics@) == base + duplicate_src_reports(entries, keys.take(g as int)),
        decreases groups.len() - g,
    {
        let ghost kt = keys.take(g as int + 1);
        assert(kt.drop_last() =~= keys.take(g as int));
        assert(kt.last() == keys[g as int]);
        let id = &groups[g].0;
        let values = &groups[g].1;
        proof {
            vstd::utf8::encode_utf8_decode_utf8(id@);
            assert(entry_views(values@).len() == values@.len());
        }
        if values.len() > 1 {
            let mut message = String::new();
            push_text(&mut message, "permanent SRC ID `");
            push_text(&mut message, id.as_str());
            push_text(&mut message, "` is declared by ");
            push_decimal(&mut message, values.len() as u64);
            push_text(&mut message, " Source Targets");
            assert(message@ =~= duplicate_src_message(id@, values@.len()));
            assert(entry_views(values@)[0].1 == values@[0].1);
            let d = Diagnostic::error("E-SCAN-011", message).with_location(values[0].1.duplicate());
            let ghost before = diagnostics@;
            diagnostics.push(d);
            assert(diag_views(diagnostics@) =~= diag_views(before).push(diag_view(d)));
        }
        g = g + 1;
    }
    assert(keys.take(g as int) =~= keys);
}

fn count_locator(sources: &Vec<SourceFunction>, adapter: &str, value: &str) -> (n: usize)
    ensures
        n == locator_count(sources@, (adapter@, value@)),
{
    let mut n: usize = 0;
    let mut i: usize = 0;
    while i < sources.len()
        invariant
            i <= sources@.len(),
            n == locator_count(sources@.take(i as int), (adapter@, value@)),
            n <= i,
        decreases sources.len() - i,
    {
        let ghost t = sources@.take(i as int + 1);
        assert(t.drop_last() =~= sources@.take(i as int));
        assert(t.last() == sources@[i as int]);
        if text_eq(sources[i].locator.adapter.as_str(), adapter) && text_eq(sources[i].locator.value.as_str(), value) {
            n = n + 1;
        }
        i = i + 1;
    }
    assert(sources@.take(i as int) =~= sources@);
    n
}

proof fn lemma_entries_for_absent(entries: Seq<(Seq<char>, (Seq<char>, Seq<char>), SourceLocation)>, k: Seq<u8>)
    requires
        !declared_src_ids(entries).contains(k),
    ensures
        entries_for(entries, k).len() == 0,
    decreases entries.len(),
{
    broadcast use vstd::seq_lib::group_to_multiset_ensures;
    let keys = entries.map_values(|e: (Seq<char>, (Seq<char>, Seq<char>), SourceLocation)| encode_utf8(e.0));
    let fo = crate::subject_hash::first_occurrences(keys);
    crate::hash_laws::lemma_sorted_set_members(fo);
    crate::subject_laws::lemma_first_occurrences_members(keys);
    assert(!keys.contains(k));
    lemma_entries_for_absent_keys(entries, k);
}

proof fn lemma_entries_for_absent_keys(entries: Seq<(Seq<char>, (Seq<char>, Seq<char>), SourceLocation)>, k: Seq<u8>)
    requires
        !entries.map_values(|e: (Seq<char>, (Seq<char>, Seq<char>), SourceLocation)| encode_utf8(e.0)).contains(k),
    ensures
        entries_for(entries, k).len() == 0,
    decreases entries.len(),
{
    if entries.len() > 0 {
        let keys = entries.map_values(|e: (Seq<char>, (Seq<char>, Seq<char>), SourceLocation)| encode_utf8(e.0));
        let rest = entries.drop_last().map_values(|e: (Seq<char>, (Seq<char>, Seq<char>), SourceLocation)| encode_utf8(e.0));
        if rest.contains(k) {
            let i = choose|i: int| 0 <= i < rest.len() && rest[i] == k;
            assert(keys[i] == k);
        }
        assert(keys[entries.len() - 1] == encode_utf8(entries.last().0));
        lemma_entries_for_absent_keys(entries.drop_last(), k);
    }
}

fn lookup_src_id<'a>(
    groups: &'a Vec<(String, Vec<((String, String), SourceLocation)>)>,
    id: &str,
    Ghost(entries): Ghost<Seq<(Seq<char>, (Seq<char>, Seq<char>), SourceLocation)>>,
) -> (r: Option<&'a Vec<((String, String), SourceLocation)>>)
    requires
        src_groups_ok(groups@, entries),
    ensures
        match r {
            None => entries_for(entries, encode_utf8(id@)).len() == 0,
            Some(v) => entry_views(v@) == entries_for(entries, encode_utf8(id@)),
        },
{
    let ghost keys = declared_src_ids(entries);
    let mut g: usize = 0;
    while g < groups.len()
        invariant
            g <= groups@.len(),
            groups@.len() == keys.len(),
            keys == declared_src_ids(entries),
            forall|h: int|
                0 <= h < groups@.len() ==> encode_utf8(#[trigger] groups@[h].0@) == keys[h]
                    && entry_views(groups@[h].1@) == entries_for(entries, keys[h]),
            forall|h: int| 0 <= h < g ==> keys[h] != encode_utf8(id@),
        decreases groups.len() - g,
    {
        if crate::order::bytes_equal(groups[g].0.as_str().as_bytes(), id.as_bytes()) {
            return Some(&groups[g].1);
        }
        assert(encode_utf8(groups@[g as int].0@) == keys[g as int]);
        g = g + 1;
    }
    proof {
        if keys.contains(encode_utf8(id@)) {
            let h = choose|h: int| 0 <= h < keys.len() && keys[h] == encode_utf8(id@);
            assert(false);
        }
        lemma_entries_for_absent(entries, encode_utf8(id@));
    }
    None
}

fn locator_key_of(adapter: &str, value: &str) -> (k: (String, String))
    ensures
        (k.0@, k.1@) == (adapter@, value@),
{
    (adapter.to_owned(), value.to_owned())
}

/// The views of resolved (spelling, locator) pairs.
pub open spec fn resolved_views(v: Seq<(String, (String, String))>) -> Seq<(Seq<char>, (Seq<char>, Seq<char>))> {
    v.map_values(|r: (String, (String, String))| (r.0@, (r.1.0@, r.1.1@)))
}

fn resolve_test_targets(
    test: &TestEntity,
    sources: &Vec<SourceFunction>,
    groups: &Vec<(String, Vec<((String, String), SourceLocation)>)>,
    diagnostics: &mut Vec<Diagnostic>,
) -> (resolved: Vec<(String, (String, String))>)
    requires
        src_groups_ok(groups@, src_id_entries(sources@)),
    ensures
        resolved_views(resolved@) == resolved_targets(sources@, test.targets@),
        diag_views(final(diagnostics)@) == diag_views(old(diagnostics)@) + unresolved_reports(
            sources@,
            *test,
            test.targets@,
        ),
{
    let ghost entries = src_id_entries(sources@);
    let ghost base = diag_views(diagnostics@);
    let mut resolved: Vec<(String, (String, String))> = Vec::new();
    let mut i: usize = 0;
    while i < test.targets.len()
        invariant
            i <= test.targets@.len(),
            entries == src_id_entries(sources@),
            src_groups_ok(groups@, entries),
            base == diag_views(old(diagnostics)@),
            resolved_views(resolved@) == resolved_targets(sources@, test.targets@.take(i as int)),
            diag_views(diagnostics@) == base + unresolved_reports(sources@, *test, test.targets@.take(i as int)),
        decreases test.targets.len() - i,
    {
        let ghost t = test.targets@.take(i as int + 1);
        assert(t.drop_last() =~= test.targets@.take(i as int));
        assert(t.last() == test.targets@[i as int]);
        let ghost before_r = resolved@;
        let ghost before_d = diagnostics@;
        let mut unresolved: Option<&str> = None;
        match &test.targets[i] {
            TargetRef::Locator(locator) => {
                let n = count_locator(sources, locator.adapter.as_str(), locator.value.as_str());
                if n == 1 {
                    let key = locator_key_of(locator.adapter.as_str(), locator.value.as_str());
                    resolved.push((locator.value.clone(), key));
                    assert(resolved_views(resolved@) =~= resolved_views(before_r).push((locator.value@, (locator.adapter@, locator.value@))));
                } else {
                    unresolved = Some(locator.value.as_str());
                }
            },
            TargetRef::SrcId(id) => {
                match lookup_src_id(groups, id.as_str(), Ghost(entries)) {
                    Some(values) => {
                        if values.len() == 1 {
                            let key = (values[0].0.0.clone(), values[0].0.1.clone());
                            assert(entry_views(values@)[0] == ((values@[0].0.0@, values@[0].0.1@), values@[0].1));
                            resolved.push((id.as_str().to_owned(), key));
                            assert(resolved_views(resolved@) =~= resolved_views(before_r).push((id@, (key.0@, key.1@))));
                        } else if values.len() == 0 {
                            unresolved = Some(id.as_str());
                        }
                    },
                    None => {
                        unresolved = Some(id.as_str());
                    },
                }
            },
        }
        match unresolved {
            Some(spelling) => {
                let mut message = String::new();
                push_text(&mut message, "test `");
                push_text(&mut message, test.id.as_str());
                push_text(&mut message, "` target `");
                push_text(&mut message, spelling);
                push_text(&mut message, "` cannot be resolved");
                assert(message@ =~= unresolved_message(test.id@, spelling@));
                let d = Diagnostic::error("E-SCAN-004", message).with_location(test.location.duplicate());
                diagnostics.push(d);
                assert(diag_views(diagnostics@) =~= diag_views(before_d).push(diag_view(d)));
            },
            None => {},
        }
        assert(resolved_views(resolved@) =~= resolved_targets(sources@, t));
        assert(diag_views(diagnostics@) =~= base + unresolved_reports(sources@, *test, t));
        i = i + 1;
    }
    assert(test.targets@.take(i as int) =~= test.targets@);
    resolved
}

fn report_same_targets(test: &TestEntity, resolved: &Vec<(String, (String, String))>, diagnostics: &mut Vec<Diagnostic>)
    ensures
        diag_views(final(diagnostics)@) == diag_views(old(diagnostics)@) + same_target_reports(
            *test,
            resolved_views(resolved@),
        ),
{
    let ghost rv = resolved_views(resolved@);
    let ghost base = diag_views(diagnostics@);
    let mut seen: Vec<(&str, &str, &str)> = Vec::new();
    let mut i: usize = 0;
    while i < resolved.len()
        invariant
            i <= resolved@.len(),
            rv == resolved_views(resolved@),
            base == diag_views(old(diagnostics)@),
            diag_views(diagnostics@) == base + same_target_reports(*test, rv.take(i as int)),
            forall|k: (Seq<char>, Seq<char>)| #![trigger first_spelling(rv.take(i as int), k)]
                first_spelling(rv.take(i as int), k) is Some <==> exists|j: int|
                    0 <= j < seen@.len() && (seen@[j].0@, seen@[j].1@) == k,
            forall|j: int|
                0 <= j < seen@.len() ==> first_spelling(rv.take(i as int), (#[trigger] seen@[j].0@, seen@[j].1@))
                    == Some(seen@[j].2@),
        decreases resolved.len() - i,
    {
        let spelling = resolved[i].0.as_str();
        let adapter = resolved[i].1.0.as_str();
        let value = resolved[i].1.1.as_str();
        let ghost key = (adapter@, value@);
        let ghost t = rv.take(i as int + 1);
        assert(t.drop_last() =~= rv.take(i as int));
        assert(t.last() == (spelling@, key));
        let mut j: usize = 0;
        let mut found: Option<&str> = None;
        while j < seen.len() && found.is_none()
            invariant
                j <= seen@.len(),
                key == (adapter@, value@),
                found matches Some(p) ==> exists|h: int| 0 <= h < seen@.len() && (seen@[h].0@, seen@[h].1@) == key && seen@[h].2@ == p@,
                found is None ==> forall|h: int| 0 <= h < j ==> (seen@[h].0@, seen@[h].1@) != key,
            decreases seen@.len() - j + (if found is None { 1int } else { 0int }),
        {
            if text_eq(seen[j].0, adapter) && text_eq(seen[j].1, value) {
                assert((seen@[j as int].0@, seen@[j as int].1@) == key);
                found = Some(seen[j].2);
            } else {
                j = j + 1;
            }
        }
        let ghost before_seen = seen@;
        match found {
            Some(previous) => {
                proof {
                    let h = choose|h: int| 0 <= h < seen@.len() && (seen@[h].0@, seen@[h].1@) == key && seen@[h].2@ == previous@;
                    assert(first_spelling(rv.take(i as int), (seen@[h].0@, seen@[h].1@)) == Some(seen@[h].2@));
                }
                if !text_eq(previous, spelling) {
                    let mut message = String::new();
                    push_text(&mut message, "test `");
                    push_text(&mut message, test.id.as_str());
                    push_text(&mut message, "` declares multiple targets (`");
                    push_text(&mut message, previous);
                    push_text(&mut message, "`, `");
                    push_text(&mut message, spelling);
                    push_text(&mut message, "`) that resolve to the same Source Target `");
                    push_text(&mut message, adapter);
                    push_text(&mut message, "::");
                    push_text(&mut message, value);
                    push_text(&mut message, "`");
                    assert(message@ =~= same_target_message(test.id@, previous@, spelling@, key));
                    let d = Diagnostic::error("E-SCAN-005", message).with_location(test.location.duplicate());
                    let ghost before = diagnostics@;
                    diagnostics.push(d);
                    assert(diag_views(diagnostics@) =~= diag_views(before).push(diag_view(d)));
                }
            },
            None => {
                proof {
                    if first_spelling(rv.take(i as int), key) is Some {
                        let h = choose|h: int| 0 <= h < seen@.len() && (seen@[h].0@, seen@[h].1@) == key;
                        assert(false);
                    }
                }
                seen.push((adapter, value, spelling));
            },
        }
        proof {
            assert forall|k: (Seq<char>, Seq<char>)| #![trigger first_spelling(t, k)]
                first_spelling(t, k) is Some <==> exists|h: int|
                    0 <= h < seen@.len() && (seen@[h].0@, seen@[h].1@) == k by {
                if first_spelling(rv.take(i as int), k) is Some {
                    let h = choose|h: int| 0 <= h < before_seen.len() && (before_seen[h].0@, before_seen[h].1@) == k;
                    assert(seen@[h] == before_seen[h]);
                }
                if k == key && first_spelling(rv.take(i as int), k) is None {
                    assert(seen@[seen@.len() - 1] == (adapter, value, spelling));
                }
                if exists|h: int| 0 <= h < seen@.len() && (seen@[h].0@, seen@[h].1@) == k {
                    let h = choose|h: int| 0 <= h < seen@.len() && (seen@[h].0@, seen@[h].1@) == k;
                    if h < before_seen.len() {
                        assert(before_seen[h] == seen@[h]);
                    }
                }
            }
            assert forall|h: int| 0 <= h < seen@.len() implies first_spelling(t, (#[trigger] seen@[h].0@, seen@[h].1@))
                == Some(seen@[h].2@) by {
                if h < before_seen.len() {
                    assert(before_seen[h] == seen@[h]);
                    assert(first_spelling(rv.take(i as int), (before_seen[h].0@, before_seen[h].1@)) == Some(before_seen[h].2@));
                }
            }
        }
        assert(diag_views(diagnostics@) =~= base + same_target_reports(*test, t));
        i = i + 1;
    }
    assert(rv.take(i as int) =~= rv);
}

/// Resolves every declared target (see `resolution_reports`): reports each
/// permanent SRC ID declared by more than one source target
/// (`E-SCAN-011`), each target that resolves to no single source target
/// (`E-SCAN-004`; a reference to a duplicated SRC ID is left unresolved
/// without a second report), and each target that reaches a source target
/// already reached by the same test under another spelling (`E-SCAN-005`).
pub fn resolve_targets(tests: &Vec<TestEntity>, sources: &Vec<SourceFunction>) -> (out: Vec<Diagnostic>)
    ensures
        diag_views(out@) == resolution_reports(tests@, sources@),
{
    let mut diagnostics: Vec<Diagnostic> = Vec::new();
    let groups = src_id_groups(sources);
    report_duplicate_src_ids(&groups, Ghost(src_id_entries(sources@)), &mut diagnostics);
    let ghost mid = diag_views(diagnostics@);
    let mut i: usize = 0;
    while i < tests.len()
        invariant
            i <= tests@.len(),
            src_groups_ok(groups@, src_id_entries(sources@)),
            diag_views(diagnostics@) == mid + target_reports(sources@, tests@.take(i as int)),
        decreases tests.len() - i,
    {
        let ghost t = tests@.take(i as int + 1);
        assert(t.drop_last() =~= tests@.take(i as int));
        assert(t.last() == tests@[i as int]);
        let resolved = resolve_test_targets(&tests[i], sources, &groups, &mut diagnostics);
        report_same_targets(&tests[i], &resolved, &mut diagnostics);
        assert(diag_views(diagnostics@) =~= mid + target_reports(sources@, t));
        i = i + 1;
    }
    assert(tests@.take(i as int) =~= tests@);
    diagnostics
}

} // verus!
