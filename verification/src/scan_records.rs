//! The record layer of the scan for verification objectives: explicit
//! combinations against the declared dimensions, parents, isolated and
//! non-leaf objectives, and upstream references.

use vstd::prelude::*;
use vstd::utf8::encode_utf8;

use crate::diagnostic::{Diagnostic, DiagnosticSeverity};
use crate::scan::{contains_string, diag_view, diag_views};
use crate::scan_documents::join_with;
use crate::source::SourceLocation;
use crate::subject_hash::first_occurrences;
use crate::text::{push_text, text_eq};
use crate::test_entity::TestEntity;
use crate::scan::located_error;
use crate::scan_documents::unlocated_error;
use crate::vo::{pair_names, repeated_names, CombinationEntry, CoveragePolicy, Dimension, VoRecord};

verus! {

/// The partitions of the last declared dimension with this name, if any.
pub open spec fn partitions_for(dims: Seq<Dimension>, name: Seq<char>) -> Option<Seq<Seq<char>>>
    decreases dims.len(),
{
    if dims.len() == 0 {
        None
    } else if dims.last().name@ == name {
        Some(dims.last().partitions@.map_values(|p: String| p@))
    } else {
        partitions_for(dims.drop_last(), name)
    }
}

/// The number of distinct dimension names.
pub open spec fn dimension_name_count(dims: Seq<Dimension>) -> nat {
    first_occurrences(dims.map_values(|d: Dimension| encode_utf8(d.name@))).len()
}

/// The first problem among a combination's pairs, in declared order: an
/// undeclared dimension, or a partition its dimension does not declare.
pub open spec fn pairs_problem(pairs: Seq<(Seq<char>, Seq<char>)>, dims: Seq<Dimension>) -> Option<Seq<char>>
    decreases pairs.len(),
{
    if pairs.len() == 0 {
        None
    } else {
        let earlier = pairs_problem(pairs.drop_last(), dims);
        if earlier is Some {
            earlier
        } else {
            let (name, value) = pairs.last();
            match partitions_for(dims, name) {
                None => Some("has a combination with undeclared dimension `"@ + name + "`"@),
                Some(parts) => if parts.contains(value) {
                    None
                } else {
                    Some(
                        "has a combination with undeclared partition `"@ + value
                            + "` for dimension `"@ + name + "`"@,
                    )
                },
            }
        }
    }
}

/// The problem with one combination taken alone, if any.
pub open spec fn entry_problem(e: CombinationEntry, dims: Seq<Dimension>) -> Option<Seq<char>> {
    let dups = repeated_names(pair_names(e@));
    if dups.len() > 0 {
        Some(
            "has a combination that declares dimension `"@ + join_with(dups, "`, `"@)
                + "` more than once"@,
        )
    } else if e@.len() != dimension_name_count(dims) {
        Some("has a combination missing a declared dimension"@)
    } else {
        pairs_problem(e@, dims)
    }
}

/// The first problem among the combinations, in order: a combination's
/// own problem, or a combination equal (as a multiset of pairs) to an
/// earlier one.
pub open spec fn combinations_problem(combos: Seq<CombinationEntry>, dims: Seq<Dimension>) -> Option<Seq<char>>
    decreases combos.len(),
{
    if combos.len() == 0 {
        None
    } else {
        let earlier = combinations_problem(combos.drop_last(), dims);
        if earlier is Some {
            earlier
        } else if entry_problem(combos.last(), dims) is Some {
            entry_problem(combos.last(), dims)
        } else if exists|j: int|
            0 <= j < combos.len() - 1 && combos[j]@.to_multiset() =~= combos.last()@.to_multiset() {
            Some("has duplicate explicit combinations"@)
        } else {
            None
        }
    }
}

/// What is wrong with a record's explicit combinations, if anything.
pub open spec fn combination_problem(r: VoRecord) -> Option<Seq<char>> {
    if r.coverage_policy != Some(CoveragePolicy::Explicit) {
        if r.combinations@.len() > 0 {
            Some("has combinations but coverage_policy is not `explicit`"@)
        } else {
            None
        }
    } else if r.combinations@.len() == 0 {
        Some("explicit coverage_policy requires at least one combination"@)
    } else if r.dimensions@.len() == 0 {
        Some("explicit coverage_policy requires at least one dimension"@)
    } else {
        combinations_problem(r.combinations@, r.dimensions@)
    }
}

fn partitions_of<'a>(dims: &'a Vec<Dimension>, name: &str) -> (r: Option<&'a Vec<String>>)
    ensures
        match r {
            None => partitions_for(dims@, name@) is None,
            Some(p) => partitions_for(dims@, name@) == Some(p@.map_values(|s: String| s@)),
        },
{
    let mut i: usize = dims.len();
    assert(dims@.take(i as int) =~= dims@);
    while i > 0
        invariant
            i <= dims@.len(),
            partitions_for(dims@, name@) == partitions_for(dims@.take(i as int), name@),
        decreases i,
    {
        let ghost t = dims@.take(i as int);
        assert(t.drop_last() =~= dims@.take(i as int - 1));
        assert(t.last() == dims@[i as int - 1]);
        if text_eq(dims[i - 1].name.as_str(), name) {
            return Some(&dims[i - 1].partitions);
        }
        i = i - 1;
    }
    assert(dims@.take(0) =~= Seq::<Dimension>::empty());
    None
}

fn count_dimension_names(dims: &Vec<Dimension>) -> (n: usize)
    ensures
        n == dimension_name_count(dims@),
{
    let ghost keys = dims@.map_values(|d: Dimension| encode_utf8(d.name@));
    let mut seen: Vec<&str> = Vec::new();
    let mut i: usize = 0;
    while i < dims.len()
        invariant
            i <= dims@.len(),
            keys == dims@.map_values(|d: Dimension| encode_utf8(d.name@)),
            seen@.map_values(|s: &str| encode_utf8(s@)) == first_occurrences(keys.take(i as int)),
        decreases dims.len() - i,
    {
        let name = dims[i].name.as_str();
        let ghost t = keys.take(i as int + 1);
        assert(t.drop_last() =~= keys.take(i as int));
        assert(t.last() == encode_utf8(name@));
        let mut present = false;
        let mut j: usize = 0;
        let ghost sv = seen@.map_values(|s: &str| encode_utf8(s@));
        while j < seen.len()
            invariant
                j <= seen@.len(),
                sv == seen@.map_values(|s: &str| encode_utf8(s@)),
                present == sv.take(j as int).contains(encode_utf8(name@)),
            decreases seen.len() - j,
        {
            let same = text_eq(seen[j], name);
            let ghost prev = sv.take(j as int);
            let ghost next = sv.take(j as int + 1);
            assert(next =~= prev.push(sv[j as int]));
            proof {
                let x = encode_utf8(name@);
                if same {
                    assert(next[j as int] == x);
                } else if !present {
                    vstd::utf8::encode_utf8_decode_utf8(seen@[j as int]@);
                    vstd::utf8::encode_utf8_decode_utf8(name@);
                    assert forall|k: int| 0 <= k < next.len() implies next[k] != x by {
                        if k < j {
                            assert(next[k] == prev[k]);
                        }
                    }
                } else {
                    let k = choose|k: int| 0 <= k < prev.len() && prev[k] == x;
                    assert(next[k] == x);
                }
            }
            present = present || same;
            j = j + 1;
        }
        assert(sv.take(j as int) =~= sv);
        if !present {
            let ghost before = seen@;
            seen.push(name);
            assert(seen@.map_values(|s: &str| encode_utf8(s@)) =~= before.map_values(
                |s: &str| encode_utf8(s@),
            ).push(encode_utf8(name@)));
        }
        i = i + 1;
    }
    assert(keys.take(i as int) =~= keys);
    seen.len()
}

pub(crate) fn join_strs(items: &Vec<&str>, sep: &str) -> (out: String)
    ensures
        out@ == join_with(items@.map_values(|s: &str| s@), sep@),
{
    let ghost views = items@.map_values(|s: &str| s@);
    let mut out = String::new();
    let mut i: usize = 0;
    while i < items.len()
        invariant
            i <= items@.len(),
            views == items@.map_values(|s: &str| s@),
            out@ == join_with(views.take(i as int), sep@),
        decreases items.len() - i,
    {
        let ghost t = views.take(i as int + 1);
        assert(t.drop_last() =~= views.take(i as int));
        if i > 0 {
            push_text(&mut out, sep);
        }
        push_text(&mut out, items[i]);
        if i == 0 {
            assert(out@ =~= t[0]);
        }
        i = i + 1;
    }
    assert(views.take(i as int) =~= views);
    out
}

fn check_pairs(pairs: &Vec<(&str, &str)>, dims: &Vec<Dimension>) -> (r: Option<String>)
    ensures
        match r {
            None => pairs_problem(pairs@.map_values(|p: (&str, &str)| (p.0@, p.1@)), dims@) is None,
            Some(m) => pairs_problem(pairs@.map_values(|p: (&str, &str)| (p.0@, p.1@)), dims@) == Some(m@),
        },
{
    let ghost views = pairs@.map_values(|p: (&str, &str)| (p.0@, p.1@));
    let mut i: usize = 0;
    while i < pairs.len()
        invariant
            i <= pairs@.len(),
            views == pairs@.map_values(|p: (&str, &str)| (p.0@, p.1@)),
            pairs_problem(views.take(i as int), dims@) is None,
        decreases pairs.len() - i,
    {
        let (name, value) = pairs[i];
        let ghost t = views.take(i as int + 1);
        assert(t.drop_last() =~= views.take(i as int));
        assert(t.last() == (name@, value@));
        match partitions_of(dims, name) {
            None => {
                let mut m = String::new();
                push_text(&mut m, "has a combination with undeclared dimension `");
                push_text(&mut m, name);
                push_text(&mut m, "`");
                assert(views.take(i as int + 1) =~= views.take(i as int).push((name@, value@)));
                proof {
                    lemma_pairs_problem_prefix(views, i as int + 1, dims@);
                }
                assert(m@ =~= "has a combination with undeclared dimension `"@ + name@ + "`"@);
                return Some(m);
            },
            Some(parts) => {
                if !contains_string(parts, value) {
                    let mut m = String::new();
                    push_text(&mut m, "has a combination with undeclared partition `");
                    push_text(&mut m, value);
                    push_text(&mut m, "` for dimension `");
                    push_text(&mut m, name);
                    push_text(&mut m, "`");
                    proof {
                        lemma_pairs_problem_prefix(views, i as int + 1, dims@);
                    }
                    assert(m@ =~= "has a combination with undeclared partition `"@ + value@
                        + "` for dimension `"@ + name@ + "`"@);
                    return Some(m);
                }
            },
        }
        i = i + 1;
    }
    assert(views.take(i as int) =~= views);
    None
}

proof fn lemma_pairs_problem_prefix(pairs: Seq<(Seq<char>, Seq<char>)>, n: int, dims: Seq<Dimension>)
    requires
        0 <= n <= pairs.len(),
        pairs_problem(pairs.take(n), dims) is Some,
    ensures
        pairs_problem(pairs, dims) == pairs_problem(pairs.take(n), dims),
    decreases pairs.len() - n,
{
    if n < pairs.len() {
        assert(pairs.take(n + 1).drop_last() =~= pairs.take(n));
        lemma_pairs_problem_prefix(pairs, n + 1, dims);
    } else {
        assert(pairs.take(n) =~= pairs);
    }
}

proof fn lemma_combinations_problem_prefix(combos: Seq<CombinationEntry>, n: int, dims: Seq<Dimension>)
    requires
        0 <= n <= combos.len(),
        combinations_problem(combos.take(n), dims) is Some,
    ensures
        combinations_problem(combos, dims) == combinations_problem(combos.take(n), dims),
    decreases combos.len() - n,
{
    if n < combos.len() {
        assert(combos.take(n + 1).drop_last() =~= combos.take(n));
        lemma_combinations_problem_prefix(combos, n + 1, dims);
    } else {
        assert(combos.take(n) =~= combos);
    }
}

fn check_entry(entry: &CombinationEntry, dims: &Vec<Dimension>, dimension_count: usize) -> (r: Option<String>)
    requires
        dimension_count == dimension_name_count(dims@),
    ensures
        match r {
            None => entry_problem(*entry, dims@) is None,
            Some(m) => entry_problem(*entry, dims@) == Some(m@),
        },
{
    let duplicates = entry.duplicate_dimension_names();
    if duplicates.len() > 0 {
        let joined = join_strs(&duplicates, "`, `");
        let mut m = String::new();
        push_text(&mut m, "has a combination that declares dimension `");
        push_text(&mut m, joined.as_str());
        push_text(&mut m, "` more than once");
        assert(m@ =~= "has a combination that declares dimension `"@ + join_with(
            repeated_names(pair_names(entry@)),
            "`, `"@,
        ) + "` more than once"@);
        return Some(m);
    }
    if entry.len() != dimension_count {
        return Some("has a combination missing a declared dimension".to_owned());
    }
    let pairs = entry.iter();
    assert(pairs@.map_values(|p: (&str, &str)| (p.0@, p.1@)) =~= entry@);
    check_pairs(&pairs, dims)
}

/// What is wrong with a record's explicit combinations (`E-SCAN-017`), if
/// anything: combinations under a policy other than `explicit`, an
/// `explicit` policy without combinations or without dimensions, or the
/// first combination (in order) that repeats a dimension, misses one,
/// names an undeclared dimension or partition, or repeats an earlier
/// combination.
pub fn invalid_vo_combinations(record: &VoRecord) -> (r: Option<String>)
    ensures
        match r {
            None => combination_problem(*record) is None,
            Some(m) => combination_problem(*record) == Some(m@),
        },
{
    let explicit = match record.coverage_policy {
        Some(CoveragePolicy::Explicit) => true,
        _ => false,
    };
    if !explicit {
        if record.combinations.len() > 0 {
            return Some("has combinations but coverage_policy is not `explicit`".to_owned());
        }
        return None;
    }
    if record.combinations.len() == 0 {
        return Some("explicit coverage_policy requires at least one combination".to_owned());
    }
    if record.dimensions.len() == 0 {
        return Some("explicit coverage_policy requires at least one dimension".to_owned());
    }
    let dimension_count = count_dimension_names(&record.dimensions);
    let ghost combos = record.combinations@;
    let ghost dims = record.dimensions@;
    let mut i: usize = 0;
    while i < record.combinations.len()
        invariant
            i <= combos.len(),
            combos == record.combinations@,
            dims == record.dimensions@,
            dimension_count == dimension_name_count(dims),
            record.coverage_policy == Some(CoveragePolicy::Explicit),
            combos.len() > 0,
            dims.len() > 0,
            combinations_problem(combos.take(i as int), dims) is None,
        decreases record.combinations.len() - i,
    {
        let entry = &record.combinations[i];
        let ghost t = combos.take(i as int + 1);
        assert(t.drop_last() =~= combos.take(i as int));
        assert(t.last() == combos[i as int]);
        match check_entry(entry, &record.dimensions, dimension_count) {
            Some(m) => {
                proof {
                    assert(entry_problem(t.last(), dims) == Some(m@));
                    assert(combinations_problem(t, dims) == Some(m@));
                    lemma_combinations_problem_prefix(combos, i as int + 1, dims);
                    assert(combination_problem(*record) == combinations_problem(combos, dims));
                }
                return Some(m);
            },
            None => {},
        }
        let mut j: usize = 0;
        while j < i
            invariant
                j <= i,
                i < combos.len(),
                combos == record.combinations@,
                *entry == combos[i as int],
                t == combos.take(i as int + 1),
                t.drop_last() == combos.take(i as int),
                t.last() == *entry,
                dims == record.dimensions@,
                record.coverage_policy == Some(CoveragePolicy::Explicit),
                combos.len() > 0,
                dims.len() > 0,
                combinations_problem(combos.take(i as int), dims) is None,
                entry_problem(*entry, dims) is None,
                forall|k: int| 0 <= k < j ==> !(combos[k]@.to_multiset() =~= entry@.to_multiset()),
            decreases i - j,
        {
            if record.combinations[j].same_pairs(entry) {
                proof {
                    assert(t[j as int] == combos[j as int]);
                    assert(t.last() == *entry);
                    assert(t[j as int]@.to_multiset() =~= t.last()@.to_multiset());
                    assert(combinations_problem(t, dims) == Some("has duplicate explicit combinations"@));
                    lemma_combinations_problem_prefix(combos, i as int + 1, dims);
                    assert(combination_problem(*record) == combinations_problem(combos, dims));
                }
                return Some("has duplicate explicit combinations".to_owned());
            }
            j = j + 1;
        }
        proof {
            assert forall|k: int| 0 <= k < t.len() - 1 implies !(t[k]@.to_multiset() =~= t.last()@.to_multiset()) by {
                assert(t[k] == combos[k]);
            }
        }
        i = i + 1;
    }
    assert(combos.take(i as int) =~= combos);
    None
}

/// The repository-relative path of a verification objective record.
pub open spec fn vo_record_path(id: Seq<char>) -> Seq<char> {
    ".verify/vo/"@ + id + ".yaml"@
}

pub(crate) fn vo_path_of(id: &str) -> (p: String)
    ensures
        p@ == vo_record_path(id@),
{
    let mut p = String::new();
    push_text(&mut p, ".verify/vo/");
    push_text(&mut p, id);
    push_text(&mut p, ".yaml");
    assert(p@ =~= vo_record_path(id@));
    p
}

/// The report for a record whose combinations are invalid.
pub open spec fn combination_report(id: Seq<char>, problem: Seq<char>) -> (Seq<char>, DiagnosticSeverity, Seq<char>, Option<SourceLocation>) {
    unlocated_error("E-SCAN-017"@, "VO "@ + id + " "@ + problem + " ("@ + vo_record_path(id) + ")"@)
}

/// Reports `E-SCAN-017` for a record whose explicit combinations are
/// invalid (see `invalid_vo_combinations`).
pub fn check_vo_combinations(id: &str, record: &VoRecord, diagnostics: &mut Vec<Diagnostic>)
    ensures
        diag_views(final(diagnostics)@) == diag_views(old(diagnostics)@) + match combination_problem(*record) {
            Some(p) => seq![combination_report(id@, p)],
            None => Seq::empty(),
        },
{
    match invalid_vo_combinations(record) {
        Some(problem) => {
            let path = vo_path_of(id);
            let mut message = String::new();
            push_text(&mut message, "VO ");
            push_text(&mut message, id);
            push_text(&mut message, " ");
            push_text(&mut message, problem.as_str());
            push_text(&mut message, " (");
            push_text(&mut message, path.as_str());
            push_text(&mut message, ")");
            let d = Diagnostic::error("E-SCAN-017", message);
            let ghost before = diagnostics@;
            diagnostics.push(d);
            assert(diag_views(diagnostics@) =~= diag_views(before).push(diag_view(d)));
            assert(diag_view(d).2 =~= "VO "@ + id@ + " "@ + problem@ + " ("@ + vo_record_path(id@) + ")"@);
        },
        None => {
            assert(diag_views(diagnostics@) =~= diag_views(old(diagnostics)@) + Seq::empty());
        },
    }
}

/// The same diagnostic with `context` and a colon put before its message,
/// so that a record-layer finding names the record it came from.
pub fn annotate_record_diagnostic(diagnostic: Diagnostic, context: &str) -> (d: Diagnostic)
    ensures
        d.code == diagnostic.code,
        d.severity == diagnostic.severity,
        d.message@ == context@ + ": "@ + diagnostic.message@,
        d.candidates == diagnostic.candidates,
        d.location == diagnostic.location,
{
    let mut message = String::new();
    push_text(&mut message, context);
    push_text(&mut message, ": ");
    push_text(&mut message, diagnostic.message.as_str());
    let mut d = diagnostic;
    d.message = message;
    d
}

/// The reports for a record's upstream references that name no known
/// document node, in order.
pub open spec fn vo_reference_reports(id: Seq<char>, entries: Seq<crate::document::DerivesFrom>, known: Seq<Seq<char>>) -> Seq<
    (Seq<char>, DiagnosticSeverity, Seq<char>, Option<SourceLocation>),
>
    decreases entries.len(),
{
    if entries.len() == 0 {
        Seq::empty()
    } else {
        let earlier = vo_reference_reports(id, entries.drop_last(), known);
        let target = entries.last().doc@;
        if known.contains(target) {
            earlier
        } else {
            earlier.push(
                unlocated_error(
                    "E-SCAN-012"@,
                    "VO "@ + id + " derives_from missing node "@ + target + " ("@ + vo_record_path(id) + ")"@,
                ),
            )
        }
    }
}

/// The reports for every record, in order.
pub open spec fn vos_reference_reports(vos: Seq<(String, VoRecord)>, known: Seq<Seq<char>>) -> Seq<
    (Seq<char>, DiagnosticSeverity, Seq<char>, Option<SourceLocation>),
>
    decreases vos.len(),
{
    if vos.len() == 0 {
        Seq::empty()
    } else {
        vos_reference_reports(vos.drop_last(), known) + vo_reference_reports(
            vos.last().0@,
            vos.last().1.derives_from@,
            known,
        )
    }
}

/// Reports `E-SCAN-012` for each upstream reference of each record that
/// names no known document node.
pub fn validate_vo_document_references(
    vos: &Vec<(String, VoRecord)>,
    document_node_ids: &Vec<String>,
    diagnostics: &mut Vec<Diagnostic>,
)
    ensures
        diag_views(final(diagnostics)@) == diag_views(old(diagnostics)@) + vos_reference_reports(
            vos@,
            document_node_ids@.map_values(|t: String| t@),
        ),
{
    let ghost known = document_node_ids@.map_values(|t: String| t@);
    let ghost base = diag_views(diagnostics@);
    let mut i: usize = 0;
    while i < vos.len()
        invariant
            i <= vos@.len(),
            known == document_node_ids@.map_values(|t: String| t@),
            base == diag_views(old(diagnostics)@),
            diag_views(diagnostics@) == base + vos_reference_reports(vos@.take(i as int), known),
        decreases vos.len() - i,
    {
        let ghost t = vos@.take(i as int + 1);
        assert(t.drop_last() =~= vos@.take(i as int));
        assert(t.last() == vos@[i as int]);
        let id = vos[i].0.as_str();
        let record = &vos[i].1;
        let path = vo_path_of(id);
        let ghost mid = diag_views(diagnostics@);
        let mut j: usize = 0;
        while j < record.derives_from.len()
            invariant
                j <= record.derives_from@.len(),
                known == document_node_ids@.map_values(|t: String| t@),
                path@ == vo_record_path(id@),
                diag_views(diagnostics@) == mid + vo_reference_reports(id@, record.derives_from@.take(j as int), known),
            decreases record.derives_from.len() - j,
        {
            let ghost e = record.derives_from@.take(j as int + 1);
            assert(e.drop_last() =~= record.derives_from@.take(j as int));
            let target = record.derives_from[j].doc.as_str();
            if !contains_string(document_node_ids, target) {
                let mut message = String::new();
                push_text(&mut message, "VO ");
                push_text(&mut message, id);
                push_text(&mut message, " derives_from missing node ");
                push_text(&mut message, target);
                push_text(&mut message, " (");
                push_text(&mut message, path.as_str());
                push_text(&mut message, ")");
                let d = Diagnostic::error("E-SCAN-012", message);
                let ghost before = diagnostics@;
                diagnostics.push(d);
                assert(diag_views(diagnostics@) =~= diag_views(before).push(diag_view(d)));
                assert(diag_view(d).2 =~= "VO "@ + id@ + " derives_from missing node "@ + target@ + " ("@ + vo_record_path(id@) + ")"@);
            }
            assert(diag_views(diagnostics@) =~= mid + vo_reference_reports(id@, e, known));
            j = j + 1;
        }
        assert(record.derives_from@.take(j as int) =~= record.derives_from@);
        assert(diag_views(diagnostics@) =~= base + vos_reference_reports(t, known));
        i = i + 1;
    }
    assert(vos@.take(i as int) =~= vos@);
}

/// The ids named as some record's parent.
pub open spec fn parent_ids(vos: Seq<(String, VoRecord)>) -> Seq<Seq<char>>
    decreases vos.len(),
{
    if vos.len() == 0 {
        Seq::empty()
    } else {
        let earlier = parent_ids(vos.drop_last());
        match vos.last().1.parent {
            Some(p) => earlier.push(p@),
            None => earlier,
        }
    }
}

/// The objective ids the tests cover.
pub open spec fn covered_ids(tests: Seq<TestEntity>) -> Seq<Seq<char>>
    decreases tests.len(),
{
    if tests.len() == 0 {
        Seq::empty()
    } else {
        covered_ids(tests.drop_last()) + tests.last().covers@.map_values(|v: crate::ids::VoId| v@)
    }
}

/// `W-SCAN-102` for each record that is nobody's parent and that no test
/// covers, in order.
pub open spec fn isolated_reports(vos: Seq<(String, VoRecord)>, parents: Seq<Seq<char>>, covered: Seq<Seq<char>>) -> Seq<
    (Seq<char>, DiagnosticSeverity, Seq<char>, Option<SourceLocation>),
>
    decreases vos.len(),
{
    if vos.len() == 0 {
        Seq::empty()
    } else {
        let earlier = isolated_reports(vos.drop_last(), parents, covered);
        let id = vos.last().0@;
        if !parents.contains(id) && !covered.contains(id) {
            earlier.push(
                (
                    "W-SCAN-102"@,
                    DiagnosticSeverity::Warning,
                    "VO "@ + id + " is isolated and has no covering test ("@ + vo_record_path(id) + ")"@,
                    None,
                ),
            )
        } else {
            earlier
        }
    }
}

/// `W-SCAN-103` for each covered objective that is some record's parent,
/// for one test, in declared order.
pub open spec fn non_leaf_reports(t: TestEntity, covers: Seq<crate::ids::VoId>, parents: Seq<Seq<char>>) -> Seq<
    (Seq<char>, DiagnosticSeverity, Seq<char>, Option<SourceLocation>),
>
    decreases covers.len(),
{
    if covers.len() == 0 {
        Seq::empty()
    } else {
        let earlier = non_leaf_reports(t, covers.drop_last(), parents);
        let vo = covers.last()@;
        if parents.contains(vo) {
            earlier.push(
                (
                    "W-SCAN-103"@,
                    DiagnosticSeverity::Warning,
                    "test "@ + t.id@ + " covers non-leaf VO "@ + vo,
                    Some(t.location),
                ),
            )
        } else {
            earlier
        }
    }
}

/// The non-leaf reports for every test, in order.
pub open spec fn tests_non_leaf_reports(tests: Seq<TestEntity>, parents: Seq<Seq<char>>) -> Seq<
    (Seq<char>, DiagnosticSeverity, Seq<char>, Option<SourceLocation>),
>
    decreases tests.len(),
{
    if tests.len() == 0 {
        Seq::empty()
    } else {
        tests_non_leaf_reports(tests.drop_last(), parents) + non_leaf_reports(
            tests.last(),
            tests.last().covers@,
            parents,
        )
    }
}

fn collect_parent_ids(vos: &Vec<(String, VoRecord)>) -> (out: Vec<String>)
    ensures
        out@.map_values(|t: String| t@) == parent_ids(vos@),
{
    let mut out: Vec<String> = Vec::new();
    let mut i: usize = 0;
    while i < vos.len()
        invariant
            i <= vos@.len(),
            out@.map_values(|t: String| t@) == parent_ids(vos@.take(i as int)),
        decreases vos.len() - i,
    {
        let ghost t = vos@.take(i as int + 1);
        assert(t.drop_last() =~= vos@.take(i as int));
        assert(t.last() == vos@[i as int]);
        match &vos[i].1.parent {
            Some(p) => {
                let ghost before = out@;
                out.push(p.0.clone());
                assert(out@.map_values(|t: String| t@) =~= before.map_values(|t: String| t@).push(p@));
            },
            None => {},
        }
        i = i + 1;
    }
    assert(vos@.take(i as int) =~= vos@);
    out
}

fn collect_covered_ids(tests: &Vec<TestEntity>) -> (out: Vec<String>)
    ensures
        out@.map_values(|t: String| t@) == covered_ids(tests@),
{
    let mut out: Vec<String> = Vec::new();
    let mut i: usize = 0;
    while i < tests.len()
        invariant
            i <= tests@.len(),
            out@.map_values(|t: String| t@) == covered_ids(tests@.take(i as int)),
        decreases tests.len() - i,
    {
        let ghost t = tests@.take(i as int + 1);
        assert(t.drop_last() =~= tests@.take(i as int));
        assert(t.last() == tests@[i as int]);
        let ghost base = out@.map_values(|t: String| t@);
        let covers = &tests[i].covers;
        let mut j: usize = 0;
        while j < covers.len()
            invariant
                j <= covers@.len(),
                out@.map_values(|t: String| t@) == base + covers@.take(j as int).map_values(|v: crate::ids::VoId| v@),
            decreases covers.len() - j,
        {
            let ghost before = out@;
            out.push(covers[j].0.clone());
            assert(out@.map_values(|t: String| t@) =~= before.map_values(|t: String| t@).push(covers@[j as int]@));
            assert(covers@.take(j as int + 1).map_values(|v: crate::ids::VoId| v@) =~= covers@.take(j as int).map_values(|v: crate::ids::VoId| v@).push(covers@[j as int]@));
            j = j + 1;
        }
        assert(covers@.take(j as int) =~= covers@);
        i = i + 1;
    }
    assert(tests@.take(i as int) =~= tests@);
    out
}

/// Warns about records that are nobody's parent and covered by no test
/// (`W-SCAN-102`, record by record), then about tests covering a record
/// that is some record's parent (`W-SCAN-103`, test by test).
pub fn validate_vo_warnings(vos: &Vec<(String, VoRecord)>, tests: &Vec<TestEntity>, diagnostics: &mut Vec<Diagnostic>)
    ensures
        diag_views(final(diagnostics)@) == diag_views(old(diagnostics)@) + isolated_reports(
            vos@,
            parent_ids(vos@),
            covered_ids(tests@),
        ) + tests_non_leaf_reports(tests@, parent_ids(vos@)),
{
    let parents = collect_parent_ids(vos);
    let covered = collect_covered_ids(tests);
    let ghost pv = parent_ids(vos@);
    let ghost cv = covered_ids(tests@);
    let ghost base = diag_views(diagnostics@);
    let mut i: usize = 0;
    while i < vos.len()
        invariant
            i <= vos@.len(),
            parents@.map_values(|t: String| t@) == pv,
            covered@.map_values(|t: String| t@) == cv,
            base == diag_views(old(diagnostics)@),
            diag_views(diagnostics@) == base + isolated_reports(vos@.take(i as int), pv, cv),
        decreases vos.len() - i,
    {
        let ghost t = vos@.take(i as int + 1);
        assert(t.drop_last() =~= vos@.take(i as int));
        assert(t.last() == vos@[i as int]);
        let id = vos[i].0.as_str();
        if !contains_string(&parents, id) && !contains_string(&covered, id) {
            let path = vo_path_of(id);
            let mut message = String::new();
            push_text(&mut message, "VO ");
            push_text(&mut message, id);
            push_text(&mut message, " is isolated and has no covering test (");
            push_text(&mut message, path.as_str());
            push_text(&mut message, ")");
            let d = Diagnostic::warning("W-SCAN-102", message);
            let ghost before = diagnostics@;
            diagnostics.push(d);
            assert(diag_views(diagnostics@) =~= diag_views(before).push(diag_view(d)));
            assert(diag_view(d).2 =~= "VO "@ + id@ + " is isolated and has no covering test ("@ + vo_record_path(id@) + ")"@);
        }
        i = i + 1;
    }
    assert(vos@.take(i as int) =~= vos@);
    let ghost mid = diag_views(diagnostics@);
    let mut i: usize = 0;
    while i < tests.len()
        invariant
            i <= tests@.len(),
            parents@.map_values(|t: String| t@) == pv,
            diag_views(diagnostics@) == mid + tests_non_leaf_reports(tests@.take(i as int), pv),
        decreases tests.len() - i,
    {
        let ghost t = tests@.take(i as int + 1);
        assert(t.drop_last() =~= tests@.take(i as int));
        assert(t.last() == tests@[i as int]);
        let test = &tests[i];
        let ghost inner = diag_views(diagnostics@);
        let mut j: usize = 0;
        while j < test.covers.len()
            invariant
                j <= test.covers@.len(),
                parents@.map_values(|t: String| t@) == pv,
                diag_views(diagnostics@) == inner + non_leaf_reports(*test, test.covers@.take(j as int), pv),
            decreases test.covers.len() - j,
        {
            let ghost c = test.covers@.take(j as int + 1);
            assert(c.drop_last() =~= test.covers@.take(j as int));
            let vo = test.covers[j].as_str();
            if contains_string(&parents, vo) {
                let mut message = String::new();
                push_text(&mut message, "test ");
                push_text(&mut message, test.id.as_str());
                push_text(&mut message, " covers non-leaf VO ");
                push_text(&mut message, vo);
                assert(message@ =~= "test "@ + test.id@ + " covers non-leaf VO "@ + vo@);
                let d = Diagnostic::warning("W-SCAN-103", message).with_location(test.location.duplicate());
                let ghost before = diagnostics@;
                diagnostics.push(d);
                assert(diag_views(diagnostics@) =~= diag_views(before).push(diag_view(d)));
            }
            assert(diag_views(diagnostics@) =~= inner + non_leaf_reports(*test, c, pv));
            j = j + 1;
        }
        assert(test.covers@.take(j as int) =~= test.covers@);
        assert(diag_views(diagnostics@) =~= mid + tests_non_leaf_reports(t, pv));
        i = i + 1;
    }
    assert(tests@.take(i as int) =~= tests@);
}

/// Some entry is keyed `x`.
pub open spec fn has_key(parents: Seq<(String, Option<String>)>, x: Seq<char>) -> bool {
    exists|i: int| 0 <= i < parents.len() && parents[i].0@ == x
}

/// The parent named by the first entry keyed `x`, if it names one.
pub open spec fn parent_of(parents: Seq<(String, Option<String>)>, x: Seq<char>) -> Option<Seq<char>>
    decreases parents.len(),
{
    if parents.len() == 0 {
        None
    } else if parents[0].0@ == x {
        match parents[0].1 {
            Some(p) => Some(p@),
            None => None,
        }
    } else {
        parent_of(parents.drop_first(), x)
    }
}

/// The next record on the way up from `x`: its parent, when that parent is
/// itself a record.
pub open spec fn next_up(parents: Seq<(String, Option<String>)>, x: Seq<char>) -> Option<Seq<char>> {
    match parent_of(parents, x) {
        Some(p) => if has_key(parents, p) {
            Some(p)
        } else {
            None
        },
        None => None,
    }
}

/// The first position of `x` in `path`.
pub open spec fn position_in(path: Seq<Seq<char>>, x: Seq<char>) -> int {
    choose|i: int| 0 <= i < path.len() && path[i] == x && forall|j: int| 0 <= j < i ==> path[j] != x
}

/// Walking up from the end of `path` (at most `fuel` more steps): the cycle
/// reached, as the part of the walk from the first visit of the repeated
/// record, together with that record; none if the walk leaves the records.
pub open spec fn walk_up(parents: Seq<(String, Option<String>)>, path: Seq<Seq<char>>, fuel: nat) -> Option<
    (Seq<Seq<char>>, Seq<char>),
>
    decreases fuel,
{
    if fuel == 0 || path.len() == 0 {
        None
    } else {
        match next_up(parents, path.last()) {
            None => None,
            Some(n) => if path.contains(n) {
                Some((path.subrange(position_in(path, n), path.len() as int), n))
            } else {
                walk_up(parents, path.push(n), (fuel - 1) as nat)
            },
        }
    }
}

/// The cycle reached by walking up from `start`, if any.
pub open spec fn cycle_from(parents: Seq<(String, Option<String>)>, start: Seq<char>) -> Option<(Seq<Seq<char>>, Seq<char>)> {
    walk_up(parents, seq![start], parents.len() + 1)
}

/// A cycle's identity: its members sorted and joined with `|`.
pub open spec fn cycle_key(cycle: Seq<Seq<char>>) -> Seq<char> {
    join_with(crate::scan_documents::sorted_distinct(cycle), "|"@)
}

/// The record path of `id` under `directory`.
pub open spec fn record_path_in(directory: Seq<char>, id: Seq<char>) -> Seq<char> {
    directory + "/"@ + id + ".yaml"@
}

/// The reports for parents that are not records, entry by entry.
pub open spec fn missing_parent_reports(parents: Seq<(String, Option<String>)>, entries: Seq<(String, Option<String>)>, kind: Seq<char>, directory: Seq<char>) -> Seq<
    (Seq<char>, DiagnosticSeverity, Seq<char>, Option<SourceLocation>),
>
    decreases entries.len(),
{
    if entries.len() == 0 {
        Seq::empty()
    } else {
        let earlier = missing_parent_reports(parents, entries.drop_last(), kind, directory);
        let (id, parent) = entries.last();
        match parent {
            Some(p) => if has_key(parents, p@) {
                earlier
            } else {
                earlier.push(
                    unlocated_error(
                        "E-SCAN-008"@,
                        kind + " "@ + id@ + " references missing parent "@ + p@ + " ("@ + record_path_in(directory, id@) + ")"@,
                    ),
                )
            },
            None => earlier,
        }
    }
}

/// The cycle reports for the walks from the first `starts` entries: a
/// cycle is reported the first time it is reached.
pub open spec fn cycle_reports(parents: Seq<(String, Option<String>)>, starts: Seq<(String, Option<String>)>, kind: Seq<char>, directory: Seq<char>) -> (
    Seq<(Seq<char>, DiagnosticSeverity, Seq<char>, Option<SourceLocation>)>,
    Seq<Seq<char>>,
)
    decreases starts.len(),
{
    if starts.len() == 0 {
        (Seq::empty(), Seq::empty())
    } else {
        let (earlier, seen) = cycle_reports(parents, starts.drop_last(), kind, directory);
        match cycle_from(parents, starts.last().0@) {
            None => (earlier, seen),
            Some((cycle, current)) => {
                let key = cycle_key(cycle);
                if seen.contains(key) {
                    (earlier, seen)
                } else {
                    (
                        earlier.push(
                            unlocated_error(
                                "E-SCAN-008"@,
                                kind + " parent cycle: "@ + join_with(cycle, " -> "@) + " ("@ + record_path_in(directory, current) + ")"@,
                            ),
                        ),
                        seen.push(key),
                    )
                }
            },
        }
    }
}

fn key_index(parents: &Vec<(String, Option<String>)>, x: &str) -> (r: Option<usize>)
    ensures
        match r {
            Some(i) => i < parents@.len() && parents@[i as int].0@ == x@ && forall|j: int| 0 <= j < i ==> parents@[j].0@ != x@,
            None => !has_key(parents@, x@),
        },
{
    let mut i: usize = 0;
    while i < parents.len()
        invariant
            i <= parents@.len(),
            forall|j: int| 0 <= j < i ==> parents@[j].0@ != x@,
        decreases parents.len() - i,
    {
        if text_eq(parents[i].0.as_str(), x) {
            return Some(i);
        }
        i = i + 1;
    }
    None
}

proof fn lemma_parent_of_first(parents: Seq<(String, Option<String>)>, x: Seq<char>, i: int)
    requires
        0 <= i < parents.len(),
        parents[i].0@ == x,
        forall|j: int| 0 <= j < i ==> parents[j].0@ != x,
    ensures
        parent_of(parents, x) == match parents[i].1 {
            Some(p) => Some(p@),
            None => None::<Seq<char>>,
        },
    decreases i,
{
    if i > 0 {
        assert forall|j: int| 0 <= j < i - 1 implies parents.drop_first()[j].0@ != x by {
            assert(parents.drop_first()[j] == parents[j + 1]);
        }
        lemma_parent_of_first(parents.drop_first(), x, i - 1);
    }
}

fn next_record_up<'a>(parents: &'a Vec<(String, Option<String>)>, x: &str) -> (r: Option<&'a String>)
    ensures
        match r {
            Some(p) => next_up(parents@, x@) == Some(p@),
            None => next_up(parents@, x@) is None,
        },
{
    match key_index(parents, x) {
        None => {
            proof {
                lemma_parent_of_absent(parents@, x@);
            }
            None
        },
        Some(i) => {
            proof {
                lemma_parent_of_first(parents@, x@, i as int);
            }
            match &parents[i].1 {
                Some(p) => {
                    if key_index(parents, p.as_str()).is_some() {
                        Some(p)
                    } else {
                        None
                    }
                },
                None => None,
            }
        },
    }
}

proof fn lemma_parent_of_absent(parents: Seq<(String, Option<String>)>, x: Seq<char>)
    requires
        !has_key(parents, x),
    ensures
        parent_of(parents, x) is None,
    decreases parents.len(),
{
    if parents.len() > 0 {
        assert(parents[0].0@ != x);
        if has_key(parents.drop_first(), x) {
            let i = choose|i: int| 0 <= i < parents.drop_first().len() && parents.drop_first()[i].0@ == x;
            assert(parents[i + 1].0@ == x);
        }
        lemma_parent_of_absent(parents.drop_first(), x);
    }
}

fn index_in_path(path: &Vec<String>, x: &str) -> (r: Option<usize>)
    ensures
        match r {
            Some(i) => i < path@.len() && path@[i as int]@ == x@ && forall|j: int| 0 <= j < i ==> path@[j]@ != x@,
            None => !path@.map_values(|s: String| s@).contains(x@),
        },
{
    let mut i: usize = 0;
    while i < path.len()
        invariant
            i <= path@.len(),
            forall|j: int| 0 <= j < i ==> path@[j]@ != x@,
        decreases path.len() - i,
    {
        if text_eq(path[i].as_str(), x) {
            return Some(i);
        }
        i = i + 1;
    }
    proof {
        let v = path@.map_values(|s: String| s@);
        if v.contains(x@) {
            let j = choose|j: int| 0 <= j < v.len() && v[j] == x@;
            assert(path@[j]@ == x@);
        }
    }
    None
}

/// `x` first occurs in `path` at `i`.
proof fn lemma_position_in(path: Seq<Seq<char>>, x: Seq<char>, i: int)
    requires
        0 <= i < path.len(),
        path[i] == x,
        forall|j: int| 0 <= j < i ==> path[j] != x,
    ensures
        position_in(path, x) == i,
        path.contains(x),
{
    let c = position_in(path, x);
    assert(0 <= c < path.len() && path[c] == x && forall|j: int| 0 <= j < c ==> path[j] != x);
    if c < i {
        assert(path[c] != x);
    }
    if c > i {
        assert(path[i] != x);
    }
}

/// The ids of `path` from `from` on.
fn copy_tail(path: &Vec<String>, from: usize) -> (r: Vec<String>)
    requires
        from <= path@.len(),
    ensures
        r@.map_values(|s: String| s@) == path@.map_values(|s: String| s@).subrange(from as int, path@.len() as int),
{
    let ghost pv = path@.map_values(|s: String| s@);
    let mut r: Vec<String> = Vec::new();
    let mut k: usize = from;
    while k < path.len()
        invariant
            from <= k <= path@.len(),
            pv == path@.map_values(|s: String| s@),
            r@.map_values(|s: String| s@) == pv.subrange(from as int, k as int),
        decreases path.len() - k,
    {
        let ghost before = r@;
        let item = path[k].clone();
        r.push(item);
        assert(r@ == before.push(item));
        assert(pv[k as int] == path@[k as int]@);
        assert(r@.map_values(|s: String| s@) =~= before.map_values(|s: String| s@).push(item@));
        assert(pv.subrange(from as int, k as int + 1) =~= pv.subrange(from as int, k as int).push(pv[k as int]));
        k = k + 1;
    }
    r
}

/// Walks up from `start`; returns the cycle reached (as record ids) and the
/// repeated record, if any.
fn find_cycle(parents: &Vec<(String, Option<String>)>, start: &String) -> (r: Option<(Vec<String>, String)>)
    ensures
        match r {
            Some((cycle, current)) => cycle_from(parents@, start@) == Some((cycle@.map_values(|s: String| s@), current@)),
            None => cycle_from(parents@, start@) is None,
        },
{
    let mut path: Vec<String> = Vec::new();
    path.push(start.clone());
    let mut fuel: usize = parents.len();
    assert(path@.map_values(|s: String| s@) =~= seq![start@]);
    loop
        invariant
            fuel < parents@.len() + 1,
            path@.len() > 0,
            cycle_from(parents@, start@) == walk_up(parents@, path@.map_values(|s: String| s@), (fuel + 1) as nat),
        decreases fuel,
    {
        let ghost pv = path@.map_values(|s: String| s@);
        assert(pv.last() == path@[path@.len() - 1]@);
        let current = &path[path.len() - 1];
        match next_record_up(parents, current.as_str()) {
            None => {
                return None;
            },
            Some(next) => {
                match index_in_path(&path, next.as_str()) {
                    Some(idx) => {
                        proof {
                            assert forall|j: int| 0 <= j < idx implies pv[j] != next@ by {
                                assert(pv[j] == path@[j]@);
                            }
                            lemma_position_in(pv, next@, idx as int);
                        }
                        let cycle = copy_tail(&path, idx);
                        return Some((cycle, next.clone()));
                    },
                    None => {
                        if fuel == 0 {
                            assert(walk_up(parents@, pv.push(next@), 0) is None);
                            return None;
                        }
                        let ghost before = pv;
                        path.push(next.clone());
                        assert(path@.map_values(|s: String| s@) =~= before.push(next@));
                        fuel = fuel - 1;
                    },
                }
            },
        }
    }
}

fn record_path_string(directory: &str, id: &str) -> (p: String)
    ensures
        p@ == record_path_in(directory@, id@),
{
    let mut p = String::new();
    push_text(&mut p, directory);
    push_text(&mut p, "/");
    push_text(&mut p, id);
    push_text(&mut p, ".yaml");
    assert(p@ =~= record_path_in(directory@, id@));
    p
}

/// Checks the parent links of the records `parents` (each record id with
/// its parent, if any; ascending by id, each id once, as a map by id holds
/// them): reports each parent that is not a
/// record, then each parent cycle once, at the first record (in order)
/// whose walk up reaches it. Paths name `directory/<id>.yaml`.
pub fn validate_parent_graph(
    directory: &str,
    parents: &Vec<(String, Option<String>)>,
    kind: &str,
    diagnostics: &mut Vec<Diagnostic>,
)
    requires
        crate::project_checks::strictly_ascending(parents@.map_values(|p: (String, Option<String>)| p.0)),
    ensures
        diag_views(final(diagnostics)@) == diag_views(old(diagnostics)@) + missing_parent_reports(
            parents@,
            parents@,
            kind@,
            directory@,
        ) + cycle_reports(parents@, parents@, kind@, directory@).0,
{
    let ghost base = diag_views(diagnostics@);
    let mut i: usize = 0;
    while i < parents.len()
        invariant
            i <= parents@.len(),
            base == diag_views(old(diagnostics)@),
            diag_views(diagnostics@) == base + missing_parent_reports(parents@, parents@.take(i as int), kind@, directory@),
        decreases parents.len() - i,
    {
        let ghost t = parents@.take(i as int + 1);
        assert(t.drop_last() =~= parents@.take(i as int));
        assert(t.last() == parents@[i as int]);
        match &parents[i].1 {
            Some(parent) => {
                if key_index(parents, parent.as_str()).is_none() {
                    let path = record_path_string(directory, parents[i].0.as_str());
                    let mut message = String::new();
                    push_text(&mut message, kind);
                    push_text(&mut message, " ");
                    push_text(&mut message, parents[i].0.as_str());
                    push_text(&mut message, " references missing parent ");
                    push_text(&mut message, parent.as_str());
                    push_text(&mut message, " (");
                    push_text(&mut message, path.as_str());
                    push_text(&mut message, ")");
                    let d = Diagnostic::error("E-SCAN-008", message);
                    let ghost before = diagnostics@;
                    diagnostics.push(d);
                    assert(diag_views(diagnostics@) =~= diag_views(before).push(diag_view(d)));
                    assert(diag_view(d).2 =~= kind@ + " "@ + parents@[i as int].0@ + " references missing parent "@ + parent@ + " ("@ + record_path_in(directory@, parents@[i as int].0@) + ")"@);
                }
            },
            None => {},
        }
        i = i + 1;
    }
    assert(parents@.take(i as int) =~= parents@);
    let ghost mid = diag_views(diagnostics@);
    let mut reported: Vec<String> = Vec::new();
    let mut i: usize = 0;
    while i < parents.len()
        invariant
            i <= parents@.len(),
            diag_views(diagnostics@) == mid + cycle_reports(parents@, parents@.take(i as int), kind@, directory@).0,
            reported@.map_values(|s: String| s@) == cycle_reports(parents@, parents@.take(i as int), kind@, directory@).1,
        decreases parents.len() - i,
    {
        let ghost t = parents@.take(i as int + 1);
        assert(t.drop_last() =~= parents@.take(i as int));
        assert(t.last() == parents@[i as int]);
        match find_cycle(parents, &parents[i].0) {
            None => {},
            Some((cycle, current)) => {
                let members = crate::scan_documents::sorted_distinct_names(&cycle);
                let key = crate::scan_documents::join_names(&members, "|");
                if !contains_string(&reported, key.as_str()) {
                    let path = record_path_string(directory, current.as_str());
                    let joined = crate::scan_documents::join_names(&cycle, " -> ");
                    let mut message = String::new();
                    push_text(&mut message, kind);
                    push_text(&mut message, " parent cycle: ");
                    push_text(&mut message, joined.as_str());
                    push_text(&mut message, " (");
                    push_text(&mut message, path.as_str());
                    push_text(&mut message, ")");
                    let d = Diagnostic::error("E-SCAN-008", message);
                    let ghost before = diagnostics@;
                    diagnostics.push(d);
                    assert(diag_views(diagnostics@) =~= diag_views(before).push(diag_view(d)));
                    assert(diag_view(d).2 =~= kind@ + " parent cycle: "@ + join_with(cycle@.map_values(|s: String| s@), " -> "@) + " ("@ + record_path_in(directory@, current@) + ")"@);
                    let ghost rb = reported@;
                    reported.push(key);
                    assert(reported@.map_values(|s: String| s@) =~= rb.map_values(|s: String| s@).push(key@));
                }
            },
        }
        i = i + 1;
    }
    assert(parents@.take(i as int) =~= parents@);
}

/// Each parent cycle is reported once: the cycles reported are told apart
/// by their member sets, no two alike, one report each.
pub proof fn lemma_each_cycle_reported_once(
    parents: Seq<(String, Option<String>)>,
    starts: Seq<(String, Option<String>)>,
    kind: Seq<char>,
    directory: Seq<char>,
)
    ensures
        cycle_reports(parents, starts, kind, directory).1.no_duplicates(),
        cycle_reports(parents, starts, kind, directory).0.len() == cycle_reports(parents, starts, kind, directory).1.len(),
    decreases starts.len(),
{
    if starts.len() > 0 {
        lemma_each_cycle_reported_once(parents, starts.drop_last(), kind, directory);
        let (earlier, seen) = cycle_reports(parents, starts.drop_last(), kind, directory);
        match cycle_from(parents, starts.last().0@) {
            None => {},
            Some((cycle, current)) => {
                let key = cycle_key(cycle);
                if !seen.contains(key) {
                    let n = seen.push(key);
                    assert forall|i: int, j: int| 0 <= i < n.len() && 0 <= j < n.len() && i != j implies n[i] != n[j] by {
                        if i == seen.len() {
                            assert(n[j] == seen[j]);
                        } else if j == seen.len() {
                            assert(n[i] == seen[i]);
                        }
                    }
                }
            },
        }
    }
}

/// The `W-SCAN-102` report for the record `id`.
spec fn isolated_report(id: Seq<char>) -> (Seq<char>, DiagnosticSeverity, Seq<char>, Option<SourceLocation>) {
    (
        "W-SCAN-102"@,
        DiagnosticSeverity::Warning,
        "VO "@ + id + " is isolated and has no covering test ("@ + vo_record_path(id) + ")"@,
        None,
    )
}

proof fn lemma_isolated_report_injective(a: Seq<char>, b: Seq<char>)
    requires
        isolated_report(a) == isolated_report(b),
    ensures
        a == b,
{
    reveal_strlit("VO ");
    let ma = isolated_report(a).2;
    let mb = isolated_report(b).2;
    assert(ma.len() == mb.len());
    assert(a.len() == b.len());
    assert forall|i: int| 0 <= i < a.len() implies a[i] == b[i] by {
        assert(ma[3 + i] == a[i]);
        assert(mb[3 + i] == b[i]);
    }
    assert(a =~= b);
}

proof fn lemma_covered_ids_members(tests: Seq<TestEntity>, id: Seq<char>)
    ensures
        covered_ids(tests).contains(id) <==> exists|i: int, j: int|
            0 <= i < tests.len() && 0 <= j < tests[i].covers@.len() && (#[trigger] tests[i].covers@[j])@ == id,
    decreases tests.len(),
{
    if tests.len() > 0 {
        let d = tests.drop_last();
        lemma_covered_ids_members(d, id);
        let earlier = covered_ids(d);
        let last = tests.last().covers@.map_values(|v: crate::ids::VoId| v@);
        let all = covered_ids(tests);
        assert(all == earlier + last);
        if all.contains(id) {
            let q = choose|q: int| 0 <= q < all.len() && all[q] == id;
            if q < earlier.len() {
                assert(earlier[q] == id);
                let (i, j) = choose|i: int, j: int|
                    0 <= i < d.len() && 0 <= j < d[i].covers@.len() && (#[trigger] d[i].covers@[j])@ == id;
                assert(tests[i] == d[i]);
                assert(tests[i].covers@[j]@ == id);
            } else {
                let j = q - earlier.len();
                assert(last[j] == id);
                assert(tests[tests.len() - 1].covers@[j]@ == id);
            }
        }
        if exists|i: int, j: int|
            0 <= i < tests.len() && 0 <= j < tests[i].covers@.len() && (#[trigger] tests[i].covers@[j])@ == id {
            let (i, j) = choose|i: int, j: int|
                0 <= i < tests.len() && 0 <= j < tests[i].covers@.len() && (#[trigger] tests[i].covers@[j])@ == id;
            if i < d.len() {
                assert(d[i] == tests[i]);
                assert(d[i].covers@[j]@ == id);
                assert(earlier.contains(id));
                let q = choose|q: int| 0 <= q < earlier.len() && earlier[q] == id;
                assert(all[q] == id);
            } else {
                assert(last[j] == id);
                assert(all[earlier.len() + j] == id);
            }
        }
    }
}

proof fn lemma_parent_ids_members(vos: Seq<(String, VoRecord)>, id: Seq<char>)
    ensures
        parent_ids(vos).contains(id) <==> exists|m: int|
            0 <= m < vos.len() && (#[trigger] vos[m]).1.parent is Some && vos[m].1.parent->0@ == id,
    decreases vos.len(),
{
    if vos.len() > 0 {
        let d = vos.drop_last();
        lemma_parent_ids_members(d, id);
        let earlier = parent_ids(d);
        let all = parent_ids(vos);
        if all.contains(id) {
            let q = choose|q: int| 0 <= q < all.len() && all[q] == id;
            if q < earlier.len() {
                assert(earlier[q] == id);
                assert(earlier.contains(id));
                let m = choose|m: int| 0 <= m < d.len() && (#[trigger] d[m]).1.parent is Some && d[m].1.parent->0@ == id;
                assert(vos[m] == d[m]);
            } else {
                assert(vos[vos.len() - 1] == vos.last());
            }
        }
        if exists|m: int| 0 <= m < vos.len() && (#[trigger] vos[m]).1.parent is Some && vos[m].1.parent->0@ == id {
            let m = choose|m: int| 0 <= m < vos.len() && (#[trigger] vos[m]).1.parent is Some && vos[m].1.parent->0@ == id;
            if m < d.len() {
                assert(d[m] == vos[m]);
                assert(earlier.contains(id));
                let q = choose|q: int| 0 <= q < earlier.len() && earlier[q] == id;
                assert(all[q] == id);
            } else {
                assert(all.last() == id);
                assert(all[all.len() - 1] == id);
            }
        }
    }
}

proof fn lemma_isolated_reports_members(
    vos: Seq<(String, VoRecord)>,
    parents: Seq<Seq<char>>,
    covered: Seq<Seq<char>>,
    id: Seq<char>,
)
    ensures
        isolated_reports(vos, parents, covered).contains(isolated_report(id)) <==> exists|k: int|
            0 <= k < vos.len() && (#[trigger] vos[k]).0@ == id && !parents.contains(id) && !covered.contains(id),
    decreases vos.len(),
{
    reveal_strlit("W-SCAN-102");
    if vos.len() > 0 {
        let d = vos.drop_last();
        lemma_isolated_reports_members(d, parents, covered, id);
        let earlier = isolated_reports(d, parents, covered);
        let all = isolated_reports(vos, parents, covered);
        let last = vos.last().0@;
        assert(vos[vos.len() - 1] == vos.last());
        if !parents.contains(last) && !covered.contains(last) {
            assert(all == earlier.push(isolated_report(last)));
        }
        if all.contains(isolated_report(id)) {
            let q = choose|q: int| 0 <= q < all.len() && all[q] == isolated_report(id);
            if q < earlier.len() {
                assert(earlier[q] == isolated_report(id));
                assert(earlier.contains(isolated_report(id)));
                let k = choose|k: int| 0 <= k < d.len() && (#[trigger] d[k]).0@ == id && !parents.contains(id) && !covered.contains(id);
                assert(vos[k] == d[k]);
            } else {
                lemma_isolated_report_injective(last, id);
            }
        }
        if exists|k: int| 0 <= k < vos.len() && (#[trigger] vos[k]).0@ == id && !parents.contains(id) && !covered.contains(id) {
            let k = choose|k: int| 0 <= k < vos.len() && (#[trigger] vos[k]).0@ == id && !parents.contains(id) && !covered.contains(id);
            if k < d.len() {
                assert(d[k] == vos[k]);
                assert(earlier.contains(isolated_report(id)));
                let q = choose|q: int| 0 <= q < earlier.len() && earlier[q] == isolated_report(id);
                assert(all[q] == isolated_report(id));
            } else {
                assert(all[all.len() - 1] == isolated_report(id));
            }
        }
    }
}

/// A record is reported isolated (`W-SCAN-102`, naming it and its path)
/// exactly when no record names it as its parent and no test lists it
/// anywhere among the objectives it covers.
pub proof fn lemma_isolated_exactly_when_uncovered(vos: Seq<(String, VoRecord)>, tests: Seq<TestEntity>, k: int)
    requires
        0 <= k < vos.len(),
    ensures
        isolated_reports(vos, parent_ids(vos), covered_ids(tests)).contains(
            (
                "W-SCAN-102"@,
                DiagnosticSeverity::Warning,
                "VO "@ + vos[k].0@ + " is isolated and has no covering test ("@ + vo_record_path(vos[k].0@) + ")"@,
                None,
            ),
        ) <==> (forall|m: int|
            0 <= m < vos.len() ==> !((#[trigger] vos[m]).1.parent is Some && vos[m].1.parent->0@ == vos[k].0@))
            && (forall|i: int, j: int|
            0 <= i < tests.len() && 0 <= j < tests[i].covers@.len() ==> (#[trigger] tests[i].covers@[j])@
                != vos[k].0@),
{
    let id = vos[k].0@;
    lemma_isolated_reports_members(vos, parent_ids(vos), covered_ids(tests), id);
    lemma_parent_ids_members(vos, id);
    lemma_covered_ids_members(tests, id);
}

} // verus!
