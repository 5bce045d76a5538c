//! Checking a rescan after a structured edit: the edited test is found
//! again, in the desired state, and no other test changed.

use vstd::prelude::*;

use crate::desired::{texts, DesiredTest};
use crate::diagnostic::{Diagnostic, DiagnosticSeverity};
use crate::hash::ContentHash;
use crate::ids::{TestId, VoId};
use crate::operations::{near_ids, target_string, target_text, test_id_candidates, test_ids};
use crate::order::stable_sorted;
use crate::queries::quoted;
use crate::scan::ScanResult;
use crate::source::TargetRef;
use crate::test_edits::{first_changed, verify_other_test_hashes};
use crate::test_entity::TestEntity;
use crate::text::{decimal_text, push_decimal, push_text, text_eq};

verus! {

/// An optional text as a value.
pub open spec fn option_text(o: Option<String>) -> Option<Seq<char>> {
    match o {
        Some(s) => Some(s@),
        None => None,
    }
}

/// The scanned test is in the desired state: the same id, covered
/// objectives, targets (as texts), intent, input, expectation, kind,
/// cases, related tests, function name (its location's `function`) and
/// file.
pub open spec fn matches_desired(test: TestEntity, desired: DesiredTest) -> bool {
    &&& test.id@ == desired.id@
    &&& test.covers@.map_values(|v: VoId| v@) == texts(desired.covers@)
    &&& test.targets@.map_values(|t: TargetRef| target_text(t)) == texts(desired.targets@)
    &&& test.intent@ == desired.intent@
    &&& option_text(test.input) == option_text(desired.input)
    &&& option_text(test.expect) == option_text(desired.expect)
    &&& option_text(test.kind) == option_text(desired.kind)
    &&& texts(test.cases@) == texts(desired.cases@)
    &&& test.related@.map_values(|r: TestId| r@) == texts(desired.related@)
    &&& test.location.function@ == desired.fn_name@
    &&& test.location.file@ == desired.file@
}

/// A test state as values: id, covered objectives, targets, intent,
/// input, expectation, kind, cases, related tests, function name and file.
pub struct StateView {
    pub id: Seq<char>,
    pub covers: Seq<Seq<char>>,
    pub targets: Seq<Seq<char>>,
    pub intent: Seq<char>,
    pub input: Option<Seq<char>>,
    pub expect: Option<Seq<char>>,
    pub kind: Option<Seq<char>>,
    pub cases: Seq<Seq<char>>,
    pub related: Seq<Seq<char>>,
    pub fn_name: Seq<char>,
    pub file: Seq<char>,
}

/// The state a scanned test is in.
pub open spec fn test_state(t: TestEntity) -> StateView {
    StateView {
        id: t.id@,
        covers: t.covers@.map_values(|v: VoId| v@),
        targets: t.targets@.map_values(|x: TargetRef| target_text(x)),
        intent: t.intent@,
        input: option_text(t.input),
        expect: option_text(t.expect),
        kind: option_text(t.kind),
        cases: texts(t.cases@),
        related: t.related@.map_values(|r: TestId| r@),
        fn_name: t.location.function@,
        file: t.location.file@,
    }
}

/// The state a desired test state asks for.
pub open spec fn desired_state(d: DesiredTest) -> StateView {
    StateView {
        id: d.id@,
        covers: texts(d.covers@),
        targets: texts(d.targets@),
        intent: d.intent@,
        input: option_text(d.input),
        expect: option_text(d.expect),
        kind: option_text(d.kind),
        cases: texts(d.cases@),
        related: texts(d.related@),
        fn_name: d.fn_name@,
        file: d.file@,
    }
}

/// A scanned test matches a desired state exactly when the two agree field
/// by field. With `DesiredTest::from_current` (whose state is the test's),
/// a test matches `d` exactly when `d` agrees field by field with
/// `from_current` of it; in particular every test matches its own current
/// state.
pub proof fn lemma_matches_is_field_agreement(t: TestEntity, d: DesiredTest)
    ensures
        matches_desired(t, d) <==> desired_state(d) == test_state(t),
{
}

/// The first test with the id `id`, if any.
pub open spec fn first_test(tests: Seq<TestEntity>, id: Seq<char>) -> Option<TestEntity>
    decreases tests.len(),
{
    if tests.len() == 0 {
        None
    } else if tests[0].id@ == id {
        Some(tests[0])
    } else {
        first_test(tests.drop_first(), id)
    }
}

fn option_text_eq(a: &Option<String>, b: &Option<String>) -> (r: bool)
    ensures
        r == (option_text(*a) == option_text(*b)),
{
    match (a, b) {
        (Some(x), Some(y)) => text_eq(x.as_str(), y.as_str()),
        (None, None) => true,
        _ => false,
    }
}

pub(crate) fn texts_eq(a: &Vec<String>, b: &Vec<String>) -> (r: bool)
    ensures
        r == (texts(a@) == texts(b@)),
{
    if a.len() != b.len() {
        assert(texts(a@).len() != texts(b@).len());
        return false;
    }
    let mut i: usize = 0;
    while i < a.len()
        invariant
            a@.len() == b@.len(),
            i <= a@.len(),
            forall|k: int| 0 <= k < i ==> a@[k]@ == b@[k]@,
        decreases a.len() - i,
    {
        if !text_eq(a[i].as_str(), b[i].as_str()) {
            assert(texts(a@)[i as int] != texts(b@)[i as int]);
            return false;
        }
        i = i + 1;
    }
    assert(texts(a@) =~= texts(b@));
    true
}

pub(crate) fn covers_texts(v: &Vec<VoId>) -> (out: Vec<String>)
    ensures
        texts(out@) == v@.map_values(|x: VoId| x@),
{
    let mut out: Vec<String> = Vec::new();
    let mut i: usize = 0;
    while i < v.len()
        invariant
            i <= v@.len(),
            texts(out@) == v@.take(i as int).map_values(|x: VoId| x@),
        decreases v.len() - i,
    {
        let ghost before = out@;
        out.push(v[i].0.clone());
        assert(texts(out@) =~= texts(before).push(out@[i as int]@));
        assert(v@.take(i as int + 1) =~= v@.take(i as int).push(v@[i as int]));
        assert(texts(out@) =~= v@.take(i as int + 1).map_values(|x: VoId| x@));
        i = i + 1;
    }
    assert(v@.take(i as int) =~= v@);
    out
}

fn related_texts(v: &Vec<TestId>) -> (out: Vec<String>)
    ensures
        texts(out@) == v@.map_values(|x: TestId| x@),
{
    let mut out: Vec<String> = Vec::new();
    let mut i: usize = 0;
    while i < v.len()
        invariant
            i <= v@.len(),
            texts(out@) == v@.take(i as int).map_values(|x: TestId| x@),
        decreases v.len() - i,
    {
        let ghost before = out@;
        out.push(v[i].0.clone());
        assert(texts(out@) =~= texts(before).push(out@[i as int]@));
        assert(v@.take(i as int + 1) =~= v@.take(i as int).push(v@[i as int]));
        assert(texts(out@) =~= v@.take(i as int + 1).map_values(|x: TestId| x@));
        i = i + 1;
    }
    assert(v@.take(i as int) =~= v@);
    out
}

pub(crate) fn target_texts(v: &Vec<TargetRef>) -> (out: Vec<String>)
    ensures
        texts(out@) == v@.map_values(|t: TargetRef| target_text(t)),
{
    let mut out: Vec<String> = Vec::new();
    let mut i: usize = 0;
    while i < v.len()
        invariant
            i <= v@.len(),
            texts(out@) == v@.take(i as int).map_values(|t: TargetRef| target_text(t)),
        decreases v.len() - i,
    {
        let ghost before = out@;
        out.push(target_string(&v[i]));
        assert(texts(out@) =~= texts(before).push(out@[i as int]@));
        assert(v@.take(i as int + 1) =~= v@.take(i as int).push(v@[i as int]));
        assert(texts(out@) =~= v@.take(i as int + 1).map_values(|t: TargetRef| target_text(t)));
        i = i + 1;
    }
    assert(v@.take(i as int) =~= v@);
    out
}

/// Whether a scanned test is in the desired state (see
/// `matches_desired`).
pub fn test_matches_desired(test: &TestEntity, desired: &DesiredTest) -> (r: bool)
    ensures
        r == matches_desired(*test, *desired),
{
    text_eq(test.id.0.as_str(), desired.id.as_str()) && texts_eq(&covers_texts(&test.covers), &desired.covers)
        && texts_eq(&target_texts(&test.targets), &desired.targets) && text_eq(
        test.intent.as_str(),
        desired.intent.as_str(),
    ) && option_text_eq(&test.input, &desired.input) && option_text_eq(&test.expect, &desired.expect)
        && option_text_eq(&test.kind, &desired.kind) && texts_eq(&test.cases, &desired.cases) && texts_eq(
        &related_texts(&test.related),
        &desired.related,
    ) && text_eq(test.location.function.as_str(), desired.fn_name.as_str()) && text_eq(
        test.location.file.as_str(),
        desired.file.as_str(),
    )
}

pub(crate) fn find_test<'a>(tests: &'a Vec<TestEntity>, id: &str) -> (r: Option<&'a TestEntity>)
    ensures
        match r {
            Some(t) => first_test(tests@, id@) == Some(*t),
            None => first_test(tests@, id@) is None,
        },
{
    let mut i: usize = 0;
    assert(tests@.skip(0) =~= tests@);
    while i < tests.len()
        invariant
            i <= tests@.len(),
            first_test(tests@, id@) == first_test(tests@.skip(i as int), id@),
        decreases tests.len() - i,
    {
        assert(tests@.skip(i as int)[0] == tests@[i as int]);
        assert(tests@.skip(i as int).drop_first() =~= tests@.skip(i as int + 1));
        if text_eq(tests[i].id.0.as_str(), id) {
            return Some(&tests[i]);
        }
        i = i + 1;
    }
    None
}

/// Checks the rescan `after` of a structured edit of the test `test_id`:
/// the first test with that id must be there (else an `E-OP-003` error
/// saying it was not recognized) and in the desired state (else an
/// `E-OP-003` error saying it does not match); then every other test must
/// keep the hash it had in `before` (each id once, ascending; see
/// `verify_other_test_hashes`).
pub fn verify_edit(
    after: &ScanResult,
    test_id: &str,
    desired: &DesiredTest,
    before: &Vec<(String, ContentHash)>,
) -> (r: Result<(), Diagnostic>)
    requires
        crate::project_checks::strictly_ascending(before@.map_values(|p: (String, ContentHash)| p.0)),
    ensures
        match first_test(after.tests@, test_id@) {
            None => r matches Err(d) && d.code@ == "E-OP-003"@ && d.severity == DiagnosticSeverity::Error && d.message@
                == "edited Test `"@ + test_id@ + "` was not recognized by the scanner"@,
            Some(t) => if !matches_desired(t, *desired) {
                r matches Err(d) && d.code@ == "E-OP-003"@ && d.severity == DiagnosticSeverity::Error && d.message@
                    == "edited Test `"@ + test_id@ + "` does not match the desired state"@
            } else {
                let bv = before@.map_values(|p: (String, ContentHash)| (p.0@, p.1@));
                match first_changed(after.tests@, bv, Some(test_id@)) {
                    None => r is Ok,
                    Some(i) => r matches Err(d) && d.code@ == "E-OP-003"@ && d.message@ == "operation changed Test `"@
                        + bv[i].0 + "` outside its edit boundary"@ && d.severity == DiagnosticSeverity::Error,
                }
            },
        },
{
    let edited = match find_test(&after.tests, test_id) {
        Some(t) => t,
        None => {
            return Err(
                Diagnostic::error("E-OP-003", quoted("edited Test `", test_id, "` was not recognized by the scanner")),
            );
        },
    };
    if !test_matches_desired(edited, desired) {
        return Err(
            Diagnostic::error("E-OP-003", quoted("edited Test `", test_id, "` does not match the desired state")),
        );
    }
    verify_other_test_hashes(after, before, Some(test_id))
}

/// What a structured edit is asked to do must be one thing: answers to a
/// form, or `--set` values, not both (an `E-OP-001` error); and something
/// must be asked: answers, `--set` values or a body (else an `E-OP-001`
/// error).
pub fn check_edit_request(has_answers: bool, has_sets: bool, has_body: bool) -> (r: Result<(), Diagnostic>)
    ensures
        if has_answers && has_sets {
            r matches Err(d) && d.code@ == "E-OP-001"@ && d.message@
                == "test edit accepts either --answers or --set, not both"@
        } else if !has_answers && !has_sets && !has_body {
            r matches Err(d) && d.code@ == "E-OP-001"@ && d.message@
                == "test edit requires --answers, --set, or --body-file"@
        } else {
            r is Ok
        },
{
    if has_answers && has_sets {
        return Err(Diagnostic::error("E-OP-001", "test edit accepts either --answers or --set, not both"));
    }
    if !has_answers && !has_sets && !has_body {
        return Err(Diagnostic::error("E-OP-001", "test edit requires --answers, --set, or --body-file"));
    }
    Ok(())
}

/// How many scanned tests carry the id `id`.
pub open spec fn id_count(tests: Seq<TestEntity>, id: Seq<char>) -> nat
    decreases tests.len(),
{
    if tests.len() == 0 {
        0
    } else {
        id_count(tests.drop_last(), id) + if tests.last().id@ == id {
            1nat
        } else {
            0nat
        }
    }
}

proof fn lemma_first_test_exists(tests: Seq<TestEntity>, id: Seq<char>)
    ensures
        (first_test(tests, id) is Some) == (id_count(tests, id) > 0),
    decreases tests.len(),
{
    if tests.len() > 0 {
        lemma_first_test_exists(tests.drop_first(), id);
        lemma_id_count_first(tests, id);
    }
}

proof fn lemma_id_count_first(tests: Seq<TestEntity>, id: Seq<char>)
    requires
        tests.len() > 0,
    ensures
        id_count(tests, id) == id_count(tests.drop_first(), id) + if tests[0].id@ == id {
            1nat
        } else {
            0nat
        },
    decreases tests.len(),
{
    if tests.len() > 1 {
        lemma_id_count_first(tests.drop_last(), id);
        assert(tests.drop_last().drop_first() =~= tests.drop_first().drop_last());
        assert(tests.drop_first().last() == tests.last());
    } else {
        assert(tests.drop_first() =~= Seq::<TestEntity>::empty());
        assert(tests.drop_last() =~= Seq::<TestEntity>::empty());
    }
}

/// The test to edit: the one scanned test with the id `id`. When no
/// scanned test has it, an `E-OP-002` error with the scanned ids near it
/// as candidates; when several do, an `E-OP-002` error giving how many,
/// and no test is chosen.
pub fn test_to_edit<'a>(scan: &'a ScanResult, id: &str) -> (r: Result<&'a TestEntity, Diagnostic>)
    requires
        forall|i: int| 0 <= i < scan.tests@.len() ==> (#[trigger] scan.tests@[i]).id@.len() + id@.len() < usize::MAX,
    ensures
        if id_count(scan.tests@, id@) == 0 {
            r matches Err(d) && d.code@ == "E-OP-002"@ && d.message@ == "Test `"@ + id@ + "` could not be located"@
                && d.candidates@ == stable_sorted(near_ids(test_ids(scan.tests@), id@)) && d.severity
                == DiagnosticSeverity::Error
        } else if id_count(scan.tests@, id@) == 1 {
            r matches Ok(found) && first_test(scan.tests@, id@) == Some(*found)
        } else {
            r matches Err(d) && d.code@ == "E-OP-002"@ && d.message@ == "Test ID `"@ + id@ + "` is declared by "@
                + decimal_text(id_count(scan.tests@, id@)) + " Test constructs"@ && d.candidates@.len() == 0
                && d.severity == DiagnosticSeverity::Error
        },
{
    let mut count: usize = 0;
    let mut k: usize = 0;
    while k < scan.tests.len()
        invariant
            k <= scan.tests@.len(),
            count == id_count(scan.tests@.take(k as int), id@),
            count <= k,
        decreases scan.tests.len() - k,
    {
        assert(scan.tests@.take(k as int + 1).drop_last() =~= scan.tests@.take(k as int));
        if text_eq(scan.tests[k].id.0.as_str(), id) {
            count = count + 1;
        }
        k = k + 1;
    }
    assert(scan.tests@.take(k as int) =~= scan.tests@);
    proof {
        lemma_first_test_exists(scan.tests@, id@);
    }
    if count >= 2 {
        let mut message = String::new();
        push_text(&mut message, "Test ID `");
        push_text(&mut message, id);
        push_text(&mut message, "` is declared by ");
        push_decimal(&mut message, count as u64);
        push_text(&mut message, " Test constructs");
        return Err(Diagnostic::error("E-OP-002", message));
    }
    match find_test(&scan.tests, id) {
        Some(t) => Ok(t),
        None => Err(
            Diagnostic::error("E-OP-002", quoted("Test `", id, "` could not be located")).with_candidates(
                test_id_candidates(scan, id),
            ),
        ),
    }
}

impl DesiredTest {
    /// The state a test is in now, as a desired state: the starting point
    /// of a structured edit. The test matches it (see `matches_desired`).
    pub fn from_current(test: &TestEntity) -> (d: DesiredTest)
        ensures
            matches_desired(*test, d),
            desired_state(d) == test_state(*test),
    {
        DesiredTest {
            id: test.id.0.clone(),
            covers: covers_texts(&test.covers),
            targets: target_texts(&test.targets),
            intent: test.intent.clone(),
            input: crate::text::duplicate_option_string(&test.input),
            expect: crate::text::duplicate_option_string(&test.expect),
            kind: crate::text::duplicate_option_string(&test.kind),
            cases: crate::text::duplicate_strings(&test.cases),
            related: related_texts(&test.related),
            fn_name: test.location.function.clone(),
            file: test.location.file.clone(),
        }
    }
}

} // verus!
