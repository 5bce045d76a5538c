//! Read-only test operations: listing and looking up tests, suggesting
//! near-miss identifiers, and the small text utilities the structured
//! edit operations are built from.

use vstd::prelude::*;
use vstd::utf8::encode_utf8;

use crate::diagnostic::Diagnostic;
use crate::evidence::{EvidenceRecord, TargetCoverageResult, TestResult};
use crate::order::{
    bytes_le, lemma_lex_le_antisymmetric, lemma_lex_le_connected, lemma_lex_le_reflexive,
    lemma_lex_le_total, lemma_lex_le_transitive, lex_le, stable_sort_by_key, stable_sorted, SortKey,
};
use crate::scan::{contains_string, ScanResult};
use crate::source::{SourceLocation, TargetRef};
use crate::scan_documents::sorted_distinct;
use crate::test_entity::TestEntity;
use crate::text::text_eq;

verus! {

broadcast use vstd::seq_lib::group_to_multiset_ensures;

/// The tests a listing selected, and the unmanaged test constructs.
#[derive(Clone, Debug)]
pub struct TestSelection {
    pub tests: Vec<TestEntity>,
    pub unregistered: Vec<SourceLocation>,
}

/// A test with its audits and its evidence.
#[derive(Clone, Debug)]
pub struct TestView {
    pub test: TestEntity,
    pub audits: Vec<AuditState>,
    pub evidence: Vec<EvidenceState>,
}

/// An audit record that concerns a test.
#[derive(Clone, Debug)]
pub struct AuditState {
    pub id: String,
    pub kind: Option<String>,
    pub verdict: Option<String>,
}

/// Whether a test execution was observed to reach its targets.
#[derive(Clone, Copy, Debug, Eq, PartialEq)]
pub enum CheckValue {
    Pass,
    Fail,
    Unknown,
    NotChecked,
}

/// One evidence record of a test, as shown with the test.
#[derive(Clone, Debug)]
pub struct EvidenceState {
    pub id: String,
    pub result: TestResult,
    pub target_execution: CheckValue,
    pub executed_at: String,
}

/// The result of creating or editing a test.
#[derive(Clone, Debug)]
pub struct TestMutationResult {
    pub test_id: String,
    pub file: String,
    pub dry_run: bool,
    pub changed: bool,
    pub start_byte: usize,
    pub end_byte: usize,
    pub rendered: String,
}

/// What target execution an evidence record shows: its coverage result
/// if coverage was checked, otherwise `NotChecked`.
pub open spec fn target_execution_of(r: EvidenceRecord) -> CheckValue {
    if r.target_coverage.checked {
        match r.target_coverage.result {
            TargetCoverageResult::Pass => CheckValue::Pass,
            TargetCoverageResult::Fail => CheckValue::Fail,
            TargetCoverageResult::Unknown => CheckValue::Unknown,
        }
    } else {
        CheckValue::NotChecked
    }
}

/// How an evidence record is shown with its test.
pub fn evidence_state(record: &EvidenceRecord) -> (e: EvidenceState)
    ensures
        e.id == record.id,
        e.result == record.result,
        e.target_execution == target_execution_of(*record),
        e.executed_at == record.executed_at,
{
    let target_execution = if record.target_coverage.checked {
        match record.target_coverage.result {
            TargetCoverageResult::Pass => CheckValue::Pass,
            TargetCoverageResult::Fail => CheckValue::Fail,
            TargetCoverageResult::Unknown => CheckValue::Unknown,
        }
    } else {
        CheckValue::NotChecked
    };
    EvidenceState {
        id: record.id.clone(),
        result: record.result,
        target_execution,
        executed_at: record.executed_at.clone(),
    }
}

impl SortKey for TestEntity {
    type Key = Seq<u8>;

    open spec fn sort_key(&self) -> Seq<u8> {
        encode_utf8(self.id@)
    }

    open spec fn key_le(a: Seq<u8>, b: Seq<u8>) -> bool {
        lex_le(a, b)
    }

    proof fn lemma_key_le_total() {
        lemma_lex_le_total();
        assert((|a: Seq<u8>, b: Seq<u8>| Self::key_le(a, b)) =~= (|a: Seq<u8>, b: Seq<u8>|
            lex_le(a, b)));
    }

    fn le_by_key(&self, other: &Self) -> (r: bool) {
        bytes_le(self.id.as_str().as_bytes(), other.id.as_str().as_bytes())
    }
}

/// Evidence records shown with a test are ordered by when they were
/// executed, as text (by bytes).
impl SortKey for EvidenceState {
    type Key = Seq<u8>;

    open spec fn sort_key(&self) -> Seq<u8> {
        encode_utf8(self.executed_at@)
    }

    open spec fn key_le(a: Seq<u8>, b: Seq<u8>) -> bool {
        lex_le(a, b)
    }

    proof fn lemma_key_le_total() {
        lemma_lex_le_total();
        assert((|a: Seq<u8>, b: Seq<u8>| Self::key_le(a, b)) =~= (|a: Seq<u8>, b: Seq<u8>|
            lex_le(a, b)));
    }

    fn le_by_key(&self, other: &Self) -> (r: bool) {
        bytes_le(self.executed_at.as_str().as_bytes(), other.executed_at.as_str().as_bytes())
    }
}

/// A test's evidence in the order it is shown: by execution time, records
/// with the same time in their given order.
pub fn order_evidence(evidence: Vec<EvidenceState>) -> (r: Vec<EvidenceState>)
    ensures
        r@ == stable_sorted(evidence@),
{
    stable_sort_by_key(evidence)
}

/// The first scanned test with the id `id`, if any.
pub open spec fn first_with_id(tests: Seq<TestEntity>, id: Seq<char>) -> Option<int> {
    if exists|i: int| 0 <= i < tests.len() && (#[trigger] tests[i]).id@ == id {
        Some(choose|i: int| 0 <= i < tests.len() && (#[trigger] tests[i]).id@ == id && forall|j: int| 0 <= j < i ==> tests[j].id@ != id)
    } else {
        None
    }
}

/// The test to show: the first scanned test with the id `id`; otherwise
/// an `E-OP-001` error with the scanned ids near it as candidates.
pub fn test_to_show<'a>(scan: &'a ScanResult, id: &str) -> (r: Result<&'a TestEntity, Diagnostic>)
    requires
        forall|i: int| 0 <= i < scan.tests@.len() ==> (#[trigger] scan.tests@[i]).id@.len() + id@.len() < usize::MAX,
    ensures
        match first_with_id(scan.tests@, id@) {
            Some(i) => r matches Ok(t) && *t == scan.tests@[i],
            None => r matches Err(d) && d.code@ == "E-OP-001"@ && d.message@ == "Test `"@ + id@ + "` does not exist"@
                && d.candidates@ == stable_sorted(near_ids(test_ids(scan.tests@), id@)) && d.severity
                == crate::diagnostic::DiagnosticSeverity::Error,
        },
{
    let mut i: usize = 0;
    while i < scan.tests.len()
        invariant
            i <= scan.tests@.len(),
            forall|j: int| 0 <= j < i ==> scan.tests@[j].id@ != id@,
        decreases scan.tests.len() - i,
    {
        if text_eq(scan.tests[i].id.0.as_str(), id) {
            proof {
                let w = first_with_id(scan.tests@, id@).unwrap();
                assert(scan.tests@[i as int].id@ == id@);
                if w < i {
                    assert(scan.tests@[w].id@ != id@);
                }
                if w > i {
                    assert(scan.tests@[i as int].id@ != id@);
                }
            }
            return Ok(&scan.tests[i]);
        }
        i = i + 1;
    }
    let mut message = String::new();
    crate::text::push_text(&mut message, "Test `");
    crate::text::push_text(&mut message, id);
    crate::text::push_text(&mut message, "` does not exist");
    Err(Diagnostic::error("E-OP-001", message).with_candidates(test_id_candidates(scan, id)))
}

/// Locations order by file (bytes), then by start byte.
pub open spec fn location_le(a: (Seq<u8>, int), b: (Seq<u8>, int)) -> bool {
    (lex_le(a.0, b.0) && a.0 != b.0) || (a.0 == b.0 && a.1 <= b.1)
}

impl SortKey for SourceLocation {
    type Key = (Seq<u8>, int);

    open spec fn sort_key(&self) -> (Seq<u8>, int) {
        (encode_utf8(self.file@), self.start_byte as int)
    }

    open spec fn key_le(a: (Seq<u8>, int), b: (Seq<u8>, int)) -> bool {
        location_le(a, b)
    }

    proof fn lemma_key_le_total() {
        lemma_lex_le_total();
        assert forall|a: (Seq<u8>, int), b: (Seq<u8>, int)| location_le(a, b) && location_le(b, a) implies a == b by {
            if a.0 != b.0 {
                lemma_lex_le_antisymmetric(a.0, b.0);
            }
        }
        assert forall|a: (Seq<u8>, int), b: (Seq<u8>, int), c: (Seq<u8>, int)|
            location_le(a, b) && location_le(b, c) implies location_le(a, c) by {
            lemma_lex_le_reflexive(a.0);
            lemma_lex_le_reflexive(b.0);
            if !(a.0 == b.0 && b.0 == c.0) {
                lemma_lex_le_transitive(a.0, b.0, c.0);
                if a.0 == c.0 && a.0 != b.0 {
                    lemma_lex_le_antisymmetric(a.0, b.0);
                }
            }
        }
        assert forall|a: (Seq<u8>, int), b: (Seq<u8>, int)| location_le(a, b) || location_le(b, a) by {
            lemma_lex_le_connected(a.0, b.0);
        }
        assert((|a: (Seq<u8>, int), b: (Seq<u8>, int)| Self::key_le(a, b)) =~= (|
            a: (Seq<u8>, int),
            b: (Seq<u8>, int),
        | location_le(a, b)));
    }

    fn le_by_key(&self, other: &Self) -> (r: bool) {
        let a = self.file.as_str().as_bytes();
        let b = other.file.as_str().as_bytes();
        if crate::order::bytes_equal(a, b) {
            self.start_byte <= other.start_byte
        } else {
            bytes_le(a, b)
        }
    }
}

/// The tests that cover `vo` (all tests when no objective is given), in
/// scan order.
pub open spec fn covering(tests: Seq<TestEntity>, vo: Option<Seq<char>>) -> Seq<TestEntity>
    decreases tests.len(),
{
    if tests.len() == 0 {
        Seq::empty()
    } else {
        let earlier = covering(tests.drop_last(), vo);
        let t = tests.last();
        let keep = match vo {
            None => true,
            Some(v) => t.covers@.map_values(|c: crate::ids::VoId| c@).contains(v),
        };
        if keep {
            earlier.push(t)
        } else {
            earlier
        }
    }
}

/// The locations of the unmanaged test constructs (`W-SCAN-101`
/// diagnostics that carry a location), in order.
pub open spec fn unregistered_locations(ds: Seq<Diagnostic>) -> Seq<SourceLocation>
    decreases ds.len(),
{
    if ds.len() == 0 {
        Seq::empty()
    } else {
        let earlier = unregistered_locations(ds.drop_last());
        let d = ds.last();
        if d.code@ == "W-SCAN-101"@ && d.location is Some {
            earlier.push(*d.location->0)
        } else {
            earlier
        }
    }
}

/// The characters of an optional string.
pub open spec fn text_option_view(s: Option<&str>) -> Option<Seq<char>> {
    match s {
        Some(t) => Some(t@),
        None => None,
    }
}

fn covers_vo(test: &TestEntity, vo: &str) -> (r: bool)
    ensures
        r == test.covers@.map_values(|c: crate::ids::VoId| c@).contains(vo@),
{
    let ghost views = test.covers@.map_values(|c: crate::ids::VoId| c@);
    let mut i: usize = 0;
    while i < test.covers.len()
        invariant
            i <= test.covers@.len(),
            views == test.covers@.map_values(|c: crate::ids::VoId| c@),
            forall|k: int| 0 <= k < i ==> views[k] != vo@,
        decreases test.covers.len() - i,
    {
        if text_eq(test.covers[i].as_str(), vo) {
            assert(views[i as int] == vo@);
            return true;
        }
        i = i + 1;
    }
    false
}

/// Lists the tests covering `vo` (all tests if none is given) sorted by
/// id, tests with the same id in scan order; and, when asked, the
/// locations of the unmanaged test constructs sorted by file and start
/// byte.
pub fn list_tests(scan: &ScanResult, vo: Option<&str>, include_unregistered: bool) -> (sel: TestSelection)
    ensures
        sel.tests@.len() == covering(scan.tests@, text_option_view(vo)).len(),
        forall|i: int|
            0 <= i < sel.tests@.len() ==> (#[trigger] sel.tests@[i]).same_as(
                stable_sorted(covering(scan.tests@, text_option_view(vo)))[i],
            ),
        sel.unregistered@ == if include_unregistered {
            stable_sorted(unregistered_locations(scan.diagnostics@))
        } else {
            Seq::empty()
        },
{
    let ghost want = text_option_view(vo);
    let mut selected: Vec<TestEntity> = Vec::new();
    let mut i: usize = 0;
    while i < scan.tests.len()
        invariant
            i <= scan.tests@.len(),
            want == text_option_view(vo),
            selected@.len() == covering(scan.tests@.take(i as int), want).len(),
            forall|k: int|
                0 <= k < selected@.len() ==> (#[trigger] selected@[k]).same_as(
                    covering(scan.tests@.take(i as int), want)[k],
                ),
        decreases scan.tests.len() - i,
    {
        let ghost t = scan.tests@.take(i as int + 1);
        assert(t.drop_last() =~= scan.tests@.take(i as int));
        assert(t.last() == scan.tests@[i as int]);
        let keep = match vo {
            None => true,
            Some(v) => covers_vo(&scan.tests[i], v),
        };
        if keep {
            let copy = scan.tests[i].duplicate();
            selected.push(copy);
        }
        i = i + 1;
    }
    assert(scan.tests@.take(i as int) =~= scan.tests@);
    let ghost before_sort = selected@;
    let tests = stable_sort_by_key(selected);
    proof {
        lemma_stable_sorted_same_as(before_sort, covering(scan.tests@, want));
    }
    let mut unregistered: Vec<SourceLocation> = Vec::new();
    if include_unregistered {
        let mut j: usize = 0;
        while j < scan.diagnostics.len()
            invariant
                j <= scan.diagnostics@.len(),
                unregistered@ == unregistered_locations(scan.diagnostics@.take(j as int)),
            decreases scan.diagnostics.len() - j,
        {
            let ghost t = scan.diagnostics@.take(j as int + 1);
            assert(t.drop_last() =~= scan.diagnostics@.take(j as int));
            assert(t.last() == scan.diagnostics@[j as int]);
            let d = &scan.diagnostics[j];
            if text_eq(d.code.as_str(), "W-SCAN-101") {
                match &d.location {
                    Some(l) => {
                        unregistered.push(l.duplicate());
                    },
                    None => {},
                }
            }
            j = j + 1;
        }
        assert(scan.diagnostics@.take(j as int) =~= scan.diagnostics@);
        unregistered = stable_sort_by_key(unregistered);
    }
    TestSelection { tests, unregistered }
}

pub(crate) proof fn lemma_stable_sorted_same_as(a: Seq<TestEntity>, b: Seq<TestEntity>)
    requires
        a.len() == b.len(),
        forall|k: int| 0 <= k < a.len() ==> (#[trigger] a[k]).same_as(b[k]),
    ensures
        stable_sorted(a).len() == a.len(),
        stable_sorted(a).len() == stable_sorted(b).len(),
        forall|k: int| 0 <= k < stable_sorted(a).len() ==> (#[trigger] stable_sorted(a)[k]).same_as(stable_sorted(b)[k]),
{
    assert(crate::order::ranked_keys(a) =~= crate::order::ranked_keys(b)) by {
        assert forall|i: int| 0 <= i < a.len() implies a[i].sort_key() == b[i].sort_key() by {
            assert(a[i].same_as(b[i]));
        }
    }
    let ks = crate::order::ranked_keys(a).sort_by(crate::order::ranked_order::<TestEntity>());
    <(usize, TestEntity) as SortKey>::lemma_key_le_total();
    assert((|x: (Seq<u8>, int), y: (Seq<u8>, int)| <(usize, TestEntity) as SortKey>::key_le(x, y)) =~= crate::order::ranked_order::<TestEntity>());
    crate::order::ranked_keys(a).lemma_sort_by_ensures(crate::order::ranked_order::<TestEntity>());
    assert(ks.to_multiset() =~= crate::order::ranked_keys(a).to_multiset());
    assert(ks.len() == ks.to_multiset().len());
    assert(crate::order::ranked_keys(a).len() == crate::order::ranked_keys(a).to_multiset().len());
    assert(ks.len() == a.len());
    assert(stable_sorted(a).len() == ks.len());
    assert forall|k: int| 0 <= k < ks.len() implies 0 <= #[trigger] ks[k].1 < a.len() by {
        assert(ks.contains(ks[k]));
        assert(ks.to_multiset().count(ks[k]) > 0);
        assert(crate::order::ranked_keys(a).to_multiset().count(ks[k]) > 0);
        assert(crate::order::ranked_keys(a).contains(ks[k]));
    }
    assert forall|k: int| 0 <= k < stable_sorted(a).len() implies (#[trigger] stable_sorted(a)[k]).same_as(stable_sorted(b)[k]) by {
        assert(stable_sorted(a)[k] == a[ks[k].1]);
        assert(stable_sorted(b)[k] == b[ks[k].1]);
        assert(0 <= ks[k].1 < a.len());
    }
}

/// The smallest of three numbers.
pub open spec fn min3(a: nat, b: nat, c: nat) -> nat {
    if a <= b && a <= c {
        a
    } else if b <= c {
        b
    } else {
        c
    }
}

/// The Levenshtein distance: the fewest single-character insertions,
/// deletions and substitutions that turn `a` into `b`.
pub open spec fn levenshtein(a: Seq<char>, b: Seq<char>) -> nat
    decreases a.len() + b.len(),
{
    if a.len() == 0 {
        b.len()
    } else if b.len() == 0 {
        a.len()
    } else {
        min3(
            levenshtein(a.drop_last(), b) + 1,
            levenshtein(a, b.drop_last()) + 1,
            levenshtein(a.drop_last(), b.drop_last()) + if a.last() == b.last() {
                0nat
            } else {
                1nat
            },
        )
    }
}

proof fn lemma_levenshtein_bound(a: Seq<char>, b: Seq<char>)
    ensures
        levenshtein(a, b) <= a.len() + b.len(),
    decreases a.len() + b.len(),
{
    if a.len() > 0 && b.len() > 0 {
        lemma_levenshtein_bound(a.drop_last(), b);
    }
}

/// The edit distance does not depend on the direction: turning `a` into
/// `b` takes as many edits as turning `b` into `a`.
pub proof fn lemma_levenshtein_symmetric(a: Seq<char>, b: Seq<char>)
    ensures
        levenshtein(a, b) == levenshtein(b, a),
    decreases a.len() + b.len(),
{
    if a.len() > 0 && b.len() > 0 {
        lemma_levenshtein_symmetric(a.drop_last(), b);
        lemma_levenshtein_symmetric(a, b.drop_last());
        lemma_levenshtein_symmetric(a.drop_last(), b.drop_last());
    }
}

/// The edit distance lies between the difference of the lengths and the
/// longer length.
pub proof fn lemma_levenshtein_bounds(a: Seq<char>, b: Seq<char>)
    ensures
        a.len() - b.len() <= levenshtein(a, b),
        b.len() - a.len() <= levenshtein(a, b),
        levenshtein(a, b) <= if a.len() >= b.len() {
            a.len()
        } else {
            b.len()
        },
    decreases a.len() + b.len(),
{
    if a.len() > 0 && b.len() > 0 {
        lemma_levenshtein_bounds(a.drop_last(), b);
        lemma_levenshtein_bounds(a, b.drop_last());
        lemma_levenshtein_bounds(a.drop_last(), b.drop_last());
    }
}

/// The edit distance is zero exactly between equal texts.
pub proof fn lemma_levenshtein_zero_iff_equal(a: Seq<char>, b: Seq<char>)
    ensures
        (levenshtein(a, b) == 0) <==> (a == b),
    decreases a.len() + b.len(),
{
    if a.len() > 0 && b.len() > 0 {
        lemma_levenshtein_zero_iff_equal(a.drop_last(), b.drop_last());
        if a == b {
            assert(a.drop_last() == b.drop_last());
            assert(a.last() == b.last());
            assert(levenshtein(a.drop_last(), b.drop_last()) == 0);
            assert(levenshtein(a, b) == 0);
        }
        if levenshtein(a, b) == 0 {
            assert(a.last() == b.last());
            assert(levenshtein(a.drop_last(), b.drop_last()) == 0);
            assert(a.drop_last() == b.drop_last());
            assert(a =~= a.drop_last().push(a.last()));
            assert(b =~= b.drop_last().push(b.last()));
        }
    } else if a.len() == 0 && b.len() == 0 {
        assert(a =~= b);
    }
}

/// The edit distance satisfies the triangle inequality: going from `a` to
/// `c` takes no more edits than going through `b`.
pub proof fn lemma_levenshtein_triangle(a: Seq<char>, b: Seq<char>, c: Seq<char>)
    ensures
        levenshtein(a, c) <= levenshtein(a, b) + levenshtein(b, c),
    decreases a.len() + b.len() + c.len(),
{
    if a.len() == 0 {
        lemma_levenshtein_bounds(b, c);
    } else if c.len() == 0 {
        lemma_levenshtein_bounds(a, b);
    } else if b.len() == 0 {
        lemma_levenshtein_bound(a, c);
    } else {
        let a1 = a.drop_last();
        let b1 = b.drop_last();
        let c1 = c.drop_last();
        let ab = levenshtein(a, b);
        let bc = levenshtein(b, c);
        let dxy: nat = if a.last() == b.last() { 0 } else { 1 };
        let dyz: nat = if b.last() == c.last() { 0 } else { 1 };
        if ab == levenshtein(a1, b) + 1 {
            lemma_levenshtein_triangle(a1, b, c);
        } else if bc == levenshtein(b, c1) + 1 {
            lemma_levenshtein_triangle(a, b, c1);
        } else if ab == levenshtein(a, b1) + 1 {
            lemma_levenshtein_triangle(a, b1, c);
            if bc != levenshtein(b1, c) + 1 {
                assert(bc == levenshtein(b1, c1) + dyz);
                assert(levenshtein(b1, c) <= levenshtein(b1, c1) + 1) by {
                    if b1.len() > 0 {
                    } else {
                        assert(levenshtein(b1, c) == c.len());
                        assert(levenshtein(b1, c1) == c1.len());
                    }
                }
            }
        } else {
            assert(ab == levenshtein(a1, b1) + dxy);
            if bc == levenshtein(b1, c) + 1 {
                lemma_levenshtein_triangle(a, b1, c);
                assert(levenshtein(a, b1) <= levenshtein(a1, b1) + 1) by {
                    if b1.len() > 0 {
                    } else {
                        assert(levenshtein(a, b1) == a.len());
                        assert(levenshtein(a1, b1) == a1.len());
                    }
                }
            } else {
                assert(bc == levenshtein(b1, c1) + dyz);
                lemma_levenshtein_triangle(a1, b1, c1);
            }
        }
    }
}

/// The Levenshtein distance between two strings, counted in characters.
pub fn edit_distance(left: &str, right: &str) -> (d: usize)
    requires
        left@.len() + right@.len() < usize::MAX,
    ensures
        d == levenshtein(left@, right@),
{
    let l = crate::text::chars_of(left);
    let r = crate::text::chars_of(right);
    let m = r.len();
    let mut previous: Vec<usize> = Vec::new();
    let mut j: usize = 0;
    while j <= m
        invariant
            j <= m + 1,
            m == r@.len(),
            r@ == right@,
            left@.len() + right@.len() < usize::MAX,
            previous@.len() == j,
            forall|k: int| 0 <= k < j ==> previous@[k] == levenshtein(Seq::<char>::empty(), r@.take(k)),
        decreases m + 1 - j,
    {
        previous.push(j);
        j = j + 1;
    }
    let mut i: usize = 0;
    while i < l.len()
        invariant
            i <= l@.len(),
            l@ == left@,
            r@ == right@,
            m == r@.len(),
            left@.len() + right@.len() < usize::MAX,
            previous@.len() == m + 1,
            forall|k: int| 0 <= k <= m ==> previous@[k] == levenshtein(l@.take(i as int), r@.take(k)),
        decreases l.len() - i,
    {
        let ghost a = l@.take(i as int + 1);
        assert(a.drop_last() =~= l@.take(i as int));
        assert(a.last() == l@[i as int]);
        let mut current: Vec<usize> = Vec::new();
        current.push(i + 1);
        assert(r@.take(0) =~= Seq::<char>::empty());
        let mut k: usize = 0;
        while k < m
            invariant
                k <= m,
                i < l@.len(),
                m == r@.len(),
                l@ == left@,
                r@ == right@,
                a == l@.take(i as int + 1),
                a.drop_last() == l@.take(i as int),
                a.last() == l@[i as int],
                left@.len() + right@.len() < usize::MAX,
                previous@.len() == m + 1,
                forall|q: int| 0 <= q <= m ==> previous@[q] == levenshtein(l@.take(i as int), r@.take(q)),
                current@.len() == k + 1,
                forall|q: int| 0 <= q <= k ==> current@[q] == levenshtein(a, r@.take(q)),
            decreases m - k,
        {
            let ghost b = r@.take(k as int + 1);
            assert(b.drop_last() =~= r@.take(k as int));
            assert(b.last() == r@[k as int]);
            proof {
                lemma_levenshtein_bound(a, r@.take(k as int));
                lemma_levenshtein_bound(l@.take(i as int), b);
                lemma_levenshtein_bound(l@.take(i as int), r@.take(k as int));
            }
            let diff: usize = if l[i] != r[k] { 1 } else { 0 };
            let insert = current[k] + 1;
            let delete = previous[k + 1] + 1;
            let substitute = previous[k] + diff;
            let best = if insert <= delete && insert <= substitute {
                insert
            } else if delete <= substitute {
                delete
            } else {
                substitute
            };
            assert(best == levenshtein(a, b));
            current.push(best);
            k = k + 1;
        }
        previous = current;
        i = i + 1;
    }
    assert(l@.take(i as int) =~= left@);
    assert(r@.take(m as int) =~= right@);
    previous[m]
}

/// The text of a declared target: a locator's value or a SRC ID.
pub open spec fn target_text(t: TargetRef) -> Seq<char> {
    match t {
        TargetRef::Locator(l) => l.value@,
        TargetRef::SrcId(id) => id@,
    }
}

/// The text of a declared target: a locator's value or a SRC ID.
pub fn target_string(target: &TargetRef) -> (s: String)
    ensures
        s@ == target_text(*target),
{
    match target {
        TargetRef::Locator(locator) => locator.value.clone(),
        TargetRef::SrcId(id) => id.as_str().to_owned(),
    }
}

/// The ids within edit distance two of `requested`, in order.
pub open spec fn near_ids(ids: Seq<String>, requested: Seq<char>) -> Seq<String>
    decreases ids.len(),
{
    if ids.len() == 0 {
        Seq::empty()
    } else {
        let earlier = near_ids(ids.drop_last(), requested);
        if levenshtein(ids.last()@, requested) <= 2 {
            earlier.push(ids.last())
        } else {
            earlier
        }
    }
}

/// The ids within edit distance two of `requested`, sorted.
pub fn id_candidates(ids: &Vec<String>, requested: &str) -> (out: Vec<String>)
    requires
        forall|i: int| 0 <= i < ids@.len() ==> (#[trigger] ids@[i])@.len() + requested@.len() < usize::MAX,
    ensures
        out@ == stable_sorted(near_ids(ids@, requested@)),
{
    let mut near: Vec<String> = Vec::new();
    let mut i: usize = 0;
    while i < ids.len()
        invariant
            i <= ids@.len(),
            forall|k: int| 0 <= k < ids@.len() ==> (#[trigger] ids@[k])@.len() + requested@.len() < usize::MAX,
            near@ == near_ids(ids@.take(i as int), requested@),
        decreases ids.len() - i,
    {
        let ghost t = ids@.take(i as int + 1);
        assert(t.drop_last() =~= ids@.take(i as int));
        assert(t.last() == ids@[i as int]);
        if edit_distance(ids[i].as_str(), requested) <= 2 {
            near.push(ids[i].clone());
        }
        i = i + 1;
    }
    assert(ids@.take(i as int) =~= ids@);
    stable_sort_by_key(near)
}

/// The ids of the scanned tests, in order.
pub open spec fn test_ids(tests: Seq<TestEntity>) -> Seq<String> {
    tests.map_values(|t: TestEntity| t.id.0)
}

/// The scanned test ids within edit distance two of `requested`, sorted.
pub fn test_id_candidates(scan: &ScanResult, requested: &str) -> (out: Vec<String>)
    requires
        forall|i: int| 0 <= i < scan.tests@.len() ==> (#[trigger] scan.tests@[i]).id@.len() + requested@.len() < usize::MAX,
    ensures
        out@ == stable_sorted(near_ids(test_ids(scan.tests@), requested@)),
{
    let mut ids: Vec<String> = Vec::new();
    let mut i: usize = 0;
    while i < scan.tests.len()
        invariant
            i <= scan.tests@.len(),
            ids@ == test_ids(scan.tests@.take(i as int)),
        decreases scan.tests.len() - i,
    {
        ids.push(scan.tests[i].id.0.clone());
        assert(test_ids(scan.tests@.take(i as int + 1)) =~= test_ids(scan.tests@.take(i as int)).push(scan.tests@[i as int].id.0));
        i = i + 1;
    }
    assert(scan.tests@.take(i as int) =~= scan.tests@);
    assert forall|k: int| 0 <= k < ids@.len() implies (#[trigger] ids@[k])@.len() + requested@.len() < usize::MAX by {
        assert(ids@[k] == scan.tests@[k].id.0);
    }
    id_candidates(&ids, requested)
}

/// `::` starts at position `i` of `s`.
pub open spec fn separator_at(s: Seq<char>, i: int) -> bool {
    0 <= i && i + 1 < s.len() && s[i] == ':' && s[i + 1] == ':'
}

/// The text after the last `::` of `s`, or `s` itself if it has none.
pub open spec fn last_segment(s: Seq<char>) -> Seq<char> {
    if exists|i: int| separator_at(s, i) {
        let i = choose|i: int| separator_at(s, i) && forall|j: int| i < j ==> !separator_at(s, j);
        s.subrange(i + 2, s.len() as int)
    } else {
        s
    }
}

/// The text after the last `::` of `s`, or `s` itself if it has none.
pub fn last_path_segment(s: &str) -> (out: String)
    ensures
        out@ == last_segment(s@),
{
    let chars = crate::text::chars_of(s);
    let mut i: usize = chars.len();
    while i >= 2
        invariant
            i <= chars@.len(),
            chars@ == s@,
            forall|j: int| i - 1 <= j ==> !separator_at(s@, j),
        decreases i,
    {
        if chars[i - 2] == ':' && chars[i - 1] == ':' {
            let mut rest: Vec<char> = Vec::new();
            let mut k: usize = i;
            while k < chars.len()
                invariant
                    i <= k <= chars@.len(),
                    rest@ == chars@.subrange(i as int, k as int),
                decreases chars.len() - k,
            {
                rest.push(chars[k]);
                assert(rest@ =~= chars@.subrange(i as int, k as int + 1));
                k = k + 1;
            }
            proof {
                let p = i as int - 2;
                assert(separator_at(s@, p));
                assert forall|j: int| p < j implies !separator_at(s@, j) by {
                    if j == p + 1 {
                        if separator_at(s@, j) {
                            assert(j + 1 == i);
                            assert(j + 1 < s@.len());
                        }
                    }
                }
                let c = choose|q: int| separator_at(s@, q) && forall|j: int| q < j ==> !separator_at(s@, j);
                if c < p {
                    assert(!separator_at(s@, p));
                }
                if c > p {
                    assert(!separator_at(s@, c));
                }
                assert(c == p);
            }
            return crate::text::string_from_chars(&rest);
        }
        i = i - 1;
    }
    proof {
        assert forall|j: int| !separator_at(s@, j) by {
            if separator_at(s@, j) {
                assert(j >= 0);
            }
        }
    }
    s.to_owned()
}

/// The locator values of the sources whose last path segment is `item`.
pub open spec fn exact_symbols(sources: Seq<crate::source::SourceFunction>, item: Seq<char>) -> Seq<Seq<char>>
    decreases sources.len(),
{
    if sources.len() == 0 {
        Seq::empty()
    } else {
        let earlier = exact_symbols(sources.drop_last(), item);
        let v = sources.last().locator.value@;
        if last_segment(v) == item {
            earlier.push(v)
        } else {
            earlier
        }
    }
}

/// The locator values of the sources whose last path segment is within
/// edit distance two of `item`.
pub open spec fn near_symbols(sources: Seq<crate::source::SourceFunction>, item: Seq<char>) -> Seq<Seq<char>>
    decreases sources.len(),
{
    if sources.len() == 0 {
        Seq::empty()
    } else {
        let earlier = near_symbols(sources.drop_last(), item);
        let v = sources.last().locator.value@;
        if levenshtein(last_segment(v), item) <= 2 {
            earlier.push(v)
        } else {
            earlier
        }
    }
}

/// The items of `a` that `b` does not hold, in order.
pub open spec fn without(a: Seq<Seq<char>>, b: Seq<Seq<char>>) -> Seq<Seq<char>>
    decreases a.len(),
{
    if a.len() == 0 {
        Seq::empty()
    } else {
        let earlier = without(a.drop_last(), b);
        if b.contains(a.last()) {
            earlier
        } else {
            earlier.push(a.last())
        }
    }
}

/// The suggestions for a requested locator: the distinct locators whose
/// last path segment equals the requested one's, sorted, then the other
/// distinct locators whose last segment is within edit distance two of it,
/// sorted. (Opaque to keep proofs that only carry it along fast; reveal
/// it to read it.)
#[verifier::opaque]
pub open spec fn symbol_suggestions(sources: Seq<crate::source::SourceFunction>, requested: Seq<char>) -> Seq<Seq<char>> {
    sorted_distinct(exact_symbols(sources, last_segment(requested))) + without(
        sorted_distinct(near_symbols(sources, last_segment(requested))),
        sorted_distinct(exact_symbols(sources, last_segment(requested))),
    )
}

/// Suggestions for a source locator: first the distinct locators whose
/// last path segment equals the requested one's, sorted; then the other
/// distinct locators whose last segment is within edit distance two of
/// it, sorted.
pub fn symbol_candidates(scan: &ScanResult, requested: &str) -> (out: Vec<String>)
    requires
        forall|i: int|
            0 <= i < scan.sources@.len() ==> last_segment((#[trigger] scan.sources@[i]).locator.value@).len()
                + last_segment(requested@).len() < usize::MAX,
    ensures
        out@.map_values(|t: String| t@) == symbol_suggestions(scan.sources@, requested@),
{
    proof {
        reveal(symbol_suggestions);
    }
    let item = last_path_segment(requested);
    let mut exact: Vec<String> = Vec::new();
    let mut near: Vec<String> = Vec::new();
    let mut i: usize = 0;
    while i < scan.sources.len()
        invariant
            i <= scan.sources@.len(),
            item@ == last_segment(requested@),
            forall|k: int|
                0 <= k < scan.sources@.len() ==> last_segment((#[trigger] scan.sources@[k]).locator.value@).len()
                    + last_segment(requested@).len() < usize::MAX,
            exact@.map_values(|t: String| t@) == exact_symbols(scan.sources@.take(i as int), item@),
            near@.map_values(|t: String| t@) == near_symbols(scan.sources@.take(i as int), item@),
        decreases scan.sources.len() - i,
    {
        let ghost t = scan.sources@.take(i as int + 1);
        assert(t.drop_last() =~= scan.sources@.take(i as int));
        assert(t.last() == scan.sources@[i as int]);
        let value = &scan.sources[i].locator.value;
        let segment = last_path_segment(value.as_str());
        if text_eq(segment.as_str(), item.as_str()) {
            let ghost before = exact@;
            exact.push(value.clone());
            assert(exact@.map_values(|t: String| t@) =~= before.map_values(|t: String| t@).push(value@));
        }
        if edit_distance(segment.as_str(), item.as_str()) <= 2 {
            let ghost before = near@;
            near.push(value.clone());
            assert(near@.map_values(|t: String| t@) =~= before.map_values(|t: String| t@).push(value@));
        }
        i = i + 1;
    }
    assert(scan.sources@.take(i as int) =~= scan.sources@);
    let exact = crate::scan_documents::sorted_distinct_names(&exact);
    let near = crate::scan_documents::sorted_distinct_names(&near);
    let ghost ev = exact@.map_values(|t: String| t@);
    let ghost nv = near@.map_values(|t: String| t@);
    let mut out: Vec<String> = crate::text::duplicate_strings(&exact);
    assert(out@.map_values(|t: String| t@) =~= ev + without(nv.take(0), ev));
    let mut j: usize = 0;
    while j < near.len()
        invariant
            j <= near@.len(),
            ev == exact@.map_values(|t: String| t@),
            nv == near@.map_values(|t: String| t@),
            out@.map_values(|t: String| t@) == ev + without(nv.take(j as int), ev),
        decreases near.len() - j,
    {
        let ghost t = nv.take(j as int + 1);
        assert(t.drop_last() =~= nv.take(j as int));
        assert(t.last() == near@[j as int]@);
        if !contains_string(&exact, near[j].as_str()) {
            let ghost before = out@;
            out.push(near[j].clone());
            assert(out@.map_values(|t: String| t@) =~= before.map_values(|t: String| t@).push(near@[j as int]@));
        }
        j = j + 1;
    }
    assert(nv.take(j as int) =~= nv);
    out
}

/// Whether the test lists the objective `vo` anywhere among those it
/// covers.
pub open spec fn lists_objective(t: TestEntity, vo: Seq<char>) -> bool {
    exists|j: int| 0 <= j < t.covers@.len() && (#[trigger] t.covers@[j])@ == vo
}

proof fn lemma_covering_is_filter(tests: Seq<TestEntity>, vo: Option<Seq<char>>)
    ensures
        covering(tests, vo) == match vo {
            None => tests,
            Some(v) => tests.filter(|t: TestEntity| lists_objective(t, v)),
        },
    decreases tests.len(),
{
    reveal(Seq::filter);
    if tests.len() > 0 {
        lemma_covering_is_filter(tests.drop_last(), vo);
        let t = tests.last();
        if let Some(v) = vo {
            let views = t.covers@.map_values(|c: crate::ids::VoId| c@);
            if views.contains(v) {
                let j = choose|j: int| 0 <= j < views.len() && views[j] == v;
                assert(t.covers@[j]@ == v);
            }
            if lists_objective(t, v) {
                let j = choose|j: int| 0 <= j < t.covers@.len() && (#[trigger] t.covers@[j])@ == v;
                assert(views[j] == v);
            }
        } else {
            assert(tests.drop_last().push(t) =~= tests);
        }
    }
}

/// The tests `list_tests` gives: with an objective, exactly the tests that
/// list it anywhere among the objectives they cover, each as often as the
/// scan holds it; without one, every test; in either case ordered by id.
pub proof fn lemma_listed_tests_are_those_covering(tests: Seq<TestEntity>, vo: Option<Seq<char>>)
    ensures
        stable_sorted(covering(tests, vo)).to_multiset() =~= match vo {
            None => tests.to_multiset(),
            Some(v) => tests.filter(|t: TestEntity| lists_objective(t, v)).to_multiset(),
        },
        forall|i: int, j: int|
            0 <= i < j < stable_sorted(covering(tests, vo)).len() ==> lex_le(
                encode_utf8((#[trigger] stable_sorted(covering(tests, vo))[i]).id@),
                encode_utf8((#[trigger] stable_sorted(covering(tests, vo))[j]).id@),
            ),
{
    lemma_covering_is_filter(tests, vo);
    crate::order::lemma_stable_sorted_permutes_and_orders(covering(tests, vo));
    let out = stable_sorted(covering(tests, vo));
    assert forall|i: int, j: int| 0 <= i < j < out.len() implies lex_le(
        encode_utf8((#[trigger] out[i]).id@),
        encode_utf8((#[trigger] out[j]).id@),
    ) by {
        assert(TestEntity::key_le(out[i].sort_key(), out[j].sort_key()));
    }
}

} // verus!
