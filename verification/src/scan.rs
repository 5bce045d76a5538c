//! The result of a scan, lookups on it, and the reference checks the scan
//! runs over managed tests.

use vstd::prelude::*;

use crate::diagnostic::{Diagnostic, DiagnosticSeverity};
use crate::protocol::ScanSummary;
use crate::source::{SourceFunction, SourceLocation};
use crate::test_entity::{DiscoveredTest, TestEntity};
use crate::text::{push_text, text_eq};

verus! {

/// Why a scan could not run at all.
#[derive(Clone, Debug, Eq, PartialEq)]
pub enum ScanError {
    /// The record store could not be read.
    Store(String),
    /// A file or directory could not be read.
    Io { path: String, message: String },
    /// Source discovery failed for good.
    Discovery { path: String, message: String },
    /// The configuration names an adapter that is not registered.
    UnknownAdapterId { message: String },
    /// The configuration cannot be scanned (for instance it declares no
    /// adapter).
    Config(String),
}

/// The diagnostic code each kind of scan error carries, if any.
pub open spec fn scan_error_code(e: ScanError) -> Option<Seq<char>> {
    match e {
        ScanError::Discovery { .. } => Some("E-ADAPTER-002"@),
        ScanError::UnknownAdapterId { .. } => Some("E-CONFIG-001"@),
        _ => None,
    }
}

impl ScanError {
    /// The diagnostic code this error carries: discovery failures and
    /// unknown adapters have one, the others do not.
    pub fn code(&self) -> (r: Option<&'static str>)
        ensures
            match r {
                Some(c) => scan_error_code(*self) == Some(c@),
                None => scan_error_code(*self) is None,
            },
    {
        match self {
            ScanError::Discovery { .. } => Some("E-ADAPTER-002"),
            ScanError::UnknownAdapterId { .. } => Some("E-CONFIG-001"),
            _ => None,
        }
    }
}

/// Everything a scan found.
#[derive(Clone, Debug)]
pub struct ScanResult {
    pub summary: ScanSummary,
    /// The structurally complete managed tests, colliding ids included.
    pub tests: Vec<TestEntity>,
    /// Every test construct an adapter recognized, managed or not.
    pub discovered: Vec<DiscoveredTest>,
    pub sources: Vec<SourceFunction>,
    pub diagnostics: Vec<Diagnostic>,
}

/// The result of looking a test up by id.
#[derive(Clone, Debug)]
pub enum TestIdLookup<'a> {
    /// No managed test has this id.
    NotFound,
    /// Exactly one managed test has this id.
    Unique(&'a TestEntity),
    /// Several managed tests declare this id; all are returned and none is
    /// preferred.
    Collided(Vec<&'a TestEntity>),
}

/// The positions of the tests with the given id, in order.
pub open spec fn positions_with_id(tests: Seq<TestEntity>, id: Seq<char>) -> Seq<int>
    decreases tests.len(),
{
    if tests.len() == 0 {
        Seq::empty()
    } else {
        let earlier = positions_with_id(tests.drop_last(), id);
        if tests.last().id@ == id {
            earlier.push(tests.len() - 1)
        } else {
            earlier
        }
    }
}

impl ScanResult {
    /// Whether any diagnostic is an error.
    pub fn has_errors(&self) -> (r: bool)
        ensures
            r == exists|i: int|
                0 <= i < self.diagnostics@.len() && self.diagnostics@[i].severity
                    == DiagnosticSeverity::Error,
    {
        let mut i: usize = 0;
        while i < self.diagnostics.len()
            invariant
                i <= self.diagnostics@.len(),
                forall|k: int|
                    0 <= k < i ==> self.diagnostics@[k].severity != DiagnosticSeverity::Error,
            decreases self.diagnostics.len() - i,
        {
            if self.diagnostics[i].is_error() {
                return true;
            }
            i = i + 1;
        }
        false
    }

    /// The managed tests with the given id: none, exactly one, or all of
    /// them in scan order when the id collides.
    pub fn tests_by_id<'a>(&'a self, id: &str) -> (r: TestIdLookup<'a>)
        ensures
            ({
                let ps = positions_with_id(self.tests@, id@);
                match r {
                    TestIdLookup::NotFound => ps.len() == 0,
                    TestIdLookup::Unique(t) => ps.len() == 1 && *t == self.tests@[ps[0]],
                    TestIdLookup::Collided(all) => ps.len() > 1 && all@.len() == ps.len()
                        && forall|k: int| 0 <= k < ps.len() ==> *all@[k] == self.tests@[ps[k]],
                }
            }),
    {
        let mut all: Vec<&'a TestEntity> = Vec::new();
        let mut i: usize = 0;
        while i < self.tests.len()
            invariant
                i <= self.tests@.len(),
                all@.len() == positions_with_id(self.tests@.take(i as int), id@).len(),
                forall|k: int|
                    0 <= k < all@.len() ==> *all@[k] == self.tests@[positions_with_id(
                        self.tests@.take(i as int),
                        id@,
                    )[k]],
                forall|k: int|
                    0 <= k < positions_with_id(self.tests@.take(i as int), id@).len() ==> 0 <= (
                    #[trigger] positions_with_id(self.tests@.take(i as int), id@)[k]) < i,
            decreases self.tests.len() - i,
        {
            let ghost t = self.tests@.take(i as int + 1);
            assert(t.drop_last() =~= self.tests@.take(i as int));
            assert(t.last() == self.tests@[i as int]);
            if text_eq(self.tests[i].id.as_str(), id) {
                all.push(&self.tests[i]);
            }
            i = i + 1;
        }
        assert(self.tests@.take(i as int) =~= self.tests@);
        if all.len() == 0 {
            TestIdLookup::NotFound
        } else if all.len() == 1 {
            TestIdLookup::Unique(all[0])
        } else {
            TestIdLookup::Collided(all)
        }
    }
}

/// The message reported for a test that covers an unknown objective.
pub open spec fn missing_vo_message(test: Seq<char>, vo: Seq<char>) -> Seq<char> {
    "test `"@ + test + "` references missing VO `"@ + vo + "`"@
}

/// What a diagnostic says: its code, severity, message and location.
pub open spec fn diag_view(d: Diagnostic) -> (Seq<char>, DiagnosticSeverity, Seq<char>, Option<
    SourceLocation,
>) {
    (
        d.code@,
        d.severity,
        d.message@,
        match d.location {
            Some(b) => Some(*b),
            None => None,
        },
    )
}

/// The views of a list of diagnostics.
pub open spec fn diag_views(ds: Seq<Diagnostic>) -> Seq<
    (Seq<char>, DiagnosticSeverity, Seq<char>, Option<SourceLocation>),
> {
    ds.map_values(|d: Diagnostic| diag_view(d))
}

/// An error diagnostic located at a test.
pub open spec fn located_error(code: Seq<char>, message: Seq<char>, at: SourceLocation) -> (
    Seq<char>,
    DiagnosticSeverity,
    Seq<char>,
    Option<SourceLocation>,
) {
    (code, DiagnosticSeverity::Error, message, Some(at))
}

/// The reports for one test's covered objectives that are not known.
pub open spec fn missing_vo_reports(t: TestEntity, covers: Seq<crate::ids::VoId>, known: Seq<Seq<char>>) -> Seq<
    (Seq<char>, DiagnosticSeverity, Seq<char>, Option<SourceLocation>),
>
    decreases covers.len(),
{
    if covers.len() == 0 {
        Seq::empty()
    } else {
        let earlier = missing_vo_reports(t, covers.drop_last(), known);
        let vo = covers.last()@;
        if known.contains(vo) {
            earlier
        } else {
            earlier.push(located_error("E-SCAN-003"@, missing_vo_message(t.id@, vo), t.location))
        }
    }
}

/// The reports for every managed test's unknown covered objectives, test
/// by test in order, each test's covers in declared order.
pub open spec fn vo_reference_reports(tests: Seq<TestEntity>, known: Seq<Seq<char>>) -> Seq<
    (Seq<char>, DiagnosticSeverity, Seq<char>, Option<SourceLocation>),
>
    decreases tests.len(),
{
    if tests.len() == 0 {
        Seq::empty()
    } else {
        vo_reference_reports(tests.drop_last(), known) + missing_vo_reports(
            tests.last(),
            tests.last().covers@,
            known,
        )
    }
}

/// Whether `list` holds a string equal to `s`.
pub fn contains_string(list: &Vec<String>, s: &str) -> (r: bool)
    ensures
        r == list@.map_values(|t: String| t@).contains(s@),
{
    let ghost views = list@.map_values(|t: String| t@);
    let mut i: usize = 0;
    while i < list.len()
        invariant
            i <= list@.len(),
            views == list@.map_values(|t: String| t@),
            forall|k: int| 0 <= k < i ==> views[k] != s@,
        decreases list.len() - i,
    {
        if text_eq(list[i].as_str(), s) {
            assert(views[i as int] == s@);
            return true;
        }
        i = i + 1;
    }
    false
}

/// Reports every covered objective id that is not among `vo_ids`
/// (`E-SCAN-003`), located at the covering test.
pub fn check_vo_references(tests: &Vec<TestEntity>, vo_ids: &Vec<String>) -> (out: Vec<Diagnostic>)
    ensures
        diag_views(out@) == vo_reference_reports(tests@, vo_ids@.map_values(|t: String| t@)),
{
    let ghost known = vo_ids@.map_values(|t: String| t@);
    let mut out: Vec<Diagnostic> = Vec::new();
    let mut i: usize = 0;
    while i < tests.len()
        invariant
            i <= tests@.len(),
            known == vo_ids@.map_values(|t: String| t@),
            diag_views(out@) == vo_reference_reports(tests@.take(i as int), known),
        decreases tests.len() - i,
    {
        let test = &tests[i];
        let ghost base = diag_views(out@);
        let mut j: usize = 0;
        while j < test.covers.len()
            invariant
                j <= test.covers@.len(),
                *test == tests@[i as int],
                known == vo_ids@.map_values(|t: String| t@),
                diag_views(out@) == base + missing_vo_reports(*test, test.covers@.take(j as int), known),
            decreases test.covers.len() - j,
        {
            let vo = test.covers[j].as_str();
            let ghost c = test.covers@.take(j as int + 1);
            assert(c.drop_last() =~= test.covers@.take(j as int));
            if !contains_string(vo_ids, vo) {
                let mut message = String::new();
                push_text(&mut message, "test `");
                push_text(&mut message, test.id.as_str());
                push_text(&mut message, "` references missing VO `");
                push_text(&mut message, vo);
                push_text(&mut message, "`");
                assert(message@ =~= missing_vo_message(test.id@, vo@));
                let d = Diagnostic::error("E-SCAN-003", message).with_location(
                    test.location.duplicate(),
                );
                let ghost before = out@;
                out.push(d);
                assert(diag_views(out@) =~= diag_views(before).push(diag_view(d)));
            }
            assert(diag_views(out@) =~= base + missing_vo_reports(*test, c, known));
            j = j + 1;
        }
        assert(test.covers@.take(j as int) =~= test.covers@);
        let ghost t = tests@.take(i as int + 1);
        assert(t.drop_last() =~= tests@.take(i as int));
        i = i + 1;
    }
    assert(tests@.take(i as int) =~= tests@);
    out
}

} // verus!
