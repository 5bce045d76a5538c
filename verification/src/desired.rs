//! Checking the state a structured test edit asks for, before the test's
//! source is rewritten.

use vstd::prelude::*;

use crate::diagnostic::{Diagnostic, DiagnosticSeverity};
use crate::discovery::{parse_locator, Locator as RustLocator};
use crate::forms::{is_rust_identifier, trim};
use crate::operations::{id_candidates, near_ids, test_id_candidates, test_ids};
use crate::order::stable_sorted;
use crate::queries::{first_unresolved, lookup_error, suggestible, symbol_failure, symbol_resolves};
use crate::scan::{contains_string, ScanResult};
use crate::source::{SourceFunction, SourceLocation};
use crate::test_entity::TestEntity;
use crate::text::text_eq;

verus! {

/// The state a structured edit asks a test to reach.
pub struct DesiredTest {
    pub id: String,
    pub covers: Vec<String>,
    pub targets: Vec<String>,
    pub intent: String,
    pub input: Option<String>,
    pub expect: Option<String>,
    pub kind: Option<String>,
    pub cases: Vec<String>,
    pub related: Vec<String>,
    pub fn_name: String,
    pub file: String,
}

/// What is wrong with a desired test state, in the order it is checked.
pub enum EditProblem {
    IdChanged,
    FileMoved,
    NoCovers,
    UnreadableIds(Seq<char>),
    MissingVo(Seq<char>),
    NoTargets,
    BadTarget(Seq<char>),
    EmptyIntent,
    NotIdentifier,
    FunctionExists,
    MissingRelated(Seq<char>),
}

/// The texts of a list of strings.
pub open spec fn texts(v: Seq<String>) -> Seq<Seq<char>> {
    v.map_values(|s: String| s@)
}

/// The position of the first covered id that is not a known objective.
pub open spec fn first_unknown(ids: Seq<Seq<char>>, known: Seq<Seq<char>>) -> int {
    choose|i: int|
        0 <= i < ids.len() && !known.contains(#[trigger] ids[i]) && forall|j: int| 0 <= j < i ==> known.contains(ids[j])
}

/// Some other source function in `file` already has the item name
/// `fn_name`.
pub open spec fn function_taken(
    sources: Seq<SourceFunction>,
    file: Seq<char>,
    fn_name: Seq<char>,
    current: SourceLocation,
) -> bool {
    exists|i: int| 0 <= i < sources.len() && names_function(#[trigger] sources[i], file, fn_name, current)
}

/// The source function is another function in `file` with the item name
/// `fn_name`.
pub open spec fn names_function(s: SourceFunction, file: Seq<char>, fn_name: Seq<char>, current: SourceLocation) -> bool {
    s.location.file@ == file && !same_place(s.location, current) && match parse_locator(s.locator.value@) {
        Some(p) => p.1 == fn_name,
        None => false,
    }
}

/// Two locations are the same: same file, function, lines and bytes.
pub open spec fn same_place(a: SourceLocation, b: SourceLocation) -> bool {
    a.file@ == b.file@ && a.function@ == b.function@ && a.start_line == b.start_line && a.end_line == b.end_line
        && a.start_byte == b.start_byte && a.end_byte == b.end_byte
}

/// The related id names neither the edited test nor a scanned test.
pub open spec fn related_missing(tests: Seq<TestEntity>, current_id: Seq<char>, r: Seq<char>) -> bool {
    r != current_id && !texts(test_ids(tests)).contains(r)
}

/// The position of the first related id that is missing.
pub open spec fn first_missing_related(tests: Seq<TestEntity>, current_id: Seq<char>, related: Seq<Seq<char>>) -> int {
    choose|i: int|
        0 <= i < related.len() && related_missing(tests, current_id, #[trigger] related[i]) && forall|j: int|
            0 <= j < i ==> !related_missing(tests, current_id, related[j])
}

/// The first problem of a desired test state, given the objective ids as
/// read (or why they could not be read).
pub open spec fn edit_problem(
    tests: Seq<TestEntity>,
    sources: Seq<SourceFunction>,
    current: TestEntity,
    desired: DesiredTest,
    vo_ids: Result<Seq<String>, Seq<char>>,
) -> Option<EditProblem> {
    let covers = texts(desired.covers@);
    if desired.id@ != current.id@ {
        Some(EditProblem::IdChanged)
    } else if desired.file@ != current.location.file@ {
        Some(EditProblem::FileMoved)
    } else if covers.len() == 0 {
        Some(EditProblem::NoCovers)
    } else {
        match vo_ids {
            Err(e) => Some(EditProblem::UnreadableIds(e)),
            Ok(known) => if exists|i: int| 0 <= i < covers.len() && !texts(known).contains(#[trigger] covers[i]) {
                Some(EditProblem::MissingVo(covers[first_unknown(covers, texts(known))]))
            } else {
                target_problem(tests, sources, current, desired)
            },
        }
    }
}

/// The first problem of a desired test state once its covered objectives
/// are known: its targets, intent, function name and related tests.
pub open spec fn target_problem(
    tests: Seq<TestEntity>,
    sources: Seq<SourceFunction>,
    current: TestEntity,
    desired: DesiredTest,
) -> Option<EditProblem> {
    let targets = texts(desired.targets@);
    if targets.len() == 0 {
        Some(EditProblem::NoTargets)
    } else if exists|i: int| 0 <= i < targets.len() && !symbol_resolves(sources, #[trigger] targets[i]) {
        Some(EditProblem::BadTarget(targets[first_unresolved(sources, targets)]))
    } else {
        name_problem(tests, sources, current, desired)
    }
}

/// The first problem of a desired test state whose targets exist: its
/// intent, function name and related tests.
pub open spec fn name_problem(
    tests: Seq<TestEntity>,
    sources: Seq<SourceFunction>,
    current: TestEntity,
    desired: DesiredTest,
) -> Option<EditProblem> {
    let related = texts(desired.related@);
    if trim(desired.intent@).len() == 0 {
        Some(EditProblem::EmptyIntent)
    } else if !is_rust_identifier(desired.fn_name@) {
        Some(EditProblem::NotIdentifier)
    } else if function_taken(sources, desired.file@, desired.fn_name@, current.location) {
        Some(EditProblem::FunctionExists)
    } else if exists|i: int| 0 <= i < related.len() && related_missing(tests, current.id@, #[trigger] related[i]) {
        Some(EditProblem::MissingRelated(related[first_missing_related(tests, current.id@, related)]))
    } else {
        None
    }
}

/// The diagnostic reports the problem: its code, message and candidates.
pub open spec fn reports_problem(
    d: Diagnostic,
    p: EditProblem,
    tests: Seq<TestEntity>,
    sources: Seq<SourceFunction>,
    desired: DesiredTest,
    vo_ids: Result<Seq<String>, Seq<char>>,
) -> bool {
    let plain = |code: Seq<char>, message: Seq<char>|
        d.code@ == code && d.message@ == message && d.candidates@.len() == 0 && d.severity
            == DiagnosticSeverity::Error;
    match p {
        EditProblem::IdChanged => plain("E-OP-001"@, "Structured Edit cannot change a Test ID"@),
        EditProblem::FileMoved => plain("E-OP-003"@, "Structured Edit cannot move a Test to another file"@),
        EditProblem::NoCovers => plain("E-OP-001"@, "covers must contain at least one VO ID"@),
        EditProblem::UnreadableIds(e) => plain("E-CORE-001"@, "could not read entity IDs: "@ + e),
        EditProblem::MissingVo(id) => match vo_ids {
            Ok(known) => d.code@ == "E-OP-001"@ && d.message@ == "VO `"@ + id + "` does not exist"@
                && d.candidates@ == stable_sorted(near_ids(known, id)) && d.severity == DiagnosticSeverity::Error,
            Err(_) => false,
        },
        EditProblem::NoTargets => plain("E-OP-001"@, "target must contain at least one source locator"@),
        EditProblem::BadTarget(t) => lookup_error(d, symbol_failure(t), sources, t),
        EditProblem::EmptyIntent => plain("E-OP-001"@, "intent must not be empty"@),
        EditProblem::NotIdentifier => plain("E-OP-001"@, "`"@ + desired.fn_name@ + "` is not a Rust identifier"@),
        EditProblem::FunctionExists => plain(
            "E-OP-001"@,
            "function `"@ + desired.fn_name@ + "` already exists in `"@ + desired.file@ + "`"@,
        ),
        EditProblem::MissingRelated(r) => d.code@ == "E-OP-001"@ && d.message@ == "related Test `"@ + r
            + "` does not exist"@ && d.candidates@ == stable_sorted(near_ids(test_ids(tests), r)) && d.severity
            == DiagnosticSeverity::Error,
    }
}

fn plain_error(code: &str, message: String) -> (d: Diagnostic)
    ensures
        d.code@ == code@,
        d.message@ == message@,
        d.candidates@.len() == 0,
        d.severity == DiagnosticSeverity::Error,
{
    Diagnostic::error(code, message)
}

pub(crate) fn first_unknown_vo(covers: &Vec<String>, known: &Vec<String>) -> (r: Option<usize>)
    ensures
        match r {
            Some(i) => i < covers@.len() && !texts(known@).contains(covers@[i as int]@) && first_unknown(
                texts(covers@),
                texts(known@),
            ) == i,
            None => !exists|i: int| 0 <= i < covers@.len() && !texts(known@).contains(#[trigger] texts(covers@)[i]),
        },
{
    let ghost cv = texts(covers@);
    let ghost kv = texts(known@);
    let mut i: usize = 0;
    while i < covers.len()
        invariant
            i <= covers@.len(),
            cv == texts(covers@),
            kv == texts(known@),
            forall|j: int| 0 <= j < i ==> kv.contains(#[trigger] cv[j]),
        decreases covers.len() - i,
    {
        assert(cv[i as int] == covers@[i as int]@);
        if !contains_string(known, covers[i].as_str()) {
            proof {
                assert(0 <= i < cv.len() && !kv.contains(cv[i as int]) && forall|j: int| 0 <= j < i ==> kv.contains(cv[j]));
                let w = first_unknown(cv, kv);
                if w < i {
                    assert(kv.contains(cv[w]));
                }
                if w > i {
                    assert(kv.contains(cv[i as int]));
                }
            }
            return Some(i);
        }
        i = i + 1;
    }
    None
}

fn first_bad_target(sources: &Vec<SourceFunction>, targets: &Vec<String>) -> (r: Option<(usize, String)>)
    ensures
        match r {
            Some((i, m)) => i < targets@.len() && m@ == symbol_failure(targets@[i as int]@) && first_unresolved(
                sources@,
                texts(targets@),
            ) == i && !symbol_resolves(sources@, targets@[i as int]@),
            None => !exists|i: int|
                0 <= i < targets@.len() && !symbol_resolves(sources@, #[trigger] texts(targets@)[i]),
        },
{
    let ghost tv = texts(targets@);
    let mut i: usize = 0;
    while i < targets.len()
        invariant
            i <= targets@.len(),
            tv == texts(targets@),
            forall|j: int| 0 <= j < i ==> symbol_resolves(sources@, #[trigger] tv[j]),
        decreases targets.len() - i,
    {
        assert(tv[i as int] == targets@[i as int]@);
        match crate::queries::check_symbol(sources, targets[i].as_str()) {
            Some(m) => {
                proof {
                    assert(0 <= i < tv.len() && !symbol_resolves(sources@, tv[i as int]) && forall|j: int|
                        0 <= j < i ==> symbol_resolves(sources@, tv[j]));
                    let w = first_unresolved(sources@, tv);
                    if w < i {
                        assert(symbol_resolves(sources@, tv[w]));
                    }
                    if w > i {
                        assert(symbol_resolves(sources@, tv[i as int]));
                    }
                }
                return Some((i, m));
            },
            None => {},
        }
        i = i + 1;
    }
    None
}

pub(crate) fn same_location(a: &SourceLocation, b: &SourceLocation) -> (r: bool)
    ensures
        r == same_place(*a, *b),
{
    text_eq(a.file.as_str(), b.file.as_str()) && text_eq(a.function.as_str(), b.function.as_str())
        && a.start_line == b.start_line && a.end_line == b.end_line && a.start_byte == b.start_byte
        && a.end_byte == b.end_byte
}

fn names_function_exec(s: &SourceFunction, file: &str, fn_name: &str, current: &SourceLocation) -> (r: bool)
    ensures
        r == names_function(*s, file@, fn_name@, *current),
{
    if !text_eq(s.location.file.as_str(), file) || same_location(&s.location, current) {
        return false;
    }
    match RustLocator::parse(s.locator.value.as_str()) {
        Some(parsed) => text_eq(parsed.item_path.as_str(), fn_name),
        None => false,
    }
}

fn function_in_use(sources: &Vec<SourceFunction>, file: &str, fn_name: &str, current: &SourceLocation) -> (r: bool)
    ensures
        r == function_taken(sources@, file@, fn_name@, *current),
{
    let mut i: usize = 0;
    while i < sources.len()
        invariant
            i <= sources@.len(),
            forall|j: int| 0 <= j < i ==> !names_function(#[trigger] sources@[j], file@, fn_name@, *current),
        decreases sources.len() - i,
    {
        if names_function_exec(&sources[i], file, fn_name, current) {
            return true;
        }
        i = i + 1;
    }
    false
}

fn first_missing_related_of(tests: &Vec<TestEntity>, current_id: &str, related: &Vec<String>) -> (r: Option<usize>)
    ensures
        match r {
            Some(i) => i < related@.len() && related_missing(tests@, current_id@, related@[i as int]@)
                && first_missing_related(tests@, current_id@, texts(related@)) == i,
            None => !exists|i: int|
                0 <= i < related@.len() && related_missing(tests@, current_id@, #[trigger] texts(related@)[i]),
        },
{
    let ghost rv = texts(related@);
    let mut ids: Vec<String> = Vec::new();
    let mut k: usize = 0;
    while k < tests.len()
        invariant
            k <= tests@.len(),
            ids@ == test_ids(tests@.take(k as int)),
        decreases tests.len() - k,
    {
        ids.push(tests[k].id.0.clone());
        assert(test_ids(tests@.take(k as int + 1)) =~= test_ids(tests@.take(k as int)).push(tests@[k as int].id.0));
        k = k + 1;
    }
    assert(tests@.take(k as int) =~= tests@);
    let mut i: usize = 0;
    while i < related.len()
        invariant
            i <= related@.len(),
            rv == texts(related@),
            ids@ == test_ids(tests@),
            forall|j: int| 0 <= j < i ==> !related_missing(tests@, current_id@, #[trigger] rv[j]),
        decreases related.len() - i,
    {
        let r = related[i].as_str();
        assert(rv[i as int] == r@);
        if !text_eq(r, current_id) && !contains_string(&ids, r) {
            proof {
                assert(0 <= i < rv.len() && related_missing(tests@, current_id@, rv[i as int]) && forall|j: int|
                    0 <= j < i ==> !related_missing(tests@, current_id@, rv[j]));
                let w = first_missing_related(tests@, current_id@, rv);
                if w < i {
                    assert(!related_missing(tests@, current_id@, rv[w]));
                }
                if w > i {
                    assert(!related_missing(tests@, current_id@, rv[i as int]));
                }
            }
            return Some(i);
        }
        i = i + 1;
    }
    None
}

/// The checks after the targets (see `name_problem`).
#[verifier::spinoff_prover]
#[verifier::rlimit(60)]
fn check_names(scan: &ScanResult, current: &TestEntity, desired: &DesiredTest) -> (r: Result<(), Diagnostic>)
    requires
        forall|i: int, j: int|
            0 <= i < desired.related@.len() && 0 <= j < scan.tests@.len() ==> (#[trigger] scan.tests@[j]).id@.len()
                + (#[trigger] desired.related@[i])@.len() < usize::MAX,
    ensures
        match name_problem(scan.tests@, scan.sources@, *current, *desired) {
            None => r is Ok,
            Some(p) => r matches Err(d) && reports_problem(d, p, scan.tests@, scan.sources@, *desired, Err(Seq::empty())),
        },
{
    if crate::text::chars_of(crate::forms::trim_text(desired.intent.as_str()).as_str()).len() == 0 {
        return Err(plain_error("E-OP-001", "intent must not be empty".to_owned()));
    }
    if !crate::forms::parses_as_identifier(desired.fn_name.as_str()) {
        return Err(plain_error("E-OP-001", crate::queries::quoted("`", desired.fn_name.as_str(), "` is not a Rust identifier")));
    }
    if function_in_use(&scan.sources, desired.file.as_str(), desired.fn_name.as_str(), &current.location) {
        let mut message = crate::queries::quoted("function `", desired.fn_name.as_str(), "` already exists in `");
        crate::text::push_text(&mut message, desired.file.as_str());
        crate::text::push_text(&mut message, "`");
        return Err(plain_error("E-OP-001", message));
    }
    match first_missing_related_of(&scan.tests, current.id.0.as_str(), &desired.related) {
        Some(i) => {
            let r = desired.related[i].as_str();
            assert(texts(desired.related@)[i as int] == r@);
            let message = crate::queries::quoted("related Test `", r, "` does not exist");
            let candidates = test_id_candidates(scan, r);
            return Err(Diagnostic::error("E-OP-001", message).with_candidates(candidates));
        },
        None => {},
    }
    Ok(())
}

/// The checks after the covered objectives (see `target_problem`).
#[verifier::spinoff_prover]
#[verifier::rlimit(60)]
fn check_targets_and_names(scan: &ScanResult, current: &TestEntity, desired: &DesiredTest) -> (r: Result<
    (),
    Diagnostic,
>)
    requires
        forall|i: int| 0 <= i < desired.targets@.len() ==> suggestible(scan.sources@, (#[trigger] desired.targets@[i])@),
        forall|i: int, j: int|
            0 <= i < desired.related@.len() && 0 <= j < scan.tests@.len() ==> (#[trigger] scan.tests@[j]).id@.len()
                + (#[trigger] desired.related@[i])@.len() < usize::MAX,
    ensures
        match target_problem(scan.tests@, scan.sources@, *current, *desired) {
            None => r is Ok,
            Some(p) => r matches Err(d) && reports_problem(d, p, scan.tests@, scan.sources@, *desired, Err(Seq::empty())),
        },
{
    if desired.targets.len() == 0 {
        return Err(plain_error("E-OP-001", "target must contain at least one source locator".to_owned()));
    }
    match first_bad_target(&scan.sources, &desired.targets) {
        Some((i, message)) => {
            assert(texts(desired.targets@)[i as int] == desired.targets@[i as int]@);
            return Err(crate::queries::lookup_failure(message, scan, desired.targets[i].as_str()));
        },
        None => {},
    }
    check_names(scan, current, desired)
}

/// Checks a desired test state against the test being edited and the scan
/// (see `edit_problem`); `vo_ids` are the verification objective ids read
/// from the project, or why they could not be read. The first problem is
/// returned as an error diagnostic (see `reports_problem`).
#[verifier::spinoff_prover]
#[verifier::rlimit(60)]
pub fn validate_desired_test(
    scan: &ScanResult,
    current: &TestEntity,
    desired: &DesiredTest,
    vo_ids: &Result<Vec<String>, String>,
) -> (r: Result<(), Diagnostic>)
    requires
        forall|i: int, j: int|
            0 <= i < desired.covers@.len() && 0 <= j < vo_ids->Ok_0@.len() && vo_ids is Ok ==> (#[trigger] vo_ids->Ok_0@[j])@.len()
                + (#[trigger] desired.covers@[i])@.len() < usize::MAX,
        forall|i: int| 0 <= i < desired.targets@.len() ==> suggestible(scan.sources@, (#[trigger] desired.targets@[i])@),
        forall|i: int, j: int|
            0 <= i < desired.related@.len() && 0 <= j < scan.tests@.len() ==> (#[trigger] scan.tests@[j]).id@.len()
                + (#[trigger] desired.related@[i])@.len() < usize::MAX,
    ensures
        ({
            let ids = match vo_ids {
                Ok(v) => Ok(v@),
                Err(e) => Err(e@),
            };
            match edit_problem(scan.tests@, scan.sources@, *current, *desired, ids) {
                None => r is Ok,
                Some(p) => r matches Err(d) && reports_problem(d, p, scan.tests@, scan.sources@, *desired, ids),
            }
        }),
{
    if !text_eq(desired.id.as_str(), current.id.0.as_str()) {
        return Err(plain_error("E-OP-001", "Structured Edit cannot change a Test ID".to_owned()));
    }
    if !text_eq(desired.file.as_str(), current.location.file.as_str()) {
        return Err(plain_error("E-OP-003", "Structured Edit cannot move a Test to another file".to_owned()));
    }
    if desired.covers.len() == 0 {
        return Err(plain_error("E-OP-001", "covers must contain at least one VO ID".to_owned()));
    }
    proof {
        reveal_strlit("");
    }
    let known = match vo_ids {
        Ok(v) => v,
        Err(e) => {
            let message = crate::queries::quoted("could not read entity IDs: ", e.as_str(), "");
            assert(message@ =~= "could not read entity IDs: "@ + e@);
            return Err(plain_error("E-CORE-001", message));
        },
    };
    match first_unknown_vo(&desired.covers, known) {
        Some(i) => {
            let id = desired.covers[i].as_str();
            assert(texts(desired.covers@)[i as int] == id@);
            let message = crate::queries::quoted("VO `", id, "` does not exist");
            let candidates = id_candidates(known, id);
            return Err(Diagnostic::error("E-OP-001", message).with_candidates(candidates));
        },
        None => {},
    }
    check_targets_and_names(scan, current, desired)
}

} // verus!
