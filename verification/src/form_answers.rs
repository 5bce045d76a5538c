//! Checking the answers to a test form against the form's schema and the
//! scan. The checks that read the project's files (`rust-file`,
//! `enum-variant-exists`) are handed back to the caller, in the order in
//! which they fall among the others.

use vstd::prelude::*;

use crate::desired::{first_unknown, first_unknown_vo, same_place, texts};
use crate::diagnostic::{Diagnostic, DiagnosticSeverity};
use crate::discovery::{parse_locator, Locator as RustLocator};
use crate::forms::{
    answer_for, find_answer, offers_options, scalar, scalar_message, shape_problem, validate_value_shape, FormField,
    FormValue,
};
use crate::operations::{id_candidates, near_ids, test_id_candidates, test_ids};
use crate::order::stable_sorted;
use crate::queries::{
    answer_strings, destination_file, destination_of, nonblank_scalar, quoted, suggestible, symbols_fail,
    symbols_rejection, validate_symbols,
};
use crate::scan::ScanResult;
use crate::source::{SourceFunction, SourceLocation};
use crate::test_entity::TestEntity;
use crate::text::{push_text, text_eq};

verus! {

/// A form: its kind, its fields and the template a new test is rendered
/// from.
pub struct FormSchema {
    pub kind: String,
    pub fields: Vec<FormField>,
    pub template: String,
}

/// The answers given to a form: the form they answer, and each field's
/// value, in ascending field-name order.
pub struct FormAnswers {
    pub form: String,
    pub answers: Vec<(String, FormValue)>,
}

/// A check that reads the project's files, left to the caller.
pub enum ProjectCheck {
    /// The answer names a Rust file of the project.
    RustFile(String),
    /// The answer names an existing enum variant.
    EnumVariant(String),
}

/// A project check as a value: whether it is a Rust file check, and the
/// answer it checks.
pub open spec fn check_view(c: ProjectCheck) -> (bool, Seq<char>) {
    match c {
        ProjectCheck::RustFile(s) => (true, s@),
        ProjectCheck::EnumVariant(s) => (false, s@),
    }
}

/// What is wrong with the answers, in the order it is checked.
pub enum FormProblem {
    FormMismatch(Seq<char>, Seq<char>),
    UnknownAnswer(Seq<char>),
    UnreadableIds(Seq<char>),
    RequiredMissing(Seq<char>),
    Shape(FormField, FormValue),
    Symbols(Seq<char>, FormValue, bool),
    MissingVo(Seq<char>, Seq<String>),
    MissingTest(Seq<char>),
    NotScalar(Seq<char>),
    Destination(Seq<char>),
    FunctionExists(Seq<char>, Seq<char>),
    UnsupportedValidator(Seq<char>, Seq<char>),
}

/// One validator's outcome: passed, a project check left to the caller, or
/// a problem.
pub enum ValidatorStep {
    Pass,
    Defer((bool, Seq<char>)),
    Fail(FormProblem),
}

/// An answer with nothing in it: an empty list or an empty string.
pub open spec fn value_is_empty(v: FormValue) -> bool {
    match v {
        FormValue::List(items) => items@.len() == 0,
        FormValue::Scalar(s) => s@.len() == 0,
    }
}

/// The location of the first scanned test with the id `id`.
pub open spec fn first_location(tests: Seq<TestEntity>, id: Seq<char>) -> Option<SourceLocation>
    decreases tests.len(),
{
    if tests.len() == 0 {
        None
    } else if tests[0].id@ == id {
        Some(tests[0].location)
    } else {
        first_location(tests.drop_first(), id)
    }
}

/// The location of the test being edited, if any.
pub open spec fn edited_location(tests: Seq<TestEntity>, edited: Option<Seq<char>>) -> Option<SourceLocation> {
    match edited {
        Some(id) => first_location(tests, id),
        None => None,
    }
}

/// The file a function-name answer is checked against: the destination
/// the answers name when they give a `file`; else the edited test's file;
/// else the destination the answers name.
pub open spec fn name_destination(answers: Seq<(String, FormValue)>, edited: Option<SourceLocation>) -> Result<
    Seq<char>,
    Seq<char>,
> {
    if answer_for(answers, "file"@) is Some {
        destination_of(answers)
    } else {
        match edited {
            Some(l) => Ok(l.file@),
            None => destination_of(answers),
        }
    }
}

/// A source function in `file` other than the edited test already has the
/// item name `name`.
pub open spec fn name_in_use(sources: Seq<SourceFunction>, file: Seq<char>, name: Seq<char>, edited: Option<SourceLocation>) -> bool {
    exists|i: int| 0 <= i < sources.len() && clashes(#[trigger] sources[i], file, name, edited)
}

/// The source function has the item name `name` in `file` and is not the
/// edited test.
pub open spec fn clashes(s: SourceFunction, file: Seq<char>, name: Seq<char>, edited: Option<SourceLocation>) -> bool {
    &&& s.location.file@ == file
    &&& match parse_locator(s.locator.value@) {
        Some(p) => p.1 == name,
        None => false,
    }
    &&& !(edited matches Some(l) && same_place(l, s.location))
}

/// The `unique-fn-name` validator: the answer is a function name not yet
/// used in the file the test goes into (the edited test's own function
/// aside).
pub open spec fn unique_name_outcome(
    field: FormField,
    value: FormValue,
    answers: Seq<(String, FormValue)>,
    tests: Seq<TestEntity>,
    sources: Seq<SourceFunction>,
    edited: Option<Seq<char>>,
) -> ValidatorStep {
    match nonblank_scalar(value) {
        None => ValidatorStep::Fail(FormProblem::NotScalar(field.name@)),
        Some(name) => match name_destination(answers, edited_location(tests, edited)) {
            Err(m) => ValidatorStep::Fail(FormProblem::Destination(m)),
            Ok(file) => if name_in_use(sources, file, name, edited_location(tests, edited)) {
                ValidatorStep::Fail(FormProblem::FunctionExists(name, file))
            } else {
                ValidatorStep::Pass
            },
        },
    }
}

/// One validator applied to a present answer.
#[verifier::opaque]
pub open spec fn validator_step(
    validator: Seq<char>,
    field: FormField,
    value: FormValue,
    kind: Seq<char>,
    answers: Seq<(String, FormValue)>,
    tests: Seq<TestEntity>,
    sources: Seq<SourceFunction>,
    known: Seq<String>,
    edited: Option<Seq<char>>,
) -> ValidatorStep {
    let values = answer_strings(value);
    if validator == "symbol-exists"@ || validator == "symbols-exist"@ {
        let expect_list = validator == "symbols-exist"@;
        if symbols_fail(sources, value, expect_list) {
            ValidatorStep::Fail(FormProblem::Symbols(field.name@, value, expect_list))
        } else {
            ValidatorStep::Pass
        }
    } else if validator == "vo-exists"@ {
        if exists|i: int| 0 <= i < values.len() && !texts(known).contains(#[trigger] values[i]) {
            ValidatorStep::Fail(FormProblem::MissingVo(values[first_unknown(values, texts(known))], known))
        } else {
            ValidatorStep::Pass
        }
    } else if validator == "test-exists"@ {
        let ids = texts(test_ids(tests));
        if exists|i: int| 0 <= i < values.len() && !ids.contains(#[trigger] values[i]) {
            ValidatorStep::Fail(FormProblem::MissingTest(values[first_unknown(values, ids)]))
        } else {
            ValidatorStep::Pass
        }
    } else if validator == "unique-fn-name"@ {
        unique_name_outcome(field, value, answers, tests, sources, edited)
    } else if validator == "rust-file"@ || validator == "enum-variant-exists"@ {
        match nonblank_scalar(value) {
            None => ValidatorStep::Fail(FormProblem::NotScalar(field.name@)),
            Some(v) => ValidatorStep::Defer((validator == "rust-file"@, v)),
        }
    } else {
        ValidatorStep::Fail(FormProblem::UnsupportedValidator(kind, validator))
    }
}

/// The project checks deferred and the first problem met, running the
/// validators in order and stopping at the first problem.
pub open spec fn validators_outcome(
    validators: Seq<Seq<char>>,
    field: FormField,
    value: FormValue,
    kind: Seq<char>,
    answers: Seq<(String, FormValue)>,
    tests: Seq<TestEntity>,
    sources: Seq<SourceFunction>,
    known: Seq<String>,
    edited: Option<Seq<char>>,
) -> (Seq<(bool, Seq<char>)>, Option<FormProblem>)
    decreases validators.len(),
{
    if validators.len() == 0 {
        (Seq::empty(), None)
    } else {
        let (pending, problem) = validators_outcome(
            validators.drop_last(),
            field,
            value,
            kind,
            answers,
            tests,
            sources,
            known,
            edited,
        );
        if problem is Some {
            (pending, problem)
        } else {
            match validator_step(validators.last(), field, value, kind, answers, tests, sources, known, edited) {
                ValidatorStep::Pass => (pending, None),
                ValidatorStep::Defer(c) => (pending.push(c), None),
                ValidatorStep::Fail(p) => (pending, Some(p)),
            }
        }
    }
}

/// One field's checks: required and present, shape, then its validators.
pub open spec fn field_outcome(
    field: FormField,
    kind: Seq<char>,
    answers: Seq<(String, FormValue)>,
    tests: Seq<TestEntity>,
    sources: Seq<SourceFunction>,
    known: Seq<String>,
    edited: Option<Seq<char>>,
) -> (Seq<(bool, Seq<char>)>, Option<FormProblem>) {
    match answer_for(answers, field.name@) {
        None => if field.required {
            (Seq::empty(), Some(FormProblem::RequiredMissing(field.name@)))
        } else {
            (Seq::empty(), None)
        },
        Some(v) => if field.required && value_is_empty(v) {
            (Seq::empty(), Some(FormProblem::RequiredMissing(field.name@)))
        } else if shape_problem(field, v) is Some {
            (Seq::empty(), Some(FormProblem::Shape(field, v)))
        } else {
            validators_outcome(texts(field.validate@), field, v, kind, answers, tests, sources, known, edited)
        },
    }
}

/// The fields' checks in order, stopping at the first problem.
pub open spec fn fields_outcome(
    fields: Seq<FormField>,
    kind: Seq<char>,
    answers: Seq<(String, FormValue)>,
    tests: Seq<TestEntity>,
    sources: Seq<SourceFunction>,
    known: Seq<String>,
    edited: Option<Seq<char>>,
) -> (Seq<(bool, Seq<char>)>, Option<FormProblem>)
    decreases fields.len(),
{
    if fields.len() == 0 {
        (Seq::empty(), None)
    } else {
        let (pending, problem) = fields_outcome(fields.drop_last(), kind, answers, tests, sources, known, edited);
        if problem is Some {
            (pending, problem)
        } else {
            let (more, p) = field_outcome(fields.last(), kind, answers, tests, sources, known, edited);
            (pending + more, p)
        }
    }
}

/// The names of the schema's fields.
pub open spec fn field_names(fields: Seq<FormField>) -> Seq<Seq<char>> {
    fields.map_values(|f: FormField| f.name@)
}

/// The names of the answers, in order.
pub open spec fn answer_names(answers: Seq<(String, FormValue)>) -> Seq<Seq<char>> {
    answers.map_values(|a: (String, FormValue)| a.0@)
}

/// Every check of the answers: the form, unknown answers, the objective
/// ids as read (or why they could not be read), then the fields.
pub open spec fn form_outcome(
    schema: FormSchema,
    supplied: FormAnswers,
    tests: Seq<TestEntity>,
    sources: Seq<SourceFunction>,
    vo_ids: Result<Seq<String>, Seq<char>>,
    edited: Option<Seq<char>>,
) -> (Seq<(bool, Seq<char>)>, Option<FormProblem>) {
    let names = answer_names(supplied.answers@);
    let known_names = field_names(schema.fields@);
    if supplied.form@ != schema.kind@ {
        (Seq::empty(), Some(FormProblem::FormMismatch(supplied.form@, schema.kind@)))
    } else if exists|i: int| 0 <= i < names.len() && !known_names.contains(#[trigger] names[i]) {
        (Seq::empty(), Some(FormProblem::UnknownAnswer(names[first_unknown(names, known_names)])))
    } else {
        match vo_ids {
            Err(e) => (Seq::empty(), Some(FormProblem::UnreadableIds(e))),
            Ok(known) => fields_outcome(schema.fields@, schema.kind@, supplied.answers@, tests, sources, known, edited),
        }
    }
}

/// The diagnostic reports the problem.
pub open spec fn reports_form_problem(d: Diagnostic, p: FormProblem, tests: Seq<TestEntity>, sources: Seq<SourceFunction>) -> bool {
    let plain = |code: Seq<char>, message: Seq<char>|
        d.code@ == code && d.message@ == message && d.candidates@.len() == 0 && d.severity
            == DiagnosticSeverity::Error;
    match p {
        FormProblem::FormMismatch(form, kind) => plain(
            "E-OP-001"@,
            "answers form `"@ + form + "` does not match requested form `"@ + kind + "`"@,
        ),
        FormProblem::UnknownAnswer(n) => plain("E-OP-001"@, "unknown answer field `"@ + n + "`"@),
        FormProblem::UnreadableIds(e) => plain("E-CORE-001"@, "could not read entity IDs: "@ + e),
        FormProblem::RequiredMissing(n) => plain("E-OP-001"@, "required answer `"@ + n + "` is missing"@),
        FormProblem::Shape(f, v) => d.code@ == "E-OP-001"@ && d.severity == DiagnosticSeverity::Error
            && shape_problem(f, v) == Some(d.message@) && d.candidates@ == if offers_options(f, v) {
            f.options@
        } else {
            Seq::empty()
        },
        FormProblem::Symbols(name, v, expect_list) => symbols_rejection(d, sources, name, v, expect_list),
        FormProblem::MissingVo(id, known) => d.code@ == "E-OP-001"@ && d.message@ == "VO `"@ + id
            + "` does not exist"@ && d.candidates@ == stable_sorted(near_ids(known, id)) && d.severity
            == DiagnosticSeverity::Error,
        FormProblem::MissingTest(id) => d.code@ == "E-OP-001"@ && d.message@ == "Test `"@ + id
            + "` does not exist"@ && d.candidates@ == stable_sorted(near_ids(test_ids(tests), id)) && d.severity
            == DiagnosticSeverity::Error,
        FormProblem::NotScalar(n) => plain("E-OP-001"@, scalar_message(n)),
        FormProblem::Destination(m) => d.code@ == "E-OP-001"@ && d.message@ == m && d.severity
            == DiagnosticSeverity::Error,
        FormProblem::FunctionExists(name, file) => plain(
            "E-OP-001"@,
            "function `"@ + name + "` already exists in `"@ + file + "`"@,
        ),
        FormProblem::UnsupportedValidator(kind, v) => plain(
            "E-OP-001"@,
            "form `"@ + kind + "` uses unsupported validator `"@ + v + "`"@,
        ),
    }
}

/// The lengths the suggestions for an answer's strings compare stay
/// within the machine's range.
pub open spec fn value_fits(value: FormValue, tests: Seq<TestEntity>, sources: Seq<SourceFunction>, known: Seq<String>) -> bool {
    forall|i: int| 0 <= i < answer_strings(value).len() ==> string_fits(#[trigger] answer_strings(value)[i], tests, sources, known)
}

/// The lengths the suggestions for one string compare stay within the
/// machine's range.
pub open spec fn string_fits(s: Seq<char>, tests: Seq<TestEntity>, sources: Seq<SourceFunction>, known: Seq<String>) -> bool {
    &&& suggestible(sources, s)
    &&& forall|j: int| 0 <= j < known.len() ==> (#[trigger] known[j])@.len() + s.len() < usize::MAX
    &&& forall|j: int| 0 <= j < tests.len() ==> (#[trigger] tests[j]).id@.len() + s.len() < usize::MAX
}

/// Every answer fits (see `value_fits`).
pub open spec fn answers_fit(
    answers: Seq<(String, FormValue)>,
    tests: Seq<TestEntity>,
    sources: Seq<SourceFunction>,
    known: Seq<String>,
) -> bool {
    forall|a: int| 0 <= a < answers.len() ==> value_fits((#[trigger] answers[a]).1, tests, sources, known)
}

/// The result of checking answers: the project checks the caller must
/// still run, in order, and the first problem found after them.
pub struct FormCheck {
    pub pending: Vec<ProjectCheck>,
    pub problem: Option<Diagnostic>,
}

fn form_error(message: String) -> (d: Diagnostic)
    ensures
        d.code@ == "E-OP-001"@,
        d.message@ == message@,
        d.candidates@.len() == 0,
        d.severity == DiagnosticSeverity::Error,
{
    Diagnostic::error("E-OP-001", message)
}

fn location_of_test(tests: &Vec<TestEntity>, id: &str) -> (r: Option<SourceLocation>)
    ensures
        r == first_location(tests@, id@),
{
    let mut i: usize = 0;
    assert(tests@.skip(0) =~= tests@);
    while i < tests.len()
        invariant
            i <= tests@.len(),
            first_location(tests@, id@) == first_location(tests@.skip(i as int), id@),
        decreases tests.len() - i,
    {
        assert(tests@.skip(i as int)[0] == tests@[i as int]);
        assert(tests@.skip(i as int).drop_first() =~= tests@.skip(i as int + 1));
        if text_eq(tests[i].id.0.as_str(), id) {
            return Some(tests[i].location.duplicate());
        }
        i = i + 1;
    }
    None
}

fn clashes_exec(s: &SourceFunction, file: &str, name: &str, edited: &Option<SourceLocation>) -> (r: bool)
    ensures
        r == clashes(*s, file@, name@, *edited),
{
    if !text_eq(s.location.file.as_str(), file) {
        return false;
    }
    let named = match RustLocator::parse(s.locator.value.as_str()) {
        Some(parsed) => text_eq(parsed.item_path.as_str(), name),
        None => false,
    };
    if !named {
        return false;
    }
    match edited {
        Some(l) => !crate::desired::same_location(l, &s.location),
        None => true,
    }
}

fn name_in_use_exec(sources: &Vec<SourceFunction>, file: &str, name: &str, edited: &Option<SourceLocation>) -> (r: bool)
    ensures
        r == name_in_use(sources@, file@, name@, *edited),
{
    let mut i: usize = 0;
    while i < sources.len()
        invariant
            i <= sources@.len(),
            forall|j: int| 0 <= j < i ==> !clashes(#[trigger] sources@[j], file@, name@, *edited),
        decreases sources.len() - i,
    {
        if clashes_exec(&sources[i], file, name, edited) {
            return true;
        }
        i = i + 1;
    }
    false
}

#[verifier::spinoff_prover]
#[verifier::rlimit(80)]
fn unique_name_step(
    field: &FormField,
    value: &FormValue,
    answers: &Vec<(String, FormValue)>,
    scan: &ScanResult,
    edited: Option<&str>,
) -> (r: Result<(), Diagnostic>)
    ensures
        ({
            let ev = match edited {
                Some(e) => Some(e@),
                None => None,
            };
            match unique_name_outcome(*field, *value, answers@, scan.tests@, scan.sources@, ev) {
                ValidatorStep::Fail(p) => r matches Err(d) && reports_form_problem(d, p, scan.tests@, scan.sources@),
                _ => r is Ok,
            }
        }),
{
    proof {
        reveal_strlit("file");
    }
    let ghost ev = match edited {
        Some(e) => Some(e@),
        None => None,
    };
    let name = match scalar(value, field.name.as_str()) {
        Ok(n) => n,
        Err(d) => {
            return Err(d);
        },
    };
    let location = match edited {
        Some(e) => location_of_test(&scan.tests, e),
        None => None,
    };
    let destination = if find_answer(answers, "file").is_some() {
        match destination_file(answers) {
            Ok(f) => f,
            Err(d) => {
                return Err(d);
            },
        }
    } else {
        match &location {
            Some(l) => l.file.clone(),
            None => match destination_file(answers) {
                Ok(f) => f,
                Err(d) => {
                    return Err(d);
                },
            },
        }
    };
    if name_in_use_exec(&scan.sources, destination.as_str(), name, &location) {
        let mut message = quoted("function `", name, "` already exists in `");
        push_text(&mut message, destination.as_str());
        push_text(&mut message, "`");
        return Err(form_error(message));
    }
    Ok(())
}


fn scanned_ids(tests: &Vec<TestEntity>) -> (ids: Vec<String>)
    ensures
        ids@ == test_ids(tests@),
{
    let mut ids: Vec<String> = Vec::new();
    let mut k: usize = 0;
    while k < tests.len()
        invariant
            k <= tests@.len(),
            ids@ == test_ids(tests@.take(k as int)),
        decreases tests.len() - k,
    {
        ids.push(tests[k].id.0.clone());
        assert(test_ids(tests@.take(k as int + 1)) =~= test_ids(tests@.take(k as int)).push(tests@[k as int].id.0));
        k = k + 1;
    }
    assert(tests@.take(k as int) =~= tests@);
    ids
}

/// The `vo-exists` validator: every string of the answer is a known
/// objective id.
fn missing_vo_step(value: &FormValue, known: &Vec<String>) -> (r: Result<(), Diagnostic>)
    requires
        forall|i: int, j: int|
            0 <= i < answer_strings(*value).len() && 0 <= j < known@.len() ==> (#[trigger] known@[j])@.len()
                + (#[trigger] answer_strings(*value)[i]).len() < usize::MAX,
    ensures
        ({
            let values = answer_strings(*value);
            if exists|i: int| 0 <= i < values.len() && !texts(known@).contains(#[trigger] values[i]) {
                r matches Err(d) && reports_form_problem(
                    d,
                    FormProblem::MissingVo(values[first_unknown(values, texts(known@))], known@),
                    Seq::empty(),
                    Seq::empty(),
                )
            } else {
                r is Ok
            }
        }),
{
    let values = crate::forms::value_strings(value);
    let ghost sv = answer_strings(*value);
    assert(texts(values@) == sv);
    match first_unknown_vo(&values, known) {
        Some(i) => {
            let id = values[i].as_str();
            assert(sv[i as int] == id@);
            let candidates = id_candidates(known, id);
            let d = form_error(quoted("VO `", id, "` does not exist")).with_candidates(candidates);
            Err(d)
        },
        None => Ok(()),
    }
}

/// The `test-exists` validator: every string of the answer is the id of a
/// scanned test.
fn missing_test_step(value: &FormValue, scan: &ScanResult) -> (r: Result<(), Diagnostic>)
    requires
        forall|i: int, j: int|
            0 <= i < answer_strings(*value).len() && 0 <= j < scan.tests@.len() ==> (#[trigger] scan.tests@[j]).id@.len()
                + (#[trigger] answer_strings(*value)[i]).len() < usize::MAX,
    ensures
        ({
            let values = answer_strings(*value);
            let ids = texts(test_ids(scan.tests@));
            if exists|i: int| 0 <= i < values.len() && !ids.contains(#[trigger] values[i]) {
                r matches Err(d) && reports_form_problem(
                    d,
                    FormProblem::MissingTest(values[first_unknown(values, ids)]),
                    scan.tests@,
                    Seq::empty(),
                )
            } else {
                r is Ok
            }
        }),
{
    let values = crate::forms::value_strings(value);
    let ghost sv = answer_strings(*value);
    assert(texts(values@) == sv);
    let ids = scanned_ids(&scan.tests);
    match first_unknown_vo(&values, &ids) {
        Some(i) => {
            let id = values[i].as_str();
            assert(sv[i as int] == id@);
            let candidates = test_id_candidates(scan, id);
            let d = form_error(quoted("Test `", id, "` does not exist")).with_candidates(candidates);
            Err(d)
        },
        None => Ok(()),
    }
}

/// The edited test's id as text.
pub open spec fn edited_view(edited: Option<&str>) -> Option<Seq<char>> {
    match edited {
        Some(e) => Some(e@),
        None => None,
    }
}

/// One validator applied to a present answer (see `validator_step`): a
/// pass is `Ok(None)`, a project check left to the caller `Ok(Some(..))`.
#[verifier::spinoff_prover]
#[verifier::rlimit(60)]
fn validator_step_exec(
    validator: &str,
    field: &FormField,
    value: &FormValue,
    kind: &str,
    answers: &Vec<(String, FormValue)>,
    scan: &ScanResult,
    known: &Vec<String>,
    edited: Option<&str>,
) -> (r: Result<Option<ProjectCheck>, Diagnostic>)
    requires
        value_fits(*value, scan.tests@, scan.sources@, known@),
    ensures
        match validator_step(
            validator@,
            *field,
            *value,
            kind@,
            answers@,
            scan.tests@,
            scan.sources@,
            known@,
            edited_view(edited),
        ) {
            ValidatorStep::Pass => r matches Ok(None),
            ValidatorStep::Defer(c) => r matches Ok(Some(pc)) && check_view(pc) == c,
            ValidatorStep::Fail(p) => r matches Err(d) && reports_form_problem(d, p, scan.tests@, scan.sources@),
        },
{
    proof {
        reveal(validator_step);
        reveal_strlit("symbol-exists");
        reveal_strlit("symbols-exist");
        reveal_strlit("vo-exists");
        reveal_strlit("test-exists");
        reveal_strlit("unique-fn-name");
        reveal_strlit("rust-file");
        reveal_strlit("enum-variant-exists");
    }
    let ghost values = answer_strings(*value);
    if text_eq(validator, "symbol-exists") || text_eq(validator, "symbols-exist") {
        let expect_list = text_eq(validator, "symbols-exist");
        assert forall|i: int| 0 <= i < values.len() implies suggestible(scan.sources@, #[trigger] values[i]) by {
            assert(string_fits(values[i], scan.tests@, scan.sources@, known@));
        }
        match validate_symbols(scan, field.name.as_str(), value, expect_list) {
            Ok(()) => Ok(None),
            Err(d) => Err(d),
        }
    } else if text_eq(validator, "vo-exists") {
        assert forall|i: int, j: int| 0 <= i < values.len() && 0 <= j < known@.len() implies (#[trigger] known@[j])@.len()
            + (#[trigger] values[i]).len() < usize::MAX by {
            assert(string_fits(values[i], scan.tests@, scan.sources@, known@));
        }
        match missing_vo_step(value, known) {
            Ok(()) => Ok(None),
            Err(d) => Err(d),
        }
    } else if text_eq(validator, "test-exists") {
        assert forall|i: int, j: int| 0 <= i < values.len() && 0 <= j < scan.tests@.len() implies (#[trigger] scan.tests@[j]).id@.len()
            + (#[trigger] values[i]).len() < usize::MAX by {
            assert(string_fits(values[i], scan.tests@, scan.sources@, known@));
        }
        match missing_test_step(value, scan) {
            Ok(()) => Ok(None),
            Err(d) => Err(d),
        }
    } else if text_eq(validator, "unique-fn-name") {
        match unique_name_step(field, value, answers, scan, edited) {
            Ok(()) => Ok(None),
            Err(d) => Err(d),
        }
    } else if text_eq(validator, "rust-file") || text_eq(validator, "enum-variant-exists") {
        let text = match scalar(value, field.name.as_str()) {
            Ok(t) => t,
            Err(d) => {
                return Err(d);
            },
        };
        if text_eq(validator, "rust-file") {
            Ok(Some(ProjectCheck::RustFile(text.to_string())))
        } else {
            Ok(Some(ProjectCheck::EnumVariant(text.to_string())))
        }
    } else {
        let mut message = quoted("form `", kind, "` uses unsupported validator `");
        push_text(&mut message, validator);
        push_text(&mut message, "`");
        Err(form_error(message))
    }
}

/// Project checks as values.
pub open spec fn checks_view(checks: Seq<ProjectCheck>) -> Seq<(bool, Seq<char>)> {
    checks.map_values(|c: ProjectCheck| check_view(c))
}

/// Once the validators met a problem, those after it change nothing.
proof fn lemma_validators_stop(
    validators: Seq<Seq<char>>,
    i: int,
    field: FormField,
    value: FormValue,
    kind: Seq<char>,
    answers: Seq<(String, FormValue)>,
    tests: Seq<TestEntity>,
    sources: Seq<SourceFunction>,
    known: Seq<String>,
    edited: Option<Seq<char>>,
)
    requires
        0 <= i <= validators.len(),
        validators_outcome(validators.take(i), field, value, kind, answers, tests, sources, known, edited).1 is Some,
    ensures
        validators_outcome(validators, field, value, kind, answers, tests, sources, known, edited) == validators_outcome(
            validators.take(i),
            field,
            value,
            kind,
            answers,
            tests,
            sources,
            known,
            edited,
        ),
    decreases validators.len(),
{
    if i < validators.len() {
        assert(validators.drop_last().take(i) =~= validators.take(i));
        lemma_validators_stop(validators.drop_last(), i, field, value, kind, answers, tests, sources, known, edited);
    } else {
        assert(validators.take(i) =~= validators);
    }
}

/// The outcome of one more validator, after a prefix that met no problem.
proof fn lemma_validators_next(
    validators: Seq<Seq<char>>,
    i: int,
    field: FormField,
    value: FormValue,
    kind: Seq<char>,
    answers: Seq<(String, FormValue)>,
    tests: Seq<TestEntity>,
    sources: Seq<SourceFunction>,
    known: Seq<String>,
    edited: Option<Seq<char>>,
)
    requires
        0 <= i < validators.len(),
        validators_outcome(validators.take(i), field, value, kind, answers, tests, sources, known, edited).1 is None,
    ensures
        ({
            let before = validators_outcome(validators.take(i), field, value, kind, answers, tests, sources, known, edited).0;
            validators_outcome(validators.take(i + 1), field, value, kind, answers, tests, sources, known, edited)
                == match validator_step(validators[i], field, value, kind, answers, tests, sources, known, edited) {
                ValidatorStep::Pass => (before, None),
                ValidatorStep::Defer(c) => (before.push(c), None),
                ValidatorStep::Fail(p) => (before, Some(p)),
            }
        }),
{
    assert(validators.take(i + 1).drop_last() =~= validators.take(i));
    assert(validators.take(i + 1).last() == validators[i]);
}

/// The answer `answer_for` finds is one of the answers.
proof fn lemma_found_answer_is_given(answers: Seq<(String, FormValue)>, name: Seq<char>)
    requires
        answer_for(answers, name) is Some,
    ensures
        exists|a: int| 0 <= a < answers.len() && (#[trigger] answers[a]).1 == answer_for(answers, name)->Some_0,
    decreases answers.len(),
{
    if answers[0].0@ != name {
        lemma_found_answer_is_given(answers.drop_first(), name);
        let a = choose|a: int| 0 <= a < answers.drop_first().len() && (#[trigger] answers.drop_first()[a]).1 == answer_for(
            answers.drop_first(),
            name,
        )->Some_0;
        assert(answers[a + 1] == answers.drop_first()[a]);
    } else {
        assert(answers[0].1 == answer_for(answers, name)->Some_0);
    }
}

fn value_empty(value: &FormValue) -> (r: bool)
    ensures
        r == value_is_empty(*value),
{
    match value {
        FormValue::List(items) => items.len() == 0,
        FormValue::Scalar(text) => crate::text::chars_of(text.as_str()).len() == 0,
    }
}

/// One field's checks (see `field_outcome`): the project checks left to
/// the caller, and the first problem met.
fn check_field(
    field: &FormField,
    kind: &str,
    answers: &Vec<(String, FormValue)>,
    scan: &ScanResult,
    known: &Vec<String>,
    edited: Option<&str>,
) -> (r: (Vec<ProjectCheck>, Option<Diagnostic>))
    requires
        answers_fit(answers@, scan.tests@, scan.sources@, known@),
    ensures
        ({
            let out = field_outcome(*field, kind@, answers@, scan.tests@, scan.sources@, known@, edited_view(edited));
            &&& checks_view(r.0@) == out.0
            &&& match out.1 {
                None => r.1 is None,
                Some(p) => r.1 matches Some(d) && reports_form_problem(d, p, scan.tests@, scan.sources@),
            }
        }),
{
    let ghost ev = edited_view(edited);
    let value = match find_answer(answers, field.name.as_str()) {
        None => {
            if field.required {
                return (Vec::new(), Some(form_error(quoted("required answer `", field.name.as_str(), "` is missing"))));
            }
            return (Vec::new(), None);
        },
        Some(v) => v,
    };
    if field.required && value_empty(value) {
        return (Vec::new(), Some(form_error(quoted("required answer `", field.name.as_str(), "` is missing"))));
    }
    match validate_value_shape(field, value) {
        Ok(()) => {},
        Err(d) => {
            return (Vec::new(), Some(d));
        },
    }
    proof {
        lemma_found_answer_is_given(answers@, field.name@);
    }
    let ghost vs = texts(field.validate@);
    let mut pending: Vec<ProjectCheck> = Vec::new();
    let mut i: usize = 0;
    assert(vs.take(0) =~= Seq::<Seq<char>>::empty());
    while i < field.validate.len()
        invariant
            i <= field.validate@.len(),
            vs == texts(field.validate@),
            ev == edited_view(edited),
            answer_for(answers@, field.name@) == Some(*value),
            !(field.required && value_is_empty(*value)),
            shape_problem(*field, *value) is None,
            value_fits(*value, scan.tests@, scan.sources@, known@),
            validators_outcome(vs.take(i as int), *field, *value, kind@, answers@, scan.tests@, scan.sources@, known@, ev)
                == (checks_view(pending@), None::<FormProblem>),
        decreases field.validate.len() - i,
    {
        assert(vs.take(i as int + 1).drop_last() =~= vs.take(i as int));
        assert(vs.take(i as int + 1).last() == field.validate@[i as int]@);
        assert(vs[i as int] == field.validate@[i as int]@);
        proof {
            lemma_validators_next(vs, i as int, *field, *value, kind@, answers@, scan.tests@, scan.sources@, known@, ev);
        }
        let validator = field.validate[i].as_str();
        assert(validator@ == vs[i as int]);
        let outcome = validator_step_exec(validator, field, value, kind, answers, scan, known, edited);
        match outcome {
            Ok(None) => {},
            Ok(Some(c)) => {
                let ghost before = pending@;
                let ghost cv = check_view(c);
                pending.push(c);
                assert(checks_view(pending@) =~= checks_view(before).push(cv));
            },
            Err(d) => {
                proof {
                    lemma_validators_stop(vs, i as int + 1, *field, *value, kind@, answers@, scan.tests@, scan.sources@, known@, ev);
                    assert(vs.take(vs.len() as int) =~= vs);
                }
                return (pending, Some(d));
            },
        }
        i = i + 1;
    }
    assert(vs.take(i as int) =~= vs);
    (pending, None)
}

/// Once a field met a problem, the fields after it change nothing.
proof fn lemma_fields_stop(
    fields: Seq<FormField>,
    i: int,
    kind: Seq<char>,
    answers: Seq<(String, FormValue)>,
    tests: Seq<TestEntity>,
    sources: Seq<SourceFunction>,
    known: Seq<String>,
    edited: Option<Seq<char>>,
)
    requires
        0 <= i <= fields.len(),
        fields_outcome(fields.take(i), kind, answers, tests, sources, known, edited).1 is Some,
    ensures
        fields_outcome(fields, kind, answers, tests, sources, known, edited) == fields_outcome(
            fields.take(i),
            kind,
            answers,
            tests,
            sources,
            known,
            edited,
        ),
    decreases fields.len(),
{
    if i < fields.len() {
        assert(fields.drop_last().take(i) =~= fields.take(i));
        lemma_fields_stop(fields.drop_last(), i, kind, answers, tests, sources, known, edited);
    } else {
        assert(fields.take(i) =~= fields);
    }
}

/// The outcome of one more field, after a prefix that met no problem.
proof fn lemma_fields_next(
    fields: Seq<FormField>,
    i: int,
    kind: Seq<char>,
    answers: Seq<(String, FormValue)>,
    tests: Seq<TestEntity>,
    sources: Seq<SourceFunction>,
    known: Seq<String>,
    edited: Option<Seq<char>>,
)
    requires
        0 <= i < fields.len(),
        fields_outcome(fields.take(i), kind, answers, tests, sources, known, edited).1 is None,
    ensures
        ({
            let before = fields_outcome(fields.take(i), kind, answers, tests, sources, known, edited).0;
            let here = field_outcome(fields[i], kind, answers, tests, sources, known, edited);
            fields_outcome(fields.take(i + 1), kind, answers, tests, sources, known, edited) == (before + here.0, here.1)
        }),
{
    assert(fields.take(i + 1).drop_last() =~= fields.take(i));
    assert(fields.take(i + 1).last() == fields[i]);
}

/// The fields' checks in order (see `fields_outcome`).
fn check_fields(
    fields: &Vec<FormField>,
    kind: &str,
    answers: &Vec<(String, FormValue)>,
    scan: &ScanResult,
    known: &Vec<String>,
    edited: Option<&str>,
) -> (r: (Vec<ProjectCheck>, Option<Diagnostic>))
    requires
        answers_fit(answers@, scan.tests@, scan.sources@, known@),
    ensures
        ({
            let out = fields_outcome(fields@, kind@, answers@, scan.tests@, scan.sources@, known@, edited_view(edited));
            &&& checks_view(r.0@) == out.0
            &&& match out.1 {
                None => r.1 is None,
                Some(p) => r.1 matches Some(d) && reports_form_problem(d, p, scan.tests@, scan.sources@),
            }
        }),
{
    let ghost ev = edited_view(edited);
    let ghost fs = fields@;
    let mut pending: Vec<ProjectCheck> = Vec::new();
    let mut i: usize = 0;
    assert(fs.take(0) =~= Seq::<FormField>::empty());
    while i < fields.len()
        invariant
            i <= fs.len(),
            fs == fields@,
            ev == edited_view(edited),
            answers_fit(answers@, scan.tests@, scan.sources@, known@),
            fields_outcome(fs.take(i as int), kind@, answers@, scan.tests@, scan.sources@, known@, ev)
                == (checks_view(pending@), None::<FormProblem>),
        decreases fields.len() - i,
    {
        proof {
            lemma_fields_next(fs, i as int, kind@, answers@, scan.tests@, scan.sources@, known@, ev);
        }
        let (more, problem) = check_field(
            &fields[i],
            kind,
            answers,
            scan,
            known,
            edited,
        );
        let ghost before = pending@;
        let mut more = more;
        pending.append(&mut more);
        assert(checks_view(pending@) =~= checks_view(before) + field_outcome(
            fs[i as int],
            kind@,
            answers@,
            scan.tests@,
            scan.sources@,
            known@,
            ev,
        ).0);
        match problem {
            Some(d) => {
                proof {
                    lemma_fields_stop(fs, i as int + 1, kind@, answers@, scan.tests@, scan.sources@, known@, ev);
                    assert(fs.take(fs.len() as int) =~= fs);
                }
                return (pending, Some(d));
            },
            None => {},
        }
        i = i + 1;
    }
    assert(fs.take(i as int) =~= fs);
    (pending, None)
}

fn names_of_fields(fields: &Vec<FormField>) -> (out: Vec<String>)
    ensures
        texts(out@) == field_names(fields@),
{
    let mut field_list: Vec<String> = Vec::new();
    let mut k: usize = 0;
    while k < fields.len()
        invariant
            k <= fields@.len(),
            texts(field_list@) == field_names(fields@.take(k as int)),
        decreases fields.len() - k,
    {
        field_list.push(fields[k].name.clone());
        assert(field_names(fields@.take(k as int + 1)) =~= field_names(fields@.take(k as int)).push(fields@[k as int].name@));
        assert(texts(field_list@) =~= field_names(fields@.take(k as int + 1)));
        k = k + 1;
    }
    assert(fields@.take(k as int) =~= fields@);
    field_list
}

fn names_of_answers(answers: &Vec<(String, FormValue)>) -> (out: Vec<String>)
    ensures
        texts(out@) == answer_names(answers@),
{
    let mut answer_list: Vec<String> = Vec::new();
    let mut k: usize = 0;
    while k < answers.len()
        invariant
            k <= answers@.len(),
            texts(answer_list@) == answer_names(answers@.take(k as int)),
        decreases answers.len() - k,
    {
        answer_list.push(answers[k].0.clone());
        assert(answer_names(answers@.take(k as int + 1)) =~= answer_names(answers@.take(k as int)).push(answers@[k as int].0@));
        assert(texts(answer_list@) =~= answer_names(answers@.take(k as int + 1)));
        k = k + 1;
    }
    assert(answers@.take(k as int) =~= answers@);
    answer_list
}

/// Every answer is one that can be checked, when the objective ids could
/// be read.
pub open spec fn checkable(
    answers: Seq<(String, FormValue)>,
    tests: Seq<TestEntity>,
    sources: Seq<SourceFunction>,
    vo_ids: Result<Seq<String>, Seq<char>>,
) -> bool {
    vo_ids matches Ok(known) ==> answers_fit(answers, tests, sources, known)
}

/// The objective ids as values.
pub open spec fn ids_view(vo_ids: Result<Vec<String>, String>) -> Result<Seq<String>, Seq<char>> {
    match vo_ids {
        Ok(v) => Ok(v@),
        Err(e) => Err(e@),
    }
}

/// Checks answers to a form against the schema and the scan (see
/// `form_outcome`), with `edited_test_id` naming the test being edited, if
/// any; `vo_ids` are the verification objective ids read from the project,
/// or why they could not be read. The project checks that read files are
/// returned, in order, for the caller to run before it reports the
/// problem, if any (see `reports_form_problem`).
#[verifier::spinoff_prover]
pub fn validate_form_answers_for(
    schema: &FormSchema,
    supplied: &FormAnswers,
    scan: &ScanResult,
    vo_ids: &Result<Vec<String>, String>,
    edited_test_id: Option<&str>,
) -> (r: FormCheck)
    requires
        checkable(supplied.answers@, scan.tests@, scan.sources@, ids_view(*vo_ids)),
    ensures
        ({
            let out = form_outcome(*schema, *supplied, scan.tests@, scan.sources@, ids_view(*vo_ids), edited_view(edited_test_id));
            &&& checks_view(r.pending@) == out.0
            &&& match out.1 {
                None => r.problem is None,
                Some(p) => r.problem matches Some(d) && reports_form_problem(d, p, scan.tests@, scan.sources@),
            }
        }),
{
    let ghost ev = edited_view(edited_test_id);
    if !text_eq(supplied.form.as_str(), schema.kind.as_str()) {
        let mut message = quoted("answers form `", supplied.form.as_str(), "` does not match requested form `");
        push_text(&mut message, schema.kind.as_str());
        push_text(&mut message, "`");
        return FormCheck { pending: Vec::new(), problem: Some(form_error(message)) };
    }
    let ghost names = answer_names(supplied.answers@);
    let ghost known_names = field_names(schema.fields@);
    let field_list = names_of_fields(&schema.fields);
    let answer_list = names_of_answers(&supplied.answers);
    match first_unknown_vo(&answer_list, &field_list) {
        Some(i) => {
            let name = answer_list[i].as_str();
            return FormCheck {
                pending: Vec::new(),
                problem: Some(form_error(quoted("unknown answer field `", name, "`"))),
            };
        },
        None => {},
    }
    let known = match vo_ids {
        Ok(v) => v,
        Err(e) => {
            let mut message = String::new();
            push_text(&mut message, "could not read entity IDs: ");
            push_text(&mut message, e.as_str());
            return FormCheck { pending: Vec::new(), problem: Some(Diagnostic::error("E-CORE-001", message)) };
        },
    };
    let (pending, problem) = check_fields(&schema.fields, schema.kind.as_str(), &supplied.answers, scan, known, edited_test_id);
    FormCheck { pending, problem }
}

/// Checks answers to a form for a new test (see
/// `validate_form_answers_for`, with no test being edited).
pub fn validate_form_answers(
    schema: &FormSchema,
    supplied: &FormAnswers,
    scan: &ScanResult,
    vo_ids: &Result<Vec<String>, String>,
) -> (r: FormCheck)
    requires
        checkable(supplied.answers@, scan.tests@, scan.sources@, ids_view(*vo_ids)),
    ensures
        ({
            let out = form_outcome(*schema, *supplied, scan.tests@, scan.sources@, ids_view(*vo_ids), None);
            &&& checks_view(r.pending@) == out.0
            &&& match out.1 {
                None => r.problem is None,
                Some(p) => r.problem matches Some(d) && reports_form_problem(d, p, scan.tests@, scan.sources@),
            }
        }),
{
    validate_form_answers_for(schema, supplied, scan, vo_ids, None)
}

} // verus!
