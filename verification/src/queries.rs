//! Looking tests and source symbols up by Rust locator.

use vstd::prelude::*;

use crate::diagnostic::Diagnostic;
use crate::discovery::{forward_slashes, parse_locator, Locator as RustLocator, RUST_ADAPTER_ID};
use crate::forms::{answer_for, answer_view, scalar_message, trim, AnswerView, FormValue};
use crate::operations::{last_segment, symbol_candidates, symbol_suggestions};
use crate::order::{stable_sort_by_key, stable_sorted};
use crate::scan::ScanResult;
use crate::source::{SourceFunction, TargetRef};
use crate::test_entity::TestEntity;
use crate::text::{push_text, text_eq};

verus! {

/// The canonical text of a parsed Rust locator: `<path>::<item path>`.
pub open spec fn locator_text(p: (Seq<char>, Seq<char>)) -> Seq<char> {
    p.0 + "::"@ + p.1
}

/// Some source target of the scan has the Rust locator `value`.
pub open spec fn source_exists(sources: Seq<SourceFunction>, value: Seq<char>) -> bool {
    exists|i: int|
        0 <= i < sources.len() && (#[trigger] sources[i]).locator.adapter@ == RUST_ADAPTER_ID@
            && sources[i].locator.value@ == value
}

/// The target is the Rust locator `value`.
pub open spec fn is_rust_target(t: TargetRef, value: Seq<char>) -> bool {
    match t {
        TargetRef::Locator(l) => l.adapter@ == RUST_ADAPTER_ID@ && l.value@ == value,
        TargetRef::SrcId(_) => false,
    }
}

/// The test declares the Rust locator `value` among its targets.
pub open spec fn targets_locator(t: TestEntity, value: Seq<char>) -> bool {
    exists|k: int| 0 <= k < t.targets@.len() && is_rust_target(#[trigger] t.targets@[k], value)
}

/// The tests that target the Rust locator `value`, in scan order.
pub open spec fn targeting(tests: Seq<TestEntity>, value: Seq<char>) -> Seq<TestEntity>
    decreases tests.len(),
{
    if tests.len() == 0 {
        Seq::empty()
    } else {
        let earlier = targeting(tests.drop_last(), value);
        if targets_locator(tests.last(), value) {
            earlier.push(tests.last())
        } else {
            earlier
        }
    }
}

/// The lengths the suggestions for `requested` compare stay within the
/// machine's range.
pub open spec fn suggestible(sources: Seq<SourceFunction>, requested: Seq<char>) -> bool {
    forall|i: int|
        0 <= i < sources.len() ==> last_segment((#[trigger] sources[i]).locator.value@).len() + last_segment(
            requested,
        ).len() < usize::MAX
}

/// The error for a locator: its code, message and candidates as expected.
pub open spec fn lookup_error(d: Diagnostic, message: Seq<char>, sources: Seq<SourceFunction>, requested: Seq<char>) -> bool {
    &&& d.code@ == "E-OP-001"@
    &&& d.severity == crate::diagnostic::DiagnosticSeverity::Error
    &&& d.message@ == message
    &&& d.candidates@.map_values(|t: String| t@) == symbol_suggestions(sources, requested)
    &&& d.location is None
}

fn rust_source_exists(sources: &Vec<SourceFunction>, value: &str) -> (r: bool)
    ensures
        r == source_exists(sources@, value@),
{
    let mut i: usize = 0;
    while i < sources.len()
        invariant
            i <= sources@.len(),
            forall|j: int|
                0 <= j < i ==> !((#[trigger] sources@[j]).locator.adapter@ == RUST_ADAPTER_ID@
                    && sources@[j].locator.value@ == value@),
        decreases sources.len() - i,
    {
        if text_eq(sources[i].locator.adapter.as_str(), RUST_ADAPTER_ID) && text_eq(
            sources[i].locator.value.as_str(),
            value,
        ) {
            return true;
        }
        i = i + 1;
    }
    false
}

fn test_targets(t: &TestEntity, value: &str) -> (r: bool)
    ensures
        r == targets_locator(*t, value@),
{
    let mut k: usize = 0;
    while k < t.targets.len()
        invariant
            k <= t.targets@.len(),
            forall|j: int| 0 <= j < k ==> !is_rust_target(#[trigger] t.targets@[j], value@),
        decreases t.targets.len() - k,
    {
        match &t.targets[k] {
            TargetRef::Locator(l) => {
                if text_eq(l.adapter.as_str(), RUST_ADAPTER_ID) && text_eq(l.value.as_str(), value) {
                    return true;
                }
            },
            TargetRef::SrcId(_) => {},
        }
        k = k + 1;
    }
    false
}

pub(crate) fn lookup_failure(message: String, scan: &ScanResult, requested: &str) -> (d: Diagnostic)
    requires
        suggestible(scan.sources@, requested@),
    ensures
        lookup_error(d, message@, scan.sources@, requested@),
{
    let candidates = symbol_candidates(scan, requested);
    Diagnostic::error("E-OP-001", message).with_candidates(candidates)
}

pub(crate) fn quoted(prefix: &str, value: &str, suffix: &str) -> (m: String)
    ensures
        m@ == prefix@ + value@ + suffix@,
{
    let mut m = String::new();
    push_text(&mut m, prefix);
    push_text(&mut m, value);
    push_text(&mut m, suffix);
    m
}

fn tests_targeting(all: &Vec<TestEntity>, value: &str) -> (tests: Vec<TestEntity>)
    ensures
        tests@.len() == targeting(all@, value@).len(),
        forall|i: int| 0 <= i < tests@.len() ==> (#[trigger] tests@[i]).same_as(stable_sorted(targeting(all@, value@))[i]),
{
    let ghost want = value@;
    let mut selected: Vec<TestEntity> = Vec::new();
    let mut i: usize = 0;
    while i < all.len()
        invariant
            i <= all@.len(),
            want == value@,
            selected@.len() == targeting(all@.take(i as int), want).len(),
            forall|k: int|
                0 <= k < selected@.len() ==> (#[trigger] selected@[k]).same_as(
                    targeting(all@.take(i as int), want)[k],
                ),
        decreases all.len() - i,
    {
        let ghost t = all@.take(i as int + 1);
        assert(t.drop_last() =~= all@.take(i as int));
        assert(t.last() == all@[i as int]);
        if test_targets(&all[i], value) {
            let copy = all[i].duplicate();
            selected.push(copy);
        }
        i = i + 1;
    }
    assert(all@.take(i as int) =~= all@);
    let ghost before_sort = selected@;
    let tests = stable_sort_by_key(selected);
    proof {
        crate::operations::lemma_stable_sorted_same_as(before_sort, targeting(all@, want));
    }
    tests
}

/// The tests that target the Rust source symbol `source`, sorted by id:
/// an `E-OP-001` error, with suggestions, when `source` is not a locator
/// or names no source target of the scan.
pub fn query_tests(scan: &ScanResult, source: &str) -> (r: Result<Vec<TestEntity>, Diagnostic>)
    requires
        suggestible(scan.sources@, source@),
    ensures
        match parse_locator(source@) {
            None => r matches Err(d) && lookup_error(
                d,
                "invalid source locator `"@ + source@ + "`"@,
                scan.sources@,
                source@,
            ),
            Some(p) => if !source_exists(scan.sources@, locator_text(p)) {
                r matches Err(d) && lookup_error(
                    d,
                    "source symbol `"@ + source@ + "` does not exist"@,
                    scan.sources@,
                    source@,
                )
            } else {
                r matches Ok(tests) && tests@.len() == targeting(scan.tests@, locator_text(p)).len() && forall|
                    i: int,
                | 0 <= i < tests@.len() ==> (#[trigger] tests@[i]).same_as(
                    stable_sorted(targeting(scan.tests@, locator_text(p)))[i],
                )
            },
        },
{
    let parsed = match RustLocator::parse(source) {
        Some(l) => l,
        None => {
            return Err(lookup_failure(quoted("invalid source locator `", source, "`"), scan, source));
        },
    };
    let value = parsed.as_string();
    if !rust_source_exists(&scan.sources, value.as_str()) {
        return Err(lookup_failure(quoted("source symbol `", source, "` does not exist"), scan, source));
    }
    let tests = tests_targeting(&scan.tests, value.as_str());
    Ok(tests)
}

/// The strings of an answer value.
pub open spec fn answer_strings(v: FormValue) -> Seq<Seq<char>> {
    match answer_view(v) {
        AnswerView::List(items) => items,
        AnswerView::Scalar(s) => seq![s],
    }
}

/// The symbol is a Rust locator naming a source target of the scan.
#[verifier::opaque]
pub open spec fn symbol_resolves(sources: Seq<SourceFunction>, symbol: Seq<char>) -> bool {
    parse_locator(symbol) matches Some(p) && source_exists(sources, locator_text(p))
}

/// The position of the first symbol that does not resolve.
pub open spec fn first_unresolved(sources: Seq<SourceFunction>, symbols: Seq<Seq<char>>) -> int {
    choose|i: int|
        0 <= i < symbols.len() && !symbol_resolves(sources, #[trigger] symbols[i]) && forall|j: int|
            0 <= j < i ==> symbol_resolves(sources, symbols[j])
}

/// Why a symbol does not resolve.
pub open spec fn symbol_failure(symbol: Seq<char>) -> Seq<char> {
    if parse_locator(symbol) is None {
        "invalid source locator `"@ + symbol + "`"@
    } else {
        "source symbol `"@ + symbol + "` does not exist"@
    }
}

pub(crate) fn check_symbol(sources: &Vec<SourceFunction>, symbol: &str) -> (r: Option<String>)
    ensures
        match r {
            None => symbol_resolves(sources@, symbol@),
            Some(m) => !symbol_resolves(sources@, symbol@) && m@ == symbol_failure(symbol@),
        },
{
    proof {
        reveal(symbol_resolves);
    }
    match RustLocator::parse(symbol) {
        None => Some(quoted("invalid source locator `", symbol, "`")),
        Some(parsed) => {
            let v = parsed.as_string();
            if rust_source_exists(sources, v.as_str()) {
                None
            } else {
                Some(quoted("source symbol `", symbol, "` does not exist"))
            }
        },
    }
}

/// A symbol answer fails: it has the wrong shape, or one of its symbols
/// does not resolve.
pub open spec fn symbols_fail(sources: Seq<SourceFunction>, value: FormValue, expect_list: bool) -> bool {
    let symbols = answer_strings(value);
    expect_list != (value is List) || exists|i: int| 0 <= i < symbols.len() && !symbol_resolves(sources, #[trigger] symbols[i])
}

/// The error for a failing symbol answer: the wrong shape, or the first
/// symbol that does not resolve, with suggestions.
pub open spec fn symbols_rejection(
    d: Diagnostic,
    sources: Seq<SourceFunction>,
    field: Seq<char>,
    value: FormValue,
    expect_list: bool,
) -> bool {
    let symbols = answer_strings(value);
    if expect_list != (value is List) {
        d.code@ == "E-OP-001"@ && d.message@ == "answer `"@ + field + "` has the wrong type"@ && d.candidates@.len()
            == 0 && d.severity == crate::diagnostic::DiagnosticSeverity::Error
    } else {
        let i = first_unresolved(sources, symbols);
        lookup_error(d, symbol_failure(symbols[i]), sources, symbols[i])
    }
}

/// Checks that a symbol answer has the expected shape (a list, or a
/// scalar) and that each of its symbols is a Rust locator naming a source
/// target: otherwise an `E-OP-001` error, for the first symbol that fails
/// with suggestions.
pub fn validate_symbols(scan: &ScanResult, field: &str, value: &FormValue, expect_list: bool) -> (r: Result<
    (),
    Diagnostic,
>)
    requires
        forall|i: int|
            0 <= i < answer_strings(*value).len() ==> suggestible(scan.sources@, #[trigger] answer_strings(*value)[i]),
    ensures
        if symbols_fail(scan.sources@, *value, expect_list) {
            r matches Err(d) && symbols_rejection(d, scan.sources@, field@, *value, expect_list)
        } else {
            r is Ok
        },
{
    let is_list = match value {
        FormValue::List(_) => true,
        FormValue::Scalar(_) => false,
    };
    if expect_list != is_list {
        return Err(Diagnostic::error("E-OP-001", quoted("answer `", field, "` has the wrong type")));
    }
    let symbols = crate::forms::value_strings(value);
    let ghost sv = answer_strings(*value);
    assert(symbols@.map_values(|s: String| s@) == sv);
    let mut i: usize = 0;
    while i < symbols.len()
        invariant
            i <= symbols@.len(),
            symbols@.map_values(|s: String| s@) == sv,
            sv == answer_strings(*value),
            expect_list == (*value is List),
            forall|k: int| 0 <= k < sv.len() ==> suggestible(scan.sources@, #[trigger] sv[k]),
            forall|j: int| 0 <= j < i ==> symbol_resolves(scan.sources@, #[trigger] sv[j]),
        decreases symbols.len() - i,
    {
        let symbol = symbols[i].as_str();
        assert(sv[i as int] == symbol@);
        let failure = check_symbol(&scan.sources, symbol);
        match failure {
            Some(message) => {
                proof {
                    assert(0 <= i < sv.len() && !symbol_resolves(scan.sources@, sv[i as int]) && forall|j: int|
                        0 <= j < i ==> symbol_resolves(scan.sources@, sv[j]));
                    let w = first_unresolved(scan.sources@, sv);
                    assert(!symbol_resolves(scan.sources@, sv[i as int]));
                    if w < i {
                        assert(symbol_resolves(scan.sources@, sv[w]));
                    }
                    if w > i {
                        assert(symbol_resolves(scan.sources@, sv[i as int]));
                    }
                    assert(w == i);
                }
                let d = lookup_failure(message, scan, symbol);
                assert(lookup_error(d, symbol_failure(sv[i as int]), scan.sources@, sv[i as int]));
                return Err(d);
            },
            None => {},
        }
        i = i + 1;
    }
    Ok(())
}

/// A scalar answer's text, when it is not blank.
pub open spec fn nonblank_scalar(v: FormValue) -> Option<Seq<char>> {
    match v {
        FormValue::Scalar(s) => if trim(s@).len() > 0 {
            Some(s@)
        } else {
            None
        },
        FormValue::List(_) => None,
    }
}

/// The file a new test goes into: the `file` answer with forward slashes;
/// else the path of the `target` answer's locator; else an error message.
pub open spec fn destination_of(answers: Seq<(String, FormValue)>) -> Result<Seq<char>, Seq<char>> {
    match answer_for(answers, "file"@) {
        Some(v) => match nonblank_scalar(v) {
            Some(f) => Ok(forward_slashes(f)),
            None => Err(scalar_message("file"@)),
        },
        None => match answer_for(answers, "target"@) {
            Some(v) => match nonblank_scalar(v) {
                Some(t) => match parse_locator(t) {
                    Some(p) => Ok(p.0),
                    None => Err("target is not a locator"@),
                },
                None => Err(scalar_message("target"@)),
            },
            None => Err("answers require `file` when no single target is present"@),
        },
    }
}

/// The file a new test goes into (see `destination_of`); each failure is
/// an `E-OP-001` error.
pub fn destination_file(answers: &Vec<(String, FormValue)>) -> (r: Result<String, Diagnostic>)
    ensures
        match destination_of(answers@) {
            Ok(f) => r matches Ok(s) && s@ == f,
            Err(m) => r matches Err(d) && d.code@ == "E-OP-001"@ && d.message@ == m
                && d.severity == crate::diagnostic::DiagnosticSeverity::Error,
        },
{
    proof {
        reveal_strlit("file");
        reveal_strlit("target");
    }
    match crate::forms::find_answer(answers, "file") {
        Some(v) => {
            let text = match crate::forms::scalar(v, "file") {
                Ok(t) => t,
                Err(d) => {
                    return Err(d);
                },
            };
            let chars = crate::text::chars_of(text);
            let mut out: Vec<char> = Vec::new();
            let mut k: usize = 0;
            while k < chars.len()
                invariant
                    k <= chars@.len(),
                    out@ == forward_slashes(chars@.take(k as int)),
                decreases chars.len() - k,
            {
                let c = if chars[k] == '\\' { '/' } else { chars[k] };
                out.push(c);
                assert(forward_slashes(chars@.take(k as int + 1)) =~= forward_slashes(chars@.take(k as int)).push(c));
                k = k + 1;
            }
            assert(chars@.take(k as int) =~= chars@);
            Ok(crate::text::string_from_chars(&out))
        },
        None => match crate::forms::find_answer(answers, "target") {
            Some(v) => {
                let text = match crate::forms::scalar(v, "target") {
                    Ok(t) => t,
                    Err(d) => {
                        return Err(d);
                    },
                };
                match RustLocator::parse(text) {
                    Some(l) => Ok(l.path),
                    None => Err(Diagnostic::error("E-OP-001", "target is not a locator")),
                }
            },
            None => Err(Diagnostic::error("E-OP-001", "answers require `file` when no single target is present")),
        },
    }
}

} // verus!
