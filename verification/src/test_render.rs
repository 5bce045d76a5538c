//! Rewriting a test's source for a structured edit: its annotation doc
//! lines are rendered from the desired state, its other doc lines kept,
//! its function renamed and its body replaced as asked.

use vstd::prelude::*;
use vstd::utf8::{decode_utf8, encode_utf8, is_char_boundary};

use crate::desired::{texts, DesiredTest};
use crate::diagnostic::{Diagnostic, DiagnosticSeverity};
use crate::editing::{
    after_last_newline, deindent, deindented, indent_after_newlines, indent_multiline, lemma_boundary_in_prefix,
    line_column_offset, line_indent, lines_of, source_offset, text_lines,
};
use crate::hash::{text_hash, ContentHash};
use crate::operations::TestMutationResult;
use crate::forms::{trim, trim_start, trim_text, white_space};
use crate::queries::quoted;
use crate::scan_documents::{join_names, join_with};
use crate::test_entity::TestEntity;
use crate::text::{chars_of, has_prefix, push_text, string_from_chars, text_eq};

verus! {

/// `t` occurs in `s` starting at `i`.
pub open spec fn occurs_at(s: Seq<char>, t: Seq<char>, i: int) -> bool {
    0 <= i && i + t.len() <= s.len() && s.subrange(i, i + t.len()) == t
}

/// `t` occurs somewhere in `s`.
pub open spec fn contains_text(s: Seq<char>, t: Seq<char>) -> bool {
    exists|i: int| occurs_at(s, t, i)
}

/// Where `t` first occurs in `s`.
pub open spec fn first_occurrence(s: Seq<char>, t: Seq<char>) -> int {
    choose|i: int| occurs_at(s, t, i) && forall|j: int| 0 <= j < i ==> !occurs_at(s, t, j)
}

/// `s` with its first occurrence of `from` replaced by `to`, or `s` when
/// `from` does not occur.
pub open spec fn replace_first(s: Seq<char>, from: Seq<char>, to: Seq<char>) -> Seq<char> {
    if contains_text(s, from) {
        let i = first_occurrence(s, from);
        s.take(i) + to + s.skip(i + from.len())
    } else {
        s
    }
}

/// A test's source lines sorted out: the free doc lines before its first
/// annotation line (`.0`), the free doc lines after it (`.1`), and the
/// lines from the first one that is not a doc comment on (`.2`); `.3` says
/// whether that line was met, `.4` whether an annotation line was.
pub open spec fn doc_split(lines: Seq<Seq<char>>) -> (Seq<Seq<char>>, Seq<Seq<char>>, Seq<Seq<char>>, bool, bool)
    decreases lines.len(),
{
    if lines.len() == 0 {
        (Seq::empty(), Seq::empty(), Seq::empty(), false, false)
    } else {
        let (before, after, tail, in_tail, saw) = doc_split(lines.drop_last());
        let line = lines.last();
        let t = trim_start(line);
        if !in_tail && has_prefix(t, "///"@) {
            if contains_text(t, "@vtest."@) {
                (before, after, tail, in_tail, true)
            } else if saw {
                (before, after.push(line), tail, in_tail, saw)
            } else {
                (before.push(line), after, tail, in_tail, saw)
            }
        } else {
            (before, after, tail.push(line), true, saw)
        }
    }
}

fn find_text(s: &Vec<char>, t: &Vec<char>) -> (r: Option<usize>)
    ensures
        match r {
            Some(i) => occurs_at(s@, t@, i as int) && forall|j: int| 0 <= j < i ==> !occurs_at(s@, t@, j),
            None => !contains_text(s@, t@),
        },
{
    if t.len() > s.len() {
        assert(!contains_text(s@, t@));
        return None;
    }
    let last = s.len() - t.len();
    let mut i: usize = 0;
    while i <= last
        invariant
            t@.len() <= s@.len(),
            last == s@.len() - t@.len(),
            forall|j: int| 0 <= j < i ==> !occurs_at(s@, t@, j),
        decreases last + 1 - i,
    {
        let mut k: usize = 0;
        let mut same = true;
        while same && k < t.len()
            invariant
                i + t@.len() <= s@.len(),
                k <= t@.len(),
                forall|m: int| 0 <= m < k ==> s@[i + m] == t@[m],
                !same ==> k < t@.len() && s@[i + k] != t@[k as int],
            decreases t@.len() - k + if same { 1int } else { 0int },
        {
            assert(i + k < s.len());
            if s[i + k] != t[k] {
                same = false;
            } else {
                k = k + 1;
            }
        }
        if same {
            assert(s@.subrange(i as int, i + t@.len()) =~= t@);
            return Some(i);
        }
        assert(s@.subrange(i as int, i + t@.len())[k as int] != t@[k as int]);
        if i == last {
            assert forall|j: int| !occurs_at(s@, t@, j) by {
                if 0 <= j && j + t@.len() <= s@.len() {
                    assert(j <= i);
                }
            }
            return None;
        }
        i = i + 1;
    }
    assert forall|j: int| !occurs_at(s@, t@, j) by {
        if 0 <= j && j + t@.len() <= s@.len() {
            assert(j < i);
        }
    }
    None
}

fn trim_start_chars(s: &Vec<char>) -> (out: Vec<char>)
    ensures
        out@ == trim_start(s@),
{
    let mut start: usize = 0;
    assert(s@.skip(0) =~= s@);
    while start < s.len() && white_space(s[start])
        invariant
            start <= s@.len(),
            trim_start(s@) == trim_start(s@.skip(start as int)),
        decreases s.len() - start,
    {
        assert(s@.skip(start as int).drop_first() =~= s@.skip(start as int + 1));
        start = start + 1;
    }
    let mut out: Vec<char> = Vec::new();
    let mut k: usize = start;
    while k < s.len()
        invariant
            start <= k <= s@.len(),
            out@ == s@.subrange(start as int, k as int),
        decreases s.len() - k,
    {
        out.push(s[k]);
        assert(out@ =~= s@.subrange(start as int, k as int + 1));
        k = k + 1;
    }
    assert(out@ =~= s@.skip(start as int));
    out
}

/// The doc comment lines of a test's source, sorted (see `doc_split`).
fn split_doc_lines(lines: &Vec<Vec<char>>) -> (r: (Vec<String>, Vec<String>, Vec<String>))
    ensures
        ({
            let d = doc_split(lines@.map_values(|l: Vec<char>| l@));
            &&& r.0@.map_values(|s: String| s@) == d.0
            &&& r.1@.map_values(|s: String| s@) == d.1
            &&& r.2@.map_values(|s: String| s@) == d.2
        }),
{
    proof {
        reveal_strlit("///");
        reveal_strlit("@vtest.");
    }
    let ghost lv = lines@.map_values(|l: Vec<char>| l@);
    let slashes = chars_of("///");
    let marker = chars_of("@vtest.");
    let mut before: Vec<String> = Vec::new();
    let mut after: Vec<String> = Vec::new();
    let mut tail: Vec<String> = Vec::new();
    let mut in_tail = false;
    let mut saw = false;
    let mut i: usize = 0;
    assert(lv.take(0) =~= Seq::<Seq<char>>::empty());
    while i < lines.len()
        invariant
            i <= lines@.len(),
            lv == lines@.map_values(|l: Vec<char>| l@),
            slashes@ == "///"@,
            marker@ == "@vtest."@,
            doc_split(lv.take(i as int)) == (
                before@.map_values(|s: String| s@),
                after@.map_values(|s: String| s@),
                tail@.map_values(|s: String| s@),
                in_tail,
                saw,
            ),
        decreases lines.len() - i,
    {
        assert(lv.take(i as int + 1).drop_last() =~= lv.take(i as int));
        assert(lv.take(i as int + 1).last() == lines@[i as int]@);
        let line = &lines[i];
        let trimmed = trim_start_chars(line);
        let doc = !in_tail && trimmed.len() >= 3 && trimmed[0] == '/' && trimmed[1] == '/' && trimmed[2] == '/';
        proof {
            reveal_strlit("///");
            if !in_tail {
                if trimmed@.len() >= 3 && trimmed@[0] == '/' && trimmed@[1] == '/' && trimmed@[2] == '/' {
                    assert(trimmed@.take(3) =~= "///"@);
                } else if trimmed@.len() >= 3 {
                    assert(trimmed@.take(3) != "///"@) by {
                        if trimmed@.take(3) == "///"@ {
                            assert(trimmed@.take(3)[0] == '/' && trimmed@.take(3)[1] == '/' && trimmed@.take(3)[2] == '/');
                        }
                    }
                }
            }
        }
        if doc {
            if find_text(&trimmed, &marker).is_some() {
                saw = true;
            } else if saw {
                let ghost b = after@;
                let text = string_from_chars(line);
                after.push(text);
                assert(after@.map_values(|s: String| s@) =~= b.map_values(|s: String| s@).push(lv[i as int]));
            } else {
                let ghost b = before@;
                let text = string_from_chars(line);
                before.push(text);
                assert(before@.map_values(|s: String| s@) =~= b.map_values(|s: String| s@).push(lv[i as int]));
            }
        } else {
            in_tail = true;
            let ghost b = tail@;
            let text = string_from_chars(line);
            tail.push(text);
            assert(tail@.map_values(|s: String| s@) =~= b.map_values(|s: String| s@).push(lv[i as int]));
        }
        i = i + 1;
    }
    assert(lv.take(i as int) =~= lv);
    (before, after, tail)
}

/// A doc line `prefix` + the value, when there is a value.
pub open spec fn optional_line(prefix: Seq<char>, value: Option<String>) -> Seq<Seq<char>> {
    match value {
        Some(v) => seq![prefix + v@],
        None => Seq::empty(),
    }
}

/// A doc line `prefix` + item for each item.
pub open spec fn prefixed_lines(prefix: Seq<char>, items: Seq<String>) -> Seq<Seq<char>> {
    items.map_values(|i: String| prefix + i@)
}

/// The annotation doc lines of a desired test state, in their order.
#[verifier::opaque]
pub open spec fn annotation_lines(desired: DesiredTest) -> Seq<Seq<char>> {
    seq![
        "/// @vtest.id "@ + desired.id@,
        "/// @vtest.covers "@ + join_with(texts(desired.covers@), ","@),
    ] + prefixed_lines("/// @vtest.target "@, desired.targets@) + seq!["/// @vtest.intent "@ + desired.intent@]
        + optional_line("/// @vtest.input "@, desired.input) + optional_line("/// @vtest.expect "@, desired.expect)
        + optional_line("/// @vtest.kind "@, desired.kind) + prefixed_lines("/// @vtest.case "@, desired.cases@)
        + prefixed_lines("/// @vtest.related "@, desired.related@)
}

fn push_line(lines: &mut Vec<String>, prefix: &str, value: &str)
    ensures
        final(lines)@.map_values(|s: String| s@) == old(lines)@.map_values(|s: String| s@).push(prefix@ + value@),
{
    let ghost before = lines@;
    let mut line = String::new();
    push_text(&mut line, prefix);
    push_text(&mut line, value);
    lines.push(line);
    assert(lines@.map_values(|s: String| s@) =~= before.map_values(|s: String| s@).push(prefix@ + value@));
}

fn push_lines(lines: &mut Vec<String>, prefix: &str, items: &Vec<String>)
    ensures
        final(lines)@.map_values(|s: String| s@) == old(lines)@.map_values(|s: String| s@) + prefixed_lines(
            prefix@,
            items@,
        ),
{
    let ghost start = lines@.map_values(|s: String| s@);
    let mut k: usize = 0;
    while k < items.len()
        invariant
            k <= items@.len(),
            lines@.map_values(|s: String| s@) == start + prefixed_lines(prefix@, items@.take(k as int)),
        decreases items.len() - k,
    {
        push_line(lines, prefix, items[k].as_str());
        assert(prefixed_lines(prefix@, items@.take(k as int + 1)) =~= prefixed_lines(prefix@, items@.take(k as int)).push(
            prefix@ + items@[k as int]@,
        ));
        k = k + 1;
    }
    assert(items@.take(k as int) =~= items@);
}

fn push_optional(lines: &mut Vec<String>, prefix: &str, value: &Option<String>)
    ensures
        final(lines)@.map_values(|s: String| s@) == old(lines)@.map_values(|s: String| s@) + optional_line(
            prefix@,
            *value,
        ),
{
    match value {
        Some(v) => {
            push_line(lines, prefix, v.as_str());
        },
        None => {
            assert(lines@.map_values(|s: String| s@) =~= lines@.map_values(|s: String| s@) + Seq::<Seq<char>>::empty());
        },
    }
}

/// The annotation doc lines of a desired test state (see
/// `annotation_lines`), after `lines`.
fn push_annotations(lines: &mut Vec<String>, desired: &DesiredTest)
    ensures
        final(lines)@.map_values(|s: String| s@) == old(lines)@.map_values(|s: String| s@) + annotation_lines(*desired),
{
    let ghost start = lines@.map_values(|s: String| s@);
    push_line(lines, "/// @vtest.id ", desired.id.as_str());
    let covers = join_names(&desired.covers, ",");
    push_line(lines, "/// @vtest.covers ", covers.as_str());
    push_lines(lines, "/// @vtest.target ", &desired.targets);
    push_line(lines, "/// @vtest.intent ", desired.intent.as_str());
    push_optional(lines, "/// @vtest.input ", &desired.input);
    push_optional(lines, "/// @vtest.expect ", &desired.expect);
    push_optional(lines, "/// @vtest.kind ", &desired.kind);
    push_lines(lines, "/// @vtest.case ", &desired.cases);
    push_lines(lines, "/// @vtest.related ", &desired.related);
    proof {
        reveal(annotation_lines);
    }
    assert(lines@.map_values(|s: String| s@) =~= start + annotation_lines(*desired));
}

/// What `syn` reports when `text` does not parse as a Rust block, or
/// nothing when it does.
pub uninterp spec fn block_parse_error(text: Seq<char>) -> Option<Seq<char>>;

/// `syn::parse_str::<syn::Block>`. Trusted: whether the text parses as a
/// block, and the text of the error when it does not, depend on the text
/// alone (named `block_parse_error`); which texts parse is left unstated.
#[verifier::external_body]
fn parse_block_error(text: &str) -> (r: Option<String>)
    ensures
        match r {
            Some(e) => block_parse_error(text@) == Some(e@),
            None => block_parse_error(text@) is None,
        },
{
    syn::parse_str::<syn::Block>(text).err().map(|error| error.to_string())
}

/// Where `syn` places the body block of `text` parsed as a Rust function:
/// the 1-based line and the column of its start and of its end; or the
/// text of the parse error.
pub uninterp spec fn item_fn_block_span(text: Seq<char>) -> Result<(usize, usize, usize, usize), Seq<char>>;

/// `syn::parse_str::<syn::ItemFn>` and the span of the parsed function's
/// block (`proc_macro2::Span::start` and `end`). Trusted: the outcome
/// depends on the text alone (named `item_fn_block_span`); which texts
/// parse and where the block is found are left unstated.
#[verifier::external_body]
fn fn_block_span(text: &str) -> (r: Result<(usize, usize, usize, usize), String>)
    ensures
        match r {
            Ok(p) => item_fn_block_span(text@) == Ok::<(usize, usize, usize, usize), Seq<char>>(p),
            Err(e) => item_fn_block_span(text@) == Err::<(usize, usize, usize, usize), Seq<char>>(e@),
        },
{
    match syn::parse_str::<syn::ItemFn>(text) {
        Ok(parsed) => {
            let span = syn::spanned::Spanned::span(&parsed.block);
            Ok((span.start().line, span.start().column, span.end().line, span.end().column))
        },
        Err(error) => Err(error.to_string()),
    }
}

/// A body as a block: trimmed, and put in braces unless it already begins
/// with `{` and ends with `}`; or the error message when that is not a
/// Rust block.
pub open spec fn normalized_body(body: Seq<char>) -> Result<Seq<char>, Seq<char>> {
    let t = trim(body);
    let block = if t.len() > 0 && t[0] == '{' && t.last() == '}' {
        t
    } else {
        "{\n"@ + t + "\n}"@
    };
    match block_parse_error(block) {
        Some(e) => Err("body file does not contain a valid Rust block: "@ + e),
        None => Ok(block),
    }
}

/// An error: its code and message.
pub open spec fn failure(code: Seq<char>, message: Seq<char>) -> Result<Seq<char>, (Seq<char>, Seq<char>)> {
    Err((code, message))
}

/// The function source with its body block replaced by the normalized
/// `body`: the block is found where `syn` places it, its line and column
/// read as a byte offset into the source (see `line_column_offset`).
#[verifier::opaque]
pub open spec fn body_replaced(function: Seq<char>, body: Seq<char>) -> Result<Seq<char>, (Seq<char>, Seq<char>)> {
    match normalized_body(body) {
        Err(m) => failure("E-OP-001"@, m),
        Ok(block) => match item_fn_block_span(function) {
            Err(e) => failure("E-OP-002"@, "Test function could not be reparsed before body edit: "@ + e),
            Ok(span) => {
                let b = encode_utf8(function);
                match line_column_offset(b, span.0 as int, span.1 as int) {
                    None => failure("E-OP-002"@, "Test body start is out of range"@),
                    Some(start) => match line_column_offset(b, span.2 as int, span.3 as int) {
                        None => failure("E-OP-002"@, "Test body end is out of range"@),
                        Some(end) => if start < end && end <= b.len() && is_char_boundary(b, start)
                            && is_char_boundary(b, end) {
                            Ok(decode_utf8(b.take(start)) + block + decode_utf8(b.skip(end)))
                        } else {
                            failure("E-OP-002"@, "Test function body range is invalid"@)
                        },
                    },
                }
            },
        },
    }
}

/// The function source with its name changed from `current_fn` to
/// `new_fn` at the first `fn <current_fn>`, when the names differ.
pub open spec fn renamed_function(function: Seq<char>, id: Seq<char>, current_fn: Seq<char>, new_fn: Seq<char>) -> Result<
    Seq<char>,
    (Seq<char>, Seq<char>),
> {
    if new_fn == current_fn {
        Ok(function)
    } else if contains_text(function, "fn "@ + current_fn) {
        Ok(replace_first(function, "fn "@ + current_fn, "fn "@ + new_fn))
    } else {
        failure("E-OP-002"@, "Test `"@ + id + "` function signature could not be located"@)
    }
}

/// The edited source of a test: the free doc lines before its annotation
/// lines, the annotation lines of the desired state, the free doc lines
/// after them, then the function (renamed, and with its body replaced
/// when a body is given), joined by newlines.
pub open spec fn rendered_test(
    source: Seq<char>,
    id: Seq<char>,
    current_fn: Seq<char>,
    desired: DesiredTest,
    body: Option<Seq<char>>,
) -> Result<Seq<char>, (Seq<char>, Seq<char>)> {
    let d = doc_split(text_lines(source));
    if d.2.len() == 0 {
        failure("E-OP-002"@, "Test `"@ + id + "` has no function body in its source range"@)
    } else {
        match renamed_function(join_with(d.2, "\n"@), id, current_fn, desired.fn_name@) {
            Err(e) => Err(e),
            Ok(f) => {
                let edited = match body {
                    None => Ok(f),
                    Some(b) => body_replaced(f, b),
                };
                match edited {
                    Err(e) => Err(e),
                    Ok(g) => Ok(join_with(d.0 + annotation_lines(desired) + d.1 + seq![g], "\n"@)),
                }
            },
        }
    }
}

/// The diagnostic is the error `e` (its code and message) and nothing more.
pub open spec fn reports(d: Diagnostic, e: (Seq<char>, Seq<char>)) -> bool {
    d.code@ == e.0 && d.message@ == e.1 && d.severity == DiagnosticSeverity::Error && d.candidates@.len() == 0
        && d.location is None
}

fn error_of(code: &str, message: String) -> (d: Diagnostic)
    ensures
        reports(d, (code@, message@)),
{
    Diagnostic::error(code, message)
}

fn joined(prefix: &str, text: &str) -> (m: String)
    ensures
        m@ == prefix@ + text@,
{
    let mut m = String::new();
    push_text(&mut m, prefix);
    push_text(&mut m, text);
    m
}

/// A body as a block (see `normalized_body`).
fn normalize_body(body: &str) -> (r: Result<String, Diagnostic>)
    ensures
        match normalized_body(body@) {
            Ok(b) => r matches Ok(s) && s@ == b,
            Err(m) => r matches Err(d) && reports(d, ("E-OP-001"@, m)),
        },
{
    proof {
        reveal_strlit("{\n");
        reveal_strlit("\n}");
    }
    let t = trim_text(body);
    let tc = chars_of(t.as_str());
    let block = if tc.len() > 0 && tc[0] == '{' && tc[tc.len() - 1] == '}' {
        t
    } else {
        let mut b = String::new();
        push_text(&mut b, "{\n");
        push_text(&mut b, t.as_str());
        push_text(&mut b, "\n}");
        b
    };
    match parse_block_error(block.as_str()) {
        Some(e) => Err(error_of("E-OP-001", joined("body file does not contain a valid Rust block: ", e.as_str()))),
        None => Ok(block),
    }
}

/// The function source with its body replaced (see `body_replaced`).
fn replace_body(function: &str, body: &str) -> (r: Result<String, Diagnostic>)
    ensures
        match body_replaced(function@, body@) {
            Ok(f) => r matches Ok(s) && s@ == f,
            Err(e) => r matches Err(d) && reports(d, e),
        },
{
    proof {
        reveal(body_replaced);
    }
    let block = match normalize_body(body) {
        Ok(b) => b,
        Err(d) => {
            return Err(d);
        },
    };
    let span = match fn_block_span(function) {
        Ok(p) => p,
        Err(e) => {
            return Err(
                error_of("E-OP-002", joined("Test function could not be reparsed before body edit: ", e.as_str())),
            );
        },
    };
    let start = match source_offset(function, span.0, span.1) {
        Some(o) => o,
        None => {
            return Err(error_of("E-OP-002", "Test body start is out of range".to_string()));
        },
    };
    let end = match source_offset(function, span.2, span.3) {
        Some(o) => o,
        None => {
            return Err(error_of("E-OP-002", "Test body end is out of range".to_string()));
        },
    };
    let len = function.as_bytes().len();
    if start >= end || end > len || !function.is_char_boundary(start) || !function.is_char_boundary(end) {
        return Err(error_of("E-OP-002", "Test function body range is invalid".to_string()));
    }
    let ghost b = encode_utf8(function@);
    let (head, rest) = function.split_at(end);
    proof {
        vstd::utf8::encode_utf8_valid_utf8(function@);
        lemma_boundary_in_prefix(b, start as int, end as int);
        assert(encode_utf8(head@) =~= b.subrange(0, end as int));
    }
    let (before, _) = head.split_at(start);
    proof {
        vstd::utf8::encode_utf8_decode_utf8(before@);
        vstd::utf8::encode_utf8_decode_utf8(rest@);
        assert(encode_utf8(before@) =~= b.take(start as int));
        assert(encode_utf8(rest@) =~= b.skip(end as int));
    }
    let mut out = String::new();
    push_text(&mut out, before);
    push_text(&mut out, block.as_str());
    push_text(&mut out, rest);
    Ok(out)
}

/// The function source renamed (see `renamed_function`).
fn rename_function(function: String, id: &str, current_fn: &str, new_fn: &str) -> (r: Result<String, Diagnostic>)
    ensures
        match renamed_function(function@, id@, current_fn@, new_fn@) {
            Ok(f) => r matches Ok(s) && s@ == f,
            Err(e) => r matches Err(d) && reports(d, e),
        },
{
    if text_eq(new_fn, current_fn) {
        return Ok(function);
    }
    let from = chars_of(joined("fn ", current_fn).as_str());
    let to = joined("fn ", new_fn);
    let chars = chars_of(function.as_str());
    match find_text(&chars, &from) {
        None => {
            Err(error_of("E-OP-002", quoted("Test `", id, "` function signature could not be located")))
        },
        Some(i) => {
            proof {
                let w = first_occurrence(chars@, from@);
                assert(occurs_at(chars@, from@, i as int));
                if w < i {
                    assert(!occurs_at(chars@, from@, w));
                }
                if w > i {
                    assert(!occurs_at(chars@, from@, i as int));
                }
                assert(w == i);
            }
            let mut out: Vec<char> = Vec::new();
            let mut k: usize = 0;
            while k < i
                invariant
                    k <= i,
                    i + from@.len() <= chars@.len(),
                    out@ == chars@.take(k as int),
                decreases i - k,
            {
                out.push(chars[k]);
                assert(out@ =~= chars@.take(k as int + 1));
                k = k + 1;
            }
            let mut text = string_from_chars(&out);
            push_text(&mut text, to.as_str());
            let mut rest: Vec<char> = Vec::new();
            assert(i + from.len() <= chars.len());
            let mut k: usize = i + from.len();
            while k < chars.len()
                invariant
                    i + from@.len() <= k <= chars@.len(),
                    rest@ == chars@.subrange(i + from@.len(), k as int),
                decreases chars.len() - k,
            {
                rest.push(chars[k]);
                assert(rest@ =~= chars@.subrange(i + from@.len(), k as int + 1));
                k = k + 1;
            }
            assert(rest@ =~= chars@.skip(i + from@.len()));
            push_text(&mut text, string_from_chars(&rest).as_str());
            Ok(text)
        },
    }
}

/// The rendered test: the free doc lines before, the annotation lines,
/// the free doc lines after, then the function, joined by newlines.
fn assemble(free_before: Vec<String>, desired: &DesiredTest, free_after: Vec<String>, function: String) -> (out: String)
    ensures
        out@ == join_with(
            free_before@.map_values(|s: String| s@) + annotation_lines(*desired) + free_after@.map_values(|s: String| s@)
                + seq![function@],
            "\n"@,
        ),
{
    let ghost before_view = free_before@.map_values(|s: String| s@);
    let ghost after_view = free_after@.map_values(|s: String| s@);
    let ghost body_view = function@;
    let mut out_lines = free_before;
    push_annotations(&mut out_lines, desired);
    let ghost head = out_lines@;
    let mut after = free_after;
    let ghost moved = after@;
    out_lines.append(&mut after);
    assert(out_lines@ =~= head + moved);
    assert(out_lines@.map_values(|s: String| s@) =~= head.map_values(|s: String| s@) + after_view);
    let ghost listed = out_lines@;
    out_lines.push(function);
    assert(out_lines@.map_values(|s: String| s@) =~= listed.map_values(|s: String| s@).push(body_view));
    assert(out_lines@.map_values(|s: String| s@) =~= before_view + annotation_lines(*desired) + after_view + seq![
        body_view,
    ]);
    join_names(&out_lines, "\n")
}

/// Rewrites a test's source for a structured edit (see `rendered_test`):
/// `current_source` is the test's source range with its indentation
/// removed, `current_fn` the name of its function, `body` a replacement
/// body, if any.
pub fn render_edited_test(
    current_source: &str,
    current: &TestEntity,
    current_fn: &str,
    desired: &DesiredTest,
    body: Option<&str>,
) -> (r: Result<String, Diagnostic>)
    ensures
        ({
            let b = match body {
                Some(t) => Some(t@),
                None => None,
            };
            match rendered_test(current_source@, current.id@, current_fn@, *desired, b) {
                Ok(t) => r matches Ok(s) && s@ == t,
                Err(e) => r matches Err(d) && reports(d, e),
            }
        }),
{
    let lines = lines_of(current_source);
    let (free_before, free_after, tail) = split_doc_lines(&lines);
    if tail.len() == 0 {
        return Err(error_of("E-OP-002", quoted("Test `", current.id.0.as_str(), "` has no function body in its source range")));
    }
    let function = join_names(&tail, "\n");
    let function = match rename_function(function, current.id.0.as_str(), current_fn, desired.fn_name.as_str()) {
        Ok(f) => f,
        Err(d) => {
            return Err(d);
        },
    };
    let function = match body {
        Some(b) => match replace_body(function.as_str(), b) {
            Ok(f) => f,
            Err(d) => {
                return Err(d);
            },
        },
        None => function,
    };
    Ok(assemble(free_before, desired, free_after, function))
}

/// Encoding two texts one after the other gives their encodings one
/// after the other.
proof fn lemma_encode_append(a: Seq<char>, b: Seq<char>)
    ensures
        encode_utf8(a + b) == encode_utf8(a) + encode_utf8(b),
    decreases a.len(),
{
    if a.len() == 0 {
        assert(a + b =~= b);
        assert(encode_utf8(a) =~= Seq::<u8>::empty());
        assert(encode_utf8(a) + encode_utf8(b) =~= encode_utf8(b));
    } else {
        assert((a + b).drop_first() =~= a.drop_first() + b);
        assert((a + b)[0] == a[0]);
        lemma_encode_append(a.drop_first(), b);
        assert(encode_utf8(a + b) =~= encode_utf8(a) + encode_utf8(b));
    }
}

/// What `syn` reports when `text` does not parse as a Rust source file,
/// or nothing when it does.
pub uninterp spec fn file_parse_error(text: Seq<char>) -> Option<Seq<char>>;

/// `syn::parse_file`. Trusted: whether the text parses as a Rust file, and
/// the text of the error when it does not, depend on the text alone (named
/// `file_parse_error`); which texts parse is left unstated.
#[verifier::external_body]
fn parse_file_error(text: &str) -> (r: Option<String>)
    ensures
        match r {
            Some(e) => file_parse_error(text@) == Some(e@),
            None => file_parse_error(text@) is None,
        },
{
    syn::parse_file(text).err().map(|error| error.to_string())
}

/// An edit of a test in its file `original`, as planned: the rendered
/// test (`.0`), the file as it would become (`.1`) and the byte offset
/// where the test starts (`.2`); or the error. The test's recorded byte
/// range must still hold the text it was scanned with (by its content
/// hash); the test is rewritten without its indentation (see
/// `rendered_test`) and indented again, and the file must still parse.
pub open spec fn edit_plan(
    original: Seq<char>,
    current: TestEntity,
    current_fn: Seq<char>,
    desired: DesiredTest,
    body: Option<Seq<char>>,
) -> Result<(Seq<char>, Seq<char>, int), (Seq<char>, Seq<char>)> {
    let b = encode_utf8(original);
    let id = current.id@;
    let start = current.location.start_byte as int;
    let end = current.location.end_byte as int;
    if start > usize::MAX {
        Err(("E-OP-002"@, "Test `"@ + id + "` start offset is out of range"@))
    } else if end > usize::MAX {
        Err(("E-OP-002"@, "Test `"@ + id + "` end offset is out of range"@))
    } else if !(start <= end && end <= b.len() && is_char_boundary(b, start) && is_char_boundary(b, end)) {
        Err(("E-OP-002"@, "Test `"@ + id + "` source range is stale"@))
    } else {
        let slice = decode_utf8(b.subrange(start, end));
        let head = decode_utf8(b.take(start));
        let indent = after_last_newline(head);
        if text_hash(slice) != current.content_hash@ {
            Err(("E-OP-002"@, "Test `"@ + id + "` changed before edit could be applied"@))
        } else {
            match rendered_test(deindented(slice, indent), id, current_fn, desired, body) {
                Err(e) => Err(e),
                Ok(r) => {
                    let rendered = indent_after_newlines(r, indent);
                    let prospective = head + rendered + decode_utf8(b.skip(end));
                    match file_parse_error(prospective) {
                        Some(e) => Err(("E-OP-003"@, "edited Test `"@ + id + "` would make the file invalid: "@ + e)),
                        None => Ok((rendered, prospective, start)),
                    }
                },
            }
        }
    }
}

/// Plans a structured edit of a test in its file's text `original` (see
/// `edit_plan`): the result to report, and the file's new text.
/// `current_fn` is the name of the test's function.
#[verifier::spinoff_prover]
#[verifier::rlimit(100)]
pub fn plan_test_edit(
    original: &str,
    current: &TestEntity,
    current_fn: &str,
    desired: &DesiredTest,
    body: Option<&str>,
    dry_run: bool,
) -> (r: Result<(TestMutationResult, String), Diagnostic>)
    ensures
        ({
            let b = match body {
                Some(t) => Some(t@),
                None => None,
            };
            match edit_plan(original@, *current, current_fn@, *desired, b) {
                Ok(p) => r matches Ok((m, text)) && text@ == p.1 && m.test_id@ == current.id@ && m.file@
                    == current.location.file@ && m.dry_run == dry_run && m.changed == (p.1 != original@)
                    && m.start_byte == p.2 && m.end_byte == p.2 + encode_utf8(p.0).len() && m.rendered@ == p.0,
                Err(e) => r matches Err(d) && reports(d, e),
            }
        }),
{
    let id = current.id.0.as_str();
    if current.location.start_byte > usize::MAX as u64 {
        return Err(error_of("E-OP-002", quoted("Test `", id, "` start offset is out of range")));
    }
    if current.location.end_byte > usize::MAX as u64 {
        return Err(error_of("E-OP-002", quoted("Test `", id, "` end offset is out of range")));
    }
    let start = current.location.start_byte as usize;
    let end = current.location.end_byte as usize;
    let len = original.as_bytes().len();
    if !(start <= end && end <= len && original.is_char_boundary(start) && original.is_char_boundary(end)) {
        return Err(error_of("E-OP-002", quoted("Test `", id, "` source range is stale")));
    }
    let ghost bytes = encode_utf8(original@);
    let (upto_end, rest) = original.split_at(end);
    proof {
        vstd::utf8::encode_utf8_valid_utf8(original@);
        lemma_boundary_in_prefix(bytes, start as int, end as int);
        assert(encode_utf8(upto_end@) =~= bytes.subrange(0, end as int));
    }
    let (head, slice) = upto_end.split_at(start);
    proof {
        vstd::utf8::encode_utf8_decode_utf8(head@);
        vstd::utf8::encode_utf8_decode_utf8(slice@);
        vstd::utf8::encode_utf8_decode_utf8(rest@);
        assert(encode_utf8(head@) =~= bytes.take(start as int));
        assert(encode_utf8(slice@) =~= bytes.subrange(start as int, end as int));
        assert(encode_utf8(rest@) =~= bytes.skip(end as int));
    }
    let hash = ContentHash::from_text(slice);
    if !text_eq(hash.as_str(), current.content_hash.as_str()) {
        return Err(error_of("E-OP-002", quoted("Test `", id, "` changed before edit could be applied")));
    }
    let indent = line_indent(original, start);
    proof {
        assert(bytes.subrange(0, start as int) =~= bytes.take(start as int));
    }
    let normalized_current = deindent(slice, indent.as_str());
    let replacement = match render_edited_test(normalized_current.as_str(), current, current_fn, desired, body) {
        Ok(t) => t,
        Err(d) => {
            return Err(d);
        },
    };
    let rendered = indent_multiline(replacement.as_str(), indent.as_str());
    let mut upto = String::new();
    push_text(&mut upto, head);
    push_text(&mut upto, rendered.as_str());
    let mut prospective = upto.clone();
    push_text(&mut prospective, rest);
    match parse_file_error(prospective.as_str()) {
        Some(e) => {
            let mut m = quoted("edited Test `", id, "` would make the file invalid: ");
            push_text(&mut m, e.as_str());
            return Err(error_of("E-OP-003", m));
        },
        None => {},
    }
    let changed = !text_eq(prospective.as_str(), original);
    let end_byte = upto.as_str().as_bytes().len();
    proof {
        lemma_encode_append(head@, rendered@);
    }
    let result = TestMutationResult {
        test_id: id.to_string(),
        file: current.location.file.clone(),
        dry_run,
        changed,
        start_byte: start,
        end_byte,
        rendered,
    };
    Ok((result, prospective))
}

/// What goes between a file's text and a test appended to it: nothing
/// after an empty text or a blank line, one newline after a final
/// newline, otherwise two.
pub open spec fn insertion_separator(original: Seq<char>) -> Seq<char> {
    if original.len() == 0 || (original.len() >= 2 && original[original.len() - 2] == '\n' && original.last()
        == '\n') {
        Seq::empty()
    } else if original.last() == '\n' {
        seq!['\n']
    } else {
        seq!['\n', '\n']
    }
}

/// A new test appended to the file `file` with the text `original`: the
/// file as it would become (`.0`) and the byte offset where the test
/// starts (`.1`); or the error. The rendered test must parse as a Rust
/// function, and the file must still parse with it.
pub open spec fn insertion_plan(original: Seq<char>, file: Seq<char>, rendered: Seq<char>) -> Result<
    (Seq<char>, int),
    (Seq<char>, Seq<char>),
> {
    match item_fn_block_span(rendered) {
        Err(e) => Err(("E-OP-001"@, "form rendered an invalid Rust test function: "@ + e)),
        Ok(_) => {
            let sep = insertion_separator(original);
            let prospective = original + sep + rendered;
            match file_parse_error(prospective) {
                Some(e) => Err(("E-OP-001"@, "test insertion would make `"@ + file + "` invalid Rust: "@ + e)),
                None => Ok((prospective, (encode_utf8(original).len() + encode_utf8(sep).len()) as int)),
            }
        },
    }
}

/// Plans appending a new test, rendered as `rendered`, to the file `file`
/// with the text `original` (see `insertion_plan`): the result to report,
/// and the file's new text.
pub fn plan_test_insertion(original: &str, file: &str, test_id: &str, rendered: &str, dry_run: bool) -> (r: Result<
    (TestMutationResult, String),
    Diagnostic,
>)
    ensures
        match insertion_plan(original@, file@, rendered@) {
            Ok(p) => r matches Ok((m, text)) && text@ == p.0 && m.test_id@ == test_id@ && m.file@ == file@
                && m.dry_run == dry_run && m.changed && m.start_byte == p.1 && m.end_byte == encode_utf8(p.0).len()
                && m.rendered@ == rendered@,
            Err(e) => r matches Err(d) && reports(d, e),
        },
{
    match fn_block_span(rendered) {
        Ok(_) => {},
        Err(e) => {
            return Err(error_of("E-OP-001", joined("form rendered an invalid Rust test function: ", e.as_str())));
        },
    }
    let chars = chars_of(original);
    let n = chars.len();
    let mut sep = String::new();
    if n == 0 || (n >= 2 && chars[n - 2] == '\n' && chars[n - 1] == '\n') {
    } else if chars[n - 1] == '\n' {
        crate::text::push_char(&mut sep, '\n');
    } else {
        crate::text::push_char(&mut sep, '\n');
        crate::text::push_char(&mut sep, '\n');
    }
    assert(sep@ =~= insertion_separator(original@));
    let mut head = String::new();
    push_text(&mut head, original);
    push_text(&mut head, sep.as_str());
    let start = head.as_str().as_bytes().len();
    proof {
        lemma_encode_append(original@, sep@);
    }
    let mut prospective = head;
    push_text(&mut prospective, rendered);
    match parse_file_error(prospective.as_str()) {
        Some(e) => {
            let mut m = quoted("test insertion would make `", file, "` invalid Rust: ");
            push_text(&mut m, e.as_str());
            return Err(error_of("E-OP-001", m));
        },
        None => {},
    }
    let end = prospective.as_str().as_bytes().len();
    let result = TestMutationResult {
        test_id: test_id.to_string(),
        file: file.to_string(),
        dry_run,
        changed: true,
        start_byte: start,
        end_byte: end,
        rendered: rendered.to_string(),
    };
    Ok((result, prospective))
}

} // verus!
