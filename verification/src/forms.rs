//! Form answers for the structured test operations: `--set field=value`
//! arguments, answer lookups, and the shape check of an answer against its
//! field's type.

use vstd::prelude::*;

use crate::diagnostic::Diagnostic;
use crate::discovery::{parse_locator, Locator};
use crate::scan::contains_string;
use crate::text::{chars_of, push_text, string_from_chars, text_eq};

verus! {

/// The characters `char::is_whitespace` accepts: the Unicode White_Space
/// property.
pub open spec fn is_white_space(c: char) -> bool {
    let n = c as u32;
    (9 <= n && n <= 13) || n == 32 || n == 0x85 || n == 0xA0 || n == 0x1680 || (0x2000 <= n && n
        <= 0x200A) || n == 0x2028 || n == 0x2029 || n == 0x202F || n == 0x205F || n == 0x3000
}

pub(crate) fn white_space(c: char) -> (r: bool)
    ensures
        r == is_white_space(c),
{
    let n = c as u32;
    (9 <= n && n <= 13) || n == 32 || n == 0x85 || n == 0xA0 || n == 0x1680 || (0x2000 <= n && n
        <= 0x200A) || n == 0x2028 || n == 0x2029 || n == 0x202F || n == 0x205F || n == 0x3000
}

/// `s` without its leading white space.
pub open spec fn trim_start(s: Seq<char>) -> Seq<char>
    decreases s.len(),
{
    if s.len() > 0 && is_white_space(s[0]) {
        trim_start(s.drop_first())
    } else {
        s
    }
}

/// `s` without its trailing white space.
pub open spec fn trim_end(s: Seq<char>) -> Seq<char>
    decreases s.len(),
{
    if s.len() > 0 && is_white_space(s.last()) {
        trim_end(s.drop_last())
    } else {
        s
    }
}

/// `s` without leading and trailing white space.
pub open spec fn trim(s: Seq<char>) -> Seq<char> {
    trim_end(trim_start(s))
}

pub(crate) fn trim_chars(s: &Vec<char>) -> (out: Vec<char>)
    ensures
        out@ == trim(s@),
{
    let mut start: usize = 0;
    assert(s@.skip(0) =~= s@);
    while start < s.len() && white_space(s[start])
        invariant
            start <= s@.len(),
            trim_start(s@) == trim_start(s@.skip(start as int)),
        decreases s.len() - start,
    {
        assert(s@.skip(start as int).drop_first() =~= s@.skip(start as int + 1));
        start = start + 1;
    }
    let mut end: usize = s.len();
    assert(trim_start(s@.skip(start as int)) == s@.skip(start as int));
    assert(s@.skip(start as int) =~= s@.subrange(start as int, end as int));
    while end > start && white_space(s[end - 1])
        invariant
            start <= end <= s@.len(),
            trim(s@) == trim_end(s@.subrange(start as int, end as int)),
        decreases end,
    {
        assert(s@.subrange(start as int, end as int).drop_last() =~= s@.subrange(start as int, end as int - 1));
        end = end - 1;
    }
    let mut out: Vec<char> = Vec::new();
    let mut k: usize = start;
    while k < end
        invariant
            start <= k <= end,
            end <= s@.len(),
            out@ == s@.subrange(start as int, k as int),
        decreases end - k,
    {
        out.push(s[k]);
        assert(out@ =~= s@.subrange(start as int, k as int + 1));
        k = k + 1;
    }
    out
}

/// `s` with leading and trailing white space removed.
pub fn trim_text(s: &str) -> (out: String)
    ensures
        out@ == trim(s@),
{
    let chars = chars_of(s);
    string_from_chars(&trim_chars(&chars))
}

/// An answer: a list of strings or a single string.
#[derive(Clone, Debug, Eq, PartialEq)]
pub enum FormValue {
    List(Vec<String>),
    Scalar(String),
}

/// A field of a form: its name, question, type, whether it is required,
/// its allowed options and its validators.
#[derive(Clone, Debug, Eq, PartialEq)]
pub struct FormField {
    pub name: String,
    pub question: String,
    pub field_type: String,
    pub required: bool,
    pub options: Vec<String>,
    pub validate: Vec<String>,
}

/// An answer as text: a list of strings or one string.
pub enum AnswerView {
    List(Seq<Seq<char>>),
    Scalar(Seq<char>),
}

/// What an answer holds.
pub open spec fn answer_view(v: FormValue) -> AnswerView {
    match v {
        FormValue::List(items) => AnswerView::List(items@.map_values(|s: String| s@)),
        FormValue::Scalar(s) => AnswerView::Scalar(s@),
    }
}

/// The strings of an answer: a list's items, or the single scalar.
pub fn value_strings(value: &FormValue) -> (out: Vec<String>)
    ensures
        out@.map_values(|s: String| s@) == match answer_view(*value) {
            AnswerView::List(items) => items,
            AnswerView::Scalar(s) => seq![s],
        },
{
    match value {
        FormValue::List(values) => {
            let out = crate::text::duplicate_strings(values);
            out
        },
        FormValue::Scalar(value) => {
            let out = vec![value.clone()];
            assert(out@.map_values(|s: String| s@) =~= seq![value@]);
            out
        },
    }
}

/// The message for an answer that must be a non-empty scalar.
pub open spec fn scalar_message(field: Seq<char>) -> Seq<char> {
    "answer `"@ + field + "` must be a non-empty scalar"@
}

/// A scalar answer's text if it is not blank; otherwise an `E-OP-001`
/// error naming the field.
pub fn scalar<'a>(value: &'a FormValue, field: &str) -> (r: Result<&'a str, Diagnostic>)
    ensures
        match r {
            Ok(s) => value matches FormValue::Scalar(v) && s@ == v@ && trim(v@).len() > 0,
            Err(d) => !(value matches FormValue::Scalar(v) && trim(v@).len() > 0) && d.candidates@.len() == 0 && d.code@
                == "E-OP-001"@ && d.message@ == scalar_message(field@) && d.severity == crate::diagnostic::DiagnosticSeverity::Error,
        },
{
    match value {
        FormValue::Scalar(text) => {
            let trimmed = trim_text(text.as_str());
            if chars_of(trimmed.as_str()).len() > 0 {
                return Ok(text.as_str());
            }
        },
        FormValue::List(_) => {},
    }
    let mut message = String::new();
    push_text(&mut message, "answer `");
    push_text(&mut message, field);
    push_text(&mut message, "` must be a non-empty scalar");
    assert(message@ =~= scalar_message(field@));
    Err(Diagnostic::error("E-OP-001", message))
}

/// Whether `syn` parses the text as a Rust identifier (not a keyword).
pub uninterp spec fn is_rust_identifier(text: Seq<char>) -> bool;

/// `syn::parse_str::<syn::Ident>`. Trusted: whether the text parses as an
/// identifier depends on the text alone (named `is_rust_identifier`);
/// which texts qualify (the identifier grammar and the keyword list of
/// `syn`) is left unstated.
#[verifier::external_body]
pub(crate) fn parses_as_identifier(text: &str) -> (r: bool)
    ensures
        r == is_rust_identifier(text@),
{
    syn::parse_str::<syn::Ident>(text).is_ok()
}

/// A scalar answer that is not blank.
pub open spec fn scalar_ok(v: FormValue) -> bool {
    v matches FormValue::Scalar(s) && trim(s@).len() > 0
}

/// Some item of a list answer is not a source locator.
pub open spec fn has_invalid_locator(items: Seq<String>) -> bool {
    exists|i: int| 0 <= i < items.len() && parse_locator(items[i]@) is None
}

/// What is wrong with an answer's shape for its field, if anything.
pub open spec fn shape_problem(field: FormField, v: FormValue) -> Option<Seq<char>> {
    let name = field.name@;
    let ft = field.field_type@;
    let list_type = ft == "symbol-list"@ || ft == "vo-ref-list"@;
    if list_type != (v is List) {
        Some(
            "answer `"@ + name + "` must be "@ + if list_type {
                "a list"@
            } else {
                "a scalar"@
            },
        )
    } else if ft == "symbol"@ {
        if !scalar_ok(v) {
            Some(scalar_message(name))
        } else if parse_locator(v->Scalar_0@) is None {
            Some("answer `"@ + name + "` is not a source locator"@)
        } else {
            None
        }
    } else if ft == "symbol-list"@ {
        if has_invalid_locator(v->List_0@) {
            Some("answer `"@ + name + "` contains an invalid source locator"@)
        } else {
            None
        }
    } else if ft == "vo-ref"@ || ft == "test-ref"@ {
        if !scalar_ok(v) {
            Some(scalar_message(name))
        } else {
            None
        }
    } else if ft == "enum"@ {
        if !scalar_ok(v) {
            Some(scalar_message(name))
        } else if !field.options@.map_values(|o: String| o@).contains(v->Scalar_0@) {
            Some("invalid value `"@ + v->Scalar_0@ + "` for `"@ + name + "`"@)
        } else {
            None
        }
    } else if ft == "ident"@ {
        if !scalar_ok(v) {
            Some(scalar_message(name))
        } else if !is_rust_identifier(v->Scalar_0@) {
            Some("answer `"@ + name + "` is not a Rust identifier"@)
        } else {
            None
        }
    } else if ft == "path"@ || ft == "string"@ {
        if !scalar_ok(v) {
            Some(scalar_message(name))
        } else {
            None
        }
    } else {
        None
    }
}

/// The enum check failed on a present value: its error lists the options.
pub open spec fn offers_options(field: FormField, v: FormValue) -> bool {
    &&& field.field_type@ != "symbol-list"@ && field.field_type@ != "vo-ref-list"@
    &&& v is Scalar
    &&& field.field_type@ != "symbol"@
    &&& field.field_type@ != "vo-ref"@ && field.field_type@ != "test-ref"@
    &&& field.field_type@ == "enum"@
    &&& scalar_ok(v)
}

fn shape_error(message: String) -> (d: Diagnostic)
    ensures
        d.code@ == "E-OP-001"@,
        d.severity == crate::diagnostic::DiagnosticSeverity::Error,
        d.message@ == message@,
        d.candidates@.len() == 0,
{
    Diagnostic::error("E-OP-001", message)
}

fn answer_message(a: &str, name: &str, b: &str) -> (m: String)
    ensures
        m@ == a@ + name@ + b@,
{
    let mut m = String::new();
    push_text(&mut m, a);
    push_text(&mut m, name);
    push_text(&mut m, b);
    assert(m@ =~= a@ + name@ + b@);
    m
}

/// Checks an answer's shape against its field's type (see
/// `shape_problem`); the error for a value outside an enum's options
/// lists the options as candidates.
#[verifier::loop_isolation(false)]
pub fn validate_value_shape(field: &FormField, value: &FormValue) -> (r: Result<(), Diagnostic>)
    ensures
        r is Ok <==> shape_problem(*field, *value) is None,
        r matches Err(d) ==> d.code@ == "E-OP-001"@ && d.severity == crate::diagnostic::DiagnosticSeverity::Error
            && shape_problem(*field, *value) == Some(d.message@) && d.candidates@ == if offers_options(*field, *value) {
                field.options@
            } else {
                Seq::empty()
            },
{
    let name = field.name.as_str();
    let ft = field.field_type.as_str();
    let list_type = text_eq(ft, "symbol-list") || text_eq(ft, "vo-ref-list");
    let is_list = match value {
        FormValue::List(_) => true,
        FormValue::Scalar(_) => false,
    };
    if list_type != is_list {
        let kind = if list_type { "a list" } else { "a scalar" };
        let m = answer_message("answer `", name, "` must be ");
        let mut message = m;
        push_text(&mut message, kind);
        return Err(shape_error(message));
    }
    if text_eq(ft, "symbol") {
        let text = match scalar(value, name) {
            Ok(t) => t,
            Err(d) => return Err(d),
        };
        match Locator::parse(text) {
            None => return Err(shape_error(answer_message("answer `", name, "` is not a source locator"))),
            Some(_) => return Ok(()),
        }
    }
    if text_eq(ft, "symbol-list") {
        match value {
            FormValue::List(items) => {
                let mut i: usize = 0;
                while i < items.len()
                    invariant
                        i <= items@.len(),
                        forall|k: int| 0 <= k < i ==> parse_locator((#[trigger] items@[k])@) is Some,
                    decreases items.len() - i,
                {
                    if Locator::parse(items[i].as_str()).is_none() {
                        assert(parse_locator(items@[i as int]@) is None);
                        assert(has_invalid_locator(items@));
                        return Err(shape_error(answer_message("answer `", name, "` contains an invalid source locator")));
                    }
                    i = i + 1;
                }
                return Ok(());
            },
            FormValue::Scalar(_) => return Ok(()),
        }
    }
    if text_eq(ft, "vo-ref") || text_eq(ft, "test-ref") {
        return match scalar(value, name) {
            Ok(_) => Ok(()),
            Err(d) => Err(d),
        };
    }
    if text_eq(ft, "enum") {
        let text = match scalar(value, name) {
            Ok(t) => t,
            Err(d) => return Err(d),
        };
        if !contains_string(&field.options, text) {
            let mut message = answer_message("invalid value `", text, "` for `");
            push_text(&mut message, name);
            push_text(&mut message, "`");
            let d = shape_error(message).with_candidates(crate::text::duplicate_strings(&field.options));
            return Err(d);
        }
        return Ok(());
    }
    if text_eq(ft, "ident") {
        let text = match scalar(value, name) {
            Ok(t) => t,
            Err(d) => return Err(d),
        };
        if !parses_as_identifier(text) {
            return Err(shape_error(answer_message("answer `", name, "` is not a Rust identifier")));
        }
        return Ok(());
    }
    if text_eq(ft, "path") || text_eq(ft, "string") {
        return match scalar(value, name) {
            Ok(_) => Ok(()),
            Err(d) => Err(d),
        };
    }
    Ok(())
}

/// The pieces of `s` between the separators, in order (one piece when
/// there is no separator, empty pieces included).
pub open spec fn split_on(s: Seq<char>, sep: char) -> Seq<Seq<char>>
    decreases s.len(),
{
    if s.len() == 0 {
        seq![Seq::empty()]
    } else {
        let p = split_on(s.drop_last(), sep);
        if s.last() == sep {
            p.push(Seq::empty())
        } else {
            p.update(p.len() - 1, p.last().push(s.last()))
        }
    }
}

pub(crate) proof fn lemma_split_on_nonempty(s: Seq<char>, sep: char)
    ensures
        split_on(s, sep).len() > 0,
    decreases s.len(),
{
    if s.len() > 0 {
        lemma_split_on_nonempty(s.drop_last(), sep);
    }
}

/// The trimmed pieces that are not empty, in order.
pub open spec fn nonblank_trimmed(pieces: Seq<Seq<char>>) -> Seq<Seq<char>>
    decreases pieces.len(),
{
    if pieces.len() == 0 {
        Seq::empty()
    } else {
        let earlier = nonblank_trimmed(pieces.drop_last());
        let t = trim(pieces.last());
        if t.len() > 0 {
            earlier.push(t)
        } else {
            earlier
        }
    }
}

/// The fields whose `--set` value is a comma-separated list.
pub open spec fn is_list_field(name: Seq<char>) -> bool {
    name == "covers"@ || name == "targets"@ || name == "case"@ || name == "related"@
}

/// The outcome of reading `--set` arguments.
pub enum SetParse {
    Failed(Seq<char>),
    Parsed(Seq<(Seq<char>, AnswerView)>),
}

/// The position of the first `=`, if any.
pub open spec fn first_equals(s: Seq<char>) -> Option<int> {
    if exists|i: int| 0 <= i < s.len() && s[i] == '=' {
        Some(choose|i: int| 0 <= i < s.len() && s[i] == '=' && forall|j: int| 0 <= j < i ==> s[j] != '=')
    } else {
        None
    }
}

/// Reads `--set field=value` arguments in order: each must hold `=`, its
/// field name (trimmed) must be non-empty and not repeat an earlier one,
/// and its value (trimmed) must be non-empty; list fields split their
/// value at commas, trim the items and drop empty ones.
pub open spec fn parse_sets(values: Seq<Seq<char>>) -> SetParse
    decreases values.len(),
{
    if values.len() == 0 {
        SetParse::Parsed(Seq::empty())
    } else {
        match parse_sets(values.drop_last()) {
            SetParse::Failed(m) => SetParse::Failed(m),
            SetParse::Parsed(earlier) => {
                let v = values.last();
                match first_equals(v) {
                    None => SetParse::Failed("--set requires field=value, got `"@ + v + "`"@),
                    Some(i) => {
                        let name = trim(v.subrange(0, i));
                        let rest = trim(v.subrange(i + 1, v.len() as int));
                        if name.len() == 0 || earlier.map_values(|e: (Seq<char>, AnswerView)| e.0).contains(name) {
                            SetParse::Failed("duplicate or empty --set field `"@ + name + "`"@)
                        } else if rest.len() == 0 {
                            SetParse::Failed("--set field `"@ + name + "` has an empty value"@)
                        } else if is_list_field(name) {
                            SetParse::Parsed(earlier.push((name, AnswerView::List(nonblank_trimmed(split_on(rest, ','))))))
                        } else {
                            SetParse::Parsed(earlier.push((name, AnswerView::Scalar(rest))))
                        }
                    },
                }
            },
        }
    }
}

pub(crate) fn split_items(rest: &Vec<char>, sep: char) -> (out: Vec<String>)
    ensures
        out@.map_values(|s: String| s@) == nonblank_trimmed(split_on(rest@, sep)),
{
    let mut out: Vec<String> = Vec::new();
    let mut current: Vec<char> = Vec::new();
    let mut i: usize = 0;
    proof {
        lemma_split_on_nonempty(rest@.take(0), sep);
        assert(rest@.take(0) =~= Seq::<char>::empty());
    }
    while i < rest.len()
        invariant
            i <= rest@.len(),
            split_on(rest@.take(i as int), sep).len() > 0,
            current@ == split_on(rest@.take(i as int), sep).last(),
            out@.map_values(|s: String| s@) == nonblank_trimmed(split_on(rest@.take(i as int), sep).drop_last()),
        decreases rest.len() - i,
    {
        let ghost t = rest@.take(i as int + 1);
        assert(t.drop_last() =~= rest@.take(i as int));
        assert(t.last() == rest@[i as int]);
        let ghost p = split_on(rest@.take(i as int), sep);
        if rest[i] == sep {
            let trimmed = trim_chars(&current);
            if trimmed.len() > 0 {
                let ghost before = out@;
                out.push(string_from_chars(&trimmed));
                assert(out@.map_values(|s: String| s@) =~= before.map_values(|s: String| s@).push(trimmed@));
            }
            assert(split_on(t, sep).drop_last() =~= p);
            assert(p =~= p.drop_last().push(p.last()));
            current = Vec::new();
        } else {
            current.push(rest[i]);
            assert(split_on(t, sep).drop_last() =~= p.drop_last());
        }
        i = i + 1;
    }
    assert(rest@.take(i as int) =~= rest@);
    let ghost p = split_on(rest@, sep);
    let trimmed = trim_chars(&current);
    if trimmed.len() > 0 {
        let ghost before = out@;
        out.push(string_from_chars(&trimmed));
        assert(out@.map_values(|s: String| s@) =~= before.map_values(|s: String| s@).push(trimmed@));
    }
    assert(p =~= p.drop_last().push(p.last()));
    out
}

/// The views of parsed `--set` entries.
pub open spec fn set_views(v: Seq<(String, FormValue)>) -> Seq<(Seq<char>, AnswerView)> {
    v.map_values(|e: (String, FormValue)| (e.0@, answer_view(e.1)))
}

fn is_list_name(name: &str) -> (r: bool)
    ensures
        r == is_list_field(name@),
{
    text_eq(name, "covers") || text_eq(name, "targets") || text_eq(name, "case") || text_eq(name, "related")
}

/// Reads `--set field=value` arguments (see `parse_sets`); each failure is
/// an `E-OP-001` error. The entries come in the order given, each field
/// once.
pub fn parse_test_set_values(values: &Vec<String>) -> (r: Result<Vec<(String, FormValue)>, Diagnostic>)
    ensures
        match parse_sets(values@.map_values(|s: String| s@)) {
            SetParse::Parsed(entries) => r matches Ok(v) && set_views(v@) == entries,
            SetParse::Failed(m) => r matches Err(d) && d.code@ == "E-OP-001"@ && d.message@ == m
                && d.severity == crate::diagnostic::DiagnosticSeverity::Error,
        },
{
    let ghost all = values@.map_values(|s: String| s@);
    let mut parsed: Vec<(String, FormValue)> = Vec::new();
    let mut names: Vec<String> = Vec::new();
    let mut i: usize = 0;
    assert(all.take(0) =~= Seq::<Seq<char>>::empty());
    assert(set_views(parsed@) =~= Seq::<(Seq<char>, AnswerView)>::empty());
    while i < values.len()
        invariant
            i <= values@.len(),
            all == values@.map_values(|s: String| s@),
            parse_sets(all.take(i as int)) == SetParse::Parsed(set_views(parsed@)),
            names@.map_values(|s: String| s@) == set_views(parsed@).map_values(|e: (Seq<char>, AnswerView)| e.0),
        decreases values.len() - i,
    {
        let ghost t = all.take(i as int + 1);
        assert(t.drop_last() =~= all.take(i as int));
        assert(t.last() == values@[i as int]@);
        let chars = chars_of(values[i].as_str());
        let mut eq: usize = 0;
        while eq < chars.len() && chars[eq] != '='
            invariant
                eq <= chars@.len(),
                forall|j: int| 0 <= j < eq ==> chars@[j] != '=',
            decreases chars.len() - eq,
        {
            eq = eq + 1;
        }
        if eq == chars.len() {
            proof {
                assert(first_equals(chars@) is None);
            }
            let mut message = String::new();
            push_text(&mut message, "--set requires field=value, got `");
            push_text(&mut message, values[i].as_str());
            push_text(&mut message, "`");
            proof {
                assert(parse_sets(t) == SetParse::Failed(message@));
                lemma_parse_sets_failed_prefix(all, i as int + 1);
                assert(all.take(values@.len() as int) =~= all);
            }
            return Err(Diagnostic::error("E-OP-001", message));
        }
        proof {
            let c = choose|q: int| 0 <= q < chars@.len() && chars@[q] == '=' && forall|j: int| 0 <= j < q ==> chars@[j] != '=';
            if c < eq {
                assert(chars@[c] != '=');
            }
            if c > eq {
                assert(chars@[eq as int] != '=');
            }
            assert(first_equals(chars@) == Some(eq as int));
        }
        let mut head: Vec<char> = Vec::new();
        let mut k: usize = 0;
        while k < eq
            invariant
                k <= eq,
                eq < chars@.len(),
                head@ == chars@.subrange(0, k as int),
            decreases eq - k,
        {
            head.push(chars[k]);
            assert(head@ =~= chars@.subrange(0, k as int + 1));
            k = k + 1;
        }
        let mut tail: Vec<char> = Vec::new();
        let mut k: usize = eq + 1;
        while k < chars.len()
            invariant
                eq + 1 <= k <= chars@.len(),
                tail@ == chars@.subrange(eq as int + 1, k as int),
            decreases chars.len() - k,
        {
            tail.push(chars[k]);
            assert(tail@ =~= chars@.subrange(eq as int + 1, k as int + 1));
            k = k + 1;
        }
        let name_chars = trim_chars(&head);
        let rest_chars = trim_chars(&tail);
        let name = string_from_chars(&name_chars);
        if name_chars.len() == 0 || contains_string(&names, name.as_str()) {
            let mut message = String::new();
            push_text(&mut message, "duplicate or empty --set field `");
            push_text(&mut message, name.as_str());
            push_text(&mut message, "`");
            proof {
                assert(parse_sets(t) == SetParse::Failed(message@));
                lemma_parse_sets_failed_prefix(all, i as int + 1);
                assert(all.take(values@.len() as int) =~= all);
            }
            return Err(Diagnostic::error("E-OP-001", message));
        }
        if rest_chars.len() == 0 {
            let mut message = String::new();
            push_text(&mut message, "--set field `");
            push_text(&mut message, name.as_str());
            push_text(&mut message, "` has an empty value");
            proof {
                assert(parse_sets(t) == SetParse::Failed(message@));
                lemma_parse_sets_failed_prefix(all, i as int + 1);
                assert(all.take(values@.len() as int) =~= all);
            }
            return Err(Diagnostic::error("E-OP-001", message));
        }
        let value = if is_list_name(name.as_str()) {
            FormValue::List(split_items(&rest_chars, ','))
        } else {
            FormValue::Scalar(string_from_chars(&rest_chars))
        };
        let ghost before = parsed@;
        let ghost before_names = names@;
        names.push(name.clone());
        parsed.push((name, value));
        assert(set_views(parsed@) =~= set_views(before).push((name_chars@, answer_view(value))));
        assert(names@.map_values(|s: String| s@) =~= before_names.map_values(|s: String| s@).push(name_chars@));
        assert(set_views(parsed@).map_values(|e: (Seq<char>, AnswerView)| e.0) =~= set_views(before).map_values(|e: (Seq<char>, AnswerView)| e.0).push(name_chars@));
        i = i + 1;
    }
    assert(all.take(i as int) =~= all);
    Ok(parsed)
}

proof fn lemma_parse_sets_failed_prefix(values: Seq<Seq<char>>, n: int)
    requires
        0 <= n <= values.len(),
        parse_sets(values.take(n)) is Failed,
    ensures
        parse_sets(values) == parse_sets(values.take(n)),
    decreases values.len() - n,
{
    if n < values.len() {
        assert(values.take(n + 1).drop_last() =~= values.take(n));
        lemma_parse_sets_failed_prefix(values, n + 1);
    } else {
        assert(values.take(n) =~= values);
    }
}

/// The first answer given for `name`, if any.
pub open spec fn answer_for(answers: Seq<(String, FormValue)>, name: Seq<char>) -> Option<FormValue>
    decreases answers.len(),
{
    if answers.len() == 0 {
        None
    } else if answers[0].0@ == name {
        Some(answers[0].1)
    } else {
        answer_for(answers.drop_first(), name)
    }
}

pub(crate) fn find_answer<'a>(answers: &'a Vec<(String, FormValue)>, name: &str) -> (r: Option<&'a FormValue>)
    ensures
        match r {
            Some(v) => answer_for(answers@, name@) == Some(*v),
            None => answer_for(answers@, name@) is None,
        },
{
    let mut i: usize = 0;
    assert(answers@.skip(0) =~= answers@);
    while i < answers.len()
        invariant
            i <= answers@.len(),
            answer_for(answers@, name@) == answer_for(answers@.skip(i as int), name@),
        decreases answers.len() - i,
    {
        assert(answers@.skip(i as int)[0] == answers@[i as int]);
        if text_eq(answers[i].0.as_str(), name) {
            return Some(&answers[i].1);
        }
        assert(answers@.skip(i as int).drop_first() =~= answers@.skip(i as int + 1));
        i = i + 1;
    }
    None
}

/// The non-empty list answer for `name`, or an `E-OP-001` error.
pub fn list_answer(answers: &Vec<(String, FormValue)>, name: &str) -> (r: Result<Vec<String>, Diagnostic>)
    ensures
        match answer_for(answers@, name@) {
            Some(FormValue::List(items)) if items@.len() > 0 => r matches Ok(v) && v@ == items@,
            _ => r matches Err(d) && d.code@ == "E-OP-001"@ && d.message@ == "desired state requires list answer `"@
                + name@ + "`"@,
        },
{
    match find_answer(answers, name) {
        Some(FormValue::List(values)) => {
            if values.len() > 0 {
                return Ok(crate::text::duplicate_strings(values));
            }
        },
        _ => {},
    }
    Err(Diagnostic::error("E-OP-001", answer_message("desired state requires list answer `", name, "`")))
}

/// The non-blank scalar answer for `name`, or an `E-OP-001` error.
pub fn scalar_answer(answers: &Vec<(String, FormValue)>, name: &str) -> (r: Result<String, Diagnostic>)
    ensures
        match answer_for(answers@, name@) {
            Some(FormValue::Scalar(v)) if trim(v@).len() > 0 => r matches Ok(s) && s@ == v@,
            _ => r matches Err(d) && d.code@ == "E-OP-001"@ && d.message@ == "desired state requires scalar answer `"@
                + name@ + "`"@,
        },
{
    match find_answer(answers, name) {
        Some(FormValue::Scalar(value)) => {
            if chars_of(trim_text(value.as_str()).as_str()).len() > 0 {
                return Ok(value.clone());
            }
        },
        _ => {},
    }
    Err(Diagnostic::error("E-OP-001", answer_message("desired state requires scalar answer `", name, "`")))
}

} // verus!
