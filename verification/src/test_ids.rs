//! Choosing the id of a new test: the id asked for, or the next free one
//! in the numbered series of the area that the test covers.

use vstd::prelude::*;

use crate::diagnostic::Diagnostic;
use crate::editing::{first_index_of, lemma_first_index_of};
use crate::forms::{answer_for, answer_view, is_white_space, AnswerView, FormValue};
use crate::scan::ScanResult;
use crate::test_entity::TestEntity;
use crate::text::{chars_of, decimal_text, digit_char, has_prefix, push_decimal, push_text, string_from_chars, text_eq};

verus! {

/// An ASCII decimal digit.
pub open spec fn is_digit(c: char) -> bool {
    '0' <= c && c <= '9'
}

/// The number the decimal digits `s` write.
pub open spec fn digits_value(s: Seq<char>) -> nat
    decreases s.len(),
{
    if s.len() == 0 {
        0
    } else {
        digits_value(s.drop_last()) * 10 + ((s.last() as int - 48) as nat)
    }
}

/// What `str::parse::<u64>` reads from `s`: an optional `+`, then one or
/// more decimal digits whose value fits in 64 bits.
pub open spec fn parsed_u64(s: Seq<char>) -> Option<u64> {
    let d = unsigned_digits(s);
    if d.len() > 0 && all_digits(d) && digits_value(d) <= u64::MAX {
        Some(digits_value(d) as u64)
    } else {
        None
    }
}

/// `s` without one leading `+`.
pub open spec fn unsigned_digits(s: Seq<char>) -> Seq<char> {
    if s.len() > 0 && s[0] == '+' {
        s.drop_first()
    } else {
        s
    }
}

/// Every character of `d` is a decimal digit.
pub open spec fn all_digits(d: Seq<char>) -> bool {
    forall|i: int| 0 <= i < d.len() ==> is_digit(#[trigger] d[i])
}

/// The largest number that follows `prefix` in the id of one of the tests,
/// or 0.
pub open spec fn max_sequence(tests: Seq<TestEntity>, prefix: Seq<char>) -> nat
    decreases tests.len(),
{
    if tests.len() == 0 {
        0
    } else {
        let m = max_sequence(tests.drop_last(), prefix);
        let id = tests.last().id@;
        if has_prefix(id, prefix) {
            match parsed_u64(id.skip(prefix.len() as int)) {
                Some(v) => if v > m {
                    v as nat
                } else {
                    m
                },
                None => m,
            }
        } else {
            m
        }
    }
}

/// The area of a covered id: the id without a leading `VO-`, up to its
/// first `-`; `AUTO` when that is empty.
pub open spec fn area_of(first: Seq<char>) -> Seq<char> {
    let rest = if has_prefix(first, "VO-"@) {
        first.skip(3)
    } else {
        first
    };
    let piece = rest.take(first_index_of(rest, '-'));
    if piece.len() > 0 {
        piece
    } else {
        "AUTO"@
    }
}

/// `n` in decimal, padded with leading zeros to at least three digits.
pub open spec fn padded3(n: nat) -> Seq<char> {
    let d = decimal_text(n);
    if d.len() < 3 {
        Seq::new((3 - d.len()) as nat, |i: int| '0') + d
    } else {
        d
    }
}

/// Some test has the id `id`.
pub open spec fn id_taken(tests: Seq<TestEntity>, id: Seq<char>) -> bool {
    exists|i: int| 0 <= i < tests.len() && (#[trigger] tests[i]).id@ == id
}

/// The outcome of choosing a test id: the id, or the message of the error.
pub enum IdChoice {
    Chosen(Seq<char>),
    Refused(Seq<char>),
}

/// The id chosen for a new test (see `select_test_id`).
pub open spec fn id_choice(
    tests: Seq<TestEntity>,
    answers: Seq<(String, FormValue)>,
    explicit: Option<Seq<char>>,
) -> IdChoice {
    match explicit {
        Some(id) => if id.len() == 0 || exists|i: int| 0 <= i < id.len() && is_white_space(#[trigger] id[i]) {
            IdChoice::Refused("Test ID must be non-empty and contain no whitespace"@)
        } else if id_taken(tests, id) {
            IdChoice::Refused("Test ID `"@ + id + "` already exists"@)
        } else {
            IdChoice::Chosen(id)
        },
        None => match answer_for(answers, "covers"@) {
            None => IdChoice::Refused("answers require `covers`"@),
            Some(v) => {
                let strings = match answer_view(v) {
                    AnswerView::List(items) => items,
                    AnswerView::Scalar(s) => seq![s],
                };
                if strings.len() == 0 {
                    IdChoice::Refused("answers require a non-empty `covers`"@)
                } else {
                    let prefix = "TEST-"@ + area_of(strings[0]) + "-"@;
                    let next = max_sequence(tests, prefix) + 1;
                    if next > u64::MAX {
                        IdChoice::Refused("Test ID sequence overflow"@)
                    } else {
                        let id = prefix + padded3(next);
                        if id_taken(tests, id) {
                            IdChoice::Refused("generated Test ID `"@ + id + "` already exists"@)
                        } else {
                            IdChoice::Chosen(id)
                        }
                    }
                }
            },
        },
    }
}

proof fn lemma_digits_value_grows(s: Seq<char>, k: int)
    requires
        0 <= k <= s.len(),
    ensures
        digits_value(s.take(k)) <= digits_value(s),
    decreases s.len() - k,
{
    if k < s.len() {
        lemma_digits_value_grows(s, k + 1);
        assert(s.take(k + 1).drop_last() =~= s.take(k));
    } else {
        assert(s.take(k) =~= s);
    }
}

/// Reads a `u64` as `str::parse::<u64>` does (see `parsed_u64`).
pub fn parse_u64(s: &str) -> (r: Option<u64>)
    ensures
        r == parsed_u64(s@),
{
    let chars = chars_of(s);
    let start: usize = if chars.len() > 0 && chars[0] == '+' {
        1
    } else {
        0
    };
    let ghost d = unsigned_digits(s@);
    assert(d =~= chars@.skip(start as int));
    if start >= chars.len() {
        return None;
    }
    let mut value: u64 = 0;
    let mut k: usize = start;
    while k < chars.len()
        invariant
            start <= k <= chars@.len(),
            chars@ == s@,
            d == unsigned_digits(s@),
            d == chars@.skip(start as int),
            value == digits_value(d.take(k - start)),
            forall|i: int| 0 <= i < k - start ==> is_digit(#[trigger] d[i]),
        decreases chars.len() - k,
    {
        let c = chars[k];
        assert(d[k - start] == c);
        if !('0' <= c && c <= '9') {
            assert(!is_digit(d[k - start]));
            assert(!all_digits(d));
            return None;
        }
        let digit = (c as u32 - 48) as u64;
        assert(d.take(k - start + 1).drop_last() =~= d.take(k - start));
        assert(digits_value(d.take(k - start + 1)) == value * 10 + digit);
        if value > (u64::MAX - digit) / 10 {
            proof {
                assert(value * 10 + digit > u64::MAX) by (nonlinear_arith)
                    requires
                        value > (u64::MAX - digit) / 10,
                        digit <= 9,
                ;
                lemma_digits_value_grows(d, k - start + 1);
                assert(digits_value(d) > u64::MAX);
            }
            return None;
        }
        assert(value * 10 + digit <= u64::MAX) by (nonlinear_arith)
            requires
                value <= (u64::MAX - digit) / 10,
                digit <= 9,
        ;
        value = value * 10 + digit;
        k = k + 1;
    }
    assert(d.take(k - start) =~= d);
    Some(value)
}

fn area_text(first: &str) -> (area: String)
    ensures
        area@ == area_of(first@),
{
    let chars = chars_of(first);
    let skip: usize = if crate::text::starts_with_text(first, "VO-") {
        proof {
            reveal_strlit("VO-");
        }
        3
    } else {
        0
    };
    let ghost rest = if has_prefix(first@, "VO-"@) {
        first@.skip(3)
    } else {
        first@
    };
    assert(rest =~= chars@.skip(skip as int));
    proof {
        lemma_first_index_of(rest, '-');
    }
    let mut piece: Vec<char> = Vec::new();
    let mut k: usize = skip;
    while k < chars.len() && chars[k] != '-'
        invariant
            skip <= k <= chars@.len(),
            rest == chars@.skip(skip as int),
            piece@ == rest.take(k - skip),
            forall|i: int| 0 <= i < k - skip ==> rest[i] != '-',
        decreases chars.len() - k,
    {
        piece.push(chars[k]);
        assert(piece@ =~= rest.take(k - skip + 1));
        k = k + 1;
    }
    proof {
        lemma_first_index_of(rest, '-');
        let f = first_index_of(rest, '-');
        if f < k - skip {
            assert(rest[f] != '-');
        }
        if f > k - skip {
            assert(rest[k - skip] == chars@[k as int]);
        }
        assert(f == k - skip);
    }
    if piece.len() > 0 {
        string_from_chars(&piece)
    } else {
        let s = "AUTO".to_owned();
        s
    }
}

fn max_sequence_of(tests: &Vec<TestEntity>, prefix: &str) -> (m: u64)
    ensures
        m as nat == max_sequence(tests@, prefix@),
{
    let pchars = chars_of(prefix);
    let mut m: u64 = 0;
    let mut i: usize = 0;
    while i < tests.len()
        invariant
            i <= tests@.len(),
            pchars@ == prefix@,
            m as nat == max_sequence(tests@.take(i as int), prefix@),
        decreases tests.len() - i,
    {
        let ghost t = tests@.take(i as int + 1);
        assert(t.drop_last() =~= tests@.take(i as int));
        assert(t.last() == tests@[i as int]);
        let id = tests[i].id.0.as_str();
        if crate::text::starts_with_text(id, prefix) {
            let ichars = chars_of(id);
            let mut suffix: Vec<char> = Vec::new();
            let mut k: usize = pchars.len();
            while k < ichars.len()
                invariant
                    pchars@.len() <= k <= ichars@.len(),
                    suffix@ == ichars@.subrange(pchars@.len() as int, k as int),
                decreases ichars.len() - k,
            {
                suffix.push(ichars[k]);
                assert(suffix@ =~= ichars@.subrange(pchars@.len() as int, k as int + 1));
                k = k + 1;
            }
            assert(suffix@ =~= id@.skip(prefix@.len() as int));
            let text = string_from_chars(&suffix);
            match parse_u64(text.as_str()) {
                Some(v) => {
                    if v > m {
                        m = v;
                    }
                },
                None => {},
            }
        }
        i = i + 1;
    }
    assert(tests@.take(i as int) =~= tests@);
    m
}

fn id_in_use(tests: &Vec<TestEntity>, id: &str) -> (r: bool)
    ensures
        r == id_taken(tests@, id@),
{
    let mut i: usize = 0;
    while i < tests.len()
        invariant
            i <= tests@.len(),
            forall|j: int| 0 <= j < i ==> (#[trigger] tests@[j]).id@ != id@,
        decreases tests.len() - i,
    {
        if text_eq(tests[i].id.0.as_str(), id) {
            return true;
        }
        i = i + 1;
    }
    false
}

fn has_white_space(s: &str) -> (r: bool)
    ensures
        r == exists|i: int| 0 <= i < s@.len() && is_white_space(#[trigger] s@[i]),
{
    let chars = chars_of(s);
    let mut i: usize = 0;
    while i < chars.len()
        invariant
            i <= chars@.len(),
            chars@ == s@,
            forall|j: int| 0 <= j < i ==> !is_white_space(#[trigger] s@[j]),
        decreases chars.len() - i,
    {
        if crate::forms::white_space(chars[i]) {
            return true;
        }
        i = i + 1;
    }
    false
}

fn refuse(message: String) -> (r: Result<String, Diagnostic>)
    ensures
        r matches Err(d) && d.code@ == "E-OP-001"@ && d.message@ == message@
            && d.severity == crate::diagnostic::DiagnosticSeverity::Error,
{
    Err(Diagnostic::error("E-OP-001", message))
}

/// The id of a new test: the id asked for, if it is non-empty, has no
/// white space and is not taken; otherwise, when none is asked for, the
/// next number (at least three digits) of the series `TEST-<area>-`, where
/// the area comes from the first covered id. Every refusal is an
/// `E-OP-001` error; see `id_choice`.
pub fn select_test_id(
    scan: &ScanResult,
    answers: &Vec<(String, FormValue)>,
    explicit_id: Option<&str>,
) -> (r: Result<String, Diagnostic>)
    ensures
        match id_choice(
            scan.tests@,
            answers@,
            match explicit_id {
                Some(e) => Some(e@),
                None => None,
            },
        ) {
            IdChoice::Chosen(id) => r matches Ok(s) && s@ == id,
            IdChoice::Refused(m) => r matches Err(d) && d.code@ == "E-OP-001"@ && d.message@ == m
                && d.severity == crate::diagnostic::DiagnosticSeverity::Error,
        },
{
    proof {
        reveal_strlit("covers");
    }
    match explicit_id {
        Some(id) => {
            if chars_of(id).len() == 0 || has_white_space(id) {
                return refuse("Test ID must be non-empty and contain no whitespace".to_owned());
            }
            if id_in_use(&scan.tests, id) {
                let mut message = String::new();
                push_text(&mut message, "Test ID `");
                push_text(&mut message, id);
                push_text(&mut message, "` already exists");
                return refuse(message);
            }
            Ok(id.to_owned())
        },
        None => {
            let covers = match crate::forms::find_answer(answers, "covers") {
                Some(v) => v,
                None => {
                    return refuse("answers require `covers`".to_owned());
                },
            };
            let strings = crate::forms::value_strings(covers);
            if strings.len() == 0 {
                return refuse("answers require a non-empty `covers`".to_owned());
            }
            let area = area_text(strings[0].as_str());
            let mut prefix = String::new();
            push_text(&mut prefix, "TEST-");
            push_text(&mut prefix, area.as_str());
            push_text(&mut prefix, "-");
            let m = max_sequence_of(&scan.tests, prefix.as_str());
            if m == u64::MAX {
                return refuse("Test ID sequence overflow".to_owned());
            }
            let next = m + 1;
            let mut number = String::new();
            push_decimal(&mut number, next);
            let digits = chars_of(number.as_str()).len();
            let mut id = prefix.clone();
            if digits < 3 {
                let mut z: usize = 0;
                while z < 3 - digits
                    invariant
                        digits < 3,
                        z <= 3 - digits,
                        id@ == prefix@ + Seq::new(z as nat, |i: int| '0'),
                    decreases 3 - digits - z,
                {
                    let ghost before = id@;
                    crate::text::push_char(&mut id, '0');
                    assert(id@ =~= prefix@ + Seq::new((z + 1) as nat, |i: int| '0'));
                    z = z + 1;
                }
            }
            push_text(&mut id, number.as_str());
            assert(id@ =~= prefix@ + padded3(next as nat));
            if id_in_use(&scan.tests, id.as_str()) {
                let mut message = String::new();
                push_text(&mut message, "generated Test ID `");
                push_text(&mut message, id.as_str());
                push_text(&mut message, "` already exists");
                return refuse(message);
            }
            Ok(id)
        },
    }
}

proof fn lemma_max_sequence_bound(tests: Seq<TestEntity>, prefix: Seq<char>, j: int, v: u64)
    requires
        0 <= j < tests.len(),
        has_prefix(tests[j].id@, prefix),
        parsed_u64(tests[j].id@.skip(prefix.len() as int)) == Some(v),
    ensures
        v <= max_sequence(tests, prefix),
    decreases tests.len(),
{
    if j < tests.len() - 1 {
        assert(tests.drop_last()[j] == tests[j]);
        lemma_max_sequence_bound(tests.drop_last(), prefix, j, v);
    }
}

proof fn lemma_zeros_value(z: nat)
    ensures
        digits_value(Seq::new(z, |i: int| '0')) == 0,
        all_digits(Seq::new(z, |i: int| '0')),
    decreases z,
{
    if z > 0 {
        lemma_zeros_value((z - 1) as nat);
        assert(Seq::new(z, |i: int| '0').drop_last() =~= Seq::new((z - 1) as nat, |i: int| '0'));
    }
}

proof fn lemma_leading_zeros_value(z: nat, t: Seq<char>)
    ensures
        digits_value(Seq::new(z, |i: int| '0') + t) == digits_value(t),
    decreases t.len(),
{
    let zs = Seq::new(z, |i: int| '0');
    if t.len() == 0 {
        lemma_zeros_value(z);
        assert(zs + t =~= zs);
    } else {
        lemma_leading_zeros_value(z, t.drop_last());
        assert((zs + t).drop_last() =~= zs + t.drop_last());
        assert((zs + t).last() == t.last());
    }
}

proof fn lemma_decimal_text_value(n: nat)
    ensures
        digits_value(decimal_text(n)) == n,
        all_digits(decimal_text(n)),
        decimal_text(n).len() > 0,
        decimal_text(n)[0] != '+',
    decreases n,
{
    let d = (n % 10) as nat;
    assert((((d + 48) as u8) as char) as int == d + 48);
    if n >= 10 {
        lemma_decimal_text_value(n / 10);
        let t = decimal_text(n);
        assert(t.drop_last() =~= decimal_text(n / 10));
        assert forall|i: int| 0 <= i < t.len() implies is_digit(#[trigger] t[i]) by {
            if i < t.len() - 1 {
                assert(t[i] == decimal_text(n / 10)[i]);
            }
        }
        assert(t[0] == decimal_text(n / 10)[0]);
        assert(t.last() == digit_char(d));
        assert(digits_value(t) == digits_value(t.drop_last()) * 10 + ((t.last() as int - 48) as nat));
        assert((n / 10) * 10 + n % 10 == n);
    } else {
        let t = decimal_text(n);
        assert(t == seq![digit_char(n)]);
        assert(t.drop_last() =~= Seq::<char>::empty());
        assert(d == n);
        assert(digits_value(t) == digits_value(t.drop_last()) * 10 + ((t.last() as int - 48) as nat));
    }
}

proof fn lemma_padded3_parses(n: nat)
    requires
        n <= u64::MAX,
    ensures
        parsed_u64(padded3(n)) == Some(n as u64),
{
    lemma_decimal_text_value(n);
    let d = decimal_text(n);
    if d.len() < 3 {
        let z = (3 - d.len()) as nat;
        let zs = Seq::new(z, |i: int| '0');
        lemma_leading_zeros_value(z, d);
        lemma_zeros_value(z);
        let p = zs + d;
        assert forall|i: int| 0 <= i < p.len() implies is_digit(#[trigger] p[i]) by {
            if i < z {
                assert(p[i] == zs[i]);
            } else {
                assert(p[i] == d[i - z]);
            }
        }
        assert(p[0] == '0');
        assert(unsigned_digits(p) == p);
    } else {
        assert(unsigned_digits(d) == d);
    }
}

/// The next id of a series is never taken: every test whose id continues
/// the series `prefix` counts toward the largest number in use, so one
/// more than that number, written with at least three digits, names no
/// test.
pub proof fn lemma_next_in_series_is_free(tests: Seq<TestEntity>, prefix: Seq<char>)
    requires
        max_sequence(tests, prefix) + 1 <= u64::MAX,
    ensures
        !id_taken(tests, prefix + padded3(max_sequence(tests, prefix) + 1)),
{
    let next = max_sequence(tests, prefix) + 1;
    let id = prefix + padded3(next);
    if id_taken(tests, id) {
        let j = choose|j: int| 0 <= j < tests.len() && (#[trigger] tests[j]).id@ == id;
        assert(id.take(prefix.len() as int) =~= prefix);
        assert(id.skip(prefix.len() as int) =~= padded3(next));
        lemma_padded3_parses(next);
        lemma_max_sequence_bound(tests, prefix, j, next as u64);
    }
}

/// Choosing an id with none asked for is refused only for a missing or
/// empty `covers` answer or an exhausted series, never because the id it
/// generates is taken.
pub proof fn lemma_generated_id_never_clashes(tests: Seq<TestEntity>, answers: Seq<(String, FormValue)>)
    ensures
        id_choice(tests, answers, None) matches IdChoice::Refused(m) ==> m == "answers require `covers`"@ || m
            == "answers require a non-empty `covers`"@ || m == "Test ID sequence overflow"@,
{
    match answer_for(answers, "covers"@) {
        None => {},
        Some(v) => {
            let strings = match answer_view(v) {
                AnswerView::List(items) => items,
                AnswerView::Scalar(s) => seq![s],
            };
            if strings.len() > 0 {
                let prefix = "TEST-"@ + area_of(strings[0]) + "-"@;
                if max_sequence(tests, prefix) + 1 <= u64::MAX {
                    lemma_next_in_series_is_free(tests, prefix);
                }
            }
        },
    }
}

} // verus!
