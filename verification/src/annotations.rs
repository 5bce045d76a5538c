//! The `@vtest.` annotations written in a construct's doc comments.
//!
//! Each doc comment line is trimmed; a line `@vtest.<key> <value>` declares
//! `key` with `value` (both trimmed; the key ends at the first white space).
//! `case`, `related` and `target` may be declared any number of times and
//! keep every value; the other known keys keep their last value, and a
//! second declaration of one is an error; any other key is an error.

use vstd::prelude::*;

use crate::forms::{is_white_space, nonblank_trimmed, split_items, split_on, trim, trim_chars, white_space};
use crate::text::{chars_of, push_text, string_from_chars, text_eq};

verus! {

/// The trimmed, non-blank doc comment lines of the given doc texts, in
/// order. (Blank lines can never declare anything.)
pub open spec fn doc_lines(texts: Seq<Seq<char>>) -> Seq<Seq<char>>
    decreases texts.len(),
{
    if texts.len() == 0 {
        Seq::empty()
    } else {
        doc_lines(texts.drop_last()) + nonblank_trimmed(split_on(texts.last(), '\n'))
    }
}

/// The annotation marker.
pub open spec fn marker() -> Seq<char> {
    seq!['@', 'v', 't', 'e', 's', 't', '.']
}

/// The line mentions the annotation marker somewhere.
pub open spec fn mentions_marker(line: Seq<char>) -> bool {
    exists|i: int| 0 <= i && i + 7 <= line.len() && #[trigger] line.subrange(i, i + 7) == marker()
}

/// Some line mentions the annotation marker.
pub open spec fn any_marker_line(lines: Seq<Seq<char>>) -> bool {
    exists|i: int| 0 <= i < lines.len() && mentions_marker(#[trigger] lines[i])
}

/// The texts of a list of strings.
pub open spec fn texts_of(v: Seq<String>) -> Seq<Seq<char>> {
    v.map_values(|s: String| s@)
}

/// The position of the first white space character, or the length.
pub open spec fn first_white_space(a: Seq<char>) -> int
    decreases a.len(),
{
    if a.len() == 0 {
        0
    } else if is_white_space(a[0]) {
        0
    } else {
        1 + first_white_space(a.drop_first())
    }
}

/// The (key, value) a line declares, if it starts with the marker.
pub open spec fn annotation_of(line: Seq<char>) -> Option<(Seq<char>, Seq<char>)> {
    if line.len() >= 7 && line.take(7) == marker() {
        let a = line.skip(7);
        let p = first_white_space(a);
        Some((trim(a.take(p)), trim(a.skip(p))))
    } else {
        None
    }
}

/// The declarations of the lines, in order.
pub open spec fn declarations(lines: Seq<Seq<char>>) -> Seq<(Seq<char>, Seq<char>)>
    decreases lines.len(),
{
    if lines.len() == 0 {
        Seq::empty()
    } else {
        let earlier = declarations(lines.drop_last());
        match annotation_of(lines.last()) {
            Some(d) => earlier.push(d),
            None => earlier,
        }
    }
}

/// The keys an annotation may use.
pub open spec fn is_known_key(k: Seq<char>) -> bool {
    k == "id"@ || k == "covers"@ || k == "target"@ || k == "intent"@ || k == "input"@ || k == "expect"@ || k
        == "kind"@ || k == "case"@ || k == "related"@ || k == "src-id"@
}

/// The keys that may be declared more than once.
pub open spec fn is_repeatable_key(k: Seq<char>) -> bool {
    k == "case"@ || k == "related"@ || k == "target"@
}

/// The value of the last declaration of `k`.
pub open spec fn last_value(decls: Seq<(Seq<char>, Seq<char>)>, k: Seq<char>) -> Option<Seq<char>>
    decreases decls.len(),
{
    if decls.len() == 0 {
        None
    } else if decls.last().0 == k {
        Some(decls.last().1)
    } else {
        last_value(decls.drop_last(), k)
    }
}

/// The values of every declaration of `k`, in order.
pub open spec fn all_values(decls: Seq<(Seq<char>, Seq<char>)>, k: Seq<char>) -> Seq<Seq<char>>
    decreases decls.len(),
{
    if decls.len() == 0 {
        Seq::empty()
    } else if decls.last().0 == k {
        all_values(decls.drop_last(), k).push(decls.last().1)
    } else {
        all_values(decls.drop_last(), k)
    }
}

/// The last key that is not a known one.
pub open spec fn last_unknown_key(decls: Seq<(Seq<char>, Seq<char>)>) -> Option<Seq<char>>
    decreases decls.len(),
{
    if decls.len() == 0 {
        None
    } else if !is_known_key(decls.last().0) {
        Some(decls.last().0)
    } else {
        last_unknown_key(decls.drop_last())
    }
}

/// Whether some declaration uses the key `k`.
pub open spec fn declares(decls: Seq<(Seq<char>, Seq<char>)>, k: Seq<char>) -> bool {
    exists|i: int| 0 <= i < decls.len() && (#[trigger] decls[i]).0 == k
}

/// The key of the last declaration that repeats an earlier declaration of a
/// known key that may be declared only once.
pub open spec fn last_repeated_key(decls: Seq<(Seq<char>, Seq<char>)>) -> Option<Seq<char>>
    decreases decls.len(),
{
    if decls.len() == 0 {
        None
    } else {
        let k = decls.last().0;
        if is_known_key(k) && !is_repeatable_key(k) && declares(decls.drop_last(), k) {
            Some(k)
        } else {
            last_repeated_key(decls.drop_last())
        }
    }
}

/// The single-valued entries, by key: the last value of each known key that
/// may be declared only once; on an error, `__parse_error__` holds
/// `unknown:<key>` for the last unknown key or else `duplicate:<key>` for
/// the last repeated one, and when there is both an unknown key and a
/// repeated one, `__duplicate_key__` still holds the repeated key.
pub open spec fn value_for(decls: Seq<(Seq<char>, Seq<char>)>, k: Seq<char>) -> Option<Seq<char>> {
    if k == "__parse_error__"@ {
        match last_unknown_key(decls) {
            Some(u) => Some("unknown:"@ + u),
            None => match last_repeated_key(decls) {
                Some(d) => Some("duplicate:"@ + d),
                None => None,
            },
        }
    } else if k == "__duplicate_key__"@ {
        if last_unknown_key(decls) is Some {
            last_repeated_key(decls)
        } else {
            None
        }
    } else {
        last_value(decls, k)
    }
}

/// The keys that can hold a single value, ascending.
pub open spec fn single_keys() -> Seq<Seq<char>> {
    seq![
        "__duplicate_key__"@,
        "__parse_error__"@,
        "covers"@,
        "expect"@,
        "id"@,
        "input"@,
        "intent"@,
        "kind"@,
        "src-id"@,
    ]
}

/// The keys that keep every value, ascending.
pub open spec fn list_keys() -> Seq<Seq<char>> {
    seq!["case"@, "related"@, "target"@]
}

/// For each of `keys` that holds a value, the key and its value, in order.
pub open spec fn single_entries(keys: Seq<Seq<char>>, decls: Seq<(Seq<char>, Seq<char>)>) -> Seq<
    (Seq<char>, Seq<char>),
>
    decreases keys.len(),
{
    if keys.len() == 0 {
        Seq::empty()
    } else {
        let earlier = single_entries(keys.drop_last(), decls);
        match value_for(decls, keys.last()) {
            Some(v) => earlier.push((keys.last(), v)),
            None => earlier,
        }
    }
}

/// For each of `keys` declared at least once, the key and all its values,
/// in order.
pub open spec fn list_entries(keys: Seq<Seq<char>>, decls: Seq<(Seq<char>, Seq<char>)>) -> Seq<
    (Seq<char>, Seq<Seq<char>>),
>
    decreases keys.len(),
{
    if keys.len() == 0 {
        Seq::empty()
    } else {
        let earlier = list_entries(keys.drop_last(), decls);
        let vs = all_values(decls, keys.last());
        if vs.len() > 0 {
            earlier.push((keys.last(), vs))
        } else {
            earlier
        }
    }
}

/// The annotations of one construct: the single-valued entries and the
/// entries of the keys that keep every value, each ascending by key.
pub struct ParsedAnnotations {
    pub values: Vec<(String, String)>,
    pub repeated: Vec<(String, Vec<String>)>,
}

/// The views of single-valued entries.
pub open spec fn pair_views(v: Seq<(String, String)>) -> Seq<(Seq<char>, Seq<char>)> {
    v.map_values(|p: (String, String)| (p.0@, p.1@))
}

/// The views of list entries.
pub open spec fn list_views(v: Seq<(String, Vec<String>)>) -> Seq<(Seq<char>, Seq<Seq<char>>)> {
    v.map_values(|p: (String, Vec<String>)| (p.0@, p.1@.map_values(|s: String| s@)))
}

fn doc_lines_of(texts: &Vec<String>) -> (lines: Vec<String>)
    ensures
        lines@.map_values(|s: String| s@) == doc_lines(texts@.map_values(|s: String| s@)),
{
    let ghost tv = texts@.map_values(|s: String| s@);
    let mut lines: Vec<String> = Vec::new();
    let mut i: usize = 0;
    while i < texts.len()
        invariant
            i <= texts@.len(),
            tv == texts@.map_values(|s: String| s@),
            lines@.map_values(|s: String| s@) == doc_lines(tv.take(i as int)),
        decreases texts.len() - i,
    {
        let ghost t = tv.take(i as int + 1);
        assert(t.drop_last() =~= tv.take(i as int));
        assert(t.last() == texts@[i as int]@);
        let chars = chars_of(texts[i].as_str());
        let pieces = split_items(&chars, '\n');
        let ghost before = lines@.map_values(|s: String| s@);
        let mut k: usize = 0;
        while k < pieces.len()
            invariant
                k <= pieces@.len(),
                lines@.map_values(|s: String| s@) == before + pieces@.take(k as int).map_values(|s: String| s@),
            decreases pieces.len() - k,
        {
            let ghost lb = lines@;
            lines.push(pieces[k].clone());
            assert(pieces@.take(k as int + 1) =~= pieces@.take(k as int).push(pieces@[k as int]));
            assert(lines@.map_values(|s: String| s@) =~= lb.map_values(|s: String| s@).push(pieces@[k as int]@));
            k = k + 1;
        }
        assert(pieces@.take(k as int) =~= pieces@);
        i = i + 1;
    }
    assert(tv.take(i as int) =~= tv);
    lines
}

fn marker_at(chars: &Vec<char>, i: usize) -> (r: bool)
    requires
        i + 7 <= chars@.len(),
    ensures
        r == (chars@.subrange(i as int, i as int + 7) == marker()),
{
    let m = ['@', 'v', 't', 'e', 's', 't', '.'];
    assert(m@ =~= marker());
    let n = chars.len();
    let mut k: usize = 0;
    while k < 7
        invariant
            k <= 7,
            n == chars@.len(),
            i + 7 <= chars@.len(),
            m@ == marker(),
            forall|q: int| 0 <= q < k ==> chars@[i + q] == m@[q],
        decreases 7 - k,
    {
        if chars[i + k] != m[k] {
            assert(chars@.subrange(i as int, i as int + 7)[k as int] != marker()[k as int]);
            return false;
        }
        k = k + 1;
    }
    assert(chars@.subrange(i as int, i as int + 7) =~= marker());
    true
}

fn mentions_marker_exec(line: &str) -> (r: bool)
    ensures
        r == mentions_marker(line@),
{
    let chars = chars_of(line);
    if chars.len() < 7 {
        proof {
            assert forall|i: int| 0 <= i && i + 7 <= line@.len() implies #[trigger] line@.subrange(i, i + 7)
                != marker() by {}
        }
        return false;
    }
    let mut i: usize = 0;
    while i <= chars.len() - 7
        invariant
            chars@.len() >= 7,
            i <= chars@.len() - 6,
            chars@ == line@,
            forall|j: int| 0 <= j < i ==> #[trigger] line@.subrange(j, j + 7) != marker(),
        decreases chars.len() - i,
    {
        if marker_at(&chars, i) {
            return true;
        }
        i = i + 1;
    }
    false
}

fn starts_with_marker(chars: &Vec<char>) -> (r: bool)
    ensures
        r == (chars@.len() >= 7 && chars@.take(7) == marker()),
{
    let m = ['@', 'v', 't', 'e', 's', 't', '.'];
    assert(m@ =~= marker());
    if chars.len() < 7 {
        return false;
    }
    let mut k: usize = 0;
    while k < 7
        invariant
            k <= 7,
            chars@.len() >= 7,
            m@ == marker(),
            forall|q: int| 0 <= q < k ==> chars@[q] == m@[q],
        decreases 7 - k,
    {
        if chars[k] != m[k] {
            assert(chars@.take(7)[k as int] != marker()[k as int]);
            return false;
        }
        k = k + 1;
    }
    assert(chars@.take(7) =~= marker());
    true
}

fn slice_chars(chars: &Vec<char>, from: usize, to: usize) -> (out: Vec<char>)
    requires
        from <= to <= chars@.len(),
    ensures
        out@ == chars@.subrange(from as int, to as int),
{
    let mut out: Vec<char> = Vec::new();
    let mut k: usize = from;
    while k < to
        invariant
            from <= k <= to,
            to <= chars@.len(),
            out@ == chars@.subrange(from as int, k as int),
        decreases to - k,
    {
        out.push(chars[k]);
        assert(out@ =~= chars@.subrange(from as int, k as int + 1));
        k = k + 1;
    }
    out
}

fn annotation_of_exec(line: &str) -> (r: Option<(String, String)>)
    ensures
        match r {
            Some(d) => annotation_of(line@) == Some((d.0@, d.1@)),
            None => annotation_of(line@) is None,
        },
{
    let chars = chars_of(line);
    if !starts_with_marker(&chars) {
        return None;
    }
    let ghost a = line@.skip(7);
    let mut p: usize = 7;
    assert(a.skip(0) =~= a);
    while p < chars.len() && !white_space(chars[p])
        invariant
            7 <= p <= chars@.len(),
            chars@ == line@,
            a == line@.skip(7),
            first_white_space(a) == (p - 7) + first_white_space(a.skip(p - 7)),
        decreases chars.len() - p,
    {
        assert(a.skip(p - 7).drop_first() =~= a.skip(p - 7 + 1));
        p = p + 1;
    }
    assert(first_white_space(a.skip(p - 7)) == 0);
    let key = trim_chars(&slice_chars(&chars, 7, p));
    let value = trim_chars(&slice_chars(&chars, p, chars.len()));
    assert(chars@.subrange(7, p as int) =~= a.take(p - 7));
    assert(chars@.subrange(p as int, chars@.len() as int) =~= a.skip(p - 7));
    Some((string_from_chars(&key), string_from_chars(&value)))
}

fn declarations_of(lines: &Vec<String>) -> (decls: Vec<(String, String)>)
    ensures
        pair_views(decls@) == declarations(lines@.map_values(|s: String| s@)),
{
    let ghost lv = lines@.map_values(|s: String| s@);
    let mut decls: Vec<(String, String)> = Vec::new();
    let mut i: usize = 0;
    while i < lines.len()
        invariant
            i <= lines@.len(),
            lv == lines@.map_values(|s: String| s@),
            pair_views(decls@) == declarations(lv.take(i as int)),
        decreases lines.len() - i,
    {
        let ghost t = lv.take(i as int + 1);
        assert(t.drop_last() =~= lv.take(i as int));
        assert(t.last() == lines@[i as int]@);
        match annotation_of_exec(lines[i].as_str()) {
            Some(d) => {
                let ghost before = decls@;
                decls.push(d);
                assert(pair_views(decls@) =~= pair_views(before).push((d.0@, d.1@)));
            },
            None => {},
        }
        i = i + 1;
    }
    assert(lv.take(i as int) =~= lv);
    decls
}

fn is_known_key_exec(k: &str) -> (r: bool)
    ensures
        r == is_known_key(k@),
{
    text_eq(k, "id") || text_eq(k, "covers") || text_eq(k, "target") || text_eq(k, "intent") || text_eq(
        k,
        "input",
    ) || text_eq(k, "expect") || text_eq(k, "kind") || text_eq(k, "case") || text_eq(k, "related") || text_eq(
        k,
        "src-id",
    )
}

fn is_repeatable_key_exec(k: &str) -> (r: bool)
    ensures
        r == is_repeatable_key(k@),
{
    text_eq(k, "case") || text_eq(k, "related") || text_eq(k, "target")
}

fn last_value_of(decls: &Vec<(String, String)>, k: &str) -> (r: Option<String>)
    ensures
        match r {
            Some(v) => last_value(pair_views(decls@), k@) == Some(v@),
            None => last_value(pair_views(decls@), k@) is None,
        },
{
    let ghost dv = pair_views(decls@);
    let mut n: usize = decls.len();
    assert(dv.take(n as int) =~= dv);
    while n > 0
        invariant
            n <= decls@.len(),
            dv == pair_views(decls@),
            last_value(dv, k@) == last_value(dv.take(n as int), k@),
        decreases n,
    {
        let ghost t = dv.take(n as int);
        assert(t.drop_last() =~= dv.take(n as int - 1));
        assert(t.last() == dv[n as int - 1]);
        if text_eq(decls[n - 1].0.as_str(), k) {
            return Some(decls[n - 1].1.clone());
        }
        n = n - 1;
    }
    None
}

fn all_values_of(decls: &Vec<(String, String)>, k: &str) -> (r: Vec<String>)
    ensures
        r@.map_values(|s: String| s@) == all_values(pair_views(decls@), k@),
{
    let ghost dv = pair_views(decls@);
    let mut out: Vec<String> = Vec::new();
    let mut i: usize = 0;
    while i < decls.len()
        invariant
            i <= decls@.len(),
            dv == pair_views(decls@),
            out@.map_values(|s: String| s@) == all_values(dv.take(i as int), k@),
        decreases decls.len() - i,
    {
        let ghost t = dv.take(i as int + 1);
        assert(t.drop_last() =~= dv.take(i as int));
        assert(t.last() == dv[i as int]);
        if text_eq(decls[i].0.as_str(), k) {
            let ghost before = out@;
            out.push(decls[i].1.clone());
            assert(out@.map_values(|s: String| s@) =~= before.map_values(|s: String| s@).push(dv[i as int].1));
        }
        i = i + 1;
    }
    assert(dv.take(i as int) =~= dv);
    out
}

fn last_unknown_key_of(decls: &Vec<(String, String)>) -> (r: Option<String>)
    ensures
        match r {
            Some(u) => last_unknown_key(pair_views(decls@)) == Some(u@),
            None => last_unknown_key(pair_views(decls@)) is None,
        },
{
    let ghost dv = pair_views(decls@);
    let mut n: usize = decls.len();
    assert(dv.take(n as int) =~= dv);
    while n > 0
        invariant
            n <= decls@.len(),
            dv == pair_views(decls@),
            last_unknown_key(dv) == last_unknown_key(dv.take(n as int)),
        decreases n,
    {
        let ghost t = dv.take(n as int);
        assert(t.drop_last() =~= dv.take(n as int - 1));
        assert(t.last() == dv[n as int - 1]);
        if !is_known_key_exec(decls[n - 1].0.as_str()) {
            return Some(decls[n - 1].0.clone());
        }
        n = n - 1;
    }
    None
}

fn declares_exec(decls: &Vec<(String, String)>, upto: usize, k: &str) -> (r: bool)
    requires
        upto <= decls@.len(),
    ensures
        r == declares(pair_views(decls@).take(upto as int), k@),
{
    let ghost dv = pair_views(decls@).take(upto as int);
    let mut i: usize = 0;
    while i < upto
        invariant
            i <= upto <= decls@.len(),
            dv == pair_views(decls@).take(upto as int),
            forall|j: int| 0 <= j < i ==> (#[trigger] dv[j]).0 != k@,
        decreases upto - i,
    {
        if text_eq(decls[i].0.as_str(), k) {
            assert(dv[i as int].0 == k@);
            return true;
        }
        i = i + 1;
    }
    false
}

fn last_repeated_key_of(decls: &Vec<(String, String)>) -> (r: Option<String>)
    ensures
        match r {
            Some(d) => last_repeated_key(pair_views(decls@)) == Some(d@),
            None => last_repeated_key(pair_views(decls@)) is None,
        },
{
    let ghost dv = pair_views(decls@);
    let mut n: usize = decls.len();
    assert(dv.take(n as int) =~= dv);
    while n > 0
        invariant
            n <= decls@.len(),
            dv == pair_views(decls@),
            last_repeated_key(dv) == last_repeated_key(dv.take(n as int)),
        decreases n,
    {
        let ghost t = dv.take(n as int);
        assert(t.drop_last() =~= dv.take(n as int - 1));
        assert(t.last() == dv[n as int - 1]);
        let k = decls[n - 1].0.as_str();
        if is_known_key_exec(k) && !is_repeatable_key_exec(k) && declares_exec(decls, n - 1, k) {
            return Some(decls[n - 1].0.clone());
        }
        n = n - 1;
    }
    None
}

fn value_for_exec(decls: &Vec<(String, String)>, k: &str) -> (r: Option<String>)
    ensures
        match r {
            Some(v) => value_for(pair_views(decls@), k@) == Some(v@),
            None => value_for(pair_views(decls@), k@) is None,
        },
{
    if text_eq(k, "__parse_error__") {
        match last_unknown_key_of(decls) {
            Some(u) => {
                let mut s = String::new();
                push_text(&mut s, "unknown:");
                push_text(&mut s, u.as_str());
                Some(s)
            },
            None => match last_repeated_key_of(decls) {
                Some(d) => {
                    let mut s = String::new();
                    push_text(&mut s, "duplicate:");
                    push_text(&mut s, d.as_str());
                    Some(s)
                },
                None => None,
            },
        }
    } else if text_eq(k, "__duplicate_key__") {
        if last_unknown_key_of(decls).is_some() {
            last_repeated_key_of(decls)
        } else {
            None
        }
    } else {
        last_value_of(decls, k)
    }
}

/// Reads the `@vtest.` annotations of one construct from the text of each
/// of its doc attributes, in order. None when no trimmed line mentions the
/// marker `@vtest.`; otherwise the single-valued entries (see `value_for`)
/// and, for `case`, `related` and `target`, every value declared, each
/// ascending by key.
pub fn parse_annotations(doc_texts: &Vec<String>) -> (r: Option<ParsedAnnotations>)
    ensures
        match r {
            None => !any_marker_line(doc_lines(texts_of(doc_texts@))),
            Some(p) => {
                let decls = declarations(doc_lines(texts_of(doc_texts@)));
                &&& any_marker_line(doc_lines(texts_of(doc_texts@)))
                &&& pair_views(p.values@) == single_entries(single_keys(), decls)
                &&& list_views(p.repeated@) == list_entries(list_keys(), decls)
            },
        },
{
    let lines = doc_lines_of(doc_texts);
    let ghost lv = lines@.map_values(|s: String| s@);
    let mut found = false;
    let mut i: usize = 0;
    while i < lines.len() && !found
        invariant
            i <= lines@.len(),
            lv == lines@.map_values(|s: String| s@),
            found ==> exists|j: int| 0 <= j < lv.len() && mentions_marker(#[trigger] lv[j]),
            !found ==> forall|j: int| 0 <= j < i ==> !mentions_marker(#[trigger] lv[j]),
        decreases lines.len() - i + (if found { 0int } else { 1int }),
    {
        if mentions_marker_exec(lines[i].as_str()) {
            assert(mentions_marker(lv[i as int]));
            found = true;
        } else {
            assert(!mentions_marker(lv[i as int]));
            i = i + 1;
        }
    }
    if !found {
        return None;
    }
    let decls = declarations_of(&lines);
    let ghost dv = pair_views(decls@);
    let keys = vec![
        "__duplicate_key__",
        "__parse_error__",
        "covers",
        "expect",
        "id",
        "input",
        "intent",
        "kind",
        "src-id",
    ];
    assert(keys@.map_values(|s: &str| s@) =~= single_keys());
    let mut values: Vec<(String, String)> = Vec::new();
    let mut k: usize = 0;
    while k < keys.len()
        invariant
            k <= keys@.len(),
            dv == pair_views(decls@),
            keys@.map_values(|s: &str| s@) == single_keys(),
            pair_views(values@) == single_entries(single_keys().take(k as int), dv),
        decreases keys.len() - k,
    {
        let ghost t = single_keys().take(k as int + 1);
        assert(t.drop_last() =~= single_keys().take(k as int));
        assert(t.last() == keys@[k as int]@);
        match value_for_exec(&decls, keys[k]) {
            Some(v) => {
                let ghost before = values@;
                values.push((keys[k].to_owned(), v));
                assert(pair_views(values@) =~= pair_views(before).push((keys@[k as int]@, v@)));
            },
            None => {},
        }
        k = k + 1;
    }
    assert(single_keys().take(k as int) =~= single_keys());
    let lists = vec!["case", "related", "target"];
    assert(lists@.map_values(|s: &str| s@) =~= list_keys());
    let mut repeated: Vec<(String, Vec<String>)> = Vec::new();
    let mut k: usize = 0;
    while k < lists.len()
        invariant
            k <= lists@.len(),
            dv == pair_views(decls@),
            lists@.map_values(|s: &str| s@) == list_keys(),
            list_views(repeated@) == list_entries(list_keys().take(k as int), dv),
        decreases lists.len() - k,
    {
        let ghost t = list_keys().take(k as int + 1);
        assert(t.drop_last() =~= list_keys().take(k as int));
        assert(t.last() == lists@[k as int]@);
        let vs = all_values_of(&decls, lists[k]);
        if vs.len() > 0 {
            let ghost before = repeated@;
            let entry = (lists[k].to_owned(), vs);
            repeated.push(entry);
            assert(list_views(repeated@) =~= list_views(before).push((entry.0@, entry.1@.map_values(|s: String| s@))));
        }
        k = k + 1;
    }
    assert(list_keys().take(k as int) =~= list_keys());
    Some(ParsedAnnotations { values, repeated })
}

} // verus!
