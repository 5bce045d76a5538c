//! The decisions of the answer checks that read the project's files: which
//! enum an `enum-variant-exists` answer names and what is answered once
//! the variants were read, and which paths a `rust-file` answer may name.
//! Reading the files is left to the caller.

use vstd::prelude::*;
use vstd::utf8::encode_utf8;

use crate::diagnostic::{Diagnostic, DiagnosticSeverity};
use crate::forms::{is_rust_identifier, lemma_split_on_nonempty, parses_as_identifier, split_on};
use crate::order::{
    bytes_le, lemma_lex_le_connected, lemma_lex_le_reflexive, lemma_lex_le_transitive, lex_le,
};
use crate::queries::quoted;
use crate::text::{chars_of, push_text, string_from_chars, text_eq};

verus! {

/// Where the last `::` in `s` starts, if it has one.
pub open spec fn last_separator(s: Seq<char>) -> Option<int>
    decreases s.len(),
{
    if s.len() < 2 {
        None
    } else if s[s.len() - 2] == ':' && s[s.len() - 1] == ':' {
        Some(s.len() - 2)
    } else {
        last_separator(s.drop_last())
    }
}

/// What an `enum-variant-exists` answer names: the type path, the enum's
/// name (the path's last segment) and the variant, split at the last
/// `::`; nothing when there is no `::` or either name is not a Rust
/// identifier, in which case the answer is not checked.
pub open spec fn enum_query(value: Seq<char>) -> Option<(Seq<char>, Seq<char>, Seq<char>)> {
    match last_separator(value) {
        None => None,
        Some(i) => {
            let type_path = value.take(i);
            let variant = value.skip(i + 2);
            let enum_name = match last_separator(type_path) {
                Some(j) => type_path.skip(j + 2),
                None => type_path,
            };
            if is_rust_identifier(enum_name) && is_rust_identifier(variant) {
                Some((type_path, enum_name, variant))
            } else {
                None
            }
        },
    }
}

/// `a` sorts strictly before `b` (by their UTF-8 bytes).
pub open spec fn text_before(a: Seq<char>, b: Seq<char>) -> bool {
    lex_le(encode_utf8(a), encode_utf8(b)) && a != b
}

/// The texts are in strictly ascending order, so none occurs twice.
pub open spec fn strictly_ascending(v: Seq<String>) -> bool {
    forall|i: int, j: int| 0 <= i < j < v.len() ==> text_before(#[trigger] v[i]@, #[trigger] v[j]@)
}

/// Some string of `v` has the text `t`.
pub open spec fn has_text(v: Seq<String>, t: Seq<char>) -> bool {
    exists|i: int| 0 <= i < v.len() && (#[trigger] v[i])@ == t
}

fn find_last_separator(s: &Vec<char>) -> (r: Option<usize>)
    ensures
        match r {
            Some(i) => last_separator(s@) == Some(i as int) && i + 2 <= s@.len(),
            None => last_separator(s@) is None,
        },
{
    let mut n: usize = s.len();
    assert(s@.take(n as int) =~= s@);
    while n >= 2
        invariant
            n <= s@.len(),
            last_separator(s@) == last_separator(s@.take(n as int)),
        decreases n,
    {
        if s[n - 2] == ':' && s[n - 1] == ':' {
            return Some(n - 2);
        }
        assert(s@.take(n as int).drop_last() =~= s@.take(n as int - 1));
        n = n - 1;
    }
    None
}

fn chars_between(s: &Vec<char>, start: usize, end: usize) -> (out: String)
    requires
        start <= end <= s@.len(),
    ensures
        out@ == s@.subrange(start as int, end as int),
{
    let mut part: Vec<char> = Vec::new();
    let mut k: usize = start;
    while k < end
        invariant
            start <= k <= end <= s@.len(),
            part@ == s@.subrange(start as int, k as int),
        decreases end - k,
    {
        part.push(s[k]);
        assert(part@ =~= s@.subrange(start as int, k as int + 1));
        k = k + 1;
    }
    string_from_chars(&part)
}

/// What an `enum-variant-exists` answer names (see `enum_query`): the type
/// path, the enum's name and the variant.
pub fn enum_variant_query(value: &str) -> (r: Option<(String, String, String)>)
    ensures
        match enum_query(value@) {
            Some(q) => r matches Some(t) && t.0@ == q.0 && t.1@ == q.1 && t.2@ == q.2,
            None => r is None,
        },
{
    let chars = chars_of(value);
    let i = match find_last_separator(&chars) {
        Some(i) => i,
        None => {
            return None;
        },
    };
    let type_path = chars_between(&chars, 0, i);
    let variant = chars_between(&chars, i + 2, chars.len());
    assert(type_path@ =~= value@.take(i as int));
    assert(variant@ =~= value@.skip(i as int + 2));
    let path_chars = chars_of(type_path.as_str());
    let enum_name = match find_last_separator(&path_chars) {
        Some(j) => {
            let name = chars_between(&path_chars, j + 2, path_chars.len());
            assert(name@ =~= type_path@.skip(j as int + 2));
            name
        },
        None => type_path.clone(),
    };
    if parses_as_identifier(enum_name.as_str()) && parses_as_identifier(variant.as_str()) {
        Some((type_path, enum_name, variant))
    } else {
        None
    }
}

fn text_precedes(a: &String, b: &String) -> (r: bool)
    ensures
        r == text_before(a@, b@),
{
    bytes_le(a.as_str().as_bytes(), b.as_str().as_bytes()) && !text_eq(a.as_str(), b.as_str())
}

/// Two texts cannot each sort strictly before the other.
proof fn lemma_text_before_asymmetric(x: Seq<char>, y: Seq<char>)
    requires
        text_before(x, y),
    ensures
        !text_before(y, x),
{
    if text_before(y, x) {
        crate::order::lemma_lex_le_antisymmetric(encode_utf8(x), encode_utf8(y));
        vstd::utf8::encode_utf8_decode_utf8(x);
        vstd::utf8::encode_utf8_decode_utf8(y);
    }
}

/// Strictly ascending texts are determined by which texts they hold: two
/// strictly ascending lists with the same texts are the same list of
/// texts. So the result of `sorted_distinct` depends on the texts of its
/// input alone, not on their order or repetitions.
pub proof fn lemma_ascending_texts_unique(a: Seq<String>, b: Seq<String>)
    requires
        strictly_ascending(a),
        strictly_ascending(b),
        forall|t: Seq<char>| has_text(a, t) <==> has_text(b, t),
    ensures
        a.map_values(|s: String| s@) == b.map_values(|s: String| s@),
    decreases a.len(),
{
    if a.len() == 0 {
        if b.len() > 0 {
            assert(has_text(b, b[0]@));
        }
        assert(a.map_values(|s: String| s@) =~= b.map_values(|s: String| s@));
    } else {
        assert(has_text(a, a[0]@));
        let j = choose|j: int| 0 <= j < b.len() && (#[trigger] b[j])@ == a[0]@;
        assert(has_text(b, b[0]@));
        let i = choose|i: int| 0 <= i < a.len() && (#[trigger] a[i])@ == b[0]@;
        if i > 0 && j > 0 {
            assert(text_before(a[0]@, a[i]@));
            assert(text_before(b[0]@, b[j]@));
            lemma_text_before_asymmetric(a[0]@, b[0]@);
        }
        assert(a[0]@ == b[0]@);
        let a1 = a.drop_first();
        let b1 = b.drop_first();
        assert forall|x: int, y: int| 0 <= x < y < a1.len() implies text_before(#[trigger] a1[x]@, #[trigger] a1[y]@) by {
            assert(a1[x] == a[x + 1] && a1[y] == a[y + 1]);
        }
        assert forall|x: int, y: int| 0 <= x < y < b1.len() implies text_before(#[trigger] b1[x]@, #[trigger] b1[y]@) by {
            assert(b1[x] == b[x + 1] && b1[y] == b[y + 1]);
        }
        assert forall|t: Seq<char>| has_text(a1, t) <==> has_text(b1, t) by {
            if has_text(a1, t) {
                let x = choose|x: int| 0 <= x < a1.len() && (#[trigger] a1[x])@ == t;
                assert(a1[x] == a[x + 1]);
                assert(text_before(a[0]@, a[x + 1]@));
                assert(has_text(a, t));
                let y = choose|y: int| 0 <= y < b.len() && (#[trigger] b[y])@ == t;
                assert(y != 0);
                assert(b1[y - 1] == b[y]);
            }
            if has_text(b1, t) {
                let y = choose|y: int| 0 <= y < b1.len() && (#[trigger] b1[y])@ == t;
                assert(b1[y] == b[y + 1]);
                assert(text_before(b[0]@, b[y + 1]@));
                assert(has_text(b, t));
                let x = choose|x: int| 0 <= x < a.len() && (#[trigger] a[x])@ == t;
                assert(x != 0);
                assert(a1[x - 1] == a[x]);
            }
        }
        lemma_ascending_texts_unique(a1, b1);
        assert(a.map_values(|s: String| s@) =~= seq![a[0]@] + a1.map_values(|s: String| s@));
        assert(b.map_values(|s: String| s@) =~= seq![b[0]@] + b1.map_values(|s: String| s@));
    }
}

/// Inserting a text at the place where it sorts, when it is not there
/// yet, keeps the texts strictly ascending.
proof fn lemma_insert_keeps_ascending(before: Seq<String>, p: int, x: String)
    requires
        strictly_ascending(before),
        0 <= p <= before.len(),
        forall|q: int| 0 <= q < p ==> text_before(#[trigger] before[q]@, x@),
        p < before.len() ==> !text_before(before[p]@, x@) && before[p]@ != x@,
    ensures
        strictly_ascending(before.insert(p, x)),
{
    let out = before.insert(p, x);
    if p < before.len() {
        let ex = encode_utf8(x@);
        let ep = encode_utf8(before[p]@);
        lemma_lex_le_connected(ep, ex);
        if ex == ep {
            lemma_lex_le_reflexive(ep);
        }
        assert(lex_le(ex, ep) && ex != ep);
        assert forall|j: int| p <= j < before.len() implies text_before(x@, #[trigger] before[j]@) by {
            let ej = encode_utf8(before[j]@);
            if j > p {
                assert(text_before(before[p]@, before[j]@));
                lemma_lex_le_transitive(ex, ep, ej);
                if x@ == before[j]@ {
                    assert(false);
                }
            }
        }
    }
    assert forall|i: int, j: int| 0 <= i < j < out.len() implies text_before(#[trigger] out[i]@, #[trigger] out[j]@) by {
        if j < p {
            assert(out[i] == before[i] && out[j] == before[j]);
        } else if j == p {
            assert(out[i] == before[i]);
        } else if i == p {
            assert(out[j] == before[j - 1]);
        } else if i < p {
            assert(out[i] == before[i] && out[j] == before[j - 1]);
        } else {
            assert(out[i] == before[i - 1] && out[j] == before[j - 1]);
        }
    }
}

/// The texts of `items`, each once, in ascending order.
pub fn sorted_distinct(items: &Vec<String>) -> (out: Vec<String>)
    ensures
        strictly_ascending(out@),
        forall|t: Seq<char>| has_text(out@, t) <==> has_text(items@, t),
{
    let mut out: Vec<String> = Vec::new();
    let mut k: usize = 0;
    while k < items.len()
        invariant
            k <= items@.len(),
            strictly_ascending(out@),
            forall|t: Seq<char>| has_text(out@, t) <==> has_text(items@.take(k as int), t),
        decreases items.len() - k,
    {
        let x = &items[k];
        let mut p: usize = 0;
        while p < out.len() && text_precedes(&out[p], x)
            invariant
                p <= out@.len(),
                forall|q: int| 0 <= q < p ==> text_before(#[trigger] out@[q]@, x@),
            decreases out.len() - p,
        {
            p = p + 1;
        }
        let duplicate = p < out.len() && text_eq(out[p].as_str(), x.as_str());
        let ghost before = out@;
        if !duplicate {
            out.insert(p, x.clone());
            proof {
                assert(out@ =~= before.insert(p as int, items@[k as int]));
                lemma_insert_keeps_ascending(before, p as int, items@[k as int]);
            }
        }
        proof {
            assert forall|t: Seq<char>| has_text(out@, t) <==> has_text(items@.take(k as int + 1), t) by {
                let next = items@.take(k as int + 1);
                if has_text(next, t) {
                    let w = choose|w: int| 0 <= w < next.len() && (#[trigger] next[w])@ == t;
                    if w < k {
                        assert(items@.take(k as int)[w] == next[w]);
                        assert(has_text(items@.take(k as int), t));
                        assert(has_text(before, t));
                        let v = choose|v: int| 0 <= v < before.len() && (#[trigger] before[v])@ == t;
                        if !duplicate {
                            if v < p {
                                assert(out@[v] == before[v]);
                            } else {
                                assert(out@[v + 1] == before[v]);
                            }
                        }
                    } else {
                        if duplicate {
                            assert(out@[p as int]@ == t);
                        } else {
                            assert(out@[p as int]@ == t);
                        }
                    }
                }
                if has_text(out@, t) {
                    let v = choose|v: int| 0 <= v < out@.len() && (#[trigger] out@[v])@ == t;
                    if !duplicate && v == p {
                        assert(next[k as int] == items@[k as int]);
                    } else {
                        let u = if !duplicate && v > p {
                            v - 1
                        } else {
                            v
                        };
                        assert(before[u]@ == t);
                        assert(has_text(before, t));
                        let w = choose|w: int|
                            0 <= w < items@.take(k as int).len() && (#[trigger] items@.take(k as int)[w])@ == t;
                        assert(next[w] == items@.take(k as int)[w]);
                    }
                }
            }
        }
        k = k + 1;
    }
    assert(items@.take(k as int) =~= items@);
    out
}

/// `t` is `type_path::v` for some variant `v` read from the project.
pub open spec fn is_variant_candidate(t: Seq<char>, type_path: Seq<char>, variants: Seq<String>) -> bool {
    exists|i: int| 0 <= i < variants.len() && t == type_path + "::"@ + (#[trigger] variants[i])@
}

/// What an `enum-variant-exists` answer `value` gets once the variants of
/// the enum it names were read from the project: accepted when none were
/// found or the answer's variant is one of them; otherwise an `E-OP-001`
/// error whose candidates are the found variants under the type path,
/// each once and in ascending order.
pub fn enum_variant_verdict(value: &str, type_path: &str, variant: &str, variants: &Vec<String>) -> (r: Result<
    (),
    Diagnostic,
>)
    ensures
        if variants@.len() == 0 || has_text(variants@, variant@) {
            r is Ok
        } else {
            r matches Err(d) && d.code@ == "E-OP-001"@ && d.severity == DiagnosticSeverity::Error && d.message@
                == "enum variant `"@ + value@ + "` does not exist"@ && strictly_ascending(d.candidates@) && forall|
                t: Seq<char>,
            | has_text(d.candidates@, t) <==> is_variant_candidate(t, type_path@, variants@)
        },
{
    proof {
        reveal_strlit("::");
    }
    let mut found = false;
    let mut k: usize = 0;
    while k < variants.len()
        invariant
            k <= variants@.len(),
            found == has_text(variants@.take(k as int), variant@),
        decreases variants.len() - k,
    {
        proof {
            let next = variants@.take(k as int + 1);
            if has_text(variants@.take(k as int), variant@) {
                let w = choose|w: int| 0 <= w < k && (#[trigger] variants@.take(k as int)[w])@ == variant@;
                assert(next[w] == variants@.take(k as int)[w]);
            }
            if has_text(next, variant@) {
                let w = choose|w: int| 0 <= w < k + 1 && (#[trigger] next[w])@ == variant@;
                if w < k {
                    assert(variants@.take(k as int)[w] == next[w]);
                }
            }
            assert(next[k as int] == variants@[k as int]);
        }
        if text_eq(variants[k].as_str(), variant) {
            found = true;
        }
        k = k + 1;
    }
    assert(variants@.take(k as int) =~= variants@);
    if variants.len() == 0 || found {
        return Ok(());
    }
    let mut named: Vec<String> = Vec::new();
    let mut k: usize = 0;
    while k < variants.len()
        invariant
            k <= variants@.len(),
            named@.len() == k,
            forall|i: int| 0 <= i < k ==> (#[trigger] named@[i])@ == type_path@ + "::"@ + variants@[i]@,
        decreases variants.len() - k,
    {
        let mut t = String::new();
        push_text(&mut t, type_path);
        push_text(&mut t, "::");
        push_text(&mut t, variants[k].as_str());
        named.push(t);
        k = k + 1;
    }
    let candidates = sorted_distinct(&named);
    assert forall|t: Seq<char>| has_text(named@, t) <==> is_variant_candidate(t, type_path@, variants@) by {
        if has_text(named@, t) {
            let w = choose|w: int| 0 <= w < named@.len() && (#[trigger] named@[w])@ == t;
            assert(t == type_path@ + "::"@ + variants@[w]@);
        }
        if is_variant_candidate(t, type_path@, variants@) {
            let w = choose|w: int| 0 <= w < variants@.len() && t == type_path@ + "::"@ + (#[trigger] variants@[w])@;
            assert(named@[w]@ == t);
        }
    }
    Err(
        Diagnostic::error("E-OP-001", quoted("enum variant `", value, "` does not exist")).with_candidates(
            candidates,
        ),
    )
}

/// The pieces of a path between its slashes.
pub open spec fn path_pieces(s: Seq<char>) -> Seq<Seq<char>> {
    split_on(s, '/')
}

/// A piece that names a component: neither empty nor `.`.
pub open spec fn names_component(piece: Seq<char>) -> bool {
    piece.len() > 0 && piece != "."@
}

/// The last piece that names a component.
pub open spec fn last_named(pieces: Seq<Seq<char>>) -> Option<Seq<char>>
    decreases pieces.len(),
{
    if pieces.len() == 0 {
        None
    } else if names_component(pieces.last()) {
        Some(pieces.last())
    } else {
        last_named(pieces.drop_last())
    }
}

/// A path's file name: its last component, unless that is `..`.
pub open spec fn file_name(s: Seq<char>) -> Option<Seq<char>> {
    match last_named(path_pieces(s)) {
        Some(n) => if n == ".."@ {
            None
        } else {
            Some(n)
        },
        None => None,
    }
}

/// Where the last `.` of `s` is, if it has one.
pub open spec fn last_dot(s: Seq<char>) -> Option<int>
    decreases s.len(),
{
    if s.len() == 0 {
        None
    } else if s.last() == '.' {
        Some(s.len() - 1)
    } else {
        last_dot(s.drop_last())
    }
}

/// A file name's extension: what follows its last dot, when that dot
/// does not begin the name.
pub open spec fn extension(name: Seq<char>) -> Option<Seq<char>> {
    match last_dot(name) {
        Some(i) => if i == 0 {
            None
        } else {
            Some(name.skip(i + 1))
        },
        None => None,
    }
}

/// A path a `rust-file` answer may name: relative (it does not begin at
/// the root), with no `..` piece, and whose file name has the extension
/// `rs` (paths as on Unix).
pub open spec fn project_rust_path(s: Seq<char>) -> bool {
    &&& !(s.len() > 0 && s[0] == '/')
    &&& !path_pieces(s).contains(".."@)
    &&& file_name(s) matches Some(n) && extension(n) == Some("rs"@)
}

fn split_all(s: &Vec<char>, sep: char) -> (out: Vec<Vec<char>>)
    ensures
        out@.map_values(|v: Vec<char>| v@) == split_on(s@, sep),
{
    let mut out: Vec<Vec<char>> = Vec::new();
    let mut current: Vec<char> = Vec::new();
    let mut i: usize = 0;
    proof {
        lemma_split_on_nonempty(s@.take(0), sep);
        assert(s@.take(0) =~= Seq::<char>::empty());
    }
    while i < s.len()
        invariant
            i <= s@.len(),
            split_on(s@.take(i as int), sep).len() > 0,
            current@ == split_on(s@.take(i as int), sep).last(),
            out@.map_values(|v: Vec<char>| v@) == split_on(s@.take(i as int), sep).drop_last(),
        decreases s.len() - i,
    {
        let ghost t = s@.take(i as int + 1);
        assert(t.drop_last() =~= s@.take(i as int));
        assert(t.last() == s@[i as int]);
        let ghost p = split_on(s@.take(i as int), sep);
        if s[i] == sep {
            let ghost before = out@;
            let ghost piece = current@;
            out.push(current);
            assert(out@.map_values(|v: Vec<char>| v@) =~= before.map_values(|v: Vec<char>| v@).push(piece));
            assert(split_on(t, sep).drop_last() =~= p);
            assert(p =~= p.drop_last().push(p.last()));
            current = Vec::new();
        } else {
            current.push(s[i]);
            assert(split_on(t, sep).drop_last() =~= p.drop_last());
        }
        i = i + 1;
    }
    assert(s@.take(i as int) =~= s@);
    let ghost p = split_on(s@, sep);
    let ghost before = out@;
    let ghost piece = current@;
    out.push(current);
    assert(out@.map_values(|v: Vec<char>| v@) =~= before.map_values(|v: Vec<char>| v@).push(piece));
    assert(p =~= p.drop_last().push(p.last()));
    out
}

fn chars_equal(a: &Vec<char>, b: &Vec<char>) -> (r: bool)
    ensures
        r == (a@ == b@),
{
    if a.len() != b.len() {
        return false;
    }
    let mut i: usize = 0;
    while i < a.len()
        invariant
            a@.len() == b@.len(),
            i <= a@.len(),
            forall|k: int| 0 <= k < i ==> a@[k] == b@[k],
        decreases a.len() - i,
    {
        if a[i] != b[i] {
            return false;
        }
        i = i + 1;
    }
    assert(a@ =~= b@);
    true
}

fn is_parent_piece(p: &Vec<char>) -> (r: bool)
    ensures
        r == (p@ == ".."@),
{
    proof {
        reveal_strlit("..");
    }
    let r = p.len() == 2 && p[0] == '.' && p[1] == '.';
    if r {
        assert(p@ =~= ".."@);
    }
    r
}

fn names_component_exec(p: &Vec<char>) -> (r: bool)
    ensures
        r == names_component(p@),
{
    proof {
        reveal_strlit(".");
    }
    let r = p.len() > 0 && !(p.len() == 1 && p[0] == '.');
    if p.len() == 1 && p[0] == '.' {
        assert(p@ =~= "."@);
    }
    r
}

/// Whether `relative` is a path a `rust-file` answer may name (see
/// `project_rust_path`).
pub fn is_project_rust_path(relative: &str) -> (r: bool)
    ensures
        r == project_rust_path(relative@),
{
    proof {
        reveal_strlit("rs");
    }
    let chars = chars_of(relative);
    if chars.len() > 0 && chars[0] == '/' {
        return false;
    }
    let pieces = split_all(&chars, '/');
    let ghost pv = pieces@.map_values(|v: Vec<char>| v@);
    let mut k: usize = 0;
    while k < pieces.len()
        invariant
            k <= pieces@.len(),
            pv == pieces@.map_values(|v: Vec<char>| v@),
            pv == path_pieces(relative@),
            forall|j: int| 0 <= j < k ==> pv[j] != ".."@,
        decreases pieces.len() - k,
    {
        assert(pv[k as int] == pieces@[k as int]@);
        if is_parent_piece(&pieces[k]) {
            assert(pv.contains(".."@));
            return false;
        }
        k = k + 1;
    }
    assert(!pv.contains(".."@)) by {
        if pv.contains(".."@) {
            let j = choose|j: int| 0 <= j < pv.len() && pv[j] == ".."@;
            assert(pv[j] != ".."@);
        }
    }
    let mut n: usize = pieces.len();
    assert(pv.take(n as int) =~= pv);
    while n > 0 && !names_component_exec(&pieces[n - 1])
        invariant
            n <= pieces@.len(),
            pv == pieces@.map_values(|v: Vec<char>| v@),
            last_named(pv) == last_named(pv.take(n as int)),
        decreases n,
    {
        assert(pv.take(n as int).drop_last() =~= pv.take(n as int - 1));
        assert(pv.take(n as int).last() == pieces@[n - 1]@);
        n = n - 1;
    }
    if n == 0 {
        return false;
    }
    assert(pv.take(n as int).last() == pieces@[n - 1]@);
    let name = &pieces[n - 1];
    let mut d: usize = name.len();
    assert(name@.take(d as int) =~= name@);
    while d > 0 && name[d - 1] != '.'
        invariant
            d <= name@.len(),
            last_dot(name@) == last_dot(name@.take(d as int)),
        decreases d,
    {
        assert(name@.take(d as int).drop_last() =~= name@.take(d as int - 1));
        d = d - 1;
    }
    if d <= 1 {
        if d == 1 {
            assert(name@.take(1).last() == '.');
        }
        return false;
    }
    assert(name@.take(d as int).last() == '.');
    let dot = d - 1;
    let ok = name.len() - dot == 3 && name[dot + 1] == 'r' && name[dot + 2] == 's';
    if ok {
        assert(name@.skip(dot as int + 1) =~= "rs"@);
    } else {
        assert(name@.skip(dot as int + 1) != "rs"@) by {
            if name@.skip(dot as int + 1) == "rs"@ {
                assert(name@.skip(dot as int + 1).len() == 2);
                assert(name@.skip(dot as int + 1)[0] == 'r');
                assert(name@.skip(dot as int + 1)[1] == 's');
            }
        }
    }
    ok
}

/// The pieces that name components, in order.
pub open spec fn named_pieces(pieces: Seq<Seq<char>>) -> Seq<Seq<char>>
    decreases pieces.len(),
{
    if pieces.len() == 0 {
        Seq::empty()
    } else if names_component(pieces.last()) {
        named_pieces(pieces.drop_last()).push(pieces.last())
    } else {
        named_pieces(pieces.drop_last())
    }
}

/// A path's components: the root (written `/`) when it begins with a
/// slash, else `.` when its first piece is `.`; then the pieces that name
/// components (paths as on Unix).
pub open spec fn components(s: Seq<char>) -> Seq<Seq<char>> {
    let lead = if s.len() > 0 && s[0] == '/' {
        seq!["/"@]
    } else if path_pieces(s)[0] == "."@ {
        seq!["."@]
    } else {
        Seq::empty()
    };
    lead + named_pieces(path_pieces(s))
}

/// `path` begins with the components of `base`.
pub open spec fn path_starts_with(path: Seq<char>, base: Seq<char>) -> bool {
    let p = components(path);
    let b = components(base);
    b.len() <= p.len() && p.take(b.len() as int) == b
}

fn components_of(s: &str) -> (out: Vec<Vec<char>>)
    ensures
        out@.map_values(|v: Vec<char>| v@) == components(s@),
{
    proof {
        reveal_strlit("/");
        reveal_strlit(".");
        lemma_split_on_nonempty(s@, '/');
    }
    let chars = chars_of(s);
    let pieces = split_all(&chars, '/');
    let ghost pv = pieces@.map_values(|v: Vec<char>| v@);
    assert(pv[0] == pieces@[0]@);
    let mut out: Vec<Vec<char>> = Vec::new();
    if chars.len() > 0 && chars[0] == '/' {
        let mut root: Vec<char> = Vec::new();
        root.push('/');
        assert(root@ =~= "/"@);
        out.push(root);
        assert(out@.map_values(|v: Vec<char>| v@) =~= seq!["/"@]);
    } else if pieces[0].len() == 1 && pieces[0][0] == '.' {
        let mut here: Vec<char> = Vec::new();
        here.push('.');
        assert(here@ =~= "."@);
        out.push(here);
        assert(pv[0] =~= "."@);
        assert(out@.map_values(|v: Vec<char>| v@) =~= seq!["."@]);
    } else {
        assert(pv[0] != "."@) by {
            if pv[0] == "."@ {
                assert(pv[0].len() == 1 && pv[0][0] == '.');
            }
        }
        assert(out@.map_values(|v: Vec<char>| v@) =~= Seq::<Seq<char>>::empty());
    }
    let ghost lead = out@.map_values(|v: Vec<char>| v@);
    let mut k: usize = 0;
    assert(pv.take(0) =~= Seq::<Seq<char>>::empty());
    while k < pieces.len()
        invariant
            k <= pieces@.len(),
            pv == pieces@.map_values(|v: Vec<char>| v@),
            out@.map_values(|v: Vec<char>| v@) == lead + named_pieces(pv.take(k as int)),
        decreases pieces.len() - k,
    {
        assert(pv.take(k as int + 1).drop_last() =~= pv.take(k as int));
        assert(pv.take(k as int + 1).last() == pieces@[k as int]@);
        if names_component_exec(&pieces[k]) {
            let ghost before = out@;
            let piece = pieces[k].clone();
            out.push(piece);
            assert(out@.map_values(|v: Vec<char>| v@) =~= before.map_values(|v: Vec<char>| v@).push(pv[k as int]));
        }
        k = k + 1;
    }
    assert(pv.take(k as int) =~= pv);
    out
}

fn starts_with_components(path: &Vec<Vec<char>>, base: &Vec<Vec<char>>) -> (r: bool)
    ensures
        r == ({
            let p = path@.map_values(|v: Vec<char>| v@);
            let b = base@.map_values(|v: Vec<char>| v@);
            b.len() <= p.len() && p.take(b.len() as int) == b
        }),
{
    let ghost p = path@.map_values(|v: Vec<char>| v@);
    let ghost b = base@.map_values(|v: Vec<char>| v@);
    if base.len() > path.len() {
        return false;
    }
    let mut i: usize = 0;
    while i < base.len()
        invariant
            i <= base@.len() <= path@.len(),
            p == path@.map_values(|v: Vec<char>| v@),
            b == base@.map_values(|v: Vec<char>| v@),
            forall|k: int| 0 <= k < i ==> p[k] == b[k],
        decreases base.len() - i,
    {
        if !chars_equal(&path[i], &base[i]) {
            assert(p.take(b.len() as int)[i as int] != b[i as int]);
            return false;
        }
        i = i + 1;
    }
    assert(p.take(b.len() as int) =~= b);
    true
}

/// The answer lies under one of the scan roots `includes`.
pub open spec fn within_some_include(relative: Seq<char>, includes: Seq<String>) -> bool {
    exists|i: int| 0 <= i < includes.len() && path_starts_with(relative, (#[trigger] includes[i])@)
}

/// The shape a `rust-file` answer must have (see `project_rust_path`);
/// otherwise an `E-OP-001` error naming it.
pub fn check_rust_file_path(relative: &str) -> (r: Result<(), Diagnostic>)
    ensures
        if project_rust_path(relative@) {
            r is Ok
        } else {
            r matches Err(d) && d.code@ == "E-OP-001"@ && d.severity == DiagnosticSeverity::Error && d.message@
                == "Rust file must be a project-relative .rs path: `"@ + relative@ + "`"@
        },
{
    if is_project_rust_path(relative) {
        Ok(())
    } else {
        Err(Diagnostic::error("E-OP-001", quoted("Rust file must be a project-relative .rs path: `", relative, "`")))
    }
}

/// A `rust-file` answer must lie under the scan roots of the registered
/// adapters, `includes`; otherwise an `E-OP-001` error naming it.
pub fn check_rust_file_scope(relative: &str, includes: &Vec<String>) -> (r: Result<(), Diagnostic>)
    ensures
        if within_some_include(relative@, includes@) {
            r is Ok
        } else {
            r matches Err(d) && d.code@ == "E-OP-001"@ && d.severity == DiagnosticSeverity::Error && d.message@
                == "Rust file is outside every registered adapter's scan.include: `"@ + relative@ + "`"@
        },
{
    let path = components_of(relative);
    let mut i: usize = 0;
    while i < includes.len()
        invariant
            i <= includes@.len(),
            path@.map_values(|v: Vec<char>| v@) == components(relative@),
            forall|k: int| 0 <= k < i ==> !path_starts_with(relative@, (#[trigger] includes@[k])@),
        decreases includes.len() - i,
    {
        let base = components_of(includes[i].as_str());
        if starts_with_components(&path, &base) {
            assert(path_starts_with(relative@, includes@[i as int]@));
            return Ok(());
        }
        i = i + 1;
    }
    Err(
        Diagnostic::error(
            "E-OP-001",
            quoted("Rust file is outside every registered adapter's scan.include: `", relative, "`"),
        ),
    )
}

} // verus!
