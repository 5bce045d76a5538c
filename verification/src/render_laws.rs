//! What the annotation lines of a structured edit declare, read back the
//! way the scan reads doc comments.

use vstd::prelude::*;

use crate::annotations::{annotation_of, declarations, doc_lines, first_white_space, marker};
use crate::desired::{texts, DesiredTest};
use crate::forms::{is_white_space, nonblank_trimmed, split_on, trim, trim_end, trim_start};
use crate::scan_documents::join_with;
use crate::test_render::{annotation_lines, optional_line, prefixed_lines};

verus! {

/// A key an annotation line can carry: not empty, without white space.
pub open spec fn plain_key(k: Seq<char>) -> bool {
    k.len() > 0 && forall|i: int| 0 <= i < k.len() ==> !is_white_space(#[trigger] k[i])
}

/// A value an annotation line carries back unchanged: without a newline,
/// and without white space at either end.
pub open spec fn clean_value(v: Seq<char>) -> bool {
    trim(v) == v && forall|i: int| 0 <= i < v.len() ==> #[trigger] v[i] != '\n'
}

/// The doc text of an annotation `key value`: what follows `///`.
pub open spec fn declaration_text(key: Seq<char>, value: Seq<char>) -> Seq<char> {
    seq![' '] + marker() + key + seq![' '] + value
}

proof fn lemma_trim_start_after_space(s: Seq<char>)
    ensures
        trim_start(seq![' '] + s) == trim_start(s),
{
    let t = seq![' '] + s;
    assert(t.drop_first() =~= s);
}

proof fn lemma_trim_end_keeps(a: Seq<char>, b: Seq<char>)
    requires
        b.len() > 0,
        !is_white_space(b.last()),
    ensures
        trim_end(a + b) == a + b,
{
    assert((a + b).last() == b.last());
}

proof fn lemma_trim_end_drops_space(a: Seq<char>)
    requires
        a.len() > 0,
        !is_white_space(a.last()),
    ensures
        trim_end(a + seq![' ']) == a,
{
    let t = a + seq![' '];
    assert(t.drop_last() =~= a);
    lemma_trim_end_keeps(Seq::empty(), a);
    assert(Seq::<char>::empty() + a =~= a);
}

proof fn lemma_first_white_space_after_key(k: Seq<char>, rest: Seq<char>)
    requires
        forall|i: int| 0 <= i < k.len() ==> !is_white_space(#[trigger] k[i]),
        rest.len() == 0 || is_white_space(rest[0]),
    ensures
        first_white_space(k + rest) == k.len(),
    decreases k.len(),
{
    if k.len() == 0 {
        assert(k + rest =~= rest);
    } else {
        assert((k + rest)[0] == k[0]);
        assert((k + rest).drop_first() =~= k.drop_first() + rest);
        assert forall|i: int| 0 <= i < k.drop_first().len() implies !is_white_space(#[trigger] k.drop_first()[i]) by {
            assert(k.drop_first()[i] == k[i + 1]);
        }
        lemma_first_white_space_after_key(k.drop_first(), rest);
    }
}

proof fn lemma_split_without_newline(t: Seq<char>)
    requires
        forall|i: int| 0 <= i < t.len() ==> #[trigger] t[i] != '\n',
    ensures
        split_on(t, '\n') == seq![t],
    decreases t.len(),
{
    if t.len() > 0 {
        assert forall|i: int| 0 <= i < t.drop_last().len() implies #[trigger] t.drop_last()[i] != '\n' by {
            assert(t.drop_last()[i] == t[i]);
        }
        lemma_split_without_newline(t.drop_last());
        assert(t.drop_last().push(t.last()) =~= t);
    } else {
        assert(t =~= Seq::<char>::empty());
    }
}

proof fn lemma_clean_ends(v: Seq<char>)
    requires
        trim(v) == v,
        v.len() > 0,
    ensures
        !is_white_space(v[0]),
        !is_white_space(v.last()),
{
    if is_white_space(v[0]) {
        assert(trim_start(v) == trim_start(v.drop_first()));
        lemma_trim_shorter(v.drop_first());
        assert(trim(v).len() <= v.drop_first().len());
    }
    assert(trim_start(v) == v);
    if is_white_space(v.last()) {
        assert(trim_end(v) == trim_end(v.drop_last()));
        lemma_trim_end_shorter(v.drop_last());
    }
}

proof fn lemma_trim_shorter(s: Seq<char>)
    ensures
        trim(s).len() <= s.len(),
        trim_start(s).len() <= s.len(),
    decreases s.len(),
{
    if s.len() > 0 && is_white_space(s[0]) {
        lemma_trim_shorter(s.drop_first());
    }
    lemma_trim_end_shorter(trim_start(s));
}

proof fn lemma_trim_end_shorter(s: Seq<char>)
    ensures
        trim_end(s).len() <= s.len(),
    decreases s.len(),
{
    if s.len() > 0 && is_white_space(s.last()) {
        lemma_trim_end_shorter(s.drop_last());
    }
}

/// A plain key trims to itself.
proof fn lemma_plain_key_trimmed(k: Seq<char>)
    requires
        plain_key(k),
    ensures
        trim(k) == k,
{
    assert(!is_white_space(k[0]));
    assert(trim_start(k) == k);
    assert(!is_white_space(k[k.len() - 1]));
}

/// One annotation line, read back: its doc text is one line, which
/// declares the key with the value.
proof fn lemma_declaration_read_back(k: Seq<char>, v: Seq<char>)
    requires
        plain_key(k),
        clean_value(v),
    ensures
        ({
            let t = declaration_text(k, v);
            let lines = nonblank_trimmed(split_on(t, '\n'));
            lines.len() == 1 && annotation_of(lines[0]) == Some((k, v))
        }),
{
    let t = declaration_text(k, v);
    let m = marker();
    assert forall|i: int| 0 <= i < t.len() implies #[trigger] t[i] != '\n' by {
        if i == 0 {
        } else if i < 8 {
            assert(t[i] == m[i - 1]);
        } else if i < 8 + k.len() {
            assert(t[i] == k[i - 8]);
            assert(!is_white_space(k[i - 8]));
        } else if i == 8 + k.len() {
        } else {
            assert(t[i] == v[i - 9 - k.len()]);
        }
    }
    lemma_split_without_newline(t);
    let body = m + k + seq![' '] + v;
    assert(t =~= seq![' '] + body);
    lemma_trim_start_after_space(body);
    assert(!is_white_space(body[0]));
    assert(trim_start(body) == body);
    let line = if v.len() > 0 {
        body
    } else {
        m + k
    };
    if v.len() > 0 {
        lemma_clean_ends(v);
        lemma_trim_end_keeps(m + k + seq![' '], v);
        assert(m + k + seq![' '] + v =~= body);
    } else {
        assert(body =~= (m + k) + seq![' ']);
        assert((m + k).last() == k.last());
        lemma_trim_end_drops_space(m + k);
    }
    assert(trim(t) == line);
    assert(line.len() >= 7);
    assert(nonblank_trimmed(seq![t]) =~= seq![line]) by {
        assert(seq![t].drop_last() =~= Seq::<Seq<char>>::empty());
        assert(seq![t].last() == t);
        assert(nonblank_trimmed(Seq::<Seq<char>>::empty()) =~= Seq::<Seq<char>>::empty());
        assert(trim(t).len() > 0);
    }
    assert(line.take(7) =~= m);
    let a = line.skip(7);
    lemma_plain_key_trimmed(k);
    if v.len() > 0 {
        assert(a =~= k + (seq![' '] + v));
        lemma_first_white_space_after_key(k, seq![' '] + v);
        assert(a.take(k.len() as int) =~= k);
        assert(a.skip(k.len() as int) =~= seq![' '] + v);
        lemma_trim_start_after_space(v);
    } else {
        assert(a =~= k + Seq::<char>::empty());
        lemma_first_white_space_after_key(k, Seq::empty());
        assert(a.take(k.len() as int) =~= k);
        assert(a.skip(k.len() as int) =~= Seq::<char>::empty());
        assert(trim(Seq::<char>::empty()) =~= Seq::<char>::empty());
    }
}

/// Declarations written as doc texts, read back, are the same
/// declarations.
proof fn lemma_declarations_read_back(pairs: Seq<(Seq<char>, Seq<char>)>)
    requires
        forall|i: int| 0 <= i < pairs.len() ==> plain_key(#[trigger] pairs[i].0) && clean_value(pairs[i].1),
    ensures
        declarations(doc_lines(declaration_texts(pairs))) == pairs,
    decreases pairs.len(),
{
    let ts = declaration_texts(pairs);
    if pairs.len() == 0 {
        assert(ts =~= Seq::<Seq<char>>::empty());
        assert(doc_lines(ts) =~= Seq::<Seq<char>>::empty());
        assert(declarations(Seq::<Seq<char>>::empty()) =~= pairs);
    } else {
        let front = pairs.drop_last();
        assert forall|i: int| 0 <= i < front.len() implies plain_key(#[trigger] front[i].0) && clean_value(front[i].1) by {
            assert(front[i] == pairs[i]);
        }
        lemma_declarations_read_back(front);
        assert(ts.drop_last() =~= declaration_texts(front));
        let last = pairs.last();
        lemma_declaration_read_back(last.0, last.1);
        let line = nonblank_trimmed(split_on(ts.last(), '\n'))[0];
        assert(nonblank_trimmed(split_on(ts.last(), '\n')) =~= seq![line]);
        let earlier = doc_lines(ts.drop_last());
        assert(doc_lines(ts) == earlier + seq![line]);
        assert((earlier + seq![line]).drop_last() =~= earlier);
        assert((earlier + seq![line]).last() == line);
        assert(declarations(doc_lines(ts)) =~= front.push(last));
        assert(front.push(last) =~= pairs);
    }
}

/// Each value with the key `k`, in order.
pub open spec fn keyed(k: Seq<char>, values: Seq<Seq<char>>) -> Seq<(Seq<char>, Seq<char>)> {
    values.map_values(|v: Seq<char>| (k, v))
}

/// The key `k` with the value, when there is one.
pub open spec fn optional_pair(k: Seq<char>, value: Option<String>) -> Seq<(Seq<char>, Seq<char>)> {
    match value {
        Some(v) => seq![(k, v@)],
        None => Seq::empty(),
    }
}

/// The declarations the annotation lines of a desired state make, in
/// order: `id`, `covers` (the ids joined by commas), each `target`,
/// `intent`, the `input`, `expect` and `kind` that are given, each `case`
/// and each `related`.
pub open spec fn desired_declarations(d: DesiredTest) -> Seq<(Seq<char>, Seq<char>)> {
    seq![("id"@, d.id@), ("covers"@, join_with(texts(d.covers@), ","@))] + keyed("target"@, texts(d.targets@))
        + seq![("intent"@, d.intent@)] + optional_pair("input"@, d.input) + optional_pair("expect"@, d.expect)
        + optional_pair("kind"@, d.kind) + keyed("case"@, texts(d.cases@)) + keyed("related"@, texts(d.related@))
}

/// Every value of a desired state is clean (see `clean_value`).
pub open spec fn clean_state(d: DesiredTest) -> bool {
    &&& clean_value(d.id@)
    &&& clean_value(join_with(texts(d.covers@), ","@))
    &&& forall|i: int| 0 <= i < d.targets@.len() ==> clean_value((#[trigger] d.targets@[i])@)
    &&& clean_value(d.intent@)
    &&& (d.input matches Some(v) ==> clean_value(v@))
    &&& (d.expect matches Some(v) ==> clean_value(v@))
    &&& (d.kind matches Some(v) ==> clean_value(v@))
    &&& forall|i: int| 0 <= i < d.cases@.len() ==> clean_value((#[trigger] d.cases@[i])@)
    &&& forall|i: int| 0 <= i < d.related@.len() ==> clean_value((#[trigger] d.related@[i])@)
}

/// The doc text of a `///` line: what follows the slashes.
pub open spec fn doc_text(line: Seq<char>) -> Seq<char> {
    line.skip(3)
}

/// The doc texts of `///` lines.
pub open spec fn doc_texts(lines: Seq<Seq<char>>) -> Seq<Seq<char>> {
    lines.map_values(|l: Seq<char>| doc_text(l))
}

/// Declarations written as doc texts.
pub open spec fn declaration_texts(pairs: Seq<(Seq<char>, Seq<char>)>) -> Seq<Seq<char>> {
    pairs.map_values(|p: (Seq<char>, Seq<char>)| declaration_text(p.0, p.1))
}

proof fn lemma_doc_texts_join(a: Seq<Seq<char>>, b: Seq<Seq<char>>)
    ensures
        doc_texts(a + b) == doc_texts(a) + doc_texts(b),
{
    assert(doc_texts(a + b) =~= doc_texts(a) + doc_texts(b));
}

proof fn lemma_declaration_texts_join(a: Seq<(Seq<char>, Seq<char>)>, b: Seq<(Seq<char>, Seq<char>)>)
    ensures
        declaration_texts(a + b) == declaration_texts(a) + declaration_texts(b),
{
    assert(declaration_texts(a + b) =~= declaration_texts(a) + declaration_texts(b));
}

proof fn lemma_line_shape(lit: Seq<char>, k: Seq<char>, v: Seq<char>)
    requires
        lit =~= seq!['/', '/', '/', ' '] + marker() + k + seq![' '],
    ensures
        doc_text(lit + v) == declaration_text(k, v),
{
    assert(doc_text(lit + v) =~= declaration_text(k, v));
}

proof fn lemma_lines_shape(lit: Seq<char>, k: Seq<char>, items: Seq<String>)
    requires
        lit =~= seq!['/', '/', '/', ' '] + marker() + k + seq![' '],
    ensures
        doc_texts(prefixed_lines(lit, items)) == declaration_texts(keyed(k, texts(items))),
{
    let a = doc_texts(prefixed_lines(lit, items));
    let b = declaration_texts(keyed(k, texts(items)));
    assert forall|i: int| 0 <= i < items.len() implies #[trigger] a[i] == b[i] by {
        lemma_line_shape(lit, k, items[i]@);
    }
    assert(a =~= b);
}

proof fn lemma_optional_shape(lit: Seq<char>, k: Seq<char>, value: Option<String>)
    requires
        lit =~= seq!['/', '/', '/', ' '] + marker() + k + seq![' '],
    ensures
        doc_texts(optional_line(lit, value)) == declaration_texts(optional_pair(k, value)),
{
    match value {
        Some(v) => {
            lemma_line_shape(lit, k, v@);
            assert(doc_texts(optional_line(lit, value)) =~= declaration_texts(optional_pair(k, value)));
        },
        None => {
            assert(doc_texts(optional_line(lit, value)) =~= declaration_texts(optional_pair(k, value)));
        },
    }
}

/// Every declaration has a plain key and a clean value.
pub open spec fn readable(pairs: Seq<(Seq<char>, Seq<char>)>) -> bool {
    forall|i: int| 0 <= i < pairs.len() ==> plain_key(#[trigger] pairs[i].0) && clean_value(pairs[i].1)
}

proof fn lemma_readable_join(a: Seq<(Seq<char>, Seq<char>)>, b: Seq<(Seq<char>, Seq<char>)>)
    requires
        readable(a),
        readable(b),
    ensures
        readable(a + b),
{
    assert forall|i: int| 0 <= i < (a + b).len() implies plain_key(#[trigger] (a + b)[i].0) && clean_value(
        (a + b)[i].1,
    ) by {
        if i < a.len() {
            assert((a + b)[i] == a[i]);
        } else {
            assert((a + b)[i] == b[i - a.len()]);
        }
    }
}

proof fn lemma_keyed_readable(k: Seq<char>, values: Seq<Seq<char>>)
    requires
        plain_key(k),
        forall|i: int| 0 <= i < values.len() ==> clean_value(#[trigger] values[i]),
    ensures
        readable(keyed(k, values)),
{
    assert forall|i: int| 0 <= i < keyed(k, values).len() implies plain_key(#[trigger] keyed(k, values)[i].0)
        && clean_value(keyed(k, values)[i].1) by {
        assert(keyed(k, values)[i] == (k, values[i]));
    }
}

/// The annotation lines a structured edit writes for a desired state
/// declare that state when the scan reads them back: the doc texts of the
/// lines (what follows `///`), read as doc comments, make the declarations
/// `desired_declarations(d)`, in order, provided no value has a newline or
/// white space at either end (`clean_state`).
pub proof fn lemma_annotation_lines_read_back(d: DesiredTest)
    requires
        clean_state(d),
    ensures
        declarations(doc_lines(doc_texts(annotation_lines(d)))) == desired_declarations(d),
{
    reveal(annotation_lines);
    reveal_strlit("/// @vtest.id ");
    reveal_strlit("/// @vtest.covers ");
    reveal_strlit("/// @vtest.target ");
    reveal_strlit("/// @vtest.intent ");
    reveal_strlit("/// @vtest.input ");
    reveal_strlit("/// @vtest.expect ");
    reveal_strlit("/// @vtest.kind ");
    reveal_strlit("/// @vtest.case ");
    reveal_strlit("/// @vtest.related ");
    reveal_strlit("id");
    reveal_strlit("covers");
    reveal_strlit("target");
    reveal_strlit("intent");
    reveal_strlit("input");
    reveal_strlit("expect");
    reveal_strlit("kind");
    reveal_strlit("case");
    reveal_strlit("related");
    lemma_line_shape("/// @vtest.id "@, "id"@, d.id@);
    lemma_line_shape("/// @vtest.covers "@, "covers"@, join_with(texts(d.covers@), ","@));
    lemma_lines_shape("/// @vtest.target "@, "target"@, d.targets@);
    lemma_line_shape("/// @vtest.intent "@, "intent"@, d.intent@);
    lemma_optional_shape("/// @vtest.input "@, "input"@, d.input);
    lemma_optional_shape("/// @vtest.expect "@, "expect"@, d.expect);
    lemma_optional_shape("/// @vtest.kind "@, "kind"@, d.kind);
    lemma_lines_shape("/// @vtest.case "@, "case"@, d.cases@);
    lemma_lines_shape("/// @vtest.related "@, "related"@, d.related@);
    let decls = desired_declarations(d);
    let l0 = seq!["/// @vtest.id "@ + d.id@, "/// @vtest.covers "@ + join_with(texts(d.covers@), ","@)];
    let q0 = seq![("id"@, d.id@), ("covers"@, join_with(texts(d.covers@), ","@))];
    assert(doc_texts(l0) =~= declaration_texts(q0));
    let l1 = prefixed_lines("/// @vtest.target "@, d.targets@);
    let q1 = keyed("target"@, texts(d.targets@));
    let l2 = seq!["/// @vtest.intent "@ + d.intent@];
    let q2 = seq![("intent"@, d.intent@)];
    assert(doc_texts(l2) =~= declaration_texts(q2));
    let l3 = optional_line("/// @vtest.input "@, d.input);
    let q3 = optional_pair("input"@, d.input);
    let l4 = optional_line("/// @vtest.expect "@, d.expect);
    let q4 = optional_pair("expect"@, d.expect);
    let l5 = optional_line("/// @vtest.kind "@, d.kind);
    let q5 = optional_pair("kind"@, d.kind);
    let l6 = prefixed_lines("/// @vtest.case "@, d.cases@);
    let q6 = keyed("case"@, texts(d.cases@));
    let l7 = prefixed_lines("/// @vtest.related "@, d.related@);
    let q7 = keyed("related"@, texts(d.related@));
    assert(annotation_lines(d) == l0 + l1 + l2 + l3 + l4 + l5 + l6 + l7);
    assert(decls == q0 + q1 + q2 + q3 + q4 + q5 + q6 + q7);
    lemma_doc_texts_join(l0, l1);
    lemma_declaration_texts_join(q0, q1);
    lemma_doc_texts_join(l0 + l1, l2);
    lemma_declaration_texts_join(q0 + q1, q2);
    lemma_doc_texts_join(l0 + l1 + l2, l3);
    lemma_declaration_texts_join(q0 + q1 + q2, q3);
    lemma_doc_texts_join(l0 + l1 + l2 + l3, l4);
    lemma_declaration_texts_join(q0 + q1 + q2 + q3, q4);
    lemma_doc_texts_join(l0 + l1 + l2 + l3 + l4, l5);
    lemma_declaration_texts_join(q0 + q1 + q2 + q3 + q4, q5);
    lemma_doc_texts_join(l0 + l1 + l2 + l3 + l4 + l5, l6);
    lemma_declaration_texts_join(q0 + q1 + q2 + q3 + q4 + q5, q6);
    lemma_doc_texts_join(l0 + l1 + l2 + l3 + l4 + l5 + l6, l7);
    lemma_declaration_texts_join(q0 + q1 + q2 + q3 + q4 + q5 + q6, q7);
    assert(doc_texts(annotation_lines(d)) == declaration_texts(decls));
    lemma_keyed_readable("target"@, texts(d.targets@));
    lemma_keyed_readable("case"@, texts(d.cases@));
    lemma_keyed_readable("related"@, texts(d.related@));
    assert(readable(seq![("id"@, d.id@), ("covers"@, join_with(texts(d.covers@), ","@))]));
    assert(readable(seq![("intent"@, d.intent@)]));
    assert(readable(optional_pair("input"@, d.input)));
    assert(readable(optional_pair("expect"@, d.expect)));
    assert(readable(optional_pair("kind"@, d.kind)));
    lemma_readable_join(
        seq![("id"@, d.id@), ("covers"@, join_with(texts(d.covers@), ","@))],
        keyed("target"@, texts(d.targets@)),
    );
    let p1 = seq![("id"@, d.id@), ("covers"@, join_with(texts(d.covers@), ","@))] + keyed("target"@, texts(d.targets@));
    lemma_readable_join(p1, seq![("intent"@, d.intent@)]);
    let p2 = p1 + seq![("intent"@, d.intent@)];
    lemma_readable_join(p2, optional_pair("input"@, d.input));
    let p3 = p2 + optional_pair("input"@, d.input);
    lemma_readable_join(p3, optional_pair("expect"@, d.expect));
    let p4 = p3 + optional_pair("expect"@, d.expect);
    lemma_readable_join(p4, optional_pair("kind"@, d.kind));
    let p5 = p4 + optional_pair("kind"@, d.kind);
    lemma_readable_join(p5, keyed("case"@, texts(d.cases@)));
    let p6 = p5 + keyed("case"@, texts(d.cases@));
    lemma_readable_join(p6, keyed("related"@, texts(d.related@)));
    assert(p6 + keyed("related"@, texts(d.related@)) == decls);
    lemma_declarations_read_back(decls);
}

} // verus!
