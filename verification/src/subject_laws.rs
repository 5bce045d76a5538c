//! Laws of the subject hashes: what enters a hash input and what does not.

use vstd::prelude::*;
use vstd::relations::{sorted_by, total_ordering};
use vstd::utf8::encode_utf8;

use crate::document::{SectionNode, SentenceNode};
use crate::encoding::{domain_name, field_encoding, hash_input, sorted_set, Payload, SubjectDomain};
use crate::hash_laws::{
    fields_fit, fits, lemma_encode_utf8_len_bound, lemma_hash_input_injective,
    lemma_sorted_set_order_independent,
};
use crate::normalize::normalized_text;
use crate::order::{lemma_pair_le_total, lemma_sorted_unique};
use crate::subject_hash::{
    combination_bytes, combination_fields, first_occurrences, fragment, fragment_bytes,
    item_children, item_hash_bytes, leaf_fields, referenced_ids, section_hash, section_hash_bytes, subject_hash_of,
    vo_fields, vo_hash, dimension_fields, dimension_bytes, fragment_list,
};
use crate::vo::{
    canonical_keys, pair_key_views, pair_names, pair_order, repeated_names, CombinationEntry, VoRecord,
};
use vstd::std_specs::cmp::PartialEqSpec;

verus! {

broadcast use vstd::seq_lib::group_to_multiset_ensures;

/// Two leaf document nodes have the same hash input exactly when their
/// normalized ids and their normalized statements are the same: nothing
/// else enters, and neither field can stand in for the other.
pub proof fn lemma_leaf_input_determines_id_and_statement(
    id1: Seq<char>,
    statement1: Seq<char>,
    id2: Seq<char>,
    statement2: Seq<char>,
)
    requires
        fits(fragment_bytes(id1).len()),
        fits(fragment_bytes(statement1).len()),
        fits(fragment_bytes(id2).len()),
        fits(fragment_bytes(statement2).len()),
    ensures
        hash_input(encode_utf8(domain_name(SubjectDomain::DocumentSubject)), leaf_fields(id1, statement1))
            == hash_input(encode_utf8(domain_name(SubjectDomain::DocumentSubject)), leaf_fields(id2, statement2))
            <==> (normalized_text(id1) == normalized_text(id2) && normalized_text(statement1)
            == normalized_text(statement2)),
{
    let d = encode_utf8(domain_name(SubjectDomain::DocumentSubject));
    reveal_strlit("vtest:document-subject:v1");
    reveal_strlit("id");
    reveal_strlit("statement");
    lemma_encode_utf8_len_bound(domain_name(SubjectDomain::DocumentSubject));
    lemma_encode_utf8_len_bound("id"@);
    lemma_encode_utf8_len_bound("statement"@);
    assert(fits(d.len()));
    let f1 = leaf_fields(id1, statement1);
    let f2 = leaf_fields(id2, statement2);
    assert(fits(encode_utf8("id"@).len()));
    assert(fits(encode_utf8("statement"@).len()));
    assert(fields_fit(f1));
    assert(fields_fit(f2));
    if hash_input(d, f1) == hash_input(d, f2) {
        lemma_hash_input_injective(d, f1, d, f2);
        assert(f1[0] == f2[0]);
        assert(f1[1] == f2[1]);
        vstd::utf8::encode_utf8_decode_utf8(normalized_text(id1));
        vstd::utf8::encode_utf8_decode_utf8(normalized_text(id2));
        vstd::utf8::encode_utf8_decode_utf8(normalized_text(statement1));
        vstd::utf8::encode_utf8_decode_utf8(normalized_text(statement2));
    }
    if normalized_text(id1) == normalized_text(id2) && normalized_text(statement1) == normalized_text(
        statement2,
    ) {
        assert(f1 =~= f2);
    }
}

/// A section's child sections; an absent list is empty.
pub open spec fn section_children(node: SectionNode) -> Seq<SectionNode> {
    if node.sections is Some {
        node.sections->0@
    } else {
        Seq::empty()
    }
}

/// A section's subject hash depends only on its items and its child
/// sections: its own id, title, description, source and upstream ids do
/// not enter, and an absent list hashes as an empty one.
pub proof fn lemma_section_hash_depends_only_on_children(a: SectionNode, b: SectionNode)
    requires
        item_children(a) == item_children(b),
        section_children(a) == section_children(b),
    ensures
        section_hash(a) == section_hash(b),
{
    assert(section_hash_bytes(Seq::<SectionNode>::empty()) =~= Seq::<Seq<u8>>::empty());
    if a.sections is Some {
        assert(section_children(a) == a.sections->0@);
    }
    if b.sections is Some {
        assert(section_children(b) == b.sections->0@);
    }
}

pub(crate) proof fn lemma_map_values_multiset<A, B>(a: Seq<A>, b: Seq<A>, f: spec_fn(A) -> B)
    requires
        a.to_multiset() =~= b.to_multiset(),
    ensures
        a.map_values(f).to_multiset() =~= b.map_values(f).to_multiset(),
    decreases a.len(),
{
    broadcast use vstd::multiset::group_multiset_axioms;

    if a.len() == 0 {
        assert(b.to_multiset().len() == 0);
        assert(b.len() == 0);
        assert(a.map_values(f) =~= Seq::<B>::empty());
        assert(b.map_values(f) =~= Seq::<B>::empty());
    } else {
        let x = a.last();
        assert(a.contains(x));
        assert(b.to_multiset().count(x) > 0);
        assert(b.contains(x));
        let j = choose|j: int| 0 <= j < b.len() && b[j] == x;
        let a1 = a.drop_last();
        let b1 = b.remove(j);
        assert(a =~= a1.push(x));
        assert(a1.to_multiset() =~= a.to_multiset().remove(x));
        vstd::seq_lib::to_multiset_remove(b, j);
        assert(b1.to_multiset() =~= b.to_multiset().remove(x));
        lemma_map_values_multiset(a1, b1, f);
        assert(a.map_values(f) =~= a1.map_values(f).push(f(x)));
        assert(b.map_values(f) =~= b1.map_values(f).insert(j, f(x)));
        vstd::seq_lib::to_multiset_insert(b1.map_values(f), j, f(x));
    }
}

/// A combination contributes the same bytes whatever the order in which
/// its (dimension, partition) pairs were declared.
pub proof fn lemma_combination_bytes_order_independent(e1: CombinationEntry, e2: CombinationEntry)
    requires
        e1@.to_multiset() =~= e2@.to_multiset(),
    ensures
        combination_bytes(e1) == combination_bytes(e2),
{
    let f = |p: (Seq<char>, Seq<char>)| (encode_utf8(p.0), encode_utf8(p.1));
    lemma_map_values_multiset(e1@, e2@, f);
    assert(pair_key_views(e1@) =~= e1@.map_values(f));
    assert(pair_key_views(e2@) =~= e2@.map_values(f));
    lemma_pair_le_total();
    assert(pair_order() =~= (|a: (Seq<u8>, Seq<u8>), b: (Seq<u8>, Seq<u8>)| crate::order::pair_le(a, b)));
    pair_key_views(e1@).lemma_sort_by_ensures(pair_order());
    pair_key_views(e2@).lemma_sort_by_ensures(pair_order());
    lemma_sorted_unique(canonical_keys(e1@), canonical_keys(e2@), pair_order());
    assert(combination_fields(e1@) =~= combination_fields(e2@));
}

pub(crate) proof fn lemma_first_occurrences_no_dup(items: Seq<Seq<u8>>)
    ensures
        first_occurrences(items).no_duplicates(),
{
    lemma_first_occurrences(items);
}

pub(crate) proof fn lemma_first_occurrences_members(items: Seq<Seq<u8>>)
    ensures
        forall|x: Seq<u8>| first_occurrences(items).contains(x) <==> items.contains(x),
{
    lemma_first_occurrences(items);
}

proof fn lemma_first_occurrences(items: Seq<Seq<u8>>)
    ensures
        first_occurrences(items).no_duplicates(),
        forall|x: Seq<u8>| first_occurrences(items).contains(x) <==> items.contains(x),
    decreases items.len(),
{
    if items.len() > 0 {
        let rest = items.drop_last();
        lemma_first_occurrences(rest);
        assert forall|x: Seq<u8>| items.contains(x) <==> rest.contains(x) || x == items.last() by {
            if items.contains(x) {
                let i = choose|i: int| 0 <= i < items.len() && items[i] == x;
                if i < items.len() - 1 {
                    assert(rest[i] == x);
                }
            }
            if rest.contains(x) {
                let i = choose|i: int| 0 <= i < rest.len() && rest[i] == x;
                assert(items[i] == x);
            }
            if x == items.last() {
                assert(items[items.len() - 1] == x);
            }
        }
        let e = first_occurrences(rest);
        if !e.contains(items.last()) {
            let p = e.push(items.last());
            assert forall|x: Seq<u8>| p.contains(x) <==> e.contains(x) || x == items.last() by {
                if p.contains(x) {
                    let i = choose|i: int| 0 <= i < p.len() && p[i] == x;
                    if i < e.len() {
                        assert(e[i] == x);
                    }
                }
                if e.contains(x) {
                    let i = choose|i: int| 0 <= i < e.len() && e[i] == x;
                    assert(p[i] == x);
                }
                if x == items.last() {
                    assert(p[e.len() as int] == x);
                }
            }
            assert forall|i: int, j: int| 0 <= i < p.len() && 0 <= j < p.len() && i != j implies p[i]
                != p[j] by {
                if i == e.len() {
                    assert(p[j] == e[j]);
                } else if j == e.len() {
                    assert(p[i] == e[i]);
                }
            }
        }
    }
}

proof fn lemma_no_duplicates_same_members<A>(a: Seq<A>, b: Seq<A>)
    requires
        a.no_duplicates(),
        b.no_duplicates(),
        forall|x: A| a.contains(x) <==> b.contains(x),
    ensures
        a.to_multiset() =~= b.to_multiset(),
{
    broadcast use vstd::multiset::group_multiset_axioms;

    a.lemma_multiset_has_no_duplicates();
    b.lemma_multiset_has_no_duplicates();
    assert forall|x: A| a.to_multiset().count(x) == b.to_multiset().count(x) by {
        vstd::seq_lib::to_multiset_contains(a, x);
        vstd::seq_lib::to_multiset_contains(b, x);
        if a.contains(x) {
            assert(a.to_multiset().contains(x));
            assert(b.to_multiset().contains(x));
        } else {
            assert(!a.to_multiset().contains(x));
            assert(!b.to_multiset().contains(x));
        }
    }
}

/// A record's upstream references enter its hash only as the set of their
/// normalized node ids: their order, repeats of the same id, and each
/// reference's anchor and note do not matter.
pub proof fn lemma_derives_from_enters_as_a_set(r1: VoRecord, r2: VoRecord)
    requires
        referenced_ids(r1).to_set() == referenced_ids(r2).to_set(),
    ensures
        sorted_set(first_occurrences(referenced_ids(r1))) == sorted_set(
            first_occurrences(referenced_ids(r2)),
        ),
{
    let a = referenced_ids(r1);
    let b = referenced_ids(r2);
    lemma_first_occurrences(a);
    lemma_first_occurrences(b);
    assert forall|x: Seq<u8>| a.contains(x) <==> b.contains(x) by {
        assert(a.to_set().contains(x) == a.contains(x));
        assert(b.to_set().contains(x) == b.contains(x));
    }
    assert forall|x: Seq<u8>| first_occurrences(a).contains(x) <==> first_occurrences(b).contains(x) by {
        assert(first_occurrences(a).contains(x) <==> a.contains(x));
        assert(first_occurrences(b).contains(x) <==> b.contains(x));
    }
    lemma_no_duplicates_same_members(first_occurrences(a), first_occurrences(b));
    lemma_sorted_set_order_independent(first_occurrences(a), first_occurrences(b));
}

/// Under an injective map, an element occurs as often in a sequence as its
/// image occurs in the mapped sequence.
proof fn lemma_injective_map_count<A, B>(a: Seq<A>, f: spec_fn(A) -> B, x: A)
    requires
        forall|p: A, q: A| #[trigger] f(p) == #[trigger] f(q) ==> p == q,
    ensures
        a.to_multiset().count(x) == a.map_values(f).to_multiset().count(f(x)),
    decreases a.len(),
{
    broadcast use vstd::multiset::group_multiset_axioms;

    if a.len() == 0 {
        assert(a.map_values(f) =~= Seq::<B>::empty());
    } else {
        let a1 = a.drop_last();
        let y = a.last();
        lemma_injective_map_count(a1, f, x);
        assert(a =~= a1.push(y));
        assert(a.map_values(f) =~= a1.map_values(f).push(f(y)));
        if f(x) == f(y) {
            assert(x == y);
        }
    }
}

/// Two entries compare equal exactly when their canonical forms (the pairs
/// as bytes, sorted by name and then by value) are the same: equality
/// ignores the order of declaration and nothing else.
pub proof fn lemma_entry_equality_is_canonical_equality(e1: CombinationEntry, e2: CombinationEntry)
    ensures
        e1.eq_spec(&e2) <==> canonical_keys(e1@) == canonical_keys(e2@),
{
    let f = |p: (Seq<char>, Seq<char>)| (encode_utf8(p.0), encode_utf8(p.1));
    assert(pair_key_views(e1@) =~= e1@.map_values(f));
    assert(pair_key_views(e2@) =~= e2@.map_values(f));
    lemma_pair_le_total();
    pair_key_views(e1@).lemma_sort_by_ensures(pair_order());
    pair_key_views(e2@).lemma_sort_by_ensures(pair_order());
    if e1@.to_multiset() =~= e2@.to_multiset() {
        lemma_combination_bytes_order_independent(e1, e2);
        lemma_map_values_multiset(e1@, e2@, f);
        assert(pair_order() =~= (|a: (Seq<u8>, Seq<u8>), b: (Seq<u8>, Seq<u8>)| crate::order::pair_le(a, b)));
        lemma_sorted_unique(canonical_keys(e1@), canonical_keys(e2@), pair_order());
    }
    if canonical_keys(e1@) == canonical_keys(e2@) {
        assert forall|p: (Seq<char>, Seq<char>), q: (Seq<char>, Seq<char>)| #[trigger] f(p) == #[trigger] f(q) implies p == q by {
            vstd::utf8::encode_utf8_decode_utf8(p.0);
            vstd::utf8::encode_utf8_decode_utf8(p.1);
            vstd::utf8::encode_utf8_decode_utf8(q.0);
            vstd::utf8::encode_utf8_decode_utf8(q.1);
        }
        assert forall|x: (Seq<char>, Seq<char>)| e1@.to_multiset().count(x) == e2@.to_multiset().count(x) by {
            lemma_injective_map_count(e1@, f, x);
            lemma_injective_map_count(e2@, f, x);
        }
    }
}

proof fn lemma_repeated_names_grow(names: Seq<Seq<char>>)
    requires
        names.len() > 0,
    ensures
        repeated_names(names.drop_last()).len() <= repeated_names(names).len(),
{
}

/// No dimension name is reported as repeated exactly when every declared
/// name is unique (the empty entry included).
pub proof fn lemma_no_repeated_names_iff_unique(e: CombinationEntry)
    ensures
        repeated_names(pair_names(e@)).len() == 0 <==> pair_names(e@).no_duplicates(),
{
    lemma_repeated_names_empty_iff_unique(pair_names(e@));
}

proof fn lemma_repeated_names_empty_iff_unique(names: Seq<Seq<char>>)
    ensures
        repeated_names(names).len() == 0 <==> names.no_duplicates(),
    decreases names.len(),
{
    if names.len() > 0 {
        let p = names.drop_last();
        let x = names.last();
        lemma_repeated_names_empty_iff_unique(p);
        lemma_repeated_names_grow(names);
        if names.no_duplicates() {
            assert(p.no_duplicates()) by {
                assert forall|i: int, j: int| 0 <= i < p.len() && 0 <= j < p.len() && i != j implies p[i] != p[j] by {
                    assert(p[i] == names[i] && p[j] == names[j]);
                }
            }
            if p.contains(x) {
                let i = choose|i: int| 0 <= i < p.len() && p[i] == x;
                assert(names[i] == names[names.len() - 1]);
            }
        } else {
            if p.no_duplicates() {
                let (i, j) = choose|i: int, j: int| 0 <= i < names.len() && 0 <= j < names.len() && i != j && names[i] == names[j];
                if i == names.len() - 1 {
                    assert(p[j] == x);
                } else if j == names.len() - 1 {
                    assert(p[i] == x);
                } else {
                    assert(p[i] == p[j]);
                }
                assert(p.contains(x));
                assert(repeated_names(p).len() == 0);
                assert(!repeated_names(p).contains(x));
            }
        }
    }
}

/// A hash input grows field by field: with no field it is the
/// length-prefixed domain separator, and each further field appends its
/// encoding. So a `SubjectHashInput` started with `new(d)` and given the
/// fields `f1 .. fk` by `field` holds `hash_input(d, [f1 .. fk])`, and its
/// `finish` is the content hash of exactly that input (the hash
/// `from_canonical_bytes` gives of it).
pub proof fn lemma_hash_input_grows_by_fields(domain: Seq<u8>, fields: Seq<(Seq<u8>, Payload)>, f: (Seq<u8>, Payload))
    ensures
        hash_input(domain, Seq::empty()) == crate::encoding::len_prefixed(domain),
        hash_input(domain, fields.push(f)) == hash_input(domain, fields) + field_encoding(f.0, f.1),
{
    assert(fields.push(f).drop_last() =~= fields);
    assert(crate::encoding::fields_encoding(Seq::<(Seq<u8>, Payload)>::empty()) =~= Seq::<u8>::empty());
    assert(crate::encoding::len_prefixed(domain) + Seq::<u8>::empty() =~= crate::encoding::len_prefixed(domain));
}

/// The child sections' hash bytes are each child's hash, in order.
proof fn lemma_section_hash_bytes_map(children: Seq<SectionNode>)
    ensures
        section_hash_bytes(children) == children.map_values(|c: SectionNode| encode_utf8(section_hash(c))),
    decreases children.len(),
{
    if children.len() > 0 {
        lemma_section_hash_bytes_map(children.drop_last());
        assert(children.map_values(|c: SectionNode| encode_utf8(section_hash(c))) =~= children.drop_last().map_values(
            |c: SectionNode| encode_utf8(section_hash(c)),
        ).push(encode_utf8(section_hash(children.last()))));
    } else {
        assert(children.map_values(|c: SectionNode| encode_utf8(section_hash(c))) =~= Seq::<Seq<u8>>::empty());
    }
}

/// A section's subject hash is the document-subject hash of two ordered
/// fields: `items`, each item's subject hash, and `sections`, each child
/// section's subject hash, in declared order (an absent list counts as
/// empty).
pub proof fn lemma_section_hash_structure(node: SectionNode)
    ensures
        section_hash(node) == subject_hash_of(
            SubjectDomain::DocumentSubject,
            seq![
                (encode_utf8("items"@), Payload::Sequence(item_hash_bytes(item_children(node)))),
                (
                    encode_utf8("sections"@),
                    Payload::Sequence(
                        section_children(node).map_values(|c: SectionNode| encode_utf8(section_hash(c))),
                    ),
                ),
            ],
        ),
{
    lemma_section_hash_bytes_map(section_children(node));
    match node.sections {
        Some(v) => {},
        None => {
            assert(section_children(node).map_values(|c: SectionNode| encode_utf8(section_hash(c)))
                =~= Seq::<Seq<u8>>::empty());
        },
    }
}

/// Two verification objective records that differ only in their upstream
/// references (with the same set of normalized referenced ids; order,
/// repeats, anchors and notes aside) and in their combinations (as many,
/// each equal to its counterpart, so with the same pairs in any order)
/// have the same subject hash.
pub proof fn lemma_vo_hash_ignores_reference_and_pair_order(r1: VoRecord, r2: VoRecord)
    requires
        r1.id == r2.id,
        r1.parent == r2.parent,
        referenced_ids(r1).to_set() == referenced_ids(r2).to_set(),
        r1.claim == r2.claim,
        r1.dimensions@ == r2.dimensions@,
        r1.coverage_policy == r2.coverage_policy,
        r1.combinations@.len() == r2.combinations@.len(),
        forall|i: int| 0 <= i < r1.combinations@.len() ==> (#[trigger] r1.combinations@[i]).eq_spec(&r2.combinations@[i]),
        r1.representative_cases@ == r2.representative_cases@,
        r1.created == r2.created,
        r1.updated == r2.updated,
    ensures
        vo_hash(r1) == vo_hash(r2),
{
    lemma_derives_from_enters_as_a_set(r1, r2);
    let c1 = r1.combinations@.map_values(|e: CombinationEntry| combination_bytes(e));
    let c2 = r2.combinations@.map_values(|e: CombinationEntry| combination_bytes(e));
    assert forall|i: int| 0 <= i < c1.len() implies c1[i] == c2[i] by {
        lemma_combination_bytes_order_independent(r1.combinations@[i], r2.combinations@[i]);
    }
    assert(c1 =~= c2);
    assert(vo_fields(r1) =~= vo_fields(r2));
}

/// Two verification objective records with the same hash input declare
/// the same dimensions: as many, in the same order, each with the same
/// name and the same partitions (as normalized text). So renaming a
/// dimension, or changing its partitions, changes what is hashed.
pub proof fn lemma_vo_hash_input_fixes_dimensions(r1: VoRecord, r2: VoRecord)
    requires
        fields_fit(vo_fields(r1)),
        fields_fit(vo_fields(r2)),
        forall|k: int| 0 <= k < r1.dimensions@.len() ==> fields_fit(dimension_fields(#[trigger] r1.dimensions@[k])),
        forall|k: int| 0 <= k < r2.dimensions@.len() ==> fields_fit(dimension_fields(#[trigger] r2.dimensions@[k])),
        hash_input(encode_utf8(domain_name(SubjectDomain::RecordSubject)), vo_fields(r1)) == hash_input(
            encode_utf8(domain_name(SubjectDomain::RecordSubject)),
            vo_fields(r2),
        ),
    ensures
        r1.dimensions@.len() == r2.dimensions@.len(),
        forall|k: int|
            0 <= k < r1.dimensions@.len() ==> normalized_text((#[trigger] r1.dimensions@[k]).name@) == normalized_text(
                r2.dimensions@[k].name@,
            ) && r1.dimensions@[k].partitions@.len() == r2.dimensions@[k].partitions@.len() && forall|p: int|
                0 <= p < r1.dimensions@[k].partitions@.len() ==> normalized_text(
                    (#[trigger] r1.dimensions@[k].partitions@[p])@,
                ) == normalized_text(r2.dimensions@[k].partitions@[p]@),
{
    let d = encode_utf8(domain_name(SubjectDomain::RecordSubject));
    reveal_strlit("vtest:record-subject:v1");
    lemma_encode_utf8_len_bound(domain_name(SubjectDomain::RecordSubject));
    assert(fits(d.len()));
    let f1 = vo_fields(r1);
    let f2 = vo_fields(r2);
    lemma_hash_input_injective(d, f1, d, f2);
    assert(f1[4] == f2[4]);
    let s1 = r1.dimensions@.map_values(|x: crate::vo::Dimension| dimension_bytes(x));
    let s2 = r2.dimensions@.map_values(|x: crate::vo::Dimension| dimension_bytes(x));
    assert(s1 == s2);
    assert(s1.len() == s2.len());
    assert forall|k: int| 0 <= k < r1.dimensions@.len() implies normalized_text(
        (#[trigger] r1.dimensions@[k]).name@,
    ) == normalized_text(r2.dimensions@[k].name@) && r1.dimensions@[k].partitions@.len()
        == r2.dimensions@[k].partitions@.len() && forall|p: int|
        0 <= p < r1.dimensions@[k].partitions@.len() ==> normalized_text(
            (#[trigger] r1.dimensions@[k].partitions@[p])@,
        ) == normalized_text(r2.dimensions@[k].partitions@[p]@) by {
        let a = r1.dimensions@[k];
        let b = r2.dimensions@[k];
        assert(s1[k] == s2[k]);
        crate::hash_laws::lemma_fields_encoding_injective(dimension_fields(a), dimension_fields(b));
        assert(dimension_fields(a)[0] == dimension_fields(b)[0]);
        assert(dimension_fields(a)[1] == dimension_fields(b)[1]);
        vstd::utf8::encode_utf8_decode_utf8(normalized_text(a.name@));
        vstd::utf8::encode_utf8_decode_utf8(normalized_text(b.name@));
        let pa = fragment_list(a.partitions@);
        let pb = fragment_list(b.partitions@);
        assert(pa == pb);
        assert forall|p: int| 0 <= p < a.partitions@.len() implies normalized_text(
            (#[trigger] a.partitions@[p])@,
        ) == normalized_text(b.partitions@[p]@) by {
            assert(pa[p] == pb[p]);
            vstd::utf8::encode_utf8_decode_utf8(normalized_text(a.partitions@[p]@));
            vstd::utf8::encode_utf8_decode_utf8(normalized_text(b.partitions@[p]@));
        }
    }
}

} // verus!
