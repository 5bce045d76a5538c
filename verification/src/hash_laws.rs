//! Laws of the canonical hash input: it is unambiguous (two inputs agree
//! only when they were built from the same domain and the same fields),
//! set-valued fields do not depend on the declared order, and map fields
//! do not depend on the order of insertion.

use vstd::prelude::*;
use vstd::relations::{sorted_by, total_ordering};

use crate::encoding::{
    be8, count_prefix, entries_encoding, field_encoding, fields_encoding, hash_input,
    len_prefixed, len_prefixed_all, lex_order, payload_encoding, sorted_set, Payload,
};
use crate::order::{lemma_lex_le_total, lemma_sorted_unique};

verus! {

broadcast use vstd::seq_lib::group_to_multiset_ensures;

/// A length that a 64-bit count can hold.
pub open spec fn fits(n: nat) -> bool {
    n <= u64::MAX
}

/// Every length inside a payload fits in a 64-bit count.
pub open spec fn payload_fits(p: Payload) -> bool {
    match p {
        Payload::Absent => true,
        Payload::Scalar(b) => fits(b.len()),
        Payload::Sequence(items) => fits(items.len()) && forall|i: int|
            0 <= i < items.len() ==> fits(#[trigger] items[i].len()),
        Payload::Entries(es) => fits(es.len()) && forall|i: int|
            0 <= i < es.len() ==> fits(#[trigger] es[i].0.len()) && fits(es[i].1.len()),
    }
}

/// Every length inside a list of fields fits in a 64-bit count.
pub open spec fn fields_fit(fields: Seq<(Seq<u8>, Payload)>) -> bool {
    forall|i: int|
        0 <= i < fields.len() ==> fits(#[trigger] fields[i].0.len()) && payload_fits(fields[i].1)
}

proof fn lemma_be8_injective(x: u64, y: u64)
    requires
        be8(x) == be8(y),
    ensures
        x == y,
{
    assert(be8(x)[0] == be8(y)[0]);
    assert(be8(x)[1] == be8(y)[1]);
    assert(be8(x)[2] == be8(y)[2]);
    assert(be8(x)[3] == be8(y)[3]);
    assert(be8(x)[4] == be8(y)[4]);
    assert(be8(x)[5] == be8(y)[5]);
    assert(be8(x)[6] == be8(y)[6]);
    assert(be8(x)[7] == be8(y)[7]);
    assert(((x >> 56u64) as u8 == (y >> 56u64) as u8 && (x >> 48u64) as u8 == (y >> 48u64) as u8
        && (x >> 40u64) as u8 == (y >> 40u64) as u8 && (x >> 32u64) as u8 == (y >> 32u64) as u8
        && (x >> 24u64) as u8 == (y >> 24u64) as u8 && (x >> 16u64) as u8 == (y >> 16u64) as u8
        && (x >> 8u64) as u8 == (y >> 8u64) as u8 && x as u8 == y as u8) ==> x == y) by (bit_vector);
}

proof fn lemma_count_unique(m: nat, n: nat, r1: Seq<u8>, r2: Seq<u8>)
    requires
        fits(m),
        fits(n),
        count_prefix(m) + r1 == count_prefix(n) + r2,
    ensures
        m == n,
        r1 == r2,
{
    let x = count_prefix(m) + r1;
    assert(x.take(8) =~= be8(m as u64));
    assert((count_prefix(n) + r2).take(8) =~= be8(n as u64));
    lemma_be8_injective(m as u64, n as u64);
    assert(x.skip(8) =~= r1);
    assert((count_prefix(n) + r2).skip(8) =~= r2);
}

proof fn lemma_len_prefixed_unique(a: Seq<u8>, b: Seq<u8>, r1: Seq<u8>, r2: Seq<u8>)
    requires
        fits(a.len()),
        fits(b.len()),
        len_prefixed(a) + r1 == len_prefixed(b) + r2,
    ensures
        a == b,
        r1 == r2,
{
    assert(len_prefixed(a) + r1 =~= count_prefix(a.len()) + (a + r1));
    assert(len_prefixed(b) + r2 =~= count_prefix(b.len()) + (b + r2));
    lemma_count_unique(a.len(), b.len(), a + r1, b + r2);
    assert((a + r1).take(a.len() as int) =~= a);
    assert((b + r2).take(b.len() as int) =~= b);
    assert((a + r1).skip(a.len() as int) =~= r1);
    assert((b + r2).skip(b.len() as int) =~= r2);
}

proof fn lemma_len_prefixed_all_front(items: Seq<Seq<u8>>)
    requires
        items.len() > 0,
    ensures
        len_prefixed_all(items) == len_prefixed(items[0]) + len_prefixed_all(items.drop_first()),
    decreases items.len(),
{
    if items.len() == 1 {
        assert(items.drop_last() =~= Seq::<Seq<u8>>::empty());
        assert(items.drop_first() =~= Seq::<Seq<u8>>::empty());
        assert(len_prefixed_all(items.drop_last()) =~= Seq::<u8>::empty());
        assert(items.last() == items[0]);
        assert(len_prefixed_all(items) =~= Seq::<u8>::empty() + len_prefixed(items[0]));
        assert(Seq::<u8>::empty() + len_prefixed(items[0]) =~= len_prefixed(items[0]));
        assert(len_prefixed(items[0]) + Seq::<u8>::empty() =~= len_prefixed(items[0]));
    } else {
        lemma_len_prefixed_all_front(items.drop_last());
        assert(items.drop_last().drop_first() =~= items.drop_first().drop_last());
        assert(items.drop_first().last() == items.last());
        assert(items.drop_last()[0] == items[0]);
        assert(len_prefixed_all(items) =~= len_prefixed(items[0]) + len_prefixed_all(
            items.drop_first(),
        ));
    }
}

proof fn lemma_len_prefixed_all_unique(a: Seq<Seq<u8>>, b: Seq<Seq<u8>>, r1: Seq<u8>, r2: Seq<u8>)
    requires
        a.len() == b.len(),
        forall|i: int| 0 <= i < a.len() ==> fits(#[trigger] a[i].len()),
        forall|i: int| 0 <= i < b.len() ==> fits(#[trigger] b[i].len()),
        len_prefixed_all(a) + r1 == len_prefixed_all(b) + r2,
    ensures
        a == b,
        r1 == r2,
    decreases a.len(),
{
    if a.len() == 0 {
        assert(a =~= b);
        assert(len_prefixed_all(a) + r1 =~= r1);
        assert(len_prefixed_all(b) + r2 =~= r2);
    } else {
        lemma_len_prefixed_all_front(a);
        lemma_len_prefixed_all_front(b);
        let ra = len_prefixed_all(a.drop_first()) + r1;
        let rb = len_prefixed_all(b.drop_first()) + r2;
        assert(len_prefixed_all(a) + r1 =~= len_prefixed(a[0]) + ra);
        assert(len_prefixed_all(b) + r2 =~= len_prefixed(b[0]) + rb);
        lemma_len_prefixed_unique(a[0], b[0], ra, rb);
        assert forall|i: int| 0 <= i < a.drop_first().len() implies fits(
            #[trigger] a.drop_first()[i].len(),
        ) by {
            assert(a.drop_first()[i] == a[i + 1]);
        }
        assert forall|i: int| 0 <= i < b.drop_first().len() implies fits(
            #[trigger] b.drop_first()[i].len(),
        ) by {
            assert(b.drop_first()[i] == b[i + 1]);
        }
        lemma_len_prefixed_all_unique(a.drop_first(), b.drop_first(), r1, r2);
        assert(a =~= seq![a[0]] + a.drop_first());
        assert(b =~= seq![b[0]] + b.drop_first());
    }
}

proof fn lemma_entries_encoding_front(es: Seq<(Seq<u8>, Seq<u8>)>)
    requires
        es.len() > 0,
    ensures
        entries_encoding(es) == len_prefixed(es[0].0) + len_prefixed(es[0].1) + entries_encoding(
            es.drop_first(),
        ),
    decreases es.len(),
{
    if es.len() == 1 {
        assert(es.drop_last() =~= Seq::<(Seq<u8>, Seq<u8>)>::empty());
        assert(es.drop_first() =~= Seq::<(Seq<u8>, Seq<u8>)>::empty());
        assert(entries_encoding(es.drop_last()) =~= Seq::<u8>::empty());
        assert(es.last() == es[0]);
        assert(entries_encoding(es) =~= Seq::<u8>::empty() + len_prefixed(es[0].0) + len_prefixed(
            es[0].1,
        ));
        assert(Seq::<u8>::empty() + len_prefixed(es[0].0) =~= len_prefixed(es[0].0));
        assert(len_prefixed(es[0].0) + len_prefixed(es[0].1) + Seq::<u8>::empty()
            =~= len_prefixed(es[0].0) + len_prefixed(es[0].1));
    } else {
        lemma_entries_encoding_front(es.drop_last());
        assert(es.drop_last().drop_first() =~= es.drop_first().drop_last());
        assert(es.drop_first().last() == es.last());
        assert(es.drop_last()[0] == es[0]);
        assert(entries_encoding(es) =~= len_prefixed(es[0].0) + len_prefixed(es[0].1)
            + entries_encoding(es.drop_first()));
    }
}

#[verifier::spinoff_prover]
#[verifier::rlimit(50)]
proof fn lemma_entries_encoding_unique(
    a: Seq<(Seq<u8>, Seq<u8>)>,
    b: Seq<(Seq<u8>, Seq<u8>)>,
    r1: Seq<u8>,
    r2: Seq<u8>,
)
    requires
        a.len() == b.len(),
        forall|i: int| 0 <= i < a.len() ==> fits(#[trigger] a[i].0.len()) && fits(a[i].1.len()),
        forall|i: int| 0 <= i < b.len() ==> fits(#[trigger] b[i].0.len()) && fits(b[i].1.len()),
        entries_encoding(a) + r1 == entries_encoding(b) + r2,
    ensures
        a == b,
        r1 == r2,
    decreases a.len(),
{
    if a.len() == 0 {
        assert(a =~= b);
        assert(entries_encoding(a) + r1 =~= r1);
        assert(entries_encoding(b) + r2 =~= r2);
    } else {
        lemma_entries_encoding_front(a);
        lemma_entries_encoding_front(b);
        let ra = entries_encoding(a.drop_first()) + r1;
        let rb = entries_encoding(b.drop_first()) + r2;
        assert(entries_encoding(a) + r1 =~= len_prefixed(a[0].0) + (len_prefixed(a[0].1) + ra));
        assert(entries_encoding(b) + r2 =~= len_prefixed(b[0].0) + (len_prefixed(b[0].1) + rb));
        lemma_len_prefixed_unique(a[0].0, b[0].0, len_prefixed(a[0].1) + ra, len_prefixed(b[0].1) + rb);
        lemma_len_prefixed_unique(a[0].1, b[0].1, ra, rb);
        assert forall|i: int| 0 <= i < a.drop_first().len() implies fits(
            #[trigger] a.drop_first()[i].0.len(),
        ) && fits(a.drop_first()[i].1.len()) by {
            assert(a.drop_first()[i] == a[i + 1]);
        }
        assert forall|i: int| 0 <= i < b.drop_first().len() implies fits(
            #[trigger] b.drop_first()[i].0.len(),
        ) && fits(b.drop_first()[i].1.len()) by {
            assert(b.drop_first()[i] == b[i + 1]);
        }
        lemma_entries_encoding_unique(a.drop_first(), b.drop_first(), r1, r2);
        assert(a =~= seq![a[0]] + a.drop_first());
        assert(b =~= seq![b[0]] + b.drop_first());
    }
}

#[verifier::spinoff_prover]
#[verifier::rlimit(50)]
proof fn lemma_payload_unique(p: Payload, q: Payload, r1: Seq<u8>, r2: Seq<u8>)
    requires
        payload_fits(p),
        payload_fits(q),
        payload_encoding(p) + r1 == payload_encoding(q) + r2,
    ensures
        p == q,
        r1 == r2,
{
    let x = payload_encoding(p) + r1;
    let y = payload_encoding(q) + r2;
    assert(x[0] == payload_encoding(p)[0]);
    assert(y[0] == payload_encoding(q)[0]);
    match p {
        Payload::Absent => {
            assert(x =~= seq![0u8] + r1);
            match q {
                Payload::Absent => {
                    assert(y =~= seq![0u8] + r2);
                    assert(x.skip(1) =~= r1);
                    assert(y.skip(1) =~= r2);
                },
                _ => {},
            }
        },
        Payload::Scalar(a) => {
            match q {
                Payload::Scalar(b) => {
                    assert(x.skip(1) =~= len_prefixed(a) + r1);
                    assert(y.skip(1) =~= len_prefixed(b) + r2);
                    lemma_len_prefixed_unique(a, b, r1, r2);
                },
                _ => {},
            }
        },
        Payload::Sequence(a) => {
            match q {
                Payload::Sequence(b) => {
                    assert(x.skip(1) =~= count_prefix(a.len()) + (len_prefixed_all(a) + r1));
                    assert(y.skip(1) =~= count_prefix(b.len()) + (len_prefixed_all(b) + r2));
                    lemma_count_unique(a.len(), b.len(), len_prefixed_all(a) + r1, len_prefixed_all(b) + r2);
                    lemma_len_prefixed_all_unique(a, b, r1, r2);
                },
                _ => {},
            }
        },
        Payload::Entries(a) => {
            match q {
                Payload::Entries(b) => {
                    assert(x.skip(1) =~= count_prefix(a.len()) + (entries_encoding(a) + r1));
                    assert(y.skip(1) =~= count_prefix(b.len()) + (entries_encoding(b) + r2));
                    lemma_count_unique(a.len(), b.len(), entries_encoding(a) + r1, entries_encoding(b) + r2);
                    lemma_entries_encoding_unique(a, b, r1, r2);
                },
                _ => {},
            }
        },
    }
}

proof fn lemma_field_unique(
    n1: Seq<u8>,
    p1: Payload,
    n2: Seq<u8>,
    p2: Payload,
    r1: Seq<u8>,
    r2: Seq<u8>,
)
    requires
        fits(n1.len()),
        fits(n2.len()),
        payload_fits(p1),
        payload_fits(p2),
        field_encoding(n1, p1) + r1 == field_encoding(n2, p2) + r2,
    ensures
        n1 == n2,
        p1 == p2,
        r1 == r2,
{
    assert(field_encoding(n1, p1) + r1 =~= len_prefixed(n1) + (payload_encoding(p1) + r1));
    assert(field_encoding(n2, p2) + r2 =~= len_prefixed(n2) + (payload_encoding(p2) + r2));
    lemma_len_prefixed_unique(n1, n2, payload_encoding(p1) + r1, payload_encoding(p2) + r2);
    lemma_payload_unique(p1, p2, r1, r2);
}

proof fn lemma_fields_encoding_front(fields: Seq<(Seq<u8>, Payload)>)
    requires
        fields.len() > 0,
    ensures
        fields_encoding(fields) == field_encoding(fields[0].0, fields[0].1) + fields_encoding(
            fields.drop_first(),
        ),
    decreases fields.len(),
{
    if fields.len() == 1 {
        assert(fields.drop_last() =~= Seq::<(Seq<u8>, Payload)>::empty());
        assert(fields.drop_first() =~= Seq::<(Seq<u8>, Payload)>::empty());
        assert(fields_encoding(fields.drop_last()) =~= Seq::<u8>::empty());
        assert(fields.last() == fields[0]);
        assert(fields_encoding(fields) =~= Seq::<u8>::empty() + field_encoding(
            fields[0].0,
            fields[0].1,
        ));
        assert(field_encoding(fields[0].0, fields[0].1) + Seq::<u8>::empty() =~= field_encoding(
            fields[0].0,
            fields[0].1,
        ));
    } else {
        lemma_fields_encoding_front(fields.drop_last());
        assert(fields.drop_last().drop_first() =~= fields.drop_first().drop_last());
        assert(fields.drop_first().last() == fields.last());
        assert(fields.drop_last()[0] == fields[0]);
        assert(fields_encoding(fields) =~= field_encoding(fields[0].0, fields[0].1)
            + fields_encoding(fields.drop_first()));
    }
}

/// Distinct lists of fields never encode to the same bytes.
pub proof fn lemma_fields_encoding_injective(a: Seq<(Seq<u8>, Payload)>, b: Seq<(Seq<u8>, Payload)>)
    requires
        fields_fit(a),
        fields_fit(b),
        fields_encoding(a) == fields_encoding(b),
    ensures
        a == b,
    decreases a.len(),
{
    if a.len() == 0 {
        if b.len() > 0 {
            lemma_fields_encoding_front(b);
            assert(fields_encoding(b).len() > 0);
        }
        assert(a =~= b);
    } else {
        lemma_fields_encoding_front(a);
        if b.len() == 0 {
            assert(fields_encoding(a).len() > 0);
        } else {
            lemma_fields_encoding_front(b);
            assert(fields_fit(a) ==> fits(a[0].0.len()) && payload_fits(a[0].1));
            assert(fields_fit(b) ==> fits(b[0].0.len()) && payload_fits(b[0].1));
            lemma_field_unique(
                a[0].0,
                a[0].1,
                b[0].0,
                b[0].1,
                fields_encoding(a.drop_first()),
                fields_encoding(b.drop_first()),
            );
            assert forall|i: int| 0 <= i < a.drop_first().len() implies fits(
                #[trigger] a.drop_first()[i].0.len(),
            ) && payload_fits(a.drop_first()[i].1) by {
                assert(a.drop_first()[i] == a[i + 1]);
                assert(fits(a[i + 1].0.len()) && payload_fits(a[i + 1].1));
            }
            assert forall|i: int| 0 <= i < b.drop_first().len() implies fits(
                #[trigger] b.drop_first()[i].0.len(),
            ) && payload_fits(b.drop_first()[i].1) by {
                assert(b.drop_first()[i] == b[i + 1]);
                assert(fits(b[i + 1].0.len()) && payload_fits(b[i + 1].1));
            }
            lemma_fields_encoding_injective(a.drop_first(), b.drop_first());
            assert(a =~= seq![a[0]] + a.drop_first());
            assert(b =~= seq![b[0]] + b.drop_first());
        }
    }
}

/// The hash input is unambiguous: two hash inputs are the same bytes only
/// when they carry the same domain separator and the same fields (same
/// names, same payloads, in the same order). In particular a null value,
/// an empty scalar and an empty list differ, distinct domains differ, and
/// moving bytes between adjacent fields changes the input.
pub proof fn lemma_hash_input_injective(
    d1: Seq<u8>,
    f1: Seq<(Seq<u8>, Payload)>,
    d2: Seq<u8>,
    f2: Seq<(Seq<u8>, Payload)>,
)
    requires
        fits(d1.len()),
        fits(d2.len()),
        fields_fit(f1),
        fields_fit(f2),
        hash_input(d1, f1) == hash_input(d2, f2),
    ensures
        d1 == d2,
        f1 == f2,
{
    lemma_len_prefixed_unique(d1, d2, fields_encoding(f1), fields_encoding(f2));
    lemma_fields_encoding_injective(f1, f2);
}

/// A set-valued field is written the same however its elements were
/// ordered: only the elements and their multiplicities matter.
pub proof fn lemma_sorted_set_order_independent(a: Seq<Seq<u8>>, b: Seq<Seq<u8>>)
    requires
        a.to_multiset() =~= b.to_multiset(),
    ensures
        sorted_set(a) == sorted_set(b),
{
    lemma_lex_le_total();
    a.lemma_sort_by_ensures(lex_order());
    b.lemma_sort_by_ensures(lex_order());
    lemma_sorted_unique(sorted_set(a), sorted_set(b), lex_order());
}

/// A UTF-8 encoding takes at most four bytes per character.
pub proof fn lemma_encode_utf8_len_bound(s: Seq<char>)
    ensures
        vstd::utf8::encode_utf8(s).len() <= 4 * s.len(),
    decreases s.len(),
{
    if s.len() > 0 {
        lemma_encode_utf8_len_bound(s.drop_first());
    }
}

/// The elements of a set-valued field's written form are exactly the
/// elements given.
pub proof fn lemma_sorted_set_members(items: Seq<Seq<u8>>)
    ensures
        forall|x: Seq<u8>| sorted_set(items).contains(x) <==> items.contains(x),
{
    broadcast use vstd::seq_lib::group_to_multiset_ensures;
    lemma_lex_le_total();
    items.lemma_sort_by_ensures(lex_order());
    assert forall|x: Seq<u8>| sorted_set(items).contains(x) <==> items.contains(x) by {
        assert(sorted_set(items).to_multiset().count(x) == items.to_multiset().count(x));
    }
}

} // verus!
