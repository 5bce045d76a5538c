//! The canonical hash input: a domain separator followed by named,
//! length-prefixed fields, hashed with SHA-256.
//!
//! Every byte string the builder writes (the domain separator, each field
//! name, each scalar, sequence element, map key and map value) is preceded
//! by its length as a big-endian 64-bit integer, and every field value
//! starts with a one-byte tag telling apart absent, scalar, sequence and
//! map payloads. A set-valued field is written with its elements sorted
//! by byte value, so its declared order does not matter.

use vstd::prelude::*;
use vstd::relations::{sorted_by, total_ordering};
use vstd::utf8::encode_utf8;

use crate::digest::sha256;
use crate::hash::{content_hash_text, ContentHash};
use crate::normalize::{normalize_hashed_text, normalized_text};
use crate::order::{bytes_le, key_order, lex_le, sort_by_key, sort_keys, SortKey};

verus! {

/// The eight big-endian bytes of a 64-bit count.
pub open spec fn be8(n: u64) -> Seq<u8> {
    seq![
        (n >> 56u64) as u8,
        (n >> 48u64) as u8,
        (n >> 40u64) as u8,
        (n >> 32u64) as u8,
        (n >> 24u64) as u8,
        (n >> 16u64) as u8,
        (n >> 8u64) as u8,
        n as u8,
    ]
}

/// A count as written into the hash input.
pub open spec fn count_prefix(n: nat) -> Seq<u8> {
    be8(n as u64)
}

/// A byte string preceded by its length.
pub open spec fn len_prefixed(b: Seq<u8>) -> Seq<u8> {
    count_prefix(b.len()) + b
}

/// Each element length-prefixed, in order.
pub open spec fn len_prefixed_all(items: Seq<Seq<u8>>) -> Seq<u8>
    decreases items.len(),
{
    if items.len() == 0 {
        Seq::empty()
    } else {
        len_prefixed_all(items.drop_last()) + len_prefixed(items.last())
    }
}

/// Each (key, value) entry as its length-prefixed key then its
/// length-prefixed value, in order.
pub open spec fn entries_encoding(entries: Seq<(Seq<u8>, Seq<u8>)>) -> Seq<u8>
    decreases entries.len(),
{
    if entries.len() == 0 {
        Seq::empty()
    } else {
        entries_encoding(entries.drop_last()) + len_prefixed(entries.last().0) + len_prefixed(
            entries.last().1,
        )
    }
}

/// The tag byte written for an absent value.
pub open spec fn tag_null() -> u8 {
    0
}

/// The tag byte written for a scalar.
pub open spec fn tag_scalar() -> u8 {
    1
}

/// The tag byte written for an ordered sequence or a sorted set.
pub open spec fn tag_sequence() -> u8 {
    2
}

/// The tag byte written for a map.
pub open spec fn tag_map() -> u8 {
    3
}

/// What a field value contributes to the hash input, independent of how it
/// was built: a set is already in sorted order here.
pub enum Payload {
    Absent,
    Scalar(Seq<u8>),
    Sequence(Seq<Seq<u8>>),
    Entries(Seq<(Seq<u8>, Seq<u8>)>),
}

/// The bytes of one payload: its tag, then its length-prefixed contents.
pub open spec fn payload_encoding(p: Payload) -> Seq<u8> {
    match p {
        Payload::Absent => seq![tag_null()],
        Payload::Scalar(b) => seq![tag_scalar()] + len_prefixed(b),
        Payload::Sequence(items) => seq![tag_sequence()] + count_prefix(items.len())
            + len_prefixed_all(items),
        Payload::Entries(es) => seq![tag_map()] + count_prefix(es.len()) + entries_encoding(es),
    }
}

/// The bytes of one named field: the length-prefixed name, then the payload.
pub open spec fn field_encoding(name: Seq<u8>, p: Payload) -> Seq<u8> {
    len_prefixed(name) + payload_encoding(p)
}

/// The bytes of a list of named fields, in order.
pub open spec fn fields_encoding(fields: Seq<(Seq<u8>, Payload)>) -> Seq<u8>
    decreases fields.len(),
{
    if fields.len() == 0 {
        Seq::empty()
    } else {
        fields_encoding(fields.drop_last()) + field_encoding(fields.last().0, fields.last().1)
    }
}

/// The views of a list of byte vectors.
pub open spec fn byte_views(items: Seq<Vec<u8>>) -> Seq<Seq<u8>> {
    items.map_values(|v: Vec<u8>| v@)
}

/// Byte-wise lexicographic order as a relation.
pub open spec fn lex_order() -> spec_fn(Seq<u8>, Seq<u8>) -> bool {
    |a: Seq<u8>, b: Seq<u8>| lex_le(a, b)
}

/// The elements of a set-valued field in the order they are written:
/// ascending by byte value.
pub open spec fn sorted_set(items: Seq<Seq<u8>>) -> Seq<Seq<u8>> {
    items.sort_by(lex_order())
}

/// A map from field keys to byte values, kept in ascending key order.
pub struct FieldMap {
    entries: Vec<(String, Vec<u8>)>,
}

impl FieldMap {
    /// The keys' UTF-8 bytes.
    pub closed spec fn key_bytes(&self, i: int) -> Seq<u8> {
        encode_utf8(self.entries@[i].0@)
    }

    /// The map is well formed: keys strictly ascend by byte value.
    pub closed spec fn wf(&self) -> bool {
        forall|i: int, j: int|
            #![trigger self.key_bytes(i), self.key_bytes(j)]
            0 <= i < j < self.entries@.len() ==> lex_le(self.key_bytes(i), self.key_bytes(j))
                && self.key_bytes(i) != self.key_bytes(j)
    }

    /// The entries as written into the hash input: key bytes and value, in
    /// ascending key order.
    pub closed spec fn entries(&self) -> Seq<(Seq<u8>, Seq<u8>)> {
        Seq::new(self.entries@.len(), |i: int| (self.key_bytes(i), self.entries@[i].1@))
    }

    pub closed spec fn has_key_at(&self, i: int, k: Seq<char>) -> bool {
        0 <= i < self.entries@.len() && self.entries@[i].0@ == k
    }

    /// The number of entries.
    pub closed spec fn len(&self) -> nat {
        self.entries@.len()
    }

    /// Creates an empty map.
    pub fn new() -> (m: FieldMap)
        ensures
            m.wf(),
            m@ == Map::<Seq<char>, Seq<u8>>::empty(),
    {
        let m = FieldMap { entries: Vec::new() };
        assert(m@ =~= Map::<Seq<char>, Seq<u8>>::empty());
        m
    }
}

/// `a`'s key comes strictly before `b`'s in byte order.
fn key_strictly_before(a: &String, b: &String) -> (r: bool)
    ensures
        r == (lex_le(encode_utf8(a@), encode_utf8(b@)) && encode_utf8(a@) != encode_utf8(b@)),
{
    proof {
        crate::order::lemma_lex_le_reflexive(encode_utf8(b@));
        if lex_le(encode_utf8(a@), encode_utf8(b@)) && lex_le(encode_utf8(b@), encode_utf8(a@)) {
            crate::order::lemma_lex_le_antisymmetric(encode_utf8(a@), encode_utf8(b@));
        }
    }
    a.le_by_key(b) && !b.le_by_key(a)
}

impl FieldMap {
    /// Inserts `key` with `value`, replacing any value the key had.
    pub fn insert(&mut self, key: String, value: Vec<u8>)
        requires
            old(self).wf(),
        ensures
            final(self).wf(),
            final(self)@ == old(self)@.insert(key@, value@),
    {
        let ghost kb = encode_utf8(key@);
        let ghost old_entries = self.entries@;
        let mut p: usize = 0;
        while p < self.entries.len() && key_strictly_before(&self.entries[p].0, &key)
            invariant
                p <= self.entries@.len(),
                self.entries@ == old_entries,
                old_entries == old(self).entries@,
                kb == encode_utf8(key@),
                forall|k: int|
                    0 <= k < p ==> lex_le(#[trigger] self.key_bytes(k), kb) && self.key_bytes(k)
                        != kb,
            decreases self.entries@.len() - p,
        {
            p = p + 1;
        }
        proof {
            crate::order::lemma_lex_le_total();
        }
        let found = p < self.entries.len() && self.entries[p].0 == key;
        if found {
            let ghost kp = self.entries@[p as int].0@;
            proof {
                assert(kp == key@);
            }
            self.entries.set(p, (key, value));
            proof {
                assert(forall|i: int| 0 <= i < self.entries@.len() ==> #[trigger] self.key_bytes(i)
                    == encode_utf8(old_entries[i].0@));
                let m = self@;
                let o = old(self)@.insert(key@, value@);
                assert forall|k: Seq<char>| m.contains_key(k) <==> o.contains_key(k) by {
                    if m.contains_key(k) {
                        let i = choose|i: int| self.has_key_at(i, k);
                        if i != p {
                            assert(old(self).has_key_at(i, k));
                        }
                    }
                    if o.contains_key(k) && k != key@ {
                        let i = choose|i: int| old(self).has_key_at(i, k);
                        assert(self.has_key_at(i, k));
                    }
                    if k == key@ {
                        assert(self.has_key_at(p as int, k));
                    }
                }
                assert(old(self).wf());
                assert forall|i: int, j: int|
                    0 <= i < j < self.entries@.len() implies lex_le(self.key_bytes(i), self.key_bytes(j))
                    && self.key_bytes(i) != self.key_bytes(j) by {
                    assert(self.key_bytes(i) == old(self).key_bytes(i));
                    assert(self.key_bytes(j) == old(self).key_bytes(j));
                }
                assert(self.wf());
                assert forall|k: Seq<char>| m.contains_key(k) implies m[k] == o[k] by {
                    let i = choose|i: int| self.has_key_at(i, k);
                    if k == key@ {
                        if i != p as int {
                            assert(self.key_bytes(i) == self.key_bytes(p as int));
                            if i < p {
                                assert(self.key_bytes(i) != self.key_bytes(p as int));
                            } else {
                                assert(self.key_bytes(p as int) != self.key_bytes(i));
                            }
                        }
                        assert(m[k] == value@);
                    } else {
                        assert(self.entries@[i] == old_entries[i]);
                        assert(i != p);
                        assert(old(self).has_key_at(i, k));
                        let j = choose|j: int| old(self).has_key_at(j, k);
                        if i != j {
                            assert(old(self).key_bytes(i) == old(self).key_bytes(j));
                            if i < j {
                                assert(old(self).key_bytes(i) != old(self).key_bytes(j));
                            } else {
                                assert(old(self).key_bytes(j) != old(self).key_bytes(i));
                            }
                        }
                        assert(m[k] == old(self)@[k]);
                    }
                }
                assert(m =~= o);
            }
        } else {
            proof {
                assert forall|k: int| 0 <= k < p implies lex_le(old(self).key_bytes(k), kb)
                    && old(self).key_bytes(k) != kb by {
                    assert(self.key_bytes(k) == old(self).key_bytes(k));
                }
            }
            self.entries.insert(p, (key, value));
            proof {
                assert(self.entries@ =~= old_entries.insert(p as int, (key, value)));
                assert(old(self).wf());
                if p < old_entries.len() {
                    let kp = old(self).key_bytes(p as int);
                    assert(old_entries[p as int].0@ != key@);
                    vstd::utf8::encode_utf8_decode_utf8(key@);
                    vstd::utf8::encode_utf8_decode_utf8(old_entries[p as int].0@);
                    assert(kp != kb);
                    assert(!lex_le(kp, kb));
                    crate::order::lemma_lex_le_connected(kp, kb);
                    assert(lex_le(kb, kp));
                }
                assert forall|i: int| #![trigger self.key_bytes(i)] 0 <= i < self.entries@.len()
                    implies self.key_bytes(i) == (if i < p {
                    old(self).key_bytes(i)
                } else if i == p {
                    kb
                } else {
                    old(self).key_bytes(i - 1)
                }) by {}
                assert forall|i: int, j: int|
                    0 <= i < j < self.entries@.len() implies lex_le(self.key_bytes(i), self.key_bytes(j))
                    && self.key_bytes(i) != self.key_bytes(j) by {
                    if j < p {
                        assert(lex_le(old(self).key_bytes(i), old(self).key_bytes(j)));
                    } else if j == p {
                        assert(lex_le(old(self).key_bytes(i), kb));
                    } else if i == p {
                        let kp = old(self).key_bytes(p as int);
                        let kj = old(self).key_bytes(j - 1);
                        if j - 1 > p {
                            assert(lex_le(kp, kj) && kp != kj);
                            crate::order::lemma_lex_le_transitive(kb, kp, kj);
                            if kb == kj {
                                crate::order::lemma_lex_le_antisymmetric(kb, kp);
                            }
                        }
                    } else if i < p {
                        assert(lex_le(old(self).key_bytes(i), old(self).key_bytes(j - 1)));
                    } else {
                        assert(lex_le(old(self).key_bytes(i - 1), old(self).key_bytes(j - 1)));
                    }
                }
                assert(self.wf());
                let m = self@;
                let o = old(self)@.insert(key@, value@);
                assert forall|i: int| 0 <= i < old_entries.len() implies old_entries[i].0@ != key@ by {
                    if old_entries[i].0@ == key@ {
                        assert(old(self).key_bytes(i) == kb);
                        if i > p {
                            let kp = old(self).key_bytes(p as int);
                            assert(lex_le(kp, kb) && kp != kb);
                            crate::order::lemma_lex_le_antisymmetric(kb, kp);
                        }
                    }
                }
                assert forall|k: Seq<char>| m.contains_key(k) <==> o.contains_key(k) by {
                    if m.contains_key(k) {
                        let i = choose|i: int| self.has_key_at(i, k);
                        if i < p {
                            assert(old(self).has_key_at(i, k));
                        } else if i > p {
                            assert(old(self).has_key_at(i - 1, k));
                        }
                    }
                    if o.contains_key(k) && k != key@ {
                        let i = choose|i: int| old(self).has_key_at(i, k);
                        if i < p {
                            assert(self.has_key_at(i, k));
                        } else {
                            assert(self.has_key_at(i + 1, k));
                        }
                    }
                    if k == key@ {
                        assert(self.has_key_at(p as int, k));
                    }
                }
                assert forall|k: Seq<char>| m.contains_key(k) implies m[k] == o[k] by {
                    let i = choose|i: int| self.has_key_at(i, k);
                    if k == key@ {
                        if i != p {
                            assert(self.key_bytes(i) == self.key_bytes(p as int));
                            if i < p {
                                assert(self.key_bytes(i) != self.key_bytes(p as int));
                            } else {
                                assert(self.key_bytes(p as int) != self.key_bytes(i));
                            }
                        }
                        assert(m[k] == value@);
                    } else {
                        let j = choose|j: int| old(self).has_key_at(j, k);
                        let jj = if j < p { j } else { j + 1 };
                        assert(self.has_key_at(jj, k));
                        assert(self.entries@[jj] == old_entries[j]);
                        if i != jj {
                            assert(self.key_bytes(i) == self.key_bytes(jj));
                            if i < jj {
                                assert(self.key_bytes(i) != self.key_bytes(jj));
                            } else {
                                assert(self.key_bytes(jj) != self.key_bytes(i));
                            }
                        }
                        assert(m[k] == old(self)@[k]);
                    }
                }
                assert(m =~= o);
            }
        }
    }
}

impl View for FieldMap {
    type V = Map<Seq<char>, Seq<u8>>;

    closed spec fn view(&self) -> Map<Seq<char>, Seq<u8>> {
        Map::new(
            |k: Seq<char>| exists|i: int| self.has_key_at(i, k),
            |k: Seq<char>| self.entries@[choose|i: int| self.has_key_at(i, k)].1@,
        )
    }
}

/// A map's written form depends only on what it holds: two well-formed maps
/// with the same keys and values, however they were filled, write the same
/// entries in the same order.
pub proof fn lemma_map_entries_determined_by_contents(a: FieldMap, b: FieldMap)
    requires
        a.wf(),
        b.wf(),
        a@ == b@,
    ensures
        a.entries() == b.entries(),
{
    let ka = Seq::new(a.entries@.len(), |i: int| a.key_bytes(i));
    let kb = Seq::new(b.entries@.len(), |i: int| b.key_bytes(i));
    assert forall|i: int, j: int| 0 <= i < j < ka.len() implies lex_le(ka[i], ka[j]) && ka[i] != ka[j] by {
        assert(ka[i] == a.key_bytes(i) && ka[j] == a.key_bytes(j));
    }
    assert forall|i: int, j: int| 0 <= i < j < kb.len() implies lex_le(kb[i], kb[j]) && kb[i] != kb[j] by {
        assert(kb[i] == b.key_bytes(i) && kb[j] == b.key_bytes(j));
    }
    assert forall|x: Seq<u8>| ka.contains(x) <==> kb.contains(x) by {
        if ka.contains(x) {
            let i = choose|i: int| 0 <= i < ka.len() && ka[i] == x;
            let k = a.entries@[i].0@;
            assert(a.has_key_at(i, k));
            assert(a@.contains_key(k));
            assert(b@.contains_key(k));
            let j = choose|j: int| b.has_key_at(j, k);
            assert(kb[j] == x);
        }
        if kb.contains(x) {
            let j = choose|j: int| 0 <= j < kb.len() && kb[j] == x;
            let k = b.entries@[j].0@;
            assert(b.has_key_at(j, k));
            assert(b@.contains_key(k));
            assert(a@.contains_key(k));
            let i = choose|i: int| a.has_key_at(i, k);
            assert(ka[i] == x);
        }
    }
    crate::order::lemma_strictly_sorted_same_members(ka, kb);
    assert forall|i: int| 0 <= i < a.entries@.len() implies a.entries()[i] == b.entries()[i] by {
        assert(ka[i] == kb[i]);
        let k = a.entries@[i].0@;
        vstd::utf8::encode_utf8_decode_utf8(k);
        vstd::utf8::encode_utf8_decode_utf8(b.entries@[i].0@);
        assert(b.entries@[i].0@ == k);
        assert(a.has_key_at(i, k));
        assert(b.has_key_at(i, k));
        let ca = choose|c: int| a.has_key_at(c, k);
        let cb = choose|c: int| b.has_key_at(c, k);
        if ca != i {
            if ca < i {
                assert(a.key_bytes(ca) != a.key_bytes(i));
            } else {
                assert(a.key_bytes(i) != a.key_bytes(ca));
            }
        }
        if cb != i {
            if cb < i {
                assert(b.key_bytes(cb) != b.key_bytes(i));
            } else {
                assert(b.key_bytes(i) != b.key_bytes(cb));
            }
        }
        assert(a@[k] == a.entries@[i].1@);
        assert(b@[k] == b.entries@[i].1@);
    }
    assert(a.entries() =~= b.entries());
}

/// One field's value in a canonical hash input.
pub enum FieldValue {
    /// The declaration itself is absent (distinct from a present but empty
    /// value).
    Null,
    /// A scalar value: text or opaque bytes. May be empty.
    Scalar(Vec<u8>),
    /// A sequence whose order carries meaning, written in the given order.
    Ordered(Vec<Vec<u8>>),
    /// A sequence treated as a set: written sorted ascending by byte value,
    /// so the given order never matters. Duplicates are kept.
    SetOf(Vec<Vec<u8>>),
    /// A map, written in ascending key order.
    MapOf(FieldMap),
}

impl FieldValue {
    /// What this value contributes to the hash input.
    pub open spec fn payload(&self) -> Payload {
        match self {
            FieldValue::Null => Payload::Absent,
            FieldValue::Scalar(b) => Payload::Scalar(b@),
            FieldValue::Ordered(items) => Payload::Sequence(byte_views(items@)),
            FieldValue::SetOf(items) => Payload::Sequence(sorted_set(byte_views(items@))),
            FieldValue::MapOf(m) => Payload::Entries(m.entries()),
        }
    }
}

fn push_count(buf: &mut Vec<u8>, count: usize)
    ensures
        final(buf)@ == old(buf)@ + count_prefix(count as nat),
{
    let n = count as u64;
    buf.push((n >> 56u64) as u8);
    buf.push((n >> 48u64) as u8);
    buf.push((n >> 40u64) as u8);
    buf.push((n >> 32u64) as u8);
    buf.push((n >> 24u64) as u8);
    buf.push((n >> 16u64) as u8);
    buf.push((n >> 8u64) as u8);
    buf.push(n as u8);
    assert(buf@ =~= old(buf)@ + be8(n));
}

fn push_bytes(buf: &mut Vec<u8>, bytes: &[u8])
    ensures
        final(buf)@ == old(buf)@ + bytes@,
{
    let mut i: usize = 0;
    while i < bytes.len()
        invariant
            i <= bytes.len(),
            buf@ == old(buf)@ + bytes@.take(i as int),
        decreases bytes.len() - i,
    {
        buf.push(bytes[i]);
        assert(bytes@.take(i as int + 1) =~= bytes@.take(i as int).push(bytes@[i as int]));
        i = i + 1;
    }
    assert(bytes@.take(i as int) =~= bytes@);
}

fn push_len_prefixed(buf: &mut Vec<u8>, bytes: &[u8])
    ensures
        final(buf)@ == old(buf)@ + len_prefixed(bytes@),
{
    push_count(buf, bytes.len());
    push_bytes(buf, bytes);
    assert(buf@ =~= old(buf)@ + len_prefixed(bytes@));
}

fn push_len_prefixed_all(buf: &mut Vec<u8>, items: &Vec<Vec<u8>>)
    ensures
        final(buf)@ == old(buf)@ + len_prefixed_all(byte_views(items@)),
{
    let mut i: usize = 0;
    assert(byte_views(items@).take(0) =~= Seq::<Seq<u8>>::empty());
    assert(old(buf)@ + Seq::<u8>::empty() =~= old(buf)@);
    while i < items.len()
        invariant
            i <= items.len(),
            buf@ == old(buf)@ + len_prefixed_all(byte_views(items@).take(i as int)),
        decreases items.len() - i,
    {
        let ghost before = buf@;
        push_len_prefixed(buf, items[i].as_slice());
        let ghost t = byte_views(items@).take(i as int + 1);
        assert(t.drop_last() =~= byte_views(items@).take(i as int));
        assert(t.last() == items@[i as int]@);
        assert(buf@ =~= old(buf)@ + len_prefixed_all(t));
        i = i + 1;
    }
    assert(byte_views(items@).take(i as int) =~= byte_views(items@));
}

fn push_entries(buf: &mut Vec<u8>, m: &FieldMap)
    ensures
        final(buf)@ == old(buf)@ + entries_encoding(m.entries()),
{
    let mut i: usize = 0;
    assert(m.entries().take(0) =~= Seq::<(Seq<u8>, Seq<u8>)>::empty());
    assert(old(buf)@ + Seq::<u8>::empty() =~= old(buf)@);
    while i < m.entries.len()
        invariant
            i <= m.entries@.len(),
            buf@ == old(buf)@ + entries_encoding(m.entries().take(i as int)),
        decreases m.entries@.len() - i,
    {
        let entry = &m.entries[i];
        push_len_prefixed(buf, entry.0.as_str().as_bytes());
        push_len_prefixed(buf, entry.1.as_slice());
        let ghost t = m.entries().take(i as int + 1);
        assert(t.drop_last() =~= m.entries().take(i as int));
        assert(buf@ =~= old(buf)@ + entries_encoding(t));
        i = i + 1;
    }
    assert(m.entries().take(i as int) =~= m.entries());
}

/// Sorts the elements of a set-valued field ascending by byte value.
pub fn sort_set_items(items: Vec<Vec<u8>>) -> (sorted: Vec<Vec<u8>>)
    ensures
        byte_views(sorted@) == sorted_set(byte_views(items@)),
        sorted@.to_multiset() =~= items@.to_multiset(),
{
    let out = sort_by_key(items);
    proof {
        assert(sort_keys(out@) =~= byte_views(out@));
        assert(sort_keys(items@) =~= byte_views(items@));
        assert(key_order::<Vec<u8>>() =~= lex_order());
    }
    out
}

/// Appends one named field (its name, then its value) to `buf`.
fn encode_field_into(buf: &mut Vec<u8>, name: &str, value: FieldValue)
    ensures
        final(buf)@ == old(buf)@ + field_encoding(encode_utf8(name@), value.payload()),
{
    push_len_prefixed(buf, name.as_bytes());
    let ghost mid = buf@;
    match value {
        FieldValue::Null => {
            buf.push(0u8);
        },
        FieldValue::Scalar(bytes) => {
            buf.push(1u8);
            push_len_prefixed(buf, bytes.as_slice());
        },
        FieldValue::Ordered(items) => {
            buf.push(2u8);
            push_count(buf, items.len());
            push_len_prefixed_all(buf, &items);
        },
        FieldValue::SetOf(items) => {
            let sorted = sort_set_items(items);
            buf.push(2u8);
            push_count(buf, sorted.len());
            proof {
                assert(byte_views(sorted@).len() == sorted@.len());
            }
            push_len_prefixed_all(buf, &sorted);
        },
        FieldValue::MapOf(map) => {
            buf.push(3u8);
            push_count(buf, map.entries.len());
            push_entries(buf, &map);
        },
    }
    assert(buf@ =~= old(buf)@ + field_encoding(encode_utf8(name@), value.payload()));
}


impl FieldValue {
    /// A scalar text fragment that is normalized before encoding: line
    /// endings become LF and trailing spaces and tabs are removed per line.
    pub fn text_fragment(text: &str) -> (v: FieldValue)
        ensures
            v is Scalar,
            v.payload() == Payload::Scalar(encode_utf8(normalized_text(text@))),
    {
        let normalized = normalize_hashed_text(text);
        FieldValue::Scalar(normalized.as_str().as_bytes_vec())
    }

    /// A scalar value encoded byte-exactly, with no normalization applied.
    pub fn exact_bytes(bytes: Vec<u8>) -> (v: FieldValue)
        ensures
            v is Scalar,
            v.payload() == Payload::Scalar(bytes@),
    {
        FieldValue::Scalar(bytes)
    }
}

/// The domain separator for one of the five kinds of subject hash.
#[derive(Clone, Copy, Debug, PartialEq, Eq)]
pub enum SubjectDomain {
    /// Test subject hash.
    TestSubject,
    /// Source Target hash.
    TargetSubject,
    /// Document subject hash.
    DocumentSubject,
    /// VO (record) subject hash.
    RecordSubject,
    /// Execution State subject hash.
    ExecutionState,
}

/// The literal domain separator string of a subject kind.
pub open spec fn domain_name(d: SubjectDomain) -> Seq<char> {
    match d {
        SubjectDomain::TestSubject => "vtest:test-subject:v1"@,
        SubjectDomain::TargetSubject => "vtest:target-subject:v1"@,
        SubjectDomain::DocumentSubject => "vtest:document-subject:v1"@,
        SubjectDomain::RecordSubject => "vtest:record-subject:v1"@,
        SubjectDomain::ExecutionState => "vtest:execution-state:v1"@,
    }
}

impl SubjectDomain {
    /// Returns the literal domain separator string.
    pub fn as_str(self) -> (s: &'static str)
        ensures
            s@ == domain_name(self),
    {
        match self {
            SubjectDomain::TestSubject => "vtest:test-subject:v1",
            SubjectDomain::TargetSubject => "vtest:target-subject:v1",
            SubjectDomain::DocumentSubject => "vtest:document-subject:v1",
            SubjectDomain::RecordSubject => "vtest:record-subject:v1",
            SubjectDomain::ExecutionState => "vtest:execution-state:v1",
        }
    }
}

/// A named field as written: the name's UTF-8 bytes and the payload.
pub open spec fn field_view(name: &str, value: FieldValue) -> (Seq<u8>, Payload) {
    (encode_utf8(name@), value.payload())
}

/// The named fields of a list, as written.
pub open spec fn field_views(fields: Seq<(&str, FieldValue)>) -> Seq<(Seq<u8>, Payload)> {
    fields.map_values(|f: (&str, FieldValue)| field_view(f.0, f.1))
}

/// The complete hash input for a domain and a list of fields.
pub open spec fn hash_input(domain: Seq<u8>, fields: Seq<(Seq<u8>, Payload)>) -> Seq<u8> {
    len_prefixed(domain) + fields_encoding(fields)
}

/// Builds one canonical hash input: a domain separator followed by
/// length-prefixed fields, and hashes it with SHA-256.
pub struct SubjectHashInput {
    buf: Vec<u8>,
}

impl View for SubjectHashInput {
    type V = Seq<u8>;

    closed spec fn view(&self) -> Seq<u8> {
        self.buf@
    }
}

impl SubjectHashInput {
    /// Starts a new hash input for the given subject domain.
    pub fn new(domain: SubjectDomain) -> (h: SubjectHashInput)
        ensures
            h@ == len_prefixed(encode_utf8(domain_name(domain))),
    {
        let mut buf: Vec<u8> = Vec::new();
        push_len_prefixed(&mut buf, domain.as_str().as_bytes());
        assert(buf@ =~= len_prefixed(encode_utf8(domain_name(domain))));
        SubjectHashInput { buf }
    }

    /// Appends one named field: its name, then its value.
    pub fn field(self, name: &str, value: FieldValue) -> (h: SubjectHashInput)
        ensures
            h@ == self@ + field_encoding(encode_utf8(name@), value.payload()),
    {
        let mut buf = self.buf;
        encode_field_into(&mut buf, name, value);
        SubjectHashInput { buf }
    }

    /// Finalizes the accumulated hash input into a content hash.
    pub fn finish(self) -> (h: ContentHash)
        ensures
            h@ == content_hash_text(sha256(self@)),
            crate::hash::is_content_hash_text(h@),
    {
        ContentHash::from_canonical_bytes(self.buf.as_slice())
    }
}

/// Encodes a nested record's fields as an opaque byte string (the same
/// field encoding as `SubjectHashInput::field`, without a domain
/// separator), for use as one element of a sequence, set or map value.
pub fn encode_nested_fields(fields: Vec<(&str, FieldValue)>) -> (out: Vec<u8>)
    ensures
        out@ == fields_encoding(field_views(fields@)),
{
    let ghost all = fields@;
    let mut rest = fields;
    let mut buf: Vec<u8> = Vec::new();
    let ghost mut done: int = 0;
    assert(field_views(all).take(0) =~= Seq::<(Seq<u8>, Payload)>::empty());
    while rest.len() > 0
        invariant
            0 <= done <= all.len(),
            rest@ == all.skip(done),
            buf@ == fields_encoding(field_views(all).take(done)),
        decreases rest.len(),
    {
        let (name, value) = rest.remove(0);
        let ghost t = field_views(all).take(done + 1);
        assert(all[done] == (name, value));
        encode_field_into(&mut buf, name, value);
        assert(t.drop_last() =~= field_views(all).take(done));
        proof {
            done = done + 1;
        }
        assert(rest@ =~= all.skip(done));
    }
    assert(field_views(all).take(done) =~= field_views(all));
    buf
}

} // verus!
