//! Byte-wise lexicographic order, and sorting by a total order.
//!
//! Rust orders `Vec<u8>`, `&str` and `String` values lexicographically by
//! their bytes; the spec function `lex_le` states that order, and the
//! sorting routines here are proved to produce the unique sorted
//! rearrangement of their input.

use vstd::prelude::*;
use vstd::relations::{sorted_by, total_ordering};
use vstd::utf8::encode_utf8;

verus! {

broadcast use vstd::seq_lib::group_to_multiset_ensures;

/// `a` comes before `b` (or equals it) in byte-wise lexicographic order.
pub open spec fn lex_le(a: Seq<u8>, b: Seq<u8>) -> bool
    decreases a.len(),
{
    if a.len() == 0 {
        true
    } else if b.len() == 0 {
        false
    } else if a[0] < b[0] {
        true
    } else if a[0] > b[0] {
        false
    } else {
        lex_le(a.drop_first(), b.drop_first())
    }
}

pub(crate) proof fn lemma_lex_le_reflexive(a: Seq<u8>)
    ensures
        lex_le(a, a),
    decreases a.len(),
{
    if a.len() > 0 {
        lemma_lex_le_reflexive(a.drop_first());
    }
}

pub(crate) proof fn lemma_lex_le_antisymmetric(a: Seq<u8>, b: Seq<u8>)
    requires
        lex_le(a, b),
        lex_le(b, a),
    ensures
        a == b,
    decreases a.len(),
{
    if a.len() == 0 {
        assert(b.len() == 0);
        assert(a =~= b);
    } else {
        lemma_lex_le_antisymmetric(a.drop_first(), b.drop_first());
        assert(a =~= seq![a[0]] + a.drop_first());
        assert(b =~= seq![b[0]] + b.drop_first());
    }
}

pub(crate) proof fn lemma_lex_le_transitive(a: Seq<u8>, b: Seq<u8>, c: Seq<u8>)
    requires
        lex_le(a, b),
        lex_le(b, c),
    ensures
        lex_le(a, c),
    decreases a.len(),
{
    if a.len() > 0 && b.len() > 0 && c.len() > 0 {
        if a[0] == b[0] && b[0] == c[0] {
            lemma_lex_le_transitive(a.drop_first(), b.drop_first(), c.drop_first());
        }
    }
}

/// Two sequences strictly ascending in byte order that hold the same
/// members are equal.
pub(crate) proof fn lemma_strictly_sorted_same_members(a: Seq<Seq<u8>>, b: Seq<Seq<u8>>)
    requires
        forall|i: int, j: int| 0 <= i < j < a.len() ==> lex_le(a[i], a[j]) && a[i] != a[j],
        forall|i: int, j: int| 0 <= i < j < b.len() ==> lex_le(b[i], b[j]) && b[i] != b[j],
        forall|x: Seq<u8>| a.contains(x) <==> b.contains(x),
    ensures
        a == b,
    decreases a.len(),
{
    if a.len() == 0 {
        if b.len() > 0 {
            assert(b.contains(b[0]));
        }
        assert(a =~= b);
    } else {
        if b.len() == 0 {
            assert(a.contains(a[0]));
        }
        assert(a.contains(a[0]));
        assert(b.contains(b[0]));
        let j = choose|j: int| 0 <= j < b.len() && b[j] == a[0];
        let i = choose|i: int| 0 <= i < a.len() && a[i] == b[0];
        lemma_lex_le_reflexive(a[0]);
        assert(lex_le(a[0], b[0])) by {
            if i > 0 {
                assert(lex_le(a[0], a[i]));
            }
        }
        assert(lex_le(b[0], a[0])) by {
            if j > 0 {
                assert(lex_le(b[0], b[j]));
            }
        }
        lemma_lex_le_antisymmetric(a[0], b[0]);
        let ra = a.drop_first();
        let rb = b.drop_first();
        assert forall|x: Seq<u8>| ra.contains(x) <==> rb.contains(x) by {
            if ra.contains(x) {
                let k = choose|k: int| 0 <= k < ra.len() && ra[k] == x;
                assert(a[k + 1] == x && a[0] != a[k + 1]);
                assert(a.contains(x));
                let m = choose|m: int| 0 <= m < b.len() && b[m] == x;
                assert(m != 0);
                assert(rb[m - 1] == x);
            }
            if rb.contains(x) {
                let k = choose|k: int| 0 <= k < rb.len() && rb[k] == x;
                assert(b[k + 1] == x && b[0] != b[k + 1]);
                assert(b.contains(x));
                let m = choose|m: int| 0 <= m < a.len() && a[m] == x;
                assert(m != 0);
                assert(ra[m - 1] == x);
            }
        }
        lemma_strictly_sorted_same_members(ra, rb);
        assert(a =~= seq![a[0]] + ra);
        assert(b =~= seq![b[0]] + rb);
    }
}

pub(crate) proof fn lemma_lex_le_connected(a: Seq<u8>, b: Seq<u8>)
    ensures
        lex_le(a, b) || lex_le(b, a),
    decreases a.len(),
{
    if a.len() > 0 && b.len() > 0 && a[0] == b[0] {
        lemma_lex_le_connected(a.drop_first(), b.drop_first());
    }
}

/// Byte-wise lexicographic order is a total order.
pub proof fn lemma_lex_le_total()
    ensures
        total_ordering(|a: Seq<u8>, b: Seq<u8>| lex_le(a, b)),
{
    assert forall|a: Seq<u8>| lex_le(a, a) by {
        lemma_lex_le_reflexive(a);
    }
    assert forall|a: Seq<u8>, b: Seq<u8>| lex_le(a, b) && lex_le(b, a) implies a == b by {
        lemma_lex_le_antisymmetric(a, b);
    }
    assert forall|a: Seq<u8>, b: Seq<u8>, c: Seq<u8>|
        lex_le(a, b) && lex_le(b, c) implies lex_le(a, c) by {
        lemma_lex_le_transitive(a, b, c);
    }
    assert forall|a: Seq<u8>, b: Seq<u8>| lex_le(a, b) || lex_le(b, a) by {
        lemma_lex_le_connected(a, b);
    }
}

/// Compares two byte strings in lexicographic order.
pub fn bytes_le(a: &[u8], b: &[u8]) -> (r: bool)
    ensures
        r == lex_le(a@, b@),
{
    let mut i: usize = 0;
    assert(a@.skip(0) =~= a@ && b@.skip(0) =~= b@);
    while i < a.len() && i < b.len()
        invariant
            i <= a.len(),
            i <= b.len(),
            lex_le(a@, b@) == lex_le(a@.skip(i as int), b@.skip(i as int)),
        decreases a.len() - i,
    {
        if a[i] < b[i] {
            return true;
        }
        if a[i] > b[i] {
            return false;
        }
        assert(a@.skip(i as int).drop_first() =~= a@.skip(i as int + 1));
        assert(b@.skip(i as int).drop_first() =~= b@.skip(i as int + 1));
        i = i + 1;
    }
    i == a.len()
}

/// Two sequences sorted by the same total order that hold the same
/// elements (with multiplicity) are equal.
pub proof fn lemma_sorted_unique<T>(a: Seq<T>, b: Seq<T>, leq: spec_fn(T, T) -> bool)
    requires
        total_ordering(leq),
        sorted_by(a, leq),
        sorted_by(b, leq),
        a.to_multiset() =~= b.to_multiset(),
    ensures
        a == b,
    decreases a.len(),
{
    assert(a.to_multiset().len() == a.len());
    assert(b.to_multiset().len() == b.len());
    if a.len() == 0 {
        assert(b.len() == 0);
        assert(a =~= b);
    } else {
        assert(a.contains(a[0]));
        assert(b.to_multiset().count(a[0]) > 0);
        assert(b.contains(a[0]));
        let j = choose|j: int| 0 <= j < b.len() && b[j] == a[0];
        assert(a.to_multiset().count(b[0]) > 0);
        assert(a.contains(b[0]));
        let i = choose|i: int| 0 <= i < a.len() && a[i] == b[0];
        if i > 0 {
            assert(leq(a[0], a[i]));
        } else {
            assert(leq(a[0], a[0]));
        }
        if j > 0 {
            assert(leq(b[0], b[j]));
        } else {
            assert(leq(b[0], b[0]));
        }
        assert(a[0] == b[0]);
        let a1 = a.drop_first();
        let b1 = b.drop_first();
        assert(a1 =~= a.remove(0));
        assert(b1 =~= b.remove(0));
        assert(a1.to_multiset() =~= a.to_multiset().remove(a[0]));
        assert(b1.to_multiset() =~= b.to_multiset().remove(b[0]));
        assert forall|x: int, y: int| 0 <= x < y < a1.len() implies #[trigger] leq(a1[x], a1[y]) by {
            assert(a1[x] == a[x + 1] && a1[y] == a[y + 1]);
        }
        assert forall|x: int, y: int| 0 <= x < y < b1.len() implies #[trigger] leq(b1[x], b1[y]) by {
            assert(b1[x] == b[x + 1] && b1[y] == b[y + 1]);
        }
        lemma_sorted_unique(a1, b1, leq);
        assert(a =~= seq![a[0]] + a1);
        assert(b =~= seq![b[0]] + b1);
    }
}


/// A type whose values are arranged by a total order on a key.
pub trait SortKey: Sized {
    type Key;

    spec fn sort_key(&self) -> Self::Key;

    spec fn key_le(a: Self::Key, b: Self::Key) -> bool;

    proof fn lemma_key_le_total()
        ensures
            total_ordering(|a: Self::Key, b: Self::Key| Self::key_le(a, b)),
    ;

    fn le_by_key(&self, other: &Self) -> (r: bool)
        ensures
            r == Self::key_le(self.sort_key(), other.sort_key()),
    ;
}

/// The keys of a sequence of values, in order.
pub open spec fn sort_keys<T: SortKey>(s: Seq<T>) -> Seq<T::Key> {
    s.map_values(|x: T| x.sort_key())
}

/// The order on keys as a spec closure.
pub open spec fn key_order<T: SortKey>() -> spec_fn(T::Key, T::Key) -> bool {
    |a: T::Key, b: T::Key| T::key_le(a, b)
}

proof fn lemma_insert_multiset<A>(s: Seq<A>, p: int, a: A)
    requires
        0 <= p <= s.len(),
    ensures
        s.insert(p, a).to_multiset() =~= s.to_multiset().insert(a),
{
    broadcast use vstd::multiset::group_multiset_axioms;
    let t = s.insert(p, a);
    s.insert_ensures(p, a);
    assert(t.remove(p) =~= s);
    assert(t.remove(p).to_multiset() =~= t.to_multiset().remove(t[p]));
    assert(t.contains(a));
    assert(t.to_multiset().count(a) > 0);
}

/// Sorts values by their key, keeping every value.
///
/// The keys of the result are the keys of the input sorted by the key
/// order (so the result does not depend on the input's order beyond the
/// multiset of its keys), and the result holds the same values.
pub fn sort_by_key<T: SortKey>(v: Vec<T>) -> (r: Vec<T>)
    ensures
        sort_keys(r@) == sort_keys(v@).sort_by(key_order::<T>()),
        r@.to_multiset() =~= v@.to_multiset(),
{
    broadcast use vstd::multiset::group_multiset_axioms;
    proof {
        T::lemma_key_le_total();
    }
    let ghost orig = v@;
    let mut rest = v;
    let mut out: Vec<T> = Vec::new();
    while rest.len() > 0
        invariant
            total_ordering(key_order::<T>()),
            sorted_by(sort_keys(out@), key_order::<T>()),
            out@.to_multiset().add(rest@.to_multiset()) =~= orig.to_multiset(),
            sort_keys(out@).to_multiset().add(sort_keys(rest@).to_multiset())
                =~= sort_keys(orig).to_multiset(),
        decreases rest.len(),
    {
        let ghost old_rest = rest@;
        let x = rest.pop().unwrap();
        assert(old_rest =~= rest@.push(x));
        assert(sort_keys(old_rest) =~= sort_keys(rest@).push(x.sort_key()));
        let mut p: usize = 0;
        while p < out.len() && out[p].le_by_key(&x)
            invariant
                p <= out.len(),
                forall|k: int| 0 <= k < p ==> T::key_le(#[trigger] out@[k].sort_key(), x.sort_key()),
            decreases out.len() - p,
        {
            p = p + 1;
        }
        let ghost old_out = out@;
        out.insert(p, x);
        proof {
            assert(out@ =~= old_out.insert(p as int, x));
            assert(sort_keys(out@) =~= sort_keys(old_out).insert(p as int, x.sort_key()));
            lemma_insert_multiset(old_out, p as int, x);
            lemma_insert_multiset(sort_keys(old_out), p as int, x.sort_key());
            let leq = key_order::<T>();
            let ks = sort_keys(out@);
            assert forall|i: int, j: int| 0 <= i < j < ks.len() implies #[trigger] leq(ks[i], ks[j]) by {
                let ok = sort_keys(old_out);
                if j < p {
                    assert(ks[i] == ok[i] && ks[j] == ok[j]);
                } else if j == p {
                    assert(ks[i] == ok[i]);
                    assert(ks[j] == x.sort_key());
                    assert(T::key_le(old_out[i].sort_key(), x.sort_key()));
                } else if i == p {
                    assert(ks[j] == ok[j - 1]);
                    assert(ks[i] == x.sort_key());
                    assert(p < old_out.len());
                    assert(!T::key_le(ok[p as int], x.sort_key()));
                    assert(leq(ok[p as int], x.sort_key()) || leq(x.sort_key(), ok[p as int]));
                    assert(leq(x.sort_key(), ok[p as int]));
                    if j - 1 > p {
                        assert(leq(ok[p as int], ok[j - 1]));
                    }
                } else if i < p {
                    assert(ks[i] == ok[i] && ks[j] == ok[j - 1]);
                } else {
                    assert(ks[i] == ok[i - 1] && ks[j] == ok[j - 1]);
                }
            }
        }
    }
    proof {
        assert(rest@ =~= Seq::<T>::empty());
        assert(sort_keys(rest@) =~= Seq::<T::Key>::empty());
        sort_keys(orig).lemma_sort_by_ensures(key_order::<T>());
        lemma_sorted_unique(sort_keys(out@), sort_keys(orig).sort_by(key_order::<T>()), key_order::<T>());
    }
    out
}


impl SortKey for Vec<u8> {
    type Key = Seq<u8>;

    open spec fn sort_key(&self) -> Seq<u8> {
        self@
    }

    open spec fn key_le(a: Seq<u8>, b: Seq<u8>) -> bool {
        lex_le(a, b)
    }

    proof fn lemma_key_le_total() {
        lemma_lex_le_total();
        assert((|a: Seq<u8>, b: Seq<u8>| Self::key_le(a, b)) =~= (|a: Seq<u8>, b: Seq<u8>|
            lex_le(a, b)));
    }

    fn le_by_key(&self, other: &Self) -> (r: bool) {
        bytes_le(self.as_slice(), other.as_slice())
    }
}

impl SortKey for String {
    type Key = Seq<u8>;

    open spec fn sort_key(&self) -> Seq<u8> {
        vstd::utf8::encode_utf8(self@)
    }

    open spec fn key_le(a: Seq<u8>, b: Seq<u8>) -> bool {
        lex_le(a, b)
    }

    proof fn lemma_key_le_total() {
        lemma_lex_le_total();
        assert((|a: Seq<u8>, b: Seq<u8>| Self::key_le(a, b)) =~= (|a: Seq<u8>, b: Seq<u8>|
            lex_le(a, b)));
    }

    fn le_by_key(&self, other: &Self) -> (r: bool) {
        bytes_le(self.as_str().as_bytes(), other.as_str().as_bytes())
    }
}

/// Whether two byte strings are equal.
pub fn bytes_equal(a: &[u8], b: &[u8]) -> (r: bool)
    ensures
        r == (a@ == b@),
{
    if a.len() != b.len() {
        return false;
    }
    let mut i: usize = 0;
    while i < a.len()
        invariant
            a@.len() == b@.len(),
            i <= a@.len(),
            forall|k: int| 0 <= k < i ==> a@[k] == b@[k],
        decreases a.len() - i,
    {
        if a[i] != b[i] {
            return false;
        }
        i = i + 1;
    }
    assert(a@ =~= b@);
    true
}

/// Lexicographic order on pairs of byte strings: by the first component,
/// then by the second.
pub open spec fn pair_le(a: (Seq<u8>, Seq<u8>), b: (Seq<u8>, Seq<u8>)) -> bool {
    (lex_le(a.0, b.0) && a.0 != b.0) || (a.0 == b.0 && lex_le(a.1, b.1))
}

/// `pair_le` is a total order.
pub proof fn lemma_pair_le_total()
    ensures
        total_ordering(|a: (Seq<u8>, Seq<u8>), b: (Seq<u8>, Seq<u8>)| pair_le(a, b)),
{
    lemma_lex_le_total();
    assert forall|a: (Seq<u8>, Seq<u8>), b: (Seq<u8>, Seq<u8>)|
        pair_le(a, b) && pair_le(b, a) implies a == b by {
        if a.0 != b.0 {
            lemma_lex_le_antisymmetric(a.0, b.0);
        } else {
            lemma_lex_le_antisymmetric(a.1, b.1);
        }
    }
    assert forall|a: (Seq<u8>, Seq<u8>), b: (Seq<u8>, Seq<u8>), c: (Seq<u8>, Seq<u8>)|
        pair_le(a, b) && pair_le(b, c) implies pair_le(a, c) by {
        if a.0 == b.0 && b.0 == c.0 {
            lemma_lex_le_transitive(a.1, b.1, c.1);
        } else {
            lemma_lex_le_reflexive(a.0);
            lemma_lex_le_reflexive(b.0);
            lemma_lex_le_transitive(a.0, b.0, c.0);
            if a.0 == c.0 {
                if a.0 != b.0 {
                    lemma_lex_le_antisymmetric(a.0, b.0);
                }
            }
        }
    }
    assert forall|a: (Seq<u8>, Seq<u8>)| pair_le(a, a) by {
        lemma_lex_le_reflexive(a.1);
    }
    assert forall|a: (Seq<u8>, Seq<u8>), b: (Seq<u8>, Seq<u8>)| pair_le(a, b) || pair_le(b, a) by {
        lemma_lex_le_connected(a.0, b.0);
        lemma_lex_le_connected(a.1, b.1);
    }
}

impl SortKey for (String, String) {
    type Key = (Seq<u8>, Seq<u8>);

    open spec fn sort_key(&self) -> (Seq<u8>, Seq<u8>) {
        (encode_utf8(self.0@), encode_utf8(self.1@))
    }

    open spec fn key_le(a: (Seq<u8>, Seq<u8>), b: (Seq<u8>, Seq<u8>)) -> bool {
        pair_le(a, b)
    }

    proof fn lemma_key_le_total() {
        lemma_pair_le_total();
        assert((|a: (Seq<u8>, Seq<u8>), b: (Seq<u8>, Seq<u8>)| Self::key_le(a, b)) =~= (|
            a: (Seq<u8>, Seq<u8>),
            b: (Seq<u8>, Seq<u8>),
        | pair_le(a, b)));
    }

    fn le_by_key(&self, other: &Self) -> (r: bool) {
        let a0 = self.0.as_str().as_bytes();
        let b0 = other.0.as_str().as_bytes();
        if bytes_equal(a0, b0) {
            bytes_le(self.1.as_str().as_bytes(), other.1.as_str().as_bytes())
        } else {
            bytes_le(a0, b0)
        }
    }
}

/// The order on (key, position) pairs: by key, then by position.
pub open spec fn ranked_le<T: SortKey>(a: (T::Key, int), b: (T::Key, int)) -> bool {
    T::key_le(a.0, b.0) && (!T::key_le(b.0, a.0) || a.1 <= b.1)
}

/// The order on (key, position) pairs as a relation.
pub open spec fn ranked_order<T: SortKey>() -> spec_fn((T::Key, int), (T::Key, int)) -> bool {
    |a: (T::Key, int), b: (T::Key, int)| ranked_le::<T>(a, b)
}

/// Each element's key paired with its position.
pub open spec fn ranked_keys<T: SortKey>(s: Seq<T>) -> Seq<(T::Key, int)> {
    Seq::new(s.len(), |i: int| (s[i].sort_key(), i))
}

/// A stable sort: the elements in the order of their (key, position)
/// pairs, so that elements with equal keys keep their relative order.
pub open spec fn stable_sorted<T: SortKey>(s: Seq<T>) -> Seq<T> {
    ranked_keys(s).sort_by(ranked_order::<T>()).map_values(|k: (T::Key, int)| s[k.1])
}

impl<T: SortKey> SortKey for (usize, T) {
    type Key = (T::Key, int);

    open spec fn sort_key(&self) -> (T::Key, int) {
        (self.1.sort_key(), self.0 as int)
    }

    open spec fn key_le(a: (T::Key, int), b: (T::Key, int)) -> bool {
        ranked_le::<T>(a, b)
    }

    proof fn lemma_key_le_total() {
        T::lemma_key_le_total();
        let inner = |a: T::Key, b: T::Key| T::key_le(a, b);
        assert forall|a: T::Key, b: T::Key| #[trigger] T::key_le(a, b) == inner(a, b) by {}
        assert((|a: (T::Key, int), b: (T::Key, int)| Self::key_le(a, b)) =~= ranked_order::<T>());
        assert forall|a: (T::Key, int)| ranked_le::<T>(a, a) by {
            assert(inner(a.0, a.0));
        }
        assert forall|a: (T::Key, int), b: (T::Key, int)|
            ranked_le::<T>(a, b) && ranked_le::<T>(b, a) implies a == b by {
            assert(inner(a.0, b.0) && inner(b.0, a.0));
        }
        assert forall|a: (T::Key, int), b: (T::Key, int), c: (T::Key, int)|
            ranked_le::<T>(a, b) && ranked_le::<T>(b, c) implies ranked_le::<T>(a, c) by {
            assert(inner(a.0, b.0) && inner(b.0, c.0));
            if T::key_le(c.0, a.0) {
                assert(inner(c.0, a.0));
                assert(inner(b.0, a.0));
                assert(inner(c.0, b.0));
            }
        }
        assert forall|a: (T::Key, int), b: (T::Key, int)| ranked_le::<T>(a, b) || ranked_le::<T>(b, a) by {
            assert(inner(a.0, b.0) || inner(b.0, a.0));
        }
    }

    fn le_by_key(&self, other: &Self) -> (r: bool) {
        let ab = self.1.le_by_key(&other.1);
        let ba = other.1.le_by_key(&self.1);
        ab && (!ba || self.0 <= other.0)
    }
}

/// Sorts values by key, keeping values with equal keys in their given
/// order.
pub fn stable_sort_by_key<T: SortKey>(v: Vec<T>) -> (r: Vec<T>)
    ensures
        r@ == stable_sorted(v@),
{
    let ghost orig = v@;
    let mut tagged: Vec<(usize, T)> = Vec::new();
    let mut rest = v;
    let ghost mut done: int = 0;
    let mut n: usize = 0;
    let total = rest.len();
    while rest.len() > 0
        invariant
            0 <= done <= orig.len(),
            total == orig.len(),
            n == done,
            rest@ == orig.skip(done),
            tagged@.len() == done,
            forall|i: int| 0 <= i < done ==> #[trigger] tagged@[i] == (i as usize, orig[i]),
        decreases rest.len(),
    {
        let x = rest.remove(0);
        assert(orig[done] == x);
        tagged.push((n, x));
        n = n + 1;
        proof {
            done = done + 1;
        }
        assert(rest@ =~= orig.skip(done));
    }
    let ghost t = tagged@;
    assert(sort_keys(t) =~= ranked_keys(orig));
    let sorted = sort_by_key(tagged);
    proof {
        assert(key_order::<(usize, T)>() =~= ranked_order::<T>());
    }
    let ghost st = sorted@;
    let mut out: Vec<T> = Vec::new();
    let mut rest = sorted;
    let ghost mut k: int = 0;
    while rest.len() > 0
        invariant
            0 <= k <= st.len(),
            rest@ == st.skip(k),
            out@.len() == k,
            st.to_multiset() =~= t.to_multiset(),
            t.len() == orig.len(),
            total == orig.len(),
            forall|i: int| 0 <= i < t.len() ==> #[trigger] t[i] == (i as usize, orig[i]),
            sort_keys(st) == ranked_keys(orig).sort_by(ranked_order::<T>()),
            forall|i: int| 0 <= i < k ==> #[trigger] out@[i] == orig[sort_keys(st)[i].1],
        decreases rest.len(),
    {
        let (idx, x) = rest.remove(0);
        proof {
            assert(st[k] == (idx, x));
            assert(st.contains(st[k]));
            assert(st.to_multiset().count(st[k]) > 0);
            assert(t.to_multiset().count(st[k]) > 0);
            assert(t.contains(st[k]));
            let j = choose|j: int| 0 <= j < t.len() && t[j] == st[k];
            assert(t[j] == (j as usize, orig[j]));
            assert(sort_keys(st)[k] == st[k].sort_key());
            assert(sort_keys(st)[k].1 == j);
            assert(x == orig[sort_keys(st)[k].1]);
        }
        let ghost before = out@;
        out.push(x);
        assert(forall|i: int| 0 <= i < k ==> out@[i] == before[i]);
        proof {
            k = k + 1;
        }
        assert(rest@ =~= st.skip(k));
    }
    proof {
        assert(sort_keys(st).len() == st.len());
        assert(out@ =~= stable_sorted(orig));
    }
    out
}

/// A stable sort keeps every value as often as it occurs, and puts the
/// values in order of their keys.
pub proof fn lemma_stable_sorted_permutes_and_orders<T: SortKey>(s: Seq<T>)
    ensures
        stable_sorted(s).to_multiset() =~= s.to_multiset(),
        forall|i: int, j: int|
            0 <= i < j < stable_sorted(s).len() ==> T::key_le(
                #[trigger] stable_sorted(s)[i].sort_key(),
                #[trigger] stable_sorted(s)[j].sort_key(),
            ),
{
    broadcast use vstd::seq_lib::group_to_multiset_ensures;

    <(usize, T) as SortKey>::lemma_key_le_total();
    assert(key_order::<(usize, T)>() =~= ranked_order::<T>());
    assert((|a: (T::Key, int), b: (T::Key, int)| <(usize, T) as SortKey>::key_le(a, b)) =~= ranked_order::<T>());
    let r = ranked_keys(s);
    let sr = r.sort_by(ranked_order::<T>());
    r.lemma_sort_by_ensures(ranked_order::<T>());
    assert(sr.to_multiset().len() == sr.len());
    assert(r.to_multiset().len() == r.len());
    assert(sr.len() == r.len());
    let f = |k: (T::Key, int)| s[k.1];
    crate::subject_laws::lemma_map_values_multiset(sr, r, f);
    assert(r.map_values(f) =~= s);
    assert forall|i: int| 0 <= i < sr.len() implies exists|k: int| 0 <= k < r.len() && r[k] == #[trigger] sr[i] by {
        assert(sr.contains(sr[i]));
        assert(sr.to_multiset().count(sr[i]) > 0);
        assert(r.contains(sr[i]));
    }
    let out = stable_sorted(s);
    assert forall|i: int, j: int| 0 <= i < j < out.len() implies T::key_le(
        #[trigger] out[i].sort_key(),
        #[trigger] out[j].sort_key(),
    ) by {
        let ki = choose|k: int| 0 <= k < r.len() && r[k] == sr[i];
        let kj = choose|k: int| 0 <= k < r.len() && r[k] == sr[j];
        assert(out[i] == s[ki]);
        assert(out[j] == s[kj]);
        assert(ranked_order::<T>()(sr[i], sr[j]));
    }
}

} // verus!
