//! Verification objectives: the claim, its dimensions and partitions, its
//! coverage policy and the explicit combinations it requires.

use vstd::prelude::*;

use crate::document::DerivesFrom;
use crate::ids::VoId;
use crate::order::{key_order, pair_le, sort_by_key, sort_keys, SortKey};
use vstd::utf8::encode_utf8;

verus! {

broadcast use vstd::seq_lib::group_to_multiset_ensures;

/// A verification dimension and its allowed partitions.
#[derive(Clone, Debug, Eq, PartialEq)]
pub struct Dimension {
    pub name: String,
    pub partitions: Vec<String>,
}

/// One explicit combination: the declared (dimension name, partition
/// value) pairs, in declaration order, verbatim. A repeated dimension name
/// is kept rather than collapsed, so that the scan can report it.
#[derive(Clone, Debug, Default)]
pub struct CombinationEntry(Vec<(String, String)>);

/// The refusal to write an entry whose dimension names in `duplicates`
/// repeat.
pub open spec fn refusal_message(duplicates: Seq<Seq<char>>) -> Seq<char> {
    "combinations entry declares dimension `"@ + crate::scan_documents::join_with(duplicates, "`, `"@)
        + "` more than once; refusing to serialize a YAML mapping with a duplicate key"@
}

/// The views of a list of string pairs.
pub open spec fn pair_views(pairs: Seq<(String, String)>) -> Seq<(Seq<char>, Seq<char>)> {
    pairs.map_values(|p: (String, String)| (p.0@, p.1@))
}

/// The dimension names of a list of pairs, in order.
pub open spec fn pair_names(pairs: Seq<(Seq<char>, Seq<char>)>) -> Seq<Seq<char>> {
    pairs.map_values(|p: (Seq<char>, Seq<char>)| p.0)
}

/// The names that occur more than once, each once, in the order of its
/// second occurrence.
pub open spec fn repeated_names(names: Seq<Seq<char>>) -> Seq<Seq<char>>
    decreases names.len(),
{
    if names.len() == 0 {
        Seq::empty()
    } else {
        let earlier = repeated_names(names.drop_last());
        let x = names.last();
        if names.drop_last().contains(x) && !earlier.contains(x) {
            earlier.push(x)
        } else {
            earlier
        }
    }
}

/// The index of the first pair naming `dimension`, if any.
pub open spec fn first_index_of(pairs: Seq<(Seq<char>, Seq<char>)>, dimension: Seq<char>) -> Option<
    int,
> {
    if exists|i: int| 0 <= i < pairs.len() && pairs[i].0 == dimension {
        Some(
            choose|i: int|
                0 <= i < pairs.len() && pairs[i].0 == dimension && forall|j: int|
                    0 <= j < i ==> pairs[j].0 != dimension,
        )
    } else {
        None
    }
}

/// The UTF-8 bytes of each (name, value) pair.
pub open spec fn pair_key_views(pairs: Seq<(Seq<char>, Seq<char>)>) -> Seq<(Seq<u8>, Seq<u8>)> {
    pairs.map_values(|p: (Seq<char>, Seq<char>)| (encode_utf8(p.0), encode_utf8(p.1)))
}

/// The order on byte pairs as a relation.
pub open spec fn pair_order() -> spec_fn((Seq<u8>, Seq<u8>), (Seq<u8>, Seq<u8>)) -> bool {
    |a: (Seq<u8>, Seq<u8>), b: (Seq<u8>, Seq<u8>)| pair_le(a, b)
}

/// An entry's pairs as bytes, sorted by name and then by value: the form
/// in which it is hashed and compared.
pub open spec fn canonical_keys(pairs: Seq<(Seq<char>, Seq<char>)>) -> Seq<(Seq<u8>, Seq<u8>)> {
    pair_key_views(pairs).sort_by(pair_order())
}

impl View for CombinationEntry {
    type V = Seq<(Seq<char>, Seq<char>)>;

    closed spec fn view(&self) -> Seq<(Seq<char>, Seq<char>)> {
        pair_views(self.0@)
    }
}

impl CombinationEntry {
    /// An entry holding exactly the given pairs, in order.
    pub fn from_iter(pairs: Vec<(String, String)>) -> (e: CombinationEntry)
        ensures
            e@ == pair_views(pairs@),
    {
        CombinationEntry(pairs)
    }

    /// The number of declared pairs, a repeated name counted each time.
    pub fn len(&self) -> (n: usize)
        ensures
            n == self@.len(),
    {
        self.0.len()
    }

    /// Whether no pair is declared.
    pub fn is_empty(&self) -> (r: bool)
        ensures
            r == (self@.len() == 0),
    {
        self.0.len() == 0
    }

    /// The partition value of the first pair naming `dimension`, if any.
    pub fn get(&self, dimension: &str) -> (r: Option<&str>)
        ensures
            r is None <==> !exists|i: int| 0 <= i < self@.len() && self@[i].0 == dimension@,
            r matches Some(v) ==> exists|i: int|
                0 <= i < self@.len() && self@[i].0 == dimension@ && v@ == self@[i].1 && forall|
                    j: int,
                | 0 <= j < i ==> self@[j].0 != dimension@,
    {
        let mut i: usize = 0;
        while i < self.0.len()
            invariant
                i <= self@.len(),
                forall|j: int| 0 <= j < i ==> self@[j].0 != dimension@,
            decreases self.0.len() - i,
        {
            if crate::text::text_eq(self.0[i].0.as_str(), dimension) {
                assert(self@[i as int] == (self.0@[i as int].0@, self.0@[i as int].1@));
                return Some(self.0[i].1.as_str());
            }
            i = i + 1;
        }
        None
    }

    /// The declared pairs, in declaration order, a repeated name included.
    pub fn iter(&self) -> (out: Vec<(&str, &str)>)
        ensures
            out@.len() == self@.len(),
            forall|i: int| 0 <= i < out@.len() ==> (out@[i].0@, out@[i].1@) == self@[i],
    {
        let mut out: Vec<(&str, &str)> = Vec::new();
        let mut i: usize = 0;
        while i < self.0.len()
            invariant
                i <= self@.len(),
                out@.len() == i,
                forall|k: int| 0 <= k < i ==> (out@[k].0@, out@[k].1@) == self@[k],
            decreases self.0.len() - i,
        {
            out.push((self.0[i].0.as_str(), self.0[i].1.as_str()));
            i = i + 1;
        }
        out
    }

    /// The dimension names declared more than once: each such name once,
    /// in the order its second occurrence was declared. Empty when every
    /// name is unique, the empty entry included.
    pub fn duplicate_dimension_names(&self) -> (out: Vec<&str>)
        ensures
            out@.map_values(|s: &str| s@) == repeated_names(pair_names(self@)),
    {
        let ghost names = pair_names(self@);
        let mut seen: Vec<&str> = Vec::new();
        let mut duplicates: Vec<&str> = Vec::new();
        let mut i: usize = 0;
        while i < self.0.len()
            invariant
                i <= self@.len(),
                names == pair_names(self@),
                seen@.map_values(|s: &str| s@) == names.take(i as int),
                duplicates@.map_values(|s: &str| s@) == repeated_names(names.take(i as int)),
            decreases self.0.len() - i,
        {
            let name = self.0[i].0.as_str();
            let ghost prefix = names.take(i as int);
            let ghost next = names.take(i as int + 1);
            assert(next.drop_last() =~= prefix);
            assert(next.last() == name@);
            let was_seen = contains_text(&seen, name);
            let already = contains_text(&duplicates, name);
            if was_seen && !already {
                duplicates.push(name);
                assert(duplicates@.map_values(|s: &str| s@) =~= repeated_names(prefix).push(name@));
            }
            seen.push(name);
            assert(seen@.map_values(|s: &str| s@) =~= next);
            i = i + 1;
        }
        assert(names.take(i as int) =~= names);
        duplicates
    }

    /// Why the entry cannot be written as a mapping: `None` when every
    /// dimension name is unique; else the refusal naming each repeated
    /// name (as `duplicate_dimension_names` lists them).
    pub fn serialization_refusal(&self) -> (r: Option<String>)
        ensures
            repeated_names(pair_names(self@)).len() == 0 ==> r is None,
            repeated_names(pair_names(self@)).len() > 0 ==> (r matches Some(m) && m@ == refusal_message(
                repeated_names(pair_names(self@)),
            )),
    {
        let duplicates = self.duplicate_dimension_names();
        if duplicates.len() == 0 {
            return None;
        }
        let mut m = String::new();
        crate::text::push_text(&mut m, "combinations entry declares dimension `");
        let names = crate::scan_records::join_strs(&duplicates, "`, `");
        crate::text::push_text(&mut m, names.as_str());
        crate::text::push_text(
            &mut m,
            "` more than once; refusing to serialize a YAML mapping with a duplicate key",
        );
        proof {
            reveal_strlit("combinations entry declares dimension `");
            reveal_strlit("`, `");
            reveal_strlit("` more than once; refusing to serialize a YAML mapping with a duplicate key");
        }
        Some(m)
    }

    /// The declared pairs sorted by name and then by value.
    pub fn canonical_pairs(&self) -> (out: Vec<(String, String)>)
        ensures
            pair_key_views(pair_views(out@)) == canonical_keys(self@),
    {
        let mut copy: Vec<(String, String)> = Vec::new();
        let mut i: usize = 0;
        while i < self.0.len()
            invariant
                i <= self@.len(),
                pair_views(copy@) == self@.take(i as int),
            decreases self.0.len() - i,
        {
            let pair = (self.0[i].0.clone(), self.0[i].1.clone());
            let ghost before = copy@;
            copy.push(pair);
            assert(copy@ =~= before.push(pair));
            assert(self@[i as int] == (self.0@[i as int].0@, self.0@[i as int].1@));
            assert(pair_views(copy@) =~= pair_views(before).push((pair.0@, pair.1@)));
            assert(pair_views(copy@) =~= self@.take(i as int + 1));
            i = i + 1;
        }
        assert(self@.take(i as int) =~= self@);
        let sorted = sort_by_key(copy);
        proof {
            assert(sort_keys(sorted@) =~= pair_key_views(pair_views(sorted@)));
            assert(sort_keys(copy@) =~= pair_key_views(pair_views(copy@)));
            assert(key_order::<(String, String)>() =~= pair_order());
        }
        sorted
    }

    /// Whether the two entries declare the same pairs with the same
    /// multiplicities, whatever their order.
    pub fn same_pairs(&self, other: &CombinationEntry) -> (r: bool)
        ensures
            r == (self@.to_multiset() =~= other@.to_multiset()),
    {
        broadcast use vstd::multiset::group_multiset_axioms;

        if self.0.len() != other.0.len() {
            proof {
                self@.to_multiset_ensures();
                other@.to_multiset_ensures();
            }
            return false;
        }
        let mut rest: Vec<(&str, &str)> = other.iter();
        let ghost rest0 = rest@.map_values(|p: (&str, &str)| (p.0@, p.1@));
        assert(rest0 =~= other@);
        let mut i: usize = 0;
        while i < self.0.len()
            invariant
                i <= self@.len(),
                self@.len() == other@.len(),
                rest@.len() + i == other@.len(),
                self@.take(i as int).to_multiset().add(
                    rest@.map_values(|p: (&str, &str)| (p.0@, p.1@)).to_multiset(),
                ) =~= other@.to_multiset(),
            decreases self.0.len() - i,
        {
            let name = self.0[i].0.as_str();
            let value = self.0[i].1.as_str();
            let ghost x = self@[i as int];
            let ghost rv = rest@.map_values(|p: (&str, &str)| (p.0@, p.1@));
            let mut j: usize = 0;
            let mut found = false;
            while j < rest.len() && !found
                invariant
                    j <= rest@.len(),
                    rv == rest@.map_values(|p: (&str, &str)| (p.0@, p.1@)),
                    x == (name@, value@),
                    found ==> j < rest@.len() && rv[j as int] == x,
                    !found ==> forall|k: int| 0 <= k < j ==> rv[k] != x,
                decreases rest@.len() - j + (if found { 0int } else { 1int }),
            {
                if crate::text::text_eq(rest[j].0, name) && crate::text::text_eq(rest[j].1, value) {
                    found = true;
                } else {
                    j = j + 1;
                }
            }
            if !found {
                proof {
                    assert forall|k: int| 0 <= k < rv.len() implies rv[k] != x by {}
                assert(!rv.contains(x));
                    assert(rv.to_multiset().count(x) == 0);
                    assert(self@.take(i as int + 1) =~= self@.take(i as int).push(x));
                    assert(self@.take(i as int + 1).to_multiset().count(x)
                        == self@.take(i as int).to_multiset().count(x) + 1);
                    assert(other@.to_multiset().count(x) == self@.take(i as int).to_multiset().count(x));
                    let rest_of_self = self@.skip(i as int + 1);
                    assert(self@ =~= self@.take(i as int + 1) + rest_of_self);
                    vstd::seq_lib::lemma_multiset_commutative(self@.take(i as int + 1), rest_of_self);
                    assert(self@.to_multiset().count(x) >= self@.take(i as int + 1).to_multiset().count(x));
                    assert(self@.to_multiset().count(x) != other@.to_multiset().count(x));
                }
                return false;
            }
            let ghost before = rest@;
            rest.remove(j);
            proof {
                assert(rv[j as int] == x);
                let nv = rest@.map_values(|p: (&str, &str)| (p.0@, p.1@));
                assert(nv =~= rv.remove(j as int));
                assert(rv.remove(j as int).to_multiset() =~= rv.to_multiset().remove(x));
                assert(self@.take(i as int + 1) =~= self@.take(i as int).push(x));
                assert(rv.to_multiset().count(x) > 0);
            }
            i = i + 1;
        }
        proof {
            assert(self@.take(i as int) =~= self@);
            assert(rest@.len() == 0);
            assert(rest@.map_values(|p: (&str, &str)| (p.0@, p.1@)) =~= Seq::<(Seq<char>, Seq<char>)>::empty());
        }
        true
    }
}

/// Whether `list` holds a string equal to `s`.
fn contains_text(list: &Vec<&str>, s: &str) -> (r: bool)
    ensures
        r == list@.map_values(|t: &str| t@).contains(s@),
{
    let ghost views = list@.map_values(|t: &str| t@);
    let mut i: usize = 0;
    while i < list.len()
        invariant
            i <= list@.len(),
            views == list@.map_values(|t: &str| t@),
            forall|k: int| 0 <= k < i ==> views[k] != s@,
        decreases list.len() - i,
    {
        if crate::text::text_eq(list[i], s) {
            assert(views[i as int] == s@);
            return true;
        }
        i = i + 1;
    }
    false
}

impl PartialEq for CombinationEntry {
    fn eq(&self, other: &Self) -> (r: bool) {
        self.same_pairs(other)
    }
}

impl vstd::std_specs::cmp::PartialEqSpecImpl for CombinationEntry {
    open spec fn obeys_eq_spec() -> bool {
        true
    }

    open spec fn eq_spec(&self, other: &CombinationEntry) -> bool {
        self@.to_multiset() =~= other@.to_multiset()
    }
}

impl Eq for CombinationEntry {}

/// How dimension coverage is evaluated.
#[derive(Clone, Copy, Debug, Eq, PartialEq)]
pub enum CoveragePolicy {
    /// Each dimension is covered independently.
    IndependentAxes,
    /// Every combination of partitions must be covered.
    FullProduct,
    /// Only the listed combinations are required.
    Explicit,
}

/// The canonical record of a verification objective.
#[derive(Clone, Debug, Eq, PartialEq)]
pub struct VoRecord {
    pub id: VoId,
    pub parent: Option<VoId>,
    pub derives_from: Vec<DerivesFrom>,
    pub claim: String,
    pub dimensions: Vec<Dimension>,
    pub coverage_policy: Option<CoveragePolicy>,
    pub combinations: Vec<CombinationEntry>,
    pub representative_cases: Vec<String>,
    pub created: String,
    pub updated: String,
}

} // verus!
