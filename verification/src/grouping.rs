//! Grouping keyed values by key, with the groups in ascending key order
//! (byte-wise) and each group's values in the order they were given.

use vstd::prelude::*;
use vstd::utf8::encode_utf8;

use crate::encoding::{lex_order, sorted_set};
use crate::order::{bytes_equal, bytes_le, key_order, lex_le, lemma_lex_le_total, sort_by_key, sort_keys, SortKey};
use crate::subject_hash::first_occurrences;

verus! {

broadcast use vstd::seq_lib::group_to_multiset_ensures;

/// The keys' UTF-8 bytes, in order.
pub open spec fn occurrence_keys<V>(occ: Seq<(String, V)>) -> Seq<Seq<u8>> {
    occ.map_values(|p: (String, V)| encode_utf8(p.0@))
}

/// The values given under key `k`, in order.
pub open spec fn values_for<V>(occ: Seq<(String, V)>, k: Seq<u8>) -> Seq<V>
    decreases occ.len(),
{
    if occ.len() == 0 {
        Seq::empty()
    } else {
        let earlier = values_for(occ.drop_last(), k);
        if encode_utf8(occ.last().0@) == k {
            earlier.push(occ.last().1)
        } else {
            earlier
        }
    }
}

/// The distinct keys, ascending by bytes.
pub open spec fn group_keys<V>(occ: Seq<(String, V)>) -> Seq<Seq<u8>> {
    sorted_set(first_occurrences(occurrence_keys(occ)))
}

/// `groups` holds one group per distinct key of `occ`, ascending by key,
/// each with the values given under its key, in order.
pub open spec fn is_grouping<V>(occ: Seq<(String, V)>, groups: Seq<(String, Vec<V>)>) -> bool {
    &&& groups.len() == group_keys(occ).len()
    &&& forall|i: int|
        0 <= i < groups.len() ==> encode_utf8(#[trigger] groups[i].0@) == group_keys(occ)[i]
            && groups[i].1@ == values_for(occ, group_keys(occ)[i])
}

impl<V> SortKey for (String, Vec<V>) {
    type Key = Seq<u8>;

    open spec fn sort_key(&self) -> Seq<u8> {
        encode_utf8(self.0@)
    }

    open spec fn key_le(a: Seq<u8>, b: Seq<u8>) -> bool {
        lex_le(a, b)
    }

    proof fn lemma_key_le_total() {
        lemma_lex_le_total();
        assert((|a: Seq<u8>, b: Seq<u8>| Self::key_le(a, b)) =~= (|a: Seq<u8>, b: Seq<u8>|
            lex_le(a, b)));
    }

    fn le_by_key(&self, other: &Self) -> (r: bool) {
        bytes_le(self.0.as_str().as_bytes(), other.0.as_str().as_bytes())
    }
}

/// Groups `occ` by key: one group per distinct key, ascending by the key's
/// bytes, each holding the values given under that key in their order.
pub fn group_by_key<V>(occ: Vec<(String, V)>) -> (groups: Vec<(String, Vec<V>)>)
    ensures
        is_grouping(occ@, groups@),
{
    let ghost all = occ@;
    let ghost keys = occurrence_keys(all);
    let mut rest = occ;
    let mut groups: Vec<(String, Vec<V>)> = Vec::new();
    let ghost mut done: int = 0;
    while rest.len() > 0
        invariant
            0 <= done <= all.len(),
            rest@ == all.skip(done),
            keys == occurrence_keys(all),
            groups@.len() == first_occurrences(keys.take(done)).len(),
            forall|g: int|
                0 <= g < groups@.len() ==> encode_utf8(#[trigger] groups@[g].0@)
                    == first_occurrences(keys.take(done))[g] && groups@[g].1@ == values_for(
                    all.take(done),
                    first_occurrences(keys.take(done))[g],
                ),
        decreases rest.len(),
    {
        let (key, value) = rest.remove(0);
        assert(all[done] == (key, value));
        let ghost prev_keys = keys.take(done);
        let ghost next_keys = keys.take(done + 1);
        let ghost prev_occ = all.take(done);
        let ghost next_occ = all.take(done + 1);
        assert(next_keys.drop_last() =~= prev_keys);
        assert(next_keys.last() == encode_utf8(key@));
        assert(next_occ.drop_last() =~= prev_occ);
        assert(next_occ.last() == (key, value));
        let ghost fo = first_occurrences(prev_keys);
        assert(occurrence_keys(prev_occ) =~= prev_keys);
        let mut g: usize = 0;
        let mut found = false;
        while g < groups.len() && !found
            invariant
                g <= groups@.len(),
                groups@.len() == fo.len(),
                forall|h: int| 0 <= h < groups@.len() ==> encode_utf8(#[trigger] groups@[h].0@) == fo[h],
                found ==> g < groups@.len() && fo[g as int] == encode_utf8(key@),
                !found ==> forall|h: int| 0 <= h < g ==> fo[h] != encode_utf8(key@),
            decreases groups@.len() - g + (if found { 0int } else { 1int }),
        {
            if bytes_equal(groups[g].0.as_str().as_bytes(), key.as_str().as_bytes()) {
                found = true;
            } else {
                g = g + 1;
            }
        }
        let ghost before = groups@;
        if found {
            let mut group = groups.remove(g);
            group.1.push(value);
            groups.insert(g, group);
            proof {
                assert(fo.contains(encode_utf8(key@)));
                assert(first_occurrences(next_keys) == fo);
                assert forall|h: int| 0 <= h < groups@.len() implies encode_utf8(#[trigger] groups@[h].0@)
                    == fo[h] && groups@[h].1@ == values_for(next_occ, fo[h]) by {
                    if h == g {
                        assert(values_for(next_occ, fo[h]) =~= values_for(prev_occ, fo[h]).push(value));
                    } else {
                        assert(groups@[h] == before[h]);
                        assert(fo[h] != fo[g as int]) by {
                            crate::subject_laws::lemma_first_occurrences_no_dup(prev_keys);
                        }
                        assert(values_for(next_occ, fo[h]) == values_for(prev_occ, fo[h]));
                    }
                }
            }
        } else {
            let mut values: Vec<V> = Vec::new();
            values.push(value);
            groups.push((key, values));
            proof {
                assert forall|h: int| 0 <= h < fo.len() implies fo[h] != encode_utf8(key@) by {}
                assert(!fo.contains(encode_utf8(key@)));
                assert(first_occurrences(next_keys) == fo.push(encode_utf8(key@)));
                crate::subject_laws::lemma_first_occurrences_members(prev_keys);
                assert(!prev_keys.contains(encode_utf8(key@)));
                lemma_values_for_absent(prev_occ, encode_utf8(key@));
                assert(values_for(next_occ, encode_utf8(key@)) =~= seq![value]);
                assert forall|h: int| 0 <= h < groups@.len() implies encode_utf8(#[trigger] groups@[h].0@)
                    == first_occurrences(next_keys)[h] && groups@[h].1@ == values_for(
                    next_occ,
                    first_occurrences(next_keys)[h],
                ) by {
                    if h < fo.len() {
                        assert(groups@[h] == before[h]);
                        assert(values_for(next_occ, fo[h]) == values_for(prev_occ, fo[h]));
                    }
                }
            }
        }
        assert(groups@.len() == first_occurrences(next_keys).len());
        assert(forall|h: int|
            0 <= h < groups@.len() ==> encode_utf8(#[trigger] groups@[h].0@) == first_occurrences(
                next_keys,
            )[h] && groups@[h].1@ == values_for(next_occ, first_occurrences(next_keys)[h]));
        proof {
            done = done + 1;
        }
        assert(rest@ =~= all.skip(done));
    }
    assert(keys.take(done) =~= keys);
    assert(all.take(done) =~= all);
    let ghost unsorted = groups@;
    let sorted = sort_by_key(groups);
    proof {
        assert(sort_keys(unsorted) =~= first_occurrences(keys));
        assert(key_order::<(String, Vec<V>)>() =~= lex_order());
        assert forall|i: int| 0 <= i < sorted@.len() implies encode_utf8(#[trigger] sorted@[i].0@)
            == group_keys(all)[i] && sorted@[i].1@ == values_for(all, group_keys(all)[i]) by {
            assert(sort_keys(sorted@)[i] == encode_utf8(sorted@[i].0@));
            assert(sorted@.contains(sorted@[i]));
            assert(sorted@.to_multiset().count(sorted@[i]) > 0);
            assert(unsorted.to_multiset().count(sorted@[i]) > 0);
            assert(unsorted.contains(sorted@[i]));
            let j = choose|j: int| 0 <= j < unsorted.len() && unsorted[j] == sorted@[i];
            assert(encode_utf8(unsorted[j].0@) == first_occurrences(keys)[j]);
        }
    }
    sorted
}

proof fn lemma_values_for_absent<V>(occ: Seq<(String, V)>, k: Seq<u8>)
    requires
        !occurrence_keys(occ).contains(k),
    ensures
        values_for(occ, k) == Seq::<V>::empty(),
    decreases occ.len(),
{
    if occ.len() > 0 {
        assert(occurrence_keys(occ.drop_last()) =~= occurrence_keys(occ).drop_last());
        if occurrence_keys(occ.drop_last()).contains(k) {
            let i = choose|i: int| 0 <= i < occ.len() - 1 && occurrence_keys(occ.drop_last())[i] == k;
            assert(occurrence_keys(occ)[i] == k);
        }
        lemma_values_for_absent(occ.drop_last(), k);
        assert(occurrence_keys(occ)[occ.len() - 1] == encode_utf8(occ.last().0@));
    }
}

} // verus!
