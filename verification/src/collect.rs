//! The decoding rules of `HashSet` and `HashMap`: a list, one element or one
//! entry `key = value` on each line, gathered into the collection.

use crate::error::IResult;
use crate::input::Input;
use crate::list::list_spec;
use crate::parse::ParseFrom;
use crate::sequence::KeyValue;
use std::collections::HashMap;
use std::collections::HashSet;
use std::hash::BuildHasher;
use std::hash::Hash;
use vstd::prelude::*;
use vstd::std_specs::hash::{builds_valid_hashers, obeys_key_model};

verus! {

/// Whether a hash table with keys of type `K`, hashed by `S`, is known to
/// behave as a set or map of its keys: `K` is compared and hashed as the
/// verifier's model of hash tables asks, and `S` builds hashers that it
/// accepts.
pub open spec fn hashes_as_modelled<K, S>() -> bool {
    obeys_key_model::<K>() && builds_valid_hashers::<S>()
}

/// The set of the first `n + 1` elements of `s` is that of the first `n`
/// with the element at `n`.
pub proof fn lemma_take_to_set<A>(s: Seq<A>, n: int)
    requires
        0 <= n < s.len(),
    ensures
        s.take(n + 1).to_set() == s.take(n).to_set().insert(s[n]),
{
    let longer = s.take(n + 1);
    let shorter = s.take(n);
    assert forall|a: A| longer.to_set().contains(a) <==> shorter.to_set().insert(s[n]).contains(
        a,
    ) by {
        if longer.contains(a) {
            let j = choose|j: int| 0 <= j < longer.len() && longer[j] == a;
            if j < n {
                assert(shorter[j] == a);
            }
        }
        if shorter.contains(a) {
            let j = choose|j: int| 0 <= j < shorter.len() && shorter[j] == a;
            assert(longer[j] == a);
        }
        assert(longer[n] == s[n]);
    }
    assert(longer.to_set() =~= shorter.to_set().insert(s[n]));
}

/// Gathers `items` into a hash set. What the set holds is stated where hash
/// tables of `T` and `S` behave as modelled.
pub fn into_hash_set<T: Eq + Hash, S: BuildHasher + Default>(items: Vec<T>) -> (set: HashSet<T, S>)
    ensures
        hashes_as_modelled::<T, S>() ==> set@ == items@.to_set(),
{
    let mut set: HashSet<T, S> = Default::default();
    let ghost all = items@;
    proof {
        assert(all.take(0).to_set() =~= Set::<T>::empty());
    }
    for item in it: items.into_iter()
        invariant
            it.seq() == all,
            hashes_as_modelled::<T, S>() ==> set@ == all.take(it.index() as int).to_set(),
    {
        proof {
            lemma_take_to_set(all, it.index() as int);
        }
        set.insert(item);
    }
    proof {
        assert(all.take(all.len() as int) =~= all);
    }
    set
}

/// The set of the deep views of the elements of a vector is the set of the
/// elements of its deep view.
pub proof fn lemma_to_set_deep_view<T: DeepView>(items: Vec<T>)
    ensures
        items@.to_set().map(|x: T| x.deep_view()) == items.deep_view().to_set(),
{
    let f = |x: T| x.deep_view();
    let left = items@.to_set().map(f);
    let right = items.deep_view().to_set();
    assert forall|d: T::V| left.contains(d) <==> right.contains(d) by {
        if left.contains(d) {
            let x = choose|x: T| items@.to_set().contains(x) && d == f(x);
            let j = choose|j: int| 0 <= j < items@.len() && items@[j] == x;
            assert(items.deep_view()[j] == d);
        }
        if right.contains(d) {
            let j = choose|j: int| 0 <= j < items.deep_view().len() && items.deep_view()[j] == d;
            assert(items@.to_set().contains(items@[j]));
            assert(d == f(items@[j]));
        }
    }
    assert(left =~= right);
}

/// A set is decoded as a list is, and holds the elements of the list. The
/// rule is held to its model where that of `T` is and hash tables of `T` and
/// `S` behave as modelled.
impl<I: Input, T: ParseFrom<I> + Eq + Hash, S: BuildHasher + Default> ParseFrom<I> for HashSet<
    T,
    S,
> {
    open spec fn obeys_parse_spec() -> bool {
        T::obeys_parse_spec() && hashes_as_modelled::<T, S>()
    }

    open spec fn parse_spec(input: Seq<char>) -> IResult<Seq<char>, Set<T::V>> {
        match list_spec::<I, T>(input) {
            Ok((rest, items)) => Ok((rest, items.to_set())),
            Err(e) => Err(e),
        }
    }

    fn parse(input: I) -> (r: IResult<I, HashSet<T, S>>) {
        match <Vec<T> as ParseFrom<I>>::parse(input) {
            Ok((rest, items)) => {
                proof {
                    lemma_to_set_deep_view(items);
                }
                Ok((rest, into_hash_set(items)))
            },
            Err(e) => Err(e),
        }
    }
}

/// The map that holds each pair of `pairs` as a key and its value; where a
/// key occurs more than once, its last value stands.
pub open spec fn pairs_to_map<A, B>(pairs: Seq<(A, B)>) -> Map<A, B>
    decreases pairs.len(),
{
    if pairs.len() == 0 {
        Map::empty()
    } else {
        pairs_to_map(pairs.drop_last()).insert(pairs.last().0, pairs.last().1)
    }
}

/// The last value of a key stands: a pair whose key does not occur after it
/// is in the map.
pub proof fn law_last_value_stands<A, B>(pairs: Seq<(A, B)>, i: int)
    requires
        0 <= i < pairs.len(),
        forall|j: int| i < j < pairs.len() ==> pairs[j].0 != pairs[i].0,
    ensures
        pairs_to_map(pairs).contains_key(pairs[i].0),
        pairs_to_map(pairs)[pairs[i].0] == pairs[i].1,
    decreases pairs.len(),
{
    if i < pairs.len() - 1 {
        let front = pairs.drop_last();
        assert(front[i] == pairs[i]);
        assert forall|j: int| i < j < front.len() implies front[j].0 != front[i].0 by {
            assert(front[j] == pairs[j]);
        }
        law_last_value_stands(front, i);
    }
}

/// The keys of the map are the keys of the pairs, and no others.
pub proof fn law_map_keys<A, B>(pairs: Seq<(A, B)>, key: A)
    ensures
        pairs_to_map(pairs).contains_key(key) <==> exists|i: int|
            0 <= i < pairs.len() && (#[trigger] pairs[i]).0 == key,
    decreases pairs.len(),
{
    if pairs.len() > 0 {
        let front = pairs.drop_last();
        law_map_keys(front, key);
        if pairs_to_map(pairs).contains_key(key) {
            if pairs.last().0 == key {
                assert(pairs[pairs.len() - 1].0 == key);
            } else {
                let i = choose|i: int| 0 <= i < front.len() && (#[trigger] front[i]).0 == key;
                assert(pairs[i].0 == key);
            }
        }
        if exists|i: int| 0 <= i < pairs.len() && (#[trigger] pairs[i]).0 == key {
            let i = choose|i: int| 0 <= i < pairs.len() && (#[trigger] pairs[i]).0 == key;
            if i < pairs.len() - 1 {
                assert(front[i].0 == key);
            }
        }
    }
}

/// The keys and values of `entries` as pairs.
pub open spec fn entry_pairs<K, V>(entries: Seq<KeyValue<K, V>>) -> Seq<(K, V)> {
    entries.map_values(|e: KeyValue<K, V>| (e.key, e.value))
}

/// Gathers `entries` into a hash map, in their order: where a key occurs
/// more than once, its last value stands. What the map holds is stated where
/// hash tables of `K` and `S` behave as modelled.
pub fn into_hash_map<K: Eq + Hash, V, S: BuildHasher + Default>(
    entries: Vec<KeyValue<K, V>>,
) -> (map: HashMap<K, V, S>)
    ensures
        hashes_as_modelled::<K, S>() ==> map@ == pairs_to_map(entry_pairs(entries@)),
{
    let mut map: HashMap<K, V, S> = Default::default();
    let ghost all = entry_pairs(entries@);
    for entry in it: entries.into_iter()
        invariant
            entry_pairs(it.seq()) == all,
            hashes_as_modelled::<K, S>() ==> map@ == pairs_to_map(all.take(it.index() as int)),
    {
        proof {
            let n = it.index() as int;
            assert(all.take(n + 1).drop_last() =~= all.take(n));
            assert(all.take(n + 1).last() == (entry.key, entry.value));
        }
        map.insert(entry.key, entry.value);
    }
    proof {
        assert(all.take(all.len() as int) =~= all);
    }
    map
}

/// Whether two keys of type `K` with the same deep view are the same key.
pub open spec fn deep_view_injective<K: DeepView>() -> bool {
    forall|a: K, b: K| #[trigger] a.deep_view() == #[trigger] b.deep_view() ==> a == b
}

/// The map `m` with each key and each value taken by its deep view.
pub open spec fn deep_map<K: DeepView, V: DeepView>(m: Map<K, V>) -> Map<K::V, V::V> {
    Map::new(
        |dk: K::V| exists|k: K| #[trigger] m.contains_key(k) && dk == k.deep_view(),
        |dk: K::V|
            {
                let k = choose|k: K| m.contains_key(k) && #[trigger] k.deep_view() == dk;
                m[k].deep_view()
            },
    )
}

/// The pairs `pairs` with each key and each value taken by its deep view.
pub open spec fn deep_pairs<K: DeepView, V: DeepView>(pairs: Seq<(K, V)>) -> Seq<(K::V, V::V)> {
    pairs.map_values(|p: (K, V)| (p.0.deep_view(), p.1.deep_view()))
}

/// The deep view of a hash map is the deep map of its view.
pub proof fn lemma_hash_map_deep_view<K: DeepView, V: DeepView, S>(map: HashMap<K, V, S>)
    ensures
        map.deep_view() == deep_map(map@),
{
    reveal(vstd::std_specs::hash::hash_map_deep_view_impl);
    assert(map.deep_view() =~= deep_map(map@));
}

/// Where keys with the same deep view are the same key, to insert a key and
/// a value and then take deep views is to take deep views and then insert.
pub proof fn lemma_deep_map_insert<K: DeepView, V: DeepView>(m: Map<K, V>, key: K, value: V)
    requires
        deep_view_injective::<K>(),
    ensures
        deep_map(m.insert(key, value)) == deep_map(m).insert(
            key.deep_view(),
            value.deep_view(),
        ),
{
    let after = m.insert(key, value);
    let left = deep_map(after);
    let right = deep_map(m).insert(key.deep_view(), value.deep_view());
    assert forall|dk: K::V| left.contains_key(dk) <==> right.contains_key(dk) by {
        if left.contains_key(dk) {
            let k = choose|k: K| #[trigger] after.contains_key(k) && dk == k.deep_view();
            if k != key {
                assert(m.contains_key(k));
            }
        }
        if right.contains_key(dk) {
            if dk == key.deep_view() {
                assert(after.contains_key(key));
            } else {
                let k = choose|k: K| #[trigger] m.contains_key(k) && dk == k.deep_view();
                assert(after.contains_key(k));
            }
        }
    }
    assert forall|dk: K::V| left.contains_key(dk) implies left[dk] == right[dk] by {
        let k = choose|k: K| after.contains_key(k) && #[trigger] k.deep_view() == dk;
        let witness = choose|k: K| #[trigger] after.contains_key(k) && dk == k.deep_view();
        assert(after.contains_key(witness) && witness.deep_view() == dk);
        if dk == key.deep_view() {
            assert(k == key);
        } else {
            assert(m.contains_key(k));
            let j = choose|j: K| m.contains_key(j) && #[trigger] j.deep_view() == dk;
            assert(j == k);
        }
    }
    assert(left =~= right);
}

/// To gather pairs into a map and then take deep views is to take deep views
/// and then gather, where keys with the same deep view are the same key.
pub proof fn lemma_deep_map_of_pairs<K: DeepView, V: DeepView>(pairs: Seq<(K, V)>)
    requires
        deep_view_injective::<K>(),
    ensures
        deep_map(pairs_to_map(pairs)) == pairs_to_map(deep_pairs(pairs)),
    decreases pairs.len(),
{
    if pairs.len() == 0 {
        assert(deep_map(Map::<K, V>::empty()) =~= Map::<K::V, V::V>::empty());
    } else {
        let front = pairs.drop_last();
        lemma_deep_map_of_pairs(front);
        lemma_deep_map_insert(pairs_to_map(front), pairs.last().0, pairs.last().1);
        assert(deep_pairs(pairs).drop_last() =~= deep_pairs(front));
    }
}

/// A map is decoded as a list of entries `key = value` is, and holds the
/// entries of the list; the last value of a key stands. The rule is held to
/// its model where those of `K` and `V` are, hash tables of `K` and `S`
/// behave as modelled, and keys with the same deep view are the same key.
impl<
    I: Input,
    K: ParseFrom<I> + Eq + Hash,
    V: ParseFrom<I>,
    S: BuildHasher + Default,
> ParseFrom<I> for HashMap<K, V, S> {
    open spec fn obeys_parse_spec() -> bool {
        &&& K::obeys_parse_spec()
        &&& V::obeys_parse_spec()
        &&& hashes_as_modelled::<K, S>()
        &&& deep_view_injective::<K>()
    }

    open spec fn parse_spec(input: Seq<char>) -> IResult<Seq<char>, Map<K::V, V::V>> {
        match list_spec::<I, KeyValue<K, V>>(input) {
            Ok((rest, pairs)) => Ok((rest, pairs_to_map(pairs))),
            Err(e) => Err(e),
        }
    }

    fn parse(input: I) -> (r: IResult<I, HashMap<K, V, S>>) {
        match <Vec<KeyValue<K, V>> as ParseFrom<I>>::parse(input) {
            Ok((rest, entries)) => {
                let ghost pairs = entry_pairs(entries@);
                let map: HashMap<K, V, S> = into_hash_map(entries);
                proof {
                    lemma_hash_map_deep_view(map);
                    if deep_view_injective::<K>() {
                        lemma_deep_map_of_pairs(pairs);
                    }
                    assert(deep_pairs(pairs) =~= entries.deep_view());
                }
                Ok((rest, map))
            },
            Err(e) => Err(e),
        }
    }
}

} // verus!
