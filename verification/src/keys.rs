//! Keys, and the hash maps that are looked up by them.

use std::collections::HashMap;

use vstd::prelude::*;
use vstd::std_specs::hash::borrowed_key_removed;
use vstd::std_specs::hash::builds_valid_hashers;
use vstd::std_specs::hash::contains_borrowed_key;
use vstd::std_specs::hash::maps_borrowed_key_to_value;
use vstd::std_specs::hash::obeys_key_model;

use crate::state::State;

verus! {

/// Keys of type `K` can be told apart by a hash map with hashers of type `S`: equality and hashing
/// of the keys agree and always give the same answer, and the hashers depend on nothing but what
/// they are fed.
///
/// It is known of integers and `bool`, and of the default hasher. With other types it is for the
/// caller to suppose, as the documentation of `HashMap` asks of every key.
pub open spec fn sound_keys<K, S>() -> bool {
    obeys_key_model::<K>() && builds_valid_hashers::<S>()
}

/// `key` denotes `k`: it is found where `k` is the only key.
pub open spec fn denotes<K, Q: ?Sized>(key: &Q, k: K) -> bool {
    contains_borrowed_key(Map::<K, usize>::empty().insert(k, 0), key)
}

/// `m` without the keys that `key` denotes.
pub open spec fn unkeyed<K, Q: ?Sized>(m: Map<K, usize>, key: &Q) -> Map<K, usize> {
    Map::new(|k: K| m.contains_key(k) && !denotes(key, k), |k: K| m[k])
}

/// What `Q` borrows from a key of type `K` compares and hashes as the key does: it denotes no two
/// keys, a lookup finds what belongs to the key that it denotes, and a removal takes out that key and
/// no other.
pub open spec fn borrows_keys<K, Q: ?Sized>() -> bool {
    &&& forall|q: &Q, j: K, k: K| #[trigger] denotes(q, j) && #[trigger] denotes(q, k) ==> j == k
    &&& forall|m: Map<K, usize>, q: &Q, k: K|
        #![trigger contains_borrowed_key(m, q), m.contains_key(k)]
        m.contains_key(k) && denotes(q, k) ==> contains_borrowed_key(m, q)
    &&& forall|m: Map<K, usize>, q: &Q| #[trigger]
        contains_borrowed_key(m, q) ==> exists|k: K| #[trigger] m.contains_key(k) && denotes(q, k)
    &&& forall|m: Map<K, usize>, q: &Q, e: usize| #[trigger]
        maps_borrowed_key_to_value(m, q, e) ==> exists|k: K|
            #[trigger] m.contains_key(k) && m[k] == e && denotes(q, k)
    &&& forall|m: Map<K, usize>, n: Map<K, usize>, q: &Q| #[trigger]
        borrowed_key_removed(m, n, q) ==> n =~= unkeyed(m, q)
}

/// Keys are looked up as themselves.
pub proof fn law_keys_borrow_as_themselves<K>()
    ensures
        borrows_keys::<K, K>(),
{
}

/// Keys in boxes are looked up as what is in the box.
pub proof fn law_boxes_borrow_as_their_contents<Q>()
    ensures
        borrows_keys::<Box<Q>, Q>(),
{
}

/// The state of a map of computations after a removal by `key`: the key that it denotes refers to no
/// entry any more.
pub open spec fn unbound<K, V, Q: ?Sized>(s: State<K, V>, key: &Q) -> State<K, V> {
    State { keys: unkeyed(s.keys, key), ..s }.reclaimed()
}

/// `value` is what a lookup by `key` is answered: a clone of the value that is stored for the key that
/// it denotes, and nothing where none is stored.
pub open spec fn answers<K, V: Clone, Q: ?Sized>(
    s: State<K, V>,
    key: &Q,
    value: Option<V>,
) -> bool {
    match value {
        Some(v) => exists|k: K| #[trigger]
            denotes(key, k) && (s.stored(k) matches Some(x) && cloned(x, v)),
        None => {
            &&& forall|k: K|
                #![trigger denotes(key, k)]
                #![trigger s.stored(k)]
                denotes(key, k) ==> s.stored(k) is None
            &&& contains_borrowed_key(s.keys, key) ==> exists|k: K| #[trigger]
                denotes(key, k) && s.keys.contains_key(k) && !(s.cells[s.keys[k]] is Ready)
        },
    }
}

/// A removal by `key` detaches the key that it denotes. Where that is none of the keys, it changes
/// nothing.
pub proof fn lemma_unbound<K, V, Q: ?Sized>(s: State<K, V>, key: &Q)
    requires
        s.valid(),
        borrows_keys::<K, Q>(),
    ensures
        !contains_borrowed_key(unbound(s, key).keys, key),
        forall|k: K|
            s.keys.contains_key(k) && #[trigger] denotes(key, k) ==> unbound(s, key) == s.detached(
                k,
            ),
        (forall|k: K| #[trigger] denotes(key, k) ==> !s.keys.contains_key(k)) ==> unbound(s, key)
            == s,
{
    assert forall|k: K| s.keys.contains_key(k) && #[trigger] denotes(key, k) implies unbound(
        s,
        key,
    ) == s.detached(k) by {
        assert(unkeyed(s.keys, key) =~= s.keys.remove(k));
    }
    if forall|k: K| #[trigger] denotes(key, k) ==> !s.keys.contains_key(k) {
        assert(unkeyed(s.keys, key) =~= s.keys);
        assert(unbound(s, key) =~= s);
    }
}

/// `m` without the keys that refer to entry `e`.
pub open spec fn without<K>(m: Map<K, usize>, e: usize) -> Map<K, usize> {
    Map::new(|k: K| m.contains_key(k) && m[k] != e, |k: K| m[k])
}

/// `HashMap::with_hasher`: the new map is empty.
pub assume_specification<K, V, S>[ HashMap::<K, V, S>::with_hasher ](hash_builder: S) -> (m: HashMap<
    K,
    V,
    S,
>)
    ensures
        (m@ == Map::<K, V>::empty()),
;

/// Whether `entry` is another entry than `e`.
fn is_other(entry: usize, e: usize) -> (other: bool)
    ensures
        other <==> entry != e,
{
    entry != e
}

/// `HashMap::retain`, with [`is_other`] as its predicate: the map keeps each key that refers to
/// another entry than `e`, with what it referred to, and no other key.
#[verifier::external_body]
pub(crate) fn retain_others<K, S>(map: &mut HashMap<K, usize, S>, e: usize)
    ensures
        obeys_key_model::<K>() && builds_valid_hashers::<S>() ==> final(map)@ == without(old(map)@, e),
{
    map.retain(|_, entry| is_other(*entry, e));
}

} // verus!
