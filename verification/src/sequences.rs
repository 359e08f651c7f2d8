//! What operations of [`OnceMap`] and [`Group`] that follow one another promise together.
//!
//! Each operation begins with what the last one left.

use std::borrow::Borrow;
use std::hash::BuildHasher;
use std::hash::Hash;

use vstd::prelude::*;
use vstd::std_specs::hash::contains_borrowed_key;

use crate::flight::EntryGuard;
use crate::flight::Event;
use crate::flight::Turn;
use crate::keys::borrows_keys;
use crate::keys::denotes;
use crate::once::OnceMap;
use crate::promises::calls_on;
use crate::promises::finds;
use crate::promises::law_active_calls_of_a_group;
use crate::promises::law_active_calls_of_a_map;
use crate::promises::law_cancel_of_a_group;
use crate::promises::law_cancel_of_a_map;
use crate::promises::law_compute;
use crate::promises::law_discard;
use crate::promises::law_forget;
use crate::promises::law_from_iter;
use crate::promises::law_get;
use crate::promises::law_keys_find_themselves;
use crate::promises::law_remove;
use crate::promises::law_try_compute;
use crate::promises::law_try_work;
use crate::promises::law_valid_states;
use crate::promises::law_work;
use crate::promises::lives;
use crate::promises::under_way;
use crate::singleflight::Group;
use crate::state::CellState;

verus! {

/// A call that runs the computation of a map and completes it returns the value, which is found
/// under the key afterwards, and returned to the next call about the key at once.
pub proof fn law_computed_value_is_found<K: Eq + Hash, V: Clone, S: BuildHasher + Clone>(
    m: &mut OnceMap<K, V, S>,
    n: &mut OnceMap<K, V, S>,
    p: &mut OnceMap<K, V, S>,
    key: K,
    a: EntryGuard<()>,
    v: V,
    first: Turn<(), V>,
    got: Option<V>,
    next: Turn<(), V>,
)
    requires
        old(m).wf(),
        call_ensures(OnceMap::<K, V, S>::compute, (m, Event::Arrive(key)), Turn::Run(a)),
        *old(n) == *final(m),
        call_ensures(OnceMap::<K, V, S>::compute, (n, Event::Finish(a, v)), first),
        *old(p) == *final(n),
        call_ensures(OnceMap::<K, V, S>::get::<K>, (&*old(p), &key), got),
        call_ensures(OnceMap::<K, V, S>::compute, (p, Event::Arrive(key)), next),
    ensures
        first matches Turn::Return(r) && cloned(v, r),
        got matches Some(x) && cloned(v, x),
        next matches Turn::Return(r) && cloned(v, r),
{
    law_compute(m, Event::Arrive(key), Turn::Run(a));
    law_compute(n, Event::Finish(a, v), first);
    law_get(&*old(p), &key, got);
    law_compute(p, Event::Arrive(key), next);
    law_keys_find_themselves(key, key);
    assert forall|k: K| #[trigger] finds(&key, k) implies k == key by {
        law_keys_find_themselves(key, k);
    }
    let t = old(p).state();
    assert(t.keys[key] == a.entry());
    assert(lives(t, a.entry()));
    assert(t.cells.contains_key(a.entry()));
}

/// What a lookup finds, the next call about the key returns. Where it finds nothing the call does
/// not return at once, and where no call is under way about the key either it runs the computation.
pub proof fn law_arrival_follows_lookup<K: Eq + Hash, V: Clone, S: BuildHasher + Clone>(
    m: &mut OnceMap<K, V, S>,
    key: K,
    got: Option<V>,
    count: usize,
    turn: Turn<(), V>,
)
    requires
        old(m).wf(),
        call_ensures(OnceMap::<K, V, S>::get::<K>, (&*old(m), &key), got),
        call_ensures(OnceMap::<K, V, S>::active_calls, (&*old(m), &key), count),
        call_ensures(OnceMap::<K, V, S>::compute, (m, Event::Arrive(key)), turn),
    ensures
        got matches Some(x) ==> turn matches Turn::Return(r) && exists|v: V| #[trigger]
            cloned(v, x) && cloned(v, r),
        got is None ==> !(turn is Return),
        got is None && count == 0 ==> turn is Run,
        got is None && count > 0 ==> turn is Run || turn is Wait,
{
    law_get(&*old(m), &key, got);
    law_active_calls_of_a_map(&*old(m), key, count);
    law_compute(m, Event::Arrive(key), turn);
    law_keys_find_themselves(key, key);
    assert forall|k: K| #[trigger] finds(&key, k) implies k == key by {
        law_keys_find_themselves(key, k);
    }
    old(m).lemma_state();
    let s = old(m).state();
    if s.keys.contains_key(key) && count == 0 {
        let e = s.keys[key];
        if s.in_use(e) {
            let c = choose|c: nat| s.calls.contains_key(c) && (#[trigger] s.calls[c]).entry == e;
            let on = calls_on(s, e);
            assert(on.contains(c));
            vstd::set_lib::lemma_len_subset(on, s.calls.dom());
            assert(on.len() > 0) by {
                assert(on.remove(c).len() < on.len());
            }
        }
    }
}

/// Of the calls about one key of a map, one after another, only the first runs the computation:
/// those that come while it runs, or while others wait, wait on the same entry.
pub proof fn law_duplicates_wait_in_a_map<K: Eq + Hash, V: Clone, S: BuildHasher + Clone>(
    m: &mut OnceMap<K, V, S>,
    n: &mut OnceMap<K, V, S>,
    key: K,
    first: Turn<(), V>,
    next: Turn<(), V>,
)
    requires
        old(m).wf(),
        call_ensures(OnceMap::<K, V, S>::compute, (m, Event::Arrive(key)), first),
        !(first is Return),
        *old(n) == *final(m),
        call_ensures(OnceMap::<K, V, S>::compute, (n, Event::Arrive(key)), next),
    ensures
        next matches Turn::Wait(b) && match first {
            Turn::Run(a) => a.entry() == b.entry() && a.call() != b.call(),
            Turn::Wait(a) => a.entry() == b.entry() && a.call() != b.call(),
            Turn::Return(_) => true,
        },
{
    law_compute(m, Event::Arrive(key), first);
    law_compute(n, Event::Arrive(key), next);
}

/// Of the calls about one key of a group, one after another, only the first runs the function: those
/// that come while it runs, or while others wait, wait on the same entry.
pub proof fn law_duplicates_wait_in_a_group<
    K: Eq + Hash + Clone,
    V: Clone,
    S: BuildHasher + Clone,
>(
    m: &mut Group<K, V, S>,
    n: &mut Group<K, V, S>,
    key: K,
    first: Turn<K, V>,
    next: Turn<K, V>,
)
    requires
        forall|x: K, y: K| #[trigger] cloned(x, y) ==> x == y,
        old(m).wf(),
        call_ensures(Group::<K, V, S>::work, (m, Event::Arrive(key)), first),
        !(first is Return),
        *old(n) == *final(m),
        call_ensures(Group::<K, V, S>::work, (n, Event::Arrive(key)), next),
    ensures
        next matches Turn::Wait(b) && match first {
            Turn::Run(a) => a.entry() == b.entry() && a.call() != b.call(),
            Turn::Wait(a) => a.entry() == b.entry() && a.call() != b.call(),
            Turn::Return(_) => true,
        },
{
    law_work(m, Event::Arrive(key), first);
    law_work(n, Event::Arrive(key), next);
}

/// When a call of a map completes the computation, every other call on its entry returns the value
/// as soon as it looks, one after another.
pub proof fn law_duplicates_return_the_value_of_a_map<
    K: Eq + Hash,
    V: Clone,
    S: BuildHasher + Clone,
>(
    m: &mut OnceMap<K, V, S>,
    n: &mut OnceMap<K, V, S>,
    p: &mut OnceMap<K, V, S>,
    a: EntryGuard<()>,
    b: EntryGuard<()>,
    c: EntryGuard<()>,
    v: V,
    first: Turn<(), V>,
    second: Turn<(), V>,
    third: Turn<(), V>,
)
    requires
        old(m).wf(),
        under_way(old(m).state(), a),
        under_way(old(m).state(), b),
        under_way(old(m).state(), c),
        a.entry() == b.entry() == c.entry(),
        a.call() != b.call(),
        a.call() != c.call(),
        b.call() != c.call(),
        call_ensures(OnceMap::<K, V, S>::compute, (m, Event::Finish(a, v)), first),
        *old(n) == *final(m),
        call_ensures(OnceMap::<K, V, S>::compute, (n, Event::Wake(b)), second),
        *old(p) == *final(n),
        call_ensures(OnceMap::<K, V, S>::compute, (p, Event::Wake(c)), third),
    ensures
        first matches Turn::Return(r) && cloned(v, r),
        second matches Turn::Return(r) && cloned(v, r),
        third matches Turn::Return(r) && cloned(v, r),
        !final(p).state().calls.contains_key(a.call()),
        !final(p).state().calls.contains_key(b.call()),
        !final(p).state().calls.contains_key(c.call()),
{
    let e = a.entry();
    law_compute(m, Event::Finish(a, v), first);
    let t = final(m).state();
    assert(t.calls[b.call()].entry == e);
    old(m).lemma_state();
    law_valid_states(old(m).state());
    assert(lives(t, e));
    assert(t.cells.contains_key(e));
    law_compute(n, Event::Wake(b), second);
    let u = final(n).state();
    assert(u.calls[c.call()].entry == e);
    assert(lives(u, e));
    assert(u.cells.contains_key(e));
    law_compute(p, Event::Wake(c), third);
}

/// When a call of a group completes the function, every other call on its entry returns the value as
/// soon as it looks, one after another, also where the key was forgotten.
pub proof fn law_duplicates_return_the_value_of_a_group<
    K: Eq + Hash + Clone,
    V: Clone,
    S: BuildHasher + Clone,
>(
    m: &mut Group<K, V, S>,
    n: &mut Group<K, V, S>,
    p: &mut Group<K, V, S>,
    a: EntryGuard<K>,
    b: EntryGuard<K>,
    c: EntryGuard<K>,
    v: V,
    first: Turn<K, V>,
    second: Turn<K, V>,
    third: Turn<K, V>,
)
    requires
        old(m).wf(),
        under_way(old(m).state(), a),
        under_way(old(m).state(), b),
        under_way(old(m).state(), c),
        a.entry() == b.entry() == c.entry(),
        a.call() != b.call(),
        a.call() != c.call(),
        b.call() != c.call(),
        call_ensures(Group::<K, V, S>::work, (m, Event::Finish(a, v)), first),
        *old(n) == *final(m),
        call_ensures(Group::<K, V, S>::work, (n, Event::Wake(b)), second),
        *old(p) == *final(n),
        call_ensures(Group::<K, V, S>::work, (p, Event::Wake(c)), third),
    ensures
        first matches Turn::Return(r) && cloned(v, r),
        second matches Turn::Return(r) && cloned(v, r),
        third matches Turn::Return(r) && cloned(v, r),
        !final(p).state().calls.contains_key(a.call()),
        !final(p).state().calls.contains_key(b.call()),
        !final(p).state().calls.contains_key(c.call()),
{
    let e = a.entry();
    law_work(m, Event::Finish(a, v), first);
    let t = final(m).state();
    assert(t.calls[b.call()].entry == e);
    old(m).lemma_state();
    law_valid_states(old(m).state());
    assert(lives(t, e));
    assert(t.cells.contains_key(e));
    law_work(n, Event::Wake(b), second);
    let u = final(n).state();
    assert(u.calls[c.call()].entry == e);
    assert(lives(u, e));
    assert(u.cells.contains_key(e));
    law_work(p, Event::Wake(c), third);
}

/// When the call that runs the computation goes away, another call on its entry runs it as soon as
/// it looks, and the next one waits.
pub proof fn law_cancelled_call_is_replaced_in_a_map<
    K: Eq + Hash,
    V: Clone,
    S: BuildHasher + Clone,
>(
    m: &mut OnceMap<K, V, S>,
    n: &mut OnceMap<K, V, S>,
    p: &mut OnceMap<K, V, S>,
    a: EntryGuard<()>,
    b: EntryGuard<()>,
    c: EntryGuard<()>,
    second: Turn<(), V>,
    third: Turn<(), V>,
)
    requires
        old(m).wf(),
        under_way(old(m).state(), a),
        under_way(old(m).state(), b),
        under_way(old(m).state(), c),
        old(m).state().cells[a.entry()] == CellState::<V>::Running(a.call()),
        a.entry() == b.entry() == c.entry(),
        a.call() != b.call(),
        a.call() != c.call(),
        b.call() != c.call(),
        call_ensures(OnceMap::<K, V, S>::cancel, (m, a), ()),
        *old(n) == *final(m),
        call_ensures(OnceMap::<K, V, S>::compute, (n, Event::Wake(b)), second),
        *old(p) == *final(n),
        call_ensures(OnceMap::<K, V, S>::compute, (p, Event::Wake(c)), third),
    ensures
        second is Run,
        third is Wait,
{
    let e = a.entry();
    law_cancel_of_a_map(m, a);
    let t = final(m).state();
    assert(t.calls[b.call()].entry == e);
    old(m).lemma_state();
    law_valid_states(old(m).state());
    assert(lives(t, e));
    assert(t.cells.contains_key(e));
    law_compute(n, Event::Wake(b), second);
    law_compute(p, Event::Wake(c), third);
}

/// Where the computation fails, its caller receives the error, and another call on the entry runs
/// the computation as soon as it looks. What that one comes to is its own.
pub proof fn law_failed_call_is_replaced_in_a_map<
    K: Eq + Hash,
    V: Clone,
    S: BuildHasher + Clone,
    E,
>(
    m: &mut OnceMap<K, V, S>,
    n: &mut OnceMap<K, V, S>,
    a: EntryGuard<()>,
    b: EntryGuard<()>,
    error: E,
    first: Turn<(), Result<V, E>>,
    second: Turn<(), Result<V, E>>,
)
    requires
        old(m).wf(),
        under_way(old(m).state(), a),
        under_way(old(m).state(), b),
        old(m).state().cells[a.entry()] == CellState::<V>::Running(a.call()),
        a.entry() == b.entry(),
        a.call() != b.call(),
        call_ensures(OnceMap::<K, V, S>::try_compute::<E>, (m, Event::Finish(a, Err(error))), first),
        *old(n) == *final(m),
        call_ensures(OnceMap::<K, V, S>::try_compute::<E>, (n, Event::Wake(b)), second),
    ensures
        first matches Turn::Return(Err(r)) && r == error,
        second is Run,
{
    let e = a.entry();
    law_try_compute(m, Event::Finish(a, Err(error)), first);
    let t = final(m).state();
    assert(t.calls[b.call()].entry == e);
    old(m).lemma_state();
    law_valid_states(old(m).state());
    assert(lives(t, e));
    assert(t.cells.contains_key(e));
    law_try_compute(n, Event::Wake(b), second);
}

/// The only call about a key that goes away leaves nothing behind: no call is counted for the key,
/// and the next one runs the computation.
pub proof fn law_lone_call_leaves_nothing_in_a_map<K: Eq + Hash, V: Clone, S: BuildHasher + Clone>(
    m: &mut OnceMap<K, V, S>,
    n: &mut OnceMap<K, V, S>,
    p: &mut OnceMap<K, V, S>,
    key: K,
    a: EntryGuard<()>,
    count: usize,
    turn: Turn<(), V>,
)
    requires
        old(m).wf(),
        !old(m).state().keys.contains_key(key),
        call_ensures(OnceMap::<K, V, S>::compute, (m, Event::Arrive(key)), Turn::Run(a)),
        *old(n) == *final(m),
        call_ensures(OnceMap::<K, V, S>::cancel, (n, a), ()),
        *old(p) == *final(n),
        call_ensures(OnceMap::<K, V, S>::active_calls, (&*old(p), &key), count),
        call_ensures(OnceMap::<K, V, S>::compute, (p, Event::Arrive(key)), turn),
    ensures
        final(n).state().keys == old(m).state().keys,
        final(n).state().calls == old(m).state().calls,
        count == 0,
        turn is Run,
{
    old(m).lemma_state();
    law_valid_states(old(m).state());
    law_compute(m, Event::Arrive(key), Turn::Run(a));
    let s = old(n).state();
    law_cancel_of_a_map(n, a);
    assert(!(exists|d: nat|
        d != a.call() && s.calls.contains_key(d) && (#[trigger] s.calls[d]).entry == a.entry())) by {
        if exists|d: nat|
            d != a.call() && s.calls.contains_key(d) && (#[trigger] s.calls[d]).entry == a.entry() {
            let d = choose|d: nat|
                d != a.call() && s.calls.contains_key(d) && (#[trigger] s.calls[d]).entry
                    == a.entry();
            assert(old(m).state().calls.contains_key(d));
        }
    }
    assert(final(n).state().keys =~= old(m).state().keys);
    assert(final(n).state().calls =~= old(m).state().calls);
    law_active_calls_of_a_map(&*old(p), key, count);
    law_compute(p, Event::Arrive(key), turn);
}

/// After a key is taken out, the next call about it runs the computation, also while calls from
/// before are under way. Those complete on their own, and those on their entry receive their value,
/// while the new call runs on.
pub proof fn law_earlier_calls_do_not_disturb_in_a_map<
    K: Eq + Hash,
    V: Clone,
    S: BuildHasher + Clone,
>(
    m: &mut OnceMap<K, V, S>,
    n: &mut OnceMap<K, V, S>,
    p: &mut OnceMap<K, V, S>,
    q: &mut OnceMap<K, V, S>,
    r: &mut OnceMap<K, V, S>,
    key: K,
    a: EntryGuard<()>,
    b: EntryGuard<()>,
    v: V,
    fresh: Turn<(), V>,
    first: Turn<(), V>,
    second: Turn<(), V>,
    later: Turn<(), V>,
)
    requires
        old(m).wf(),
        under_way(old(m).state(), a),
        under_way(old(m).state(), b),
        old(m).state().calls[a.call()].key == key,
        a.entry() == b.entry(),
        a.call() != b.call(),
        call_ensures(OnceMap::<K, V, S>::discard::<K>, (m, &key), ()),
        *old(n) == *final(m),
        call_ensures(OnceMap::<K, V, S>::compute, (n, Event::Arrive(key)), fresh),
        *old(p) == *final(n),
        call_ensures(OnceMap::<K, V, S>::compute, (p, Event::Finish(a, v)), first),
        *old(q) == *final(p),
        call_ensures(OnceMap::<K, V, S>::compute, (q, Event::Wake(b)), second),
        *old(r) == *final(q),
        call_ensures(OnceMap::<K, V, S>::compute, (r, Event::Arrive(key)), later),
    ensures
        fresh matches Turn::Run(d) && d.entry() != a.entry(),
        first matches Turn::Return(x) && cloned(v, x),
        second matches Turn::Return(x) && cloned(v, x),
        later matches Turn::Wait(d) && fresh matches Turn::Run(c) && d.entry() == c.entry(),
{
    let e = a.entry();
    law_discard(m, &key);
    law_keys_find_themselves(key, key);
    let s = old(n).state();
    assert(!s.keys.contains_key(key));
    final(m).lemma_state();
    law_valid_states(s);
    assert(s.cells.contains_key(s.calls[a.call()].entry));
    law_compute(n, Event::Arrive(key), fresh);
    let c = fresh->Run_0;
    let t = old(p).state();
    assert(t.calls[a.call()] == s.calls[a.call()]);
    assert(t.calls[b.call()] == s.calls[b.call()]);
    law_compute(p, Event::Finish(a, v), first);
    let u = old(q).state();
    assert(u.calls[b.call()].entry == e);
    assert(lives(u, e));
    assert(u.cells.contains_key(e));
    assert(u.keys[key] == c.entry());
    assert(lives(u, c.entry()));
    assert(u.cells.contains_key(c.entry()));
    law_compute(q, Event::Wake(b), second);
    let w = old(r).state();
    assert(w.keys[key] == c.entry());
    assert(lives(w, c.entry()));
    assert(w.cells.contains_key(c.entry()));
    law_compute(r, Event::Arrive(key), later);
}

/// Each call that begins and does not return at once is counted for its key, and is not counted any
/// more when it goes away.
pub proof fn law_calls_are_counted_in_a_map<K: Eq + Hash, V: Clone, S: BuildHasher + Clone>(
    m: &mut OnceMap<K, V, S>,
    key: K,
    before: usize,
    turn: Turn<(), V>,
    after: usize,
)
    requires
        old(m).wf(),
        call_ensures(OnceMap::<K, V, S>::active_calls, (&*old(m), &key), before),
        call_ensures(OnceMap::<K, V, S>::compute, (m, Event::Arrive(key)), turn),
        call_ensures(OnceMap::<K, V, S>::active_calls, (&*final(m), &key), after),
    ensures
        turn is Return ==> after == before,
        !(turn is Return) ==> after == before + 1,
{
    old(m).lemma_state();
    law_valid_states(old(m).state());
    law_active_calls_of_a_map(&*old(m), key, before);
    law_active_calls_of_a_map(&*final(m), key, after);
    law_compute(m, Event::Arrive(key), turn);
    let s = old(m).state();
    let t = final(m).state();
    if !(turn is Return) {
        let guard = match turn {
            Turn::Run(g) => g,
            Turn::Wait(g) => g,
            Turn::Return(_) => arbitrary(),
        };
        let e = guard.entry();
        let x = calls_on(s, e);
        let y = calls_on(t, e);
        assert(y =~= x.insert(guard.call()));
        vstd::set_lib::lemma_len_subset(x, s.calls.dom());
        if !s.keys.contains_key(key) {
            assert(x =~= Set::empty()) by {
                assert forall|c: nat| !x.contains(c) by {
                    if x.contains(c) {
                        assert(s.cells.contains_key(s.calls[c].entry));
                    }
                }
            }
        }
    }
}

/// When the call that runs the computation goes away, another call on its entry runs it as soon as
/// it looks, and the next one waits.
pub proof fn law_cancelled_call_is_replaced_in_a_group<
    K: Eq + Hash + Clone,
    V: Clone,
    S: BuildHasher + Clone,
>(
    m: &mut Group<K, V, S>,
    n: &mut Group<K, V, S>,
    p: &mut Group<K, V, S>,
    a: EntryGuard<K>,
    b: EntryGuard<K>,
    c: EntryGuard<K>,
    second: Turn<K, V>,
    third: Turn<K, V>,
)
    requires
        old(m).wf(),
        under_way(old(m).state(), a),
        under_way(old(m).state(), b),
        under_way(old(m).state(), c),
        old(m).state().cells[a.entry()] == CellState::<V>::Running(a.call()),
        a.entry() == b.entry() == c.entry(),
        a.call() != b.call(),
        a.call() != c.call(),
        b.call() != c.call(),
        call_ensures(Group::<K, V, S>::cancel, (m, a), ()),
        *old(n) == *final(m),
        call_ensures(Group::<K, V, S>::work, (n, Event::Wake(b)), second),
        *old(p) == *final(n),
        call_ensures(Group::<K, V, S>::work, (p, Event::Wake(c)), third),
    ensures
        second is Run,
        third is Wait,
{
    let e = a.entry();
    law_cancel_of_a_group(m, a);
    let t = final(m).state();
    assert(t.calls[b.call()].entry == e);
    old(m).lemma_state();
    law_valid_states(old(m).state());
    assert(lives(t, e));
    assert(t.cells.contains_key(e));
    law_work(n, Event::Wake(b), second);
    law_work(p, Event::Wake(c), third);
}

/// Where the computation fails, its caller receives the error, and another call on the entry runs
/// the computation as soon as it looks. What that one comes to is its own.
pub proof fn law_failed_call_is_replaced_in_a_group<
    K: Eq + Hash + Clone,
    V: Clone,
    S: BuildHasher + Clone,
    E,
>(
    m: &mut Group<K, V, S>,
    n: &mut Group<K, V, S>,
    a: EntryGuard<K>,
    b: EntryGuard<K>,
    error: E,
    first: Turn<K, Result<V, E>>,
    second: Turn<K, Result<V, E>>,
)
    requires
        old(m).wf(),
        under_way(old(m).state(), a),
        under_way(old(m).state(), b),
        old(m).state().cells[a.entry()] == CellState::<V>::Running(a.call()),
        a.entry() == b.entry(),
        a.call() != b.call(),
        call_ensures(Group::<K, V, S>::try_work::<E>, (m, Event::Finish(a, Err(error))), first),
        *old(n) == *final(m),
        call_ensures(Group::<K, V, S>::try_work::<E>, (n, Event::Wake(b)), second),
    ensures
        first matches Turn::Return(Err(r)) && r == error,
        second is Run,
{
    let e = a.entry();
    law_try_work(m, Event::Finish(a, Err(error)), first);
    let t = final(m).state();
    assert(t.calls[b.call()].entry == e);
    old(m).lemma_state();
    law_valid_states(old(m).state());
    assert(lives(t, e));
    assert(t.cells.contains_key(e));
    law_try_work(n, Event::Wake(b), second);
}

/// The only call about a key that goes away leaves nothing behind: no call is counted for the key,
/// and the next one runs the computation.
pub proof fn law_lone_call_leaves_nothing_in_a_group<
    K: Eq + Hash + Clone,
    V: Clone,
    S: BuildHasher + Clone,
>(
    m: &mut Group<K, V, S>,
    n: &mut Group<K, V, S>,
    p: &mut Group<K, V, S>,
    key: K,
    a: EntryGuard<K>,
    count: usize,
    turn: Turn<K, V>,
)
    requires
        forall|x: K, y: K| #[trigger] cloned(x, y) ==> x == y,
        old(m).wf(),
        !old(m).state().keys.contains_key(key),
        call_ensures(Group::<K, V, S>::work, (m, Event::Arrive(key)), Turn::Run(a)),
        *old(n) == *final(m),
        call_ensures(Group::<K, V, S>::cancel, (n, a), ()),
        *old(p) == *final(n),
        call_ensures(Group::<K, V, S>::active_calls, (&*old(p), &key), count),
        call_ensures(Group::<K, V, S>::work, (p, Event::Arrive(key)), turn),
    ensures
        final(n).state().keys == old(m).state().keys,
        final(n).state().calls == old(m).state().calls,
        count == 0,
        turn is Run,
{
    old(m).lemma_state();
    law_valid_states(old(m).state());
    law_work(m, Event::Arrive(key), Turn::Run(a));
    let s = old(n).state();
    law_cancel_of_a_group(n, a);
    assert(!(exists|d: nat|
        d != a.call() && s.calls.contains_key(d) && (#[trigger] s.calls[d]).entry == a.entry())) by {
        if exists|d: nat|
            d != a.call() && s.calls.contains_key(d) && (#[trigger] s.calls[d]).entry == a.entry() {
            let d = choose|d: nat|
                d != a.call() && s.calls.contains_key(d) && (#[trigger] s.calls[d]).entry
                    == a.entry();
            assert(old(m).state().calls.contains_key(d));
        }
    }
    assert(final(n).state().keys =~= old(m).state().keys);
    assert(final(n).state().calls =~= old(m).state().calls);
    law_active_calls_of_a_group(&*old(p), key, count);
    law_work(p, Event::Arrive(key), turn);
}

/// After a key is taken out, the next call about it runs the computation, also while calls from
/// before are under way. Those complete on their own, and those on their entry receive their value,
/// while the new call runs on.
pub proof fn law_earlier_calls_do_not_disturb_in_a_group<
    K: Eq + Hash + Clone,
    V: Clone,
    S: BuildHasher + Clone,
>(
    m: &mut Group<K, V, S>,
    n: &mut Group<K, V, S>,
    p: &mut Group<K, V, S>,
    q: &mut Group<K, V, S>,
    r: &mut Group<K, V, S>,
    key: K,
    a: EntryGuard<K>,
    b: EntryGuard<K>,
    v: V,
    fresh: Turn<K, V>,
    first: Turn<K, V>,
    second: Turn<K, V>,
    later: Turn<K, V>,
)
    requires
        forall|x: K, y: K| #[trigger] cloned(x, y) ==> x == y,
        old(m).wf(),
        under_way(old(m).state(), a),
        under_way(old(m).state(), b),
        old(m).state().calls[a.call()].key == key,
        a.entry() == b.entry(),
        a.call() != b.call(),
        call_ensures(Group::<K, V, S>::forget::<K>, (m, &key), ()),
        *old(n) == *final(m),
        call_ensures(Group::<K, V, S>::work, (n, Event::Arrive(key)), fresh),
        *old(p) == *final(n),
        call_ensures(Group::<K, V, S>::work, (p, Event::Finish(a, v)), first),
        *old(q) == *final(p),
        call_ensures(Group::<K, V, S>::work, (q, Event::Wake(b)), second),
        *old(r) == *final(q),
        call_ensures(Group::<K, V, S>::work, (r, Event::Arrive(key)), later),
    ensures
        fresh matches Turn::Run(d) && d.entry() != a.entry(),
        first matches Turn::Return(x) && cloned(v, x),
        second matches Turn::Return(x) && cloned(v, x),
        later matches Turn::Wait(d) && fresh matches Turn::Run(c) && d.entry() == c.entry(),
{
    let e = a.entry();
    law_forget(m, &key);
    law_keys_find_themselves(key, key);
    let s = old(n).state();
    assert(!s.keys.contains_key(key));
    final(m).lemma_state();
    law_valid_states(s);
    assert(s.cells.contains_key(s.calls[a.call()].entry));
    law_work(n, Event::Arrive(key), fresh);
    let c = fresh->Run_0;
    let t = old(p).state();
    assert(t.calls[a.call()] == s.calls[a.call()]);
    assert(t.calls[b.call()] == s.calls[b.call()]);
    law_work(p, Event::Finish(a, v), first);
    let u = old(q).state();
    assert(u.calls[b.call()].entry == e);
    assert(lives(u, e));
    assert(u.cells.contains_key(e));
    assert(u.keys[key] == c.entry());
    assert(lives(u, c.entry()));
    assert(u.cells.contains_key(c.entry()));
    law_work(q, Event::Wake(b), second);
    let w = old(r).state();
    assert(w.keys[key] == c.entry());
    assert(lives(w, c.entry()));
    assert(w.cells.contains_key(c.entry()));
    law_work(r, Event::Arrive(key), later);
}

/// Each call that begins and does not return at once is counted for its key, and is not counted any
/// more when it goes away.
pub proof fn law_calls_are_counted_in_a_group<
    K: Eq + Hash + Clone,
    V: Clone,
    S: BuildHasher + Clone,
>(
    m: &mut Group<K, V, S>,
    key: K,
    before: usize,
    turn: Turn<K, V>,
    after: usize,
)
    requires
        forall|x: K, y: K| #[trigger] cloned(x, y) ==> x == y,
        old(m).wf(),
        call_ensures(Group::<K, V, S>::active_calls, (&*old(m), &key), before),
        call_ensures(Group::<K, V, S>::work, (m, Event::Arrive(key)), turn),
        call_ensures(Group::<K, V, S>::active_calls, (&*final(m), &key), after),
    ensures
        turn is Return ==> after == before,
        !(turn is Return) ==> after == before + 1,
{
    old(m).lemma_state();
    law_valid_states(old(m).state());
    law_active_calls_of_a_group(&*old(m), key, before);
    law_active_calls_of_a_group(&*final(m), key, after);
    law_work(m, Event::Arrive(key), turn);
    let s = old(m).state();
    let t = final(m).state();
    if !(turn is Return) {
        let guard = match turn {
            Turn::Run(g) => g,
            Turn::Wait(g) => g,
            Turn::Return(_) => arbitrary(),
        };
        let e = guard.entry();
        let x = calls_on(s, e);
        let y = calls_on(t, e);
        assert(y =~= x.insert(guard.call()));
        vstd::set_lib::lemma_len_subset(x, s.calls.dom());
        if !s.keys.contains_key(key) {
            assert(x =~= Set::empty()) by {
                assert forall|c: nat| !x.contains(c) by {
                    if x.contains(c) {
                        assert(s.cells.contains_key(s.calls[c].entry));
                    }
                }
            }
        }
    }
}

/// Once the function of a group completes, the next call with the key runs it again, and no call is
/// counted for the key.
pub proof fn law_completed_key_runs_again<
    K: Eq + Hash + Clone,
    V: Clone,
    S: BuildHasher + Clone,
>(
    m: &mut Group<K, V, S>,
    n: &mut Group<K, V, S>,
    p: &mut Group<K, V, S>,
    key: K,
    a: EntryGuard<K>,
    v: V,
    first: Turn<K, V>,
    count: usize,
    next: Turn<K, V>,
)
    requires
        forall|x: K, y: K| #[trigger] cloned(x, y) ==> x == y,
        old(m).wf(),
        call_ensures(Group::<K, V, S>::work, (m, Event::Arrive(key)), Turn::Run(a)),
        *old(n) == *final(m),
        call_ensures(Group::<K, V, S>::work, (n, Event::Finish(a, v)), first),
        *old(p) == *final(n),
        call_ensures(Group::<K, V, S>::active_calls, (&*old(p), &key), count),
        call_ensures(Group::<K, V, S>::work, (p, Event::Arrive(key)), next),
    ensures
        first matches Turn::Return(r) && cloned(v, r),
        count == 0,
        next is Run,
{
    law_work(m, Event::Arrive(key), Turn::Run(a));
    law_work(n, Event::Finish(a, v), first);
    law_active_calls_of_a_group(&*old(p), key, count);
    law_work(p, Event::Arrive(key), next);
}

/// What is removed is not there any more: a lookup finds nothing, and a second removal gives
/// nothing. What is found under other keys is the same before and after.
pub proof fn law_removed_key_is_not_found<K: Eq + Hash, V: Clone, S: BuildHasher + Clone>(
    m: &mut OnceMap<K, V, S>,
    n: &mut OnceMap<K, V, S>,
    key: K,
    other: K,
    found: Option<V>,
    removed: Option<V>,
    gone: Option<V>,
    again: Option<V>,
    before: Option<V>,
    after: Option<V>,
)
    requires
        other != key,
        old(m).wf(),
        call_ensures(OnceMap::<K, V, S>::get::<K>, (&*old(m), &key), found),
        call_ensures(OnceMap::<K, V, S>::get::<K>, (&*old(m), &other), before),
        call_ensures(OnceMap::<K, V, S>::remove::<K>, (m, &key), removed),
        *old(n) == *final(m),
        call_ensures(OnceMap::<K, V, S>::get::<K>, (&*old(n), &key), gone),
        call_ensures(OnceMap::<K, V, S>::get::<K>, (&*old(n), &other), after),
        call_ensures(OnceMap::<K, V, S>::remove::<K>, (n, &key), again),
    ensures
        removed is Some <==> found is Some,
        removed is Some ==> exists|v: V| #[trigger] cloned(v, removed->0) && cloned(v, found->0),
        gone is None,
        again is None,
        after is Some <==> before is Some,
        after is Some ==> exists|v: V| #[trigger] cloned(v, after->0) && cloned(v, before->0),
{
    law_get(&*old(m), &key, found);
    law_get(&*old(m), &other, before);
    law_remove(m, &key, removed);
    law_get(&*old(n), &key, gone);
    law_get(&*old(n), &other, after);
    law_remove(n, &key, again);
    assert forall|j: K, k: K| #[trigger] finds(&j, k) <==> j == k by {
        law_keys_find_themselves(j, k);
    }
    assert(finds(&key, key) && finds(&other, other));
    let s = old(m).state();
    let t = old(n).state();
    if s.keys.contains_key(other) {
        assert(t.keys.contains_key(other));
        assert(t.keys[other] == s.keys[other]);
        assert(lives(t, t.keys[other]));
        old(m).lemma_state();
        law_valid_states(s);
        assert(t.cells.contains_key(t.keys[other]));
    }
    assert(t.keys.contains_key(other) <==> s.keys.contains_key(other));
}

/// To discard a key is to remove it: what is found under any key is the same after either.
pub proof fn law_discard_is_removal<K: Eq + Hash, V: Clone, S: BuildHasher + Clone>(
    m: &mut OnceMap<K, V, S>,
    n: &mut OnceMap<K, V, S>,
    key: K,
    removed: Option<V>,
)
    requires
        *old(m) == *old(n),
        call_ensures(OnceMap::<K, V, S>::discard::<K>, (m, &key), ()),
        call_ensures(OnceMap::<K, V, S>::remove::<K>, (n, &key), removed),
    ensures
        final(m).state() == final(n).state(),
{
    law_discard(m, &key);
    law_remove(n, &key, removed);
    let s = final(m).state();
    let t = final(n).state();
    assert(s.keys =~= t.keys);
    assert(s.calls =~= t.calls);
    assert forall|e: usize| #[trigger] lives(s, e) == lives(t, e) by {}
    assert(s.cells =~= t.cells);
    assert(s =~= t);
}

/// Every item that a map is made of, unless a later one has its key, is found, and returned to a
/// call about its key, which does not run the computation. Nothing is found under other keys.
pub proof fn law_items_are_found<K: Eq + Hash + Clone, V: Clone, S: Default + BuildHasher + Clone>(
    items: Vec<(K, V)>,
    m: &mut OnceMap<K, V, S>,
    i: int,
    got: Option<V>,
    turn: Turn<(), V>,
    other: K,
    nothing: Option<V>,
)
    requires
        call_ensures(OnceMap::<K, V, S>::from_iter, (items,), *old(m)),
        0 <= i < items@.len(),
        forall|j: int| i < j < items@.len() ==> (#[trigger] items@[j]).0 != items@[i].0,
        call_ensures(OnceMap::<K, V, S>::get::<K>, (&*old(m), &items@[i].0), got),
        forall|j: int| 0 <= j < items@.len() ==> (#[trigger] items@[j]).0 != other,
        call_ensures(OnceMap::<K, V, S>::get::<K>, (&*old(m), &other), nothing),
        call_ensures(OnceMap::<K, V, S>::compute, (m, Event::Arrive(items@[i].0)), turn),
    ensures
        got matches Some(x) && cloned(items@[i].1, x),
        turn matches Turn::Return(r) && cloned(items@[i].1, r),
        nothing is None,
{
    law_from_iter(items, *old(m));
    law_get(&*old(m), &items@[i].0, got);
    law_get(&*old(m), &other, nothing);
    law_compute(m, Event::Arrive(items@[i].0), turn);
    assert forall|j: K, k: K| #[trigger] finds(&j, k) <==> j == k by {
        law_keys_find_themselves(j, k);
    }
    let k = items@[i].0;
    assert(finds(&k, k));
    assert(old(m).state().keys.contains_key(k));
}

/// What happens to a call about one key changes nothing of what is found under another.
pub proof fn law_other_keys_are_found_as_before<K: Eq + Hash, V: Clone, S: BuildHasher + Clone>(
    m: &mut OnceMap<K, V, S>,
    event: Event<K, (), V>,
    turn: Turn<(), V>,
    other: K,
    before: Option<V>,
    after: Option<V>,
)
    requires
        old(m).wf(),
        match event {
            Event::Arrive(key) => key != other,
            Event::Wake(guard) => under_way(old(m).state(), guard),
            Event::Finish(guard, _) => under_way(old(m).state(), guard) && old(
                m,
            ).state().calls[guard.call()].key != other,
        },
        call_ensures(OnceMap::<K, V, S>::get::<K>, (&*old(m), &other), before),
        call_ensures(OnceMap::<K, V, S>::compute, (m, event), turn),
        call_ensures(OnceMap::<K, V, S>::get::<K>, (&*final(m), &other), after),
    ensures
        after is Some <==> before is Some,
        after is Some ==> exists|v: V| #[trigger] cloned(v, after->0) && cloned(v, before->0),
{
    law_get(&*old(m), &other, before);
    law_get(&*final(m), &other, after);
    law_compute(m, event, turn);
    assert forall|j: K, k: K| #[trigger] finds(&j, k) <==> j == k by {
        law_keys_find_themselves(j, k);
    }
    assert(finds(&other, other));
    let s = old(m).state();
    let t = final(m).state();
    old(m).lemma_state();
    law_valid_states(s);
    if s.keys.contains_key(other) {
        assert(t.keys.contains_key(other) && t.keys[other] == s.keys[other]);
        assert(lives(t, t.keys[other]));
        assert(t.cells.contains_key(t.keys[other]));
        if let Event::Finish(guard, _) = event {
            assert(s.calls[guard.call()].entry != s.keys[other]);
        }
    }
}

/// What is removed by what its key borrows as is what a lookup by that found. Afterwards a lookup by
/// it finds nothing, a second removal gives nothing, and to discard it changes nothing.
pub proof fn law_removal_by_a_borrowed_key<
    K: Eq + Hash + Borrow<Q>,
    V: Clone,
    S: BuildHasher + Clone,
    Q: Hash + Eq + ?Sized,
>(
    m: &mut OnceMap<K, V, S>,
    n: &mut OnceMap<K, V, S>,
    p: &mut OnceMap<K, V, S>,
    key: &Q,
    found: Option<V>,
    removed: Option<V>,
    gone: Option<V>,
    again: Option<V>,
)
    requires
        borrows_keys::<K, Q>(),
        old(m).wf(),
        call_ensures(OnceMap::<K, V, S>::get::<Q>, (&*old(m), key), found),
        call_ensures(OnceMap::<K, V, S>::remove::<Q>, (m, key), removed),
        *old(n) == *final(m),
        call_ensures(OnceMap::<K, V, S>::get::<Q>, (&*old(n), key), gone),
        call_ensures(OnceMap::<K, V, S>::remove::<Q>, (n, key), again),
        *old(p) == *final(n),
        call_ensures(OnceMap::<K, V, S>::discard::<Q>, (p, key), ()),
    ensures
        removed is Some <==> found is Some,
        removed is Some ==> exists|v: V| #[trigger] cloned(v, removed->0) && cloned(v, found->0),
        removed is Some ==> contains_borrowed_key(old(m).state().keys, key),
        !contains_borrowed_key(final(m).state().keys, key),
        gone is None,
        again is None,
        final(n).state() == old(n).state(),
        final(p).state() == old(p).state(),
{
    law_get(&*old(m), key, found);
    law_remove(m, key, removed);
    law_get(&*old(n), key, gone);
    law_remove(n, key, again);
    law_discard(p, key);
    let s = old(m).state();
    let t = old(n).state();
    let u = final(n).state();
    let w = final(p).state();
    assert forall|k: K| #[trigger] finds(key, k) == denotes(key, k) by {}
    assert(forall|j: K, k: K| #[trigger] finds(key, j) && #[trigger] finds(key, k) ==> j == k) by {
        assert forall|j: K, k: K| #[trigger] finds(key, j) && #[trigger] finds(
            key,
            k,
        ) implies j == k by {
            assert(denotes(key, j) && denotes(key, k));
        }
    }
    if removed is Some {
        let k = choose|k: K| #[trigger]
            finds(key, k) && s.keys.contains_key(k) && (
            s.cells[s.keys[k]] matches CellState::Ready(v) && cloned(v, removed->0));
        assert(denotes(key, k));
    }
    if found is Some {
        let k = choose|k: K| #[trigger]
            finds(key, k) && s.keys.contains_key(k) && (
            s.cells[s.keys[k]] matches CellState::Ready(v) && cloned(v, found->0));
        assert(finds(key, k));
    }
    if contains_borrowed_key(t.keys, key) {
        let k = choose|k: K| #[trigger] t.keys.contains_key(k) && denotes(key, k);
        assert(finds(key, k));
    }
    final(m).lemma_state();
    law_valid_states(t);
    assert(u.keys =~= t.keys);
    assert forall|e: usize| #[trigger] lives(u, e) == lives(t, e) by {}
    assert(u.cells =~= t.cells);
    assert(u =~= t);
    assert(w.keys =~= u.keys);
    assert forall|e: usize| #[trigger] lives(w, e) == lives(u, e) by {}
    assert(w.cells =~= u.cells);
    assert(w =~= u);
}

/// To forget by what a key borrows as leaves nothing that can be found by it, and to do so again
/// changes nothing.
pub proof fn law_forgetting_by_a_borrowed_key<
    K: Eq + Hash + Clone + Borrow<Q>,
    V: Clone,
    S: BuildHasher + Clone,
    Q: Hash + Eq + ?Sized,
>(m: &mut Group<K, V, S>, n: &mut Group<K, V, S>, key: &Q)
    requires
        borrows_keys::<K, Q>(),
        old(m).wf(),
        call_ensures(Group::<K, V, S>::forget::<Q>, (m, key), ()),
        *old(n) == *final(m),
        call_ensures(Group::<K, V, S>::forget::<Q>, (n, key), ()),
    ensures
        !contains_borrowed_key(final(m).state().keys, key),
        final(m).state().calls == old(m).state().calls,
        final(n).state() == final(m).state(),
{
    law_forget(m, key);
    law_forget(n, key);
    let t = old(n).state();
    let u = final(n).state();
    assert forall|k: K| #[trigger] finds(key, k) == denotes(key, k) by {}
    if contains_borrowed_key(t.keys, key) {
        let k = choose|k: K| #[trigger] t.keys.contains_key(k) && denotes(key, k);
        assert(finds(key, k));
    }
    final(m).lemma_state();
    law_valid_states(t);
    assert(u.keys =~= t.keys);
    assert forall|e: usize| #[trigger] lives(u, e) == lives(t, e) by {}
    assert(u.cells =~= t.cells);
    assert(u =~= t);
}

} // verus!
