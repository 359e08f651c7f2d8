//! What becomes of a call of [`OnceMap`] or [`Group`], case by case.

use std::hash::BuildHasher;
use std::hash::Hash;

use vstd::prelude::*;

use crate::flight::EntryGuard;
use crate::flight::Event;
use crate::flight::Turn;
use crate::once::OnceMap;
use crate::promises::finds;
use crate::promises::law_cancel_of_a_group;
use crate::promises::law_cancel_of_a_map;
use crate::promises::law_compute;
use crate::promises::law_discard;
use crate::promises::law_forget;
use crate::promises::law_get;
use crate::promises::law_keys_find_themselves;
use crate::promises::law_remove;
use crate::promises::law_results_are_clones;
use crate::promises::law_try_compute;
use crate::promises::law_try_work;
use crate::promises::law_valid_states;
use crate::promises::law_work;
use crate::promises::lives;
use crate::singleflight::Group;
use crate::state::CallState;
use crate::state::CellState;

verus! {

/// A call of [`OnceMap::compute`] that looks after its entry has its value returns a clone of the
/// value and is over, whatever other calls are on the entry and whether or not a key still refers to
/// it. The other calls, the keys and the other entries that live are what they were.
pub proof fn law_compute_returns_what_is_there<K: Eq + Hash, V: Clone, S: BuildHasher + Clone>(
    m: &mut OnceMap<K, V, S>,
    guard: EntryGuard<()>,
    v: V,
    turn: Turn<(), V>,
)
    requires
        old(m).wf(),
        old(m).state().calls.contains_key(guard.call()),
        old(m).state().calls[guard.call()].entry == guard.entry(),
        old(m).state().cells[guard.entry()] == CellState::Ready(v),
        call_ensures(OnceMap::<K, V, S>::compute, (m, Event::Wake(guard)), turn),
    ensures
        turn matches Turn::Return(r) && cloned(v, r),
        final(m).state().calls == old(m).state().calls.remove(guard.call()),
        final(m).state().keys == old(m).state().keys,
        forall|d: nat| #[trigger]
            final(m).state().calls.contains_key(d) ==> final(m).state().cells.contains_key(
                old(m).state().calls[d].entry,
            ) && final(m).state().cells[old(m).state().calls[d].entry] == old(
                m,
            ).state().cells[old(m).state().calls[d].entry],
        forall|k: K| #[trigger]
            old(m).state().keys.contains_key(k) ==> final(m).state().cells.contains_key(
                old(m).state().keys[k],
            ) && final(m).state().cells[old(m).state().keys[k]] == old(m).state().cells[old(
                m,
            ).state().keys[k]],
{
    old(m).lemma_state();
    law_valid_states(old(m).state());
    law_compute(m, Event::Wake(guard), turn);
    final(m).lemma_state();
    law_valid_states(final(m).state());
    if let Turn::Return(r) = turn {
        law_results_are_clones::<V, ()>(v, r, Ok(r));
    }
}

/// A call of [`OnceMap::compute`] that looks while another runs the computation waits on, and
/// changes nothing.
pub proof fn law_compute_waits_on<K: Eq + Hash, V: Clone, S: BuildHasher + Clone>(
    m: &mut OnceMap<K, V, S>,
    guard: EntryGuard<()>,
    turn: Turn<(), V>,
)
    requires
        old(m).wf(),
        old(m).state().calls.contains_key(guard.call()),
        old(m).state().calls[guard.call()].entry == guard.entry(),
        old(m).state().cells[guard.entry()] is Running,
        call_ensures(OnceMap::<K, V, S>::compute, (m, Event::Wake(guard)), turn),
    ensures
        turn == Turn::<(), V>::Wait(guard),
        final(m).state() == old(m).state(),
{
    law_compute(m, Event::Wake(guard), turn);
}

/// A call of [`OnceMap::compute`] that looks where there is no value and nobody computes one runs
/// the computation.
pub proof fn law_compute_retries<K: Eq + Hash, V: Clone, S: BuildHasher + Clone>(
    m: &mut OnceMap<K, V, S>,
    guard: EntryGuard<()>,
    turn: Turn<(), V>,
)
    requires
        old(m).wf(),
        old(m).state().calls.contains_key(guard.call()),
        old(m).state().calls[guard.call()].entry == guard.entry(),
        old(m).state().cells[guard.entry()] is Empty,
        call_ensures(OnceMap::<K, V, S>::compute, (m, Event::Wake(guard)), turn),
    ensures
        turn matches Turn::Run(next) && next.call() == guard.call() && next.entry() == guard.entry()
            && next.running(),
        final(m).state().keys == old(m).state().keys,
        final(m).state().calls == old(m).state().calls,
        final(m).state().cells == old(m).state().cells.insert(
            guard.entry(),
            CellState::Running(guard.call()),
        ),
{
    law_compute(m, Event::Wake(guard), turn);
}

/// A new call of [`OnceMap::compute`] returns a clone of the value of its key where there is one,
/// and changes nothing. Where another call runs the computation for the key it waits on the same
/// entry. Otherwise it runs the computation, on the entry of the key or a new one, for which nothing
/// that is there is given up.
pub proof fn law_compute_of_a_new_call<
    K: Eq + Hash,
    V: Clone,
    S: BuildHasher + Clone,
>(m: &mut OnceMap<K, V, S>, key: K, turn: Turn<(), V>)
    requires
        old(m).wf(),
        call_ensures(OnceMap::<K, V, S>::compute, (m, Event::Arrive(key)), turn),
    ensures
        ({
            let s = old(m).state();
            let t = final(m).state();
            if s.keys.contains_key(key) && s.cells[s.keys[key]] is Ready {
                &&& turn matches Turn::Return(r) && cloned(s.cells[s.keys[key]]->Ready_0, r)
                &&& t == s
            } else if s.keys.contains_key(key) && s.cells[s.keys[key]] is Running {
                &&& turn matches Turn::Wait(guard) && guard.entry() == s.keys[key]
                    && !guard.running() && !s.calls.contains_key(guard.call()) && t.calls
                    == s.calls.insert(guard.call(), CallState { key, entry: s.keys[key] })
                &&& t.keys == s.keys
                &&& t.cells == s.cells
            } else {
                &&& turn matches Turn::Run(guard) && guard.running() && !s.calls.contains_key(
                    guard.call(),
                ) && t.calls == s.calls.insert(
                    guard.call(),
                    CallState { key, entry: guard.entry() },
                ) && t.keys == s.keys.insert(key, guard.entry()) && t.cells == s.cells.insert(
                    guard.entry(),
                    CellState::Running(guard.call()),
                ) && if s.keys.contains_key(key) {
                    guard.entry() == s.keys[key]
                } else {
                    !s.cells.contains_key(guard.entry())
                }
            }
        }),
{
    law_compute(m, Event::Arrive(key), turn);
    if let Turn::Return(r) = turn {
        let s = old(m).state();
        law_results_are_clones::<V, ()>(s.cells[s.keys[key]]->Ready_0, r, Ok(r));
    }
}

/// A call of [`OnceMap::compute`] that completes with `v` returns a clone of it and is over. The
/// entry holds the value for the other calls on it, which all stay. The keys are what they were, and
/// those that referred to the entry have the value.
pub proof fn law_compute_completes<K: Eq + Hash, V: Clone, S: BuildHasher + Clone>(
    m: &mut OnceMap<K, V, S>,
    guard: EntryGuard<()>,
    v: V,
    turn: Turn<(), V>,
)
    requires
        old(m).wf(),
        old(m).state().calls.contains_key(guard.call()),
        old(m).state().calls[guard.call()].entry == guard.entry(),
        call_ensures(OnceMap::<K, V, S>::compute, (m, Event::Finish(guard, v)), turn),
    ensures
        turn matches Turn::Return(r) && cloned(v, r),
        final(m).state().calls == old(m).state().calls.remove(guard.call()),
        forall|d: nat| #[trigger]
            final(m).state().calls.contains_key(d) ==> final(m).state().cells[old(
                m,
            ).state().calls[d].entry] == if old(m).state().calls[d].entry == guard.entry() {
                CellState::Ready(v)
            } else {
                old(m).state().cells[old(m).state().calls[d].entry]
            },
        final(m).state().keys == old(m).state().keys,
        forall|k: K| #[trigger]
            old(m).state().keys.contains_key(k) ==> final(m).state().cells[old(m).state().keys[k]]
                == if old(m).state().keys[k] == guard.entry() {
                CellState::Ready(v)
            } else {
                old(m).state().cells[old(m).state().keys[k]]
            },
{
    old(m).lemma_state();
    law_valid_states(old(m).state());
    law_compute(m, Event::Finish(guard, v), turn);
    final(m).lemma_state();
    law_valid_states(final(m).state());
}

/// A call of a map that is cancelled leaves: the call is over, and a computation that it ran does
/// not run any more. While other calls are on the entry they, the keys and the other entries are
/// what they were. Where there is none the key goes, if it refers to the entry and there is no
/// value.
pub proof fn law_cancelled_call_of_a_map<
    K: Eq + Hash,
    V: Clone,
    S: BuildHasher + Clone,
>(m: &mut OnceMap<K, V, S>, guard: EntryGuard<()>)
    requires
        old(m).wf(),
        old(m).state().calls.contains_key(guard.call()),
        old(m).state().calls[guard.call()].entry == guard.entry(),
        call_ensures(OnceMap::<K, V, S>::cancel, (m, guard), ()),
    ensures
        ({
            let s = old(m).state();
            let t = final(m).state();
            let c = guard.call();
            let e = guard.entry();
            let key = s.calls[c].key;
            let alone = forall|d: nat| #[trigger]
                s.calls.contains_key(d) && d != c ==> s.calls[d].entry != e;
            &&& t.calls == s.calls.remove(c)
            &&& !alone || s.cells[e] is Ready ==> t.keys == s.keys
            &&& alone && !(s.cells[e] is Ready) && s.keys.contains_key(key) && s.keys[key] == e
                ==> t.keys == s.keys.remove(key)
            &&& !(s.keys.contains_key(key) && s.keys[key] == e) ==> t.keys == s.keys
            &&& !alone ==> t.cells.contains_key(e) && t.cells[e] == if s.cells[e]
                == CellState::<V>::Running(c) {
                CellState::Empty
            } else {
                s.cells[e]
            }
            &&& forall|d: usize| #[trigger]
                t.cells.contains_key(d) && d != e ==> s.cells.contains_key(d) && t.cells[d]
                    == s.cells[d]
        }),
{
    let s = old(m).state();
    let t = final(m).state();
    let e = guard.entry();
    old(m).lemma_state();
    law_valid_states(s);
    law_cancel_of_a_map(m, guard);
    if !(forall|d: nat| #[trigger]
        s.calls.contains_key(d) && d != guard.call() ==> s.calls[d].entry != e) {
        let d = choose|d: nat| #[trigger]
            s.calls.contains_key(d) && d != guard.call() && s.calls[d].entry == e;
        assert(t.calls[d].entry == e);
        assert(lives(t, e));
        assert(t.cells.contains_key(e));
    }
}

/// A call of [`OnceMap::try_compute`] that looks after its entry has its value returns a clone of
/// the value and is over, whatever other calls are on the entry and whether or not a key still
/// refers to it. The other calls, the keys and the other entries that live are what they were.
pub proof fn law_try_compute_returns_what_is_there<
    K: Eq + Hash,
    V: Clone,
    S: BuildHasher + Clone,
    E,
>(
    m: &mut OnceMap<K, V, S>,
    guard: EntryGuard<()>,
    v: V,
    turn: Turn<(), Result<V, E>>,
)
    requires
        old(m).wf(),
        old(m).state().calls.contains_key(guard.call()),
        old(m).state().calls[guard.call()].entry == guard.entry(),
        old(m).state().cells[guard.entry()] == CellState::Ready(v),
        call_ensures(OnceMap::<K, V, S>::try_compute::<E>, (m, Event::Wake(guard)), turn),
    ensures
        turn matches Turn::Return(Ok(r)) && cloned(v, r),
        final(m).state().calls == old(m).state().calls.remove(guard.call()),
        final(m).state().keys == old(m).state().keys,
        forall|d: nat| #[trigger]
            final(m).state().calls.contains_key(d) ==> final(m).state().cells.contains_key(
                old(m).state().calls[d].entry,
            ) && final(m).state().cells[old(m).state().calls[d].entry] == old(
                m,
            ).state().cells[old(m).state().calls[d].entry],
        forall|k: K| #[trigger]
            old(m).state().keys.contains_key(k) ==> final(m).state().cells.contains_key(
                old(m).state().keys[k],
            ) && final(m).state().cells[old(m).state().keys[k]] == old(m).state().cells[old(
                m,
            ).state().keys[k]],
{
    old(m).lemma_state();
    law_valid_states(old(m).state());
    law_try_compute(m, Event::Wake(guard), turn);
    final(m).lemma_state();
    law_valid_states(final(m).state());
    if let Turn::Return(r) = turn {
        law_results_are_clones::<V, E>(v, r->Ok_0, r);
    }
}

/// A call of [`OnceMap::try_compute`] that looks while another runs the computation waits on, and
/// changes nothing.
pub proof fn law_try_compute_waits_on<K: Eq + Hash, V: Clone, S: BuildHasher + Clone, E>(
    m: &mut OnceMap<K, V, S>,
    guard: EntryGuard<()>,
    turn: Turn<(), Result<V, E>>,
)
    requires
        old(m).wf(),
        old(m).state().calls.contains_key(guard.call()),
        old(m).state().calls[guard.call()].entry == guard.entry(),
        old(m).state().cells[guard.entry()] is Running,
        call_ensures(OnceMap::<K, V, S>::try_compute::<E>, (m, Event::Wake(guard)), turn),
    ensures
        turn == Turn::<(), Result<V, E>>::Wait(guard),
        final(m).state() == old(m).state(),
{
    law_try_compute(m, Event::Wake(guard), turn);
}

/// A call of [`OnceMap::try_compute`] that looks where there is no value and nobody computes one
/// runs the computation.
pub proof fn law_try_compute_retries<K: Eq + Hash, V: Clone, S: BuildHasher + Clone, E>(
    m: &mut OnceMap<K, V, S>,
    guard: EntryGuard<()>,
    turn: Turn<(), Result<V, E>>,
)
    requires
        old(m).wf(),
        old(m).state().calls.contains_key(guard.call()),
        old(m).state().calls[guard.call()].entry == guard.entry(),
        old(m).state().cells[guard.entry()] is Empty,
        call_ensures(OnceMap::<K, V, S>::try_compute::<E>, (m, Event::Wake(guard)), turn),
    ensures
        turn matches Turn::Run(next) && next.call() == guard.call() && next.entry() == guard.entry()
            && next.running(),
        final(m).state().keys == old(m).state().keys,
        final(m).state().calls == old(m).state().calls,
        final(m).state().cells == old(m).state().cells.insert(
            guard.entry(),
            CellState::Running(guard.call()),
        ),
{
    law_try_compute(m, Event::Wake(guard), turn);
}

/// A new call of [`OnceMap::try_compute`] returns a clone of the value of its key where there is
/// one, and changes nothing. Where another call runs the computation for the key it waits on the
/// same entry. Otherwise it runs the computation, on the entry of the key or a new one, for which
/// nothing that is there is given up.
pub proof fn law_try_compute_of_a_new_call<
    K: Eq + Hash,
    V: Clone,
    S: BuildHasher + Clone,
    E,
>(m: &mut OnceMap<K, V, S>, key: K, turn: Turn<(), Result<V, E>>)
    requires
        old(m).wf(),
        call_ensures(OnceMap::<K, V, S>::try_compute::<E>, (m, Event::Arrive(key)), turn),
    ensures
        ({
            let s = old(m).state();
            let t = final(m).state();
            if s.keys.contains_key(key) && s.cells[s.keys[key]] is Ready {
                &&& turn matches Turn::Return(Ok(r)) && cloned(s.cells[s.keys[key]]->Ready_0, r)
                &&& t == s
            } else if s.keys.contains_key(key) && s.cells[s.keys[key]] is Running {
                &&& turn matches Turn::Wait(guard) && guard.entry() == s.keys[key]
                    && !guard.running() && !s.calls.contains_key(guard.call()) && t.calls
                    == s.calls.insert(guard.call(), CallState { key, entry: s.keys[key] })
                &&& t.keys == s.keys
                &&& t.cells == s.cells
            } else {
                &&& turn matches Turn::Run(guard) && guard.running() && !s.calls.contains_key(
                    guard.call(),
                ) && t.calls == s.calls.insert(
                    guard.call(),
                    CallState { key, entry: guard.entry() },
                ) && t.keys == s.keys.insert(key, guard.entry()) && t.cells == s.cells.insert(
                    guard.entry(),
                    CellState::Running(guard.call()),
                ) && if s.keys.contains_key(key) {
                    guard.entry() == s.keys[key]
                } else {
                    !s.cells.contains_key(guard.entry())
                }
            }
        }),
{
    law_try_compute(m, Event::Arrive(key), turn);
    if let Turn::Return(r) = turn {
        let s = old(m).state();
        law_results_are_clones::<V, E>(s.cells[s.keys[key]]->Ready_0, r->Ok_0, r);
    }
}

/// A call of [`OnceMap::try_compute`] that completes with `v` returns a clone of it and is over. The
/// entry holds the value for the other calls on it, which all stay. The keys are what they were, and
/// those that referred to the entry have the value.
pub proof fn law_try_compute_completes<K: Eq + Hash, V: Clone, S: BuildHasher + Clone, E>(
    m: &mut OnceMap<K, V, S>,
    guard: EntryGuard<()>,
    v: V,
    turn: Turn<(), Result<V, E>>,
)
    requires
        old(m).wf(),
        old(m).state().calls.contains_key(guard.call()),
        old(m).state().calls[guard.call()].entry == guard.entry(),
        call_ensures(OnceMap::<K, V, S>::try_compute::<E>, (m, Event::Finish(guard, Ok(v))), turn),
    ensures
        turn matches Turn::Return(Ok(r)) && cloned(v, r),
        final(m).state().calls == old(m).state().calls.remove(guard.call()),
        forall|d: nat| #[trigger]
            final(m).state().calls.contains_key(d) ==> final(m).state().cells[old(
                m,
            ).state().calls[d].entry] == if old(m).state().calls[d].entry == guard.entry() {
                CellState::Ready(v)
            } else {
                old(m).state().cells[old(m).state().calls[d].entry]
            },
        final(m).state().keys == old(m).state().keys,
        forall|k: K| #[trigger]
            old(m).state().keys.contains_key(k) ==> final(m).state().cells[old(m).state().keys[k]]
                == if old(m).state().keys[k] == guard.entry() {
                CellState::Ready(v)
            } else {
                old(m).state().cells[old(m).state().keys[k]]
            },
{
    old(m).lemma_state();
    law_valid_states(old(m).state());
    law_try_compute(m, Event::Finish(guard, Ok(v)), turn);
    final(m).lemma_state();
    law_valid_states(final(m).state());
}

/// A call of [`OnceMap::try_compute`] whose computation fails returns the error, and leaves: the
/// call is over, and a computation that it ran does not run any more. While other calls are on the
/// entry they, the keys and the other entries are what they were. Where there is none the key goes,
/// if it refers to the entry and there is no value.
pub proof fn law_try_compute_fails<
    K: Eq + Hash,
    V: Clone,
    S: BuildHasher + Clone,
    E,
>(m: &mut OnceMap<K, V, S>, guard: EntryGuard<()>, error: E, turn: Turn<(), Result<V, E>>)
    requires
        old(m).wf(),
        old(m).state().calls.contains_key(guard.call()),
        old(m).state().calls[guard.call()].entry == guard.entry(),
        call_ensures(OnceMap::<K, V, S>::try_compute::<E>, (m, Event::Finish(guard, Err(error))), turn),
    ensures
        turn matches Turn::Return(Err(r)) && r == error,
        ({
            let s = old(m).state();
            let t = final(m).state();
            let c = guard.call();
            let e = guard.entry();
            let key = s.calls[c].key;
            let alone = forall|d: nat| #[trigger]
                s.calls.contains_key(d) && d != c ==> s.calls[d].entry != e;
            &&& t.calls == s.calls.remove(c)
            &&& !alone || s.cells[e] is Ready ==> t.keys == s.keys
            &&& alone && !(s.cells[e] is Ready) && s.keys.contains_key(key) && s.keys[key] == e
                ==> t.keys == s.keys.remove(key)
            &&& !(s.keys.contains_key(key) && s.keys[key] == e) ==> t.keys == s.keys
            &&& !alone ==> t.cells.contains_key(e) && t.cells[e] == if s.cells[e]
                == CellState::<V>::Running(c) {
                CellState::Empty
            } else {
                s.cells[e]
            }
            &&& forall|d: usize| #[trigger]
                t.cells.contains_key(d) && d != e ==> s.cells.contains_key(d) && t.cells[d]
                    == s.cells[d]
        }),
{
    let s = old(m).state();
    let t = final(m).state();
    let e = guard.entry();
    old(m).lemma_state();
    law_valid_states(s);
    law_try_compute(m, Event::Finish(guard, Err(error)), turn);
    if !(forall|d: nat| #[trigger]
        s.calls.contains_key(d) && d != guard.call() ==> s.calls[d].entry != e) {
        let d = choose|d: nat| #[trigger]
            s.calls.contains_key(d) && d != guard.call() && s.calls[d].entry == e;
        assert(t.calls[d].entry == e);
        assert(lives(t, e));
        assert(t.cells.contains_key(e));
    }
}

/// A call of [`Group::work`] that looks after its entry has its value returns a clone of the value
/// and is over, whatever other calls are on the entry and whether or not a key still refers to it.
/// The other calls, the keys and the other entries that live are what they were.
pub proof fn law_work_returns_what_is_there<K: Eq + Hash + Clone, V: Clone, S: BuildHasher + Clone>(
    m: &mut Group<K, V, S>,
    guard: EntryGuard<K>,
    v: V,
    turn: Turn<K, V>,
)
    requires
        old(m).wf(),
        old(m).state().calls.contains_key(guard.call()),
        old(m).state().calls[guard.call()].entry == guard.entry(),
        old(m).state().cells[guard.entry()] == CellState::Ready(v),
        call_ensures(Group::<K, V, S>::work, (m, Event::Wake(guard)), turn),
    ensures
        turn matches Turn::Return(r) && cloned(v, r),
        final(m).state().calls == old(m).state().calls.remove(guard.call()),
        final(m).state().keys == old(m).state().keys,
        forall|d: nat| #[trigger]
            final(m).state().calls.contains_key(d) ==> final(m).state().cells.contains_key(
                old(m).state().calls[d].entry,
            ) && final(m).state().cells[old(m).state().calls[d].entry] == old(
                m,
            ).state().cells[old(m).state().calls[d].entry],
        forall|k: K| #[trigger]
            old(m).state().keys.contains_key(k) ==> final(m).state().cells.contains_key(
                old(m).state().keys[k],
            ) && final(m).state().cells[old(m).state().keys[k]] == old(m).state().cells[old(
                m,
            ).state().keys[k]],
{
    old(m).lemma_state();
    law_valid_states(old(m).state());
    law_work(m, Event::Wake(guard), turn);
    final(m).lemma_state();
    law_valid_states(final(m).state());
    if let Turn::Return(r) = turn {
        law_results_are_clones::<V, ()>(v, r, Ok(r));
    }
}

/// A call of [`Group::work`] that looks while another runs the computation waits on, and changes
/// nothing.
pub proof fn law_work_waits_on<K: Eq + Hash + Clone, V: Clone, S: BuildHasher + Clone>(
    m: &mut Group<K, V, S>,
    guard: EntryGuard<K>,
    turn: Turn<K, V>,
)
    requires
        old(m).wf(),
        old(m).state().calls.contains_key(guard.call()),
        old(m).state().calls[guard.call()].entry == guard.entry(),
        old(m).state().cells[guard.entry()] is Running,
        call_ensures(Group::<K, V, S>::work, (m, Event::Wake(guard)), turn),
    ensures
        turn == Turn::<K, V>::Wait(guard),
        final(m).state() == old(m).state(),
{
    law_work(m, Event::Wake(guard), turn);
}

/// A call of [`Group::work`] that looks where there is no value and nobody computes one runs the
/// computation.
pub proof fn law_work_retries<K: Eq + Hash + Clone, V: Clone, S: BuildHasher + Clone>(
    m: &mut Group<K, V, S>,
    guard: EntryGuard<K>,
    turn: Turn<K, V>,
)
    requires
        old(m).wf(),
        old(m).state().calls.contains_key(guard.call()),
        old(m).state().calls[guard.call()].entry == guard.entry(),
        old(m).state().cells[guard.entry()] is Empty,
        call_ensures(Group::<K, V, S>::work, (m, Event::Wake(guard)), turn),
    ensures
        turn matches Turn::Run(next) && next.call() == guard.call() && next.entry() == guard.entry()
            && next.running(),
        final(m).state().keys == old(m).state().keys,
        final(m).state().calls == old(m).state().calls,
        final(m).state().cells == old(m).state().cells.insert(
            guard.entry(),
            CellState::Running(guard.call()),
        ),
{
    law_work(m, Event::Wake(guard), turn);
}

/// A new call of [`Group::work`] returns a clone of the value of its key where there is one, and
/// changes nothing. Where another call runs the computation for the key it waits on the same entry.
/// Otherwise it runs the computation, on the entry of the key or a new one, for which nothing that
/// is there is given up.
pub proof fn law_work_of_a_new_call<
    K: Eq + Hash + Clone,
    V: Clone,
    S: BuildHasher + Clone,
>(m: &mut Group<K, V, S>, key: K, turn: Turn<K, V>)
    requires
        forall|x: K, y: K| #[trigger] cloned(x, y) ==> x == y,
        old(m).wf(),
        call_ensures(Group::<K, V, S>::work, (m, Event::Arrive(key)), turn),
    ensures
        ({
            let s = old(m).state();
            let t = final(m).state();
            if s.keys.contains_key(key) && s.cells[s.keys[key]] is Ready {
                &&& turn matches Turn::Return(r) && cloned(s.cells[s.keys[key]]->Ready_0, r)
                &&& t == s
            } else if s.keys.contains_key(key) && s.cells[s.keys[key]] is Running {
                &&& turn matches Turn::Wait(guard) && guard.entry() == s.keys[key]
                    && !guard.running() && !s.calls.contains_key(guard.call()) && t.calls
                    == s.calls.insert(guard.call(), CallState { key, entry: s.keys[key] })
                &&& t.keys == s.keys
                &&& t.cells == s.cells
            } else {
                &&& turn matches Turn::Run(guard) && guard.running() && !s.calls.contains_key(
                    guard.call(),
                ) && t.calls == s.calls.insert(
                    guard.call(),
                    CallState { key, entry: guard.entry() },
                ) && t.keys == s.keys.insert(key, guard.entry()) && t.cells == s.cells.insert(
                    guard.entry(),
                    CellState::Running(guard.call()),
                ) && if s.keys.contains_key(key) {
                    guard.entry() == s.keys[key]
                } else {
                    !s.cells.contains_key(guard.entry())
                }
            }
        }),
{
    law_work(m, Event::Arrive(key), turn);
    if let Turn::Return(r) = turn {
        let s = old(m).state();
        law_results_are_clones::<V, ()>(s.cells[s.keys[key]]->Ready_0, r, Ok(r));
    }
}

/// A call of [`Group::work`] that completes with `v` returns a clone of it and is over. The entry
/// holds the value for the other calls on it, which all stay. Its key is gone where it referred to
/// the entry.
pub proof fn law_work_completes<K: Eq + Hash + Clone, V: Clone, S: BuildHasher + Clone>(
    m: &mut Group<K, V, S>,
    guard: EntryGuard<K>,
    v: V,
    turn: Turn<K, V>,
)
    requires
        old(m).wf(),
        old(m).state().calls.contains_key(guard.call()),
        old(m).state().calls[guard.call()].entry == guard.entry(),
        call_ensures(Group::<K, V, S>::work, (m, Event::Finish(guard, v)), turn),
    ensures
        turn matches Turn::Return(r) && cloned(v, r),
        final(m).state().calls == old(m).state().calls.remove(guard.call()),
        forall|d: nat| #[trigger]
            final(m).state().calls.contains_key(d) ==> final(m).state().cells[old(
                m,
            ).state().calls[d].entry] == if old(m).state().calls[d].entry == guard.entry() {
                CellState::Ready(v)
            } else {
                old(m).state().cells[old(m).state().calls[d].entry]
            },
        ({
            let s = old(m).state();
            let key = s.calls[guard.call()].key;
            final(m).state().keys == if s.keys.contains_key(key) && s.keys[key] == guard.entry() {
                s.keys.remove(key)
            } else {
                s.keys
            }
        }),
{
    old(m).lemma_state();
    law_valid_states(old(m).state());
    law_work(m, Event::Finish(guard, v), turn);
    final(m).lemma_state();
    law_valid_states(final(m).state());
}

/// A call of a group that is cancelled leaves: the call is over, and a computation that it ran does
/// not run any more. While other calls are on the entry they, the keys and the other entries are
/// what they were. Where there is none the key goes, if it refers to the entry and there is no
/// value.
pub proof fn law_cancelled_call_of_a_group<
    K: Eq + Hash + Clone,
    V: Clone,
    S: BuildHasher + Clone,
>(m: &mut Group<K, V, S>, guard: EntryGuard<K>)
    requires
        old(m).wf(),
        old(m).state().calls.contains_key(guard.call()),
        old(m).state().calls[guard.call()].entry == guard.entry(),
        call_ensures(Group::<K, V, S>::cancel, (m, guard), ()),
    ensures
        ({
            let s = old(m).state();
            let t = final(m).state();
            let c = guard.call();
            let e = guard.entry();
            let key = s.calls[c].key;
            let alone = forall|d: nat| #[trigger]
                s.calls.contains_key(d) && d != c ==> s.calls[d].entry != e;
            &&& t.calls == s.calls.remove(c)
            &&& !alone || s.cells[e] is Ready ==> t.keys == s.keys
            &&& alone && !(s.cells[e] is Ready) && s.keys.contains_key(key) && s.keys[key] == e
                ==> t.keys == s.keys.remove(key)
            &&& !(s.keys.contains_key(key) && s.keys[key] == e) ==> t.keys == s.keys
            &&& !alone ==> t.cells.contains_key(e) && t.cells[e] == if s.cells[e]
                == CellState::<V>::Running(c) {
                CellState::Empty
            } else {
                s.cells[e]
            }
            &&& forall|d: usize| #[trigger]
                t.cells.contains_key(d) && d != e ==> s.cells.contains_key(d) && t.cells[d]
                    == s.cells[d]
        }),
{
    let s = old(m).state();
    let t = final(m).state();
    let e = guard.entry();
    old(m).lemma_state();
    law_valid_states(s);
    law_cancel_of_a_group(m, guard);
    if !(forall|d: nat| #[trigger]
        s.calls.contains_key(d) && d != guard.call() ==> s.calls[d].entry != e) {
        let d = choose|d: nat| #[trigger]
            s.calls.contains_key(d) && d != guard.call() && s.calls[d].entry == e;
        assert(t.calls[d].entry == e);
        assert(lives(t, e));
        assert(t.cells.contains_key(e));
    }
}

/// A call of [`Group::try_work`] that looks after its entry has its value returns a clone of the
/// value and is over, whatever other calls are on the entry and whether or not a key still refers to
/// it. The other calls, the keys and the other entries that live are what they were.
pub proof fn law_try_work_returns_what_is_there<
    K: Eq + Hash + Clone,
    V: Clone,
    S: BuildHasher + Clone,
    E,
>(
    m: &mut Group<K, V, S>,
    guard: EntryGuard<K>,
    v: V,
    turn: Turn<K, Result<V, E>>,
)
    requires
        old(m).wf(),
        old(m).state().calls.contains_key(guard.call()),
        old(m).state().calls[guard.call()].entry == guard.entry(),
        old(m).state().cells[guard.entry()] == CellState::Ready(v),
        call_ensures(Group::<K, V, S>::try_work::<E>, (m, Event::Wake(guard)), turn),
    ensures
        turn matches Turn::Return(Ok(r)) && cloned(v, r),
        final(m).state().calls == old(m).state().calls.remove(guard.call()),
        final(m).state().keys == old(m).state().keys,
        forall|d: nat| #[trigger]
            final(m).state().calls.contains_key(d) ==> final(m).state().cells.contains_key(
                old(m).state().calls[d].entry,
            ) && final(m).state().cells[old(m).state().calls[d].entry] == old(
                m,
            ).state().cells[old(m).state().calls[d].entry],
        forall|k: K| #[trigger]
            old(m).state().keys.contains_key(k) ==> final(m).state().cells.contains_key(
                old(m).state().keys[k],
            ) && final(m).state().cells[old(m).state().keys[k]] == old(m).state().cells[old(
                m,
            ).state().keys[k]],
{
    old(m).lemma_state();
    law_valid_states(old(m).state());
    law_try_work(m, Event::Wake(guard), turn);
    final(m).lemma_state();
    law_valid_states(final(m).state());
    if let Turn::Return(r) = turn {
        law_results_are_clones::<V, E>(v, r->Ok_0, r);
    }
}

/// A call of [`Group::try_work`] that looks while another runs the computation waits on, and changes
/// nothing.
pub proof fn law_try_work_waits_on<K: Eq + Hash + Clone, V: Clone, S: BuildHasher + Clone, E>(
    m: &mut Group<K, V, S>,
    guard: EntryGuard<K>,
    turn: Turn<K, Result<V, E>>,
)
    requires
        old(m).wf(),
        old(m).state().calls.contains_key(guard.call()),
        old(m).state().calls[guard.call()].entry == guard.entry(),
        old(m).state().cells[guard.entry()] is Running,
        call_ensures(Group::<K, V, S>::try_work::<E>, (m, Event::Wake(guard)), turn),
    ensures
        turn == Turn::<K, Result<V, E>>::Wait(guard),
        final(m).state() == old(m).state(),
{
    law_try_work(m, Event::Wake(guard), turn);
}

/// A call of [`Group::try_work`] that looks where there is no value and nobody computes one runs the
/// computation.
pub proof fn law_try_work_retries<K: Eq + Hash + Clone, V: Clone, S: BuildHasher + Clone, E>(
    m: &mut Group<K, V, S>,
    guard: EntryGuard<K>,
    turn: Turn<K, Result<V, E>>,
)
    requires
        old(m).wf(),
        old(m).state().calls.contains_key(guard.call()),
        old(m).state().calls[guard.call()].entry == guard.entry(),
        old(m).state().cells[guard.entry()] is Empty,
        call_ensures(Group::<K, V, S>::try_work::<E>, (m, Event::Wake(guard)), turn),
    ensures
        turn matches Turn::Run(next) && next.call() == guard.call() && next.entry() == guard.entry()
            && next.running(),
        final(m).state().keys == old(m).state().keys,
        final(m).state().calls == old(m).state().calls,
        final(m).state().cells == old(m).state().cells.insert(
            guard.entry(),
            CellState::Running(guard.call()),
        ),
{
    law_try_work(m, Event::Wake(guard), turn);
}

/// A new call of [`Group::try_work`] returns a clone of the value of its key where there is one, and
/// changes nothing. Where another call runs the computation for the key it waits on the same entry.
/// Otherwise it runs the computation, on the entry of the key or a new one, for which nothing that
/// is there is given up.
pub proof fn law_try_work_of_a_new_call<
    K: Eq + Hash + Clone,
    V: Clone,
    S: BuildHasher + Clone,
    E,
>(m: &mut Group<K, V, S>, key: K, turn: Turn<K, Result<V, E>>)
    requires
        forall|x: K, y: K| #[trigger] cloned(x, y) ==> x == y,
        old(m).wf(),
        call_ensures(Group::<K, V, S>::try_work::<E>, (m, Event::Arrive(key)), turn),
    ensures
        ({
            let s = old(m).state();
            let t = final(m).state();
            if s.keys.contains_key(key) && s.cells[s.keys[key]] is Ready {
                &&& turn matches Turn::Return(Ok(r)) && cloned(s.cells[s.keys[key]]->Ready_0, r)
                &&& t == s
            } else if s.keys.contains_key(key) && s.cells[s.keys[key]] is Running {
                &&& turn matches Turn::Wait(guard) && guard.entry() == s.keys[key]
                    && !guard.running() && !s.calls.contains_key(guard.call()) && t.calls
                    == s.calls.insert(guard.call(), CallState { key, entry: s.keys[key] })
                &&& t.keys == s.keys
                &&& t.cells == s.cells
            } else {
                &&& turn matches Turn::Run(guard) && guard.running() && !s.calls.contains_key(
                    guard.call(),
                ) && t.calls == s.calls.insert(
                    guard.call(),
                    CallState { key, entry: guard.entry() },
                ) && t.keys == s.keys.insert(key, guard.entry()) && t.cells == s.cells.insert(
                    guard.entry(),
                    CellState::Running(guard.call()),
                ) && if s.keys.contains_key(key) {
                    guard.entry() == s.keys[key]
                } else {
                    !s.cells.contains_key(guard.entry())
                }
            }
        }),
{
    law_try_work(m, Event::Arrive(key), turn);
    if let Turn::Return(r) = turn {
        let s = old(m).state();
        law_results_are_clones::<V, E>(s.cells[s.keys[key]]->Ready_0, r->Ok_0, r);
    }
}

/// A call of [`Group::try_work`] that completes with `v` returns a clone of it and is over. The
/// entry holds the value for the other calls on it, which all stay. Its key is gone where it
/// referred to the entry.
pub proof fn law_try_work_completes<K: Eq + Hash + Clone, V: Clone, S: BuildHasher + Clone, E>(
    m: &mut Group<K, V, S>,
    guard: EntryGuard<K>,
    v: V,
    turn: Turn<K, Result<V, E>>,
)
    requires
        old(m).wf(),
        old(m).state().calls.contains_key(guard.call()),
        old(m).state().calls[guard.call()].entry == guard.entry(),
        call_ensures(Group::<K, V, S>::try_work::<E>, (m, Event::Finish(guard, Ok(v))), turn),
    ensures
        turn matches Turn::Return(Ok(r)) && cloned(v, r),
        final(m).state().calls == old(m).state().calls.remove(guard.call()),
        forall|d: nat| #[trigger]
            final(m).state().calls.contains_key(d) ==> final(m).state().cells[old(
                m,
            ).state().calls[d].entry] == if old(m).state().calls[d].entry == guard.entry() {
                CellState::Ready(v)
            } else {
                old(m).state().cells[old(m).state().calls[d].entry]
            },
        ({
            let s = old(m).state();
            let key = s.calls[guard.call()].key;
            final(m).state().keys == if s.keys.contains_key(key) && s.keys[key] == guard.entry() {
                s.keys.remove(key)
            } else {
                s.keys
            }
        }),
{
    old(m).lemma_state();
    law_valid_states(old(m).state());
    law_try_work(m, Event::Finish(guard, Ok(v)), turn);
    final(m).lemma_state();
    law_valid_states(final(m).state());
}

/// A call of [`Group::try_work`] whose computation fails returns the error, and leaves: the call is
/// over, and a computation that it ran does not run any more. While other calls are on the entry
/// they, the keys and the other entries are what they were. Where there is none the key goes, if it
/// refers to the entry and there is no value.
pub proof fn law_try_work_fails<
    K: Eq + Hash + Clone,
    V: Clone,
    S: BuildHasher + Clone,
    E,
>(m: &mut Group<K, V, S>, guard: EntryGuard<K>, error: E, turn: Turn<K, Result<V, E>>)
    requires
        old(m).wf(),
        old(m).state().calls.contains_key(guard.call()),
        old(m).state().calls[guard.call()].entry == guard.entry(),
        call_ensures(Group::<K, V, S>::try_work::<E>, (m, Event::Finish(guard, Err(error))), turn),
    ensures
        turn matches Turn::Return(Err(r)) && r == error,
        ({
            let s = old(m).state();
            let t = final(m).state();
            let c = guard.call();
            let e = guard.entry();
            let key = s.calls[c].key;
            let alone = forall|d: nat| #[trigger]
                s.calls.contains_key(d) && d != c ==> s.calls[d].entry != e;
            &&& t.calls == s.calls.remove(c)
            &&& !alone || s.cells[e] is Ready ==> t.keys == s.keys
            &&& alone && !(s.cells[e] is Ready) && s.keys.contains_key(key) && s.keys[key] == e
                ==> t.keys == s.keys.remove(key)
            &&& !(s.keys.contains_key(key) && s.keys[key] == e) ==> t.keys == s.keys
            &&& !alone ==> t.cells.contains_key(e) && t.cells[e] == if s.cells[e]
                == CellState::<V>::Running(c) {
                CellState::Empty
            } else {
                s.cells[e]
            }
            &&& forall|d: usize| #[trigger]
                t.cells.contains_key(d) && d != e ==> s.cells.contains_key(d) && t.cells[d]
                    == s.cells[d]
        }),
{
    let s = old(m).state();
    let t = final(m).state();
    let e = guard.entry();
    old(m).lemma_state();
    law_valid_states(s);
    law_try_work(m, Event::Finish(guard, Err(error)), turn);
    if !(forall|d: nat| #[trigger]
        s.calls.contains_key(d) && d != guard.call() ==> s.calls[d].entry != e) {
        let d = choose|d: nat| #[trigger]
            s.calls.contains_key(d) && d != guard.call() && s.calls[d].entry == e;
        assert(t.calls[d].entry == e);
        assert(lives(t, e));
        assert(t.cells.contains_key(e));
    }
}

/// A lookup in a map gives a clone of the value of the key exactly where the key is there and its
/// computation is complete.
pub proof fn law_lookup_of_a_key<K: Eq + Hash, V: Clone, S: BuildHasher + Clone>(
    m: &OnceMap<K, V, S>,
    key: K,
    got: Option<V>,
)
    requires
        call_ensures(OnceMap::<K, V, S>::get::<K>, (m, &key), got),
    ensures
        match got {
            Some(x) => {
                &&& m.state().keys.contains_key(key)
                &&& m.state().cells[m.state().keys[key]] matches CellState::Ready(v) && cloned(v, x)
            },
            None => !(m.state().keys.contains_key(key)
                && m.state().cells[m.state().keys[key]] is Ready),
        },
{
    law_get(m, &key, got);
    assert forall|k: K| #[trigger] finds(&key, k) <==> k == key by {
        law_keys_find_themselves(key, k);
    }
    assert(finds(&key, key));
}

/// A removal gives a clone of the value of the key exactly where the key is there and its
/// computation is complete. It takes out the key alone: calls under way and other keys are what they
/// were.
pub proof fn law_removal_of_a_key<
    K: Eq + Hash,
    V: Clone,
    S: BuildHasher + Clone,
>(m: &mut OnceMap<K, V, S>, key: K, got: Option<V>)
    requires
        old(m).wf(),
        call_ensures(OnceMap::<K, V, S>::remove::<K>, (m, &key), got),
    ensures
        match got {
            Some(x) => {
                &&& old(m).state().keys.contains_key(key)
                &&& old(m).state().cells[old(m).state().keys[key]] matches CellState::Ready(v)
                    && cloned(v, x)
            },
            None => !(old(m).state().keys.contains_key(key) && old(m).state().cells[old(
                m,
            ).state().keys[key]] is Ready),
        },
        final(m).state().keys == old(m).state().keys.remove(key),
        final(m).state().calls == old(m).state().calls,
        forall|d: nat| #[trigger]
            old(m).state().calls.contains_key(d) ==> final(m).state().cells[old(
                m,
            ).state().calls[d].entry] == old(m).state().cells[old(m).state().calls[d].entry],
        forall|k: K| #[trigger]
            old(m).state().keys.contains_key(k) && k != key ==> final(m).state().cells[old(
                m,
            ).state().keys[k]] == old(m).state().cells[old(m).state().keys[k]],
{
    let s = old(m).state();
    let t = final(m).state();
    law_remove(m, &key, got);
    assert forall|k: K| #[trigger] finds(&key, k) <==> k == key by {
        law_keys_find_themselves(key, k);
    }
    assert(finds(&key, key));
    assert(t.keys =~= s.keys.remove(key));
    final(m).lemma_state();
    law_valid_states(t);
    assert forall|d: nat| #[trigger] s.calls.contains_key(d) implies t.cells[s.calls[d].entry]
        == s.cells[s.calls[d].entry] by {
        assert(t.calls.contains_key(d));
        assert(t.cells.contains_key(t.calls[d].entry));
    }
    assert forall|k: K| #[trigger] s.keys.contains_key(k) && k != key implies t.cells[s.keys[k]]
        == s.cells[s.keys[k]] by {
        assert(t.keys.contains_key(k));
        assert(t.cells.contains_key(t.keys[k]));
    }
}

/// To discard a key takes it out, and it alone: calls under way and other keys are what they were.
pub proof fn law_discard_of_a_key<
    K: Eq + Hash,
    V: Clone,
    S: BuildHasher + Clone,
>(m: &mut OnceMap<K, V, S>, key: K)
    requires
        old(m).wf(),
        call_ensures(OnceMap::<K, V, S>::discard::<K>, (m, &key), ()),
    ensures
        final(m).state().keys == old(m).state().keys.remove(key),
        final(m).state().calls == old(m).state().calls,
        forall|d: nat| #[trigger]
            old(m).state().calls.contains_key(d) ==> final(m).state().cells[old(
                m,
            ).state().calls[d].entry] == old(m).state().cells[old(m).state().calls[d].entry],
        forall|k: K| #[trigger]
            old(m).state().keys.contains_key(k) && k != key ==> final(m).state().cells[old(
                m,
            ).state().keys[k]] == old(m).state().cells[old(m).state().keys[k]],
{
    let s = old(m).state();
    let t = final(m).state();
    law_discard(m, &key);
    assert forall|k: K| #[trigger] finds(&key, k) <==> k == key by {
        law_keys_find_themselves(key, k);
    }
    assert(finds(&key, key));
    assert(t.keys =~= s.keys.remove(key));
    final(m).lemma_state();
    law_valid_states(t);
    assert forall|d: nat| #[trigger] s.calls.contains_key(d) implies t.cells[s.calls[d].entry]
        == s.cells[s.calls[d].entry] by {
        assert(t.calls.contains_key(d));
        assert(t.cells.contains_key(t.calls[d].entry));
    }
    assert forall|k: K| #[trigger] s.keys.contains_key(k) && k != key implies t.cells[s.keys[k]]
        == s.cells[s.keys[k]] by {
        assert(t.keys.contains_key(k));
        assert(t.cells.contains_key(t.keys[k]));
    }
}

/// To forget a key takes it out, and it alone: calls under way and other keys are what they were.
pub proof fn law_forgotten_key<
    K: Eq + Hash + Clone,
    V: Clone,
    S: BuildHasher + Clone,
>(m: &mut Group<K, V, S>, key: K)
    requires
        old(m).wf(),
        call_ensures(Group::<K, V, S>::forget::<K>, (m, &key), ()),
    ensures
        final(m).state().keys == old(m).state().keys.remove(key),
        final(m).state().calls == old(m).state().calls,
        forall|d: nat| #[trigger]
            old(m).state().calls.contains_key(d) ==> final(m).state().cells[old(
                m,
            ).state().calls[d].entry] == old(m).state().cells[old(m).state().calls[d].entry],
        forall|k: K| #[trigger]
            old(m).state().keys.contains_key(k) && k != key ==> final(m).state().cells[old(
                m,
            ).state().keys[k]] == old(m).state().cells[old(m).state().keys[k]],
{
    let s = old(m).state();
    let t = final(m).state();
    law_forget(m, &key);
    assert forall|k: K| #[trigger] finds(&key, k) <==> k == key by {
        law_keys_find_themselves(key, k);
    }
    assert(finds(&key, key));
    assert(t.keys =~= s.keys.remove(key));
    final(m).lemma_state();
    law_valid_states(t);
    assert forall|d: nat| #[trigger] s.calls.contains_key(d) implies t.cells[s.calls[d].entry]
        == s.cells[s.calls[d].entry] by {
        assert(t.calls.contains_key(d));
        assert(t.cells.contains_key(t.calls[d].entry));
    }
    assert forall|k: K| #[trigger] s.keys.contains_key(k) && k != key implies t.cells[s.keys[k]]
        == s.cells[s.keys[k]] by {
        assert(t.keys.contains_key(k));
        assert(t.cells.contains_key(t.keys[k]));
    }
}

/// Nothing is found in a new map, with whatever hasher and capacity, no call is counted, and the
/// first call about a key runs the computation.
pub proof fn law_first_call_of_a_map<K: Eq + Hash, V: Clone, S: BuildHasher + Clone>(
    capacity: usize,
    hasher: S,
    m: &mut OnceMap<K, V, S>,
    key: K,
    got: Option<V>,
    count: usize,
    turn: Turn<(), V>,
)
    requires
        call_ensures(OnceMap::<K, V, S>::with_hasher, (hasher,), *old(m)) || call_ensures(
            OnceMap::<K, V, S>::with_capacity_and_hasher,
            (capacity, hasher),
            *old(m),
        ),
        call_ensures(OnceMap::<K, V, S>::get::<K>, (&*old(m), &key), got),
        call_ensures(OnceMap::<K, V, S>::active_calls, (&*old(m), &key), count),
        call_ensures(OnceMap::<K, V, S>::compute, (m, Event::Arrive(key)), turn),
    ensures
        got is None,
        count == 0,
        turn is Run,
{
    law_lookup_of_a_key(&*old(m), key, got);
    law_compute_of_a_new_call(m, key, turn);
}

/// Nothing is found in a new map with the default hasher, and the first call about a key runs the
/// computation.
pub proof fn law_first_call_of_a_plain_map<K: Eq + Hash, V: Clone>(
    capacity: usize,
    m: &mut OnceMap<K, V>,
    key: K,
    got: Option<V>,
    turn: Turn<(), V>,
)
    requires
        call_ensures(OnceMap::<K, V>::new, (), *old(m)) || call_ensures(
            OnceMap::<K, V>::with_capacity,
            (capacity,),
            *old(m),
        ) || call_ensures(<OnceMap<K, V> as Default>::default, (), *old(m)),
        call_ensures(OnceMap::<K, V>::get::<K>, (&*old(m), &key), got),
        call_ensures(OnceMap::<K, V>::compute, (m, Event::Arrive(key)), turn),
    ensures
        got is None,
        turn is Run,
{
    law_lookup_of_a_key(&*old(m), key, got);
    law_compute_of_a_new_call(m, key, turn);
}

/// No call is counted in a new group, with whatever hasher, and the first call with a key runs the
/// function.
pub proof fn law_first_call_of_a_group<K: Eq + Hash + Clone, V: Clone, S: BuildHasher + Clone>(
    hasher: S,
    m: &mut Group<K, V, S>,
    key: K,
    count: usize,
    turn: Turn<K, V>,
)
    requires
        forall|x: K, y: K| #[trigger] cloned(x, y) ==> x == y,
        call_ensures(Group::<K, V, S>::with_hasher, (hasher,), *old(m)),
        call_ensures(Group::<K, V, S>::active_calls, (&*old(m), &key), count),
        call_ensures(Group::<K, V, S>::work, (m, Event::Arrive(key)), turn),
    ensures
        count == 0,
        turn is Run,
{
    law_work_of_a_new_call(m, key, turn);
}

/// No call is counted in a new group with the default hasher, and the first call with a key runs the
/// function.
pub proof fn law_first_call_of_a_plain_group<K: Eq + Hash + Clone, V: Clone>(
    m: &mut Group<K, V>,
    key: K,
    count: usize,
    turn: Turn<K, V>,
)
    requires
        forall|x: K, y: K| #[trigger] cloned(x, y) ==> x == y,
        call_ensures(Group::<K, V>::new, (), *old(m)) || call_ensures(
            <Group<K, V> as Default>::default,
            (),
            *old(m),
        ),
        call_ensures(Group::<K, V>::active_calls, (&*old(m), &key), count),
        call_ensures(Group::<K, V>::work, (m, Event::Arrive(key)), turn),
    ensures
        count == 0,
        turn is Run,
{
    law_work_of_a_new_call(m, key, turn);
}

/// The entries of a map show what lookups find: a key that is found is shown with its value, and
/// what is shown with a value is found. No key is shown twice.
pub proof fn law_entries_show_what_is_found<K: Eq + Hash, V: Clone, S: BuildHasher + Clone>(
    m: &OnceMap<K, V, S>,
    entries: Vec<(&K, Option<&V>)>,
    key: K,
    got: Option<V>,
)
    requires
        call_ensures(OnceMap::<K, V, S>::entries, (m,), entries),
        call_ensures(OnceMap::<K, V, S>::get::<K>, (m, &key), got),
    ensures
        got matches Some(x) ==> exists|i: int|
            #![trigger entries@[i]]
            0 <= i < entries@.len() && *entries@[i].0 == key && (entries@[i].1 matches Some(v)
                && cloned(*v, x)),
        got is None ==> forall|i: int|
            0 <= i < entries@.len() && *(#[trigger] entries@[i]).0 == key ==> entries@[i].1 is None,
        forall|i: int, j: int|
            0 <= i < j < entries@.len() ==> *(#[trigger] entries@[i]).0 != *(
            #[trigger] entries@[j]).0,
{
    law_lookup_of_a_key(m, key, got);
    let s = m.state();
    if s.keys.contains_key(key) {
        let i = choose|i: int| 0 <= i < entries@.len() && *(#[trigger] entries@[i]).0 == key;
        assert(s.stored(*entries@[i].0) == s.stored(key));
    }
}

} // verus!
