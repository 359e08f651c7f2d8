//! What the operations of [`OnceMap`] and [`Group`] promise of their arguments and results.
//!
//! Each law supposes that an operation was called on `m`, and came to the result that it names. Where
//! several operations follow one another, each begins with what the last one left.

use std::borrow::Borrow;
use std::hash::BuildHasher;
use std::hash::Hash;

use vstd::prelude::*;
use vstd::std_specs::hash::builds_valid_hashers;
use vstd::std_specs::hash::contains_borrowed_key;
use vstd::std_specs::hash::obeys_key_model;

use crate::flight::EntryGuard;
use crate::flight::Event;
use crate::flight::Turn;
use crate::flight::arrives;
use crate::flight::hands_clone;
use crate::flight::hands_ok;
use crate::flight::wakes;
use crate::keys::answers;
use crate::keys::denotes;
use crate::keys::law_keys_borrow_as_themselves;
use crate::keys::unbound;
use crate::keys::unkeyed;
use crate::once::OnceMap;
use crate::once::once_map::last_value;
use crate::once::once_map::lemma_last_value;
use crate::singleflight::Group;
use crate::state::CallState;
use crate::state::CellState;
use crate::state::State;
use crate::state::callers;

verus! {

/// Entry `e` lives in `s`: a key refers to it, or a call is under way on it.
pub open spec fn lives<K, V>(s: State<K, V>, e: usize) -> bool {
    ||| exists|k: K| s.keys.contains_key(k) && #[trigger] s.keys[k] == e
    ||| exists|c: nat| s.calls.contains_key(c) && (#[trigger] s.calls[c]).entry == e
}

/// The entries of `t` are those of `s` that live, and the cell of each but `own` holds what it held.
pub open spec fn cells_kept<K, V>(s: State<K, V>, t: State<K, V>, own: Option<usize>) -> bool {
    forall|d: usize|
        #![trigger t.cells.contains_key(d)]
        #![trigger t.cells[d]]
        #![trigger lives(t, d)]
        {
            &&& t.cells.contains_key(d) <==> s.cells.contains_key(d) && lives(t, d)
            &&& t.cells.contains_key(d) && own != Some(d) ==> t.cells[d] == s.cells[d]
        }
}

/// What a valid state is: keys and calls have their entries, no two keys share one, a computation
/// runs on behalf of a call on its entry, and no entry is left over.
pub proof fn law_valid_states<K, V>(s: State<K, V>)
    requires
        s.valid(),
    ensures
        forall|k: K| #[trigger] s.keys.contains_key(k) ==> s.cells.contains_key(s.keys[k]),
        forall|j: K, k: K|
            #![trigger s.keys[j], s.keys[k]]
            s.keys.contains_key(j) && s.keys.contains_key(k) && j != k ==> s.keys[j] != s.keys[k],
        forall|c: nat| #[trigger] s.calls.contains_key(c) ==> s.cells.contains_key(s.calls[c].entry),
        forall|e: usize, c: nat|
            #![trigger s.cells[e], s.calls.contains_key(c)]
            s.cells.contains_key(e) && s.cells[e] == CellState::<V>::Running(c)
                ==> s.calls.contains_key(c) && s.calls[c].entry == e,
        forall|e: usize| #[trigger] s.cells.contains_key(e) <==> lives(s, e),
{
    assert forall|e: usize| #[trigger] s.cells.contains_key(e) <==> lives(s, e) by {
        assert(s.cells.contains_key(e) ==> s.attached(e) || s.in_use(e));
    }
}

/// A new call about `key`, which is looked for under `k`, took `s` to `t`, and does `turn` next: it
/// returns the value where there is one, waits where another call runs the computation, and runs it
/// itself where neither is so. It changes no other key, call or entry.
pub open spec fn began<K, V, T, R>(
    s: State<K, V>,
    key: K,
    k: K,
    t: State<K, V>,
    turn: Turn<T, R>,
    hands: spec_fn(V, R) -> bool,
) -> bool {
    match turn {
        Turn::Return(r) => {
            &&& s.keys.contains_key(k)
            &&& s.cells[s.keys[k]] matches CellState::Ready(v) && hands(v, r)
            &&& t == s
        },
        Turn::Wait(guard) => {
            &&& s.keys.contains_key(k)
            &&& s.cells[s.keys[k]] is Running
            &&& guard.entry() == s.keys[k]
            &&& !s.calls.contains_key(guard.call())
            &&& !guard.running()
            &&& t.keys == s.keys
            &&& t.cells == s.cells
            &&& t.calls == s.calls.insert(guard.call(), CallState { key, entry: guard.entry() })
        },
        Turn::Run(guard) => {
            &&& s.keys.contains_key(k) ==> s.cells[s.keys[k]] is Empty && guard.entry() == s.keys[k]
            &&& !s.keys.contains_key(k) ==> !s.cells.contains_key(guard.entry())
            &&& !s.calls.contains_key(guard.call())
            &&& guard.running()
            &&& t.keys == s.keys.insert(k, guard.entry())
            &&& t.cells == s.cells.insert(guard.entry(), CellState::Running(guard.call()))
            &&& t.calls == s.calls.insert(guard.call(), CallState { key, entry: guard.entry() })
        },
    }
}

/// The call behind `guard` looked at its entry, which took `s` to `t`, and does `turn` next: it
/// returns the value where there is one, whoever else is on the entry and whether or not a key
/// refers to it, and is over then. It waits where another call runs the computation, and runs it
/// itself where neither is so.
pub open spec fn looked<K, V, T, R>(
    s: State<K, V>,
    guard: EntryGuard<T>,
    t: State<K, V>,
    turn: Turn<T, R>,
    hands: spec_fn(V, R) -> bool,
) -> bool {
    match s.cells[guard.entry()] {
        CellState::Ready(v) => {
            &&& turn matches Turn::Return(r) && hands(v, r)
            &&& t.keys == s.keys
            &&& t.calls == s.calls.remove(guard.call())
            &&& cells_kept(s, t, None)
        },
        CellState::Running(_) => {
            &&& turn == Turn::<T, R>::Wait(guard)
            &&& t == s
        },
        CellState::Empty => {
            &&& turn matches Turn::Run(next)
            &&& next.entry() == guard.entry()
            &&& next.call() == guard.call()
            &&& next.tag() == guard.tag()
            &&& next.running()
            &&& t.keys == s.keys
            &&& t.calls == s.calls
            &&& t.cells == s.cells.insert(guard.entry(), CellState::Running(guard.call()))
        },
    }
}

/// Call `c` on entry `e` completed the computation with `v`, which took `s` to `t`: the call is
/// over, and the entry, where it lives, has the value.
pub open spec fn completed<K, V>(s: State<K, V>, c: nat, e: usize, v: V, t: State<K, V>) -> bool {
    &&& t.calls == s.calls.remove(c)
    &&& cells_kept(s, t, Some(e))
    &&& t.cells.contains_key(e) ==> t.cells[e] == CellState::Ready(v)
}

/// Call `c` on entry `e` left without a value, which took `s` to `t`: the call is over, a
/// computation that it ran does not run any more, and its key is gone exactly where it referred to
/// the entry, the entry has no value and no other call is on it.
pub open spec fn abandoned<K, V>(s: State<K, V>, c: nat, e: usize, t: State<K, V>) -> bool {
    let key = s.calls[c].key;
    let others = exists|d: nat|
        d != c && s.calls.contains_key(d) && (#[trigger] s.calls[d]).entry == e;
    &&& t.calls == s.calls.remove(c)
    &&& t.keys == if s.keys.contains_key(key) && s.keys[key] == e && !(s.cells[e] is Ready)
        && !others {
        s.keys.remove(key)
    } else {
        s.keys
    }
    &&& cells_kept(s, t, Some(e))
    &&& t.cells.contains_key(e) ==> t.cells[e] == if s.cells[e] == CellState::<V>::Running(c) {
        CellState::Empty
    } else {
        s.cells[e]
    }
}

/// An entry lives where a key is attached to it or a call uses it.
proof fn lemma_lives<K, V>(s: State<K, V>, e: usize)
    ensures
        lives(s, e) <==> s.attached(e) || s.in_use(e),
{
    if exists|k: K| s.keys.contains_key(k) && #[trigger] s.keys[k] == e {
        assert(s.attached(e));
    }
    if exists|c: nat| s.calls.contains_key(c) && (#[trigger] s.calls[c]).entry == e {
        assert(s.in_use(e));
    }
    if s.attached(e) {
        let k = choose|k: K| s.keys.contains_key(k) && #[trigger] s.keys[k] == e;
        assert(s.keys[k] == e);
    }
    if s.in_use(e) {
        let c = choose|c: nat| s.calls.contains_key(c) && (#[trigger] s.calls[c]).entry == e;
        assert(s.calls[c].entry == e);
    }
}

/// What reclaiming leaves of the cells.
proof fn lemma_reclaimed<K, V>(s: State<K, V>)
    ensures
        cells_kept(s, s.reclaimed(), None),
        s.reclaimed().keys == s.keys,
        s.reclaimed().calls == s.calls,
{
    let t = s.reclaimed();
    assert(t.keys == s.keys && t.calls == s.calls);
    assert forall|d: usize| #[trigger] lives(t, d) <==> s.attached(d) || s.in_use(d) by {
        lemma_lives(t, d);
    }
}

/// `guard` stands for a call that is under way in `s`.
pub open spec fn under_way<K, V, T>(s: State<K, V>, guard: EntryGuard<T>) -> bool {
    s.calls.contains_key(guard.call()) && s.calls[guard.call()].entry == guard.entry()
}

/// A result hands a value to the caller where it is a clone of it, or a success with a clone of it.
pub proof fn law_results_are_clones<V: Clone, E>(v: V, x: V, r: Result<V, E>)
    ensures
        hands_clone()(v, x) <==> cloned(v, x),
        hands_ok::<V, E>()(v, r) <==> r is Ok && cloned(v, r->Ok_0),
{
}

/// A new call does what [`began`] says.
proof fn lemma_began<K, V, T, R>(
    s: State<K, V>,
    key: K,
    k: K,
    tag: T,
    t: State<K, V>,
    turn: Turn<T, R>,
    hands: spec_fn(V, R) -> bool,
)
    requires
        arrives(s, key, k, tag, t, turn, hands),
    ensures
        began(s, key, k, t, turn, hands),
{
    if let Turn::Run(guard) = turn {
        assert(t.keys =~= s.keys.insert(k, guard.entry()));
    }
}

/// A call that looks does what [`looked`] says.
proof fn lemma_looked<K, V, T, R>(
    s: State<K, V>,
    guard: EntryGuard<T>,
    t: State<K, V>,
    turn: Turn<T, R>,
    hands: spec_fn(V, R) -> bool,
)
    requires
        under_way(s, guard),
        wakes(s, guard, t, turn, hands),
    ensures
        looked(s, guard, t, turn, hands),
{
    lemma_reclaimed(State { calls: s.calls.remove(guard.call()), ..s });
}

/// A call that completes does what [`completed`] says.
proof fn lemma_completed<K, V>(s: State<K, V>, c: nat, v: V)
    requires
        s.valid(),
        s.calls.contains_key(c),
    ensures
        completed(s, c, s.calls[c].entry, v, s.computed(c, v)),
        completed(s, c, s.calls[c].entry, v, s.worked(c, v)),
        s.computed(c, v).keys == s.keys,
        s.worked(c, v).keys == if s.keeps(c) {
            s.keys.remove(s.calls[c].key)
        } else {
            s.keys
        },
{
    let e = s.calls[c].entry;
    assert(s.cells.contains_key(e));
    let x = s.settled(c, v);
    lemma_reclaimed(State { calls: x.calls.remove(c), ..x });
    let y = s.released(c).settled(c, v);
    lemma_reclaimed(State { calls: y.calls.remove(c), ..y });
}

/// A call that leaves without a value does what [`abandoned`] says.
proof fn lemma_abandoned<K, V>(s: State<K, V>, c: nat)
    requires
        s.valid(),
        s.calls.contains_key(c),
    ensures
        abandoned(s, c, s.calls[c].entry, s.cancelled(c)),
{
    let e = s.calls[c].entry;
    assert(s.cells.contains_key(e));
    let x = s.stopped(c);
    let rest = State { calls: x.calls.remove(c), ..x };
    if rest.in_use(e) {
        let d = choose|d: nat| rest.calls.contains_key(d) && (#[trigger] rest.calls[d]).entry == e;
        assert(d != c && s.calls.contains_key(d) && s.calls[d].entry == e);
    }
    if exists|d: nat| d != c && s.calls.contains_key(d) && (#[trigger] s.calls[d]).entry == e {
        let d = choose|d: nat|
            d != c && s.calls.contains_key(d) && (#[trigger] s.calls[d]).entry == e;
        assert(rest.calls[d].entry == e);
    }
    lemma_reclaimed(rest);
    lemma_reclaimed(State { keys: x.keys.remove(s.calls[c].key), ..rest });
}

/// [`OnceMap::compute`]: a new call begins as [`began`] says, one that waited looks as [`looked`]
/// says. One that completes returns a clone of the value, which stays with the keys.
pub proof fn law_compute<K: Eq + Hash, V: Clone, S: BuildHasher + Clone>(
    m: &mut OnceMap<K, V, S>,
    event: Event<K, (), V>,
    turn: Turn<(), V>,
)
    requires
        old(m).wf(),
        event matches Event::Wake(guard) ==> under_way(old(m).state(), guard),
        event matches Event::Finish(guard, _) ==> under_way(old(m).state(), guard),
        call_ensures(OnceMap::<K, V, S>::compute, (m, event), turn),
    ensures
        final(m).wf(),
        ({
            let s = old(m).state();
            let t = final(m).state();
            match event {
                Event::Arrive(key) => began(s, key, key, t, turn, hands_clone()),
                Event::Wake(guard) => looked(s, guard, t, turn, hands_clone()),
                Event::Finish(guard, v) => {
                    &&& turn matches Turn::Return(r) && cloned(v, r)
                    &&& t.keys == s.keys
                    &&& completed(s, guard.call(), guard.entry(), v, t)
                },
            }
        }),
{
    old(m).lemma_state();
    let s = old(m).state();
    let t = final(m).state();
    match event {
        Event::Arrive(key) => lemma_began(s, key, key, (), t, turn, hands_clone()),
        Event::Wake(guard) => lemma_looked(s, guard, t, turn, hands_clone()),
        Event::Finish(guard, v) => lemma_completed(s, guard.call(), v),
    }
}

/// [`OnceMap::try_compute`]: as [`OnceMap::compute`], with successes. Where the computation failed
/// the error is returned, and the call leaves as [`abandoned`] says.
pub proof fn law_try_compute<K: Eq + Hash, V: Clone, S: BuildHasher + Clone, E>(
    m: &mut OnceMap<K, V, S>,
    event: Event<K, (), Result<V, E>>,
    turn: Turn<(), Result<V, E>>,
)
    requires
        old(m).wf(),
        event matches Event::Wake(guard) ==> under_way(old(m).state(), guard),
        event matches Event::Finish(guard, _) ==> under_way(old(m).state(), guard),
        call_ensures(OnceMap::<K, V, S>::try_compute::<E>, (m, event), turn),
    ensures
        final(m).wf(),
        ({
            let s = old(m).state();
            let t = final(m).state();
            match event {
                Event::Arrive(key) => began(s, key, key, t, turn, hands_ok()),
                Event::Wake(guard) => looked(s, guard, t, turn, hands_ok()),
                Event::Finish(guard, Ok(v)) => {
                    &&& turn matches Turn::Return(Ok(r)) && cloned(v, r)
                    &&& t.keys == s.keys
                    &&& completed(s, guard.call(), guard.entry(), v, t)
                },
                Event::Finish(guard, Err(e)) => {
                    &&& turn matches Turn::Return(Err(r)) && r == e
                    &&& abandoned(s, guard.call(), guard.entry(), t)
                },
            }
        }),
{
    old(m).lemma_state();
    let s = old(m).state();
    let t = final(m).state();
    match event {
        Event::Arrive(key) => lemma_began(s, key, key, (), t, turn, hands_ok()),
        Event::Wake(guard) => lemma_looked(s, guard, t, turn, hands_ok()),
        Event::Finish(guard, Ok(v)) => lemma_completed(s, guard.call(), v),
        Event::Finish(guard, Err(_)) => lemma_abandoned(s, guard.call()),
    }
}

/// [`OnceMap::cancel`]: the call leaves as [`abandoned`] says.
pub proof fn law_cancel_of_a_map<K: Eq + Hash, V: Clone, S: BuildHasher + Clone>(
    m: &mut OnceMap<K, V, S>,
    guard: EntryGuard<()>,
)
    requires
        old(m).wf(),
        under_way(old(m).state(), guard),
        call_ensures(OnceMap::<K, V, S>::cancel, (m, guard), ()),
    ensures
        final(m).wf(),
        abandoned(old(m).state(), guard.call(), guard.entry(), final(m).state()),
{
    old(m).lemma_state();
    lemma_abandoned(old(m).state(), guard.call());
}

/// [`Group::work`]: a new call begins as [`began`] says under a clone of its key, one that waited
/// looks as [`looked`] says. One that completes returns a clone of the value, and its key is not in
/// the group any more, unless it was forgotten and stands for another entry since.
pub proof fn law_work<K: Eq + Hash + Clone, V: Clone, S: BuildHasher + Clone>(
    m: &mut Group<K, V, S>,
    event: Event<K, K, V>,
    turn: Turn<K, V>,
)
    requires
        old(m).wf(),
        event matches Event::Wake(guard) ==> under_way(old(m).state(), guard),
        event matches Event::Finish(guard, _) ==> under_way(old(m).state(), guard),
        call_ensures(Group::<K, V, S>::work, (m, event), turn),
    ensures
        final(m).wf(),
        ({
            let s = old(m).state();
            let t = final(m).state();
            match event {
                Event::Arrive(key) => exists|k: K| #[trigger]
                    cloned(key, k) && began(s, key, k, t, turn, hands_clone()),
                Event::Wake(guard) => looked(s, guard, t, turn, hands_clone()),
                Event::Finish(guard, v) => {
                    let key = s.calls[guard.call()].key;
                    &&& turn matches Turn::Return(r) && cloned(v, r)
                    &&& t.keys == if s.keys.contains_key(key) && s.keys[key] == guard.entry() {
                        s.keys.remove(key)
                    } else {
                        s.keys
                    }
                    &&& completed(s, guard.call(), guard.entry(), v, t)
                },
            }
        }),
{
    old(m).lemma_state();
    let s = old(m).state();
    let t = final(m).state();
    match event {
        Event::Arrive(key) => {
            let k = choose|k: K| #[trigger]
                cloned(key, k) && arrives(s, key, k, key, t, turn, hands_clone());
            lemma_began(s, key, k, key, t, turn, hands_clone());
        },
        Event::Wake(guard) => lemma_looked(s, guard, t, turn, hands_clone()),
        Event::Finish(guard, v) => lemma_completed(s, guard.call(), v),
    }
}

/// [`Group::try_work`]: as [`Group::work`], with successes. Where the function failed the error is
/// returned, and the call leaves as [`abandoned`] says.
pub proof fn law_try_work<K: Eq + Hash + Clone, V: Clone, S: BuildHasher + Clone, E>(
    m: &mut Group<K, V, S>,
    event: Event<K, K, Result<V, E>>,
    turn: Turn<K, Result<V, E>>,
)
    requires
        old(m).wf(),
        event matches Event::Wake(guard) ==> under_way(old(m).state(), guard),
        event matches Event::Finish(guard, _) ==> under_way(old(m).state(), guard),
        call_ensures(Group::<K, V, S>::try_work::<E>, (m, event), turn),
    ensures
        final(m).wf(),
        ({
            let s = old(m).state();
            let t = final(m).state();
            match event {
                Event::Arrive(key) => exists|k: K| #[trigger]
                    cloned(key, k) && began(s, key, k, t, turn, hands_ok()),
                Event::Wake(guard) => looked(s, guard, t, turn, hands_ok()),
                Event::Finish(guard, Ok(v)) => {
                    let key = s.calls[guard.call()].key;
                    &&& turn matches Turn::Return(Ok(r)) && cloned(v, r)
                    &&& t.keys == if s.keys.contains_key(key) && s.keys[key] == guard.entry() {
                        s.keys.remove(key)
                    } else {
                        s.keys
                    }
                    &&& completed(s, guard.call(), guard.entry(), v, t)
                },
                Event::Finish(guard, Err(e)) => {
                    &&& turn matches Turn::Return(Err(r)) && r == e
                    &&& abandoned(s, guard.call(), guard.entry(), t)
                },
            }
        }),
{
    old(m).lemma_state();
    let s = old(m).state();
    let t = final(m).state();
    match event {
        Event::Arrive(key) => {
            let k = choose|k: K| #[trigger]
                cloned(key, k) && arrives(s, key, k, key, t, turn, hands_ok());
            lemma_began(s, key, k, key, t, turn, hands_ok());
        },
        Event::Wake(guard) => lemma_looked(s, guard, t, turn, hands_ok()),
        Event::Finish(guard, Ok(v)) => lemma_completed(s, guard.call(), v),
        Event::Finish(guard, Err(_)) => lemma_abandoned(s, guard.call()),
    }
}

/// [`Group::cancel`]: the call leaves as [`abandoned`] says.
pub proof fn law_cancel_of_a_group<K: Eq + Hash + Clone, V: Clone, S: BuildHasher + Clone>(
    m: &mut Group<K, V, S>,
    guard: EntryGuard<K>,
)
    requires
        old(m).wf(),
        under_way(old(m).state(), guard),
        call_ensures(Group::<K, V, S>::cancel, (m, guard), ()),
    ensures
        final(m).wf(),
        abandoned(old(m).state(), guard.call(), guard.entry(), final(m).state()),
{
    old(m).lemma_state();
    lemma_abandoned(old(m).state(), guard.call());
}

/// A lookup by `key` finds `k`, where that is the only key.
pub open spec fn finds<K, Q: ?Sized>(key: &Q, k: K) -> bool {
    contains_borrowed_key(Map::<K, usize>::empty().insert(k, 0), key)
}

/// Keys find themselves, and nothing else.
pub proof fn law_keys_find_themselves<K>(j: K, k: K)
    ensures
        finds(&j, k) <==> j == k,
        finds(&j, Box::new(k)) <==> j == k,
{
}

/// `got` is what a lookup finds by `key`: a clone of the value of the key that `key` finds, where
/// that key is there and its computation is complete, and nothing otherwise.
pub open spec fn got_from<K, V: Clone, Q: ?Sized>(
    s: State<K, V>,
    key: &Q,
    got: Option<V>,
) -> bool {
    match got {
        Some(x) => exists|k: K| #[trigger]
            finds(key, k) && s.keys.contains_key(k) && (
            s.cells[s.keys[k]] matches CellState::Ready(v) && cloned(v, x)),
        None => forall|k: K| #[trigger]
            finds(key, k) && s.keys.contains_key(k) ==> !(s.cells[s.keys[k]] is Ready),
    }
}

/// `t` is `s` without the key that `key` finds. Calls under way are not affected, nor are other
/// keys.
pub open spec fn removed_from<K, V, Q: ?Sized>(s: State<K, V>, key: &Q, t: State<K, V>) -> bool {
    &&& t.calls == s.calls
    &&& forall|k: K| #[trigger]
        t.keys.contains_key(k) <==> s.keys.contains_key(k) && !finds(key, k)
    &&& forall|k: K| #[trigger] t.keys.contains_key(k) ==> t.keys[k] == s.keys[k]
    &&& cells_kept(s, t, None)
}

/// A removal does what [`removed_from`] says.
proof fn lemma_removed<K, V, Q: ?Sized>(s: State<K, V>, key: &Q)
    ensures
        removed_from(s, key, unbound(s, key)),
{
    lemma_reclaimed(State { keys: unkeyed(s.keys, key), ..s });
    assert forall|k: K| #[trigger] denotes(key, k) == finds(key, k) by {}
    assert forall|k: K| unbound(s, key).keys.contains_key(k) <==> s.keys.contains_key(k) && !(
    #[trigger] finds(key, k)) by {
        assert(denotes(key, k) == finds(key, k));
    }
}

/// A lookup is answered as [`got_from`] says.
proof fn lemma_got<K, V: Clone, Q: ?Sized>(s: State<K, V>, key: &Q, got: Option<V>)
    requires
        answers(s, key, got),
    ensures
        got_from(s, key, got),
{
    assert forall|k: K| #[trigger] denotes(key, k) == finds(key, k) by {}
    match got {
        Some(x) => {
            let k = choose|k: K| #[trigger]
                denotes(key, k) && (s.stored(k) matches Some(v) && cloned(v, x));
            assert(finds(key, k));
        },
        None => {
            assert forall|k: K| #[trigger] finds(key, k) && s.keys.contains_key(k) implies !(
            s.cells[s.keys[k]] is Ready) by {
                assert(denotes(key, k));
            }
        },
    }
}

/// [`OnceMap::get`]: a clone of the value, where there is one.
pub proof fn law_get<
    K: Eq + Hash + Borrow<Q>,
    V: Clone,
    S: BuildHasher + Clone,
    Q: Hash + Eq + ?Sized,
>(m: &OnceMap<K, V, S>, key: &Q, got: Option<V>)
    requires
        call_ensures(OnceMap::<K, V, S>::get::<Q>, (m, key), got),
    ensures
        got_from(m.state(), key, got),
{
    lemma_got(m.state(), key, got);
}

/// [`OnceMap::remove`]: gives what [`OnceMap::get`] would have given, and takes out that key alone.
pub proof fn law_remove<
    K: Eq + Hash + Borrow<Q>,
    V: Clone,
    S: BuildHasher + Clone,
    Q: Hash + Eq + ?Sized,
>(m: &mut OnceMap<K, V, S>, key: &Q, got: Option<V>)
    requires
        call_ensures(OnceMap::<K, V, S>::remove::<Q>, (m, key), got),
    ensures
        final(m).wf(),
        got_from(old(m).state(), key, got),
        removed_from(old(m).state(), key, final(m).state()),
{
    lemma_got(old(m).state(), key, got);
    lemma_removed(old(m).state(), key);
}

/// [`OnceMap::discard`]: takes out the key, and that key alone.
pub proof fn law_discard<
    K: Eq + Hash + Borrow<Q>,
    V: Clone,
    S: BuildHasher + Clone,
    Q: Hash + Eq + ?Sized,
>(m: &mut OnceMap<K, V, S>, key: &Q)
    requires
        call_ensures(OnceMap::<K, V, S>::discard::<Q>, (m, key), ()),
    ensures
        final(m).wf(),
        removed_from(old(m).state(), key, final(m).state()),
{
    lemma_removed(old(m).state(), key);
}

/// [`Group::forget`]: takes out the key, and that key alone.
pub proof fn law_forget<
    K: Eq + Hash + Clone + Borrow<Q>,
    V: Clone,
    S: BuildHasher + Clone,
    Q: Hash + Eq + ?Sized,
>(m: &mut Group<K, V, S>, key: &Q)
    requires
        call_ensures(Group::<K, V, S>::forget::<Q>, (m, key), ()),
    ensures
        final(m).wf(),
        removed_from(old(m).state(), key, final(m).state()),
{
    lemma_removed(old(m).state(), key);
}

/// Nothing is in `s`.
pub open spec fn nothing_in<K, V>(s: State<K, V>) -> bool {
    &&& forall|k: K| !(#[trigger] s.keys.contains_key(k))
    &&& forall|e: usize| !(#[trigger] s.cells.contains_key(e))
    &&& forall|c: nat| !(#[trigger] s.calls.contains_key(c))
}

/// There is nothing in a new map.
pub proof fn law_new_map_is_empty<K: Eq + Hash, V: Clone, S: BuildHasher + Clone>(
    capacity: usize,
    hasher: S,
    plain: OnceMap<K, V>,
    sized: OnceMap<K, V>,
    hashed: OnceMap<K, V, S>,
    both: OnceMap<K, V, S>,
)
    requires
        call_ensures(OnceMap::<K, V>::new, (), plain),
        call_ensures(OnceMap::<K, V>::with_capacity, (capacity,), sized),
        call_ensures(OnceMap::<K, V, S>::with_hasher, (hasher,), hashed),
        call_ensures(OnceMap::<K, V, S>::with_capacity_and_hasher, (capacity, hasher), both),
    ensures
        plain.wf() && sized.wf() && hashed.wf() && both.wf(),
        nothing_in(plain.state()),
        nothing_in(sized.state()),
        nothing_in(hashed.state()),
        nothing_in(both.state()),
{
}

/// There is nothing in a map by default.
pub proof fn law_default_map_is_empty<K: Eq + Hash, V: Clone, S: BuildHasher + Clone + Default>(
    m: OnceMap<K, V, S>,
)
    requires
        call_ensures(<OnceMap<K, V, S> as Default>::default, (), m),
    ensures
        m.wf(),
        nothing_in(m.state()),
{
}

/// There is nothing in a new group.
pub proof fn law_new_group_is_empty<K: Eq + Hash + Clone, V: Clone, S: BuildHasher + Clone>(
    hasher: S,
    plain: Group<K, V>,
    hashed: Group<K, V, S>,
)
    requires
        call_ensures(Group::<K, V>::new, (), plain),
        call_ensures(Group::<K, V, S>::with_hasher, (hasher,), hashed),
    ensures
        plain.wf() && hashed.wf(),
        nothing_in(plain.state()),
        nothing_in(hashed.state()),
{
}

/// There is nothing in a group by default.
pub proof fn law_default_group_is_empty<
    K: Eq + Hash + Clone,
    V: Clone,
    S: BuildHasher + Clone + Default,
>(m: Group<K, V, S>)
    requires
        call_ensures(<Group<K, V, S> as Default>::default, (), m),
    ensures
        m.wf(),
        nothing_in(m.state()),
{
}

/// A key that is in no item has no value.
proof fn lemma_no_value<K, V>(items: Seq<(K, V)>, k: K)
    requires
        forall|j: int| 0 <= j < items.len() ==> (#[trigger] items[j]).0 != k,
    ensures
        last_value(items, k) is None,
    decreases items.len(),
{
    if items.len() > 0 {
        let rest = items.drop_last();
        assert(items[items.len() - 1].0 != k);
        assert forall|j: int| 0 <= j < rest.len() implies (#[trigger] rest[j]).0 != k by {
            assert(items[j].0 != k);
        }
        lemma_no_value(rest, k);
    }
}

/// [`OnceMap::from_iter`]: every item whose key no later item has is stored, however many there are,
/// a key that is in no item is not in the map, and no call is under way.
pub proof fn law_from_iter<K: Eq + Hash + Clone, V: Clone, S: Default + BuildHasher + Clone>(
    items: Vec<(K, V)>,
    m: OnceMap<K, V, S>,
)
    requires
        call_ensures(OnceMap::<K, V, S>::from_iter, (items,), m),
    ensures
        m.wf(),
        forall|i: int|
            #![trigger items@[i]]
            0 <= i < items@.len() && (forall|j: int|
                i < j < items@.len() ==> (#[trigger] items@[j]).0 != items@[i].0) ==> {
                &&& m.state().keys.contains_key(items@[i].0)
                &&& m.state().cells[m.state().keys[items@[i].0]] == CellState::Ready(items@[i].1)
            },
        forall|k: K| #[trigger]
            m.state().keys.contains_key(k) ==> exists|i: int|
                0 <= i < items@.len() && (#[trigger] items@[i]).0 == k,
        forall|c: nat| !(#[trigger] m.state().calls.contains_key(c)),
{
    let s = m.state();
    assert forall|i: int|
        #![trigger items@[i]]
        0 <= i < items@.len() && (forall|j: int|
            i < j < items@.len() ==> (#[trigger] items@[j]).0 != items@[i].0) implies {
        &&& s.keys.contains_key(items@[i].0)
        &&& s.cells[s.keys[items@[i].0]] == CellState::Ready(items@[i].1)
    } by {
        lemma_last_value(items@, i);
        assert(s.stored(items@[i].0) == last_value(items@, items@[i].0));
    }
    assert forall|k: K| #[trigger] s.keys.contains_key(k) implies exists|i: int|
        0 <= i < items@.len() && (#[trigger] items@[i]).0 == k by {
        if forall|j: int| 0 <= j < items@.len() ==> (#[trigger] items@[j]).0 != k {
            lemma_no_value(items@, k);
        }
    }
}

/// The calls that are under way on entry `e`.
pub open spec fn calls_on<K, V>(s: State<K, V>, e: usize) -> Set<nat> {
    Set::new(|c: nat| s.calls.contains_key(c) && s.calls[c].entry == e)
}

/// [`OnceMap::active_calls`]: the number of the calls on the entry of the key.
pub proof fn law_active_calls_of_a_map<K: Eq + Hash, V: Clone, S: BuildHasher + Clone>(
    m: &OnceMap<K, V, S>,
    key: K,
    count: usize,
)
    requires
        call_ensures(OnceMap::<K, V, S>::active_calls, (m, &key), count),
    ensures
        !m.state().keys.contains_key(key) ==> count == 0,
        m.state().keys.contains_key(key) ==> count == calls_on(
            m.state(),
            m.state().keys[key],
        ).len(),
{
    let s = m.state();
    assert(callers(s.calls, s.keys[key]) =~= calls_on(s, s.keys[key]));
}

/// [`Group::active_calls`]: the number of the calls on the entry of the key.
pub proof fn law_active_calls_of_a_group<K: Eq + Hash + Clone, V: Clone, S: BuildHasher + Clone>(
    m: &Group<K, V, S>,
    key: K,
    count: usize,
)
    requires
        call_ensures(Group::<K, V, S>::active_calls, (m, &key), count),
    ensures
        !m.state().keys.contains_key(key) ==> count == 0,
        m.state().keys.contains_key(key) ==> count == calls_on(
            m.state(),
            m.state().keys[key],
        ).len(),
{
    let s = m.state();
    assert(callers(s.calls, s.keys[key]) =~= calls_on(s, s.keys[key]));
}

/// `entries` shows each key of `s` once, with its value where there is one.
pub open spec fn shows<K, V>(s: State<K, V>, entries: Seq<(&K, Option<&V>)>) -> bool {
    &&& forall|i: int|
        #![trigger entries[i]]
        0 <= i < entries.len() ==> {
            &&& s.keys.contains_key(*entries[i].0)
            &&& match s.cells[s.keys[*entries[i].0]] {
                CellState::Ready(v) => entries[i].1 matches Some(x) && *x == v,
                _ => entries[i].1 is None,
            }
        }
    &&& forall|k: K| #[trigger]
        s.keys.contains_key(k) ==> exists|i: int|
            0 <= i < entries.len() && *(#[trigger] entries[i]).0 == k
    &&& forall|i: int, j: int|
        0 <= i < j < entries.len() ==> *(#[trigger] entries[i]).0 != *(#[trigger] entries[j]).0
}

/// [`OnceMap::entries`] and [`Group::entries`] show each key once, with its value.
pub proof fn law_entries<K: Eq + Hash + Clone, V: Clone, S: BuildHasher + Clone>(
    m: &OnceMap<K, V, S>,
    entries: Vec<(&K, Option<&V>)>,
    g: &Group<K, V, S>,
    others: Vec<(&K, Option<&V>)>,
)
    requires
        call_ensures(OnceMap::<K, V, S>::entries, (m,), entries),
        call_ensures(Group::<K, V, S>::entries, (g,), others),
    ensures
        shows(m.state(), entries@),
        shows(g.state(), others@),
        forall|k: K| #[trigger]
            m.state().keys.contains_key(k) <==> exists|i: int|
                0 <= i < entries@.len() && *(#[trigger] entries@[i]).0 == k,
        forall|k: K| #[trigger]
            g.state().keys.contains_key(k) <==> exists|i: int|
                0 <= i < others@.len() && *(#[trigger] others@[i]).0 == k,
{
    assert(shows(m.state(), entries@) && shows(g.state(), others@));
}

/// `guard` says of a call that is under way in `s` whether it runs the computation.
pub open spec fn informed<K, V, T>(s: State<K, V>, guard: EntryGuard<T>) -> bool {
    &&& under_way(s, guard)
    &&& guard.running() <==> s.cells[guard.entry()] == CellState::<V>::Running(guard.call())
}

/// A call that is told to run has a guard that says so, and one that is told to wait has one that
/// says the opposite. The guard can be handed back: it stands for a call that is under way.
pub proof fn law_guards_of_a_map<K: Eq + Hash, V: Clone, S: BuildHasher + Clone>(
    m: &mut OnceMap<K, V, S>,
    event: Event<K, (), V>,
    turn: Turn<(), V>,
    guard: EntryGuard<()>,
    running: bool,
)
    requires
        call_ensures(OnceMap::<K, V, S>::compute, (m, event), turn),
        turn == Turn::<(), V>::Run(guard) || turn == Turn::<(), V>::Wait(guard),
        call_ensures(EntryGuard::<()>::is_running, (&guard,), running),
    ensures
        running <==> turn is Run,
        running <==> guard.running(),
        informed(final(m).state(), guard),
{
}

/// A call that is told to run has a guard that says so, and one that is told to wait has one that
/// says the opposite. The guard can be handed back: it stands for a call that is under way, and
/// holds its key.
pub proof fn law_guards_of_a_group<K: Eq + Hash + Clone, V: Clone, S: BuildHasher + Clone>(
    m: &mut Group<K, V, S>,
    event: Event<K, K, V>,
    turn: Turn<K, V>,
    guard: EntryGuard<K>,
    running: bool,
)
    requires
        call_ensures(Group::<K, V, S>::work, (m, event), turn),
        turn == Turn::<K, V>::Run(guard) || turn == Turn::<K, V>::Wait(guard),
        call_ensures(EntryGuard::<K>::is_running, (&guard,), running),
    ensures
        running <==> turn is Run,
        running <==> guard.running(),
        informed(final(m).state(), guard),
        guard.tag() == final(m).state().calls[guard.call()].key,
{
}

/// A map takes in whatever can happen: a call that begins, as long as the calls under way can be
/// counted, and what happens to a call that is under way.
pub proof fn law_map_accepts<K: Eq + Hash, V: Clone, S: BuildHasher + Clone, E>(
    m: &mut OnceMap<K, V, S>,
    key: K,
    guard: EntryGuard<()>,
    v: V,
    result: Result<V, E>,
)
    requires
        obeys_key_model::<K>(),
        builds_valid_hashers::<S>(),
        old(m).wf(),
    ensures
        old(m).state().calls.len() < usize::MAX ==> call_requires(
            OnceMap::<K, V, S>::compute,
            (m, Event::Arrive(key)),
        ) && call_requires(OnceMap::<K, V, S>::try_compute::<E>, (m, Event::Arrive(key))),
        informed(old(m).state(), guard) && !guard.running() ==> call_requires(
            OnceMap::<K, V, S>::compute,
            (m, Event::Wake(guard)),
        ) && call_requires(OnceMap::<K, V, S>::try_compute::<E>, (m, Event::Wake(guard))),
        informed(old(m).state(), guard) && guard.running() ==> call_requires(
            OnceMap::<K, V, S>::compute,
            (m, Event::Finish(guard, v)),
        ) && call_requires(OnceMap::<K, V, S>::try_compute::<E>, (m, Event::Finish(guard, result))),
        informed(old(m).state(), guard) ==> call_requires(OnceMap::<K, V, S>::cancel, (m, guard)),
        call_requires(OnceMap::<K, V, S>::get::<K>, (&*old(m), &key)),
        call_requires(OnceMap::<K, V, S>::remove::<K>, (m, &key)),
        call_requires(OnceMap::<K, V, S>::discard::<K>, (m, &key)),
        call_requires(OnceMap::<K, V, S>::active_calls, (&*old(m), &key)),
        call_requires(OnceMap::<K, V, S>::entries, (&*old(m),)),
{
    law_keys_borrow_as_themselves::<K>();
}

/// A map can be made of any items.
pub proof fn law_items_are_accepted<
    K: Eq + Hash + Clone,
    V: Clone,
    S: Default + BuildHasher + Clone,
>(
    items: Vec<(K, V)>,
)
    requires
        obeys_key_model::<K>(),
        builds_valid_hashers::<S>(),
    ensures
        call_requires(OnceMap::<K, V, S>::from_iter, (items,)),
{
}

/// A group takes in whatever can happen: a call that begins, as long as the calls under way can be
/// counted, and what happens to a call that is under way.
pub proof fn law_group_accepts<K: Eq + Hash + Clone, V: Clone, S: BuildHasher + Clone, E>(
    m: &mut Group<K, V, S>,
    key: K,
    guard: EntryGuard<K>,
    v: V,
    result: Result<V, E>,
)
    requires
        obeys_key_model::<K>(),
        builds_valid_hashers::<S>(),
        old(m).wf(),
        guard.tag() == old(m).state().calls[guard.call()].key,
    ensures
        old(m).state().calls.len() < usize::MAX ==> call_requires(
            Group::<K, V, S>::work,
            (m, Event::Arrive(key)),
        ) && call_requires(Group::<K, V, S>::try_work::<E>, (m, Event::Arrive(key))),
        informed(old(m).state(), guard) && !guard.running() ==> call_requires(
            Group::<K, V, S>::work,
            (m, Event::Wake(guard)),
        ) && call_requires(Group::<K, V, S>::try_work::<E>, (m, Event::Wake(guard))),
        informed(old(m).state(), guard) && guard.running() ==> call_requires(
            Group::<K, V, S>::work,
            (m, Event::Finish(guard, v)),
        ) && call_requires(Group::<K, V, S>::try_work::<E>, (m, Event::Finish(guard, result))),
        informed(old(m).state(), guard) ==> call_requires(Group::<K, V, S>::cancel, (m, guard)),
        call_requires(Group::<K, V, S>::forget::<K>, (m, &key)),
        call_requires(Group::<K, V, S>::active_calls, (&*old(m), &key)),
        call_requires(Group::<K, V, S>::entries, (&*old(m),)),
{
    law_keys_borrow_as_themselves::<K>();
}

/// [`Turn::ok`] keeps what the call does next, and makes a success of what it returns.
pub proof fn law_success<T, V, E>(turn: Turn<T, V>, same: Turn<T, Result<V, E>>)
    requires
        call_ensures(Turn::<T, V>::ok::<E>, (turn,), same),
    ensures
        turn matches Turn::Run(guard) ==> same == Turn::<T, Result<V, E>>::Run(guard),
        turn matches Turn::Wait(guard) ==> same == Turn::<T, Result<V, E>>::Wait(guard),
        turn matches Turn::Return(v) ==> same == Turn::<T, Result<V, E>>::Return(Ok(v)),
{
}

/// A call about a key is taken in as long as the calls that are counted for the key can be counted
/// with one more.
pub proof fn law_counted_calls_are_accepted<
    K: Eq + Hash + Clone,
    V: Clone,
    S: BuildHasher + Clone,
>(m: &mut OnceMap<K, V, S>, g: &mut Group<K, V, S>, key: K, count: usize, number: usize)
    requires
        obeys_key_model::<K>(),
        builds_valid_hashers::<S>(),
        forall|x: K, y: K| #[trigger] cloned(x, y) ==> x == y,
        old(m).wf(),
        old(g).wf(),
        call_ensures(OnceMap::<K, V, S>::active_calls, (&*old(m), &key), count),
        call_ensures(Group::<K, V, S>::active_calls, (&*old(g), &key), number),
        count < usize::MAX,
        number < usize::MAX,
    ensures
        call_requires(OnceMap::<K, V, S>::compute, (m, Event::Arrive(key))),
        call_requires(Group::<K, V, S>::work, (g, Event::Arrive(key))),
{
}

} // verus!
