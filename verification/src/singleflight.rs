//! Singleflight provides a duplicate function call suppression mechanism.

use std::borrow::Borrow;
use std::collections::HashMap;
use std::hash::BuildHasher;
use std::hash::Hash;
use std::hash::RandomState;

use vstd::prelude::*;
use vstd::std_specs::hash::contains_borrowed_key;
use vstd::std_specs::iter::IteratorSpec;

use crate::board::Board;
use crate::flight::EntryGuard;
use crate::flight::Event;
use crate::flight::Turn;
use crate::flight::arrives;
use crate::flight::hands_clone;
use crate::flight::hands_ok;
use crate::flight::has_room;
use crate::flight::holds;
use crate::flight::lemma_has_room;
use crate::flight::turn_holds;
use crate::flight::wakes;
use crate::keys::borrows_keys;
use crate::keys::denotes;
use crate::keys::lemma_unbound;
use crate::keys::sound_keys;
use crate::keys::unbound;
use crate::once::Entry;
use crate::state::CellState;
use crate::state::State;
use crate::state::callers;
use crate::state::elsewhere;
use crate::state::lemma_detached;
use crate::state::lemma_detached_kept;
use crate::state::lemma_dismissed;
use crate::state::lemma_entered;
use crate::state::lemma_in_use;
use crate::state::lemma_left;
use crate::state::lemma_lists;
use crate::state::lists;
use crate::state::undisturbed;

verus! {

/// Group represents a class of work and forms a namespace in which
/// units of work can be executed with duplicate suppression.
///
/// The group decides and does not wait: [`Group::work`] and [`Group::try_work`] take what happened
/// to a call and answer with what the call does next.
#[verifier::reject_recursive_types(K)]
#[verifier::reject_recursive_types(S)]
pub struct Group<K, V, S = RandomState> {
    map: HashMap<K, usize, S>,
    board: Board<K, V>,
}

/// A clone of a key is the key.
pub open spec fn clones_keep<K: Clone>() -> bool {
    forall|a: K, b: K| #[trigger] cloned(a, b) ==> a == b
}

impl<K: Clone, V, S> Group<K, V, S> {
    /// The state of the group.
    pub closed spec fn state(&self) -> State<K, V> {
        State { keys: self.map@, cells: self.board.cells(), calls: self.board.calls() }
    }

    /// What every operation keeps: the state is valid, and where clones of keys are equal to the
    /// keys, an entry is about one key, and each key stands for a computation that is in flight.
    pub closed spec fn wf(&self) -> bool {
        &&& self.represents(self.state())
        &&& self.state().valid()
        &&& clones_keep::<K>() ==> self.state().keyed() && self.state().in_flight()
    }

    /// The board and the keys agree, where the keys are those of `s`.
    spec fn represents(&self, s: State<K, V>) -> bool {
        &&& self.board.wf()
        &&& forall|e: usize| #[trigger] self.board.attached().contains(e) <==> s.attached(e)
    }

    /// What a well formed group says of its state.
    pub proof fn lemma_state(&self)
        requires
            self.wf(),
        ensures
            self.state().valid(),
            clones_keep::<K>() ==> self.state().keyed() && self.state().in_flight(),
    {
    }
}

/// `guard` belongs to a call that is under way in `s`, and holds the key of the call.
pub open spec fn claims<K, V>(s: State<K, V>, guard: EntryGuard<K>) -> bool {
    holds(s, guard) && guard.tag() == s.calls[guard.call()].key
}

/// A guard that `turn` hands out belongs to a call that is under way in `s`, and holds its key.
pub open spec fn turn_claims<K, V, R>(s: State<K, V>, turn: Turn<K, R>) -> bool {
    &&& turn_holds(s, turn)
    &&& turn matches Turn::Run(guard) ==> claims(s, guard)
    &&& turn matches Turn::Wait(guard) ==> claims(s, guard)
}

/// What `event` tells can happen in `s`.
pub open spec fn admits<K: Clone, V, R>(s: State<K, V>, event: Event<K, K, R>) -> bool {
    match event {
        Event::Arrive(key) => forall|k: K| #[trigger] cloned(key, k) ==> has_room(s, k),
        Event::Wake(guard) => claims(s, guard) && !guard.running(),
        Event::Finish(guard, _) => claims(s, guard) && guard.running(),
    }
}

/// A new call about `key` takes `s` to `t` and does `turn` next. The group looks for it under a
/// clone of the key.
pub open spec fn enters<K: Clone, V, R>(
    s: State<K, V>,
    key: K,
    t: State<K, V>,
    turn: Turn<K, R>,
    hands: spec_fn(V, R) -> bool,
) -> bool {
    exists|k: K| #[trigger] cloned(key, k) && arrives(s, key, k, key, t, turn, hands)
}

impl<K, V> Group<K, V, RandomState> where K: Eq + Hash + Clone, V: Clone {
    /// Creates a new Group with the default hasher.
    pub fn new() -> (group: Self)
        ensures
            group.wf(),
            group.state() == State::<K, V>::empty(),
    {
        Self { map: HashMap::new(), board: Board::new() }
    }
}

impl<K, V, S> Group<K, V, S> where K: Eq + Hash + Clone, V: Clone, S: BuildHasher + Clone {
    /// Creates a new Group with the given hasher.
    pub fn with_hasher(hasher: S) -> (group: Self)
        ensures
            group.wf(),
            group.state() == State::<K, V>::empty(),
    {
        Self { map: HashMap::with_hasher(hasher), board: Board::new() }
    }

    /// A new call about `key` enters the entry of a clone of the key, which it makes where there is
    /// none. The other result is that clone.
    fn enter(&mut self, key: K) -> (entered: (EntryGuard<K>, Ghost<K>))
        requires
            sound_keys::<K, S>(),
            old(self).wf(),
            forall|k: K| #[trigger] cloned(key, k) ==> has_room(old(self).state(), k),
        ensures
            cloned(key, entered.1@),
            entered.0.tag() == key,
            !entered.0.running(),
            old(self).state().can_enter(entered.1@, entered.0.call(), entered.0.entry()),
            final(self).state() == old(self).state().entered(
                key,
                entered.1@,
                entered.0.call(),
                entered.0.entry(),
            ),
            final(self).wf(),
    {
        let ghost s = self.state();
        let clone = key.clone();
        let ghost k = clone;
        let found: Option<usize> = match self.map.get(&clone) {
            Some(entry) => Some(*entry),
            None => None,
        };
        proof {
            assert(cloned(key, k));
            lemma_has_room(s, k);
        }
        let entry: usize = match found {
            Some(entry) => {
                assert(s.keys.contains_key(k));
                entry
            },
            None => {
                let entry: usize = self.board.attach(Entry::new());
                self.map.insert(clone, entry);
                proof {
                    assert(callers(self.board.calls(), entry).len() == 0) by {
                        self.board.lemma_parts();
                        lemma_in_use(s, entry);
                    }
                }
                entry
            },
        };
        let call: Ghost<nat> = self.board.enter(entry, Ghost(key));
        proof {
            self.board.lemma_parts();
            assert(self.state() =~= s.entered(key, k, call@, entry));
            lemma_entered(s, key, k, call@, entry);
        }
        (EntryGuard::new(key, entry, false, call), Ghost(k))
    }

    /// Whether the key of `guard` refers to the entry of `guard`.
    fn is_kept(&self, guard: &EntryGuard<K>) -> (kept: bool)
        requires
            sound_keys::<K, S>(),
        ensures
            kept <==> self.state().keys.contains_key(guard.tag())
                && self.state().keys[guard.tag()] == guard.entry(),
    {
        match self.map.get(guard.get_tag()) {
            Some(entry) => *entry == guard.get_entry(),
            None => false,
        }
    }

    /// The call behind `guard` leaves.
    ///
    /// An empty entry stays reachable while another caller can retry it: to remove it on the first
    /// failed or cancelled attempt could let a new caller start a separate computation alongside
    /// callers that are already waiting on the entry.
    fn leave(&mut self, guard: EntryGuard<K>)
        requires
            sound_keys::<K, S>(),
            old(self).wf(),
            claims(old(self).state(), guard),
            !guard.running(),
        ensures
            final(self).wf(),
            final(self).state() == old(self).state().left(guard.call()),
            undisturbed(old(self).state(), final(self).state(), Some(guard.call())),
    {
        let ghost s = self.state();
        let ghost c = guard.call();
        let entry: usize = guard.get_entry();
        proof {
            lemma_left(s, c);
            lemma_dismissed(s, c);
            lemma_in_use(State { calls: s.calls.remove(c), ..s }, entry);
        }
        let abandoned = self.board.exit(entry, guard.get_call());
        if abandoned && self.is_kept(&guard) {
            self.map.remove(guard.get_tag());
            self.board.detach(entry);
            proof {
                lemma_detached(s, guard.tag());
            }
        }
        proof {
            self.board.lemma_parts();
            assert(s.keeps(c) ==> s.attached(entry));
            assert(self.state() =~= s.left(c));
        }
    }

    /// A change of the cell of one entry with calls, which no key refers to where it gets a value,
    /// keeps the group well formed.
    proof fn lemma_cell_changed(&self, s: State<K, V>, e: usize, cell: CellState<V>)
        requires
            s.valid(),
            clones_keep::<K>() ==> s.keyed() && s.in_flight(),
            s.in_use(e),
            clones_keep::<K>() && s.attached(e) ==> !(cell is Ready),
            self.represents(s),
            self.state().keys == s.keys,
            self.state().cells == s.cells.insert(e, cell),
            self.state().calls == s.calls,
        ensures
            self.wf(),
    {
        self.board.lemma_parts();
        let t = self.state();
        assert forall|d: usize| #[trigger] t.in_use(d) == s.in_use(d) by {}
        assert forall|d: usize| #[trigger] t.attached(d) == s.attached(d) by {}
        assert(s.cells.contains_key(e)) by {
            let c = choose|c: nat| s.calls.contains_key(c) && (#[trigger] s.calls[c]).entry == e;
        }
        if clones_keep::<K>() {
            assert forall|k: K| #[trigger] t.keys.contains_key(k) implies !(
            t.cells[t.keys[k]] is Ready) by {
                assert(s.keys.contains_key(k));
                assert(s.attached(s.keys[k]));
            }
        }
    }

    /// The call behind `guard` looks at its entry, and starts the computation where none runs and
    /// there is no value.
    fn attempt(&mut self, guard: EntryGuard<K>) -> (turn: Turn<K, V>)
        requires
            sound_keys::<K, S>(),
            old(self).wf(),
            claims(old(self).state(), guard),
            !guard.running(),
        ensures
            final(self).wf(),
            wakes(old(self).state(), guard, final(self).state(), turn, hands_clone()),
            undisturbed(old(self).state(), final(self).state(), Some(guard.call())),
            turn_claims(final(self).state(), turn),
    {
        let ghost s = self.state();
        let entry: usize = guard.get_entry();
        if self.board.begin(entry, guard.get_call()) {
            proof {
                assert(s.in_use(entry));
                self.lemma_cell_changed(s, entry, CellState::Running(guard.call()));
            }
            return Turn::Run(guard.started());
        }
        assert(self.state() == s);
        let ready: Option<V> = match self.board.value(entry) {
            Some(value) => Some(value.clone()),
            None => None,
        };
        match ready {
            Some(value) => {
                self.leave(guard);
                Turn::Return(value)
            },
            None => Turn::Wait(guard),
        }
    }

    /// A new call about `key` begins.
    fn arrive(&mut self, key: K) -> (turn: Turn<K, V>)
        requires
            sound_keys::<K, S>(),
            old(self).wf(),
            forall|k: K| #[trigger] cloned(key, k) ==> has_room(old(self).state(), k),
        ensures
            final(self).wf(),
            turn_claims(final(self).state(), turn),
            enters(old(self).state(), key, final(self).state(), turn, hands_clone()),
            undisturbed(old(self).state(), final(self).state(), None),
    {
        let ghost s = self.state();
        let (guard, clone) = self.enter(key);
        let ghost k = clone@;
        let ghost c = guard.call();
        let ghost e = guard.entry();
        let ghost mid = self.state();
        let turn = self.attempt(guard);
        proof {
            let t = self.state();
            if turn is Return {
                lemma_dismissed(mid, c);
                assert(s.calls =~= mid.calls.remove(c));
                assert(t =~= s);
            } else if !s.keys.contains_key(k) {
                assert(t =~= s.opened(k, e, CellState::Running(c)).joined(c, key, e));
            }
            assert(arrives(s, key, k, key, t, turn, hands_clone()));
        }
        turn
    }

    /// The call behind `guard` ends the computation that it runs with its value, and is over. Its
    /// key is removed, where it still refers to the entry of *this* call.
    fn finish(&mut self, guard: EntryGuard<K>, value: V) -> (result: V)
        requires
            sound_keys::<K, S>(),
            old(self).wf(),
            claims(old(self).state(), guard),
            guard.running(),
        ensures
            final(self).wf(),
            cloned(value, result),
            undisturbed(old(self).state(), final(self).state(), Some(guard.call())),
            final(self).state() == old(self).state().worked(guard.call(), value),
    {
        let ghost s = self.state();
        let ghost c = guard.call();
        let entry: usize = guard.get_entry();
        proof {
            lemma_in_use(s, entry);
            assert(s.in_use(entry));
        }
        if self.is_kept(&guard) {
            self.map.remove(guard.get_tag());
            self.board.detach(entry);
            proof {
                lemma_detached(s, guard.tag());
                lemma_detached_kept(s, guard.tag());
            }
        }
        let ghost mid = s.released(c);
        proof {
            assert(self.state() =~= mid);
            assert(mid.in_use(entry)) by {
                assert(mid.calls[c].entry == entry);
            }
            assert(clones_keep::<K>() ==> !mid.attached(entry)) by {
                if clones_keep::<K>() && mid.attached(entry) {
                    let k = choose|k: K| mid.keys.contains_key(k) && #[trigger] mid.keys[k] == entry;
                    assert(s.keys[k] == s.calls[c].entry);
                }
            }
        }
        self.board.set(entry, guard.get_call(), value);
        proof {
            self.lemma_cell_changed(mid, entry, CellState::Ready(value));
            assert(self.state() =~= mid.settled(c, value));
        }
        let stored: Option<V> = match self.board.value(entry) {
            Some(value) => Some(value.clone()),
            None => None,
        };
        self.leave(guard.stopped());
        stored.unwrap()
    }

    /// The call behind `guard` goes away without a result: its caller gave up, or the computation
    /// that it ran failed.
    ///
    /// Another call on the entry may compute the value then. Where there is none, the empty entry is
    /// removed.
    pub fn cancel(&mut self, guard: EntryGuard<K>)
        requires
            sound_keys::<K, S>(),
            old(self).wf(),
            claims(old(self).state(), guard),
        ensures
            final(self).wf(),
            final(self).state() == old(self).state().cancelled(guard.call()),
            undisturbed(old(self).state(), final(self).state(), Some(guard.call())),
    {
        let ghost s = self.state();
        let entry: usize = guard.get_entry();
        self.board.reset(entry, guard.get_call(), guard.is_running());
        proof {
            assert(s.in_use(entry));
            if guard.running() {
                self.lemma_cell_changed(s, entry, CellState::Empty);
            }
            assert(self.state() =~= s.stopped(guard.call()));
        }
        self.leave(guard.stopped());
    }

    /// Executes and returns the results of the given function, making sure that only one execution
    /// is in-flight for a given key at a time.
    ///
    /// If a duplicate comes in, the duplicate caller waits for the original to complete and
    /// receives the same results.
    ///
    /// If the computation is cancelled or panics (see [`Group::cancel`]), another current caller may
    /// retry it. The empty entry is removed once no current callers remain.
    ///
    /// Once the function completes, the key, if not [`forgotten`], is removed from the group,
    /// allowing future calls with the same key to execute the function again.
    ///
    /// [`forgotten`]: Self::forget
    pub fn work(&mut self, event: Event<K, K, V>) -> (turn: Turn<K, V>)
        requires
            sound_keys::<K, S>(),
            old(self).wf(),
            admits(old(self).state(), event),
        ensures
            final(self).wf(),
            turn_claims(final(self).state(), turn),
            undisturbed(old(self).state(), final(self).state(), event.own()),
            ({
                let s = old(self).state();
                let t = final(self).state();
                match event {
                    Event::Arrive(key) => enters(s, key, t, turn, hands_clone()),
                    Event::Wake(guard) => wakes(s, guard, t, turn, hands_clone()),
                    Event::Finish(guard, value) => {
                        let c = guard.call();
                        &&& turn matches Turn::Return(result)
                        &&& cloned(value, result)
                        &&& t == s.worked(c, value)
                    },
                }
            }),
    {
        match event {
            Event::Arrive(key) => self.arrive(key),
            Event::Wake(guard) => self.attempt(guard),
            Event::Finish(guard, value) => Turn::Return(self.finish(guard, value)),
        }
    }

    /// Executes and returns the results of the given function, making sure that only one execution
    /// is in-flight for a given key at a time.
    ///
    /// If a duplicate comes in, the duplicate caller waits for the original to complete and
    /// receives the same results.
    ///
    /// If the computation fails, the error is returned for the caller. Other calls waiting for the
    /// result will retry the computation. If the computation fails, is cancelled or panics and no
    /// current callers remain, the empty entry is removed.
    ///
    /// Once the function completes successfully, the key, if not [`forgotten`], is removed from
    /// the group, allowing future calls with the same key to execute the function again.
    ///
    /// [`forgotten`]: Self::forget
    pub fn try_work<E>(&mut self, event: Event<K, K, Result<V, E>>) -> (turn: Turn<
        K,
        Result<V, E>,
    >)
        requires
            sound_keys::<K, S>(),
            old(self).wf(),
            admits(old(self).state(), event),
        ensures
            final(self).wf(),
            turn_claims(final(self).state(), turn),
            undisturbed(old(self).state(), final(self).state(), event.own()),
            ({
                let s = old(self).state();
                let t = final(self).state();
                match event {
                    Event::Arrive(key) => enters(s, key, t, turn, hands_ok()),
                    Event::Wake(guard) => wakes(s, guard, t, turn, hands_ok()),
                    Event::Finish(guard, Ok(value)) => {
                        let c = guard.call();
                        &&& turn matches Turn::Return(Ok(result))
                        &&& cloned(value, result)
                        &&& t == s.worked(c, value)
                    },
                    Event::Finish(guard, Err(error)) => {
                        &&& turn == Turn::<K, Result<V, E>>::Return(Err(error))
                        &&& t == s.cancelled(guard.call())
                    },
                }
            }),
    {
        match event {
            Event::Arrive(key) => {
                let ghost s = self.state();
                let turn = self.arrive(key);
                let ghost t = self.state();
                let ghost k = choose|k: K| #[trigger]
                    cloned(key, k) && arrives(s, key, k, key, t, turn, hands_clone());
                let turn: Turn<K, Result<V, E>> = turn.ok();
                assert(arrives(s, key, k, key, t, turn, hands_ok()));
                turn
            },
            Event::Wake(guard) => self.attempt(guard).ok(),
            Event::Finish(guard, Ok(value)) => Turn::Return(Ok(self.finish(guard, value))),
            Event::Finish(guard, Err(error)) => {
                self.cancel(guard);
                Turn::Return(Err(error))
            },
        }
    }

    /// Forgets about the given key.
    ///
    /// Future calls to `work` for this key will call the function rather than waiting for an
    /// earlier call to complete. Existing calls to `work` for this key are not affected.
    pub fn forget<Q>(&mut self, key: &Q) where K: Borrow<Q>, Q: Hash + Eq + ?Sized
        requires
            sound_keys::<K, S>(),
            borrows_keys::<K, Q>(),
            old(self).wf(),
        ensures
            final(self).wf(),
            final(self).state() == unbound(old(self).state(), key),
            !contains_borrowed_key(final(self).state().keys, key),
            undisturbed(old(self).state(), final(self).state(), None),
            ({
                let s = old(self).state();
                let t = final(self).state();
                ||| (forall|k: K| #[trigger] denotes(key, k) ==> !s.keys.contains_key(k)) && t == s
                ||| exists|k: K| #[trigger]
                    denotes(key, k) && s.keys.contains_key(k) && t == s.detached(k) && elsewhere(
                        s,
                        t,
                        k,
                    )
            }),
    {
        let ghost s = self.state();
        proof {
            lemma_unbound(s, key);
        }
        match self.map.remove(key) {
            Some(entry) => {
                let ghost k = choose|k: K|
                    s.keys.contains_key(k) && s.keys[k] == entry && #[trigger] denotes(key, k);
                assert(self.map@ =~= s.keys.remove(k));
                proof {
                    lemma_detached(s, k);
                    lemma_in_use(s, entry);
                    lemma_detached_kept(s, k);
                }
                self.board.detach(entry);
                proof {
                    self.board.lemma_parts();
                    assert(self.state() =~= s.detached(k));
                    let t = State { keys: s.keys.remove(k), ..s };
                    assert forall|e: usize| #[trigger] self.state().attached(e) == t.attached(e) by {}
                    }
            },
            None => {
                assert(self.state() =~= s);
            },
        }
    }

    /// The number of calls that are under way on the entry of `key`.
    pub fn active_calls(&self, key: &K) -> (calls: usize)
        requires
            sound_keys::<K, S>(),
            self.wf(),
        ensures
            ({
                let s = self.state();
                calls == if s.keys.contains_key(*key) {
                    callers(s.calls, s.keys[*key]).len()
                } else {
                    0
                }
            }),
    {
        match self.map.get(key) {
            Some(entry) => {
                assert(self.state().keys.contains_key(*key));
                self.board.count(*entry)
            },
            None => 0,
        }
    }

    /// Each key with its value, where there is one, in no particular order.
    pub fn entries(&self) -> (entries: Vec<(&K, Option<&V>)>)
        requires
            sound_keys::<K, S>(),
            self.wf(),
        ensures
            lists(self.state(), entries@),
    {
        let ghost items = self.map.iter().remaining();
        let mut entries: Vec<(&K, Option<&V>)> = Vec::new();
        for item in iter: self.map.iter()
            invariant
                sound_keys::<K, S>(),
                self.wf(),
                items == self.map.iter().remaining(),
                iter.seq() == items,
                items.no_duplicates(),
                entries@.len() == iter.index(),
                forall|i: int|
                    0 <= i < entries@.len() ==> {
                        &&& #[trigger] entries@[i].0 == items[i].0
                        &&& self.state().stored(*entries@[i].0) == match entries@[i].1 {
                            Some(value) => Some(*value),
                            None => None,
                        }
                    },
        {
            let entry: usize = *item.1;
            assert(self.state().keys.contains_key(*item.0));
            entries.push((item.0, self.board.value(entry)));
        }
        proof {
            lemma_lists(self.state(), items, entries@);
        }
        entries
    }
}

impl<K, V, S> Default for Group<K, V, S> where
    K: Eq + Hash + Clone,
    V: Clone,
    S: BuildHasher + Clone + Default,
 {
    /// Creates a new Group with a hasher of its own.
    fn default() -> (group: Self)
        ensures
            group.wf(),
            group.state() == State::<K, V>::empty(),
    {
        Self::with_hasher(S::default())
    }
}

} // verus!
