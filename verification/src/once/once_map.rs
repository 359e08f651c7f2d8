//! A map that computes the value of each key only once.

use std::borrow::Borrow;
use std::collections::HashMap;
use std::hash::BuildHasher;
use std::hash::Hash;
use std::hash::RandomState;

use vstd::prelude::*;
use vstd::std_specs::hash::contains_borrowed_key;
use vstd::std_specs::iter::IteratorSpec;

use crate::board::Board;
use crate::flight::EntryGuard;
use crate::flight::Event;
use crate::flight::Turn;
use crate::flight::arrives;
use crate::flight::hands_clone;
use crate::flight::hands_ok;
use crate::flight::has_room;
use crate::flight::holds;
use crate::flight::lemma_has_room;
use crate::flight::turn_holds;
use crate::flight::wakes;
use crate::keys::answers;
use crate::keys::borrows_keys;
use crate::keys::denotes;
use crate::keys::lemma_unbound;
use crate::keys::retain_others;
use crate::keys::sound_keys;
use crate::keys::unbound;
use crate::keys::without;
use crate::laws::begins;
use crate::once::Entry;
use crate::state::CallState;
use crate::state::CellState;
use crate::state::State;
use crate::state::callers;
use crate::state::elsewhere;
use crate::state::lemma_detached;
use crate::state::lemma_detached_kept;
use crate::state::lemma_dismissed;
use crate::state::lemma_entered;
use crate::state::lemma_in_use;
use crate::state::lemma_left;
use crate::state::lemma_lists;
use crate::state::lists;
use crate::state::undisturbed;

verus! {

/// A hash map that runs computation only once for each key and stores the result.
///
/// Note that this always clones the value out of the underlying map. Because of this, it's common
/// to wrap the `V` in an `Arc<V>` to make cloning cheap.
///
/// The map decides and does not wait: [`OnceMap::compute`] and [`OnceMap::try_compute`] take what
/// happened to a call and answer with what the call does next.
#[verifier::reject_recursive_types(K)]
#[verifier::reject_recursive_types(S)]
pub struct OnceMap<K, V, S = RandomState> {
    map: HashMap<K, usize, S>,
    board: Board<K, V>,
}

impl<K, V, S> OnceMap<K, V, S> {
    /// The state of the map.
    pub closed spec fn state(&self) -> State<K, V> {
        State { keys: self.map@, cells: self.board.cells(), calls: self.board.calls() }
    }

    /// What every operation keeps: the state is valid, an entry is about one key, and an entry without
    /// a value has a call that can compute one.
    pub closed spec fn wf(&self) -> bool {
        &&& self.board.wf()
        &&& forall|e: usize| #[trigger]
            self.board.attached().contains(e) <==> self.state().attached(e)
        &&& self.state().valid()
        &&& self.state().keyed()
        &&& self.state().attended()
    }

    /// What a well formed map says of its state.
    pub proof fn lemma_state(&self)
        requires
            self.wf(),
        ensures
            self.state().valid(),
            self.state().keyed(),
            self.state().attended(),
    {
    }
}

/// What `event` tells can happen in `s`.
pub open spec fn admits<K, V, R>(s: State<K, V>, event: Event<K, (), R>) -> bool {
    match event {
        Event::Arrive(key) => has_room(s, key),
        Event::Wake(guard) => holds(s, guard) && !guard.running(),
        Event::Finish(guard, _) => holds(s, guard) && guard.running(),
    }
}

impl<K, V> OnceMap<K, V, RandomState> where K: Eq + Hash, V: Clone {
    /// Creates a new OnceMap with the default hasher.
    pub fn new() -> (map: Self)
        ensures
            map.wf(),
            map.state() == State::<K, V>::empty(),
    {
        Self { map: HashMap::new(), board: Board::new() }
    }

    /// Creates a new OnceMap with the default hasher and the specified capacity.
    ///
    /// That memory for the capacity can be had is not part of the contract.
    pub fn with_capacity(capacity: usize) -> (map: Self)
        ensures
            map.wf(),
            map.state() == State::<K, V>::empty(),
    {
        Self { map: HashMap::with_capacity(capacity), board: Board::new() }
    }
}

impl<K, V, S> OnceMap<K, V, S> where K: Eq + Hash, V: Clone, S: BuildHasher + Clone {
    /// Creates a new OnceMap with the given hasher.
    pub fn with_hasher(hasher: S) -> (map: Self)
        ensures
            map.wf(),
            map.state() == State::<K, V>::empty(),
    {
        Self { map: HashMap::with_hasher(hasher), board: Board::new() }
    }

    /// Create a OnceMap with the specified capacity and hasher.
    ///
    /// That memory for the capacity can be had is not part of the contract.
    pub fn with_capacity_and_hasher(capacity: usize, hasher: S) -> (map: Self)
        ensures
            map.wf(),
            map.state() == State::<K, V>::empty(),
    {
        let mut map: HashMap<K, usize, S> = HashMap::with_hasher(hasher);
        map.reserve(capacity);
        Self { map, board: Board::new() }
    }

    /// A new call about `key` enters the entry of the key, which it makes where there is none.
    fn enter(&mut self, key: K) -> (guard: EntryGuard<()>)
        requires
            sound_keys::<K, S>(),
            old(self).wf(),
            has_room(old(self).state(), key),
        ensures
            final(self).board.wf(),
            !guard.running(),
            old(self).state().can_enter(key, guard.call(), guard.entry()),
            final(self).state() == old(self).state().entered(
                key,
                key,
                guard.call(),
                guard.entry(),
            ),
            final(self).wf(),
    {
        let ghost s = self.state();
        let ghost k = key;
        proof {
            lemma_has_room(s, key);
        }
        let found: Option<usize> = match self.map.get(&key) {
            Some(entry) => Some(*entry),
            None => None,
        };
        let entry: usize = match found {
            Some(entry) => entry,
            None => {
                let entry: usize = self.board.attach(Entry::new());
                self.map.insert(key, entry);
                proof {
                    assert(callers(self.board.calls(), entry).len() == 0) by {
                        self.board.lemma_parts();
                        lemma_in_use(s, entry);
                    }
                }
                entry
            },
        };
        let call: Ghost<nat> = self.board.enter(entry, Ghost(k));
        proof {
            self.board.lemma_parts();
            assert(self.state() =~= s.entered(k, k, call@, entry));
            lemma_entered(s, k, k, call@, entry);
        }
        EntryGuard::new((), entry, false, call)
    }

    /// The call behind `guard` leaves.
    fn leave(&mut self, guard: EntryGuard<()>)
        requires
            sound_keys::<K, S>(),
            old(self).wf(),
            holds(old(self).state(), guard),
            !guard.running(),
        ensures
            final(self).wf(),
            final(self).state() == old(self).state().left(guard.call()),
            undisturbed(old(self).state(), final(self).state(), Some(guard.call())),
    {
        let ghost s = self.state();
        let ghost c = guard.call();
        let entry: usize = guard.get_entry();
        proof {
            lemma_left(s, c);
            lemma_dismissed(s, c);
            lemma_in_use(State { calls: s.calls.remove(c), ..s }, entry);
        }
        let abandoned = self.board.exit(entry, guard.get_call());
        if abandoned {
            retain_others(&mut self.map, entry);
            self.board.detach(entry);
        }
        proof {
            self.board.lemma_parts();
            if abandoned {
                let k = choose|k: K| s.keys.contains_key(k) && #[trigger] s.keys[k] == entry;
                assert(s.calls[c].entry == s.keys[k]);
                assert(without(s.keys, entry) =~= s.keys.remove(k));
                assert(s.keeps(c));
                lemma_detached(s, k);
            }
            assert(self.state() =~= s.left(c));
        }
    }

    /// The call behind `guard` looks at its entry, and starts the computation where none runs and
    /// there is no value.
    fn attempt(&mut self, guard: EntryGuard<()>) -> (turn: Turn<(), V>)
        requires
            sound_keys::<K, S>(),
            old(self).wf(),
            holds(old(self).state(), guard),
            !guard.running(),
        ensures
            final(self).wf(),
            wakes(old(self).state(), guard, final(self).state(), turn, hands_clone()),
            undisturbed(old(self).state(), final(self).state(), Some(guard.call())),
            turn_holds(final(self).state(), turn),
    {
        let ghost s = self.state();
        let entry: usize = guard.get_entry();
        if self.board.begin(entry, guard.get_call()) {
            proof {
                self.lemma_cell_changed(s, entry, CellState::Running(guard.call()));
            }
            return Turn::Run(guard.started());
        }
        assert(self.state() == s);
        let ready: Option<V> = match self.board.value(entry) {
            Some(value) => Some(value.clone()),
            None => None,
        };
        match ready {
            Some(value) => {
                self.leave(guard);
                Turn::Return(value)
            },
            None => Turn::Wait(guard),
        }
    }

    /// A change of the cell of one entry with calls keeps the map well formed.
    proof fn lemma_cell_changed(&self, s: State<K, V>, e: usize, cell: CellState<V>)
        requires
            s.valid(),
            s.keyed(),
            s.attended(),
            s.in_use(e),
            self.board.wf(),
            self.state().keys == s.keys,
            self.state().cells == s.cells.insert(e, cell),
            self.state().calls == s.calls,
            forall|d: usize| #[trigger] self.board.attached().contains(d) <==> s.attached(d),
        ensures
            self.wf(),
    {
        self.board.lemma_parts();
        let t = self.state();
        assert forall|d: usize| #[trigger] t.in_use(d) == s.in_use(d) by {}
        assert forall|d: usize| #[trigger] t.attached(d) == s.attached(d) by {}
        assert(s.cells.contains_key(e)) by {
            let c = choose|c: nat| s.calls.contains_key(c) && (#[trigger] s.calls[c]).entry == e;
        }
    }

    /// The call behind `guard` ends the computation that it runs with its value, and is over.
    fn finish(&mut self, guard: EntryGuard<()>, value: V) -> (result: V)
        requires
            sound_keys::<K, S>(),
            old(self).wf(),
            holds(old(self).state(), guard),
            guard.running(),
        ensures
            final(self).wf(),
            cloned(value, result),
            undisturbed(old(self).state(), final(self).state(), Some(guard.call())),
            final(self).state() == old(self).state().computed(guard.call(), value),
    {
        let ghost s = self.state();
        let entry: usize = guard.get_entry();
        self.board.set(entry, guard.get_call(), value);
        proof {
            assert(s.calls.contains_key(guard.call()));
            assert(s.in_use(entry));
            self.lemma_cell_changed(s, entry, CellState::Ready(value));
        }
        let stored: Option<V> = match self.board.value(entry) {
            Some(value) => Some(value.clone()),
            None => None,
        };
        self.leave(guard.stopped());
        stored.unwrap()
    }

    /// The call behind `guard` goes away without a result: its caller gave up, or the computation
    /// that it ran failed.
    ///
    /// Another call on the entry may compute the value then. Where there is none, the empty entry is
    /// removed.
    pub fn cancel(&mut self, guard: EntryGuard<()>)
        requires
            sound_keys::<K, S>(),
            old(self).wf(),
            holds(old(self).state(), guard),
        ensures
            final(self).wf(),
            final(self).state() == old(self).state().cancelled(guard.call()),
            undisturbed(old(self).state(), final(self).state(), Some(guard.call())),
    {
        let ghost s = self.state();
        let entry: usize = guard.get_entry();
        self.board.reset(entry, guard.get_call(), guard.is_running());
        proof {
            assert(s.calls.contains_key(guard.call()));
            assert(s.in_use(entry));
            if guard.running() {
                self.lemma_cell_changed(s, entry, CellState::Empty);
            }
            assert(self.state() =~= s.stopped(guard.call()));
        }
        self.leave(guard.stopped());
    }

    /// Compute the value for the given key if absent.
    ///
    /// If the value for the key is already being computed by another call, this call waits for the
    /// computation to finish and returns the result.
    ///
    /// If the computation is cancelled or panics (see [`OnceMap::cancel`]), another current caller
    /// may retry it. The empty entry is removed once no current callers remain.
    pub fn compute(&mut self, event: Event<K, (), V>) -> (turn: Turn<(), V>)
        requires
            sound_keys::<K, S>(),
            old(self).wf(),
            admits(old(self).state(), event),
        ensures
            final(self).wf(),
            turn_holds(final(self).state(), turn),
            undisturbed(old(self).state(), final(self).state(), event.own()),
            ({
                let s = old(self).state();
                let t = final(self).state();
                match event {
                    Event::Arrive(key) => arrives(s, key, key, (), t, turn, hands_clone()),
                    Event::Wake(guard) => wakes(s, guard, t, turn, hands_clone()),
                    Event::Finish(guard, value) => {
                        &&& turn matches Turn::Return(result)
                        &&& cloned(value, result)
                        &&& t == s.computed(guard.call(), value)
                    },
                }
            }),
    {
        match event {
            Event::Arrive(key) => self.arrive(key),
            Event::Wake(guard) => self.attempt(guard),
            Event::Finish(guard, value) => Turn::Return(self.finish(guard, value)),
        }
    }

    /// A new call about `key` begins.
    fn arrive(&mut self, key: K) -> (turn: Turn<(), V>)
        requires
            sound_keys::<K, S>(),
            old(self).wf(),
            has_room(old(self).state(), key),
        ensures
            final(self).wf(),
            turn_holds(final(self).state(), turn),
            arrives(old(self).state(), key, key, (), final(self).state(), turn, hands_clone()),
            undisturbed(old(self).state(), final(self).state(), None),
    {
        let ghost s = self.state();
        let guard = self.enter(key);
        let ghost c = guard.call();
        let ghost e = guard.entry();
        let ghost mid = self.state();
        let turn = self.attempt(guard);
        proof {
            let t = self.state();
            if turn is Return {
                lemma_dismissed(mid, c);
                assert(s.calls =~= mid.calls.remove(c));
                assert(t =~= s);
            } else if !s.keys.contains_key(key) {
                assert(t =~= s.opened(key, e, CellState::Running(c)).joined(c, key, e));
            }
        }
        turn
    }

    /// Compute the value for the given key if absent.
    ///
    /// If the value for the key is already being computed by another call, this call waits for the
    /// computation to finish and returns the result.
    ///
    /// If the computation fails, the error is returned and the value is not stored. Other calls
    /// waiting for the value will retry the computation. Once no current callers remain, the empty
    /// entry is removed.
    pub fn try_compute<E>(&mut self, event: Event<K, (), Result<V, E>>) -> (turn: Turn<
        (),
        Result<V, E>,
    >)
        requires
            sound_keys::<K, S>(),
            old(self).wf(),
            admits(old(self).state(), event),
        ensures
            final(self).wf(),
            turn_holds(final(self).state(), turn),
            undisturbed(old(self).state(), final(self).state(), event.own()),
            ({
                let s = old(self).state();
                let t = final(self).state();
                match event {
                    Event::Arrive(key) => arrives(s, key, key, (), t, turn, hands_ok()),
                    Event::Wake(guard) => wakes(s, guard, t, turn, hands_ok()),
                    Event::Finish(guard, Ok(value)) => {
                        &&& turn matches Turn::Return(Ok(result))
                        &&& cloned(value, result)
                        &&& t == s.computed(guard.call(), value)
                    },
                    Event::Finish(guard, Err(error)) => {
                        &&& turn == Turn::<(), Result<V, E>>::Return(Err(error))
                        &&& t == s.cancelled(guard.call())
                    },
                }
            }),
    {
        match event {
            Event::Arrive(key) => self.arrive(key).ok(),
            Event::Wake(guard) => self.attempt(guard).ok(),
            Event::Finish(guard, Ok(value)) => Turn::Return(Ok(self.finish(guard, value))),
            Event::Finish(guard, Err(error)) => {
                self.cancel(guard);
                Turn::Return(Err(error))
            },
        }
    }

    /// Get a clone of the value for the given key if exists.
    pub fn get<Q>(&self, key: &Q) -> (value: Option<V>) where
        K: Borrow<Q>,
        Q: Hash + Eq + ?Sized,

        requires
            sound_keys::<K, S>(),
            borrows_keys::<K, Q>(),
            self.wf(),
        ensures
            answers(self.state(), key, value),
    {
        let ghost s = self.state();
        match self.map.get(key) {
            Some(entry) => {
                let ghost k = choose|k: K|
                    s.keys.contains_key(k) && s.keys[k] == *entry && #[trigger] denotes(key, k);
                match self.board.value(*entry) {
                    Some(value) => Some(value.clone()),
                    None => None,
                }
            },
            None => None,
        }
    }

    /// The entry of `k` loses its key.
    fn detach(&mut self, entry: usize, k: Ghost<K>, s: Ghost<State<K, V>>)
        requires
            s@.valid(),
            s@.keyed(),
            s@.attended(),
            s@.keys.contains_key(k@),
            s@.keys[k@] == entry,
            old(self).board.wf(),
            forall|e: usize| #[trigger] old(self).board.attached().contains(e) <==> s@.attached(e),
            old(self).state() == (State { keys: s@.keys.remove(k@), ..s@ }),
        ensures
            final(self).wf(),
            final(self).state() == s@.detached(k@),
            undisturbed(s@, final(self).state(), None),
            elsewhere(s@, final(self).state(), k@),
            final(self).map == old(self).map,
    {
        proof {
            lemma_detached(s@, k@);
            lemma_in_use(s@, entry);
        }
        self.board.detach(entry);
        proof {
            self.board.lemma_parts();
            assert(self.state() =~= s@.detached(k@));
            lemma_detached_kept(s@, k@);
            let t = State { keys: s@.keys.remove(k@), ..s@ };
            assert forall|e: usize| #[trigger] self.state().attached(e) == t.attached(e) by {}
        }
    }

    /// Remove the given key from the map.
    ///
    /// If you need to get the value that has been removed, use the [`remove`] method instead.
    ///
    /// [`remove`]: Self::remove
    pub fn discard<Q>(&mut self, key: &Q) where K: Borrow<Q>, Q: Hash + Eq + ?Sized
        requires
            sound_keys::<K, S>(),
            borrows_keys::<K, Q>(),
            old(self).wf(),
        ensures
            final(self).wf(),
            final(self).state() == unbound(old(self).state(), key),
            !contains_borrowed_key(final(self).state().keys, key),
            undisturbed(old(self).state(), final(self).state(), None),
            ({
                let s = old(self).state();
                let t = final(self).state();
                ||| (forall|k: K| #[trigger] denotes(key, k) ==> !s.keys.contains_key(k)) && t == s
                ||| exists|k: K| #[trigger]
                    denotes(key, k) && s.keys.contains_key(k) && t == s.detached(k) && elsewhere(
                        s,
                        t,
                        k,
                    )
            }),
    {
        let ghost s = self.state();
        proof {
            lemma_unbound(s, key);
        }
        match self.map.remove(key) {
            Some(entry) => {
                let ghost k = choose|k: K|
                    s.keys.contains_key(k) && s.keys[k] == entry && #[trigger] denotes(key, k);
                assert(self.map@ =~= s.keys.remove(k));
                self.detach(entry, Ghost(k), Ghost(s));
            },
            None => {
                assert(self.state() =~= s);
            },
        }
    }

    /// Remove the given key from the map and return a *clone* of the value if exists.
    ///
    /// If you do not need to get the value that has been removed, use the [`discard`] method
    /// instead.
    ///
    /// [`discard`]: Self::discard
    pub fn remove<Q>(&mut self, key: &Q) -> (value: Option<V>) where
        K: Borrow<Q>,
        Q: Hash + Eq + ?Sized,

        requires
            sound_keys::<K, S>(),
            borrows_keys::<K, Q>(),
            old(self).wf(),
        ensures
            final(self).wf(),
            answers(old(self).state(), key, value),
            final(self).state() == unbound(old(self).state(), key),
            !contains_borrowed_key(final(self).state().keys, key),
            undisturbed(old(self).state(), final(self).state(), None),
            ({
                let s = old(self).state();
                let t = final(self).state();
                ||| (forall|k: K| #[trigger] denotes(key, k) ==> !s.keys.contains_key(k)) && t == s
                ||| exists|k: K| #[trigger]
                    denotes(key, k) && s.keys.contains_key(k) && t == s.detached(k) && elsewhere(
                        s,
                        t,
                        k,
                    )
            }),
    {
        let ghost s = self.state();
        proof {
            lemma_unbound(s, key);
        }
        match self.map.remove(key) {
            Some(entry) => {
                let ghost k = choose|k: K|
                    s.keys.contains_key(k) && s.keys[k] == entry && #[trigger] denotes(key, k);
                assert(self.map@ =~= s.keys.remove(k));
                let value: Option<V> = match self.board.value(entry) {
                    Some(value) => Some(value.clone()),
                    None => None,
                };
                self.detach(entry, Ghost(k), Ghost(s));
                value
            },
            None => {
                assert(self.state() =~= s);
                None
            },
        }
    }

    /// The number of calls that are under way on the entry of `key`.
    pub fn active_calls(&self, key: &K) -> (calls: usize)
        requires
            sound_keys::<K, S>(),
            self.wf(),
        ensures
            ({
                let s = self.state();
                calls == if s.keys.contains_key(*key) {
                    callers(s.calls, s.keys[*key]).len()
                } else {
                    0
                }
            }),
    {
        match self.map.get(key) {
            Some(entry) => {
                assert(self.state().keys.contains_key(*key));
                self.board.count(*entry)
            },
            None => 0,
        }
    }

    /// Each key with its value, where there is one, in no particular order.
    pub fn entries(&self) -> (entries: Vec<(&K, Option<&V>)>)
        requires
            sound_keys::<K, S>(),
            self.wf(),
        ensures
            lists(self.state(), entries@),
    {
        let ghost items = self.map.iter().remaining();
        let mut entries: Vec<(&K, Option<&V>)> = Vec::new();
        for item in iter: self.map.iter()
            invariant
                sound_keys::<K, S>(),
                self.wf(),
                items == self.map.iter().remaining(),
                iter.seq() == items,
                items.no_duplicates(),
                entries@.len() == iter.index(),
                forall|i: int|
                    0 <= i < entries@.len() ==> {
                        &&& #[trigger] entries@[i].0 == items[i].0
                        &&& self.state().stored(*entries@[i].0) == match entries@[i].1 {
                            Some(value) => Some(*value),
                            None => None,
                        }
                    },
        {
            let entry: usize = *item.1;
            assert(self.state().keys.contains_key(*item.0));
            entries.push((item.0, self.board.value(entry)));
        }
        proof {
            lemma_lists(self.state(), items, entries@);
        }
        entries
    }
}

impl<K, V, S> Default for OnceMap<K, V, S> where
    K: Eq + Hash,
    V: Clone,
    S: BuildHasher + Clone + Default,
 {
    /// Creates a new OnceMap with a hasher of its own.
    fn default() -> (map: Self)
        ensures
            map.wf(),
            map.state() == State::<K, V>::empty(),
    {
        Self::with_hasher(S::default())
    }
}

/// The value that comes last with key `k` in `items`.
pub open spec fn last_value<K, V>(items: Seq<(K, V)>, k: K) -> Option<V>
    decreases items.len(),
{
    if items.len() == 0 {
        None
    } else if items.last().0 == k {
        Some(items.last().1)
    } else {
        last_value(items.drop_last(), k)
    }
}

/// The value that comes last with a key is that of the last item with it.
pub proof fn lemma_last_value<K, V>(items: Seq<(K, V)>, i: int)
    requires
        0 <= i < items.len(),
        forall|j: int| i < j < items.len() ==> (#[trigger] items[j]).0 != items[i].0,
    ensures
        last_value(items, items[i].0) == Some(items[i].1),
    decreases items.len(),
{
    if i < items.len() - 1 {
        let rest = items.drop_last();
        assert(items[items.len() - 1].0 != items[i].0);
        assert forall|j: int| i < j < rest.len() implies (#[trigger] rest[j]).0 != rest[i].0 by {
            assert(items[j].0 != items[i].0);
        }
        lemma_last_value(rest, i);
    }
}

impl<K, V, S> OnceMap<K, V, S> where
    K: Eq + Hash + Clone,
    V: Clone,
    S: Default + BuildHasher + Clone,
 {
    /// Stores `value` for `key`, in place of what was there.
    fn put(&mut self, key: K, value: V)
        requires
            sound_keys::<K, S>(),
            old(self).wf(),
            old(self).state().calls == Map::<nat, CallState<K>>::empty(),
        ensures
            final(self).wf(),
            final(self).state().calls == Map::<nat, CallState<K>>::empty(),
            final(self).state().keys.dom() == old(self).state().keys.dom().insert(key),
            forall|k: K| #[trigger]
                final(self).state().stored(k) == if k == key {
                    Some(value)
                } else {
                    old(self).state().stored(k)
                },
    {
        let ghost s = self.state();
        let ghost v = value;
        let entry: usize = self.board.attach(Entry::from_value(value));
        match self.map.insert(key, entry) {
            Some(before) => {
                proof {
                    lemma_in_use(self.state(), before);
                }
                self.board.detach(before);
            },
            None => {},
        }
        proof {
            self.board.lemma_parts();
            let t = self.state();
            assert(t.keys =~= s.keys.insert(key, entry));
            assert(t.keys[key] == entry);
            assert forall|e: usize| #[trigger]
                self.board.attached().contains(e) <==> t.attached(e) by {
                if self.board.attached().contains(e) && e != entry {
                    assert(s.attached(e));
                    let j = choose|j: K| s.keys.contains_key(j) && #[trigger] s.keys[j] == e;
                    assert(t.keys[j] == e);
                }
                if t.attached(e) && e != entry {
                    let j = choose|j: K| t.keys.contains_key(j) && #[trigger] t.keys[j] == e;
                    assert(s.keys[j] == e);
                    assert(s.attached(e));
                }
            }
            assert forall|j: K, k: K|
                t.keys.contains_key(j) && t.keys.contains_key(k) && #[trigger] t.keys[j]
                    == #[trigger] t.keys[k] implies j == k by {
                if j != key && k != key {
                    assert(s.keys[j] == s.keys[k]);
                }
            }
            assert(t.keys.dom() =~= s.keys.dom().insert(key));
            assert forall|k: K| #[trigger] t.keys.contains_key(k) implies t.cells[t.keys[k]] is Ready by {
                if k != key {
                    assert(t.keys[k] == s.keys[k]);
                    assert(s.keys.contains_key(k));
                    assert(!s.in_use(s.keys[k]));
                }
            }
            assert forall|e: usize| #[trigger] t.cells.contains_key(e) implies t.attached(e) by {
                assert(callers(t.calls, e) =~= Set::<nat>::empty());
            }
            assert forall|k: K| #[trigger] t.stored(k) == if k == key {
                Some(v)
            } else {
                s.stored(k)
            } by {
                if k != key && s.keys.contains_key(k) {
                    assert(t.keys[k] == s.keys[k]);
                    if s.keys.contains_key(key) {
                        assert(s.keys[k] != s.keys[key]);
                    }
                }
            }
        }
    }

    /// Creates a OnceMap that stores each of `items`. Of those with one key it stores the last.
    pub fn from_iter(items: Vec<(K, V)>) -> (map: Self)
        requires
            sound_keys::<K, S>(),
        ensures
            map.wf(),
            begins(map.state()),
            forall|k: K| #[trigger]
                map.state().keys.contains_key(k) <==> last_value(items@, k) is Some,
            forall|k: K| #[trigger] map.state().stored(k) == last_value(items@, k),
            forall|i: int|
                #![trigger items@[i]]
                0 <= i < items@.len() && (forall|j: int|
                    i < j < items@.len() ==> (#[trigger] items@[j]).0 != items@[i].0)
                    ==> map.state().stored(items@[i].0) == Some(items@[i].1),
    {
        let mut map: Self = Self::with_hasher(S::default());
        let ghost all = items@;
        for item in iter: items
            invariant
                sound_keys::<K, S>(),
                iter.seq() == all,
                map.wf(),
                map.state().calls == Map::<nat, CallState<K>>::empty(),
                forall|k: K| #[trigger]
                    map.state().keys.contains_key(k) <==> last_value(
                        all.take(iter.index()),
                        k,
                    ) is Some,
                forall|k: K| #[trigger]
                    map.state().stored(k) == last_value(all.take(iter.index()), k),
        {
            proof {
                assert(all.take(iter.index() + 1).drop_last() =~= all.take(iter.index()));
            }
            map.put(item.0, item.1);
        }
        assert(all.take(all.len() as int) =~= all);
        proof {
            assert forall|i: int|
                #![trigger all[i]]
                0 <= i < all.len() && (forall|j: int|
                    i < j < all.len() ==> (#[trigger] all[j]).0 != all[i].0) implies map.state().stored(
                all[i].0,
            ) == Some(all[i].1) by {
                lemma_last_value(all, i);
            }
        }
        map
    }
}

} // verus!
