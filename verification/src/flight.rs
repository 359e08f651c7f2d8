//! The course of one call: what happens to it, and what it does next.
//!
//! A call on a map of computations is a conversation. The map is told what happened, and answers
//! with what the caller has to do before there is something to tell again: run the computation,
//! wait until another call ends, or return.

use vstd::prelude::*;

use crate::state::CellState;
use crate::state::State;
use crate::state::callers;

verus! {

/// Keeps an entry for a call that is under way on it.
///
/// It is handed back when the caller has something to tell, or when the caller goes away.
pub struct EntryGuard<T> {
    tag: T,
    entry: usize,
    running: bool,
    call: Ghost<nat>,
}

impl<T> EntryGuard<T> {
    /// What the map keeps with the call.
    pub closed spec fn tag(&self) -> T {
        self.tag
    }

    /// The entry.
    pub closed spec fn entry(&self) -> usize {
        self.entry
    }

    /// Whether the call is to compute the value of the entry.
    pub closed spec fn running(&self) -> bool {
        self.running
    }

    /// The name of the call.
    pub closed spec fn call(&self) -> nat {
        self.call@
    }

    /// A guard for `call` on `entry`.
    pub(crate) fn new(tag: T, entry: usize, running: bool, call: Ghost<nat>) -> (guard: Self)
        ensures
            guard.tag() == tag,
            guard.entry() == entry,
            guard.running() == running,
            guard.call() == call@,
    {
        EntryGuard { tag, entry, running, call }
    }

    /// The same guard, for a call that is to compute the value of the entry.
    pub(crate) fn started(self) -> (guard: Self)
        ensures
            guard.tag() == self.tag(),
            guard.entry() == self.entry(),
            guard.running(),
            guard.call() == self.call(),
    {
        EntryGuard { tag: self.tag, entry: self.entry, running: true, call: self.call }
    }

    /// The same guard, for a call that is not to compute the value of the entry any more.
    pub(crate) fn stopped(self) -> (guard: Self)
        ensures
            guard.tag() == self.tag(),
            guard.entry() == self.entry(),
            !guard.running(),
            guard.call() == self.call(),
    {
        EntryGuard { tag: self.tag, entry: self.entry, running: false, call: self.call }
    }

    /// What the map keeps with the call.
    pub(crate) fn get_tag(&self) -> (tag: &T)
        ensures
            *tag == self.tag(),
    {
        &self.tag
    }

    /// The entry.
    pub(crate) fn get_entry(&self) -> (entry: usize)
        ensures
            entry == self.entry(),
    {
        self.entry
    }

    /// The name of the call.
    pub(crate) fn get_call(&self) -> (call: Ghost<nat>)
        ensures
            call@ == self.call(),
    {
        self.call
    }

    /// Whether the caller has to run the computation.
    pub fn is_running(&self) -> (running: bool)
        ensures
            running == self.running(),
    {
        self.running
    }
}

/// What happened to a call.
pub enum Event<K, T, R> {
    /// It begins, with this key.
    Arrive(K),
    /// It waited, and the computation of another call on its entry ended.
    Wake(EntryGuard<T>),
    /// It ran the computation, which came to this result.
    Finish(EntryGuard<T>, R),
}

impl<K, T, R> Event<K, T, R> {
    /// The name of the call that this happens to, unless the call is only beginning.
    pub open spec fn own(self) -> Option<nat> {
        match self {
            Event::Arrive(_) => None,
            Event::Wake(guard) => Some(guard.call()),
            Event::Finish(guard, _) => Some(guard.call()),
        }
    }
}

/// What a call does next.
pub enum Turn<T, R> {
    /// It runs the computation, and reports the end of it.
    Run(EntryGuard<T>),
    /// It waits until another call on its entry ends.
    Wait(EntryGuard<T>),
    /// It returns this to its caller, and is over.
    Return(R),
}

impl<T, V> Turn<T, V> {
    /// The same turn, where a value that is returned is a success.
    pub fn ok<E>(self) -> (turn: Turn<T, Result<V, E>>)
        ensures
            turn == match self {
                Turn::Run(guard) => Turn::<T, Result<V, E>>::Run(guard),
                Turn::Wait(guard) => Turn::Wait(guard),
                Turn::Return(value) => Turn::Return(Ok(value)),
            },
    {
        match self {
            Turn::Run(guard) => Turn::Run(guard),
            Turn::Wait(guard) => Turn::Wait(guard),
            Turn::Return(value) => Turn::Return(Ok(value)),
        }
    }
}

/// `guard` belongs to a call that is under way in `s`.
pub open spec fn holds<K, V, T>(s: State<K, V>, guard: EntryGuard<T>) -> bool {
    &&& s.calls.contains_key(guard.call())
    &&& s.calls[guard.call()].entry == guard.entry()
    &&& guard.running() <==> s.cells[guard.entry()] == CellState::<V>::Running(guard.call())
}

/// A guard that `turn` hands out belongs to a call that is under way in `s`, and says that the call
/// is to run the computation where the turn does.
pub open spec fn turn_holds<K, V, T, R>(s: State<K, V>, turn: Turn<T, R>) -> bool {
    match turn {
        Turn::Run(guard) => holds(s, guard) && guard.running(),
        Turn::Wait(guard) => holds(s, guard) && !guard.running(),
        Turn::Return(_) => true,
    }
}

/// There is room for one more call on the entry of `k`: the calls that are under way on it can be
/// counted with one more, as they can where this holds of all calls together.
pub open spec fn has_room<K, V>(s: State<K, V>, k: K) -> bool {
    ||| s.calls.len() < usize::MAX
    ||| s.keys.contains_key(k) ==> callers(s.calls, s.keys[k]).len() < usize::MAX
}

/// Where there is room, the calls on the entry of `k` can be counted with one more.
pub proof fn lemma_has_room<K, V>(s: State<K, V>, k: K)
    requires
        has_room(s, k),
        s.calls.dom().finite(),
    ensures
        s.keys.contains_key(k) ==> callers(s.calls, s.keys[k]).len() < usize::MAX,
{
    vstd::set_lib::lemma_len_subset(callers(s.calls, s.keys[k]), s.calls.dom());
}

/// A new call about `key`, for which the map looks under `k`, takes `s` to `t`. What it does next is
/// `turn`, where `hands(v, r)` says that result `r` hands value `v` to the caller.
///
/// The call runs the computation where there is neither a value nor another call that runs it, for
/// which it makes an entry where `k` has none. It waits where another call runs it. It returns the
/// value where there is one.
pub open spec fn arrives<K, V, T, R>(
    s: State<K, V>,
    key: K,
    k: K,
    tag: T,
    t: State<K, V>,
    turn: Turn<T, R>,
    hands: spec_fn(V, R) -> bool,
) -> bool {
    if !s.keys.contains_key(k) {
        &&& turn matches Turn::Run(guard)
        &&& guard.tag() == tag
        &&& guard.running()
        &&& !s.cells.contains_key(guard.entry())
        &&& !s.calls.contains_key(guard.call())
        &&& t == s.arrived(key, k, guard.call(), guard.entry())
    } else {
        match s.cells[s.keys[k]] {
            CellState::Empty => {
                &&& turn matches Turn::Run(guard)
                &&& guard.tag() == tag
                &&& guard.running()
                &&& guard.entry() == s.keys[k]
                &&& !s.calls.contains_key(guard.call())
                &&& t == s.arrived(key, k, guard.call(), guard.entry())
            },
            CellState::Running(_) => {
                &&& turn matches Turn::Wait(guard)
                &&& guard.tag() == tag
                &&& !guard.running()
                &&& guard.entry() == s.keys[k]
                &&& !s.calls.contains_key(guard.call())
                &&& t == s.arrived(key, k, guard.call(), guard.entry())
            },
            CellState::Ready(v) => {
                &&& turn matches Turn::Return(r)
                &&& hands(v, r)
                &&& t == s
            },
        }
    }
}

/// The call behind `guard` looks again, which takes `s` to `t`, and does `turn` next.
///
/// It returns the value where there is one by now. It runs the computation where the call that ran
/// it ended without a value, and waits on where another call runs it.
pub open spec fn wakes<K, V, T, R>(
    s: State<K, V>,
    guard: EntryGuard<T>,
    t: State<K, V>,
    turn: Turn<T, R>,
    hands: spec_fn(V, R) -> bool,
) -> bool {
    &&& t == s.looked(guard.call())
    &&& match s.cells[guard.entry()] {
        CellState::Empty => {
            &&& turn matches Turn::Run(next)
            &&& next.tag() == guard.tag()
            &&& next.running()
            &&& next.entry() == guard.entry()
            &&& next.call() == guard.call()
        },
        CellState::Running(_) => turn == Turn::<T, R>::Wait(guard),
        CellState::Ready(v) => turn matches Turn::Return(r) && hands(v, r),
    }
}

/// A result that is a clone of the value.
pub open spec fn hands_clone<V: Clone>() -> spec_fn(V, V) -> bool {
    |v: V, r: V| cloned(v, r)
}

/// A result that is a success with a clone of the value.
pub open spec fn hands_ok<V: Clone, E>() -> spec_fn(V, Result<V, E>) -> bool {
    |v: V, r: Result<V, E>| r matches Ok(x) && cloned(v, x)
}

} // verus!
