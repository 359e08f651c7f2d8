//! The entries of a map of computations, and the calls that are under way on them.

use vstd::prelude::*;

use crate::once::Entry;
use crate::state::CallState;
use crate::state::CellState;
use crate::state::callers;
use crate::state::lemma_callers_insert;
use crate::state::lemma_callers_remove;

verus! {

/// An entry, and whether a key refers to it.
struct Slot<V> {
    entry: Entry<V>,
    attached: bool,
}

/// The entries that a key or a call refers to, each in a slot of its own.
///
/// A slot is given to another entry only when neither a key nor a call refers to the one that it
/// held, so for whoever refers to an entry the slot's number is its identity.
#[verifier::reject_recursive_types(K)]
pub(crate) struct Board<K, V> {
    slots: Vec<Option<Slot<V>>>,
    free: Vec<usize>,
    calls: Ghost<Map<nat, CallState<K>>>,
    next: Ghost<nat>,
}

impl<K, V> Board<K, V> {
    /// Whether slot `e` holds an entry.
    spec fn live(&self, e: usize) -> bool {
        e < self.slots@.len() && self.slots@[e as int] is Some
    }

    /// The cells of the entries.
    pub(crate) closed spec fn cells(&self) -> Map<usize, CellState<V>> {
        Map::new(|e: usize| self.live(e), |e: usize| self.slots@[e as int]->0.entry.cell())
    }

    /// The entries that a key refers to.
    pub(crate) closed spec fn attached(&self) -> Set<usize> {
        Set::new(|e: usize| self.live(e) && self.slots@[e as int]->0.attached)
    }

    /// The calls under way.
    pub(crate) closed spec fn calls(&self) -> Map<nat, CallState<K>> {
        self.calls@
    }

    /// What every operation keeps.
    pub(crate) closed spec fn wf(&self) -> bool {
        &&& self.sound()
        &&& forall|e: usize| #[trigger] self.live(e) ==> self.referenced(e)
    }

    /// Whether a key or a call refers to entry `e`.
    spec fn referenced(&self, e: usize) -> bool {
        let slot = self.slots@[e as int]->0;
        slot.attached || slot.entry.active_calls() > 0
    }

    /// What every operation keeps, apart from that something refers to each entry.
    spec fn sound(&self) -> bool {
        &&& forall|i: int|
            0 <= i < self.free@.len() ==> (#[trigger] self.free@[i]) < self.slots@.len()
                && self.slots@[self.free@[i] as int] is None
        &&& forall|i: int, j: int|
            0 <= i < j < self.free@.len() ==> self.free@[i] != self.free@[j]
        &&& forall|e: usize|
            e < self.slots@.len() && (#[trigger] self.slots@[e as int]) is None
                ==> self.free@.contains(e)
        &&& forall|e: usize| #[trigger]
            self.live(e) ==> {
                let slot = self.slots@[e as int]->0;
                &&& slot.entry.active_calls() == callers(self.calls@, e).len()
                &&& slot.entry.cell() matches CellState::Running(c) ==> self.calls@.contains_key(c)
                    && self.calls@[c].entry == e
            }
        &&& self.calls@.dom().finite()
        &&& forall|c: nat| #[trigger]
            self.calls@.contains_key(c) ==> c < self.next@ && self.live(self.calls@[c].entry)
    }

    /// What a well formed board says of its parts.
    pub(crate) proof fn lemma_parts(&self)
        requires
            self.wf(),
        ensures
            self.calls().dom().finite(),
            forall|e: usize| #[trigger]
                self.attached().contains(e) ==> self.cells().contains_key(e),
            forall|c: nat| #[trigger]
                self.calls().contains_key(c) ==> self.cells().contains_key(self.calls()[c].entry),
            forall|e: usize| #[trigger]
                self.cells().contains_key(e) ==> self.attached().contains(e) || callers(
                    self.calls(),
                    e,
                ).len() > 0,
            forall|e: usize| #[trigger]
                self.cells().contains_key(e) ==> (self.cells()[e] matches CellState::Running(c)
                    ==> self.calls().contains_key(c) && self.calls()[c].entry == e),
    {
        assert forall|c: nat| #[trigger] self.calls().contains_key(c) implies self.cells().contains_key(
            self.calls()[c].entry,
        ) by {
            assert(self.live(self.calls@[c].entry));
        }
        assert forall|e: usize| #[trigger] self.cells().contains_key(e) implies self.live(e) by {}
    }

    /// Creates a board without entries and calls.
    pub(crate) fn new() -> (board: Self)
        ensures
            board.wf(),
            board.cells() == Map::<usize, CellState<V>>::empty(),
            board.attached() == Set::<usize>::empty(),
            board.calls() == Map::<nat, CallState<K>>::empty(),
    {
        let board = Board {
            slots: Vec::new(),
            free: Vec::new(),
            calls: Ghost(Map::empty()),
            next: Ghost(0),
        };
        assert(board.cells() =~= Map::<usize, CellState<V>>::empty());
        assert(board.attached() =~= Set::<usize>::empty());
        board
    }

    /// Takes in `entry`, which a key is about to refer to, and returns its slot.
    pub(crate) fn attach(&mut self, entry: Entry<V>) -> (e: usize)
        requires
            old(self).wf(),
            entry.active_calls() == 0,
            !(entry.cell() is Running),
        ensures
            final(self).wf(),
            !old(self).cells().contains_key(e),
            final(self).cells() == old(self).cells().insert(e, entry.cell()),
            final(self).attached() == old(self).attached().insert(e),
            final(self).calls() == old(self).calls(),
    {
        let ghost cell = entry.cell();
        let slot = Slot { entry, attached: true };
        let e: usize = match self.free.pop() {
            Some(e) => {
                self.slots[e] = Some(slot);
                e
            },
            None => {
                let e: usize = self.slots.len();
                self.slots.push(Some(slot));
                e
            },
        };
        proof {
            assert(!old(self).live(e));
            assert(self.live(e));
            assert(forall|d: usize| d != e ==> self.live(d) == old(self).live(d));
            assert(forall|d: usize|
                #![trigger self.slots@[d as int]]
                d != e && old(self).live(d) ==> self.slots@[d as int] == old(self).slots@[d as int]);
            assert(callers(self.calls@, e) =~= Set::<nat>::empty()) by {
                assert forall|c: nat| !callers(self.calls@, e).contains(c) by {
                    if self.calls@.contains_key(c) {
                        assert(old(self).live(self.calls@[c].entry));
                    }
                }
            }
            assert(self.cells() =~= old(self).cells().insert(e, cell));
            assert(self.attached() =~= old(self).attached().insert(e));
            assert forall|d: usize|
                d < self.slots@.len() && (#[trigger] self.slots@[d as int]) is None implies self.free@.contains(
            d) by {
                assert(old(self).slots@[d as int] is None);
                let i = choose|i: int| 0 <= i < old(self).free@.len() && old(self).free@[i] == d;
                assert(self.free@[i] == d);
            }
        }
        e
    }

    /// Lets a new call enter entry `e`, and returns its name.
    pub(crate) fn enter(&mut self, e: usize, key: Ghost<K>) -> (c: Ghost<nat>)
        requires
            old(self).wf(),
            old(self).cells().contains_key(e),
            callers(old(self).calls(), e).len() < usize::MAX,
        ensures
            final(self).wf(),
            !old(self).calls().contains_key(c@),
            final(self).cells() == old(self).cells(),
            final(self).attached() == old(self).attached(),
            final(self).calls() == old(self).calls().insert(
                c@,
                CallState { key: key@, entry: e },
            ),
    {
        assert(self.live(e));
        let c: Ghost<nat> = Ghost(self.next@);
        match &mut self.slots[e] {
            Some(slot) => slot.entry.acquire(),
            None => {},
        }
        self.calls = Ghost(self.calls@.insert(c@, CallState { key: key@, entry: e }));
        self.next = Ghost(self.next@ + 1);
        proof {
            lemma_callers_insert(old(self).calls@, c@, CallState { key: key@, entry: e });
            self.lemma_one_slot_changed(*old(self), e);
        }
        c
    }

    /// A change of one entry leaves the others, and which slots are in use.
    proof fn lemma_one_slot_changed(&self, before: Self, e: usize)
        requires
            before.live(e),
            self.live(e),
            self.slots@ == before.slots@.update(e as int, self.slots@[e as int]),
        ensures
            forall|d: usize| #[trigger] self.live(d) == before.live(d),
            forall|d: usize|
                #![trigger self.slots@[d as int]]
                d != e && before.live(d) ==> self.slots@[d as int] == before.slots@[d as int],
            self.cells() == before.cells().insert(e, self.slots@[e as int]->0.entry.cell()),
            self.slots@[e as int]->0.attached == before.slots@[e as int]->0.attached
                ==> self.attached() == before.attached(),
            self.slots@[e as int]->0.entry.cell() == before.slots@[e as int]->0.entry.cell()
                ==> self.cells() == before.cells(),
    {
        assert(self.cells() =~= before.cells().insert(e, self.slots@[e as int]->0.entry.cell()));
        if self.slots@[e as int]->0.attached == before.slots@[e as int]->0.attached {
            assert(self.attached() =~= before.attached());
        }
        if self.slots@[e as int]->0.entry.cell() == before.slots@[e as int]->0.entry.cell() {
            assert(self.cells() =~= before.cells());
        }
    }

    /// Starts the computation of the value of entry `e` on behalf of call `c`, where none runs and
    /// there is no value. Tells whether it did.
    pub(crate) fn begin(&mut self, e: usize, c: Ghost<nat>) -> (started: bool)
        requires
            old(self).wf(),
            old(self).calls().contains_key(c@),
            old(self).calls()[c@].entry == e,
        ensures
            final(self).wf(),
            started <==> old(self).cells()[e] is Empty,
            final(self).cells() == if started {
                old(self).cells().insert(e, CellState::Running(c@))
            } else {
                old(self).cells()
            },
            final(self).attached() == old(self).attached(),
            final(self).calls() == old(self).calls(),
    {
        assert(self.live(e));
        let started = match &mut self.slots[e] {
            Some(slot) => slot.entry.begin(c),
            None => false,
        };
        proof {
            self.lemma_one_slot_changed(*old(self), e);
        }
        started
    }

    /// Ends the computation that call `c` runs on entry `e` with its value.
    pub(crate) fn set(&mut self, e: usize, c: Ghost<nat>, value: V)
        requires
            old(self).wf(),
            old(self).calls().contains_key(c@),
            old(self).calls()[c@].entry == e,
            old(self).cells()[e] == CellState::<V>::Running(c@),
        ensures
            final(self).wf(),
            final(self).cells() == old(self).cells().insert(e, CellState::Ready(value)),
            final(self).attached() == old(self).attached(),
            final(self).calls() == old(self).calls(),
    {
        assert(self.live(e));
        match &mut self.slots[e] {
            Some(slot) => slot.entry.set(value),
            None => {},
        }
        proof {
            self.lemma_one_slot_changed(*old(self), e);
        }
    }

    /// Ends the computation that call `c` runs on entry `e` without a value. Where `c` runs none,
    /// nothing changes.
    pub(crate) fn reset(&mut self, e: usize, c: Ghost<nat>, running: bool)
        requires
            old(self).wf(),
            old(self).calls().contains_key(c@),
            old(self).calls()[c@].entry == e,
            running <==> old(self).cells()[e] == CellState::<V>::Running(c@),
        ensures
            final(self).wf(),
            final(self).cells() == if running {
                old(self).cells().insert(e, CellState::Empty)
            } else {
                old(self).cells()
            },
            final(self).attached() == old(self).attached(),
            final(self).calls() == old(self).calls(),
    {
        if running {
            assert(self.live(e));
            match &mut self.slots[e] {
                Some(slot) => slot.entry.reset(),
                None => {},
            }
            proof {
                self.lemma_one_slot_changed(*old(self), e);
            }
        }
    }

    /// Gives the slot of entry `e` back where neither a key nor a call refers to the entry.
    fn reclaim(&mut self, e: usize)
        requires
            old(self).sound(),
            old(self).live(e),
            forall|d: usize| #[trigger] old(self).live(d) && d != e ==> old(self).referenced(d),
        ensures
            final(self).wf(),
            final(self).cells() == if old(self).attached().contains(e) || callers(
                old(self).calls(),
                e,
            ).len() > 0 {
                old(self).cells()
            } else {
                old(self).cells().remove(e)
            },
            final(self).attached() == old(self).attached(),
            final(self).calls() == old(self).calls(),
    {
        let idle = match &self.slots[e] {
            Some(slot) => !slot.attached && slot.entry.count() == 0,
            None => false,
        };
        if idle {
            self.slots[e] = None;
            self.free.push(e);
            proof {
                assert(!self.live(e));
                assert(forall|d: usize| d != e ==> self.live(d) == old(self).live(d));
                assert(self.cells() =~= old(self).cells().remove(e));
                assert(self.attached() =~= old(self).attached());
                assert forall|c: nat| #[trigger] self.calls@.contains_key(c) implies self.live(
                    self.calls@[c].entry,
                ) by {
                    assert(old(self).live(self.calls@[c].entry));
                    if self.calls@[c].entry == e {
                        assert(callers(self.calls@, e).contains(c));
                        assert(callers(self.calls@, e).len() > 0);
                    }
                }
                assert forall|d: usize|
                    d < self.slots@.len() && (#[trigger] self.slots@[d as int]) is None implies self.free@.contains(
                d) by {
                    let n = old(self).free@.len() as int;
                    if d == e {
                        assert(self.free@[n] == d);
                    } else {
                        assert(old(self).slots@[d as int] is None);
                        let i = choose|i: int| 0 <= i < n && old(self).free@[i] == d;
                        assert(self.free@[i] == d);
                    }
                }
            }
        }
    }

    /// Ends the reference that a key holds to entry `e`.
    pub(crate) fn detach(&mut self, e: usize)
        requires
            old(self).wf(),
            old(self).cells().contains_key(e),
        ensures
            final(self).wf(),
            final(self).cells() == if callers(old(self).calls(), e).len() > 0 {
                old(self).cells()
            } else {
                old(self).cells().remove(e)
            },
            final(self).attached() == old(self).attached().remove(e),
            final(self).calls() == old(self).calls(),
    {
        assert(self.live(e));
        match &mut self.slots[e] {
            Some(slot) => {
                slot.attached = false;
            },
            None => {},
        }
        proof {
            self.lemma_one_slot_changed(*old(self), e);
            assert(self.attached() =~= old(self).attached().remove(e));
        }
        self.reclaim(e);
    }

    /// Ends call `c` on entry `e`. Tells whether a key still refers to the entry, though it has no
    /// value and no call is left that could compute one.
    pub(crate) fn exit(&mut self, e: usize, c: Ghost<nat>) -> (abandoned: bool)
        requires
            old(self).wf(),
            old(self).calls().contains_key(c@),
            old(self).calls()[c@].entry == e,
            old(self).cells()[e] != CellState::<V>::Running(c@),
        ensures
            final(self).wf(),
            final(self).cells() == if old(self).attached().contains(e) || callers(
                final(self).calls(),
                e,
            ).len() > 0 {
                old(self).cells()
            } else {
                old(self).cells().remove(e)
            },
            final(self).attached() == old(self).attached(),
            final(self).calls() == old(self).calls().remove(c@),
            abandoned <==> old(self).attached().contains(e) && !(old(self).cells()[e] is Ready)
                && callers(final(self).calls(), e).len() == 0,
    {
        assert(self.live(e));
        proof {
            lemma_callers_remove(self.calls@, c@);
        }
        let abandoned = match &mut self.slots[e] {
            Some(slot) => {
                let last = slot.entry.release();
                last && slot.attached && slot.entry.get().is_none()
            },
            None => false,
        };
        self.calls = Ghost(self.calls@.remove(c@));
        proof {
            self.lemma_one_slot_changed(*old(self), e);
        }
        self.reclaim(e);
        abandoned
    }

    /// The value of entry `e`, if there is one.
    pub(crate) fn value(&self, e: usize) -> (value: Option<&V>)
        requires
            self.wf(),
            self.cells().contains_key(e),
        ensures
            match value {
                Some(v) => self.cells()[e] == CellState::Ready(*v),
                None => !(self.cells()[e] is Ready),
            },
    {
        assert(self.live(e));
        match &self.slots[e] {
            Some(slot) => slot.entry.get(),
            None => None,
        }
    }

    /// The number of calls under way on entry `e`.
    pub(crate) fn count(&self, e: usize) -> (calls: usize)
        requires
            self.wf(),
            self.cells().contains_key(e),
        ensures
            calls == callers(self.calls(), e).len(),
    {
        assert(self.live(e));
        match &self.slots[e] {
            Some(slot) => slot.entry.count(),
            None => 0,
        }
    }
}

} // verus!
