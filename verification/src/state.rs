//! The states of a map of computations, and how they change.
//!
//! A key refers to an entry, a call is under way on an entry, and the cell of an entry holds what
//! became of the computation.

use vstd::prelude::*;

verus! {

/// What the cell of an entry holds.
pub enum CellState<V> {
    /// No value, and nobody computes one.
    Empty,
    /// No value, and this call computes one.
    Running(nat),
    /// The value.
    Ready(V),
}

/// A call that is under way.
pub struct CallState<K> {
    /// The key that it is about.
    pub key: K,
    /// The entry that it waits on or computes.
    pub entry: usize,
}

/// One of `keys` refers to entry `e`.
pub open spec fn refers<K>(keys: Map<K, usize>, e: usize) -> bool {
    exists|k: K| keys.contains_key(k) && #[trigger] keys[k] == e
}

/// One of `calls` is on entry `e`.
pub open spec fn employs<K>(calls: Map<nat, CallState<K>>, e: usize) -> bool {
    exists|c: nat| calls.contains_key(c) && (#[trigger] calls[c]).entry == e
}

/// The state of a map of computations.
///
/// An entry lives while a key or a call refers to it.
#[verifier::ext_equal]
#[verifier::reject_recursive_types(K)]
pub struct State<K, V> {
    /// The entry that each key refers to.
    pub keys: Map<K, usize>,
    /// The cell of each entry.
    pub cells: Map<usize, CellState<V>>,
    /// The calls under way, by name.
    pub calls: Map<nat, CallState<K>>,
}

impl<K, V> State<K, V> {
    /// Without keys, entries and calls.
    pub open spec fn empty() -> Self {
        State { keys: Map::empty(), cells: Map::empty(), calls: Map::empty() }
    }

    /// Whether a key refers to entry `e`.
    pub open spec fn attached(self, e: usize) -> bool {
        refers(self.keys, e)
    }

    /// Whether a call is under way on entry `e`.
    pub open spec fn in_use(self, e: usize) -> bool {
        employs(self.calls, e)
    }

    /// Without the entries that nothing refers to.
    pub open spec fn reclaimed(self) -> Self {
        State {
            cells: Map::new(
                |e: usize| self.cells.contains_key(e) && (self.attached(e) || self.in_use(e)),
                |e: usize| self.cells[e],
            ),
            ..self
        }
    }

    /// Each key and each call has its entry, no two keys share one, and what computes the value of an
    /// entry is a call on it.
    pub open spec fn sound(self) -> bool {
        &&& forall|k: K| #[trigger]
            self.keys.contains_key(k) ==> self.cells.contains_key(self.keys[k])
        &&& forall|j: K, k: K|
            self.keys.contains_key(j) && self.keys.contains_key(k) && #[trigger] self.keys[j]
                == #[trigger] self.keys[k] ==> j == k
        &&& forall|c: nat| #[trigger]
            self.calls.contains_key(c) ==> self.cells.contains_key(self.calls[c].entry)
        &&& forall|e: usize| #[trigger]
            self.cells.contains_key(e) ==> (self.cells[e] matches CellState::Running(c)
                ==> self.calls.contains_key(c) && self.calls[c].entry == e)
        &&& self.calls.dom().finite()
    }

    /// What holds of every state: it is sound, and a key or a call refers to each entry.
    pub open spec fn valid(self) -> bool {
        &&& self.sound()
        &&& forall|e: usize| #[trigger]
            self.cells.contains_key(e) ==> self.attached(e) || self.in_use(e)
    }

    /// Call `c` about `key` enters entry `e`.
    pub open spec fn joined(self, c: nat, key: K, e: usize) -> Self {
        State { calls: self.calls.insert(c, CallState { key, entry: e }), ..self }
    }

    /// Key `k` refers to the new entry `e`, whose cell holds `cell`.
    pub open spec fn opened(self, k: K, e: usize, cell: CellState<V>) -> Self {
        State { keys: self.keys.insert(k, e), cells: self.cells.insert(e, cell), ..self }
    }

    /// Call `c` about `key` enters `e`, which is the entry that `k` refers to, or a new one without a
    /// value where `k` refers to none.
    pub open spec fn entered(self, key: K, k: K, c: nat, e: usize) -> Self {
        if self.keys.contains_key(k) {
            self.joined(c, key, e)
        } else {
            self.opened(k, e, CellState::Empty).joined(c, key, e)
        }
    }

    /// Whether a new call `c` can enter `e`, which `k` refers to or is going to refer to.
    pub open spec fn can_enter(self, k: K, c: nat, e: usize) -> bool {
        &&& !self.calls.contains_key(c)
        &&& if self.keys.contains_key(k) {
            e == self.keys[k]
        } else {
            !self.cells.contains_key(e)
        }
    }

    /// Call `c` computes the value of its entry.
    pub open spec fn started(self, c: nat) -> Self {
        State {
            cells: self.cells.insert(self.calls[c].entry, CellState::Running(c)),
            ..self
        }
    }

    /// Call `c` computes no value any more.
    pub open spec fn stopped(self, c: nat) -> Self {
        if self.cells[self.calls[c].entry] == CellState::<V>::Running(c) {
            State { cells: self.cells.insert(self.calls[c].entry, CellState::Empty), ..self }
        } else {
            self
        }
    }

    /// The entry of call `c` has the value `v`.
    pub open spec fn settled(self, c: nat, v: V) -> Self {
        State { cells: self.cells.insert(self.calls[c].entry, CellState::Ready(v)), ..self }
    }

    /// Key `k` refers to no entry any more.
    pub open spec fn detached(self, k: K) -> Self {
        State { keys: self.keys.remove(k), ..self }.reclaimed()
    }

    /// Call `c` is over.
    pub open spec fn dismissed(self, c: nat) -> Self {
        State { calls: self.calls.remove(c), ..self }.reclaimed()
    }

    /// Whether call `c` is the last on its entry, and the entry has no value.
    pub open spec fn abandons(self, c: nat) -> bool {
        let e = self.calls[c].entry;
        &&& !(self.cells[e] is Ready)
        &&& !(State { calls: self.calls.remove(c), ..self }).in_use(e)
    }

    /// Whether the key that call `c` is about refers to the entry of the call.
    pub open spec fn keeps(self, c: nat) -> bool {
        let call = self.calls[c];
        self.keys.contains_key(call.key) && self.keys[call.key] == call.entry
    }

    /// Call `c` leaves. Where it is the last on an entry without a value, its key does not refer to
    /// the entry any more.
    pub open spec fn left(self, c: nat) -> Self {
        if self.abandons(c) && self.keeps(c) {
            State { keys: self.keys.remove(self.calls[c].key), ..self }.dismissed(c)
        } else {
            self.dismissed(c)
        }
    }

    /// The key of call `c` refers to the entry of the call no more.
    pub open spec fn released(self, c: nat) -> Self {
        if self.keeps(c) {
            State { keys: self.keys.remove(self.calls[c].key), ..self }
        } else {
            self
        }
    }

    /// An entry that a key refers to has no value, and a call that can compute it.
    pub open spec fn in_flight(self) -> bool {
        forall|k: K| #[trigger]
            self.keys.contains_key(k) ==> !(self.cells[self.keys[k]] is Ready) && self.in_use(
                self.keys[k],
            )
    }

    /// An entry that a key refers to has its value, or a call that can compute it.
    pub open spec fn attended(self) -> bool {
        forall|k: K| #[trigger]
            self.keys.contains_key(k) ==> self.cells[self.keys[k]] is Ready || self.in_use(
                self.keys[k],
            )
    }

    /// Call `c` about `key` begins, and looks for its entry under `k`, which `e` is, or is going to
    /// be. It starts the computation where none runs and there is no value, and is over at once where
    /// there is one.
    pub open spec fn arrived(self, key: K, k: K, c: nat, e: usize) -> Self {
        if !self.keys.contains_key(k) {
            self.opened(k, e, CellState::Running(c)).joined(c, key, e)
        } else {
            match self.cells[self.keys[k]] {
                CellState::Empty => self.joined(c, key, e).started(c),
                CellState::Running(_) => self.joined(c, key, e),
                CellState::Ready(_) => self,
            }
        }
    }

    /// Call `c` looks at its entry. It starts the computation where none runs and there is no value,
    /// and is over where there is one.
    pub open spec fn looked(self, c: nat) -> Self {
        match self.cells[self.calls[c].entry] {
            CellState::Empty => self.started(c),
            CellState::Running(_) => self,
            CellState::Ready(_) => self.dismissed(c),
        }
    }

    /// Call `c` ends the computation with the value `v`, which stays with the key, and is over.
    pub open spec fn computed(self, c: nat, v: V) -> Self {
        self.settled(c, v).dismissed(c)
    }

    /// Call `c` ends the computation with the value `v`, which is for the calls on its entry and not
    /// for later ones, and is over.
    pub open spec fn worked(self, c: nat, v: V) -> Self {
        self.released(c).settled(c, v).dismissed(c)
    }

    /// Call `c` goes away without a value.
    pub open spec fn cancelled(self, c: nat) -> Self {
        self.stopped(c).left(c)
    }

    /// The value that is stored for key `k`.
    pub open spec fn stored(self, k: K) -> Option<V> {
        if self.keys.contains_key(k) {
            match self.cells[self.keys[k]] {
                CellState::Ready(v) => Some(v),
                _ => None,
            }
        } else {
            None
        }
    }

    /// An entry is about one key: the calls on it are about the same key, and a key that refers to it
    /// is that one.
    pub open spec fn keyed(self) -> bool {
        &&& forall|k: K, c: nat|
            #![trigger self.keys[k], self.calls[c]]
            self.keys.contains_key(k) && self.calls.contains_key(c) && self.keys[k]
                == self.calls[c].entry ==> self.calls[c].key == k
        &&& forall|c: nat, d: nat|
            #![trigger self.calls[c], self.calls[d]]
            self.calls.contains_key(c) && self.calls.contains_key(d) && self.calls[c].entry
                == self.calls[d].entry ==> self.calls[c].key == self.calls[d].key
    }
}

/// `entries` holds each key of `s` once, with the value that is stored for it.
pub open spec fn lists<K, V>(s: State<K, V>, entries: Seq<(&K, Option<&V>)>) -> bool {
    &&& forall|i: int, j: int|
        0 <= i < j < entries.len() ==> *(#[trigger] entries[i]).0 != *(#[trigger] entries[j]).0
    &&& forall|k: K|
        s.keys.contains_key(k) <==> exists|i: int|
            0 <= i < entries.len() && *(#[trigger] entries[i]).0 == k
    &&& forall|i: int|
        0 <= i < entries.len() ==> s.stored(*(#[trigger] entries[i]).0) == match entries[i].1 {
            Some(value) => Some(*value),
            None => None,
        }
}

/// What is made of each pair of a key and its entry lists the keys.
pub proof fn lemma_lists<K, V>(
    s: State<K, V>,
    items: Seq<(&K, &usize)>,
    entries: Seq<(&K, Option<&V>)>,
)
    requires
        items.no_duplicates(),
        forall|i: int|
            #![trigger items[i]]
            0 <= i < items.len() ==> s.keys.contains_key(*items[i].0) && s.keys[*items[i].0]
                == *items[i].1,
        forall|k: K| #[trigger] s.keys.contains_key(k) ==> items.contains((&k, &s.keys[k])),
        entries.len() == items.len(),
        forall|i: int|
            0 <= i < entries.len() ==> {
                &&& #[trigger] entries[i].0 == items[i].0
                &&& s.stored(*entries[i].0) == match entries[i].1 {
                    Some(value) => Some(*value),
                    None => None,
                }
            },
    ensures
        lists(s, entries),
{
    assert forall|i: int, j: int| 0 <= i < j < entries.len() implies *(#[trigger] entries[i]).0
        != *(#[trigger] entries[j]).0 by {
        assert(items[i] != items[j]);
    }
    assert forall|k: K|
        s.keys.contains_key(k) <==> exists|i: int|
            0 <= i < entries.len() && *(#[trigger] entries[i]).0 == k by {
        if s.keys.contains_key(k) {
            let i = choose|i: int| 0 <= i < items.len() && items[i] == (&k, &s.keys[k]);
            assert(*entries[i].0 == k);
        }
        if exists|i: int| 0 <= i < entries.len() && *(#[trigger] entries[i]).0 == k {
            let i = choose|i: int| 0 <= i < entries.len() && *(#[trigger] entries[i]).0 == k;
            assert(s.keys.contains_key(*items[i].0));
        }
    }
}

/// A call that enters keeps what every step keeps, and lets go of no entry.
pub proof fn lemma_entered<K, V>(s: State<K, V>, key: K, k: K, c: nat, e: usize)
    requires
        s.valid(),
        s.can_enter(k, c, e),
    ensures
        ({
            let t = s.entered(key, k, c, e);
            &&& t.valid()
            &&& s.keyed() && key == k ==> t.keyed()
            &&& s.attended() ==> t.attended()
            &&& s.in_flight() ==> t.in_flight()
            &&& forall|d: usize| #[trigger] t.attached(d) <==> s.attached(d) || d == e
        }),
{
    let t = s.entered(key, k, c, e);
    assert(t.calls[c].entry == e);
    assert(t.keys[k] == e);
    assert forall|a: nat| s.calls.contains_key(a) implies t.calls[a] == s.calls[a] by {}
    assert forall|d: usize| s.in_use(d) implies #[trigger] t.in_use(d) by {
        let a = choose|a: nat| s.calls.contains_key(a) && (#[trigger] s.calls[a]).entry == d;
        assert(t.calls[a].entry == d);
    }
    assert forall|d: usize| s.attached(d) implies #[trigger] t.attached(d) by {
        let j = choose|j: K| s.keys.contains_key(j) && #[trigger] s.keys[j] == d;
        assert(t.keys[j] == d);
    }
}

/// An entry that some call is on has callers, and the other way round.
pub proof fn lemma_in_use<K, V>(s: State<K, V>, e: usize)
    requires
        s.calls.dom().finite(),
    ensures
        s.in_use(e) <==> callers(s.calls, e).len() > 0,
{
    if s.in_use(e) {
        let c = choose|c: nat| s.calls.contains_key(c) && (#[trigger] s.calls[c]).entry == e;
        assert(callers(s.calls, e).contains(c));
    }
    if callers(s.calls, e).len() > 0 {
        let c = callers(s.calls, e).choose();
        assert(callers(s.calls, e).contains(c)) by {
            if forall|d: nat| !callers(s.calls, e).contains(d) {
                assert(callers(s.calls, e) =~= Set::<nat>::empty());
            }
        }
        assert(s.calls[c].entry == e);
    }
}

/// Where at most entry `e` is one that nothing refers to, only `e` can be given up.
pub proof fn lemma_reclaim_one<K, V>(s: State<K, V>, e: usize)
    requires
        forall|d: usize| #[trigger]
            s.cells.contains_key(d) && d != e ==> s.attached(d) || s.in_use(d),
    ensures
        s.reclaimed() == if s.attached(e) || s.in_use(e) {
            s
        } else {
            State { cells: s.cells.remove(e), ..s }
        },
{
    if s.attached(e) || s.in_use(e) {
        assert(s.reclaimed() =~= s);
    } else {
        assert(s.reclaimed() =~= State { cells: s.cells.remove(e), ..s });
    }
}

/// To give up the entries that nothing refers to makes a sound state valid.
pub proof fn lemma_reclaimed_valid<K, V>(s: State<K, V>)
    requires
        s.sound(),
    ensures
        s.reclaimed().valid(),
{
    let t = s.reclaimed();
    assert forall|k: K| #[trigger] t.keys.contains_key(k) implies t.cells.contains_key(
        t.keys[k],
    ) by {
        assert(s.keys[k] == t.keys[k]);
        assert(s.attached(s.keys[k]));
    }
    assert forall|c: nat| #[trigger] t.calls.contains_key(c) implies t.cells.contains_key(
        t.calls[c].entry,
    ) by {
        assert(s.calls.contains_key(c));
        assert(s.in_use(s.calls[c].entry));
    }
    assert forall|e: usize| #[trigger] t.cells.contains_key(e) implies t.attached(e) || t.in_use(
        e,
    ) by {
        if s.attached(e) {
            let k = choose|k: K| s.keys.contains_key(k) && #[trigger] s.keys[k] == e;
            assert(t.keys[k] == e);
        } else {
            let c = choose|c: nat| s.calls.contains_key(c) && (#[trigger] s.calls[c]).entry == e;
            assert(t.calls[c].entry == e);
        }
    }
}

/// When a call ends, the other entries keep their callers, and only its own entry can be given up.
pub proof fn lemma_dismissed<K, V>(s: State<K, V>, c: nat)
    requires
        s.valid(),
        s.calls.contains_key(c),
        s.cells[s.calls[c].entry] != CellState::<V>::Running(c),
    ensures
        s.dismissed(c).valid(),
        undisturbed(s, s.dismissed(c), Some(c)),
        ({
            let e = s.calls[c].entry;
            let t = State { calls: s.calls.remove(c), ..s };
            &&& forall|d: usize| d != e ==> #[trigger] t.in_use(d) == s.in_use(d)
            &&& forall|d: usize| #[trigger] t.attached(d) == s.attached(d)
            &&& s.dismissed(c) == if s.attached(e) || t.in_use(e) {
                t
            } else {
                State { cells: s.cells.remove(e), ..t }
            }
        }),
{
    let e = s.calls[c].entry;
    let t = State { calls: s.calls.remove(c), ..s };
    assert(t.sound()) by {
        assert forall|d: nat| #[trigger] t.calls.contains_key(d) implies t.cells.contains_key(
            t.calls[d].entry,
        ) by {
            assert(s.calls.contains_key(d));
        }
    }
    lemma_reclaimed_valid(t);
    assert forall|d: usize| d != e implies #[trigger] t.in_use(d) == s.in_use(d) by {
        if s.in_use(d) {
            let a = choose|a: nat| s.calls.contains_key(a) && (#[trigger] s.calls[a]).entry == d;
            assert(t.calls[a].entry == d);
        }
        if t.in_use(d) {
            let a = choose|a: nat| t.calls.contains_key(a) && (#[trigger] t.calls[a]).entry == d;
            assert(s.calls[a].entry == d);
        }
    }
    assert(forall|d: usize| #[trigger] t.attached(d) == s.attached(d));
    lemma_reclaim_one(t, e);
}

/// When a key is detached, the other entries keep their keys, and only its own entry can be given up.
pub proof fn lemma_detached<K, V>(s: State<K, V>, k: K)
    requires
        s.valid(),
        s.keys.contains_key(k),
    ensures
        s.detached(k).valid(),
        undisturbed(s, s.detached(k), None),
        elsewhere(s, s.detached(k), k),
        ({
            let e = s.keys[k];
            let t = State { keys: s.keys.remove(k), ..s };
            &&& forall|d: usize| d != e ==> #[trigger] t.attached(d) == s.attached(d)
            &&& !t.attached(e)
            &&& s.detached(k) == if s.in_use(e) {
                t
            } else {
                State { cells: s.cells.remove(e), ..t }
            }
        }),
{
    let e = s.keys[k];
    let t = State { keys: s.keys.remove(k), ..s };
    assert(t.sound()) by {
        assert forall|j: K| #[trigger] t.keys.contains_key(j) implies t.cells.contains_key(
            t.keys[j],
        ) by {
            assert(s.keys.contains_key(j));
        }
        assert forall|i: K, j: K|
            t.keys.contains_key(i) && t.keys.contains_key(j) && #[trigger] t.keys[i]
                == #[trigger] t.keys[j] implies i == j by {
            assert(s.keys[i] == s.keys[j]);
        }
    }
    lemma_reclaimed_valid(t);
    assert forall|d: usize| d != e implies #[trigger] t.attached(d) == s.attached(d) by {
        if s.attached(d) {
            let j = choose|j: K| s.keys.contains_key(j) && #[trigger] s.keys[j] == d;
            assert(t.keys[j] == d);
        }
        if t.attached(d) {
            let j = choose|j: K| t.keys.contains_key(j) && #[trigger] t.keys[j] == d;
            assert(s.keys[j] == d);
        }
    }
    assert(!t.attached(e)) by {
        if t.attached(e) {
            let j = choose|j: K| t.keys.contains_key(j) && #[trigger] t.keys[j] == e;
            assert(s.keys[j] == s.keys[k]);
        }
    }
    assert(forall|d: usize| #[trigger] t.in_use(d) == s.in_use(d));
    lemma_reclaim_one(t, e);
}

/// To detach a key keeps the others attended, and on behalf of their calls.
pub proof fn lemma_detached_kept<K, V>(s: State<K, V>, k: K)
    requires
        s.valid(),
        s.keys.contains_key(k),
    ensures
        s.keyed() ==> s.detached(k).keyed(),
        s.attended() ==> s.detached(k).attended(),
        s.in_flight() ==> s.detached(k).in_flight(),
{
    lemma_detached(s, k);
    let t = s.detached(k);
    if s.keyed() {
        assert forall|j: K, c: nat|
            #![trigger t.keys[j], t.calls[c]]
            t.keys.contains_key(j) && t.calls.contains_key(c) && t.keys[j]
                == t.calls[c].entry implies t.calls[c].key == j by {
            assert(s.keys[j] == t.keys[j] && s.calls[c] == t.calls[c]);
        }
    }
    if s.attended() {
        assert forall|j: K| #[trigger] t.keys.contains_key(j) implies t.cells[t.keys[j]] is Ready
            || t.in_use(t.keys[j]) by {
            assert(s.keys.contains_key(j) && s.keys[j] == t.keys[j]);
            if s.in_use(s.keys[j]) {
                let c = choose|c: nat|
                    s.calls.contains_key(c) && (#[trigger] s.calls[c]).entry == s.keys[j];
                assert(t.calls[c].entry == t.keys[j]);
            }
        }
    }
    if s.in_flight() {
        assert(s.attended());
        assert forall|j: K| #[trigger] t.keys.contains_key(j) implies !(t.cells[t.keys[j]] is Ready)
            && t.in_use(t.keys[j]) by {
            assert(s.keys.contains_key(j) && s.keys[j] == t.keys[j]);
        }
    }
}

/// When the last call on an entry without a value leaves, the key and the entry are given up.
/// Otherwise the keys stay as they are.
pub proof fn lemma_left<K, V>(s: State<K, V>, c: nat)
    requires
        s.valid(),
        s.calls.contains_key(c),
        s.cells[s.calls[c].entry] != CellState::<V>::Running(c),
    ensures
        s.left(c).valid(),
        undisturbed(s, s.left(c), Some(c)),
        s.keyed() ==> elsewhere(s, s.left(c), s.calls[c].key),
        s.keyed() ==> s.left(c).keyed(),
        s.keyed() && s.attended() ==> s.left(c).attended(),
        s.keyed() && s.in_flight() ==> s.left(c).in_flight(),
        s.abandons(c) && s.keeps(c) ==> s.left(c) == (State {
            keys: s.keys.remove(s.calls[c].key),
            cells: s.cells.remove(s.calls[c].entry),
            calls: s.calls.remove(c),
        }),
{
    lemma_dismissed(s, c);
    let t = s.left(c);
    if s.abandons(c) && s.keeps(c) {
        let k = s.calls[c].key;
        let e = s.calls[c].entry;
        lemma_detached(s, k);
        assert(s.in_use(e));
        assert(s.detached(k) == State { keys: s.keys.remove(k), ..s });
        lemma_dismissed(s.detached(k), c);
    }
    if s.keyed() {
        assert forall|k: K, a: nat|
            #![trigger t.keys[k], t.calls[a]]
            t.keys.contains_key(k) && t.calls.contains_key(a) && t.keys[k]
                == t.calls[a].entry implies t.calls[a].key == k by {
            assert(s.keys[k] == t.keys[k] && s.calls[a] == t.calls[a]);
        }
    }
    if s.keyed() && s.attended() {
        let rest = State { calls: s.calls.remove(c), ..s };
        assert forall|k: K| #[trigger] t.keys.contains_key(k) implies t.cells[t.keys[k]] is Ready
            || t.in_use(t.keys[k]) by {
            assert(s.keys.contains_key(k) && s.keys[k] == t.keys[k]);
            assert(t.cells.contains_key(t.keys[k]));
            if !(t.cells[t.keys[k]] is Ready) {
                assert(s.in_use(s.keys[k]));
                if s.keys[k] == s.calls[c].entry {
                    assert(s.calls[c].key == k);
                }
                assert(rest.in_use(s.keys[k]));
                let a = choose|a: nat|
                    rest.calls.contains_key(a) && (#[trigger] rest.calls[a]).entry == s.keys[k];
                assert(t.calls[a].entry == t.keys[k]);
            }
        }
    }
    if s.keyed() && s.in_flight() {
        assert(s.attended());
        assert forall|k: K| #[trigger] t.keys.contains_key(k) implies !(t.cells[t.keys[k]] is Ready)
            && t.in_use(t.keys[k]) by {
            assert(s.keys.contains_key(k) && s.keys[k] == t.keys[k]);
            assert(t.cells.contains_key(t.keys[k]));
        }
    }
}

/// From `s` to `t` nothing changes for the calls other than `own`: they are under way on their
/// entries still, and one computes the value of its entry where it did before.
pub open spec fn undisturbed<K, V>(s: State<K, V>, t: State<K, V>, own: Option<nat>) -> bool {
    forall|c: nat|
        #![trigger t.calls.contains_key(c)]
        #![trigger t.calls[c]]
        s.calls.contains_key(c) && own != Some(c) ==> {
            let e = s.calls[c].entry;
            &&& t.calls.contains_key(c)
            &&& t.calls[c] == s.calls[c]
            &&& t.cells.contains_key(e)
            &&& t.cells[e] == CellState::<V>::Running(c) <==> s.cells[e] == CellState::<V>::Running(c)
        }
}

/// From `s` to `t` nothing changes for the keys other than `k`: they refer to what they did, and what
/// they refer to holds what it did.
pub open spec fn elsewhere<K, V>(s: State<K, V>, t: State<K, V>, k: K) -> bool {
    forall|j: K|
        #![trigger t.keys.contains_key(j)]
        #![trigger t.keys[j]]
        j != k ==> {
            &&& t.keys.contains_key(j) <==> s.keys.contains_key(j)
            &&& s.keys.contains_key(j) ==> t.keys[j] == s.keys[j] && t.cells[s.keys[j]]
                == s.cells[s.keys[j]]
        }
}

/// The calls that are under way on entry `e`.
pub open spec fn callers<K>(calls: Map<nat, CallState<K>>, e: usize) -> Set<nat> {
    calls.dom().filter(|c: nat| calls[c].entry == e)
}

/// A new call joins the callers of its entry, and no others.
pub proof fn lemma_callers_insert<K>(calls: Map<nat, CallState<K>>, c: nat, call: CallState<K>)
    requires
        calls.dom().finite(),
        !calls.contains_key(c),
    ensures
        forall|e: usize|
            e != call.entry ==> #[trigger] callers(calls.insert(c, call), e) == callers(calls, e),
        callers(calls.insert(c, call), call.entry) == callers(calls, call.entry).insert(c),
        callers(calls.insert(c, call), call.entry).len() == callers(calls, call.entry).len() + 1,
{
    assert forall|e: usize| e != call.entry implies #[trigger] callers(calls.insert(c, call), e)
        == callers(calls, e) by {
        assert(callers(calls.insert(c, call), e) =~= callers(calls, e));
    }
    assert(callers(calls.insert(c, call), call.entry) =~= callers(calls, call.entry).insert(c));
}

/// A call that ends leaves the callers of its entry, and no others.
pub proof fn lemma_callers_remove<K>(calls: Map<nat, CallState<K>>, c: nat)
    requires
        calls.dom().finite(),
        calls.contains_key(c),
    ensures
        forall|e: usize|
            e != calls[c].entry ==> #[trigger] callers(calls.remove(c), e) == callers(calls, e),
        callers(calls.remove(c), calls[c].entry) == callers(calls, calls[c].entry).remove(c),
        callers(calls, calls[c].entry).len() == callers(calls.remove(c), calls[c].entry).len() + 1,
{
    assert forall|e: usize| e != calls[c].entry implies #[trigger] callers(calls.remove(c), e)
        == callers(calls, e) by {
        assert(callers(calls.remove(c), e) =~= callers(calls, e));
    }
    assert(callers(calls.remove(c), calls[c].entry) =~= callers(calls, calls[c].entry).remove(c));
}

} // verus!
