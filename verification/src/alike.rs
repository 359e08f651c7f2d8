//! Maps of computations that differ in the names of their entries and calls alone.
//!
//! Which entry a new key gets, and how a call is named, is up to the map. Nothing that a caller sees
//! depends on it, nor on how the keys are hashed: of two maps to which the same happens, with whatever
//! hashers, the one does what the other does. Of groups this supposes that a clone of a key is the key.

use vstd::prelude::*;
use vstd::set_lib::lemma_map_size;

use crate::flight::EntryGuard;
use crate::flight::Turn;
use crate::flight::arrives;
use crate::flight::has_room;
use crate::flight::holds;
use crate::flight::wakes;
use crate::keys::answers;
use crate::keys::borrows_keys;
use crate::keys::denotes;
use crate::keys::lemma_unbound;
use crate::keys::unbound;
use crate::laws::Kind;
use crate::laws::Step;
use crate::laws::after;
use crate::laws::allows;
use crate::laws::begins;
use crate::laws::can;
use crate::laws::history;
use crate::laws::law_an_entry_serves_one_key;
use crate::once::OnceMap;
use crate::singleflight::Group;
use crate::state::CallState;
use crate::state::CellState;
use crate::state::State;
use crate::state::callers;

verus! {

/// Other names for the entries and calls of a map of computations, there and back.
pub struct Naming {
    /// The other name of each entry.
    pub entries: Map<usize, usize>,
    /// The entry behind each other name.
    pub entries_back: Map<usize, usize>,
    /// The other name of each call.
    pub calls: Map<nat, nat>,
    /// The call behind each other name.
    pub calls_back: Map<nat, nat>,
}

impl Naming {
    /// The same names, and `d` for entry `e`.
    pub open spec fn with_entry(self, e: usize, d: usize) -> Self {
        Naming {
            entries: self.entries.insert(e, d),
            entries_back: self.entries_back.insert(d, e),
            ..self
        }
    }

    /// The same names, and `d` for call `c`.
    pub open spec fn with_call(self, c: nat, d: nat) -> Self {
        Naming {
            calls: self.calls.insert(c, d),
            calls_back: self.calls_back.insert(d, c),
            ..self
        }
    }

    /// What `cell` holds, under the other names.
    pub open spec fn cell<V>(self, cell: CellState<V>) -> CellState<V> {
        match cell {
            CellState::Empty => CellState::Empty,
            CellState::Running(c) => CellState::Running(self.calls[c]),
            CellState::Ready(v) => CellState::Ready(v),
        }
    }

    /// What `call` is, under the other names.
    pub open spec fn call<K>(self, call: CallState<K>) -> CallState<K> {
        CallState { key: call.key, entry: self.entries[call.entry] }
    }
}

/// `t` is `s` under the names of `n`.
pub open spec fn alike<K, V>(s: State<K, V>, t: State<K, V>, n: Naming) -> bool {
    &&& forall|k: K| #[trigger] t.keys.contains_key(k) <==> s.keys.contains_key(k)
    &&& forall|k: K| #[trigger]
        s.keys.contains_key(k) ==> t.keys.contains_key(k) && t.keys[k] == n.entries[s.keys[k]]
    &&& forall|e: usize| #[trigger]
        s.cells.contains_key(e) ==> {
            &&& t.cells.contains_key(n.entries[e])
            &&& n.entries_back[n.entries[e]] == e
            &&& t.cells[n.entries[e]] == n.cell(s.cells[e])
        }
    &&& forall|e: usize| #[trigger]
        t.cells.contains_key(e) ==> {
            &&& s.cells.contains_key(n.entries_back[e])
            &&& n.entries[n.entries_back[e]] == e
        }
    &&& forall|c: nat| #[trigger]
        s.calls.contains_key(c) ==> {
            &&& t.calls.contains_key(n.calls[c])
            &&& n.calls_back[n.calls[c]] == c
            &&& t.calls[n.calls[c]] == n.call(s.calls[c])
        }
    &&& forall|c: nat| #[trigger]
        t.calls.contains_key(c) ==> {
            &&& s.calls.contains_key(n.calls_back[c])
            &&& n.calls[n.calls_back[c]] == c
        }
}

/// Keys and calls have their entries.
spec fn grounded<K, V>(s: State<K, V>) -> bool {
    &&& forall|k: K| #[trigger] s.keys.contains_key(k) ==> s.cells.contains_key(s.keys[k])
    &&& forall|c: nat| #[trigger] s.calls.contains_key(c) ==> s.cells.contains_key(s.calls[c].entry)
}

/// The same entries are referred to under either names.
proof fn lemma_references<K, V>(s: State<K, V>, t: State<K, V>, n: Naming, e: usize)
    requires
        grounded(s),
        alike(s, t, n),
        s.cells.contains_key(e),
    ensures
        t.attached(n.entries[e]) <==> s.attached(e),
        t.in_use(n.entries[e]) <==> s.in_use(e),
{
    let d = n.entries[e];
    if s.attached(e) {
        let k = choose|k: K| s.keys.contains_key(k) && #[trigger] s.keys[k] == e;
        assert(t.keys[k] == d);
    }
    if t.attached(d) {
        let k = choose|k: K| t.keys.contains_key(k) && #[trigger] t.keys[k] == d;
        assert(s.keys.contains_key(k));
        assert(s.keys[k] == e);
    }
    if s.in_use(e) {
        let c = choose|c: nat| s.calls.contains_key(c) && (#[trigger] s.calls[c]).entry == e;
        assert(t.calls[n.calls[c]].entry == d);
    }
    if t.in_use(d) {
        let c = choose|c: nat| t.calls.contains_key(c) && (#[trigger] t.calls[c]).entry == d;
        let b = n.calls_back[c];
        assert(s.calls.contains_key(b));
        assert(s.calls[b].entry == e);
    }
}

/// States that are alike stay so without the entries that nothing refers to.
proof fn lemma_reclaimed_alike<K, V>(s: State<K, V>, t: State<K, V>, n: Naming)
    requires
        grounded(s),
        alike(s, t, n),
    ensures
        alike(s.reclaimed(), t.reclaimed(), n),
{
    assert forall|e: usize| s.cells.contains_key(e) implies (t.attached(#[trigger] n.entries[e])
        <==> s.attached(e)) && (t.in_use(n.entries[e]) <==> s.in_use(e)) by {
        lemma_references(s, t, n, e);
    }
}

/// States that are alike stay so when a key refers to nothing any more.
proof fn lemma_key_removed_alike<K, V>(s: State<K, V>, t: State<K, V>, n: Naming, k: K)
    requires
        alike(s, t, n),
    ensures
        alike(State { keys: s.keys.remove(k), ..s }, State { keys: t.keys.remove(k), ..t }, n),
{
}

/// States that are alike stay so when a call is over.
proof fn lemma_call_removed_alike<K, V>(s: State<K, V>, t: State<K, V>, n: Naming, c: nat)
    requires
        alike(s, t, n),
        s.calls.contains_key(c),
    ensures
        alike(
            State { calls: s.calls.remove(c), ..s },
            State { calls: t.calls.remove(n.calls[c]), ..t },
            n,
        ),
{
}

/// States that are alike stay so when a cell changes.
proof fn lemma_cell_changed_alike<K, V>(
    s: State<K, V>,
    t: State<K, V>,
    n: Naming,
    e: usize,
    cell: CellState<V>,
)
    requires
        alike(s, t, n),
        s.cells.contains_key(e),
    ensures
        alike(
            State { cells: s.cells.insert(e, cell), ..s },
            State { cells: t.cells.insert(n.entries[e], n.cell(cell)), ..t },
            n,
        ),
{
}

/// States that are alike stay so when a call enters.
proof fn lemma_entered_alike<K, V>(
    s: State<K, V>,
    t: State<K, V>,
    n: Naming,
    key: K,
    c: nat,
    e: usize,
    b: nat,
    d: usize,
)
    requires
        s.valid(),
        alike(s, t, n),
        s.can_enter(key, c, e),
        t.can_enter(key, b, d),
    ensures
        alike(
            s.entered(key, key, c, e),
            t.entered(key, key, b, d),
            n.with_entry(e, d).with_call(c, b),
        ),
{
}

/// States that are alike stay so when a call begins.
proof fn lemma_arrived_alike<K, V>(
    s: State<K, V>,
    t: State<K, V>,
    n: Naming,
    key: K,
    c: nat,
    e: usize,
    b: nat,
    d: usize,
)
    requires
        s.valid(),
        alike(s, t, n),
        s.can_enter(key, c, e),
        t.can_enter(key, b, d),
    ensures
        alike(
            s.arrived(key, key, c, e),
            t.arrived(key, key, b, d),
            if s.stored(key) is None {
                n.with_entry(e, d).with_call(c, b)
            } else {
                n
            },
        ),
{
    if s.stored(key) is None {
        let m = n.with_entry(e, d).with_call(c, b);
        let x = s.entered(key, key, c, e);
        let y = t.entered(key, key, b, d);
        lemma_entered_alike(s, t, n, key, c, e, b, d);
        if s.keys.contains_key(key) && s.cells[e] is Running {
        } else {
            lemma_cell_changed_alike(x, y, m, e, CellState::Running(c));
            assert(s.arrived(key, key, c, e) =~= x.started(c));
            assert(t.arrived(key, key, b, d) =~= y.started(b));
        }
    }
}

/// States that are alike stay so when a call is over, and the entries that nothing refers to go.
proof fn lemma_dismissed_alike<K, V>(s: State<K, V>, t: State<K, V>, n: Naming, c: nat)
    requires
        grounded(s),
        alike(s, t, n),
        s.calls.contains_key(c),
    ensures
        alike(s.dismissed(c), t.dismissed(n.calls[c]), n),
{
    lemma_call_removed_alike(s, t, n, c);
    lemma_reclaimed_alike(
        State { calls: s.calls.remove(c), ..s },
        State { calls: t.calls.remove(n.calls[c]), ..t },
        n,
    );
}

/// States that are alike stay so when a call looks at its entry.
proof fn lemma_looked_alike<K, V>(s: State<K, V>, t: State<K, V>, n: Naming, c: nat)
    requires
        grounded(s),
        alike(s, t, n),
        s.calls.contains_key(c),
    ensures
        alike(s.looked(c), t.looked(n.calls[c]), n),
{
    lemma_cell_changed_alike(s, t, n, s.calls[c].entry, CellState::Running(c));
    lemma_dismissed_alike(s, t, n, c);
}

/// States that are alike stay so when a call ends the computation of a once map.
proof fn lemma_computed_alike<K, V>(s: State<K, V>, t: State<K, V>, n: Naming, c: nat, v: V)
    requires
        grounded(s),
        alike(s, t, n),
        s.calls.contains_key(c),
    ensures
        alike(s.computed(c, v), t.computed(n.calls[c], v), n),
{
    lemma_cell_changed_alike(s, t, n, s.calls[c].entry, CellState::Ready(v));
    lemma_dismissed_alike(s.settled(c, v), t.settled(n.calls[c], v), n, c);
}

/// States that are alike stay so when a call ends the computation of a group.
proof fn lemma_worked_alike<K, V>(s: State<K, V>, t: State<K, V>, n: Naming, c: nat, v: V)
    requires
        grounded(s),
        alike(s, t, n),
        s.calls.contains_key(c),
    ensures
        alike(s.worked(c, v), t.worked(n.calls[c], v), n),
{
    lemma_key_removed_alike(s, t, n, s.calls[c].key);
    assert(s.keeps(c) <==> t.keeps(n.calls[c]));
    assert(s.worked(c, v) == s.released(c).computed(c, v));
    lemma_computed_alike(s.released(c), t.released(n.calls[c]), n, c, v);
}

/// States that are alike stay so when a call goes away.
proof fn lemma_cancelled_alike<K, V>(s: State<K, V>, t: State<K, V>, n: Naming, c: nat)
    requires
        s.valid(),
        alike(s, t, n),
        s.calls.contains_key(c),
    ensures
        alike(s.cancelled(c), t.cancelled(n.calls[c]), n),
{
    let b = n.calls[c];
    let e = s.calls[c].entry;
    let x = s.stopped(c);
    let y = t.stopped(b);
    lemma_cell_changed_alike(s, t, n, e, CellState::Empty);
    assert(alike(x, y, n));
    lemma_call_removed_alike(x, y, n, c);
    lemma_references(
        State { calls: x.calls.remove(c), ..x },
        State { calls: y.calls.remove(b), ..y },
        n,
        e,
    );
    assert(x.abandons(c) <==> y.abandons(b));
    assert(x.keeps(c) <==> y.keeps(b));
    let k = x.calls[c].key;
    lemma_key_removed_alike(x, y, n, k);
    lemma_dismissed_alike(x, y, n, c);
    lemma_dismissed_alike(
        State { keys: x.keys.remove(k), ..x },
        State { keys: y.keys.remove(k), ..y },
        n,
        c,
    );
}

/// States that are alike stay so when a key is detached.
proof fn lemma_detached_alike<K, V>(s: State<K, V>, t: State<K, V>, n: Naming, k: K)
    requires
        grounded(s),
        alike(s, t, n),
    ensures
        alike(s.detached(k), t.detached(k), n),
{
    lemma_key_removed_alike(s, t, n, k);
    lemma_reclaimed_alike(
        State { keys: s.keys.remove(k), ..s },
        State { keys: t.keys.remove(k), ..t },
        n,
    );
}

/// What a map of computations tells the one to whom a step happens.
pub enum Answer<V> {
    /// To run the computation.
    Run,
    /// To wait.
    Wait,
    /// To return a clone of this value.
    Return(V),
    /// Nothing.
    Nothing,
}

/// What a call is told that finds `cell`.
pub open spec fn told<V>(cell: CellState<V>) -> Answer<V> {
    match cell {
        CellState::Empty => Answer::Run,
        CellState::Running(_) => Answer::Wait,
        CellState::Ready(v) => Answer::Return(v),
    }
}

/// The answer to `step`.
pub open spec fn answer<K, V>(s: State<K, V>, step: Step<K, V>) -> Answer<V> {
    match step {
        Step::Arrive { key, call: _, entry: _ } => if s.keys.contains_key(key) {
            told(s.cells[s.keys[key]])
        } else {
            Answer::Run
        },
        Step::Look { call } => told(s.cells[s.calls[call].entry]),
        Step::Finish { call: _, value } => Answer::Return(value),
        Step::Cancel { call: _ } => Answer::Nothing,
        Step::Detach { key: _ } => Answer::Nothing,
    }
}

/// `b` is `a` under the names of `n`. A call that begins has no other name yet.
pub open spec fn counterpart<K, V>(n: Naming, a: Step<K, V>, b: Step<K, V>) -> bool {
    match a {
        Step::Arrive { key, call: _, entry: _ } => b is Arrive && b->Arrive_key == key,
        Step::Look { call } => b == (Step::<K, V>::Look { call: n.calls[call] }),
        Step::Finish { call, value } => b == (Step::<K, V>::Finish { call: n.calls[call], value }),
        Step::Cancel { call } => b == (Step::<K, V>::Cancel { call: n.calls[call] }),
        Step::Detach { key } => b == (Step::<K, V>::Detach { key }),
    }
}

/// The names of `n`, and those of the call that begins with `a` in `s` and with `b` in the other
/// state.
pub open spec fn renamed<K, V>(s: State<K, V>, n: Naming, a: Step<K, V>, b: Step<K, V>) -> Naming {
    match (a, b) {
        (
            Step::Arrive { key, call: c, entry: e },
            Step::Arrive { key: _, call: d, entry: f },
        ) => if s.stored(key) is None {
            n.with_entry(e, f).with_call(c, d)
        } else {
            n
        },
        _ => n,
    }
}

/// A step that can happen can happen under other names, unless it is a call that begins and the names
/// are taken. It is answered the same, and leads to states that are alike.
pub proof fn law_steps_do_not_depend_on_names<K, V>(
    kind: Kind,
    s: State<K, V>,
    t: State<K, V>,
    n: Naming,
    a: Step<K, V>,
    b: Step<K, V>,
)
    requires
        s.valid(),
        alike(s, t, n),
        can(s, a),
        counterpart(n, a, b),
        a is Arrive ==> can(t, b),
    ensures
        can(t, b),
        answer(s, a) == answer(t, b),
        alike(after(kind, s, a), after(kind, t, b), renamed(s, n, a, b)),
{
    match a {
        Step::Arrive { key, call, entry } => lemma_arrived_alike(
            s,
            t,
            n,
            key,
            call,
            entry,
            b->Arrive_call,
            b->Arrive_entry,
        ),
        Step::Look { call } => lemma_looked_alike(s, t, n, call),
        Step::Finish { call, value } => {
            lemma_computed_alike(s, t, n, call, value);
            lemma_worked_alike(s, t, n, call, value);
        },
        Step::Cancel { call } => lemma_cancelled_alike(s, t, n, call),
        Step::Detach { key } => lemma_detached_alike(s, t, n, key),
    }
}

/// The names after `a` and `b` have happened, where they were those of `n` in `s`.
pub open spec fn naming_after<K, V>(
    kind: Kind,
    s: State<K, V>,
    n: Naming,
    a: Seq<Step<K, V>>,
    b: Seq<Step<K, V>>,
) -> Naming
    decreases a.len(),
{
    if a.len() == 0 {
        n
    } else {
        renamed(
            history(kind, s, a.drop_last()),
            naming_after(kind, s, n, a.drop_last(), b.drop_last()),
            a.last(),
            b.last(),
        )
    }
}

/// `b` is what `a` is, step by step, under the names of `n` and those that come with new calls.
pub open spec fn same_course<K, V>(
    kind: Kind,
    s: State<K, V>,
    n: Naming,
    a: Seq<Step<K, V>>,
    b: Seq<Step<K, V>>,
) -> bool
    decreases a.len(),
{
    &&& a.len() == b.len()
    &&& a.len() > 0 ==> {
        &&& same_course(kind, s, n, a.drop_last(), b.drop_last())
        &&& counterpart(
            naming_after(kind, s, n, a.drop_last(), b.drop_last()),
            a.last(),
            b.last(),
        )
    }
}

/// The answer to step `i` of `steps`.
pub open spec fn answer_at<K, V>(
    kind: Kind,
    start: State<K, V>,
    steps: Seq<Step<K, V>>,
    i: int,
) -> Answer<V> {
    answer(history(kind, start, steps.take(i)), steps[i])
}

/// Where the same happens to two maps of computations that were alike, all of it is answered the same,
/// and they are alike afterwards.
pub proof fn law_courses_do_not_depend_on_names<K, V>(
    kind: Kind,
    s: State<K, V>,
    t: State<K, V>,
    n: Naming,
    a: Seq<Step<K, V>>,
    b: Seq<Step<K, V>>,
)
    requires
        s.valid(),
        s.keyed(),
        alike(s, t, n),
        allows(kind, s, a),
        allows(kind, t, b),
        same_course(kind, s, n, a, b),
    ensures
        history(kind, s, a).valid(),
        history(kind, s, a).keyed(),
        alike(history(kind, s, a), history(kind, t, b), naming_after(kind, s, n, a, b)),
        forall|i: int|
            0 <= i < a.len() ==> #[trigger] answer_at(kind, s, a, i) == answer_at(kind, t, b, i),
    decreases a.len(),
{
    if a.len() > 0 {
        let p = a.drop_last();
        let q = b.drop_last();
        let x = history(kind, s, p);
        law_courses_do_not_depend_on_names(kind, s, t, n, p, q);
        law_steps_do_not_depend_on_names(
            kind,
            x,
            history(kind, t, q),
            naming_after(kind, s, n, p, q),
            a.last(),
            b.last(),
        );
        law_an_entry_serves_one_key(x, a.last(), 0, 0);
        assert forall|i: int| 0 <= i < a.len() implies #[trigger] answer_at(kind, s, a, i)
            == answer_at(kind, t, b, i) by {
            if i < p.len() {
                assert(a.take(i) =~= p.take(i));
                assert(b.take(i) =~= q.take(i));
                assert(answer_at(kind, s, p, i) == answer_at(kind, t, q, i));
            } else {
                assert(a.take(i) =~= p);
                assert(b.take(i) =~= q);
            }
        }
    }
}

/// A group does the same whatever its hasher is: two groups that were just created, with whatever
/// hashers, give the same answers as long as the same happens to them. So the same calls run the
/// function, wait and return, with the same results, and the same keys are in flight in the end.
pub proof fn law_group_does_not_depend_on_its_hasher<K: Clone, V, S, T>(
    g: Group<K, V, S>,
    h: Group<K, V, T>,
    n: Naming,
    a: Seq<Step<K, V>>,
    b: Seq<Step<K, V>>,
)
    requires
        g.state() == State::<K, V>::empty(),
        h.state() == State::<K, V>::empty(),
        allows(Kind::Group, g.state(), a),
        allows(Kind::Group, h.state(), b),
        same_course(Kind::Group, g.state(), n, a, b),
    ensures
        forall|i: int|
            0 <= i < a.len() ==> #[trigger] answer_at(Kind::Group, g.state(), a, i) == answer_at(
                Kind::Group,
                h.state(),
                b,
                i,
            ),
        forall|k: K|
            #![trigger history(Kind::Group, g.state(), a).keys.contains_key(k)]
            #![trigger history(Kind::Group, h.state(), b).keys.contains_key(k)]
            history(Kind::Group, g.state(), a).keys.contains_key(k) <==> history(
                Kind::Group,
                h.state(),
                b,
            ).keys.contains_key(k),
{
    law_courses_do_not_depend_on_names(Kind::Group, g.state(), h.state(), n, a, b);
}

/// The names that make `t` of `s`, where no calls are under way: an entry gets the name of the entry
/// that its key refers to.
pub open spec fn first_names<K, V>(s: State<K, V>, t: State<K, V>) -> Naming {
    Naming {
        entries: other_entries(s, t),
        entries_back: other_entries(t, s),
        calls: Map::empty(),
        calls_back: Map::empty(),
    }
}

/// For each entry of `s` the entry that its key refers to in `t`.
pub open spec fn other_entries<K, V>(s: State<K, V>, t: State<K, V>) -> Map<usize, usize> {
    Map::new(
        |e: usize| s.cells.contains_key(e),
        |e: usize| t.keys[choose|k: K| s.keys.contains_key(k) && #[trigger] s.keys[k] == e],
    )
}

/// Once maps that were just created with the same values are alike.
pub proof fn law_new_maps_are_alike<K, V>(s: State<K, V>, t: State<K, V>)
    requires
        begins(s),
        begins(t),
        forall|k: K| #[trigger] s.stored(k) == t.stored(k),
    ensures
        alike(s, t, first_names(s, t)),
{
    let n = first_names(s, t);
    assert forall|k: K| s.keys.contains_key(k) <==> #[trigger] t.keys.contains_key(k) by {
        assert(s.stored(k) == t.stored(k));
        if s.keys.contains_key(k) {
            assert(!s.in_use(s.keys[k]));
        }
        if t.keys.contains_key(k) {
            assert(!t.in_use(t.keys[k]));
        }
    }
    lemma_other_entries(s, t);
    lemma_other_entries(t, s);
    assert forall|e: usize| #[trigger] s.cells.contains_key(e) implies {
        &&& t.cells.contains_key(n.entries[e])
        &&& n.entries_back[n.entries[e]] == e
        &&& t.cells[n.entries[e]] == n.cell(s.cells[e])
    } by {
        let k = choose|k: K| s.keys.contains_key(k) && #[trigger] s.keys[k] == e;
        assert(s.attached(e));
        assert(s.stored(k) == t.stored(k));
        assert(t.keys.contains_key(k));
    }
    assert forall|e: usize| #[trigger] t.cells.contains_key(e) implies {
        &&& s.cells.contains_key(n.entries_back[e])
        &&& n.entries[n.entries_back[e]] == e
    } by {
        let k = choose|k: K| t.keys.contains_key(k) && #[trigger] t.keys[k] == e;
        assert(t.attached(e));
        assert(t.keys.contains_key(k));
    }
}

/// The other entry of the entry of a key is that of the key.
proof fn lemma_other_entries<K, V>(s: State<K, V>, t: State<K, V>)
    requires
        s.valid(),
    ensures
        forall|k: K| #[trigger]
            s.keys.contains_key(k) ==> other_entries(s, t)[s.keys[k]] == t.keys[k],
{
    assert forall|k: K| #[trigger] s.keys.contains_key(k) implies other_entries(s, t)[s.keys[k]]
        == t.keys[k] by {
        let j = choose|j: K| s.keys.contains_key(j) && #[trigger] s.keys[j] == s.keys[k];
        assert(j == k);
    }
}

/// A once map does the same whatever its hasher is: two maps that were just created, without values or
/// with the same, and with whatever hashers, give the same answers as long as the same happens to
/// them. So the same calls run the computation, wait and return, with the same results, and the same
/// values are stored in the end.
pub proof fn law_map_does_not_depend_on_its_hasher<K, V, S, T>(
    g: OnceMap<K, V, S>,
    h: OnceMap<K, V, T>,
    a: Seq<Step<K, V>>,
    b: Seq<Step<K, V>>,
)
    requires
        begins(g.state()),
        begins(h.state()),
        forall|k: K| #[trigger] g.state().stored(k) == h.state().stored(k),
        allows(Kind::Once, g.state(), a),
        allows(Kind::Once, h.state(), b),
        same_course(Kind::Once, g.state(), first_names(g.state(), h.state()), a, b),
    ensures
        forall|i: int|
            0 <= i < a.len() ==> #[trigger] answer_at(Kind::Once, g.state(), a, i) == answer_at(
                Kind::Once,
                h.state(),
                b,
                i,
            ),
        forall|k: K|
            #![trigger history(Kind::Once, g.state(), a).stored(k)]
            #![trigger history(Kind::Once, h.state(), b).stored(k)]
            history(Kind::Once, g.state(), a).stored(k) == history(
                Kind::Once,
                h.state(),
                b,
            ).stored(k),
{
    let n = first_names(g.state(), h.state());
    law_new_maps_are_alike(g.state(), h.state());
    law_courses_do_not_depend_on_names(Kind::Once, g.state(), h.state(), n, a, b);
}

/// What is looked up by a key, or by what a key borrows as, is the same under other names, and so is
/// what a removal leaves.
pub proof fn law_lookups_do_not_depend_on_names<K, V: Clone, Q: ?Sized>(
    s: State<K, V>,
    t: State<K, V>,
    n: Naming,
    key: &Q,
    value: Option<V>,
)
    requires
        s.valid(),
        t.valid(),
        alike(s, t, n),
        borrows_keys::<K, Q>(),
    ensures
        forall|k: K|
            #![trigger s.stored(k)]
            #![trigger t.stored(k)]
            s.stored(k) == t.stored(k),
        answers(s, key, value) <==> answers(t, key, value),
        alike(unbound(s, key), unbound(t, key), n),
{
    assert forall|k: K|
        #![trigger s.stored(k)]
        #![trigger t.stored(k)]
        s.stored(k) == t.stored(k) by {
        assert(t.keys.contains_key(k) <==> s.keys.contains_key(k));
    }
    lemma_unbound(s, key);
    lemma_unbound(t, key);
    if exists|k: K| #[trigger] denotes(key, k) && s.keys.contains_key(k) {
        let k = choose|k: K| #[trigger] denotes(key, k) && s.keys.contains_key(k);
        lemma_detached_alike(s, t, n, k);
    }
}

/// As many calls are under way under other names, in all and on the entry of each key.
pub proof fn law_counts_do_not_depend_on_names<K, V>(
    s: State<K, V>,
    t: State<K, V>,
    n: Naming,
    k: K,
)
    requires
        s.valid(),
        t.valid(),
        alike(s, t, n),
    ensures
        s.calls.len() == t.calls.len(),
        s.keys.contains_key(k) ==> callers(s.calls, s.keys[k]).len() == callers(
            t.calls,
            t.keys[k],
        ).len(),
        has_room(s, k) <==> has_room(t, k),
{
    let f = |c: nat| n.calls[c];
    assert forall|c: nat| #[trigger] t.calls.contains_key(c) implies s.calls.dom().map(f).contains(
        c,
    ) by {
        assert(f(n.calls_back[c]) == c);
    }
    assert(s.calls.dom().map(f) =~= t.calls.dom());
    lemma_map_size(s.calls.dom(), t.calls.dom(), f);
    if s.keys.contains_key(k) {
        let x = callers(s.calls, s.keys[k]);
        let y = callers(t.calls, t.keys[k]);
        assert forall|c: nat| #[trigger] y.contains(c) implies x.map(f).contains(c) by {
            let b = n.calls_back[c];
            assert(s.calls.contains_key(b));
            assert(x.contains(b));
            assert(f(b) == c);
        }
        assert(x.map(f) =~= y);
        lemma_map_size(x, y, f);
    }
}

/// `turn` gives `answer`, where `hands(v, r)` says that result `r` hands value `v` to the caller.
pub open spec fn gives<T, V, R>(
    turn: Turn<T, R>,
    answer: Answer<V>,
    hands: spec_fn(V, R) -> bool,
) -> bool {
    match answer {
        Answer::Run => turn is Run,
        Answer::Wait => turn is Wait,
        Answer::Return(v) => turn matches Turn::Return(r) && hands(v, r),
        Answer::Nothing => false,
    }
}

/// The step that a new call about `key` takes in `s`, when it does `turn` next. Where it is over at
/// once, it may be named `c`.
pub open spec fn arrival<K, V, T, R>(
    s: State<K, V>,
    key: K,
    turn: Turn<T, R>,
    c: nat,
) -> Step<K, V> {
    match turn {
        Turn::Run(guard) => Step::Arrive { key, call: guard.call(), entry: guard.entry() },
        Turn::Wait(guard) => Step::Arrive { key, call: guard.call(), entry: guard.entry() },
        Turn::Return(_) => Step::Arrive { key, call: c, entry: s.keys[key] },
    }
}

/// What a map of computations does with a new call is a step, and the turn gives the answer to it.
pub proof fn law_arrival_is_a_step<K, V, T, R>(
    kind: Kind,
    s: State<K, V>,
    key: K,
    tag: T,
    t: State<K, V>,
    turn: Turn<T, R>,
    hands: spec_fn(V, R) -> bool,
    c: nat,
)
    requires
        arrives(s, key, key, tag, t, turn, hands),
        !s.calls.contains_key(c),
    ensures
        can(s, arrival(s, key, turn, c)),
        t == after(kind, s, arrival(s, key, turn, c)),
        gives(turn, answer(s, arrival(s, key, turn, c)), hands),
{
}

/// What a map of computations does with a call that looks again is a step, and the turn gives the
/// answer to it.
pub proof fn law_waking_is_a_step<K, V, T, R>(
    kind: Kind,
    s: State<K, V>,
    guard: EntryGuard<T>,
    t: State<K, V>,
    turn: Turn<T, R>,
    hands: spec_fn(V, R) -> bool,
)
    requires
        holds(s, guard),
        !guard.running(),
        wakes(s, guard, t, turn, hands),
    ensures
        can(s, Step::Look { call: guard.call() }),
        t == after(kind, s, Step::Look { call: guard.call() }),
        gives(turn, answer(s, Step::Look { call: guard.call() }), hands),
{
}

} // verus!
