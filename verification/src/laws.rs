//! What holds of maps of computations whatever happens to them.
//!
//! The laws speak of the states that the contracts of [`crate::singleflight::Group`] and
//! [`crate::once::OnceMap`] speak of. For a group they suppose that a clone of a key is the key.

use vstd::prelude::*;
use vstd::std_specs::hash::contains_borrowed_key;

use crate::keys::answers;
use crate::keys::borrows_keys;
use crate::keys::denotes;
use crate::keys::lemma_unbound;
use crate::keys::unbound;
use crate::state::CallState;
use crate::state::CellState;
use crate::state::State;
use crate::state::elsewhere;
use crate::state::lemma_detached;
use crate::state::lemma_detached_kept;
use crate::state::lemma_dismissed;
use crate::state::lemma_entered;
use crate::state::lemma_left;
use crate::state::undisturbed;

verus! {

/// What can happen to a map of computations.
pub enum Step<K, V> {
    /// A call about `key` begins. Its entry is `entry`, unless there is a value already.
    Arrive { key: K, call: nat, entry: usize },
    /// A call that does not run the computation looks at its entry.
    Look { call: nat },
    /// A call ends the computation that it runs.
    Finish { call: nat, value: V },
    /// A call goes away.
    Cancel { call: nat },
    /// A key is forgotten, discarded or removed.
    Detach { key: K },
}

/// `step` can happen in `s`.
pub open spec fn can<K, V>(s: State<K, V>, step: Step<K, V>) -> bool {
    match step {
        Step::Arrive { key, call, entry } => s.can_enter(key, call, entry),
        Step::Look { call } => s.calls.contains_key(call) && !runs(s, call),
        Step::Finish { call, value: _ } => s.calls.contains_key(call) && runs(s, call),
        Step::Cancel { call } => s.calls.contains_key(call),
        Step::Detach { key: _ } => true,
    }
}

/// Call `c` runs the computation of its entry.
pub open spec fn runs<K, V>(s: State<K, V>, c: nat) -> bool {
    s.calls.contains_key(c) && s.cells[s.calls[c].entry] == CellState::<V>::Running(c)
}

/// What `step` makes of the state of a `OnceMap`.
pub open spec fn map_after<K, V>(s: State<K, V>, step: Step<K, V>) -> State<K, V> {
    match step {
        Step::Arrive { key, call, entry } => s.arrived(key, key, call, entry),
        Step::Look { call } => s.looked(call),
        Step::Finish { call, value } => s.computed(call, value),
        Step::Cancel { call } => s.cancelled(call),
        Step::Detach { key } => s.detached(key),
    }
}

/// What `step` makes of the state of a `Group`.
pub open spec fn group_after<K, V>(s: State<K, V>, step: Step<K, V>) -> State<K, V> {
    match step {
        Step::Finish { call, value } => s.worked(call, value),
        _ => map_after(s, step),
    }
}

/// The key that `step` is about.
pub open spec fn subject<K, V>(s: State<K, V>, step: Step<K, V>) -> K {
    match step {
        Step::Arrive { key, call: _, entry: _ } => key,
        Step::Look { call } => s.calls[call].key,
        Step::Finish { call, value: _ } => s.calls[call].key,
        Step::Cancel { call } => s.calls[call].key,
        Step::Detach { key } => key,
    }
}

/// The calls about `k` that have no value yet are all on the entry that `k` refers to.
pub open spec fn united<K, V>(s: State<K, V>, k: K) -> bool {
    forall|c: nat| #[trigger]
        s.calls.contains_key(c) && s.calls[c].key == k && !(s.cells[s.calls[c].entry] is Ready)
            ==> s.keys.contains_key(k) && s.keys[k] == s.calls[c].entry
}

/// A change of the cell of the entry of a call, where it is no other call that ran the computation
/// and none that runs it.
proof fn lemma_cell_changed<K, V>(s: State<K, V>, c: nat, cell: CellState<V>)
    requires
        s.valid(),
        s.calls.contains_key(c),
        cell matches CellState::Running(d) ==> d == c,
        s.cells[s.calls[c].entry] matches CellState::Running(d) ==> d == c,
    ensures
        ({
            let t = State { cells: s.cells.insert(s.calls[c].entry, cell), ..s };
            &&& t.valid()
            &&& s.keyed() ==> t.keyed()
            &&& s.attended() ==> t.attended()
            &&& s.in_flight() && !(cell is Ready) ==> t.in_flight()
            &&& undisturbed(s, t, Some(c))
            &&& s.keyed() ==> elsewhere(s, t, s.calls[c].key)
            &&& forall|e: usize| #[trigger] t.in_use(e) == s.in_use(e)
            &&& forall|e: usize| #[trigger] t.attached(e) == s.attached(e)
        }),
{
    let e = s.calls[c].entry;
    let t = State { cells: s.cells.insert(e, cell), ..s };
    assert forall|d: usize| #[trigger] t.in_use(d) == s.in_use(d) by {}
    assert forall|d: usize| #[trigger] t.attached(d) == s.attached(d) by {}
    assert(s.in_use(e));
    assert(s.cells.contains_key(e));
}

/// A call that begins keeps the state valid, and changes nothing for the others.
proof fn lemma_arrived<K, V>(s: State<K, V>, key: K, c: nat, e: usize)
    requires
        s.valid(),
        can(s, Step::Arrive { key, call: c, entry: e }),
    ensures
        ({
            let t = s.arrived(key, key, c, e);
            &&& t.valid()
            &&& s.keyed() ==> t.keyed()
            &&& s.attended() ==> t.attended()
            &&& s.keyed() && s.in_flight() ==> t.in_flight()
            &&& undisturbed(s, t, None)
            &&& elsewhere(s, t, key)
            &&& t.keys.contains_key(key)
            &&& s.stored(key) is None ==> t.calls == s.calls.insert(c, CallState { key, entry: e })
                && t.keys[key] == e
        }),
{
    if s.stored(key) is None {
        let x = s.entered(key, key, c, e);
        lemma_entered(s, key, key, c, e);
        if !(x.cells[e] is Running) {
            lemma_cell_changed(x, c, CellState::Running(c));
            assert(s.arrived(key, key, c, e) =~= x.started(c));
        }
    }
}

/// A call that looks at its entry keeps what every step keeps.
proof fn lemma_looked<K, V>(s: State<K, V>, c: nat)
    requires
        s.valid(),
        can(s, Step::Look { call: c }),
    ensures
        ({
            let t = s.looked(c);
            &&& t.valid()
            &&& s.keyed() ==> t.keyed()
            &&& s.keyed() && s.attended() ==> t.attended()
            &&& s.keyed() && s.in_flight() ==> t.in_flight()
            &&& undisturbed(s, t, Some(c))
            &&& s.keyed() ==> elsewhere(s, t, s.calls[c].key)
            &&& t.keys == s.keys
        }),
{
    match s.cells[s.calls[c].entry] {
        CellState::Empty => lemma_cell_changed(s, c, CellState::Running(c)),
        CellState::Running(_) => {},
        CellState::Ready(_) => {
            lemma_left(s, c);
            assert(s.left(c) == s.dismissed(c));
        },
    }
}

/// A call that goes away keeps what every step keeps.
proof fn lemma_cancelled<K, V>(s: State<K, V>, c: nat)
    requires
        s.valid(),
        s.calls.contains_key(c),
    ensures
        ({
            let t = s.cancelled(c);
            &&& t.valid()
            &&& s.keyed() ==> t.keyed()
            &&& s.keyed() && s.attended() ==> t.attended()
            &&& s.keyed() && s.in_flight() ==> t.in_flight()
            &&& undisturbed(s, t, Some(c))
            &&& s.keyed() ==> elsewhere(s, t, s.calls[c].key)
            &&& !t.calls.contains_key(c)
        }),
{
    let m = s.stopped(c);
    if runs(s, c) {
        lemma_cell_changed(s, c, CellState::Empty);
    }
    lemma_left(m, c);
    let t = s.cancelled(c);
    lemma_undisturbed_chain(s, m, t, Some(c));
    if s.keyed() {
        lemma_elsewhere_chain(s, m, t, s.calls[c].key);
    }
}

/// A call that ends the computation, whose value stays with the key, keeps what every step of a
/// `OnceMap` keeps.
proof fn lemma_computed<K, V>(s: State<K, V>, c: nat, v: V)
    requires
        s.valid(),
        runs(s, c),
    ensures
        ({
            let t = s.computed(c, v);
            &&& t.valid()
            &&& s.keyed() ==> t.keyed()
            &&& s.keyed() && s.attended() ==> t.attended()
            &&& undisturbed(s, t, Some(c))
            &&& s.keyed() ==> elsewhere(s, t, s.calls[c].key)
            &&& t.keys == s.keys
            &&& forall|e: usize| #[trigger]
                t.cells.contains_key(e) ==> t.cells[e] == s.settled(c, v).cells[e]
        }),
{
    lemma_cell_changed(s, c, CellState::Ready(v));
    let m = s.settled(c, v);
    lemma_left(m, c);
    lemma_dismissed(m, c);
    assert(m.left(c) == m.dismissed(c));
    let t = s.computed(c, v);
    lemma_undisturbed_chain(s, m, t, Some(c));
    if s.keyed() {
        lemma_elsewhere_chain(s, m, t, s.calls[c].key);
    }
}

/// A call that ends the computation, whose value is not for later calls, keeps what every step of a
/// `Group` keeps.
proof fn lemma_worked<K, V>(s: State<K, V>, c: nat, v: V)
    requires
        s.valid(),
        s.keyed(),
        runs(s, c),
    ensures
        ({
            let t = s.worked(c, v);
            &&& t.valid()
            &&& t.keyed()
            &&& s.in_flight() ==> t.in_flight()
            &&& undisturbed(s, t, Some(c))
            &&& elsewhere(s, t, s.calls[c].key)
            &&& t.keys == s.released(c).keys
            &&& forall|e: usize| #[trigger]
                t.cells.contains_key(e) ==> t.cells[e] == s.settled(c, v).cells[e]
        }),
{
    let k = s.calls[c].key;
    let e = s.calls[c].entry;
    let m = s.released(c);
    assert(s.in_use(e));
    if s.keeps(c) {
        lemma_detached(s, k);
        lemma_detached_kept(s, k);
        assert(m == s.detached(k));
    }
    assert(!m.attached(e)) by {
        if m.attached(e) {
            let j = choose|j: K| m.keys.contains_key(j) && #[trigger] m.keys[j] == e;
            assert(s.keys[j] == s.calls[c].entry);
        }
    }
    lemma_cell_changed(m, c, CellState::Ready(v));
    let n = m.settled(c, v);
    if s.in_flight() {
        assert forall|j: K| #[trigger] n.keys.contains_key(j) implies !(n.cells[n.keys[j]] is Ready)
            && n.in_use(n.keys[j]) by {
            assert(m.keys.contains_key(j));
            assert(m.keys[j] != e);
            assert(m.in_use(m.keys[j]));
        }
    }
    lemma_left(n, c);
    lemma_dismissed(n, c);
    assert(n.left(c) == n.dismissed(c));
    let t = s.worked(c, v);
    lemma_undisturbed_chain(s, m, n, Some(c));
    lemma_undisturbed_chain(s, n, t, Some(c));
    lemma_elsewhere_chain(s, m, n, k);
    lemma_elsewhere_chain(s, n, t, k);
}

/// To detach a key keeps what every step keeps.
proof fn lemma_key_detached<K, V>(s: State<K, V>, k: K)
    requires
        s.valid(),
    ensures
        ({
            let t = s.detached(k);
            &&& t.valid()
            &&& s.keyed() ==> t.keyed()
            &&& s.attended() ==> t.attended()
            &&& s.in_flight() ==> t.in_flight()
            &&& undisturbed(s, t, None)
            &&& elsewhere(s, t, k)
            &&& !t.keys.contains_key(k)
        }),
{
    if s.keys.contains_key(k) {
        lemma_detached(s, k);
        lemma_detached_kept(s, k);
    } else {
        assert(s.keys.remove(k) =~= s.keys);
        assert(s.detached(k) =~= s);
    }
}

/// What two changes leave as it is for the other keys, both leave as it is.
proof fn lemma_elsewhere_chain<K, V>(s: State<K, V>, m: State<K, V>, t: State<K, V>, k: K)
    requires
        elsewhere(s, m, k),
        elsewhere(m, t, k),
    ensures
        elsewhere(s, t, k),
{
    assert forall|j: K|
        #![trigger t.keys.contains_key(j)]
        #![trigger t.keys[j]]
        j != k implies {
        &&& t.keys.contains_key(j) <==> s.keys.contains_key(j)
        &&& s.keys.contains_key(j) ==> t.keys[j] == s.keys[j] && t.cells[s.keys[j]]
            == s.cells[s.keys[j]]
    } by {
        assert(m.keys.contains_key(j) <==> s.keys.contains_key(j));
    }
}

/// What two changes leave as it is, both leave as it is.
proof fn lemma_undisturbed_chain<K, V>(
    s: State<K, V>,
    m: State<K, V>,
    t: State<K, V>,
    own: Option<nat>,
)
    requires
        undisturbed(s, m, own),
        undisturbed(m, t, own),
    ensures
        undisturbed(s, t, own),
{
    assert forall|d: nat|
        #![trigger t.calls.contains_key(d)]
        #![trigger t.calls[d]]
        s.calls.contains_key(d) && own != Some(d) implies {
        let e = s.calls[d].entry;
        &&& t.calls.contains_key(d)
        &&& t.calls[d] == s.calls[d]
        &&& t.cells.contains_key(e)
        &&& t.cells[e] == CellState::<V>::Running(d) <==> s.cells[e] == CellState::<V>::Running(d)
    } by {
        assert(m.calls.contains_key(d));
    }
}

/// The call that `step` happens to, unless the call is only beginning.
pub open spec fn own<K, V>(step: Step<K, V>) -> Option<nat> {
    match step {
        Step::Arrive { key: _, call: _, entry: _ } => None,
        Step::Look { call } => Some(call),
        Step::Finish { call, value: _ } => Some(call),
        Step::Cancel { call } => Some(call),
        Step::Detach { key: _ } => None,
    }
}

/// What every step keeps, in a once map and in a group.
proof fn lemma_step<K, V>(s: State<K, V>, step: Step<K, V>)
    requires
        s.valid(),
        s.keyed(),
        can(s, step),
    ensures
        ({
            let t = map_after(s, step);
            &&& t.valid()
            &&& t.keyed()
            &&& s.attended() ==> t.attended()
            &&& undisturbed(s, t, own(step))
            &&& elsewhere(s, t, subject(s, step))
        }),
        ({
            let t = group_after(s, step);
            &&& t.valid()
            &&& t.keyed()
            &&& s.in_flight() ==> t.in_flight()
            &&& undisturbed(s, t, own(step))
            &&& elsewhere(s, t, subject(s, step))
        }),
        step matches Step::Arrive { key, call, entry } ==> {
            let t = s.arrived(key, key, call, entry);
            &&& t.keys.contains_key(key)
            &&& s.stored(key) is None ==> t.keys[key] == entry && t.calls == s.calls.insert(
                call,
                CallState { key, entry },
            )
        },
{
    match step {
        Step::Arrive { key, call, entry } => lemma_arrived(s, key, call, entry),
        Step::Look { call } => lemma_looked(s, call),
        Step::Finish { call, value } => {
            lemma_computed(s, call, value);
            lemma_worked(s, call, value);
        },
        Step::Cancel { call } => lemma_cancelled(s, call),
        Step::Detach { key } => lemma_key_detached(s, key),
    }
}

/// Every step of a group keeps its state valid, and keeps that each key stands for a computation that
/// is in flight: no key is left behind by calls that failed, were cancelled or completed.
pub proof fn law_group_keeps_keys_in_flight<K, V>(s: State<K, V>, step: Step<K, V>)
    requires
        s.valid(),
        s.keyed(),
        s.in_flight(),
        can(s, step),
    ensures
        group_after(s, step).valid(),
        group_after(s, step).keyed(),
        group_after(s, step).in_flight(),
{
    lemma_step(s, step);
}

/// Every step of a once map keeps its state valid, and keeps that an entry without a value has a call
/// that can compute it: no empty entry outlives its callers.
pub proof fn law_map_keeps_entries_attended<K, V>(s: State<K, V>, step: Step<K, V>)
    requires
        s.valid(),
        s.keyed(),
        s.attended(),
        can(s, step),
    ensures
        map_after(s, step).valid(),
        map_after(s, step).keyed(),
        map_after(s, step).attended(),
{
    lemma_step(s, step);
}

/// A step is about one key, and changes nothing for the other keys.
pub proof fn law_other_keys_unchanged<K, V>(s: State<K, V>, step: Step<K, V>)
    requires
        s.valid(),
        s.keyed(),
        can(s, step),
    ensures
        elsewhere(s, map_after(s, step), subject(s, step)),
        elsewhere(s, group_after(s, step), subject(s, step)),
{
    lemma_step(s, step);
}

/// Once an entry has its value, it keeps it for as long as a key or a call refers to the entry. So all
/// calls on an entry that return a value return the same one.
pub proof fn law_value_is_final<K, V>(s: State<K, V>, step: Step<K, V>, e: usize, v: V)
    requires
        s.valid(),
        can(s, step),
        s.cells.contains_key(e),
        s.cells[e] == CellState::Ready(v),
    ensures
        map_after(s, step).cells.contains_key(e) ==> map_after(s, step).cells[e]
            == CellState::Ready(v),
        group_after(s, step).cells.contains_key(e) ==> group_after(s, step).cells[e]
            == CellState::Ready(v),
{
}

/// Calls that wait for another call receive its result: when call `c` ends the computation with `v`,
/// the entry of every other call `d` on the entry holds `v`.
pub proof fn law_duplicates_receive_the_result<K, V>(s: State<K, V>, c: nat, d: nat, v: V)
    requires
        s.valid(),
        s.keyed(),
        runs(s, c),
        s.calls.contains_key(d),
        d != c,
        s.calls[d].entry == s.calls[c].entry,
    ensures
        s.worked(c, v).calls.contains_key(d),
        s.worked(c, v).cells[s.worked(c, v).calls[d].entry] == CellState::Ready(v),
        s.computed(c, v).calls.contains_key(d),
        s.computed(c, v).cells[s.computed(c, v).calls[d].entry] == CellState::Ready(v),
{
    lemma_worked(s, c, v);
    lemma_computed(s, c, v);
    assert(s.worked(c, v).calls.contains_key(d));
    assert(s.computed(c, v).calls.contains_key(d));
}

/// Only one execution is in flight for a key at a time: of the calls about `k` at most one runs the
/// computation, where those without a value are on the entry that `k` refers to.
pub proof fn law_one_execution_at_a_time<K, V>(s: State<K, V>, k: K, c: nat, d: nat)
    requires
        s.valid(),
        united(s, k),
        runs(s, c),
        runs(s, d),
        s.calls[c].key == k,
        s.calls[d].key == k,
    ensures
        c == d,
{
}

/// The calls about a key are together at first.
pub proof fn law_calls_about_a_key_are_united_at_first<K, V>(k: K)
    ensures
        united(State::<K, V>::empty(), k),
{
}

/// Nothing parts the calls about a key from one another until the key is detached.
pub proof fn law_calls_about_a_key_stay_united<K, V>(s: State<K, V>, step: Step<K, V>, k: K)
    requires
        s.valid(),
        s.keyed(),
        can(s, step),
        united(s, k),
        step != (Step::<K, V>::Detach { key: k }),
    ensures
        united(map_after(s, step), k),
        united(group_after(s, step), k),
{
    lemma_united_kept(s, map_after(s, step), step, k, true);
    lemma_united_kept(s, group_after(s, step), step, k, false);
}

/// The calls about `k` stay united in a once map, where `map` holds, and in a group.
proof fn lemma_united_kept<K, V>(
    s: State<K, V>,
    t: State<K, V>,
    step: Step<K, V>,
    k: K,
    map: bool,
)
    requires
        s.valid(),
        s.keyed(),
        can(s, step),
        united(s, k),
        step != (Step::<K, V>::Detach { key: k }),
        t == if map {
            map_after(s, step)
        } else {
            group_after(s, step)
        },
    ensures
        united(t, k),
{
    lemma_step(s, step);
    assert forall|c: nat| #[trigger]
        t.calls.contains_key(c) && t.calls[c].key == k && !(
        t.cells[t.calls[c].entry] is Ready) implies t.keys.contains_key(k) && t.keys[k]
        == t.calls[c].entry by {
        if s.calls.contains_key(c) {
            assert(t.calls[c] == s.calls[c]);
            assert(t.cells.contains_key(t.calls[c].entry));
            let e = s.calls[c].entry;
            if let CellState::Ready(v) = s.cells[e] {
                law_value_is_final(s, step, e, v);
            }
            assert(s.keys.contains_key(k) && s.keys[k] == e);
        }
    }
}

/// Once the function of a group completes, the key is not in the group, unless another call stands
/// behind it since it was forgotten. A later call `d` with the key executes the function again.
pub proof fn law_completed_key_is_removed<K, V>(s: State<K, V>, c: nat, v: V, d: nat, e: usize)
    requires
        s.valid(),
        s.keyed(),
        runs(s, c),
    ensures
        s.keeps(c) ==> s.worked(c, v).keys == s.keys.remove(s.calls[c].key),
        !s.keeps(c) ==> s.worked(c, v).keys == s.keys,
        s.keeps(c) && can(
            s.worked(c, v),
            Step::Arrive { key: s.calls[c].key, call: d, entry: e },
        ) ==> runs(s.worked(c, v).arrived(s.calls[c].key, s.calls[c].key, d, e), d),
{
    lemma_worked(s, c, v);
}

/// To forget a key affects later calls only: the key refers to nothing, so that a later call `d` runs
/// the computation, and the calls under way, and the entries that they are on, are what they were.
pub proof fn law_forget_spares_open_calls<K, V>(s: State<K, V>, k: K, d: nat, e: usize)
    requires
        s.valid(),
    ensures
        s.detached(k).keys == s.keys.remove(k),
        s.detached(k).calls == s.calls,
        can(s.detached(k), Step::Arrive { key: k, call: d, entry: e }) ==> runs(
            s.detached(k).arrived(k, k, d, e),
            d,
        ),
        forall|c: nat| #[trigger]
            s.calls.contains_key(c) ==> s.detached(k).cells.contains_key(s.calls[c].entry)
                && s.detached(k).cells[s.calls[c].entry] == s.cells[s.calls[c].entry],
{
    lemma_key_detached(s, k);
    assert forall|c: nat| #[trigger] s.calls.contains_key(c) implies s.detached(
        k,
    ).cells.contains_key(s.calls[c].entry) by {
        assert(s.detached(k).calls.contains_key(c));
    }
}

/// While another call `d` is on the entry, a call `c` that fails or is cancelled leaves the keys as
/// they are, so that no separate computation starts alongside `d`. Where it was `c` that ran the
/// computation, `d` retries it as soon as it looks.
pub proof fn law_others_retry<K, V>(s: State<K, V>, c: nat, d: nat)
    requires
        s.valid(),
        s.calls.contains_key(c),
        s.calls.contains_key(d),
        d != c,
        s.calls[d].entry == s.calls[c].entry,
    ensures
        s.cancelled(c).keys == s.keys,
        s.cancelled(c).calls == s.calls.remove(c),
        runs(s, c) ==> runs(s.cancelled(c).looked(d), d),
{
    lemma_cancelled(s, c);
    let m = s.stopped(c);
    let rest = State { calls: m.calls.remove(c), ..m };
    assert(rest.calls[d].entry == s.calls[c].entry);
    assert(rest.in_use(s.calls[c].entry));
    assert(s.cancelled(c).calls.contains_key(d));
}

/// The empty entry is removed once no current callers remain: the last call on an entry without a
/// value takes the key along, and the entry.
pub proof fn law_last_caller_clears_the_key<K, V>(s: State<K, V>, c: nat)
    requires
        s.valid(),
        s.keyed(),
        s.calls.contains_key(c),
        s.keeps(c),
        !(s.cells[s.calls[c].entry] is Ready),
        forall|d: nat| #[trigger]
            s.calls.contains_key(d) && d != c ==> s.calls[d].entry != s.calls[c].entry,
    ensures
        s.cancelled(c).keys == s.keys.remove(s.calls[c].key),
        !s.cancelled(c).cells.contains_key(s.calls[c].entry),
{
    let m = s.stopped(c);
    let e = s.calls[c].entry;
    if runs(s, c) {
        lemma_cell_changed(s, c, CellState::Empty);
    }
    let rest = State { calls: m.calls.remove(c), ..m };
    assert(!rest.in_use(e)) by {
        if rest.in_use(e) {
            let d = choose|d: nat|
                rest.calls.contains_key(d) && (#[trigger] rest.calls[d]).entry == e;
            assert(s.calls.contains_key(d));
        }
    }
    lemma_left(m, c);
}

/// A call that begins and goes away again leaves no trace.
pub proof fn law_cancel_undoes_arrival<K, V>(s: State<K, V>, key: K, c: nat, e: usize)
    requires
        s.valid(),
        s.keyed(),
        s.attended(),
        can(s, Step::Arrive { key, call: c, entry: e }),
        s.stored(key) is None,
    ensures
        s.arrived(key, key, c, e).cancelled(c) == s,
{
    lemma_arrived(s, key, c, e);
    let t = s.arrived(key, key, c, e);
    let m = t.stopped(c);
    if runs(t, c) {
        lemma_cell_changed(t, c, CellState::Empty);
    }
    let rest = State { calls: m.calls.remove(c), ..m };
    assert(rest.calls =~= s.calls);
    lemma_left(m, c);
    lemma_dismissed(m, c);
    if s.keys.contains_key(key) {
        assert(s.in_use(e));
        assert(rest.in_use(e));
        assert(m.left(c) =~= s);
    } else {
        assert(!rest.in_use(e)) by {
            if rest.in_use(e) {
                let d = choose|d: nat|
                    rest.calls.contains_key(d) && (#[trigger] rest.calls[d]).entry == e;
                assert(s.calls.contains_key(d));
            }
        }
        assert(m.left(c).keys =~= s.keys);
        assert(m.left(c).cells =~= s.cells);
        assert(m.left(c) =~= s);
    }
}

/// Who waits, waits for a call that is under way and runs the computation.
pub proof fn law_waiting_calls_wait_for_a_runner<K, V>(s: State<K, V>, c: nat, d: nat)
    requires
        s.valid(),
        s.calls.contains_key(c),
        s.cells[s.calls[c].entry] == CellState::<V>::Running(d),
    ensures
        runs(s, d),
        s.calls[d].entry == s.calls[c].entry,
{
}

/// A once map stores what was computed for a key, unless the key was discarded meanwhile: then it
/// stores nothing for the call.
pub proof fn law_computed_value_is_stored<K, V>(s: State<K, V>, c: nat, v: V)
    requires
        s.valid(),
        s.keyed(),
        runs(s, c),
    ensures
        s.keeps(c) ==> s.computed(c, v).stored(s.calls[c].key) == Some(v),
        !s.keeps(c) ==> forall|k: K| #[trigger] s.computed(c, v).stored(k) == s.stored(k),
{
    lemma_computed(s, c, v);
    let t = s.computed(c, v);
    let k = s.calls[c].key;
    if s.keeps(c) {
        assert(t.keys.contains_key(k));
        assert(t.cells.contains_key(t.keys[k]));
    } else {
        assert forall|j: K| #[trigger] t.stored(j) == s.stored(j) by {
            if s.keys.contains_key(j) {
                assert(t.keys.contains_key(j) && t.keys[j] == s.keys[j]);
                assert(t.cells.contains_key(t.keys[j]));
                assert(s.keys[j] != s.calls[c].entry);
            }
        }
    }
}

/// A once map keeps a value until its key is discarded or removed.
pub proof fn law_stored_value_stays<K, V>(s: State<K, V>, step: Step<K, V>, k: K, v: V)
    requires
        s.valid(),
        s.keyed(),
        can(s, step),
        s.stored(k) == Some(v),
        step != (Step::<K, V>::Detach { key: k }),
    ensures
        map_after(s, step).stored(k) == Some(v),
{
    let t = map_after(s, step);
    let e = s.keys[k];
    lemma_step(s, step);
    if subject(s, step) == k {
        assert(t.keys.contains_key(k) && t.keys[k] == e);
        assert(t.cells.contains_key(e));
        law_value_is_final(s, step, e, v);
    } else {
        assert(t.keys.contains_key(k));
    }
}

/// While a value is stored for a key, no call about the key runs the computation.
pub proof fn law_nothing_runs_for_a_stored_key<K, V>(s: State<K, V>, k: K, c: nat)
    requires
        s.valid(),
        united(s, k),
        s.stored(k) is Some,
        s.calls.contains_key(c),
        s.calls[c].key == k,
    ensures
        !runs(s, c),
{
}

/// A call that fails or is cancelled changes no stored value.
pub proof fn law_failure_stores_nothing<K, V>(s: State<K, V>, c: nat, k: K)
    requires
        s.valid(),
        s.keyed(),
        s.calls.contains_key(c),
    ensures
        s.cancelled(c).stored(k) == s.stored(k),
{
    lemma_cancelled(s, c);
    let t = s.cancelled(c);
    let m = s.stopped(c);
    if k == s.calls[c].key {
        if runs(s, c) {
            lemma_cell_changed(s, c, CellState::Empty);
        }
        lemma_left(m, c);
        lemma_dismissed(m, c);
        if s.keys.contains_key(k) && !s.keeps(c) {
            assert(t.keys.contains_key(k));
            assert(t.cells.contains_key(t.keys[k]));
        } else if let Some(v) = s.stored(k) {
            law_stored_value_stays(s, Step::Cancel { call: c }, k, v);
        } else if t.keys.contains_key(k) {
            assert(t.cells.contains_key(t.keys[k]));
        }
    } else {
        assert(t.keys.contains_key(k) <==> s.keys.contains_key(k));
    }
}

/// Once a key is discarded or removed, nothing is stored for it, and what is stored for the other
/// keys is what it was.
pub proof fn law_discard_removes_its_key_only<K, V>(s: State<K, V>, k: K, j: K)
    requires
        s.valid(),
    ensures
        s.detached(k).stored(k) is None,
        j != k ==> s.detached(k).stored(j) == s.stored(j),
{
    lemma_key_detached(s, k);
    assert(j != k ==> (s.detached(k).keys.contains_key(j) <==> s.keys.contains_key(j)));
}

/// The two kinds of maps of computations.
pub enum Kind {
    /// A `OnceMap`.
    Once,
    /// A `Group`.
    Group,
}

/// What `step` makes of the state of a map of computations.
pub open spec fn after<K, V>(kind: Kind, s: State<K, V>, step: Step<K, V>) -> State<K, V> {
    match kind {
        Kind::Once => map_after(s, step),
        Kind::Group => group_after(s, step),
    }
}

/// The state of a map of computations after `steps`, from `start` on.
pub open spec fn history<K, V>(
    kind: Kind,
    start: State<K, V>,
    steps: Seq<Step<K, V>>,
) -> State<K, V>
    decreases steps.len(),
{
    if steps.len() == 0 {
        start
    } else {
        after(kind, history(kind, start, steps.drop_last()), steps.last())
    }
}

/// Each of `steps` can happen to a map of computations when its turn comes.
pub open spec fn allows<K, V>(kind: Kind, start: State<K, V>, steps: Seq<Step<K, V>>) -> bool
    decreases steps.len(),
{
    steps.len() > 0 ==> allows(kind, start, steps.drop_last()) && can(
        history(kind, start, steps.drop_last()),
        steps.last(),
    )
}

/// The state of a group after `steps`, from its creation on.
pub open spec fn group_history<K, V>(steps: Seq<Step<K, V>>) -> State<K, V> {
    history(Kind::Group, State::empty(), steps)
}

/// Each of `steps` can happen in a group when its turn comes.
pub open spec fn group_allows<K, V>(steps: Seq<Step<K, V>>) -> bool {
    allows(Kind::Group, State::empty(), steps)
}

/// Whatever happens to a group, each key stands for a computation that is in flight, and of the calls
/// about a key that was never forgotten at most one runs the computation.
pub proof fn law_group_is_single_flight<K, V>(steps: Seq<Step<K, V>>, k: K)
    requires
        group_allows(steps),
    ensures
        group_history(steps).valid(),
        group_history(steps).keyed(),
        group_history(steps).in_flight(),
        !steps.contains(Step::Detach { key: k }) ==> united(group_history(steps), k),
        !steps.contains(Step::Detach { key: k }) ==> forall|c: nat, d: nat|
            #![trigger runs(group_history(steps), c), runs(group_history(steps), d)]
            runs(group_history(steps), c) && runs(group_history(steps), d) && group_history(
                steps,
            ).calls[c].key == k && group_history(steps).calls[d].key == k ==> c == d,
    decreases steps.len(),
{
    if steps.len() > 0 {
        let before = steps.drop_last();
        law_group_is_single_flight(before, k);
        law_group_keeps_keys_in_flight(group_history(before), steps.last());
        if !steps.contains(Step::Detach { key: k }) {
            assert(steps.last() == steps[steps.len() - 1]);
            assert forall|i: int| 0 <= i < before.len() implies before[i] == steps[i] by {}
            assert(!before.contains(Step::Detach { key: k }));
            law_calls_about_a_key_stay_united(group_history(before), steps.last(), k);
        }
    }
    let s = group_history(steps);
    if !steps.contains(Step::Detach { key: k }) {
        assert forall|c: nat, d: nat|
            #![trigger runs(s, c), runs(s, d)]
            runs(s, c) && runs(s, d) && s.calls[c].key == k && s.calls[d].key == k implies c == d by {
            law_one_execution_at_a_time(s, k, c, d);
        }
    }
}

/// The calls on one entry are about one key, also when that key does not refer to the entry any more,
/// and every step keeps it so: an entry serves no other key.
pub proof fn law_an_entry_serves_one_key<K, V>(s: State<K, V>, step: Step<K, V>, c: nat, d: nat)
    requires
        s.valid(),
        s.keyed(),
        can(s, step),
    ensures
        map_after(s, step).valid(),
        map_after(s, step).keyed(),
        group_after(s, step).valid(),
        group_after(s, step).keyed(),
        shares_entry(s, c, d) ==> s.calls[c].key == s.calls[d].key,
        shares_entry(map_after(s, step), c, d) ==> map_after(s, step).calls[c].key == map_after(
            s,
            step,
        ).calls[d].key,
        shares_entry(group_after(s, step), c, d) ==> group_after(s, step).calls[c].key
            == group_after(s, step).calls[d].key,
{
    lemma_step(s, step);
}

/// Different keys share nothing: they refer to different entries, and calls about them are on different
/// entries, so that none runs the computation of another key, or waits for it.
pub proof fn law_different_keys_share_nothing<K, V>(s: State<K, V>, j: K, k: K, c: nat, d: nat)
    requires
        s.valid(),
        s.keyed(),
        j != k,
    ensures
        s.keys.contains_key(j) && s.keys.contains_key(k) ==> s.keys[j] != s.keys[k],
        s.calls.contains_key(c) && s.calls[c].key == j && s.keys.contains_key(k) ==> s.keys[k]
            != s.calls[c].entry,
        s.calls.contains_key(c) && s.calls[c].key == j && s.calls.contains_key(d) && s.calls[d].key
            == k ==> s.calls[c].entry != s.calls[d].entry,
{
}

/// Calls `c` and `d` are under way on one entry.
pub open spec fn shares_entry<K, V>(s: State<K, V>, c: nat, d: nat) -> bool {
    s.calls.contains_key(c) && s.calls.contains_key(d) && s.calls[c].entry == s.calls[d].entry
}

/// The calls about `k` are all on the entry that `k` refers to.
pub open spec fn anchored<K, V>(s: State<K, V>, k: K) -> bool {
    forall|c: nat| #[trigger]
        s.calls.contains_key(c) && s.calls[c].key == k ==> s.keys.contains_key(k) && s.keys[k]
            == s.calls[c].entry
}

/// Every call of a once map about a key that is not discarded or removed stays on the entry that the
/// key refers to.
pub proof fn law_calls_stay_on_the_entry_of_their_key<K, V>(
    s: State<K, V>,
    step: Step<K, V>,
    k: K,
)
    requires
        s.valid(),
        s.keyed(),
        can(s, step),
        anchored(s, k),
        step != (Step::<K, V>::Detach { key: k }),
    ensures
        anchored(map_after(s, step), k),
{
    let t = map_after(s, step);
    lemma_step(s, step);
    assert forall|c: nat| #[trigger]
        t.calls.contains_key(c) && t.calls[c].key == k implies t.keys.contains_key(k) && t.keys[k]
        == t.calls[c].entry by {
        if s.calls.contains_key(c) {
            assert(t.calls[c] == s.calls[c]);
            assert(s.keys.contains_key(k) && s.keys[k] == s.calls[c].entry);
        }
    }
}

/// The value that `step` hands to the caller of the call that it happens to.
pub open spec fn handed<K, V>(s: State<K, V>, step: Step<K, V>) -> Option<V> {
    match step {
        Step::Arrive { key, call: _, entry: _ } => s.stored(key),
        Step::Look { call } => match s.cells[s.calls[call].entry] {
            CellState::Ready(v) => Some(v),
            _ => None,
        },
        Step::Finish { call: _, value } => Some(value),
        Step::Cancel { call: _ } => None,
        Step::Detach { key: _ } => None,
    }
}

/// What a once map hands to a caller about a key that is not discarded or removed is what it stores
/// for the key from then on.
pub proof fn law_callers_receive_the_stored_value<K, V>(s: State<K, V>, step: Step<K, V>, v: V)
    requires
        s.valid(),
        s.keyed(),
        can(s, step),
        anchored(s, subject(s, step)),
        handed(s, step) == Some(v),
    ensures
        map_after(s, step).stored(subject(s, step)) == Some(v),
{
    let k = subject(s, step);
    match step {
        Step::Finish { call, value } => {
            assert(s.calls.contains_key(call));
            assert(s.keeps(call));
            law_computed_value_is_stored(s, call, value);
        },
        Step::Look { call } => {
            assert(s.calls.contains_key(call));
            assert(s.stored(k) == Some(v));
            law_stored_value_stays(s, step, k, v);
        },
        _ => law_stored_value_stays(s, step, k, v),
    }
}

/// A once map begins in `start`: it is well formed, and no call is under way. So it is when it is
/// created, without or with values.
pub open spec fn begins<K, V>(start: State<K, V>) -> bool {
    &&& start.valid()
    &&& start.attended()
    &&& start.calls == Map::<nat, CallState<K>>::empty()
}

/// The state of a once map after `steps`, from `start` on.
pub open spec fn map_history<K, V>(start: State<K, V>, steps: Seq<Step<K, V>>) -> State<K, V> {
    history(Kind::Once, start, steps)
}

/// Each of `steps` can happen in a once map when its turn comes.
pub open spec fn map_allows<K, V>(start: State<K, V>, steps: Seq<Step<K, V>>) -> bool {
    allows(Kind::Once, start, steps)
}

/// The state of a once map before step `i` of `steps`.
pub open spec fn moment<K, V>(start: State<K, V>, steps: Seq<Step<K, V>>, i: int) -> State<K, V> {
    map_history(start, steps.take(i))
}

/// Step `i` of `steps` ends a computation for `k` with its value.
pub open spec fn completes<K, V>(
    start: State<K, V>,
    steps: Seq<Step<K, V>>,
    i: int,
    k: K,
) -> bool {
    &&& 0 <= i < steps.len()
    &&& steps[i] is Finish
    &&& subject(moment(start, steps, i), steps[i]) == k
}

/// Step `i` of `steps` hands a value to a caller about `k`.
pub open spec fn hands_over<K, V>(
    start: State<K, V>,
    steps: Seq<Step<K, V>>,
    i: int,
    k: K,
) -> bool {
    &&& 0 <= i < steps.len()
    &&& subject(moment(start, steps, i), steps[i]) == k
    &&& handed(moment(start, steps, i), steps[i]) is Some
}

/// A once map runs the computation to its end only once for each key that is never discarded or
/// removed, and not at all where it began with a value for the key. At no time two calls run it. Every
/// value that is handed to a caller about the key, and every value that is stored for it at any time,
/// is one and the same.
pub proof fn law_map_computes_once<K, V>(start: State<K, V>, steps: Seq<Step<K, V>>, k: K)
    requires
        begins(start),
        map_allows(start, steps),
        !steps.contains(Step::Detach { key: k }),
    ensures
        map_history(start, steps).valid(),
        map_history(start, steps).keyed(),
        map_history(start, steps).attended(),
        anchored(map_history(start, steps), k),
        forall|c: nat, d: nat|
            #![trigger runs(map_history(start, steps), c), runs(map_history(start, steps), d)]
            runs(map_history(start, steps), c) && runs(map_history(start, steps), d)
                && map_history(start, steps).calls[c].key == k && map_history(
                start,
                steps,
            ).calls[d].key == k ==> c == d,
        forall|i: int| #[trigger] completes(start, steps, i, k) ==> start.stored(k) is None,
        forall|i: int, j: int|
            #![trigger completes(start, steps, i, k), completes(start, steps, j, k)]
            completes(start, steps, i, k) && completes(start, steps, j, k) ==> i == j,
        forall|i: int| #[trigger]
            hands_over(start, steps, i, k) ==> map_history(start, steps).stored(k) == handed(
                moment(start, steps, i),
                steps[i],
            ),
        forall|i: int|
            0 <= i <= steps.len() && (#[trigger] moment(start, steps, i)).stored(k) is Some
                ==> map_history(start, steps).stored(k) == moment(start, steps, i).stored(k),
    decreases steps.len(),
{
    let t = map_history(start, steps);
    assert(steps.take(steps.len() as int) =~= steps);
    if steps.len() > 0 {
        let before = steps.drop_last();
        let n = before.len() as int;
        let s = map_history(start, before);
        let step = steps.last();
        assert forall|i: int| 0 <= i < n implies before[i] == steps[i] by {}
        assert(step == steps[n]);
        assert(!before.contains(Step::Detach { key: k }));
        law_map_computes_once(start, before, k);
        law_map_keeps_entries_attended(s, step);
        law_calls_stay_on_the_entry_of_their_key(s, step, k);
        assert forall|i: int| 0 <= i <= n implies #[trigger] moment(start, steps, i) == moment(
            start,
            before,
            i,
        ) by {
            assert(steps.take(i) =~= before.take(i));
        }
        assert(before.take(n) =~= before);
        assert(moment(start, before, 0) == start) by {
            assert(before.take(0) =~= Seq::empty());
        }
        if let Some(v) = s.stored(k) {
            law_stored_value_stays(s, step, k, v);
        }
        assert forall|i: int| #[trigger] completes(start, steps, i, k) implies (i < n
            && completes(start, before, i, k)) || (i == n && s.stored(k) is None) by {
            if i == n {
                let c = step->Finish_call;
                assert(s.calls.contains_key(c));
                assert(s.keys[k] == s.calls[c].entry);
            }
        }
        assert forall|i: int| #[trigger] completes(start, before, i, k) implies s.stored(k) is Some by {
            assert(hands_over(start, before, i, k));
        }
        assert forall|i: int| #[trigger] hands_over(start, steps, i, k) implies t.stored(k)
            == handed(moment(start, steps, i), steps[i]) by {
            if i < n {
                assert(hands_over(start, before, i, k));
            } else {
                let v = handed(s, step)->0;
                law_callers_receive_the_stored_value(s, step, v);
            }
        }
        assert forall|i: int|
            0 <= i <= steps.len() && (#[trigger] moment(start, steps, i)).stored(
                k,
            ) is Some implies t.stored(k) == moment(start, steps, i).stored(k) by {
            if i <= n {
                assert(moment(start, before, i).stored(k) is Some);
            }
        }
    } else {
        assert forall|i: int| 0 <= i <= steps.len() implies #[trigger] moment(start, steps, i)
            == start by {
            assert(steps.take(i) =~= steps);
        }
    }
    assert forall|c: nat, d: nat|
        #![trigger runs(t, c), runs(t, d)]
        runs(t, c) && runs(t, d) && t.calls[c].key == k && t.calls[d].key == k implies c == d by {
        assert(t.calls.contains_key(c) && t.calls.contains_key(d));
    }
}

/// A lookup by what a key borrows as has one answer: it finds a value exactly where one is stored for
/// the key that is denoted, and two answers are clones of the same value.
pub proof fn law_lookup_has_one_answer<K, V: Clone, Q: ?Sized>(
    s: State<K, V>,
    key: &Q,
    a: Option<V>,
    b: Option<V>,
)
    requires
        borrows_keys::<K, Q>(),
        answers(s, key, a),
        answers(s, key, b),
    ensures
        a is Some <==> exists|k: K| #[trigger] denotes(key, k) && s.stored(k) is Some,
        a is Some <==> b is Some,
        a is Some ==> exists|x: V| #[trigger] cloned(x, a->0) && cloned(x, b->0),
{
    if a is Some {
        let k = choose|k: K| #[trigger]
            denotes(key, k) && (s.stored(k) matches Some(x) && cloned(x, a->0));
        assert(cloned(s.stored(k)->0, a->0));
    }
}

/// After a key is forgotten, discarded or removed by what it borrows as, a lookup by that finds
/// nothing, and the other keys refer to what they did, with the same value. To do it again changes
/// nothing, nor does it change anything to begin with where the key is not there.
pub proof fn law_removal_takes_out_its_key_only<K, V, Q: ?Sized>(s: State<K, V>, key: &Q, k: K)
    requires
        s.valid(),
        borrows_keys::<K, Q>(),
    ensures
        unbound(s, key).valid(),
        !contains_borrowed_key(unbound(s, key).keys, key),
        denotes(key, k) ==> !unbound(s, key).keys.contains_key(k) && unbound(s, key).stored(
            k,
        ) is None,
        !denotes(key, k) ==> {
            &&& unbound(s, key).keys.contains_key(k) <==> s.keys.contains_key(k)
            &&& s.keys.contains_key(k) ==> unbound(s, key).keys[k] == s.keys[k]
            &&& unbound(s, key).stored(k) == s.stored(k)
        },
        unbound(s, key).calls == s.calls,
        !contains_borrowed_key(s.keys, key) ==> unbound(s, key) == s,
        unbound(unbound(s, key), key) == unbound(s, key),
{
    let t = unbound(s, key);
    lemma_unbound(s, key);
    if exists|j: K| #[trigger] denotes(key, j) && s.keys.contains_key(j) {
        let j = choose|j: K| #[trigger] denotes(key, j) && s.keys.contains_key(j);
        lemma_key_detached(s, j);
    }
    lemma_unbound(t, key);
}

} // verus!
