use std::hash::BuildHasher;
use std::hash::Hasher;
use std::hash::RandomState;

use mea::flight::EntryGuard;
use mea::flight::Event;
use mea::flight::Turn;
use mea::once::OnceMap;

fn run<T, R>(turn: Turn<T, R>) -> EntryGuard<T> {
    match turn {
        Turn::Run(guard) => {
            assert!(guard.is_running());
            guard
        }
        _ => panic!("expected to run the computation"),
    }
}

fn wait<T, R>(turn: Turn<T, R>) -> EntryGuard<T> {
    match turn {
        Turn::Wait(guard) => {
            assert!(!guard.is_running());
            guard
        }
        _ => panic!("expected to wait"),
    }
}

fn result<T, R>(turn: Turn<T, R>) -> R {
    match turn {
        Turn::Return(result) => result,
        _ => panic!("expected a result"),
    }
}

fn fill(map: &mut OnceMap<u64, String>, key: u64, value: &str) {
    let guard = run(map.compute(Event::Arrive(key)));
    let got = result(map.compute(Event::Finish(guard, value.to_string())));
    assert_eq!(got, value);
}

#[test]
fn new_map_is_empty() {
    let map: OnceMap<u64, String> = OnceMap::new();
    assert_eq!(map.get(&1), None);
    let map: OnceMap<u64, String> = OnceMap::default();
    assert_eq!(map.get(&1), None);
    let map: OnceMap<u64, String> = OnceMap::with_capacity(16);
    assert_eq!(map.get(&1), None);
}

#[test]
fn map_with_hasher_works() {
    let mut map: OnceMap<u64, String> = OnceMap::with_hasher(RandomState::new());
    assert_eq!(map.get(&1), None);
    fill(&mut map, 1, "a");
    assert_eq!(map.get(&1), Some("a".to_string()));
    let mut map: OnceMap<u64, String> = OnceMap::with_capacity_and_hasher(8, RandomState::new());
    assert_eq!(map.get(&1), None);
    fill(&mut map, 1, "b");
    assert_eq!(map.get(&1), Some("b".to_string()));
}

#[test]
fn computed_value_is_stored() {
    let mut map: OnceMap<u64, String> = OnceMap::new();
    fill(&mut map, 7, "seven");
    assert_eq!(map.get(&7), Some("seven".to_string()));
    assert_eq!(map.get(&8), None);
    assert_eq!(result(map.compute(Event::Arrive(7))), "seven");
    assert_eq!(map.active_calls(&7), 0);
}

#[test]
fn no_value_while_the_computation_runs() {
    let mut map: OnceMap<u64, String> = OnceMap::new();
    let guard = run(map.compute(Event::Arrive(7)));
    assert_eq!(map.get(&7), None);
    assert_eq!(map.active_calls(&7), 1);
    map.cancel(guard);
    assert_eq!(map.active_calls(&7), 0);
}

#[test]
fn duplicates_wait_and_receive_the_value() {
    let mut map: OnceMap<u64, String> = OnceMap::new();
    let first = run(map.compute(Event::Arrive(7)));
    let second = wait(map.compute(Event::Arrive(7)));
    let third = wait(map.compute(Event::Arrive(7)));
    assert_eq!(map.active_calls(&7), 3);
    let second = wait(map.compute(Event::Wake(second)));
    assert_eq!(result(map.compute(Event::Finish(first, "v".to_string()))), "v");
    assert_eq!(result(map.compute(Event::Wake(second))), "v");
    assert_eq!(result(map.compute(Event::Wake(third))), "v");
    assert_eq!(map.active_calls(&7), 0);
}

#[test]
fn other_keys_compute_for_themselves() {
    let mut map: OnceMap<u64, String> = OnceMap::new();
    let a = run(map.compute(Event::Arrive(1)));
    let b = run(map.compute(Event::Arrive(2)));
    assert_eq!(result(map.compute(Event::Finish(b, "b".to_string()))), "b");
    assert_eq!(map.get(&1), None);
    assert_eq!(map.get(&2), Some("b".to_string()));
    assert_eq!(result(map.compute(Event::Finish(a, "a".to_string()))), "a");
    assert_eq!(map.get(&1), Some("a".to_string()));
}

#[test]
fn cancelled_computation_is_retried_by_a_waiting_call() {
    let mut map: OnceMap<u64, String> = OnceMap::new();
    let first = run(map.compute(Event::Arrive(7)));
    let second = wait(map.compute(Event::Arrive(7)));
    map.cancel(first);
    assert_eq!(map.active_calls(&7), 1);
    let second = run(map.compute(Event::Wake(second)));
    let third = wait(map.compute(Event::Arrive(7)));
    assert_eq!(result(map.compute(Event::Finish(second, "v".to_string()))), "v");
    assert_eq!(result(map.compute(Event::Wake(third))), "v");
}

#[test]
fn a_new_call_may_retry_before_a_waiting_one_looks() {
    let mut map: OnceMap<u64, String> = OnceMap::new();
    let first = run(map.compute(Event::Arrive(7)));
    let second = wait(map.compute(Event::Arrive(7)));
    map.cancel(first);
    let third = run(map.compute(Event::Arrive(7)));
    let second = wait(map.compute(Event::Wake(second)));
    map.cancel(second);
    assert_eq!(result(map.compute(Event::Finish(third, "v".to_string()))), "v");
    assert_eq!(map.get(&7), Some("v".to_string()));
}

#[test]
fn waiting_call_that_goes_away_changes_nothing_for_the_runner() {
    let mut map: OnceMap<u64, String> = OnceMap::new();
    let first = run(map.compute(Event::Arrive(7)));
    let second = wait(map.compute(Event::Arrive(7)));
    map.cancel(second);
    assert_eq!(map.active_calls(&7), 1);
    assert_eq!(result(map.compute(Event::Finish(first, "v".to_string()))), "v");
}

#[test]
fn empty_entry_goes_with_its_last_caller() {
    let mut map: OnceMap<u64, String> = OnceMap::new();
    let guard = run(map.compute(Event::Arrive(1)));
    map.cancel(guard);
    // The next key takes over the room of the entry that is gone.
    fill(&mut map, 2, "two");
    assert_eq!(map.get(&1), None);
    assert_eq!(map.remove(&1), None);
    assert_eq!(map.get(&2), Some("two".to_string()));
}

#[test]
fn error_is_returned_and_not_stored() {
    let mut map: OnceMap<u64, String> = OnceMap::new();
    let guard = run(map.try_compute::<i32>(Event::Arrive(7)));
    let got = result(map.try_compute(Event::Finish(guard, Err::<String, i32>(5))));
    assert_eq!(got, Err(5));
    assert_eq!(map.get(&7), None);
    let guard = run(map.try_compute::<i32>(Event::Arrive(7)));
    let got = result(map.try_compute(Event::Finish(guard, Ok::<String, i32>("v".to_string()))));
    assert_eq!(got, Ok("v".to_string()));
    assert_eq!(map.get(&7), Some("v".to_string()));
    assert_eq!(result(map.try_compute::<i32>(Event::Arrive(7))), Ok("v".to_string()));
}

#[test]
fn waiting_calls_retry_after_an_error() {
    let mut map: OnceMap<u64, String> = OnceMap::new();
    let first = run(map.try_compute::<i32>(Event::Arrive(7)));
    let second = wait(map.try_compute::<i32>(Event::Arrive(7)));
    assert_eq!(
        result(map.try_compute(Event::Finish(first, Err::<String, i32>(1)))),
        Err(1)
    );
    let second = run(map.try_compute::<i32>(Event::Wake(second)));
    assert_eq!(
        result(map.try_compute(Event::Finish(second, Ok::<String, i32>("v".to_string())))),
        Ok("v".to_string())
    );
}

#[test]
fn discard_and_remove_take_out_their_key_only() {
    let mut map: OnceMap<u64, String> = OnceMap::new();
    fill(&mut map, 1, "one");
    fill(&mut map, 2, "two");
    fill(&mut map, 3, "three");
    map.discard(&1);
    assert_eq!(map.get(&1), None);
    assert_eq!(map.remove(&2), Some("two".to_string()));
    assert_eq!(map.get(&2), None);
    assert_eq!(map.remove(&2), None);
    map.discard(&9);
    assert_eq!(map.get(&3), Some("three".to_string()));
    fill(&mut map, 1, "uno");
    assert_eq!(map.get(&1), Some("uno".to_string()));
    assert_eq!(map.get(&3), Some("three".to_string()));
}

#[test]
fn remove_of_a_running_key_gives_nothing() {
    let mut map: OnceMap<u64, String> = OnceMap::new();
    let first = run(map.compute(Event::Arrive(7)));
    assert_eq!(map.remove(&7), None);
    // The key is free, and the first call is not affected.
    let second = run(map.compute(Event::Arrive(7)));
    assert_eq!(result(map.compute(Event::Finish(first, "old".to_string()))), "old");
    assert_eq!(map.get(&7), None);
    assert_eq!(result(map.compute(Event::Finish(second, "new".to_string()))), "new");
    assert_eq!(map.get(&7), Some("new".to_string()));
}

#[test]
fn discarded_entry_that_fails_leaves_the_new_one() {
    let mut map: OnceMap<u64, String> = OnceMap::new();
    let first = run(map.compute(Event::Arrive(7)));
    map.discard(&7);
    let second = run(map.compute(Event::Arrive(7)));
    map.cancel(first);
    assert_eq!(map.active_calls(&7), 1);
    assert_eq!(result(map.compute(Event::Finish(second, "v".to_string()))), "v");
    assert_eq!(map.get(&7), Some("v".to_string()));
}

#[test]
fn keys_are_found_by_what_they_borrow_as() {
    let mut map: OnceMap<String, u64> = OnceMap::new();
    let guard = run(map.compute(Event::Arrive("key".to_string())));
    assert_eq!(result(map.compute(Event::Finish(guard, 4))), 4);
    assert_eq!(map.get("key"), Some(4));
    assert_eq!(map.get("other"), None);
    assert_eq!(map.remove("key"), Some(4));
    assert_eq!(map.get("key"), None);
}

#[test]
fn from_iter_stores_the_last_value_of_each_key() {
    let items = vec![(1u64, 10u64), (2, 20), (1, 11)];
    let mut map: OnceMap<u64, u64> = OnceMap::from_iter(items);
    assert_eq!(map.get(&1), Some(11));
    assert_eq!(map.get(&2), Some(20));
    assert_eq!(map.get(&3), None);
    assert_eq!(result(map.compute(Event::Arrive(1))), 11);
    let map: OnceMap<u64, u64> = OnceMap::from_iter(Vec::new());
    assert_eq!(map.get(&1), None);
}

/// A value that counts how many clones it is away from the one that was computed.
#[derive(Debug, PartialEq)]
struct Copied(u32);

impl Clone for Copied {
    fn clone(&self) -> Self {
        Copied(self.0 + 1)
    }
}

#[test]
fn callers_receive_clones_of_what_is_stored() {
    let mut map: OnceMap<u64, Copied> = OnceMap::new();
    let first = run(map.compute(Event::Arrive(7)));
    let second = wait(map.compute(Event::Arrive(7)));
    assert_eq!(result(map.compute(Event::Finish(first, Copied(0)))), Copied(1));
    assert_eq!(result(map.compute(Event::Wake(second))), Copied(1));
    assert_eq!(result(map.compute(Event::Arrive(7))), Copied(1));
    assert_eq!(map.get(&7), Some(Copied(1)));
    assert_eq!(map.get(&7), Some(Copied(1)));
    assert_eq!(map.remove(&7), Some(Copied(1)));
}

#[test]
fn second_removal_by_a_borrowed_key_changes_nothing() {
    let mut map: OnceMap<String, u64> = OnceMap::from_iter(vec![
        ("a".to_string(), 1),
        ("b".to_string(), 2),
        ("c".to_string(), 3),
    ]);
    assert_eq!(map.get("a"), map.remove("a"));
    assert_eq!(map.get("a"), None);
    assert_eq!(map.remove("a"), None);
    map.discard("b");
    map.discard("b");
    assert_eq!(map.get("b"), None);
    assert_eq!(map.remove("b"), None);
    assert_eq!(map.get("c"), Some(3));
    map.discard("missing");
    assert_eq!(map.get("c"), Some(3));
}

#[test]
fn supplied_value_is_never_computed() {
    let mut map: OnceMap<u64, u64> = OnceMap::from_iter(vec![(1, 10)]);
    assert_eq!(result(map.compute(Event::Arrive(1))), 10);
    assert_eq!(result(map.try_compute::<u8>(Event::Arrive(1))), Ok(10));
    assert_eq!(map.active_calls(&1), 0);
    let other = run(map.compute(Event::Arrive(2)));
    assert_eq!(result(map.compute(Event::Finish(other, 20))), 20);
    assert_eq!(map.get(&1), Some(10));
}

#[test]
fn calls_on_a_discarded_entry_stay_together() {
    let mut map: OnceMap<u64, u64> = OnceMap::new();
    let first = run(map.compute(Event::Arrive(1)));
    let second = wait(map.compute(Event::Arrive(1)));
    map.discard(&1);
    // No other key gets the entry while calls are on it.
    let other = run(map.compute(Event::Arrive(2)));
    assert_eq!(result(map.compute(Event::Finish(other, 20))), 20);
    let second = wait(map.compute(Event::Wake(second)));
    assert_eq!(result(map.compute(Event::Finish(first, 10))), 10);
    assert_eq!(result(map.compute(Event::Wake(second))), 10);
    assert_eq!(map.get(&1), None);
    assert_eq!(map.get(&2), Some(20));
}

/// Sends all keys to one hash.
#[derive(Clone, Default)]
struct OneHash;

impl BuildHasher for OneHash {
    type Hasher = OneHash;

    fn build_hasher(&self) -> OneHash {
        OneHash
    }
}

impl Hasher for OneHash {
    fn finish(&self) -> u64 {
        0
    }

    fn write(&mut self, _bytes: &[u8]) {}
}

/// What a map does on a course of events: for each the value that is returned, or what to do.
fn course<S: BuildHasher + Clone>(map: &mut OnceMap<u64, u64, S>) -> Vec<String> {
    let mut seen = Vec::new();
    let mut guards = Vec::new();
    for key in [1, 2, 3, 1, 2, 9] {
        seen.push(match map.compute(Event::Arrive(key)) {
            Turn::Run(guard) => {
                guards.push(guard);
                format!("run {key}")
            }
            Turn::Wait(guard) => {
                guards.push(guard);
                format!("wait {key}")
            }
            Turn::Return(value) => format!("return {value}"),
        });
    }
    map.discard(&3);
    let mut waiting = Vec::new();
    for (i, guard) in guards.into_iter().enumerate() {
        if !guard.is_running() {
            waiting.push(guard);
        } else if i == 1 {
            map.cancel(guard);
            seen.push("cancel".to_string());
        } else {
            let value = result(map.compute(Event::Finish(guard, 10 * i as u64)));
            seen.push(format!("return {value}"));
        }
    }
    for guard in waiting {
        seen.push(match map.compute(Event::Wake(guard)) {
            Turn::Run(guard) => {
                let value = result(map.compute(Event::Finish(guard, 77)));
                format!("run and return {value}")
            }
            Turn::Wait(_) => panic!("nobody runs the computation"),
            Turn::Return(value) => format!("return {value}"),
        });
    }
    for key in [1, 2, 3, 4, 9] {
        seen.push(format!("{key}: {:?}", map.get(&key)));
    }
    seen.push(format!("removed {:?}", map.remove(&2)));
    seen.push(format!("then {:?}", map.get(&2)));
    seen
}

#[test]
fn results_do_not_depend_on_the_hasher() {
    let mut map: OnceMap<u64, u64> = OnceMap::new();
    let mut same: OnceMap<u64, u64, OneHash> = OnceMap::with_hasher(OneHash);
    assert_eq!(same.get(&1), None);
    let seen = course(&mut map);
    assert_eq!(seen, course(&mut same));
    let expected = vec![
        "run 1",
        "run 2",
        "run 3",
        "wait 1",
        "wait 2",
        "run 9",
        "return 0",
        "cancel",
        "return 20",
        "return 50",
        "return 0",
        "run and return 77",
        "1: Some(0)",
        "2: Some(77)",
        "3: None",
        "4: None",
        "9: Some(50)",
        "removed Some(77)",
        "then None",
    ];
    assert_eq!(seen, expected);
    let items = vec![(1, 5), (9, 6)];
    let mut map: OnceMap<u64, u64> = OnceMap::from_iter(items.clone());
    let mut same: OnceMap<u64, u64, OneHash> = OnceMap::from_iter(items);
    assert_eq!(course(&mut map), course(&mut same));
}

#[test]
fn entries_list_each_key_once() {
    let mut map: OnceMap<u64, u64> = OnceMap::from_iter(vec![(1, 10), (2, 20), (1, 11)]);
    let guard = run(map.compute(Event::Arrive(3)));
    let mut entries = map.entries();
    entries.sort();
    assert_eq!(entries, vec![(&1, Some(&11)), (&2, Some(&20)), (&3, None)]);
    map.cancel(guard);
    map.discard(&1);
    assert_eq!(map.entries(), vec![(&2, Some(&20))]);
}
