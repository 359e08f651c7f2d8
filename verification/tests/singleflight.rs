use std::hash::BuildHasher;
use std::hash::Hasher;
use std::hash::RandomState;

use mea::flight::EntryGuard;
use mea::flight::Event;
use mea::flight::Turn;
use mea::singleflight::Group;

fn run<T, R>(turn: Turn<T, R>) -> EntryGuard<T> {
    match turn {
        Turn::Run(guard) => {
            assert!(guard.is_running());
            guard
        }
        _ => panic!("expected to run the computation"),
    }
}

fn wait<T, R>(turn: Turn<T, R>) -> EntryGuard<T> {
    match turn {
        Turn::Wait(guard) => {
            assert!(!guard.is_running());
            guard
        }
        _ => panic!("expected to wait"),
    }
}

fn result<T, R>(turn: Turn<T, R>) -> R {
    match turn {
        Turn::Return(result) => result,
        _ => panic!("expected a result"),
    }
}

#[test]
fn duplicates_share_one_execution() {
    let mut group: Group<&str, &str> = Group::new();
    let mut executions = 0;
    let first = run(group.work(Event::Arrive("key")));
    let second = wait(group.work(Event::Arrive("key")));
    executions += 1;
    let r1 = result(group.work(Event::Finish(first, "result")));
    let r2 = result(group.work(Event::Wake(second)));
    assert_eq!(r1, "result");
    assert_eq!(r2, "result");
    assert_eq!(executions, 1);
}

#[test]
fn failed_attempt_is_retried_by_the_duplicate() {
    let mut group: Group<&str, &str> = Group::new();
    let first = run(group.try_work::<&str>(Event::Arrive("key")));
    let second = wait(group.try_work::<&str>(Event::Arrive("key")));
    let r1 = result(group.try_work(Event::Finish(first, Err("fut1"))));
    let second = run(group.try_work::<&str>(Event::Wake(second)));
    let r2 = result(group.try_work::<&str>(Event::Finish(second, Ok("fut2"))));
    assert_eq!(r1, Err("fut1"));
    assert_eq!(r2, Ok("fut2"));
}

#[test]
fn completed_key_executes_again() {
    let mut group: Group<u64, u64> = Group::default();
    let first = run(group.work(Event::Arrive(1)));
    assert_eq!(result(group.work(Event::Finish(first, 10))), 10);
    assert_eq!(group.active_calls(&1), 0);
    let second = run(group.work(Event::Arrive(1)));
    assert_eq!(result(group.work(Event::Finish(second, 20))), 20);
}

#[test]
fn call_after_completion_does_not_see_the_old_value() {
    let mut group: Group<u64, u64> = Group::with_hasher(RandomState::new());
    let first = run(group.work(Event::Arrive(1)));
    let second = wait(group.work(Event::Arrive(1)));
    assert_eq!(result(group.work(Event::Finish(first, 10))), 10);
    let third = run(group.work(Event::Arrive(1)));
    assert_eq!(result(group.work(Event::Finish(third, 30))), 30);
    assert_eq!(result(group.work(Event::Wake(second))), 10);
}

#[test]
fn cancelled_call_leaves_no_key() {
    let mut group: Group<u64, u64> = Group::new();
    let first = run(group.work(Event::Arrive(1)));
    assert_eq!(group.active_calls(&1), 1);
    group.cancel(first);
    assert_eq!(group.active_calls(&1), 0);
    let other = run(group.work(Event::Arrive(2)));
    let again = run(group.work(Event::Arrive(1)));
    assert_eq!(result(group.work(Event::Finish(other, 2))), 2);
    assert_eq!(result(group.work(Event::Finish(again, 1))), 1);
}

#[test]
fn failed_call_keeps_the_entry_for_those_who_wait() {
    let mut group: Group<u64, u64> = Group::new();
    let first = run(group.try_work::<u8>(Event::Arrive(1)));
    let second = wait(group.try_work::<u8>(Event::Arrive(1)));
    assert_eq!(result(group.try_work(Event::Finish(first, Err(3u8)))), Err(3));
    assert_eq!(group.active_calls(&1), 1);
    // A new call joins the one that waits.
    let third = run(group.try_work::<u8>(Event::Arrive(1)));
    let second = wait(group.try_work::<u8>(Event::Wake(second)));
    assert_eq!(group.active_calls(&1), 2);
    assert_eq!(result(group.try_work::<u8>(Event::Finish(third, Ok(8)))), Ok(8));
    assert_eq!(result(group.try_work::<u8>(Event::Wake(second))), Ok(8));
}

#[test]
fn forgotten_key_starts_a_new_execution() {
    let mut group: Group<u64, u64> = Group::new();
    let first = run(group.work(Event::Arrive(1)));
    let waiting = wait(group.work(Event::Arrive(1)));
    group.forget(&1);
    let second = run(group.work(Event::Arrive(1)));
    assert_eq!(result(group.work(Event::Finish(first, 10))), 10);
    // The end of the first execution does not take the key from the second.
    assert_eq!(group.active_calls(&1), 1);
    let third = wait(group.work(Event::Arrive(1)));
    assert_eq!(result(group.work(Event::Wake(waiting))), 10);
    assert_eq!(result(group.work(Event::Finish(second, 20))), 20);
    assert_eq!(result(group.work(Event::Wake(third))), 20);
    assert_eq!(group.active_calls(&1), 0);
}

#[test]
fn forgotten_call_that_is_cancelled_spares_the_new_one() {
    let mut group: Group<u64, u64> = Group::new();
    let first = run(group.work(Event::Arrive(1)));
    group.forget(&1);
    group.forget(&2);
    let second = run(group.work(Event::Arrive(1)));
    group.cancel(first);
    assert_eq!(group.active_calls(&1), 1);
    assert_eq!(result(group.work(Event::Finish(second, 20))), 20);
}

#[test]
fn keys_are_forgotten_by_what_they_borrow_as() {
    let mut group: Group<String, u64> = Group::new();
    let first = run(group.work(Event::Arrive("key".to_string())));
    group.forget("key");
    assert_eq!(group.active_calls(&"key".to_string()), 0);
    assert_eq!(result(group.work(Event::Finish(first, 1))), 1);
}

#[test]
fn other_keys_are_not_touched() {
    let mut group: Group<u64, u64> = Group::new();
    let a = run(group.work(Event::Arrive(1)));
    let b = run(group.work(Event::Arrive(2)));
    let b2 = wait(group.work(Event::Arrive(2)));
    assert_eq!(result(group.work(Event::Finish(a, 1))), 1);
    assert_eq!(group.active_calls(&2), 2);
    group.cancel(b);
    let b2 = run(group.work(Event::Wake(b2)));
    assert_eq!(result(group.work(Event::Finish(b2, 2))), 2);
}

#[test]
fn forgetting_twice_is_forgetting_once() {
    let mut group: Group<String, u64> = Group::new();
    let first = run(group.work(Event::Arrive("a".to_string())));
    let other = run(group.work(Event::Arrive("b".to_string())));
    group.forget("a");
    group.forget("a");
    group.forget("missing");
    assert_eq!(group.active_calls(&"a".to_string()), 0);
    assert_eq!(group.active_calls(&"b".to_string()), 1);
    assert_eq!(result(group.work(Event::Finish(first, 1))), 1);
    assert_eq!(result(group.work(Event::Finish(other, 2))), 2);
}

#[test]
fn calls_on_a_forgotten_entry_stay_together() {
    let mut group: Group<u64, u64> = Group::new();
    let first = run(group.work(Event::Arrive(1)));
    let second = wait(group.work(Event::Arrive(1)));
    group.forget(&1);
    // No other key gets the entry while calls are on it.
    let other = run(group.work(Event::Arrive(2)));
    assert_eq!(result(group.work(Event::Finish(other, 20))), 20);
    group.cancel(first);
    let second = run(group.work(Event::Wake(second)));
    assert_eq!(result(group.work(Event::Finish(second, 10))), 10);
}

/// A value that counts how many clones it is away from the one that was computed.
#[derive(Debug, PartialEq)]
struct Copied(u32);

impl Clone for Copied {
    fn clone(&self) -> Self {
        Copied(self.0 + 1)
    }
}

#[test]
fn every_caller_receives_a_clone_of_the_result() {
    let mut group: Group<u64, Copied> = Group::new();
    let first = run(group.work(Event::Arrive(1)));
    let second = wait(group.work(Event::Arrive(1)));
    assert_eq!(result(group.work(Event::Finish(first, Copied(0)))), Copied(1));
    assert_eq!(result(group.work(Event::Wake(second))), Copied(1));
}

/// Sends all keys to one hash.
#[derive(Clone, Default)]
struct OneHash;

impl BuildHasher for OneHash {
    type Hasher = OneHash;

    fn build_hasher(&self) -> OneHash {
        OneHash
    }
}

impl Hasher for OneHash {
    fn finish(&self) -> u64 {
        0
    }

    fn write(&mut self, _bytes: &[u8]) {}
}

/// What a group does on a course of events: for each the value that is returned, or what to do.
fn course<S: BuildHasher + Clone>(group: &mut Group<u64, u64, S>) -> Vec<String> {
    let mut seen = Vec::new();
    let mut guards = Vec::new();
    for key in [1, 2, 1, 3, 2] {
        seen.push(match group.work(Event::Arrive(key)) {
            Turn::Run(guard) => {
                guards.push(guard);
                format!("run {key}")
            }
            Turn::Wait(guard) => {
                guards.push(guard);
                format!("wait {key}")
            }
            Turn::Return(value) => format!("return {value}"),
        });
    }
    group.forget(&3);
    let mut waiting = Vec::new();
    for (i, guard) in guards.into_iter().enumerate() {
        if !guard.is_running() {
            waiting.push(guard);
        } else if i == 1 {
            let failed = result(group.try_work(Event::Finish(guard, Err::<u64, u64>(4))));
            seen.push(format!("{failed:?}"));
        } else {
            let value = result(group.work(Event::Finish(guard, 10 * i as u64)));
            seen.push(format!("return {value}"));
        }
    }
    for guard in waiting {
        seen.push(match group.work(Event::Wake(guard)) {
            Turn::Run(guard) => {
                let value = result(group.work(Event::Finish(guard, 77)));
                format!("run and return {value}")
            }
            Turn::Wait(_) => panic!("nobody runs the function"),
            Turn::Return(value) => format!("return {value}"),
        });
    }
    seen.push(format!("{} left", group.entries().len()));
    seen
}

#[test]
fn results_of_a_group_do_not_depend_on_the_hasher() {
    let mut group: Group<u64, u64> = Group::new();
    let mut same: Group<u64, u64, OneHash> = Group::with_hasher(OneHash);
    let seen = course(&mut group);
    assert_eq!(seen, course(&mut same));
    let expected = vec![
        "run 1",
        "run 2",
        "wait 1",
        "run 3",
        "wait 2",
        "return 0",
        "Err(4)",
        "return 30",
        "return 0",
        "run and return 77",
        "0 left",
    ];
    assert_eq!(seen, expected);
}

#[test]
fn entries_list_the_keys_in_flight() {
    let mut group: Group<u64, u64> = Group::new();
    let guard = run(group.work(Event::Arrive(3)));
    assert_eq!(group.entries(), vec![(&3, None)]);
    assert_eq!(result(group.work(Event::Finish(guard, 30))), 30);
    assert!(group.entries().is_empty());
}
