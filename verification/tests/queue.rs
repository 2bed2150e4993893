use containeros::model::Key;
use containeros::queue::{must_wake, next_wake, Queue, Slot, WakeAction};

fn key(name: &str) -> Key {
    Key { schema: "task".to_string(), name: Some(name.to_string()) }
}

fn drained_names(slots: &[Slot]) -> Vec<Vec<String>> {
    slots
        .iter()
        .map(|s| {
            let mut v: Vec<String> = s.keys.iter().map(|k| k.name.clone().unwrap()).collect();
            v.sort();
            v
        })
        .collect()
}

#[test]
fn past_deadline_executed_immediately() {
    let mut q = Queue::new();
    q.schedule_at(key("task"), 900);
    let now = 1000;
    assert_eq!(q.earliest(), Some(900));
    let slots = q.remove_expired_at(now);
    assert_eq!(drained_names(&slots), vec![vec!["task".to_string()]]);
    assert_eq!(q.earliest(), None);
}

#[test]
fn single_task_expires_after_deadline() {
    let mut q = Queue::new();
    let when = 2000;
    q.schedule_at(key("task"), when);
    assert!(q.remove_expired_at(when - 1).is_empty());
    let slots = q.remove_expired_at(when);
    assert_eq!(slots[0].when, when);
    assert_eq!(drained_names(&slots), vec![vec!["task".to_string()]]);
}

#[test]
fn multiple_tasks_same_instant_returned_together() {
    let mut q = Queue::new();
    let when = 50;
    for i in 0..3 {
        q.schedule_at(key(&i.to_string()), when);
    }
    let slots = q.remove_expired_at(when);
    assert_eq!(slots.len(), 1);
    assert_eq!(drained_names(&slots), vec![vec!["0".to_string(), "1".to_string(), "2".to_string()]]);
}

#[test]
fn multiple_tasks_different_instant_ordering() {
    let mut q = Queue::new();
    let when = 0;
    for i in 0..3u64 {
        q.schedule_at(key(&(i * 2).to_string()), when + i * 10);
        q.schedule_at(key(&(i * 2 + 1).to_string()), when + i * 10);
    }
    let slots = q.remove_expired_at(when + 50);
    assert_eq!(
        drained_names(&slots),
        vec![
            vec!["0".to_string(), "1".to_string()],
            vec!["2".to_string(), "3".to_string()],
            vec!["4".to_string(), "5".to_string()],
        ]
    );
}

#[test]
fn tasks_ordered_by_deadline() {
    let mut q = Queue::new();
    let when = 0;
    q.schedule_at(key("2"), when + 200);
    q.schedule_at(key("1"), when + 100);
    let first = q.remove_expired_at(when + 100);
    assert_eq!(drained_names(&first), vec![vec!["1".to_string()]]);
    let second = q.remove_expired_at(when + 200);
    assert_eq!(drained_names(&second), vec![vec!["2".to_string()]]);
}

#[test]
fn earlier_schedule_moves_the_key() {
    let mut q = Queue::new();
    q.schedule_at(key("a"), 100);
    q.schedule_at(key("a"), 10);
    let slots = q.remove_expired_at(100);
    // the slot it left stays, empty, until it is drained
    assert_eq!(drained_names(&slots), vec![vec!["a".to_string()], vec![]]);
    assert_eq!(slots[0].when, 10);
    assert_eq!(slots[1].when, 100);
}

#[test]
fn later_schedule_keeps_the_earlier_slot() {
    let mut q = Queue::new();
    q.schedule_at(key("a"), 10);
    q.schedule_at(key("a"), 100);
    let slots = q.remove_expired_at(100);
    assert_eq!(drained_names(&slots), vec![vec!["a".to_string()], vec!["a".to_string()]]);
}

#[test]
fn removed_key_is_not_drained() {
    let mut q = Queue::new();
    q.schedule_at(key("a"), 10);
    q.schedule_at(key("b"), 10);
    q.remove_key(&key("a"));
    let slots = q.remove_expired_at(10);
    assert_eq!(drained_names(&slots), vec![vec!["b".to_string()]]);
}

#[test]
fn bulk_schedule_puts_keys_together() {
    let mut q = Queue::new();
    q.schedule_at_bulk(vec![key("x"), key("y")], 5);
    let slots = q.remove_expired_at(5);
    assert_eq!(drained_names(&slots), vec![vec!["x".to_string(), "y".to_string()]]);
}

#[test]
fn waking_follows_the_earliest_deadline() {
    assert!(must_wake(Some(10), Some(5)));
    assert!(!must_wake(Some(5), Some(10)));
    assert!(!must_wake(Some(5), Some(5)));
    assert!(must_wake(None, Some(5)));
    assert!(must_wake(Some(5), None));
    assert!(!must_wake(None, None));
}

#[test]
fn the_loop_drains_once_the_earliest_time_has_come() {
    assert_eq!(next_wake(None, 10), WakeAction::WaitForWork);
    assert_eq!(next_wake(Some(10), 10), WakeAction::Drain);
    assert_eq!(next_wake(Some(5), 10), WakeAction::Drain);
    assert_eq!(next_wake(Some(11), 10), WakeAction::WaitUntil(11));
}

#[test]
fn rescheduling_earlier_with_other_keys_drains_once() {
    let mut q = Queue::new();
    q.schedule_at(key("a"), 20);
    q.schedule_at(key("b"), 15);
    q.schedule_at(key("a"), 10);
    q.schedule_at(key("c"), 12);
    let first = q.remove_expired_at(12);
    assert_eq!(drained_names(&first), vec![vec!["a".to_string()], vec!["c".to_string()]]);
    let later = q.remove_expired_at(30);
    assert_eq!(drained_names(&later), vec![vec!["b".to_string()], vec![]]);
}
