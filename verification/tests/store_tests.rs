use time_bandit::store::{Store, StoreError};
use time_bandit::types::{Event, Task};

#[test]
fn fresh_store_is_empty() {
    let s = Store::new();
    assert_eq!(s.get_tasks().len(), 0);
    assert_eq!(s.get_events().len(), 0);
    assert_eq!(s.get_tasks_with_events().len(), 0);
}

#[test]
fn writing_scenario() {
    // resolveTask("writing", "blog posts") -> id 1, then one 1800 s event.
    let mut s = Store::new();
    let e = s
        .add_task_event(
            "writing".to_string(),
            "blog posts".to_string(),
            "2024-01-01T10:00:00Z".to_string(),
            1800,
        )
        .unwrap();
    assert_eq!(e.id, 1);
    assert_eq!(e.task_id, 1);
    assert_eq!(e.duration, 1800);
    assert_eq!(e.time_stamp, "2024-01-01T10:00:00Z");
    assert_eq!(s.get_time_spent_by_task(1).unwrap(), 1800);
    let by_name = s.get_events_by_task("writing".to_string());
    assert_eq!(by_name.len(), 1);
    assert_eq!(by_name[0].task_name, "writing");
    assert_eq!(by_name[0].event.id, 1);
}

#[test]
fn resolving_twice_returns_same_id() {
    // resolveTask("reading", "") twice: same id, no second row.
    let mut s = Store::new();
    let e1 = s
        .add_task_event("reading".to_string(), "".to_string(), "t1".to_string(), 10)
        .unwrap();
    let e2 = s
        .add_task_event("reading".to_string(), "".to_string(), "t2".to_string(), 20)
        .unwrap();
    assert_eq!(e1.task_id, e2.task_id);
    assert_eq!(s.get_tasks().len(), 1);
}

#[test]
fn first_details_are_persisted() {
    let mut s = Store::new();
    s.add_task_event("gym".to_string(), "leg day".to_string(), "t1".to_string(), 1)
        .unwrap();
    s.add_task_event("gym".to_string(), "arm day".to_string(), "t2".to_string(), 2)
        .unwrap();
    let tasks = s.get_tasks();
    assert_eq!(tasks.len(), 1);
    assert_eq!(tasks[0].details, Some("leg day".to_string()));
}

#[test]
fn details_become_event_notes() {
    let mut s = Store::new();
    s.add_task_event("gym".to_string(), "leg day".to_string(), "t1".to_string(), 1)
        .unwrap();
    s.add_task_event("gym".to_string(), "arm day".to_string(), "t2".to_string(), 2)
        .unwrap();
    let events = s.get_events();
    assert_eq!(events[0].event.notes, Some("leg day".to_string()));
    assert_eq!(events[1].event.notes, Some("arm day".to_string()));
}

#[test]
fn ids_are_sequential() {
    let mut s = Store::new();
    let t1 = s.create_task("one", "").unwrap();
    let t2 = s.create_task("two", "").unwrap();
    assert_eq!(t1.id, 1);
    assert_eq!(t2.id, 2);
    let e1 = s.create_event(t1.id, "", "ts", 5).unwrap();
    let e2 = s.create_event(t2.id, "", "ts", 6).unwrap();
    assert_eq!(e1.id, 1);
    assert_eq!(e2.id, 2);
}

#[test]
fn create_task_rejects_duplicate_name() {
    let mut s = Store::new();
    s.create_task("alpha", "first").unwrap();
    let err = s.create_task("alpha", "second").unwrap_err();
    assert_eq!(err, StoreError::ConstraintViolation);
    assert_eq!(s.get_tasks().len(), 1);
}

#[test]
fn create_event_rejects_unknown_task() {
    let mut s = Store::new();
    let err = s.create_event(7, "notes", "ts", 1).unwrap_err();
    assert_eq!(err, StoreError::ConstraintViolation);
    assert_eq!(s.get_events().len(), 0);
}

#[test]
fn lookup_unknown_name_is_none() {
    let mut s = Store::new();
    s.create_task("known", "").unwrap();
    assert_eq!(s.get_task_id_by_name("known"), Some(1));
    assert_eq!(s.get_task_id_by_name("unknown"), None);
}

#[test]
fn events_for_unknown_task_are_empty_not_an_error() {
    let mut s = Store::new();
    s.add_task_event("a".to_string(), "".to_string(), "ts".to_string(), 3)
        .unwrap();
    assert_eq!(s.get_events_by_task("nope".to_string()).len(), 0);
}

#[test]
fn total_for_task_without_events_is_zero() {
    let mut s = Store::new();
    let t = s.create_task("idle", "").unwrap();
    assert_eq!(s.get_time_spent_by_task(t.id).unwrap(), 0);
    // An id no task carries also sums to zero, not an error.
    assert_eq!(s.get_time_spent_by_task(999).unwrap(), 0);
}

#[test]
fn total_sums_only_the_asked_task() {
    let mut s = Store::new();
    s.add_task_event("a".to_string(), "".to_string(), "t".to_string(), 100)
        .unwrap();
    s.add_task_event("b".to_string(), "".to_string(), "t".to_string(), 7)
        .unwrap();
    s.add_task_event("a".to_string(), "".to_string(), "t".to_string(), 200)
        .unwrap();
    let a = s.get_task_id_by_name("a").unwrap();
    let b = s.get_task_id_by_name("b").unwrap();
    assert_eq!(s.get_time_spent_by_task(a).unwrap(), 300);
    assert_eq!(s.get_time_spent_by_task(b).unwrap(), 7);
}

#[test]
fn total_overflowing_the_row_type_is_a_storage_error() {
    let mut s = Store::new();
    let t = s.create_task("busy", "").unwrap();
    s.create_event(t.id, "", "ts", i32::MAX as u64).unwrap();
    s.create_event(t.id, "", "ts", i32::MAX as u64).unwrap();
    assert_eq!(s.get_time_spent_by_task(t.id).unwrap_err(), StoreError::Storage);
}

#[test]
fn round_trip_through_the_join() {
    let mut s = Store::new();
    let t = s.create_task("deep work", "details").unwrap();
    let e = s
        .create_event(t.id, "long session", "2024-02-02T08:00:00Z", 3600)
        .unwrap();
    let all = s.get_events();
    assert_eq!(all.len(), 1);
    assert_eq!(all[0].event, e);
    assert_eq!(all[0].task_name, "deep work");
    let named = s.get_events_by_task("deep work".to_string());
    assert_eq!(named.len(), 1);
    assert_eq!(named[0].event.notes, Some("long session".to_string()));
    assert_eq!(named[0].event.time_stamp, "2024-02-02T08:00:00Z");
    assert_eq!(named[0].event.duration, 3600);
}

#[test]
fn join_is_complete_over_all_tasks() {
    let mut s = Store::new();
    s.add_task_event("a".to_string(), "".to_string(), "t1".to_string(), 1)
        .unwrap();
    s.add_task_event("b".to_string(), "".to_string(), "t2".to_string(), 2)
        .unwrap();
    s.add_task_event("a".to_string(), "".to_string(), "t3".to_string(), 3)
        .unwrap();
    s.create_task("c", "no events yet").unwrap();
    let tasks = s.get_tasks();
    let with_events = s.get_tasks_with_events();
    assert_eq!(with_events.len(), tasks.len());
    for (task, grouped) in tasks.iter().zip(with_events.iter()) {
        assert_eq!(&grouped.task, task);
    }
    let mut grouped_ids: Vec<i32> = Vec::new();
    for g in &with_events {
        for e in g.events.as_ref().unwrap() {
            assert_eq!(e.task_id, g.task.id);
            grouped_ids.push(e.id);
        }
    }
    let all = s.get_events();
    let mut flat_ids: Vec<i32> = all.iter().map(|x| x.event.id).collect();
    grouped_ids.sort();
    flat_ids.sort();
    assert_eq!(grouped_ids, flat_ids);
}

#[test]
fn task_with_no_events_gets_an_empty_list() {
    let mut s = Store::new();
    s.create_task("quiet", "").unwrap();
    let with_events = s.get_tasks_with_events();
    assert_eq!(with_events.len(), 1);
    assert_eq!(with_events[0].events, Some(Vec::new()));
}

#[test]
fn reopening_rows_reproduces_the_store() {
    let mut s = Store::new();
    s.add_task_event("a".to_string(), "da".to_string(), "t1".to_string(), 4)
        .unwrap();
    s.add_task_event("b".to_string(), "db".to_string(), "t2".to_string(), 5)
        .unwrap();
    let tasks = s.get_tasks();
    let events: Vec<Event> = s.get_events().into_iter().map(|x| x.event).collect();
    let reopened = Store::from_rows(tasks.clone(), events.clone()).unwrap();
    assert_eq!(reopened.get_tasks(), s.get_tasks());
    let again: Vec<Event> = reopened.get_events().into_iter().map(|x| x.event).collect();
    assert_eq!(again, events);
    // Opening the reproduced rows once more changes nothing either.
    let third = Store::from_rows(reopened.get_tasks(), again.clone()).unwrap();
    assert_eq!(third.get_tasks(), tasks);
    let third_events: Vec<Event> = third.get_events().into_iter().map(|x| x.event).collect();
    assert_eq!(third_events, events);
}

#[test]
fn reopened_store_keeps_assigning_fresh_ids() {
    let tasks = vec![Task {
        id: 5,
        name: "old".to_string(),
        details: None,
    }];
    let events = vec![Event {
        id: 9,
        task_id: 5,
        notes: None,
        time_stamp: "ts".to_string(),
        duration: 30,
    }];
    let mut s = Store::from_rows(tasks, events).unwrap();
    let t = s.create_task("new", "").unwrap();
    assert_eq!(t.id, 6);
    let e = s.create_event(5, "", "ts", 1).unwrap();
    assert_eq!(e.id, 10);
}

#[test]
fn from_rows_rejects_duplicate_task_ids() {
    let tasks = vec![
        Task { id: 1, name: "a".to_string(), details: None },
        Task { id: 1, name: "b".to_string(), details: None },
    ];
    let r = Store::from_rows(tasks, Vec::new());
    assert_eq!(r.unwrap_err(), StoreError::ConstraintViolation);
}

#[test]
fn from_rows_rejects_duplicate_task_names() {
    let tasks = vec![
        Task { id: 1, name: "a".to_string(), details: None },
        Task { id: 2, name: "a".to_string(), details: None },
    ];
    let r = Store::from_rows(tasks, Vec::new());
    assert_eq!(r.unwrap_err(), StoreError::ConstraintViolation);
}

#[test]
fn from_rows_rejects_empty_task_name() {
    let tasks = vec![Task { id: 1, name: "".to_string(), details: None }];
    let r = Store::from_rows(tasks, Vec::new());
    assert_eq!(r.unwrap_err(), StoreError::ConstraintViolation);
}

#[test]
fn from_rows_rejects_dangling_event() {
    let tasks = vec![Task { id: 1, name: "a".to_string(), details: None }];
    let events = vec![Event {
        id: 1,
        task_id: 2,
        notes: None,
        time_stamp: "ts".to_string(),
        duration: 1,
    }];
    let r = Store::from_rows(tasks, events);
    assert_eq!(r.unwrap_err(), StoreError::ConstraintViolation);
}

#[test]
fn from_rows_rejects_negative_duration() {
    let tasks = vec![Task { id: 1, name: "a".to_string(), details: None }];
    let events = vec![Event {
        id: 1,
        task_id: 1,
        notes: None,
        time_stamp: "ts".to_string(),
        duration: -1,
    }];
    let r = Store::from_rows(tasks, events);
    assert_eq!(r.unwrap_err(), StoreError::ConstraintViolation);
}

#[test]
fn from_rows_rejects_nonpositive_ids() {
    let tasks = vec![Task { id: 0, name: "a".to_string(), details: None }];
    let r = Store::from_rows(tasks, Vec::new());
    assert_eq!(r.unwrap_err(), StoreError::ConstraintViolation);
}
