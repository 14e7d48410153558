//! The store: the single entry point through which every front end
//! resolves task names, records events and runs the read queries.
//!
//! The store holds the two tables as plain rows in memory and is the
//! component that enforces their invariants. Because every mutation
//! takes the store by exclusive borrow, task creation is serialised:
//! the find-or-create sequence in [`Store::add_task_event`] cannot race
//! against another writer, and [`Store::create_task`] additionally
//! refuses a duplicate name outright, so the one-row-per-name guarantee
//! holds however the operations are combined. A failed mutation leaves
//! the store exactly as it was — a session that fails to record rolls
//! back the task creation it may have begun, so no half-completed write
//! survives.

use vstd::prelude::*;
use vstd::string::StringExecFns;

use crate::model::{
    events_of_task, events_wf, find_task, find_task_by_id, has_task_id, join_one, joined_events,
    joined_events_named, lemma_events_of_task_push, lemma_find_task_at, lemma_find_task_by_id_at,
    lemma_find_task_by_id_none, lemma_find_task_by_id_spec, lemma_find_task_none,
    lemma_find_task_spec, lemma_joined_events_named_push, lemma_max_event_id_ge,
    lemma_max_event_id_push, lemma_max_task_id_ge, lemma_max_task_id_push,
    lemma_total_duration_prefix_le, lemma_total_duration_push, max_event_id, max_task_id,
    open_spec, recorded_event, resolve_spec, store_wf, task_name_of, tasks_wf,
    total_duration, StoreView,
};
use crate::types::{
    event_seq_view, ewtn_seq_view, task_seq_view, Event, EventView, EventWithTaskName, Task,
    TaskView, TaskWithEvents,
};

verus! {

/// How a store operation fails.
///
/// Queries that merely match nothing do not fail: they return empty
/// lists or zero.
#[derive(Clone, Copy, Debug, PartialEq, Eq, Structural)]
pub enum StoreError {
    /// The backing rows cannot take the write: no identifier is left to
    /// assign, or an aggregate no longer fits its row type.
    Storage,
    /// The write would violate the schema: a duplicate task name, or an
    /// event referencing a task id that does not exist.
    ConstraintViolation,
}

/// Whether some row of `tasks` carries the id `id`.
fn rows_have_task_id(tasks: &Vec<Task>, id: i32) -> (r: bool)
    ensures
        r == has_task_id(task_seq_view(tasks@), id as int),
{
    let ghost tv = task_seq_view(tasks@);
    let n = tasks.len();
    let mut i: usize = 0;
    while i < n
        invariant
            n == tasks@.len(),
            tv == task_seq_view(tasks@),
            0 <= i <= n,
            forall|k: int| 0 <= k < i ==> (#[trigger] tv[k]).id != id as int,
        decreases n - i,
    {
        proof {
            assert(tv[i as int] == tasks@[i as int]@);
        }
        if tasks[i].id == id {
            proof {
                assert(tv[i as int].id == id as int);
            }
            return true;
        }
        i += 1;
    }
    proof {
        assert(forall|k: int| 0 <= k < tv.len() ==> (#[trigger] tv[k]).id != id as int);
    }
    false
}

/// The persistence core: the task table and the event table, plus the
/// next free id for each (always one past the largest id in use, as the
/// backing row store would assign it).
#[derive(Debug)]
pub struct Store {
    tasks: Vec<Task>,
    events: Vec<Event>,
    next_task_id: i64,
    next_event_id: i64,
}

impl View for Store {
    type V = StoreView;

    closed spec fn view(&self) -> StoreView {
        StoreView { tasks: task_seq_view(self.tasks@), events: event_seq_view(self.events@) }
    }
}

impl Store {
    /// The invariant every store operation preserves: well-formed
    /// tables, and the cached next ids one past the largest in use.
    pub closed spec fn wf(self) -> bool {
        &&& store_wf(self@)
        &&& self.next_task_id == max_task_id(self@.tasks) + 1
        &&& self.next_event_id == max_event_id(self@.events) + 1
    }

    /// A fresh store with both tables present and empty.
    pub fn new() -> (s: Store)
        ensures
            s.wf(),
            s@.tasks == Seq::<TaskView>::empty(),
            s@.events == Seq::<EventView>::empty(),
    {
        let s = Store { tasks: Vec::new(), events: Vec::new(), next_task_id: 1, next_event_id: 1 };
        proof {
            assert(s@.tasks =~= Seq::<TaskView>::empty());
            assert(s@.events =~= Seq::<EventView>::empty());
        }
        s
    }

    /// Look a task up by exact name; `None` when no task has the name.
    pub fn get_task_id_by_name(&self, task_name: &str) -> (r: Option<i32>)
        ensures
            match r {
                Some(id) => find_task(self@.tasks, task_name@) matches Some(t) && t.id == id as int,
                None => find_task(self@.tasks, task_name@) is None,
            },
    {
        let needle = String::from_str(task_name);
        let n = self.tasks.len();
        let mut i: usize = 0;
        while i < n
            invariant
                n == self.tasks@.len(),
                0 <= i <= n,
                needle@ == task_name@,
                forall|k: int| 0 <= k < i ==> (#[trigger] self@.tasks[k]).name != task_name@,
            decreases n - i,
        {
            proof {
                assert(self@.tasks[i as int] == self.tasks@[i as int]@);
            }
            if self.tasks[i].name == needle {
                proof {
                    lemma_find_task_at(self@.tasks, task_name@, i as int);
                }
                return Some(self.tasks[i].id);
            }
            i += 1;
        }
        proof {
            lemma_find_task_none(self@.tasks, task_name@);
        }
        None
    }

    /// Insert a new task row carrying `task_name` and `details`,
    /// returning the populated row.
    ///
    /// The name is the business key: a name already in use is refused
    /// with [`StoreError::ConstraintViolation`], never silently
    /// duplicated. [`StoreError::Storage`] is returned only when no
    /// task id is left to assign.
    pub fn create_task(&mut self, task_name: &str, details: &str) -> (r: Result<Task, StoreError>)
        requires
            old(self).wf(),
            task_name@.len() > 0,
        ensures
            final(self).wf(),
            match r {
                Ok(t) => {
                    &&& find_task(old(self)@.tasks, task_name@) is None
                    &&& max_task_id(old(self)@.tasks) + 1 <= i32::MAX as int
                    &&& t@ == (TaskView {
                        id: max_task_id(old(self)@.tasks) + 1,
                        name: task_name@,
                        details: Some(details@),
                    })
                    &&& final(self)@.tasks == old(self)@.tasks.push(t@)
                    &&& final(self)@.events == old(self)@.events
                },
                Err(StoreError::ConstraintViolation) => {
                    &&& find_task(old(self)@.tasks, task_name@) is Some
                    &&& *final(self) == *old(self)
                },
                Err(StoreError::Storage) => {
                    &&& find_task(old(self)@.tasks, task_name@) is None
                    &&& max_task_id(old(self)@.tasks) + 1 > i32::MAX as int
                    &&& *final(self) == *old(self)
                },
            },
    {
        if self.get_task_id_by_name(task_name).is_some() {
            return Err(StoreError::ConstraintViolation);
        }
        if self.next_task_id > i32::MAX as i64 {
            return Err(StoreError::Storage);
        }
        let ghost old_tasks = self@.tasks;
        let id = self.next_task_id as i32;
        let t = Task {
            id,
            name: String::from_str(task_name),
            details: Some(String::from_str(details)),
        };
        let result = t.clone();
        proof {
            lemma_find_task_spec(old_tasks, task_name@);
        }
        self.tasks.push(t);
        self.next_task_id = self.next_task_id + 1;
        proof {
            assert(self@.tasks =~= old_tasks.push(t@));
            lemma_max_task_id_push(old_tasks, t@);
            assert forall|i: int, j: int| 0 <= i < j < self@.tasks.len() implies (
            #[trigger] self@.tasks[i]).id != (#[trigger] self@.tasks[j]).id by {
                if j == old_tasks.len() {
                    lemma_max_task_id_ge(old_tasks, i);
                }
            }
            assert forall|i: int|
                0 <= i < old(self)@.events.len() implies has_task_id(
                self@.tasks,
                (#[trigger] old(self)@.events[i]).task_id,
            ) by {
                let j = choose|j: int|
                    0 <= j < old_tasks.len() && old_tasks[j].id == old(self)@.events[i].task_id;
                assert(self@.tasks[j].id == old(self)@.events[i].task_id);
            }
        }
        Ok(result)
    }

    /// Whether some task row carries `task_id` — the existence check
    /// behind the foreign key on events.
    fn has_task(&self, task_id: i32) -> (r: bool)
        ensures
            r == has_task_id(self@.tasks, task_id as int),
    {
        rows_have_task_id(&self.tasks, task_id)
    }

    /// Insert one event row owned by `task_id`, returning the populated
    /// row.
    ///
    /// The foreign key is enforced: a `task_id` no task carries is
    /// refused with [`StoreError::ConstraintViolation`] and nothing is
    /// written. [`StoreError::Storage`] is returned only when no event
    /// id is left to assign.
    pub fn create_event(&mut self, task_id: i32, notes: &str, now: &str, duration: u64) -> (r:
        Result<Event, StoreError>)
        requires
            old(self).wf(),
            duration <= i32::MAX as u64,
        ensures
            final(self).wf(),
            match r {
                Ok(e) => {
                    &&& has_task_id(old(self)@.tasks, task_id as int)
                    &&& max_event_id(old(self)@.events) + 1 <= i32::MAX as int
                    &&& e@ == recorded_event(
                        old(self)@.events,
                        task_id as int,
                        notes@,
                        now@,
                        duration as int,
                    )
                    &&& final(self)@.tasks == old(self)@.tasks
                    &&& final(self)@.events == old(self)@.events.push(e@)
                },
                Err(StoreError::ConstraintViolation) => {
                    &&& !has_task_id(old(self)@.tasks, task_id as int)
                    &&& *final(self) == *old(self)
                },
                Err(StoreError::Storage) => {
                    &&& has_task_id(old(self)@.tasks, task_id as int)
                    &&& max_event_id(old(self)@.events) + 1 > i32::MAX as int
                    &&& *final(self) == *old(self)
                },
            },
    {
        if !self.has_task(task_id) {
            return Err(StoreError::ConstraintViolation);
        }
        if self.next_event_id > i32::MAX as i64 {
            return Err(StoreError::Storage);
        }
        let ghost old_events = self@.events;
        let id = self.next_event_id as i32;
        let e = Event {
            id,
            task_id,
            notes: Some(String::from_str(notes)),
            time_stamp: String::from_str(now),
            duration: duration as i32,
        };
        let result = e.clone();
        self.events.push(e);
        self.next_event_id = self.next_event_id + 1;
        proof {
            assert(self@.events =~= old_events.push(e@));
            lemma_max_event_id_push(old_events, e@);
            assert forall|x: int, j: int| 0 <= x < j < self@.events.len() implies (
            #[trigger] self@.events[x]).id != (#[trigger] self@.events[j]).id by {
                if j == old_events.len() {
                    lemma_max_event_id_ge(old_events, x);
                }
            }
        }
        Ok(result)
    }

    /// Open a store over rows loaded from the backing file. The rows
    /// are taken as they stand — ids, order and all — after checking
    /// the schema invariants the store maintains: positive distinct
    /// ids, non-empty distinct names, non-negative durations, and the
    /// foreign key from every event to its task. Rows violating them
    /// are refused whole with [`StoreError::ConstraintViolation`], so
    /// opening the rows a store produced always succeeds and reproduces
    /// the store: initialisation is idempotent.
    pub fn from_rows(tasks: Vec<Task>, events: Vec<Event>) -> (r: Result<Store, StoreError>)
        ensures
            match r {
                Ok(s) => {
                    &&& open_spec(task_seq_view(tasks@), event_seq_view(events@)) == Some(s@)
                    &&& s.wf()
                    &&& s@.tasks == task_seq_view(tasks@)
                    &&& s@.events == event_seq_view(events@)
                },
                Err(StoreError::ConstraintViolation) => open_spec(
                    task_seq_view(tasks@),
                    event_seq_view(events@),
                ) is None,
                Err(StoreError::Storage) => false,
            },
    {
        let ghost tv = task_seq_view(tasks@);
        let ghost evv = event_seq_view(events@);
        let n = tasks.len();
        let m = events.len();
        let mut i: usize = 0;
        while i < n
            invariant
                n == tasks@.len(),
                tv == task_seq_view(tasks@),
                0 <= i <= n,
                forall|k: int| 0 <= k < i ==> 1 <= (#[trigger] tv[k]).id,
                forall|k: int| 0 <= k < i ==> (#[trigger] tv[k]).name.len() > 0,
                forall|k: int, l: int|
                    0 <= k < l < i ==> (#[trigger] tv[k]).id != (#[trigger] tv[l]).id,
                forall|k: int, l: int|
                    0 <= k < l < i ==> (#[trigger] tv[k]).name != (#[trigger] tv[l]).name,
            decreases n - i,
        {
            proof {
                assert(tv[i as int] == tasks@[i as int]@);
            }
            if tasks[i].id < 1 {
                proof {
                    assert(!tasks_wf(tv));
                }
                return Err(StoreError::ConstraintViolation);
            }
            if tasks[i].name.as_str().is_empty() {
                proof {
                    assert(!tasks_wf(tv));
                }
                return Err(StoreError::ConstraintViolation);
            }
            let mut j: usize = 0;
            while j < i
                invariant
                    n == tasks@.len(),
                    tv == task_seq_view(tasks@),
                    0 <= j <= i < n,
                    forall|k: int| 0 <= k < j ==> (#[trigger] tv[k]).id != tv[i as int].id,
                    forall|k: int| 0 <= k < j ==> (#[trigger] tv[k]).name != tv[i as int].name,
                decreases i - j,
            {
                proof {
                    assert(tv[j as int] == tasks@[j as int]@);
                    assert(tv[i as int] == tasks@[i as int]@);
                }
                if tasks[j].id == tasks[i].id {
                    proof {
                        assert(!tasks_wf(tv));
                    }
                    return Err(StoreError::ConstraintViolation);
                }
                if tasks[j].name == tasks[i].name {
                    proof {
                        assert(!tasks_wf(tv));
                    }
                    return Err(StoreError::ConstraintViolation);
                }
                j += 1;
            }
            i += 1;
        }
        proof {
            assert(tasks_wf(tv));
        }
        let mut i: usize = 0;
        while i < m
            invariant
                m == events@.len(),
                tv == task_seq_view(tasks@),
                evv == event_seq_view(events@),
                tasks_wf(tv),
                0 <= i <= m,
                forall|k: int| 0 <= k < i ==> 1 <= (#[trigger] evv[k]).id,
                forall|k: int| 0 <= k < i ==> (#[trigger] evv[k]).duration >= 0,
                forall|k: int, l: int|
                    0 <= k < l < i ==> (#[trigger] evv[k]).id != (#[trigger] evv[l]).id,
                forall|k: int| 0 <= k < i ==> has_task_id(tv, (#[trigger] evv[k]).task_id),
            decreases m - i,
        {
            proof {
                assert(evv[i as int] == events@[i as int]@);
            }
            if events[i].id < 1 || events[i].duration < 0 {
                proof {
                    assert(!events_wf(tv, evv));
                }
                return Err(StoreError::ConstraintViolation);
            }
            if !rows_have_task_id(&tasks, events[i].task_id) {
                proof {
                    assert(!events_wf(tv, evv));
                }
                return Err(StoreError::ConstraintViolation);
            }
            let mut j: usize = 0;
            while j < i
                invariant
                    m == events@.len(),
                    evv == event_seq_view(events@),
                    0 <= j <= i < m,
                    forall|k: int| 0 <= k < j ==> (#[trigger] evv[k]).id != evv[i as int].id,
                decreases i - j,
            {
                proof {
                    assert(evv[j as int] == events@[j as int]@);
                    assert(evv[i as int] == events@[i as int]@);
                }
                if events[j].id == events[i].id {
                    proof {
                        assert(!events_wf(tv, evv));
                    }
                    return Err(StoreError::ConstraintViolation);
                }
                j += 1;
            }
            i += 1;
        }
        proof {
            assert(events_wf(tv, evv));
        }
        let mut max_t: i64 = 0;
        let mut i: usize = 0;
        while i < n
            invariant
                n == tasks@.len(),
                tv == task_seq_view(tasks@),
                0 <= i <= n,
                0 <= max_t <= i32::MAX as i64,
                max_t as int == max_task_id(tv.take(i as int)),
            decreases n - i,
        {
            proof {
                assert(tv[i as int] == tasks@[i as int]@);
                assert(tv.take(i as int + 1).drop_last() =~= tv.take(i as int));
                assert(tv.take(i as int + 1).last() == tv[i as int]);
            }
            if tasks[i].id as i64 > max_t {
                max_t = tasks[i].id as i64;
            }
            i += 1;
        }
        let mut max_e: i64 = 0;
        let mut i: usize = 0;
        while i < m
            invariant
                m == events@.len(),
                evv == event_seq_view(events@),
                0 <= i <= m,
                0 <= max_e <= i32::MAX as i64,
                max_e as int == max_event_id(evv.take(i as int)),
            decreases m - i,
        {
            proof {
                assert(evv[i as int] == events@[i as int]@);
                assert(evv.take(i as int + 1).drop_last() =~= evv.take(i as int));
                assert(evv.take(i as int + 1).last() == evv[i as int]);
            }
            if events[i].id as i64 > max_e {
                max_e = events[i].id as i64;
            }
            i += 1;
        }
        proof {
            assert(tv.take(n as int) =~= tv);
            assert(evv.take(m as int) =~= evv);
        }
        let s = Store { tasks, events, next_task_id: max_t + 1, next_event_id: max_e + 1 };
        proof {
            assert(s@.tasks == tv);
            assert(s@.events == evv);
            assert(s@ == StoreView { tasks: tv, events: evv });
        }
        Ok(s)
    }

    /// Fetch all tasks, in row order.
    pub fn get_tasks(&self) -> (r: Vec<Task>)
        ensures
            task_seq_view(r@) == self@.tasks,
    {
        let n = self.tasks.len();
        let mut out: Vec<Task> = Vec::new();
        let mut i: usize = 0;
        while i < n
            invariant
                n == self.tasks@.len(),
                0 <= i <= n,
                task_seq_view(out@) =~= self@.tasks.take(i as int),
            decreases n - i,
        {
            proof {
                assert(self@.tasks[i as int] == self.tasks@[i as int]@);
            }
            let ghost prev = out@;
            out.push(self.tasks[i].clone());
            proof {
                assert(task_seq_view(out@) =~= task_seq_view(prev).push(self@.tasks[i as int]));
                assert(task_seq_view(out@) =~= self@.tasks.take(i as int + 1));
            }
            i += 1;
        }
        proof {
            assert(self@.tasks.take(n as int) =~= self@.tasks);
        }
        out
    }

    /// The name of the task carrying `id`, if any task does.
    fn task_name_by_id(&self, id: i32) -> (r: Option<String>)
        ensures
            match r {
                Some(s) => find_task_by_id(self@.tasks, id as int) matches Some(t) && t.name == s@,
                None => find_task_by_id(self@.tasks, id as int) is None,
            },
    {
        let n = self.tasks.len();
        let mut i: usize = 0;
        while i < n
            invariant
                n == self.tasks@.len(),
                0 <= i <= n,
                forall|k: int| 0 <= k < i ==> (#[trigger] self@.tasks[k]).id != id as int,
            decreases n - i,
        {
            proof {
                assert(self@.tasks[i as int] == self.tasks@[i as int]@);
            }
            if self.tasks[i].id == id {
                proof {
                    lemma_find_task_by_id_at(self@.tasks, id as int, i as int);
                }
                return Some(self.tasks[i].name.clone());
            }
            i += 1;
        }
        proof {
            lemma_find_task_by_id_none(self@.tasks, id as int);
        }
        None
    }

    /// Fetch every event, each joined with the name of its task, in row
    /// order.
    pub fn get_events(&self) -> (r: Vec<EventWithTaskName>)
        requires
            self.wf(),
        ensures
            ewtn_seq_view(r@) == joined_events(self@.tasks, self@.events),
    {
        let n = self.events.len();
        let mut out: Vec<EventWithTaskName> = Vec::new();
        let mut i: usize = 0;
        while i < n
            invariant
                self.wf(),
                n == self.events@.len(),
                0 <= i <= n,
                out@.len() == i,
                forall|k: int|
                    0 <= k < i ==> (#[trigger] out@[k])@ == joined_events(
                        self@.tasks,
                        self@.events,
                    )[k],
            decreases n - i,
        {
            proof {
                assert(self@.events[i as int] == self.events@[i as int]@);
                assert(has_task_id(self@.tasks, self@.events[i as int].task_id));
            }
            let e = self.events[i].clone();
            let task_name = match self.task_name_by_id(e.task_id) {
                Some(s) => s,
                None => {
                    proof {
                        lemma_find_task_by_id_spec(self@.tasks, e.task_id as int);
                        assert(false);
                    }
                    String::new()
                },
            };
            out.push(EventWithTaskName { event: e, task_name });
            i += 1;
        }
        proof {
            assert(ewtn_seq_view(out@) =~= joined_events(self@.tasks, self@.events));
        }
        out
    }

    /// Fetch the events whose task name equals `task_name` exactly,
    /// each joined with that name, in row order. An unknown name is not
    /// an error: the result is simply empty.
    pub fn get_events_by_task(&self, task_name: String) -> (r: Vec<EventWithTaskName>)
        requires
            self.wf(),
        ensures
            ewtn_seq_view(r@) == joined_events_named(self@.tasks, self@.events, task_name@),
    {
        let n = self.events.len();
        let mut out: Vec<EventWithTaskName> = Vec::new();
        let mut i: usize = 0;
        while i < n
            invariant
                self.wf(),
                n == self.events@.len(),
                0 <= i <= n,
                ewtn_seq_view(out@) =~= joined_events_named(
                    self@.tasks,
                    self@.events.take(i as int),
                    task_name@,
                ),
            decreases n - i,
        {
            let ghost pre = self@.events.take(i as int);
            let ghost ev = self@.events[i as int];
            proof {
                assert(ev == self.events@[i as int]@);
                assert(has_task_id(self@.tasks, ev.task_id));
                assert(self@.events.take(i as int + 1) =~= pre.push(ev));
                lemma_joined_events_named_push(self@.tasks, pre, ev, task_name@);
            }
            let e = self.events[i].clone();
            let name = match self.task_name_by_id(e.task_id) {
                Some(s) => s,
                None => {
                    proof {
                        lemma_find_task_by_id_spec(self@.tasks, ev.task_id);
                        assert(false);
                    }
                    String::new()
                },
            };
            if name == task_name {
                let ghost prev = out@;
                out.push(EventWithTaskName { event: e, task_name: name });
                proof {
                    assert(ewtn_seq_view(out@) =~= ewtn_seq_view(prev).push(
                        join_one(self@.tasks, ev),
                    ));
                }
            } else {
                proof {
                    assert(task_name_of(self@.tasks, ev.task_id) != task_name@);
                }
            }
            i += 1;
        }
        proof {
            assert(self@.events.take(n as int) =~= self@.events);
        }
        out
    }

    /// The total seconds spent on the task with id `task_id`: the sum
    /// of its events' durations, `0` — not an error — when it has none
    /// or does not exist. Fails only when the total no longer fits the
    /// row type the callers exchange.
    pub fn get_time_spent_by_task(&self, task_id: i32) -> (r: Result<i32, StoreError>)
        requires
            self.wf(),
        ensures
            ({
                let total = total_duration(self@.events, task_id as int);
                if total <= i32::MAX as int {
                    r == Ok::<i32, StoreError>(total as i32)
                } else {
                    r == Err::<i32, StoreError>(StoreError::Storage)
                }
            }),
    {
        let n = self.events.len();
        let mut acc: i64 = 0;
        let mut i: usize = 0;
        while i < n
            invariant
                self.wf(),
                n == self.events@.len(),
                0 <= i <= n,
                0 <= acc <= i32::MAX as i64,
                acc as int == total_duration(self@.events.take(i as int), task_id as int),
            decreases n - i,
        {
            let ghost pre = self@.events.take(i as int);
            let ghost ev = self@.events[i as int];
            proof {
                assert(ev == self.events@[i as int]@);
                assert(self@.events.take(i as int + 1) =~= pre.push(ev));
                lemma_total_duration_push(pre, ev, task_id as int);
            }
            if self.events[i].task_id == task_id {
                let d = self.events[i].duration;
                let next = acc + d as i64;
                if next > i32::MAX as i64 {
                    proof {
                        lemma_total_duration_prefix_le(
                            self@.events,
                            task_id as int,
                            i as int + 1,
                        );
                    }
                    return Err(StoreError::Storage);
                }
                acc = next;
            }
            i += 1;
        }
        proof {
            assert(self@.events.take(n as int) =~= self@.events);
        }
        Ok(acc as i32)
    }

    /// Fetch every task, in row order, each paired with the full list
    /// of its events (an empty list, never `None`, for a task with no
    /// events).
    pub fn get_tasks_with_events(&self) -> (r: Vec<TaskWithEvents>)
        ensures
            r@.len() == self@.tasks.len(),
            forall|k: int| 0 <= k < r@.len() ==> (#[trigger] r@[k])@.task == self@.tasks[k],
            forall|k: int|
                0 <= k < r@.len() ==> (#[trigger] r@[k])@.events == Some(
                    events_of_task(self@.events, self@.tasks[k].id),
                ),
    {
        let n = self.tasks.len();
        let m = self.events.len();
        let mut out: Vec<TaskWithEvents> = Vec::new();
        let mut i: usize = 0;
        while i < n
            invariant
                n == self.tasks@.len(),
                m == self.events@.len(),
                0 <= i <= n,
                out@.len() == i,
                forall|k: int| 0 <= k < i ==> (#[trigger] out@[k])@.task == self@.tasks[k],
                forall|k: int|
                    0 <= k < i ==> (#[trigger] out@[k])@.events == Some(
                        events_of_task(self@.events, self@.tasks[k].id),
                    ),
            decreases n - i,
        {
            proof {
                assert(self@.tasks[i as int] == self.tasks@[i as int]@);
            }
            let task = self.tasks[i].clone();
            let tid = task.id;
            let mut evs: Vec<Event> = Vec::new();
            let mut j: usize = 0;
            while j < m
                invariant
                    m == self.events@.len(),
                    0 <= j <= m,
                    tid as int == self@.tasks[i as int].id,
                    i < self.tasks@.len(),
                    event_seq_view(evs@) =~= events_of_task(
                        self@.events.take(j as int),
                        tid as int,
                    ),
                decreases m - j,
            {
                let ghost pre = self@.events.take(j as int);
                let ghost ev = self@.events[j as int];
                proof {
                    assert(ev == self.events@[j as int]@);
                    assert(self@.events.take(j as int + 1) =~= pre.push(ev));
                    lemma_events_of_task_push(pre, ev, tid as int);
                }
                if self.events[j].task_id == tid {
                    let ghost prevs = evs@;
                    evs.push(self.events[j].clone());
                    proof {
                        assert(event_seq_view(evs@) =~= event_seq_view(prevs).push(ev));
                    }
                }
                j += 1;
            }
            proof {
                assert(self@.events.take(m as int) =~= self@.events);
            }
            out.push(TaskWithEvents { task, events: Some(evs) });
            i += 1;
        }
        out
    }

    /// Record one finished session against the named task, creating the
    /// task first when the name has never been seen — the resolver's
    /// find-or-create step and the event insert as one atomic unit.
    ///
    /// The offered `details` become the task's details only on first
    /// creation (an existing task keeps its own) and are stored as the
    /// event's notes either way, as the front ends expect. On failure —
    /// only possible when an id runs out — the store is left exactly as
    /// it was: a task created for this call does not survive the
    /// failure of its event insert.
    pub fn add_task_event(&mut self, name: String, details: String, now: String, duration: u64)
        -> (r: Result<Event, StoreError>)
        requires
            old(self).wf(),
            name@.len() > 0,
            duration <= i32::MAX as u64,
        ensures
            final(self).wf(),
            ({
                let (new_tasks, tid) = resolve_spec(old(self)@.tasks, name@, details@);
                match r {
                    Ok(e) => {
                        &&& tid <= i32::MAX as int
                        &&& max_event_id(old(self)@.events) + 1 <= i32::MAX as int
                        &&& final(self)@.tasks == new_tasks
                        &&& e@ == recorded_event(
                            old(self)@.events,
                            tid,
                            details@,
                            now@,
                            duration as int,
                        )
                        &&& final(self)@.events == old(self)@.events.push(e@)
                    },
                    Err(err) => {
                        &&& err == StoreError::Storage
                        &&& *final(self) == *old(self)
                        &&& (tid > i32::MAX as int || max_event_id(old(self)@.events) + 1
                            > i32::MAX as int)
                    },
                }
            }),
    {
        if self.next_event_id > i32::MAX as i64 {
            return Err(StoreError::Storage);
        }
        let task_id = match self.get_task_id_by_name(name.as_str()) {
            Some(id) => {
                proof {
                    lemma_find_task_spec(self@.tasks, name@);
                }
                id
            },
            None => {
                match self.create_task(name.as_str(), details.as_str()) {
                    Ok(t) => {
                        proof {
                            assert(self@.tasks[self@.tasks.len() - 1] == t@);
                        }
                        t.id
                    },
                    Err(err) => {
                        proof {
                            assert(err == StoreError::Storage);
                        }
                        return Err(StoreError::Storage);
                    },
                }
            },
        };
        proof {
            assert(has_task_id(self@.tasks, task_id as int));
            assert(max_event_id(self@.events) + 1 <= i32::MAX as int);
        }
        match self.create_event(task_id, details.as_str(), now.as_str(), duration) {
            Ok(e) => Ok(e),
            Err(err) => {
                proof {
                    assert(false);
                }
                Err(err)
            },
        }
    }
}

} // verus!
