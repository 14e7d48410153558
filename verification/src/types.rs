//! The data shapes the store exchanges with its callers, together with
//! their mathematical views.

use vstd::prelude::*;

verus! {

/// A named unit of work a user tracks time against.
///
/// `name` is the business key: the store keeps at most one task row per
/// distinct, non-empty name. `details` is free text fixed on first
/// creation; `None` is a first-class state, not an error.
#[derive(Debug, PartialEq)]
pub struct Task {
    pub id: i32,
    pub name: String,
    pub details: Option<String>,
}

/// One completed timed session against a task.
///
/// `task_id` references exactly one task; `duration` counts elapsed
/// seconds; `time_stamp` is an opaque string the caller produced — the
/// store neither validates nor reformats it.
#[derive(Debug, PartialEq)]
pub struct Event {
    pub id: i32,
    pub task_id: i32,
    pub notes: Option<String>,
    pub time_stamp: String,
    pub duration: i32,
}

/// An event that has not been stored yet, as a front end submits it.
#[derive(Debug, PartialEq)]
pub struct NewEvent {
    pub notes: Option<String>,
    pub time_stamp: String,
    pub duration: i32,
}

/// An event joined with the name of the task that owns it.
#[derive(Debug, PartialEq)]
pub struct EventWithTaskName {
    pub event: Event,
    pub task_name: String,
}

/// A not-yet-stored event together with the name of its intended task.
#[derive(Debug, PartialEq)]
pub struct NewEventWithTaskName {
    pub event: NewEvent,
    pub task_name: String,
}

/// A task paired with the full list of its events.
///
/// `events` is always `Some` when produced by the store; a task with no
/// events carries `Some` of an empty list, never `None`.
#[derive(Debug, PartialEq)]
pub struct TaskWithEvents {
    pub task: Task,
    pub events: Option<Vec<Event>>,
}

/// Mathematical view of a [`Task`].
pub struct TaskView {
    pub id: int,
    pub name: Seq<char>,
    pub details: Option<Seq<char>>,
}

/// Mathematical view of an [`Event`].
pub struct EventView {
    pub id: int,
    pub task_id: int,
    pub notes: Option<Seq<char>>,
    pub time_stamp: Seq<char>,
    pub duration: int,
}

/// Mathematical view of an [`EventWithTaskName`].
pub struct EventWithTaskNameView {
    pub event: EventView,
    pub task_name: Seq<char>,
}

/// Mathematical view of a [`TaskWithEvents`].
pub struct TaskWithEventsView {
    pub task: TaskView,
    pub events: Option<Seq<EventView>>,
}

pub open spec fn opt_string_view(o: Option<String>) -> Option<Seq<char>> {
    match o {
        Some(s) => Some(s@),
        None => None,
    }
}

/// The views of a sequence of task rows, element by element.
pub open spec fn task_seq_view(s: Seq<Task>) -> Seq<TaskView> {
    s.map_values(|t: Task| t@)
}

/// The views of a sequence of event rows, element by element.
pub open spec fn event_seq_view(s: Seq<Event>) -> Seq<EventView> {
    s.map_values(|e: Event| e@)
}

/// The views of a sequence of joined rows, element by element.
pub open spec fn ewtn_seq_view(s: Seq<EventWithTaskName>) -> Seq<EventWithTaskNameView> {
    s.map_values(|x: EventWithTaskName| x@)
}

impl View for Task {
    type V = TaskView;

    open spec fn view(&self) -> TaskView {
        TaskView { id: self.id as int, name: self.name@, details: opt_string_view(self.details) }
    }
}

impl View for Event {
    type V = EventView;

    open spec fn view(&self) -> EventView {
        EventView {
            id: self.id as int,
            task_id: self.task_id as int,
            notes: opt_string_view(self.notes),
            time_stamp: self.time_stamp@,
            duration: self.duration as int,
        }
    }
}

impl View for EventWithTaskName {
    type V = EventWithTaskNameView;

    open spec fn view(&self) -> EventWithTaskNameView {
        EventWithTaskNameView { event: self.event@, task_name: self.task_name@ }
    }
}

impl View for TaskWithEvents {
    type V = TaskWithEventsView;

    open spec fn view(&self) -> TaskWithEventsView {
        TaskWithEventsView {
            task: self.task@,
            events: match self.events {
                Some(v) => Some(event_seq_view(v@)),
                None => None,
            },
        }
    }
}

impl Clone for Task {
    fn clone(&self) -> (res: Self)
        ensures
            res == *self,
    {
        let details = match &self.details {
            Some(d) => Some(d.clone()),
            None => None,
        };
        Task { id: self.id, name: self.name.clone(), details }
    }
}

impl Clone for Event {
    fn clone(&self) -> (res: Self)
        ensures
            res == *self,
    {
        let notes = match &self.notes {
            Some(n) => Some(n.clone()),
            None => None,
        };
        Event {
            id: self.id,
            task_id: self.task_id,
            notes,
            time_stamp: self.time_stamp.clone(),
            duration: self.duration,
        }
    }
}

} // verus!
