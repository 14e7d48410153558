//! The mathematical model of the store: two sequences of rows, the
//! well-formedness conditions the store maintains, and the spec-level
//! descriptions of its operations.

use vstd::prelude::*;

use crate::types::{EventView, EventWithTaskNameView, TaskView};

verus! {

/// The abstract state of a store: the task table and the event table, in
/// row order.
pub struct StoreView {
    pub tasks: Seq<TaskView>,
    pub events: Seq<EventView>,
}

/// The largest task id in use, `0` when the table is empty.
pub open spec fn max_task_id(tasks: Seq<TaskView>) -> int
    decreases tasks.len(),
{
    if tasks.len() == 0 {
        0
    } else {
        let m = max_task_id(tasks.drop_last());
        if tasks.last().id > m {
            tasks.last().id
        } else {
            m
        }
    }
}

/// The largest event id in use, `0` when the table is empty.
pub open spec fn max_event_id(events: Seq<EventView>) -> int
    decreases events.len(),
{
    if events.len() == 0 {
        0
    } else {
        let m = max_event_id(events.drop_last());
        if events.last().id > m {
            events.last().id
        } else {
            m
        }
    }
}

/// Whether some task row carries the id `id`.
pub open spec fn has_task_id(tasks: Seq<TaskView>, id: int) -> bool {
    exists|j: int| 0 <= j < tasks.len() && tasks[j].id == id
}

/// The first task row whose name is `name`, if any.
pub open spec fn find_task(tasks: Seq<TaskView>, name: Seq<char>) -> Option<TaskView>
    decreases tasks.len(),
{
    if tasks.len() == 0 {
        None
    } else if tasks.first().name == name {
        Some(tasks.first())
    } else {
        find_task(tasks.drop_first(), name)
    }
}

/// The first task row whose id is `id`, if any.
pub open spec fn find_task_by_id(tasks: Seq<TaskView>, id: int) -> Option<TaskView>
    decreases tasks.len(),
{
    if tasks.len() == 0 {
        None
    } else if tasks.first().id == id {
        Some(tasks.first())
    } else {
        find_task_by_id(tasks.drop_first(), id)
    }
}

/// The name of the task carrying `id`, the empty string when no task
/// does (never the case in a well-formed store, where every event's
/// `task_id` resolves).
pub open spec fn task_name_of(tasks: Seq<TaskView>, id: int) -> Seq<char> {
    match find_task_by_id(tasks, id) {
        Some(t) => t.name,
        None => Seq::empty(),
    }
}

/// The events owned by the task with id `id`, in row order.
pub open spec fn events_of_task(events: Seq<EventView>, id: int) -> Seq<EventView> {
    events.filter(|e: EventView| e.task_id == id)
}

/// The sum of the durations of `events`.
pub open spec fn sum_durations(events: Seq<EventView>) -> int
    decreases events.len(),
{
    if events.len() == 0 {
        0
    } else {
        sum_durations(events.drop_last()) + events.last().duration
    }
}

/// One event joined with the name of its owning task.
pub open spec fn join_one(tasks: Seq<TaskView>, e: EventView) -> EventWithTaskNameView {
    EventWithTaskNameView { event: e, task_name: task_name_of(tasks, e.task_id) }
}

/// Every event joined with the name of its owning task, in row order.
pub open spec fn joined_events(tasks: Seq<TaskView>, events: Seq<EventView>) -> Seq<
    EventWithTaskNameView,
> {
    events.map_values(|e: EventView| join_one(tasks, e))
}

/// The joined events whose task name is exactly `name`.
pub open spec fn joined_events_named(
    tasks: Seq<TaskView>,
    events: Seq<EventView>,
    name: Seq<char>,
) -> Seq<EventWithTaskNameView> {
    joined_events(tasks, events).filter(|x: EventWithTaskNameView| x.task_name == name)
}

/// The per-task event lists, in task row order.
pub open spec fn event_groups(tasks: Seq<TaskView>, events: Seq<EventView>) -> Seq<Seq<EventView>> {
    tasks.map_values(|t: TaskView| events_of_task(events, t.id))
}

/// Every task's event list, grouped in task row order and concatenated.
pub open spec fn flattened_groups(tasks: Seq<TaskView>, events: Seq<EventView>) -> Seq<EventView> {
    event_groups(tasks, events).flatten()
}

/// The sum of `duration` over the events owned by the task with id
/// `id` — what the per-task total reports.
pub open spec fn total_duration(events: Seq<EventView>, id: int) -> int {
    sum_durations(events_of_task(events, id))
}

/// Well-formedness of the task table: ids positive and distinct, names
/// non-empty and distinct (the resolver's uniqueness guarantee), every
/// id representable in the row type.
pub open spec fn tasks_wf(tasks: Seq<TaskView>) -> bool {
    &&& forall|i: int| 0 <= i < tasks.len() ==> 1 <= (#[trigger] tasks[i]).id <= i32::MAX as int
    &&& forall|i: int| 0 <= i < tasks.len() ==> (#[trigger] tasks[i]).name.len() > 0
    &&& forall|i: int, j: int|
        0 <= i < j < tasks.len() ==> (#[trigger] tasks[i]).id != (#[trigger] tasks[j]).id
    &&& forall|i: int, j: int|
        0 <= i < j < tasks.len() ==> (#[trigger] tasks[i]).name != (#[trigger] tasks[j]).name
}

/// Well-formedness of the event table against a task table: ids positive
/// and distinct, durations non-negative and representable, and the
/// foreign key — every event's `task_id` names an existing task.
pub open spec fn events_wf(tasks: Seq<TaskView>, events: Seq<EventView>) -> bool {
    &&& forall|i: int| 0 <= i < events.len() ==> 1 <= (#[trigger] events[i]).id <= i32::MAX as int
    &&& forall|i: int|
        0 <= i < events.len() ==> 0 <= (#[trigger] events[i]).duration <= i32::MAX as int
    &&& forall|i: int, j: int|
        0 <= i < j < events.len() ==> (#[trigger] events[i]).id != (#[trigger] events[j]).id
    &&& forall|i: int| 0 <= i < events.len() ==> has_task_id(tasks, (#[trigger] events[i]).task_id)
}

/// Well-formedness of a whole store state.
pub open spec fn store_wf(v: StoreView) -> bool {
    tasks_wf(v.tasks) && events_wf(v.tasks, v.events)
}

/// Find-or-create on the task table: the new table and the id the name
/// resolved to. An existing row is returned untouched — in particular
/// its `details` are never overwritten; a missing name appends a row
/// carrying the next free id and the offered details.
pub open spec fn resolve_spec(tasks: Seq<TaskView>, name: Seq<char>, details: Seq<char>) -> (
    Seq<TaskView>,
    int,
) {
    match find_task(tasks, name) {
        Some(t) => (tasks, t.id),
        None => {
            let id = max_task_id(tasks) + 1;
            (tasks.push(TaskView { id, name, details: Some(details) }), id)
        },
    }
}

/// The event row that recording a session appends: next free id, the
/// resolved task, the caller's notes, timestamp and duration.
pub open spec fn recorded_event(
    events: Seq<EventView>,
    task_id: int,
    notes: Seq<char>,
    time_stamp: Seq<char>,
    duration: int,
) -> EventView {
    EventView {
        id: max_event_id(events) + 1,
        task_id,
        notes: Some(notes),
        time_stamp,
        duration,
    }
}

/// Appending an event grows the sum by its duration.
pub proof fn lemma_sum_push(events: Seq<EventView>, e: EventView)
    ensures
        sum_durations(events.push(e)) == sum_durations(events) + e.duration,
{
    assert(events.push(e).drop_last() =~= events);
    assert(events.push(e).last() == e);
}

/// Appending an event extends its task's group and no other.
pub proof fn lemma_events_of_task_push(events: Seq<EventView>, e: EventView, id: int)
    ensures
        events_of_task(events.push(e), id) == if e.task_id == id {
            events_of_task(events, id).push(e)
        } else {
            events_of_task(events, id)
        },
{
    broadcast use Seq::lemma_filter_push;

}

/// Appending an event appends its joined entry.
pub proof fn lemma_joined_events_push(tasks: Seq<TaskView>, events: Seq<EventView>, e: EventView)
    ensures
        joined_events(tasks, events.push(e)) == joined_events(tasks, events).push(
            join_one(tasks, e),
        ),
{
    assert(joined_events(tasks, events.push(e)) =~= joined_events(tasks, events).push(
        join_one(tasks, e),
    ));
}

/// Appending an event extends the name-filtered join exactly when the
/// event's task carries the name.
pub proof fn lemma_joined_events_named_push(
    tasks: Seq<TaskView>,
    events: Seq<EventView>,
    e: EventView,
    name: Seq<char>,
)
    ensures
        joined_events_named(tasks, events.push(e), name) == if task_name_of(tasks, e.task_id)
            == name {
            joined_events_named(tasks, events, name).push(join_one(tasks, e))
        } else {
            joined_events_named(tasks, events, name)
        },
{
    broadcast use Seq::lemma_filter_push;

    lemma_joined_events_push(tasks, events, e);
}

/// Appending an event grows its own task's total by its duration and
/// leaves every other total unchanged.
pub proof fn lemma_total_duration_push(events: Seq<EventView>, e: EventView, id: int)
    ensures
        total_duration(events.push(e), id) == total_duration(events, id) + if e.task_id == id {
            e.duration
        } else {
            0
        },
{
    lemma_events_of_task_push(events, e, id);
    if e.task_id == id {
        lemma_sum_push(events_of_task(events, id), e);
    }
}

/// With non-negative durations, a prefix never exceeds the whole
/// table's total for any task.
pub proof fn lemma_total_duration_prefix_le(events: Seq<EventView>, id: int, i: int)
    requires
        0 <= i <= events.len(),
        forall|k: int| 0 <= k < events.len() ==> (#[trigger] events[k]).duration >= 0,
    ensures
        total_duration(events.take(i), id) <= total_duration(events, id),
{
    broadcast use Seq::filter_distributes_over_add;

    let pre = events.take(i);
    let post = events.skip(i);
    assert(events =~= pre + post);
    lemma_sum_add(events_of_task(pre, id), events_of_task(post, id));
    assert(forall|k: int| 0 <= k < post.len() ==> (#[trigger] post[k]).duration >= 0) by {
        assert(forall|k: int| 0 <= k < post.len() ==> post[k] == events[k + i]);
    }
    lemma_sum_filter_nonneg(post, id);
}

/// The total of a task over events with non-negative durations is
/// non-negative.
pub proof fn lemma_sum_filter_nonneg(events: Seq<EventView>, id: int)
    requires
        forall|k: int| 0 <= k < events.len() ==> (#[trigger] events[k]).duration >= 0,
    ensures
        sum_durations(events_of_task(events, id)) >= 0,
    decreases events.len(),
{
    if events.len() == 0 {
        reveal(Seq::filter);
    } else {
        let prefix = events.drop_last();
        assert(prefix.push(events.last()) =~= events);
        lemma_events_of_task_push(prefix, events.last(), id);
        assert(forall|k: int| 0 <= k < prefix.len() ==> prefix[k] == events[k]);
        lemma_sum_filter_nonneg(prefix, id);
        if events.last().task_id == id {
            lemma_sum_push(events_of_task(prefix, id), events.last());
        }
    }
}

/// The sum of a concatenation is the sum of the parts.
pub proof fn lemma_sum_add(a: Seq<EventView>, b: Seq<EventView>)
    ensures
        sum_durations(a + b) == sum_durations(a) + sum_durations(b),
    decreases b.len(),
{
    if b.len() == 0 {
        assert(a + b =~= a);
    } else {
        assert((a + b).drop_last() =~= a + b.drop_last());
        assert((a + b).last() == b.last());
        lemma_sum_add(a, b.drop_last());
    }
}

/// A forward scan that finds no row named `name` means `find_task`
/// finds none either.
pub proof fn lemma_find_task_none(tasks: Seq<TaskView>, name: Seq<char>)
    requires
        forall|k: int| 0 <= k < tasks.len() ==> (#[trigger] tasks[k]).name != name,
    ensures
        find_task(tasks, name) is None,
    decreases tasks.len(),
{
    if tasks.len() > 0 {
        assert(tasks[0].name != name);
        assert(forall|k: int|
            0 <= k < tasks.drop_first().len() ==> (#[trigger] tasks.drop_first()[k]).name
                != name) by {
            assert(forall|k: int|
                0 <= k < tasks.drop_first().len() ==> tasks.drop_first()[k] == tasks[k + 1]);
        }
        lemma_find_task_none(tasks.drop_first(), name);
    }
}

/// A forward scan whose first hit for `name` is at `j` agrees with
/// `find_task`.
pub proof fn lemma_find_task_at(tasks: Seq<TaskView>, name: Seq<char>, j: int)
    requires
        0 <= j < tasks.len(),
        tasks[j].name == name,
        forall|k: int| 0 <= k < j ==> (#[trigger] tasks[k]).name != name,
    ensures
        find_task(tasks, name) == Some(tasks[j]),
    decreases tasks.len(),
{
    if j == 0 {
    } else {
        assert(tasks[0].name != name);
        assert(forall|k: int|
            0 <= k < tasks.drop_first().len() ==> tasks.drop_first()[k] == tasks[k + 1]);
        lemma_find_task_at(tasks.drop_first(), name, j - 1);
    }
}

/// A forward scan that finds no row with id `id` means `find_task_by_id`
/// finds none either.
pub proof fn lemma_find_task_by_id_none(tasks: Seq<TaskView>, id: int)
    requires
        forall|k: int| 0 <= k < tasks.len() ==> (#[trigger] tasks[k]).id != id,
    ensures
        find_task_by_id(tasks, id) is None,
    decreases tasks.len(),
{
    if tasks.len() > 0 {
        assert(tasks[0].id != id);
        assert(forall|k: int|
            0 <= k < tasks.drop_first().len() ==> tasks.drop_first()[k] == tasks[k + 1]);
        lemma_find_task_by_id_none(tasks.drop_first(), id);
    }
}

/// A forward scan whose first hit for `id` is at `j` agrees with
/// `find_task_by_id`.
pub proof fn lemma_find_task_by_id_at(tasks: Seq<TaskView>, id: int, j: int)
    requires
        0 <= j < tasks.len(),
        tasks[j].id == id,
        forall|k: int| 0 <= k < j ==> (#[trigger] tasks[k]).id != id,
    ensures
        find_task_by_id(tasks, id) == Some(tasks[j]),
    decreases tasks.len(),
{
    if j == 0 {
    } else {
        assert(tasks[0].id != id);
        assert(forall|k: int|
            0 <= k < tasks.drop_first().len() ==> tasks.drop_first()[k] == tasks[k + 1]);
        lemma_find_task_by_id_at(tasks.drop_first(), id, j - 1);
    }
}

/// What the result of `find_task` says about the table: a miss means no
/// row carries the name, a hit is a row of the table carrying it.
pub proof fn lemma_find_task_spec(tasks: Seq<TaskView>, name: Seq<char>)
    ensures
        match find_task(tasks, name) {
            None => forall|k: int| 0 <= k < tasks.len() ==> (#[trigger] tasks[k]).name != name,
            Some(t) => t.name == name && exists|j: int| 0 <= j < tasks.len() && tasks[j] == t,
        },
    decreases tasks.len(),
{
    if tasks.len() > 0 && tasks.first().name == name {
        assert(tasks[0] == tasks.first());
    }
    if tasks.len() > 0 && tasks.first().name != name {
        lemma_find_task_spec(tasks.drop_first(), name);
        match find_task(tasks.drop_first(), name) {
            None => {
                assert forall|k: int| 0 <= k < tasks.len() implies (#[trigger] tasks[k]).name
                    != name by {
                    if k > 0 {
                        assert(tasks.drop_first()[k - 1] == tasks[k]);
                    }
                }
            },
            Some(t) => {
                let j = choose|j: int|
                    0 <= j < tasks.drop_first().len() && tasks.drop_first()[j] == t;
                assert(tasks[j + 1] == t);
            },
        }
    }
}

/// What the result of `find_task_by_id` says about the table.
pub proof fn lemma_find_task_by_id_spec(tasks: Seq<TaskView>, id: int)
    ensures
        match find_task_by_id(tasks, id) {
            None => forall|k: int| 0 <= k < tasks.len() ==> (#[trigger] tasks[k]).id != id,
            Some(t) => t.id == id && exists|j: int| 0 <= j < tasks.len() && tasks[j] == t,
        },
    decreases tasks.len(),
{
    if tasks.len() > 0 && tasks.first().id == id {
        assert(tasks[0] == tasks.first());
    }
    if tasks.len() > 0 && tasks.first().id != id {
        lemma_find_task_by_id_spec(tasks.drop_first(), id);
        match find_task_by_id(tasks.drop_first(), id) {
            None => {
                assert forall|k: int| 0 <= k < tasks.len() implies (#[trigger] tasks[k]).id
                    != id by {
                    if k > 0 {
                        assert(tasks.drop_first()[k - 1] == tasks[k]);
                    }
                }
            },
            Some(t) => {
                let j = choose|j: int|
                    0 <= j < tasks.drop_first().len() && tasks.drop_first()[j] == t;
                assert(tasks[j + 1] == t);
            },
        }
    }
}

/// How a lookup sees an appended row: an earlier hit still wins, and
/// otherwise the new row answers exactly for its own name.
pub proof fn lemma_find_task_push(tasks: Seq<TaskView>, t: TaskView, name: Seq<char>)
    ensures
        find_task(tasks.push(t), name) == match find_task(tasks, name) {
            Some(f) => Some(f),
            None => if t.name == name {
                Some(t)
            } else {
                None
            },
        },
    decreases tasks.len(),
{
    if tasks.len() == 0 {
        assert(tasks.push(t).first() == t);
        assert(tasks.push(t).drop_first() =~= Seq::<TaskView>::empty());
    } else {
        assert(tasks.push(t).first() == tasks.first());
        assert(tasks.push(t).drop_first() =~= tasks.drop_first().push(t));
        lemma_find_task_push(tasks.drop_first(), t, name);
    }
}

/// `max_task_id` bounds every id in the table.
pub proof fn lemma_max_task_id_ge(tasks: Seq<TaskView>, i: int)
    requires
        0 <= i < tasks.len(),
    ensures
        tasks[i].id <= max_task_id(tasks),
    decreases tasks.len(),
{
    if i < tasks.len() - 1 {
        assert(tasks.drop_last()[i] == tasks[i]);
        lemma_max_task_id_ge(tasks.drop_last(), i);
    }
}

/// `max_event_id` bounds every id in the table.
pub proof fn lemma_max_event_id_ge(events: Seq<EventView>, i: int)
    requires
        0 <= i < events.len(),
    ensures
        events[i].id <= max_event_id(events),
    decreases events.len(),
{
    if i < events.len() - 1 {
        assert(events.drop_last()[i] == events[i]);
        lemma_max_event_id_ge(events.drop_last(), i);
    }
}

/// Appending a row moves the maximum task id to the larger of the old
/// maximum and the new id.
pub proof fn lemma_max_task_id_push(tasks: Seq<TaskView>, t: TaskView)
    ensures
        max_task_id(tasks.push(t)) == if t.id > max_task_id(tasks) {
            t.id
        } else {
            max_task_id(tasks)
        },
{
    assert(tasks.push(t).drop_last() =~= tasks);
}

/// Appending a row moves the maximum event id to the larger of the old
/// maximum and the new id.
pub proof fn lemma_max_event_id_push(events: Seq<EventView>, e: EventView)
    ensures
        max_event_id(events.push(e)) == if e.id > max_event_id(events) {
            e.id
        } else {
            max_event_id(events)
        },
{
    assert(events.push(e).drop_last() =~= events);
}

/// Opening a store over existing rows: accepted — reproduced exactly —
/// if and only if the rows are well formed.
pub open spec fn open_spec(tasks: Seq<TaskView>, events: Seq<EventView>) -> Option<StoreView> {
    let v = StoreView { tasks, events };
    if store_wf(v) {
        Some(v)
    } else {
        None
    }
}

} // verus!
