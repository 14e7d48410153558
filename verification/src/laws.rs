//! The laws the store obeys, proved once and for all over the
//! mathematical model: idempotent initialisation, resolver uniqueness,
//! aggregate behaviour on empty tables, join completeness, and the
//! round trip of a recorded event.

use vstd::prelude::*;

use crate::model::{
    event_groups, events_of_task, events_wf, find_task, flattened_groups, has_task_id,
    joined_events, joined_events_named, lemma_events_of_task_push, lemma_find_task_push,
    lemma_joined_events_named_push, lemma_joined_events_push, lemma_max_event_id_ge,
    max_task_id, open_spec, recorded_event, resolve_spec, store_wf, task_name_of, tasks_wf,
    total_duration, StoreView,
};
use crate::types::{EventView, EventWithTaskNameView, TaskView};

verus! {

/// Initialisation is idempotent: rows that pass the schema check are
/// reproduced exactly, and the rows of an opened store pass the check
/// again and reproduce the very same state — so opening the same
/// backing rows any number of times leaves the one task table and the
/// one event table unchanged after the first time.
pub proof fn lemma_open_idempotent(tasks: Seq<TaskView>, events: Seq<EventView>)
    ensures
        open_spec(tasks, events) is Some <==> store_wf(StoreView { tasks, events }),
        open_spec(tasks, events) matches Some(v) ==> v == (StoreView { tasks, events })
            && open_spec(v.tasks, v.events) == Some(v),
{
}

/// Resolver uniqueness: resolving the same name twice — whatever
/// details the second call offers — returns the same id and leaves the
/// task table exactly as the first call left it; the details persisted
/// are the first call's.
pub proof fn lemma_resolver_unique(
    tasks: Seq<TaskView>,
    name: Seq<char>,
    d1: Seq<char>,
    d2: Seq<char>,
)
    ensures
        ({
            let (t1, id1) = resolve_spec(tasks, name, d1);
            let (t2, id2) = resolve_spec(t1, name, d2);
            &&& id2 == id1
            &&& t2 == t1
            &&& find_task(t1, name) matches Some(f) && f.id == id1
            &&& find_task(tasks, name) is None ==> (find_task(t1, name) matches Some(f)
                && f.details == Some(d1))
        }),
{
    if find_task(tasks, name) is None {
        let nt = TaskView { id: max_task_id(tasks) + 1, name, details: Some(d1) };
        lemma_find_task_push(tasks, nt, name);
    }
}

/// Resolving one name never disturbs what any other name resolves to,
/// so uniqueness holds across arbitrarily interleaved resolve calls.
pub proof fn lemma_resolve_frame(
    tasks: Seq<TaskView>,
    name: Seq<char>,
    details: Seq<char>,
    other: Seq<char>,
)
    requires
        other != name,
    ensures
        find_task(resolve_spec(tasks, name, details).0, other) == find_task(tasks, other),
{
    if find_task(tasks, name) is None {
        let nt = TaskView { id: max_task_id(tasks) + 1, name, details: Some(details) };
        lemma_find_task_push(tasks, nt, other);
    }
}

/// A task no event points at has a total duration of zero — zero, not
/// an error, is what the aggregate owes a task with no events.
pub proof fn lemma_total_duration_no_events(events: Seq<EventView>, id: int)
    requires
        forall|k: int| 0 <= k < events.len() ==> (#[trigger] events[k]).task_id != id,
    ensures
        total_duration(events, id) == 0,
    decreases events.len(),
{
    if events.len() == 0 {
        reveal(Seq::filter);
    } else {
        let prefix = events.drop_last();
        assert(prefix.push(events.last()) =~= events);
        lemma_events_of_task_push(prefix, events.last(), id);
        assert(forall|k: int| 0 <= k < prefix.len() ==> prefix[k] == events[k]);
        lemma_total_duration_no_events(prefix, id);
    }
}

/// Round trip: the event a record appends is retrievable at once. The
/// full join gains exactly one entry — the new event under its fresh
/// id, larger than every id before it, with the caller's notes,
/// timestamp and duration intact — and the per-name query for its
/// task's name ends with that same entry.
pub proof fn lemma_record_round_trip(
    tasks: Seq<TaskView>,
    events: Seq<EventView>,
    task_id: int,
    notes: Seq<char>,
    time_stamp: Seq<char>,
    duration: int,
)
    requires
        has_task_id(tasks, task_id),
    ensures
        ({
            let e = recorded_event(events, task_id, notes, time_stamp, duration);
            let nm = task_name_of(tasks, task_id);
            let entry = EventWithTaskNameView { event: e, task_name: nm };
            &&& e.notes == Some(notes)
            &&& e.time_stamp == time_stamp
            &&& e.duration == duration
            &&& forall|k: int| 0 <= k < events.len() ==> (#[trigger] events[k]).id < e.id
            &&& joined_events(tasks, events.push(e)) == joined_events(tasks, events).push(entry)
            &&& joined_events_named(tasks, events.push(e), nm) == joined_events_named(
                tasks,
                events,
                nm,
            ).push(entry)
        }),
{
    let e = recorded_event(events, task_id, notes, time_stamp, duration);
    let nm = task_name_of(tasks, task_id);
    assert forall|k: int| 0 <= k < events.len() implies (#[trigger] events[k]).id < e.id by {
        lemma_max_event_id_ge(events, k);
    }
    lemma_joined_events_push(tasks, events, e);
    lemma_joined_events_named_push(tasks, events, e, nm);
}

/// Multiset step for join completeness: appending one event — whose
/// task exists and whose task id no two tasks share — adds exactly that
/// event to the concatenation of the per-task groups.
proof fn lemma_groups_push_multiset(tasks: Seq<TaskView>, events: Seq<EventView>, e: EventView)
    requires
        forall|i: int, j: int|
            0 <= i < j < tasks.len() ==> (#[trigger] tasks[i]).id != (#[trigger] tasks[j]).id,
        has_task_id(tasks, e.task_id),
    ensures
        flattened_groups(tasks, events.push(e)).to_multiset() == flattened_groups(
            tasks,
            events,
        ).to_multiset().insert(e),
    decreases tasks.len(),
{
    broadcast use vstd::seq_lib::group_to_multiset_ensures;
    broadcast use vstd::multiset::group_multiset_axioms;
    broadcast use Seq::lemma_flatten_push;

    let tl = tasks.drop_last();
    let t = tasks.last();
    let grown = events.push(e);
    assert(event_groups(tasks, events) =~= event_groups(tl, events).push(
        events_of_task(events, t.id),
    ));
    assert(event_groups(tasks, grown) =~= event_groups(tl, grown).push(
        events_of_task(grown, t.id),
    ));
    vstd::seq_lib::lemma_multiset_commutative(
        event_groups(tl, events).flatten(),
        events_of_task(events, t.id),
    );
    vstd::seq_lib::lemma_multiset_commutative(
        event_groups(tl, grown).flatten(),
        events_of_task(grown, t.id),
    );
    lemma_events_of_task_push(events, e, t.id);
    if t.id == e.task_id {
        assert(event_groups(tl, grown) =~= event_groups(tl, events)) by {
            assert forall|k: int| 0 <= k < tl.len() implies events_of_task(grown, (
            #[trigger] tl[k]).id) == events_of_task(events, tl[k].id) by {
                assert(tl[k] == tasks[k]);
                lemma_events_of_task_push(events, e, tl[k].id);
            }
        }
        assert(flattened_groups(tasks, grown).to_multiset() =~= flattened_groups(
            tasks,
            events,
        ).to_multiset().insert(e));
    } else {
        let j = choose|j: int| 0 <= j < tasks.len() && tasks[j].id == e.task_id;
        assert(tl[j] == tasks[j]);
        lemma_groups_push_multiset(tl, events, e);
        assert(flattened_groups(tasks, grown).to_multiset() =~= flattened_groups(
            tasks,
            events,
        ).to_multiset().insert(e));
    }
}

/// Flattening groups that are all empty yields nothing.
proof fn lemma_flatten_empties(groups: Seq<Seq<EventView>>)
    requires
        forall|k: int| 0 <= k < groups.len() ==> (#[trigger] groups[k]).len() == 0,
    ensures
        groups.flatten().len() == 0,
    decreases groups.len(),
{
    if groups.len() > 0 {
        assert(groups.first().len() == 0);
        assert(forall|k: int|
            0 <= k < groups.drop_first().len() ==> groups.drop_first()[k] == groups[k + 1]);
        lemma_flatten_empties(groups.drop_first());
    }
}

/// Join completeness: there is one event group per task, and the
/// concatenation of all groups holds exactly the events of the event
/// table — the same multiset, hence the same length and the same ids.
pub proof fn lemma_join_complete(tasks: Seq<TaskView>, events: Seq<EventView>)
    requires
        tasks_wf(tasks),
        events_wf(tasks, events),
    ensures
        event_groups(tasks, events).len() == tasks.len(),
        flattened_groups(tasks, events).to_multiset() == events.to_multiset(),
        flattened_groups(tasks, events).len() == events.len(),
    decreases events.len(),
{
    broadcast use vstd::seq_lib::group_to_multiset_ensures;
    broadcast use vstd::multiset::group_multiset_axioms;

    if events.len() == 0 {
        assert forall|k: int|
            0 <= k < event_groups(tasks, events).len() implies (#[trigger] event_groups(
            tasks,
            events,
        )[k]).len() == 0 by {
            reveal(Seq::filter);
        }
        lemma_flatten_empties(event_groups(tasks, events));
        assert(flattened_groups(tasks, events).to_multiset() =~= events.to_multiset());
    } else {
        let prefix = events.drop_last();
        let e = events.last();
        assert(prefix.push(e) =~= events);
        assert(forall|k: int| 0 <= k < prefix.len() ==> prefix[k] == events[k]);
        assert(events_wf(tasks, prefix)) by {
            assert forall|k: int|
                0 <= k < prefix.len() implies has_task_id(tasks, (
            #[trigger] prefix[k]).task_id) by {
                assert(prefix[k] == events[k]);
            }
        }
        lemma_join_complete(tasks, prefix);
        assert(has_task_id(tasks, e.task_id)) by {
            assert(events[events.len() - 1] == e);
        }
        lemma_groups_push_multiset(tasks, prefix, e);
        assert(events.to_multiset() =~= prefix.to_multiset().insert(e));
    }
    assert(flattened_groups(tasks, events).len() == flattened_groups(
        tasks,
        events,
    ).to_multiset().len());
    assert(events.len() == events.to_multiset().len());
}

} // verus!
