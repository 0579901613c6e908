//! Laws of the collection, stated over the transition functions and
//! proved once for all inputs: id assignment, the timer invariant,
//! wholesale category replacement, and that deleting a missing id
//! leaves the stored bytes untouched.

use vstd::prelude::*;

use crate::codec::render_tasks;
use crate::model::{entry_closed_wf, entry_open_wf, task_wf, tasks_wf, CategoryView, Priority,
    TaskView, TimeEntry};
use crate::ops::{
    spec_add_task, spec_delete, spec_find, spec_set_categories, spec_start_timer, spec_stop_timer,
    lemma_find_at, lemma_find_props,
};
use crate::time::Timestamp;

verus! {

/// The inputs of one task creation.
pub ghost struct AddInput {
    pub title: Seq<char>,
    pub description: Option<Seq<char>>,
    pub priority: Priority,
    pub due_date: Option<Timestamp>,
    pub now: Timestamp,
}

/// The collection after a sequence of adds.
pub open spec fn add_all(ts: Seq<TaskView>, ins: Seq<AddInput>) -> Seq<TaskView>
    decreases ins.len(),
{
    if ins.len() == 0 {
        ts
    } else {
        add_all(
            spec_add_task(
                ts,
                ins[0].title,
                ins[0].description,
                ins[0].priority,
                ins[0].due_date,
                ins[0].now,
            ),
            ins.subrange(1, ins.len() as int),
        )
    }
}

pub proof fn lemma_ids_after_adds_from(ts: Seq<TaskView>, ins: Seq<AddInput>)
    requires
        ts.len() + ins.len() <= u64::MAX,
        forall|j: int| 0 <= j < ts.len() ==> ts[j].id == j + 1,
    ensures
        add_all(ts, ins).len() == ts.len() + ins.len(),
        forall|j: int| 0 <= j < ts.len() + ins.len() ==> #[trigger] add_all(ts, ins)[j].id == j
            + 1,
    decreases ins.len(),
{
    if ins.len() > 0 {
        let ts1 = spec_add_task(
            ts,
            ins[0].title,
            ins[0].description,
            ins[0].priority,
            ins[0].due_date,
            ins[0].now,
        );
        assert forall|j: int| 0 <= j < ts1.len() implies ts1[j].id == j + 1 by {
            if j < ts.len() {
                assert(ts1[j] == ts[j]);
            } else {
                assert(ts1[j].id == ts.len() + 1);
            }
        }
        lemma_ids_after_adds_from(ts1, ins.subrange(1, ins.len() as int));
    }
}

/// Id assignment: adding N tasks in sequence to an empty collection
/// yields ids 1..N, since each id is the collection length plus one.
pub proof fn lemma_ids_after_adds(ins: Seq<AddInput>)
    requires
        ins.len() <= u64::MAX,
    ensures
        add_all(Seq::empty(), ins).len() == ins.len(),
        forall|j: int| 0 <= j < ins.len() ==> #[trigger] add_all(Seq::empty(), ins)[j].id == j + 1,
{
    lemma_ids_after_adds_from(Seq::empty(), ins);
}

/// Timer invariant: in a well-formed collection every recorded entry
/// is closed, and the only open entry a task can hold is the one in
/// its running slot.
pub proof fn lemma_timer_invariant(ts: Seq<TaskView>, i: int)
    requires
        tasks_wf(ts),
        0 <= i < ts.len(),
    ensures
        forall|j: int|
            0 <= j < ts[i].time_entries.len() ==> entry_closed_wf(#[trigger] ts[i].time_entries[j])
                && !entry_open_wf(ts[i].time_entries[j]),
        ts[i].current_time_entry matches Some(e) ==> entry_open_wf(e),
{
    assert(task_wf(ts[i]));
    assert forall|j: int|
        0 <= j < ts[i].time_entries.len() implies entry_closed_wf(#[trigger] ts[i].time_entries[j])
        && !entry_open_wf(ts[i].time_entries[j]) by {
        assert(entry_closed_wf(ts[i].time_entries[j]));
    }
}

/// Starting a timer records exactly the given instant as the start.
pub proof fn lemma_start_records_instant(ts: Seq<TaskView>, id: u64, now: Timestamp)
    requires
        spec_find(ts, id) >= 0,
        ts[spec_find(ts, id)].current_time_entry is None,
    ensures
        spec_start_timer(ts, id, now).0[spec_find(ts, id)].current_time_entry == Some(
            TimeEntry { start_time: now, end_time: None, duration_seconds: None },
        ),
{
    lemma_find_props(ts, id);
}

/// Stopping a timer closes the open entry with the end set to the
/// given instant and the duration exactly end minus start, in epoch
/// seconds.
pub proof fn lemma_stop_exact_duration(ts: Seq<TaskView>, id: u64, now: Timestamp)
    requires
        tasks_wf(ts),
        now.wf(),
        spec_find(ts, id) >= 0,
        ts[spec_find(ts, id)].current_time_entry is Some,
    ensures
        ({
            let i = spec_find(ts, id);
            let started = ts[i].current_time_entry->Some_0;
            let after = spec_stop_timer(ts, id, now).0[i];
            &&& after.time_entries.len() == ts[i].time_entries.len() + 1
            &&& after.time_entries.last().start_time == started.start_time
            &&& after.time_entries.last().end_time == Some(now)
            &&& after.time_entries.last().duration_seconds matches Some(d) && d
                == now.spec_epoch_seconds() - started.start_time.spec_epoch_seconds()
            &&& after.current_time_entry is None
        }),
{
    lemma_find_props(ts, id);
    let i = spec_find(ts, id);
    assert(task_wf(ts[i]));
    let started = ts[i].current_time_entry->Some_0;
    assert(entry_open_wf(started));
    started.start_time.lemma_epoch_bounds();
    now.lemma_epoch_bounds();
}

/// Category replacement: assigning categories twice leaves exactly the
/// second selection; nothing of the first survives.
pub proof fn lemma_category_replacement(
    ts: Seq<TaskView>,
    id: u64,
    first: Seq<CategoryView>,
    second: Seq<CategoryView>,
)
    ensures
        spec_set_categories(spec_set_categories(ts, id, first), id, second)
            == spec_set_categories(ts, id, second),
{
    lemma_find_props(ts, id);
    let i = spec_find(ts, id);
    if i >= 0 {
        let ts1 = spec_set_categories(ts, id, first);
        assert(ts1[i].id == id);
        assert forall|j: int| 0 <= j < i implies ts1[j].id != id by {
            assert(ts1[j] == ts[j]);
            assert(ts[j].id != id);
        }
        lemma_find_at(ts1, id, i);
        assert(spec_set_categories(ts1, id, second) =~= spec_set_categories(ts, id, second));
    }
}

/// Deleting an id that no task carries is a no-op: the collection, and
/// therefore its rendering in storage, is unchanged to the byte.
pub proof fn lemma_delete_not_found(ts: Seq<TaskView>, id: u64)
    requires
        spec_find(ts, id) < 0,
    ensures
        spec_delete(ts, id) == ts,
        render_tasks(spec_delete(ts, id)) == render_tasks(ts),
{
}

} // verus!
