//! The task collection and its operations: create, complete, change
//! status, delete, replace categories, start and stop a timer, and the
//! due-date reminder scan. Every mutation is specified by a transition
//! function over the collection's view.

use vstd::prelude::*;

use crate::chars::{digits, push_chars, push_decimal, push_str_chars};
use crate::model::{
    entry_open_wf, entry_closed_wf, task_wf, tasks_wf, cats_view, Category, CategoryView, Priority,
    Status, Task, TaskView, TimeEntry,
};
use crate::time::{hours_of, trunc_div_i64, Timestamp};

verus! {

/// The in-memory task collection. Loading and saving are the codec's;
/// this type holds the tasks and mutates them.
pub struct TaskManager {
    pub tasks: Vec<Task>,
}

impl View for TaskManager {
    type V = Seq<TaskView>;

    open spec fn view(&self) -> Seq<TaskView> {
        self.tasks@.map_values(|t: Task| t@)
    }
}

// ---------------------------------------------------------------------
// Lookup
// ---------------------------------------------------------------------

/// The index of the first task with the given id, or -1. Ids are
/// assigned from the collection length, so after deletions two tasks
/// can share an id; every operation works on the first match, as a
/// linear search does.
pub open spec fn spec_find(ts: Seq<TaskView>, id: u64) -> int
    decreases ts.len(),
{
    if ts.len() == 0 {
        -1
    } else if ts[0].id == id {
        0
    } else {
        let r = spec_find(ts.subrange(1, ts.len() as int), id);
        if r < 0 {
            -1
        } else {
            1 + r
        }
    }
}

pub proof fn lemma_find_at(ts: Seq<TaskView>, id: u64, i: int)
    requires
        0 <= i < ts.len(),
        ts[i].id == id,
        forall|j: int| 0 <= j < i ==> ts[j].id != id,
    ensures
        spec_find(ts, id) == i,
    decreases i,
{
    if i > 0 {
        let rest = ts.subrange(1, ts.len() as int);
        assert(rest[i - 1] == ts[i]);
        assert(forall|j: int| 0 <= j < i - 1 ==> #[trigger] rest[j].id == ts[j + 1].id);
        lemma_find_at(rest, id, i - 1);
    }
}

pub proof fn lemma_find_none(ts: Seq<TaskView>, id: u64)
    requires
        forall|j: int| 0 <= j < ts.len() ==> ts[j].id != id,
    ensures
        spec_find(ts, id) == -1,
    decreases ts.len(),
{
    if ts.len() > 0 {
        let rest = ts.subrange(1, ts.len() as int);
        assert(forall|j: int| 0 <= j < rest.len() ==> #[trigger] rest[j].id == ts[j + 1].id);
        lemma_find_none(rest, id);
    }
}

pub proof fn lemma_find_props(ts: Seq<TaskView>, id: u64)
    ensures
        spec_find(ts, id) >= 0 ==> spec_find(ts, id) < ts.len() && ts[spec_find(ts, id)].id == id
            && (forall|j: int| 0 <= j < spec_find(ts, id) ==> ts[j].id != id),
        spec_find(ts, id) < 0 ==> spec_find(ts, id) == -1 && (forall|j: int|
            0 <= j < ts.len() ==> ts[j].id != id),
    decreases ts.len(),
{
    if ts.len() > 0 && ts[0].id != id {
        let rest = ts.subrange(1, ts.len() as int);
        lemma_find_props(rest, id);
        if spec_find(rest, id) < 0 {
            assert forall|j: int| 0 <= j < ts.len() implies ts[j].id != id by {
                if j > 0 {
                    assert(rest[j - 1] == ts[j]);
                }
            }
        } else {
            assert(rest[spec_find(rest, id)] == ts[spec_find(ts, id)]);
            assert forall|j: int| 0 <= j < spec_find(ts, id) implies ts[j].id != id by {
                if j > 0 {
                    assert(rest[j - 1] == ts[j]);
                }
            }
        }
    }
}

// ---------------------------------------------------------------------
// Transitions
// ---------------------------------------------------------------------

pub open spec fn opt_text_view(o: Option<Vec<char>>) -> Option<Seq<char>> {
    match o {
        Some(d) => Some(d@),
        None => None,
    }
}

/// A freshly created task: Todo, no categories, no history.
pub open spec fn spec_new_task(
    id: u64,
    title: Seq<char>,
    description: Option<Seq<char>>,
    priority: Priority,
    due_date: Option<Timestamp>,
    now: Timestamp,
) -> TaskView {
    TaskView {
        id,
        title,
        description,
        priority,
        status: Status::Todo,
        due_date,
        created_at: now,
        categories: Seq::empty(),
        time_entries: Seq::empty(),
        current_time_entry: None,
        last_notification: None,
    }
}

/// Appends a new task whose id is the collection length plus one.
pub open spec fn spec_add_task(
    ts: Seq<TaskView>,
    title: Seq<char>,
    description: Option<Seq<char>>,
    priority: Priority,
    due_date: Option<Timestamp>,
    now: Timestamp,
) -> Seq<TaskView> {
    ts.push(spec_new_task((ts.len() + 1) as u64, title, description, priority, due_date, now))
}

/// Sets the first matching task's status to Done.
pub open spec fn spec_complete(ts: Seq<TaskView>, id: u64) -> Seq<TaskView> {
    let i = spec_find(ts, id);
    if i < 0 {
        ts
    } else {
        ts.update(i, TaskView { status: Status::Done, ..ts[i] })
    }
}

/// Overwrites the first matching task's status.
pub open spec fn spec_update_status(ts: Seq<TaskView>, id: u64, status: Status) -> Seq<TaskView> {
    let i = spec_find(ts, id);
    if i < 0 {
        ts
    } else {
        ts.update(i, TaskView { status, ..ts[i] })
    }
}

/// Removes the first matching task; ids of the others never change.
pub open spec fn spec_delete(ts: Seq<TaskView>, id: u64) -> Seq<TaskView> {
    let i = spec_find(ts, id);
    if i < 0 {
        ts
    } else {
        ts.remove(i)
    }
}

/// Replaces the first matching task's categories wholesale.
pub open spec fn spec_set_categories(
    ts: Seq<TaskView>,
    id: u64,
    cats: Seq<CategoryView>,
) -> Seq<TaskView> {
    let i = spec_find(ts, id);
    if i < 0 {
        ts
    } else {
        ts.update(i, TaskView { categories: cats, ..ts[i] })
    }
}

#[derive(Clone, Copy, Debug, PartialEq, Eq, Structural)]
pub enum StartOutcome {
    Started,
    AlreadyRunning,
    NotFound,
}

#[derive(Clone, Copy, Debug, PartialEq, Eq, Structural)]
pub enum StopOutcome {
    Stopped,
    NotRunning,
    NotFound,
}

/// Opens a time entry at `now` on the first matching task, unless one
/// is already open.
pub open spec fn spec_start_timer(ts: Seq<TaskView>, id: u64, now: Timestamp) -> (
    Seq<TaskView>,
    StartOutcome,
) {
    let i = spec_find(ts, id);
    if i < 0 {
        (ts, StartOutcome::NotFound)
    } else if ts[i].current_time_entry is Some {
        (ts, StartOutcome::AlreadyRunning)
    } else {
        (
            ts.update(
                i,
                TaskView {
                    current_time_entry: Some(
                        TimeEntry { start_time: now, end_time: None, duration_seconds: None },
                    ),
                    ..ts[i]
                },
            ),
            StartOutcome::Started,
        )
    }
}

/// Closes the open entry of the first matching task at `now`: the
/// duration is exactly the difference in epoch seconds, and the closed
/// entry moves to the end of the history.
pub open spec fn spec_stop_timer(ts: Seq<TaskView>, id: u64, now: Timestamp) -> (
    Seq<TaskView>,
    StopOutcome,
) {
    let i = spec_find(ts, id);
    if i < 0 {
        (ts, StopOutcome::NotFound)
    } else {
        match ts[i].current_time_entry {
            None => (ts, StopOutcome::NotRunning),
            Some(e) => {
                let closed = TimeEntry {
                    start_time: e.start_time,
                    end_time: Some(now),
                    duration_seconds: Some(
                        (now.spec_epoch_seconds() - e.start_time.spec_epoch_seconds()) as i64,
                    ),
                };
                (
                    ts.update(
                        i,
                        TaskView {
                            time_entries: ts[i].time_entries.push(closed),
                            current_time_entry: None,
                            ..ts[i]
                        },
                    ),
                    StopOutcome::Stopped,
                )
            },
        }
    }
}

/// Records on the first matching task that a reminder went out at `now`.
pub open spec fn spec_record_notification(
    ts: Seq<TaskView>,
    id: u64,
    now: Timestamp,
) -> Seq<TaskView> {
    let i = spec_find(ts, id);
    if i < 0 {
        ts
    } else {
        ts.update(i, TaskView { last_notification: Some(now), ..ts[i] })
    }
}

// ---------------------------------------------------------------------
// The reminder scan
// ---------------------------------------------------------------------

/// A task is due for a reminder when it has a due date at most 24
/// whole hours away and not past by a whole hour, and either no
/// reminder ever went out or the last one is at least 6 whole hours
/// old. Hours truncate toward zero.
pub open spec fn notify_eligible(t: TaskView, now: Timestamp) -> bool {
    match t.due_date {
        None => false,
        Some(due) => {
            let h = hours_of(due.spec_epoch_seconds() - now.spec_epoch_seconds());
            &&& 0 <= h <= 24
            &&& match t.last_notification {
                None => true,
                Some(l) => hours_of(now.spec_epoch_seconds() - l.spec_epoch_seconds()) >= 6,
            }
        },
    }
}

/// The reminder text: due "now" within the current hour, otherwise the
/// whole hours left.
pub open spec fn spec_notification_line(t: TaskView, now: Timestamp) -> Seq<char> {
    let h = match t.due_date {
        None => 0int,
        Some(due) => hours_of(due.spec_epoch_seconds() - now.spec_epoch_seconds()),
    };
    "Task '"@ + t.title + "' is due "@ + (if h == 0 {
        "now"@
    } else {
        "in "@ + digits(h as nat) + " hours"@
    }) + "!"@
}

/// The eligible tasks in collection order, each with its reminder text.
pub open spec fn spec_candidates(ts: Seq<TaskView>, now: Timestamp) -> Seq<(u64, Seq<char>)>
    decreases ts.len(),
{
    if ts.len() == 0 {
        Seq::empty()
    } else {
        spec_candidates(ts.drop_last(), now) + (if notify_eligible(ts.last(), now) {
            seq![(ts.last().id, spec_notification_line(ts.last(), now))]
        } else {
            Seq::empty()
        })
    }
}

pub open spec fn cand_view(cs: Seq<(u64, Vec<char>)>) -> Seq<(u64, Seq<char>)> {
    cs.map_values(|p: (u64, Vec<char>)| (p.0, p.1@))
}

// ---------------------------------------------------------------------
// Executable operations
// ---------------------------------------------------------------------

impl TaskManager {
    pub open spec fn wf(self) -> bool {
        tasks_wf(self@)
    }

    /// An empty collection.
    pub fn new() -> (r: Self)
        ensures
            r@ == Seq::<TaskView>::empty(),
            r.wf(),
    {
        let r = TaskManager { tasks: Vec::new() };
        assert(r@ =~= Seq::<TaskView>::empty());
        r
    }

    /// The index of the first task with this id.
    pub fn find_index(&self, id: u64) -> (r: Option<usize>)
        ensures
            r matches Some(i) ==> i < self@.len() && spec_find(self@, id) == i,
            r is None ==> spec_find(self@, id) == -1,
    {
        let n = self.tasks.len();
        let mut i: usize = 0;
        while i < n
            invariant
                0 <= i <= n,
                n == self.tasks@.len(),
                forall|j: int| 0 <= j < i ==> self@[j].id != id,
            decreases n - i,
        {
            if self.tasks[i].id == id {
                proof {
                    lemma_find_at(self@, id, i as int);
                }
                return Some(i);
            }
            assert(self@[i as int].id != id);
            i = i + 1;
        }
        proof {
            lemma_find_none(self@, id);
        }
        None
    }

    /// Creates a task from already-gathered inputs and appends it. The
    /// id is the collection length plus one: after a deletion a later
    /// task can repeat an id, which is the documented assignment rule.
    pub fn add_task(
        &mut self,
        title: Vec<char>,
        description: Option<Vec<char>>,
        priority: Priority,
        due_date: Option<Timestamp>,
        now: Timestamp,
    ) -> (id: u64)
        requires
            old(self).wf(),
            title@.len() >= 1,
            now.wf(),
            due_date matches Some(d) ==> d.wf(),
            old(self)@.len() < usize::MAX,
        ensures
            final(self)@ == spec_add_task(
                old(self)@,
                title@,
                opt_text_view(description),
                priority,
                due_date,
                now,
            ),
            final(self).wf(),
            id == old(self)@.len() + 1,
    {
        let id = (self.tasks.len() + 1) as u64;
        let t = Task {
            id,
            title,
            description,
            priority,
            status: Status::Todo,
            due_date,
            created_at: now,
            categories: Vec::new(),
            time_entries: Vec::new(),
            current_time_entry: None,
            last_notification: None,
        };
        let ghost tv = t@;
        let ghost sv = spec_new_task(id, tv.title, tv.description, priority, due_date, now);
        self.tasks.push(t);
        proof {
            assert(tv.categories =~= Seq::<CategoryView>::empty());
            assert(tv =~= sv);
            assert(self@ =~= old(self)@.push(tv));
            assert(self@ =~= spec_add_task(
                old(self)@,
                tv.title,
                tv.description,
                priority,
                due_date,
                now,
            ));
            assert(task_wf(sv));
            assert(forall|i: int|
                0 <= i < old(self)@.len() ==> #[trigger] self@[i] == old(self)@[i]);
        }
        id
    }

    /// Marks the first matching task Done; reports whether one was found.
    pub fn complete_task(&mut self, id: u64) -> (found: bool)
        requires
            old(self).wf(),
        ensures
            final(self)@ == spec_complete(old(self)@, id),
            found == (spec_find(old(self)@, id) >= 0),
            final(self).wf(),
    {
        match self.find_index(id) {
            None => false,
            Some(i) => {
                self.tasks[i].status = Status::Done;
                assert(self@ =~= spec_complete(old(self)@, id));
                assert(self.wf()) by {
                    assert(forall|j: int|
                        0 <= j < self@.len() && j != i ==> #[trigger] self@[j] == old(self)@[j]);
                }
                true
            },
        }
    }

    /// Overwrites the first matching task's status.
    pub fn update_status(&mut self, id: u64, status: Status) -> (found: bool)
        requires
            old(self).wf(),
        ensures
            final(self)@ == spec_update_status(old(self)@, id, status),
            found == (spec_find(old(self)@, id) >= 0),
            final(self).wf(),
    {
        match self.find_index(id) {
            None => false,
            Some(i) => {
                self.tasks[i].status = status;
                assert(self@ =~= spec_update_status(old(self)@, id, status));
                assert(self.wf()) by {
                    assert(forall|j: int|
                        0 <= j < self@.len() && j != i ==> #[trigger] self@[j] == old(self)@[j]);
                }
                true
            },
        }
    }

    /// Removes the first matching task. When no task matches, the
    /// collection is left exactly as it was.
    pub fn delete_task(&mut self, id: u64) -> (found: bool)
        requires
            old(self).wf(),
        ensures
            final(self)@ == spec_delete(old(self)@, id),
            found == (spec_find(old(self)@, id) >= 0),
            final(self).wf(),
    {
        match self.find_index(id) {
            None => false,
            Some(i) => {
                self.tasks.remove(i);
                assert(self@ =~= spec_delete(old(self)@, id));
                assert(self.wf()) by {
                    assert(forall|j: int|
                        0 <= j < self@.len() ==> #[trigger] self@[j] == spec_delete(
                            old(self)@,
                            id,
                        )[j]);
                    assert(forall|j: int|
                        0 <= j < self@.len() ==> task_wf(#[trigger] spec_delete(old(self)@, id)[j]));
                }
                true
            },
        }
    }

    /// Replaces the first matching task's categories with exactly the
    /// given ones; earlier categories are discarded, never merged.
    pub fn set_categories(&mut self, id: u64, cats: Vec<Category>) -> (found: bool)
        requires
            old(self).wf(),
        ensures
            final(self)@ == spec_set_categories(old(self)@, id, cats_view(cats@)),
            found == (spec_find(old(self)@, id) >= 0),
            final(self).wf(),
    {
        let ghost cv = cats_view(cats@);
        match self.find_index(id) {
            None => false,
            Some(i) => {
                self.tasks[i].categories = cats;
                assert(self@ =~= spec_set_categories(old(self)@, id, cv));
                assert(self.wf()) by {
                    assert(forall|j: int|
                        0 <= j < self@.len() && j != i ==> #[trigger] self@[j] == old(self)@[j]);
                }
                true
            },
        }
    }

    /// Starts the timer of the first matching task at `now`, unless one
    /// is already running.
    pub fn start_timer(&mut self, id: u64, now: Timestamp) -> (r: StartOutcome)
        requires
            old(self).wf(),
            now.wf(),
        ensures
            final(self)@ == spec_start_timer(old(self)@, id, now).0,
            r == spec_start_timer(old(self)@, id, now).1,
            final(self).wf(),
    {
        match self.find_index(id) {
            None => StartOutcome::NotFound,
            Some(i) => {
                if self.tasks[i].current_time_entry.is_some() {
                    StartOutcome::AlreadyRunning
                } else {
                    self.tasks[i].current_time_entry = Some(
                        TimeEntry { start_time: now, end_time: None, duration_seconds: None },
                    );
                    assert(self@ =~= spec_start_timer(old(self)@, id, now).0);
                    assert(self.wf()) by {
                        assert(forall|j: int|
                            0 <= j < self@.len() && j != i ==> #[trigger] self@[j] == old(
                                self,
                            )@[j]);
                    }
                    StartOutcome::Started
                }
            },
        }
    }

    /// Stops the timer of the first matching task at `now`: the entry
    /// is closed with duration exactly `now` minus its start, appended
    /// to the history, and the running slot is cleared.
    pub fn stop_timer(&mut self, id: u64, now: Timestamp) -> (r: StopOutcome)
        requires
            old(self).wf(),
            now.wf(),
        ensures
            final(self)@ == spec_stop_timer(old(self)@, id, now).0,
            r == spec_stop_timer(old(self)@, id, now).1,
            final(self).wf(),
    {
        match self.find_index(id) {
            None => StopOutcome::NotFound,
            Some(i) => {
                match self.tasks[i].current_time_entry {
                    None => StopOutcome::NotRunning,
                    Some(e) => {
                        assert(entry_open_wf(e));
                        let dur = now.epoch_seconds() - e.start_time.epoch_seconds();
                        let closed = TimeEntry {
                            start_time: e.start_time,
                            end_time: Some(now),
                            duration_seconds: Some(dur),
                        };
                        assert(entry_closed_wf(closed));
                        self.tasks[i].time_entries.push(closed);
                        self.tasks[i].current_time_entry = None;
                        assert(self@ =~= spec_stop_timer(old(self)@, id, now).0);
                        assert(self.wf()) by {
                            assert(forall|j: int|
                                0 <= j < self@.len() && j != i ==> #[trigger] self@[j] == old(
                                    self,
                                )@[j]);
                            assert(forall|k: int|
                                0 <= k < old(self)@[i as int].time_entries.len()
                                    ==> #[trigger] self@[i as int].time_entries[k] == old(
                                    self,
                                )@[i as int].time_entries[k]);
                        }
                        StopOutcome::Stopped
                    },
                }
            },
        }
    }

    /// Records the instant of the latest reminder on the first matching task.
    pub fn record_notification(&mut self, id: u64, now: Timestamp) -> (found: bool)
        requires
            old(self).wf(),
            now.wf(),
        ensures
            final(self)@ == spec_record_notification(old(self)@, id, now),
            found == (spec_find(old(self)@, id) >= 0),
            final(self).wf(),
    {
        match self.find_index(id) {
            None => false,
            Some(i) => {
                self.tasks[i].last_notification = Some(now);
                assert(self@ =~= spec_record_notification(old(self)@, id, now));
                assert(self.wf()) by {
                    assert(forall|j: int|
                        0 <= j < self@.len() && j != i ==> #[trigger] self@[j] == old(self)@[j]);
                }
                true
            },
        }
    }

    /// The read-only pass of the reminder scan: every eligible task,
    /// in collection order, with its reminder text.
    pub fn notification_candidates(&self, now: Timestamp) -> (r: Vec<(u64, Vec<char>)>)
        requires
            self.wf(),
            now.wf(),
        ensures
            cand_view(r@) == spec_candidates(self@, now),
    {
        let n = self.tasks.len();
        let mut out: Vec<(u64, Vec<char>)> = Vec::new();
        let mut i: usize = 0;
        while i < n
            invariant
                0 <= i <= n,
                n == self.tasks@.len(),
                self.wf(),
                now.wf(),
                cand_view(out@) == spec_candidates(self@.take(i as int), now),
            decreases n - i,
        {
            let ghost pre = out@;
            assert(task_wf(self@[i as int]));
            if task_eligible(&self.tasks[i], now) {
                let line = notification_line(&self.tasks[i], now);
                let idv = self.tasks[i].id;
                out.push((idv, line));
                assert(cand_view(out@) =~= cand_view(pre) + seq![
                    (self@[i as int].id, spec_notification_line(self@[i as int], now)),
                ]);
            }
            i = i + 1;
            proof {
                assert(self@.take(i as int).drop_last() =~= self@.take(i - 1));
                assert(self@.take(i as int).last() == self@[i - 1]);
            }
        }
        assert(self@.take(n as int) =~= self@);
        out
    }
}

/// Decides reminder eligibility for one task.
pub fn task_eligible(t: &Task, now: Timestamp) -> (b: bool)
    requires
        task_wf(t@),
        now.wf(),
    ensures
        b == notify_eligible(t@, now),
{
    match t.due_date {
        None => false,
        Some(due) => {
            let s = due.epoch_seconds() - now.epoch_seconds();
            let h = trunc_div_i64(s, 3600);
            if !(0 <= h && h <= 24) {
                false
            } else {
                match t.last_notification {
                    None => true,
                    Some(l) => {
                        let s2 = now.epoch_seconds() - l.epoch_seconds();
                        trunc_div_i64(s2, 3600) >= 6
                    },
                }
            }
        },
    }
}

/// Builds the reminder text for one eligible task.
pub fn notification_line(t: &Task, now: Timestamp) -> (r: Vec<char>)
    requires
        task_wf(t@),
        now.wf(),
        notify_eligible(t@, now),
    ensures
        r@ == spec_notification_line(t@, now),
{
    let mut out: Vec<char> = Vec::new();
    push_str_chars(&mut out, "Task '");
    push_chars(&mut out, &t.title);
    push_str_chars(&mut out, "' is due ");
    match t.due_date {
        None => {
            assert(false);
        },
        Some(due) => {
            let s = due.epoch_seconds() - now.epoch_seconds();
            let h = trunc_div_i64(s, 3600);
            assert(0 <= h <= 24);
            if h == 0 {
                push_str_chars(&mut out, "now");
            } else {
                push_str_chars(&mut out, "in ");
                push_decimal(&mut out, h as u128);
                push_str_chars(&mut out, " hours");
            }
        },
    }
    push_str_chars(&mut out, "!");
    assert(out@ =~= spec_notification_line(t@, now));
    out
}

} // verus!
