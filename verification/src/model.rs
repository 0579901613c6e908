//! The task data model: priorities, statuses, categories, time
//! entries and tasks, with their mathematical views and
//! well-formedness. Text is held as characters so that contracts can
//! speak of it directly.

use vstd::prelude::*;

use crate::chars::{copy_chars, str_to_chars};
use crate::time::Timestamp;

verus! {

#[derive(Clone, Copy, Debug, PartialEq, Eq, Structural)]
pub enum Priority {
    Low,
    Medium,
    High,
    Urgent,
}

#[derive(Clone, Copy, Debug, PartialEq, Eq, Structural)]
pub enum Status {
    Todo,
    InProgress,
    Done,
}

/// The priority a selection index denotes; anything out of range falls
/// back to Medium.
pub open spec fn spec_priority_from_index(i: int) -> Priority {
    if i == 0 {
        Priority::Low
    } else if i == 1 {
        Priority::Medium
    } else if i == 2 {
        Priority::High
    } else if i == 3 {
        Priority::Urgent
    } else {
        Priority::Medium
    }
}

pub fn priority_from_index(i: usize) -> (p: Priority)
    ensures
        p == spec_priority_from_index(i as int),
{
    match i {
        0 => Priority::Low,
        1 => Priority::Medium,
        2 => Priority::High,
        3 => Priority::Urgent,
        _ => Priority::Medium,
    }
}

/// The status a selection index denotes; anything out of range falls
/// back to Todo.
pub open spec fn spec_status_from_index(i: int) -> Status {
    if i == 0 {
        Status::Todo
    } else if i == 1 {
        Status::InProgress
    } else if i == 2 {
        Status::Done
    } else {
        Status::Todo
    }
}

pub fn status_from_index(i: usize) -> (s: Status)
    ensures
        s == spec_status_from_index(i as int),
{
    match i {
        0 => Status::Todo,
        1 => Status::InProgress,
        2 => Status::Done,
        _ => Status::Todo,
    }
}

/// A label a task can carry: a name with a display color and emoji.
/// A task holds a snapshot copy, never a reference into the catalog.
#[derive(Clone, Debug)]
pub struct Category {
    pub name: Vec<char>,
    pub color: Vec<char>,
    pub emoji: Vec<char>,
}

#[verifier::ext_equal]
pub ghost struct CategoryView {
    pub name: Seq<char>,
    pub color: Seq<char>,
    pub emoji: Seq<char>,
}

impl View for Category {
    type V = CategoryView;

    open spec fn view(&self) -> CategoryView {
        CategoryView { name: self.name@, color: self.color@, emoji: self.emoji@ }
    }
}

/// A single tracked interval of work: open while only the start is
/// recorded, closed once the end and the elapsed duration are.
#[derive(Clone, Copy, Debug)]
pub struct TimeEntry {
    pub start_time: Timestamp,
    pub end_time: Option<Timestamp>,
    pub duration_seconds: Option<i64>,
}

/// An entry still running: a start and nothing else.
pub open spec fn entry_open_wf(e: TimeEntry) -> bool {
    &&& e.start_time.wf()
    &&& e.end_time is None
    &&& e.duration_seconds is None
}

/// A finished entry: both endpoints, and the duration is exactly their
/// difference in epoch seconds.
pub open spec fn entry_closed_wf(e: TimeEntry) -> bool {
    &&& e.start_time.wf()
    &&& e.end_time matches Some(end) && (end.wf() && (e.duration_seconds matches Some(d) && d
        == end.spec_epoch_seconds() - e.start_time.spec_epoch_seconds()))
}

/// Decides whether `e` is a well-formed open entry.
pub fn check_entry_open(e: &TimeEntry) -> (b: bool)
    ensures
        b == entry_open_wf(*e),
{
    e.start_time.check_wf() && e.end_time.is_none() && e.duration_seconds.is_none()
}

/// Decides whether `e` is a well-formed closed entry.
pub fn check_entry_closed(e: &TimeEntry) -> (b: bool)
    ensures
        b == entry_closed_wf(*e),
{
    if !e.start_time.check_wf() {
        return false;
    }
    match e.end_time {
        None => false,
        Some(end) => {
            if !end.check_wf() {
                return false;
            }
            match e.duration_seconds {
                None => false,
                Some(d) => d == end.epoch_seconds() - e.start_time.epoch_seconds(),
            }
        },
    }
}

/// A unit of work tracked by the system.
#[derive(Clone, Debug)]
pub struct Task {
    pub id: u64,
    pub title: Vec<char>,
    pub description: Option<Vec<char>>,
    pub priority: Priority,
    pub status: Status,
    pub due_date: Option<Timestamp>,
    pub created_at: Timestamp,
    pub categories: Vec<Category>,
    pub time_entries: Vec<TimeEntry>,
    pub current_time_entry: Option<TimeEntry>,
    pub last_notification: Option<Timestamp>,
}

#[verifier::ext_equal]
pub ghost struct TaskView {
    pub id: u64,
    pub title: Seq<char>,
    pub description: Option<Seq<char>>,
    pub priority: Priority,
    pub status: Status,
    pub due_date: Option<Timestamp>,
    pub created_at: Timestamp,
    pub categories: Seq<CategoryView>,
    pub time_entries: Seq<TimeEntry>,
    pub current_time_entry: Option<TimeEntry>,
    pub last_notification: Option<Timestamp>,
}

impl View for Task {
    type V = TaskView;

    open spec fn view(&self) -> TaskView {
        TaskView {
            id: self.id,
            title: self.title@,
            description: match self.description {
                Some(d) => Some(d@),
                None => None,
            },
            priority: self.priority,
            status: self.status,
            due_date: self.due_date,
            created_at: self.created_at,
            categories: self.categories@.map_values(|c: Category| c@),
            time_entries: self.time_entries@,
            current_time_entry: self.current_time_entry,
            last_notification: self.last_notification,
        }
    }
}

/// What every task in the collection satisfies: a positive id, a
/// nonempty title, well-formed timestamps, a fully closed history, and
/// at most the one open entry held in `current_time_entry`.
pub open spec fn task_wf(t: TaskView) -> bool {
    &&& t.id >= 1
    &&& t.title.len() >= 1
    &&& t.created_at.wf()
    &&& (t.due_date matches Some(d) ==> d.wf())
    &&& (forall|i: int|
        0 <= i < t.time_entries.len() ==> entry_closed_wf(#[trigger] t.time_entries[i]))
    &&& (t.current_time_entry matches Some(e) ==> entry_open_wf(e))
    &&& (t.last_notification matches Some(n) ==> n.wf())
}

pub open spec fn tasks_wf(ts: Seq<TaskView>) -> bool {
    forall|i: int| 0 <= i < ts.len() ==> task_wf(#[trigger] ts[i])
}

/// Decides whether `t` is a well-formed task.
pub fn check_task_wf(t: &Task) -> (b: bool)
    ensures
        b == task_wf(t@),
{
    if t.id < 1 {
        return false;
    }
    if t.title.len() < 1 {
        return false;
    }
    if !t.created_at.check_wf() {
        return false;
    }
    match t.due_date {
        Some(d) => if !d.check_wf() {
            return false;
        },
        None => (),
    }
    match t.last_notification {
        Some(n) => if !n.check_wf() {
            return false;
        },
        None => (),
    }
    match &t.current_time_entry {
        Some(e) => if !check_entry_open(e) {
            return false;
        },
        None => (),
    }
    let n = t.time_entries.len();
    let mut i: usize = 0;
    while i < n
        invariant
            0 <= i <= n,
            n == t.time_entries@.len(),
            forall|j: int| 0 <= j < i ==> entry_closed_wf(#[trigger] t.time_entries@[j]),
        decreases n - i,
    {
        if !check_entry_closed(&t.time_entries[i]) {
            assert(!entry_closed_wf(t@.time_entries[i as int]));
            return false;
        }
        i = i + 1;
    }
    true
}

// ---------------------------------------------------------------------
// The fixed category catalog
// ---------------------------------------------------------------------

pub open spec fn spec_catalog() -> Seq<CategoryView> {
    seq![
        CategoryView { name: "Work"@, color: "blue"@, emoji: "💼"@ },
        CategoryView { name: "Personal"@, color: "green"@, emoji: "🏠"@ },
        CategoryView { name: "Study"@, color: "yellow"@, emoji: "📚"@ },
        CategoryView { name: "Health"@, color: "red"@, emoji: "💪"@ },
        CategoryView { name: "Shopping"@, color: "cyan"@, emoji: "🛒"@ },
    ]
}

pub open spec fn cats_view(cs: Seq<Category>) -> Seq<CategoryView> {
    cs.map_values(|c: Category| c@)
}

/// The catalog of categories a task can be labelled with.
pub fn catalog() -> (r: Vec<Category>)
    ensures
        cats_view(r@) == spec_catalog(),
{
    let mut out: Vec<Category> = Vec::new();
    out.push(
        Category {
            name: str_to_chars("Work"),
            color: str_to_chars("blue"),
            emoji: str_to_chars("💼"),
        },
    );
    out.push(
        Category {
            name: str_to_chars("Personal"),
            color: str_to_chars("green"),
            emoji: str_to_chars("🏠"),
        },
    );
    out.push(
        Category {
            name: str_to_chars("Study"),
            color: str_to_chars("yellow"),
            emoji: str_to_chars("📚"),
        },
    );
    out.push(
        Category {
            name: str_to_chars("Health"),
            color: str_to_chars("red"),
            emoji: str_to_chars("💪"),
        },
    );
    out.push(
        Category {
            name: str_to_chars("Shopping"),
            color: str_to_chars("cyan"),
            emoji: str_to_chars("🛒"),
        },
    );
    assert(cats_view(out@) =~= spec_catalog());
    out
}

/// The catalog entries a selection denotes: the snapshot copy at each
/// selected index, in selection order; an index outside the catalog is
/// ignored.
pub open spec fn spec_selection(ixs: Seq<usize>) -> Seq<CategoryView>
    decreases ixs.len(),
{
    if ixs.len() == 0 {
        Seq::empty()
    } else {
        spec_selection(ixs.drop_last()) + (if (ixs.last() as int) < spec_catalog().len() {
            seq![spec_catalog()[ixs.last() as int]]
        } else {
            Seq::empty()
        })
    }
}

/// Turns selected catalog indices into the categories they denote.
pub fn categories_from_selection(indices: &Vec<usize>) -> (r: Vec<Category>)
    ensures
        cats_view(r@) == spec_selection(indices@),
{
    let available = catalog();
    let mut out: Vec<Category> = Vec::new();
    let n = indices.len();
    let mut i: usize = 0;
    while i < n
        invariant
            0 <= i <= n,
            n == indices@.len(),
            cats_view(available@) == spec_catalog(),
            cats_view(out@) == spec_selection(indices@.take(i as int)),
        decreases n - i,
    {
        let ghost pre = cats_view(out@);
        let ix = indices[i];
        if ix < available.len() {
            let c = &available[ix];
            let copy = Category {
                name: copy_chars(&c.name),
                color: copy_chars(&c.color),
                emoji: copy_chars(&c.emoji),
            };
            assert(copy@ == spec_catalog()[ix as int]) by {
                assert(available@[ix as int]@ == cats_view(available@)[ix as int]);
            }
            out.push(copy);
            assert(cats_view(out@) =~= pre + seq![spec_catalog()[ix as int]]);
        }
        i = i + 1;
        proof {
            assert(indices@.take(i as int).drop_last() =~= indices@.take(i - 1));
            assert(indices@.take(i as int).last() == indices@[i - 1]);
        }
    }
    assert(indices@.take(n as int) =~= indices@);
    out
}

} // verus!
