//! Read-only text renderings: the full task listing and the per-task
//! time report. Each rendering is specified exactly, so a test can
//! hold the output against the collection it came from.

use vstd::prelude::*;

use crate::chars::{digits, push_decimal, push_str_chars, push_chars, str_to_chars};
use crate::model::{entry_closed_wf, CategoryView, Priority, Status, TaskView, TimeEntry, Task};
use crate::ops::TaskManager;
use crate::time::{
    fmt_date_hm, fmt_date_hms, fmt_hms, minutes_of, push_date_hm, push_date_hms, push_hms,
    two_digits, push_two_digits, Timestamp, EPOCH_BOUND,
};


verus! {

/// The separator line of the listing and the report.
pub open spec fn sep_line() -> Seq<char> {
    "==================================================\n"@
}

pub open spec fn status_label(s: Status) -> Seq<char> {
    match s {
        Status::Todo => "TODO"@,
        Status::InProgress => "IN PROGRESS"@,
        Status::Done => "DONE"@,
    }
}

pub open spec fn priority_label(p: Priority) -> Seq<char> {
    match p {
        Priority::Low => "LOW"@,
        Priority::Medium => "MEDIUM"@,
        Priority::High => "HIGH"@,
        Priority::Urgent => "URGENT"@,
    }
}

pub fn push_status_label(out: &mut Vec<char>, s: &Status)
    ensures
        final(out)@ == old(out)@ + status_label(*s),
{
    match s {
        Status::Todo => push_str_chars(out, "TODO"),
        Status::InProgress => push_str_chars(out, "IN PROGRESS"),
        Status::Done => push_str_chars(out, "DONE"),
    }
}

pub fn push_priority_label(out: &mut Vec<char>, p: &Priority)
    ensures
        final(out)@ == old(out)@ + priority_label(*p),
{
    match p {
        Priority::Low => push_str_chars(out, "LOW"),
        Priority::Medium => push_str_chars(out, "MEDIUM"),
        Priority::High => push_str_chars(out, "HIGH"),
        Priority::Urgent => push_str_chars(out, "URGENT"),
    }
}

// ---------------------------------------------------------------------
// Durations as hours with two decimals
// ---------------------------------------------------------------------

/// A span of seconds as whole minutes, shown in hours with two
/// decimals, rounded half up on the magnitude; negative spans keep
/// their sign.
#[verifier::opaque]
pub open spec fn render_hours(seconds: int) -> Seq<char> {
    let m = minutes_of(seconds);
    let mag = if m < 0 {
        -m
    } else {
        m
    };
    let cm = (mag * 100 + 30) / 60;
    (if m < 0 {
        seq!['-']
    } else {
        Seq::empty()
    }) + digits((cm / 100) as nat) + seq!['.'] + two_digits(cm % 100) + " hours"@
}

pub fn push_hours(out: &mut Vec<char>, seconds: i128)
    requires
        -0x1000000000000000000000000000000 <= seconds <= 0x1000000000000000000000000000000,
    ensures
        final(out)@ == old(out)@ + render_hours(seconds as int),
{
    proof {
        reveal(render_hours);
    }
    let neg = seconds < 0;
    let mag_s: u128 = if neg {
        (-seconds) as u128
    } else {
        seconds as u128
    };
    let m: u128 = mag_s / 60;
    assert(m == (if minutes_of(seconds as int) < 0 {
        -minutes_of(seconds as int)
    } else {
        minutes_of(seconds as int)
    }));
    let cm: u128 = (m * 100 + 30) / 60;
    if neg && m > 0 {
        out.push('-');
    }
    push_decimal(out, cm / 100);
    out.push('.');
    assert(cm % 100 < 100);
    push_two_digits(out, (cm % 100) as u8);
    push_str_chars(out, " hours");
    assert(out@ =~= old(out)@ + render_hours(seconds as int));
}

/// The sum of the recorded (closed) durations.
pub open spec fn total_duration(es: Seq<TimeEntry>) -> int
    decreases es.len(),
{
    if es.len() == 0 {
        0int
    } else {
        total_duration(es.drop_last()) + (match es.last().duration_seconds {
            Some(d) => d as int,
            None => 0int,
        })
    }
}

/// Sums the recorded durations; every closed duration is bounded by
/// the epoch range, so the sum stays far within the accumulator.
pub fn sum_durations(es: &Vec<TimeEntry>) -> (r: i128)
    requires
        forall|i: int| 0 <= i < es@.len() ==> entry_closed_wf(#[trigger] es@[i]),
    ensures
        r == total_duration(es@),
        -0x800000000000000000000000000000 <= r <= 0x800000000000000000000000000000,
{
    let n = es.len();
    let mut acc: i128 = 0;
    let mut i: usize = 0;
    while i < n
        invariant
            0 <= i <= n,
            n == es@.len(),
            forall|j: int| 0 <= j < n ==> entry_closed_wf(#[trigger] es@[j]),
            acc == total_duration(es@.take(i as int)),
            -(i as int) * 2 * EPOCH_BOUND <= acc <= (i as int) * 2 * EPOCH_BOUND,
        decreases n - i,
    {
        let e = es[i];
        proof {
            assert(entry_closed_wf(es@[i as int]));
            e.start_time.lemma_epoch_bounds();
            let end = e.end_time->Some_0;
            end.lemma_epoch_bounds();
            assert(es@.take(i + 1).drop_last() =~= es@.take(i as int));
            assert(es@.take(i + 1).last() == es@[i as int]);
        }
        let d = match e.duration_seconds {
            Some(d) => d,
            None => 0,
        };
        acc = acc + (d as i128);
        i = i + 1;
        assert(-(i as int) * 2 * EPOCH_BOUND <= acc <= (i as int) * 2 * EPOCH_BOUND)
            by (nonlinear_arith)
            requires
                acc - d == total_duration(es@.take(i - 1)),
                -((i - 1) as int) * 2 * EPOCH_BOUND <= acc - d <= ((i - 1) as int) * 2
                    * EPOCH_BOUND,
                -2 * EPOCH_BOUND <= d <= 2 * EPOCH_BOUND,
                i >= 1,
        ;
    }
    assert(es@.take(n as int) =~= es@);
    proof {
        assert((n as int) * 2 * EPOCH_BOUND <= 0x800000000000000000000000000000) by (nonlinear_arith)
            requires
                0 <= n <= usize::MAX,
        ;
    }
    acc
}

// ---------------------------------------------------------------------
// The task listing
// ---------------------------------------------------------------------

pub open spec fn cat_label(c: CategoryView) -> Seq<char> {
    c.emoji + " "@ + c.name
}

/// The first `i` category labels, comma-separated.
pub open spec fn cats_inline_prefix(cs: Seq<CategoryView>, i: int) -> Seq<char>
    decreases i,
{
    if i <= 0 {
        Seq::empty()
    } else if i == 1 {
        cat_label(cs[0])
    } else {
        cats_inline_prefix(cs, i - 1) + ", "@ + cat_label(cs[i - 1])
    }
}

pub open spec fn cats_inline(cs: Seq<CategoryView>) -> Seq<char> {
    cats_inline_prefix(cs, cs.len() as int)
}

fn push_cat_label(out: &mut Vec<char>, c: &crate::model::Category)
    ensures
        final(out)@ == old(out)@ + cat_label(c@),
{
    push_chars(out, &c.emoji);
    push_str_chars(out, " ");
    push_chars(out, &c.name);
    assert(out@ =~= old(out)@ + cat_label(c@));
}

fn push_cats_inline(out: &mut Vec<char>, cs: &Vec<crate::model::Category>)
    ensures
        final(out)@ == old(out)@ + cats_inline(crate::model::cats_view(cs@)),
{
    let ghost cv = crate::model::cats_view(cs@);
    let n = cs.len();
    let mut i: usize = 0;
    while i < n
        invariant
            0 <= i <= n,
            n == cs@.len(),
            cv == crate::model::cats_view(cs@),
            out@ == old(out)@ + cats_inline_prefix(cv, i as int),
        decreases n - i,
    {
        if i > 0 {
            push_str_chars(out, ", ");
        }
        push_cat_label(out, &cs[i]);
        proof {
            assert(cv[i as int] == cs@[i as int]@);
        }
        i = i + 1;
        assert(out@ =~= old(out)@ + cats_inline_prefix(cv, i as int));
    }
}

#[verifier::opaque]
pub open spec fn listing_header(t: TaskView) -> Seq<char> {
    "\n"@ + sep_line() + "Task #"@ + digits(t.id as nat) + ": "@ + t.title + "\n"@
}

#[verifier::opaque]
pub open spec fn listing_desc(t: TaskView) -> Seq<char> {
    match t.description {
        None => Seq::empty(),
        Some(d) => "Description: "@ + d + "\n"@,
    }
}

#[verifier::opaque]
pub open spec fn listing_prio_status(t: TaskView) -> Seq<char> {
    "Priority: "@ + priority_label(t.priority) + "\n"@ + "Status: "@ + status_label(t.status)
        + "\n"@
}

#[verifier::opaque]
pub open spec fn listing_cats(t: TaskView) -> Seq<char> {
    if t.categories.len() == 0 {
        Seq::empty()
    } else {
        "Categories: "@ + cats_inline(t.categories) + "\n"@
    }
}

#[verifier::opaque]
pub open spec fn listing_current(t: TaskView) -> Seq<char> {
    match t.current_time_entry {
        None => Seq::empty(),
        Some(e) => "🔄 Currently tracking time (started: "@ + fmt_hms(e.start_time) + ")\n"@,
    }
}

#[verifier::opaque]
pub open spec fn listing_total(t: TaskView) -> Seq<char> {
    if t.time_entries.len() == 0 {
        Seq::empty()
    } else {
        "⏱️ Total time: "@ + render_hours(total_duration(t.time_entries)) + "\n"@
    }
}

#[verifier::opaque]
pub open spec fn listing_due(t: TaskView) -> Seq<char> {
    match t.due_date {
        None => Seq::empty(),
        Some(d) => "Due: "@ + fmt_date_hm(d) + "\n"@,
    }
}

#[verifier::opaque]
pub open spec fn listing_created(t: TaskView) -> Seq<char> {
    "Created: "@ + fmt_date_hm(t.created_at) + "\n"@
}

/// One task's block of the listing.
#[verifier::opaque]
pub open spec fn listing_block(t: TaskView) -> Seq<char> {
    listing_header(t) + listing_desc(t) + listing_prio_status(t) + listing_cats(t)
        + listing_current(t) + listing_total(t) + listing_due(t) + listing_created(t)
}

fn push_listing_header(out: &mut Vec<char>, t: &Task)
    ensures
        final(out)@ == old(out)@ + listing_header(t@),
{
    push_str_chars(out, "\n");
    push_str_chars(out, "==================================================\n");
    push_str_chars(out, "Task #");
    push_decimal(out, t.id as u128);
    push_str_chars(out, ": ");
    push_chars(out, &t.title);
    push_str_chars(out, "\n");
    proof {
        reveal(listing_header);
    }
    assert(out@ =~= old(out)@ + listing_header(t@));
}

fn push_listing_mid(out: &mut Vec<char>, t: &Task)
    ensures
        final(out)@ == old(out)@ + listing_desc(t@) + listing_prio_status(t@) + listing_cats(t@),
{
    proof {
        reveal(listing_desc);
        reveal(listing_prio_status);
        reveal(listing_cats);
    }
    match &t.description {
        None => (),
        Some(d) => {
            push_str_chars(out, "Description: ");
            push_chars(out, d);
            push_str_chars(out, "\n");
        },
    }
    assert(out@ =~= old(out)@ + listing_desc(t@));
    let ghost o1 = out@;
    push_str_chars(out, "Priority: ");
    push_priority_label(out, &t.priority);
    push_str_chars(out, "\n");
    push_str_chars(out, "Status: ");
    push_status_label(out, &t.status);
    push_str_chars(out, "\n");
    assert(out@ =~= o1 + listing_prio_status(t@));
    let ghost o2 = out@;
    if t.categories.len() > 0 {
        push_str_chars(out, "Categories: ");
        push_cats_inline(out, &t.categories);
        push_str_chars(out, "\n");
    }
    assert(out@ =~= o2 + listing_cats(t@));
    assert(out@ =~= old(out)@ + listing_desc(t@) + listing_prio_status(t@) + listing_cats(t@));
}

fn push_listing_tail(out: &mut Vec<char>, t: &Task)
    requires
        crate::model::task_wf(t@),
    ensures
        final(out)@ == old(out)@ + listing_current(t@) + listing_total(t@) + listing_due(t@)
            + listing_created(t@),
{
    proof {
        reveal(listing_current);
        reveal(listing_total);
        reveal(listing_due);
        reveal(listing_created);
    }
    assert forall|i: int|
        0 <= i < t.time_entries@.len() implies entry_closed_wf(#[trigger] t.time_entries@[i]) by {
        assert(t.time_entries@[i] == t@.time_entries[i]);
        assert(entry_closed_wf(t@.time_entries[i]));
    }
    match &t.current_time_entry {
        None => (),
        Some(e) => {
            push_str_chars(out, "🔄 Currently tracking time (started: ");
            push_hms(out, &e.start_time);
            push_str_chars(out, ")\n");
        },
    }
    assert(out@ =~= old(out)@ + listing_current(t@));
    let ghost o1 = out@;
    if t.time_entries.len() > 0 {
        push_str_chars(out, "⏱️ Total time: ");
        let total = sum_durations(&t.time_entries);
        push_hours(out, total);
        push_str_chars(out, "\n");
    }
    assert(out@ =~= o1 + listing_total(t@));
    let ghost o2 = out@;
    match &t.due_date {
        None => (),
        Some(d) => {
            push_str_chars(out, "Due: ");
            push_date_hm(out, d);
            push_str_chars(out, "\n");
        },
    }
    assert(out@ =~= o2 + listing_due(t@));
    let ghost o3 = out@;
    push_str_chars(out, "Created: ");
    push_date_hm(out, &t.created_at);
    push_str_chars(out, "\n");
    assert(out@ =~= o3 + listing_created(t@));
    assert(out@ =~= old(out)@ + listing_current(t@) + listing_total(t@) + listing_due(t@)
        + listing_created(t@));
}

fn push_listing_block(out: &mut Vec<char>, t: &Task)
    requires
        crate::model::task_wf(t@),
    ensures
        final(out)@ == old(out)@ + listing_block(t@),
{
    push_listing_header(out, t);
    push_listing_mid(out, t);
    push_listing_tail(out, t);
    proof {
        reveal(listing_block);
    }
    assert(out@ =~= old(out)@ + listing_block(t@));
}

/// The blocks of the first `i` tasks.
pub open spec fn listing_prefix(ts: Seq<TaskView>, i: int) -> Seq<char>
    decreases i,
{
    if i <= 0 {
        Seq::empty()
    } else {
        listing_prefix(ts, i - 1) + listing_block(ts[i - 1])
    }
}

/// The whole listing: every task in collection order, or a hint when
/// there is none.
#[verifier::opaque]
pub open spec fn render_listing(ts: Seq<TaskView>) -> Seq<char> {
    if ts.len() == 0 {
        "No tasks found. Add some tasks to get started! ✨\n"@
    } else {
        listing_prefix(ts, ts.len() as int) + sep_line()
    }
}

// ---------------------------------------------------------------------
// The time report
// ---------------------------------------------------------------------

#[verifier::opaque]
pub open spec fn report_session(e: TimeEntry, k: int) -> Seq<char> {
    "\nSession "@ + digits(k as nat) + ":\n"@ + "Start: "@ + fmt_date_hms(e.start_time) + "\n"@
        + (match e.end_time {
        None => Seq::empty(),
        Some(end) => "End: "@ + fmt_date_hms(end) + "\n"@,
    }) + "Duration: "@ + (match e.duration_seconds {
        None => render_hours(0),
        Some(d) => render_hours(d as int),
    }) + "\n"@
}

pub open spec fn report_sessions_prefix(es: Seq<TimeEntry>, i: int) -> Seq<char>
    decreases i,
{
    if i <= 0 {
        Seq::empty()
    } else {
        report_sessions_prefix(es, i - 1) + report_session(es[i - 1], i)
    }
}

#[verifier::opaque]
pub open spec fn report_current(t: TaskView, now: Timestamp) -> Seq<char> {
    match t.current_time_entry {
        None => Seq::empty(),
        Some(c) => "\nCurrent session:\nStarted: "@ + fmt_date_hms(c.start_time) + "\n"@
            + "Running for: "@ + render_hours(
            now.spec_epoch_seconds() - c.start_time.spec_epoch_seconds(),
        ) + "\n"@,
    }
}

/// The reported total: every closed duration plus the running
/// session's elapsed time, when one is running.
pub open spec fn report_total(t: TaskView, now: Timestamp) -> int {
    total_duration(t.time_entries) + (match t.current_time_entry {
        None => 0int,
        Some(c) => now.spec_epoch_seconds() - c.start_time.spec_epoch_seconds(),
    })
}

#[verifier::opaque]
pub open spec fn report_header(t: TaskView) -> Seq<char> {
    "\n"@ + sep_line() + "Time Report for Task #"@ + digits(t.id as nat) + ": "@ + t.title
        + "\n"@
}

/// The full time report of one task: every closed session, the running
/// session's elapsed time if one is running, and a total of all closed
/// durations plus the in-progress elapsed time. Only a task with no
/// sessions at all, closed or running, reports that there is nothing.
#[verifier::opaque]
pub open spec fn render_report(t: TaskView, now: Timestamp) -> Seq<char> {
    report_header(t) + (if t.time_entries.len() == 0 && t.current_time_entry is None {
        "No time entries recorded yet.\n"@
    } else {
        report_sessions_prefix(t.time_entries, t.time_entries.len() as int) + report_current(
            t,
            now,
        ) + "\nTotal time spent: "@ + render_hours(report_total(t, now)) + "\n"@ + sep_line()
    })
}

fn push_report_session(out: &mut Vec<char>, e: &TimeEntry, k: u64)
    requires
        crate::codec::entry_serializable(*e),
    ensures
        final(out)@ == old(out)@ + report_session(*e, k as int),
{
    proof {
        reveal(report_session);
    }
    push_str_chars(out, "\nSession ");
    push_decimal(out, k as u128);
    push_str_chars(out, ":\n");
    push_str_chars(out, "Start: ");
    push_date_hms(out, &e.start_time);
    push_str_chars(out, "\n");
    match &e.end_time {
        None => (),
        Some(end) => {
            push_str_chars(out, "End: ");
            push_date_hms(out, end);
            push_str_chars(out, "\n");
        },
    }
    push_str_chars(out, "Duration: ");
    proof {
        crate::time::Timestamp::lemma_epoch_bounds(e.start_time);
        if e.end_time is Some {
            crate::time::Timestamp::lemma_epoch_bounds(e.end_time->Some_0);
        }
    }
    match e.duration_seconds {
        None => push_hours(out, 0),
        Some(d) => push_hours(out, d as i128),
    }
    push_str_chars(out, "\n");
    assert(out@ =~= old(out)@ + report_session(*e, k as int));
}

impl TaskManager {
    /// The read-only listing of every task.
    pub fn list_tasks(&self) -> (out: Vec<char>)
        requires
            self.wf(),
        ensures
            out@ == render_listing(self@),
    {
        proof {
            reveal(render_listing);
        }
        if self.tasks.len() == 0 {
            let out = str_to_chars("No tasks found. Add some tasks to get started! ✨\n");
            assert(out@ =~= render_listing(self@));
            return out;
        }
        let mut out: Vec<char> = Vec::new();
        let n = self.tasks.len();
        let mut i: usize = 0;
        while i < n
            invariant
                0 <= i <= n,
                n == self.tasks@.len(),
                self.wf(),
                out@ == listing_prefix(self@, i as int),
            decreases n - i,
        {
            assert(crate::model::task_wf(self@[i as int]));
            assert(self.tasks@[i as int]@ == self@[i as int]);
            push_listing_block(&mut out, &self.tasks[i]);
            i = i + 1;
        }
        push_str_chars(&mut out, "==================================================\n");
        assert(out@ =~= render_listing(self@));
        out
    }

    /// The time report of the first task with this id, or nothing when
    /// no task matches.
    pub fn time_report(&self, id: u64, now: Timestamp) -> (r: Option<Vec<char>>)
        requires
            self.wf(),
            now.wf(),
        ensures
            r matches Some(out) ==> crate::ops::spec_find(self@, id) >= 0 && out@ == render_report(
                self@[crate::ops::spec_find(self@, id)],
                now,
            ),
            r is None ==> crate::ops::spec_find(self@, id) == -1,
    {
        let i = match self.find_index(id) {
            None => {
                return None;
            },
            Some(i) => i,
        };
        proof {
            reveal(report_header);
            reveal(report_current);
            reveal(render_report);
        }
        let ghost tv = self@[i as int];
        assert(crate::model::task_wf(tv));
        let t = &self.tasks[i];
        assert(t@ == tv);
        let mut out: Vec<char> = Vec::new();
        push_str_chars(&mut out, "\n");
        push_str_chars(&mut out, "==================================================\n");
        push_str_chars(&mut out, "Time Report for Task #");
        push_decimal(&mut out, t.id as u128);
        push_str_chars(&mut out, ": ");
        push_chars(&mut out, &t.title);
        push_str_chars(&mut out, "\n");
        assert(out@ =~= report_header(tv));
        if t.time_entries.len() == 0 && t.current_time_entry.is_none() {
            push_str_chars(&mut out, "No time entries recorded yet.\n");
            assert(out@ =~= render_report(tv, now));
            return Some(out);
        }
        let k = t.time_entries.len();
        let mut j: usize = 0;
        while j < k
            invariant
                0 <= j <= k,
                k == t.time_entries@.len(),
                k <= u64::MAX,
                crate::model::task_wf(t@),
                tv == t@,
                now.wf(),
                out@ == report_header(tv) + report_sessions_prefix(tv.time_entries, j as int),
            decreases k - j,
        {
            proof {
                assert(entry_closed_wf(t@.time_entries[j as int]));
                crate::codec::lemma_task_serializable(t@);
            }
            push_report_session(&mut out, &t.time_entries[j], (j + 1) as u64);
            j = j + 1;
            assert(out@ =~= report_header(tv) + report_sessions_prefix(tv.time_entries, j as int));
        }
        let mut running: i128 = 0;
        match &t.current_time_entry {
            None => (),
            Some(c) => {
                push_str_chars(&mut out, "\nCurrent session:\nStarted: ");
                push_date_hms(&mut out, &c.start_time);
                push_str_chars(&mut out, "\n");
                push_str_chars(&mut out, "Running for: ");
                proof {
                    crate::time::Timestamp::lemma_epoch_bounds(c.start_time);
                    crate::time::Timestamp::lemma_epoch_bounds(now);
                }
                let elapsed = now.epoch_seconds() - c.start_time.epoch_seconds();
                push_hours(&mut out, elapsed as i128);
                push_str_chars(&mut out, "\n");
                running = elapsed as i128;
            },
        }
        assert(out@ =~= report_header(tv) + report_sessions_prefix(
            tv.time_entries,
            tv.time_entries.len() as int,
        ) + report_current(tv, now));
        assert forall|z: int|
            0 <= z < t.time_entries@.len() implies entry_closed_wf(
            #[trigger] t.time_entries@[z],
        ) by {
            assert(t.time_entries@[z] == t@.time_entries[z]);
            assert(entry_closed_wf(t@.time_entries[z]));
        }
        push_str_chars(&mut out, "\nTotal time spent: ");
        let total = sum_durations(&t.time_entries) + running;
        assert(total == report_total(tv, now));
        push_hours(&mut out, total);
        push_str_chars(&mut out, "\n");
        push_str_chars(&mut out, "==================================================\n");
        assert(out@ =~= render_report(tv, now));
        Some(out)
    }
}

} // verus!
