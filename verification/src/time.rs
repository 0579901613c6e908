//! Civil timestamps with a local UTC offset, as plain values: a
//! calendar date, a time of day, and the offset in seconds. The
//! conversion to seconds since the epoch is ordinary integer
//! arithmetic over the proleptic Gregorian calendar, so differences
//! between timestamps are verified here rather than delegated.

use chrono::Datelike;
use chrono::Timelike;
use vstd::prelude::*;

use crate::chars::{
    digit_char, char_digit, is_digit, signed_digits, push_signed, digit_to_char, char_to_digit,
};

verus! {

/// A bound on the year large enough for any date a calendar library
/// hands out, and small enough that epoch arithmetic never overflows.
pub const YEAR_BOUND: i64 = 262143;

/// Every well-formed timestamp's epoch seconds lie within this bound.
pub const EPOCH_BOUND: i64 = 10_000_000_000_000;

/// An instant in local time: a calendar date, a time of day, and the
/// local offset from UTC in seconds.
#[derive(Clone, Copy, Debug, PartialEq, Eq, Structural)]
pub struct Timestamp {
    pub year: i64,
    pub month: u8,
    pub day: u8,
    pub hour: u8,
    pub minute: u8,
    pub second: u8,
    pub offset_seconds: i64,
}

impl Timestamp {
    pub open spec fn wf(self) -> bool {
        &&& -YEAR_BOUND <= self.year <= YEAR_BOUND
        &&& 1 <= self.month <= 12
        &&& 1 <= self.day <= 31
        &&& self.hour < 24
        &&& self.minute < 60
        &&& self.second < 60
        &&& -86400 <= self.offset_seconds <= 86400
    }

    /// Days from the epoch to this timestamp's date, computed over a
    /// year shifted by 400000 so that every quantity stays nonnegative
    /// (the Gregorian calendar repeats every 400 years, each cycle
    /// spanning 146097 days).
    pub open spec fn spec_epoch_days(self) -> int {
        let yy = self.year + if self.month <= 2 {
            399999int
        } else {
            400000int
        };
        let era = yy / 400;
        let yoe = yy % 400;
        let mp = if self.month > 2 {
            self.month - 3
        } else {
            self.month + 9
        };
        let doy = (153 * mp + 2) / 5 + self.day - 1;
        let doe = yoe * 365 + yoe / 4 - yoe / 100 + doy;
        era * 146097 + doe - 146097000 - 719468
    }

    /// Seconds from the epoch to this instant: the local calendar
    /// time, corrected by the local offset.
    pub open spec fn spec_epoch_seconds(self) -> int {
        self.spec_epoch_days() * 86400 + self.hour * 3600 + self.minute * 60 + self.second
            - self.offset_seconds
    }

    pub proof fn lemma_epoch_bounds(self)
        requires
            self.wf(),
        ensures
            -100_000_000 <= self.spec_epoch_days() <= 300_000_000,
            -EPOCH_BOUND <= self.spec_epoch_seconds() <= EPOCH_BOUND,
    {
        let yy = self.year + if self.month <= 2 {
            399999int
        } else {
            400000int
        };
        assert(137856 <= yy <= 662143);
        let era = yy / 400;
        let yoe = yy % 400;
        assert(0 <= yoe < 400);
        assert(344 <= era <= 1656);
        let mp = if self.month > 2 {
            self.month - 3
        } else {
            self.month + 9
        };
        assert(0 <= mp <= 11);
        let doy = (153 * mp + 2) / 5 + self.day - 1;
        assert(0 <= doy <= 400);
        let doe = yoe * 365 + yoe / 4 - yoe / 100 + doy;
        assert(0 <= yoe * 365 <= 399 * 365) by (nonlinear_arith)
            requires
                0 <= yoe < 400,
        ;
        assert(0 <= yoe / 4 <= 100);
        assert(0 <= yoe / 100 <= yoe * 365 + yoe / 4) by (nonlinear_arith)
            requires
                0 <= yoe < 400,
        ;
        assert(0 <= doe <= 399 * 365 + 100 + 400);
        assert(344 * 146097 <= era * 146097 <= 1656 * 146097) by (nonlinear_arith)
            requires
                344 <= era <= 1656,
        ;
        assert(-100_000_000 <= self.spec_epoch_days() <= 300_000_000);
        assert(self.spec_epoch_days() * 86400 <= 300_000_000 * 86400) by (nonlinear_arith)
            requires
                self.spec_epoch_days() <= 300_000_000,
        ;
        assert(self.spec_epoch_days() * 86400 >= (-100_000_000) * 86400) by (nonlinear_arith)
            requires
                self.spec_epoch_days() >= -100_000_000,
        ;
    }

    /// Decides well-formedness.
    pub fn check_wf(&self) -> (b: bool)
        ensures
            b == self.wf(),
    {
        -YEAR_BOUND <= self.year && self.year <= YEAR_BOUND && 1 <= self.month && self.month <= 12
            && 1 <= self.day && self.day <= 31 && self.hour < 24 && self.minute < 60 && self.second
            < 60 && -86400 <= self.offset_seconds && self.offset_seconds <= 86400
    }

    /// Seconds from the epoch to this instant.
    pub fn epoch_seconds(&self) -> (r: i64)
        requires
            self.wf(),
        ensures
            r == self.spec_epoch_seconds(),
            -EPOCH_BOUND <= r <= EPOCH_BOUND,
    {
        proof {
            self.lemma_epoch_bounds();
        }
        let yy: u64 = (if self.month <= 2 {
            self.year + 399999
        } else {
            self.year + 400000
        }) as u64;
        let era: u64 = yy / 400;
        let yoe: u64 = yy % 400;
        let mp: u64 = if self.month > 2 {
            (self.month - 3) as u64
        } else {
            (self.month + 9) as u64
        };
        let doy: u64 = (153 * mp + 2) / 5 + (self.day - 1) as u64;
        assert(yoe / 100 <= yoe * 365 + yoe / 4) by (nonlinear_arith)
            requires
                0 <= yoe < 400,
        ;
        assert(yoe * 365 <= 399 * 365) by (nonlinear_arith)
            requires
                0 <= yoe < 400,
        ;
        let doe: u64 = yoe * 365 + yoe / 4 - yoe / 100 + doy;
        assert(era * 146097 <= 1656 * 146097) by (nonlinear_arith)
            requires
                era <= 1656,
        ;
        let days: i64 = (era * 146097 + doe) as i64 - 146097000 - 719468;
        assert(days == self.spec_epoch_days());
        let tod: i64 = (self.hour as i64) * 3600 + (self.minute as i64) * 60 + (self.second
            as i64);
        assert(days * 86400 <= 300_000_000 * 86400) by (nonlinear_arith)
            requires
                days <= 300_000_000,
        ;
        assert(days * 86400 >= (-100_000_000) * 86400) by (nonlinear_arith)
            requires
                days >= -100_000_000,
        ;
        days * 86400 + tod - self.offset_seconds
    }
}

/// Relies on chrono::Local::now: the current instant carries a valid
/// calendar date (month 1..=12, day 1..=31, hour, minute and second in
/// range, year within chrono's own +/-262142) and a local UTC offset
/// strictly within a day.
#[verifier::external_body]
fn chrono_now() -> (t: Timestamp)
    ensures
        t.wf(),
{
    let n = chrono::Local::now();
    Timestamp {
        year: n.year() as i64,
        month: n.month() as u8,
        day: n.day() as u8,
        hour: n.hour() as u8,
        minute: n.minute() as u8,
        second: n.second() as u8,
        offset_seconds: n.offset().local_minus_utc() as i64,
    }
}

/// The current local time as a well-formed timestamp.
pub fn now_local() -> (t: Timestamp)
    ensures
        t.wf(),
{
    chrono_now()
}

/// Division truncated toward zero, as a calendar library's duration
/// accessors truncate.
pub open spec fn trunc_div(a: int, b: int) -> int {
    if a >= 0 {
        a / b
    } else {
        -((-a) / b)
    }
}

/// Whole hours in a span of seconds, truncated toward zero.
pub open spec fn hours_of(seconds: int) -> int {
    trunc_div(seconds, 3600)
}

/// Whole minutes in a span of seconds, truncated toward zero.
pub open spec fn minutes_of(seconds: int) -> int {
    trunc_div(seconds, 60)
}

/// Division of `a` by a positive constant, truncated toward zero.
pub fn trunc_div_i64(a: i64, b: u64) -> (r: i64)
    requires
        a > i64::MIN,
        0 < b <= u64::MAX,
    ensures
        r == trunc_div(a as int, b as int),
{
    if a >= 0 {
        let q = (a as u64) / b;
        assert(q <= a as u64) by (nonlinear_arith)
            requires
                b >= 1,
                q == (a as u64) / b,
        ;
        q as i64
    } else {
        let q = ((-a) as u64) / b;
        assert(q <= (-a) as u64) by (nonlinear_arith)
            requires
                b >= 1,
                q == ((-a) as u64) / b,
        ;
        -(q as i64)
    }
}

// ---------------------------------------------------------------------
// Calendar validity
// ---------------------------------------------------------------------

pub open spec fn spec_is_leap_year(y: int) -> bool {
    y % 4 == 0 && (y % 100 != 0 || y % 400 == 0)
}

pub open spec fn spec_days_in_month(y: int, m: int) -> int {
    if m == 2 {
        if spec_is_leap_year(y) {
            29
        } else {
            28
        }
    } else if m == 4 || m == 6 || m == 9 || m == 11 {
        30
    } else {
        31
    }
}

pub fn days_in_month(y: u64, m: u8) -> (r: u8)
    ensures
        r == spec_days_in_month(y as int, m as int),
        28 <= r <= 31,
{
    if m == 2 {
        if y % 4 == 0 && (y % 100 != 0 || y % 400 == 0) {
            29
        } else {
            28
        }
    } else if m == 4 || m == 6 || m == 9 || m == 11 {
        30
    } else {
        31
    }
}

// ---------------------------------------------------------------------
// The due-date input format: `YYYY-MM-DD HH:MM`
// ---------------------------------------------------------------------

/// Why a due-date text was rejected.
#[derive(Clone, Copy, Debug, PartialEq, Eq, Structural)]
pub enum DueDateError {
    /// Not sixteen characters of digits and separators in the fixed shape.
    BadShape,
    /// A field out of range: no such month, day, hour or minute.
    BadRange,
}

/// Whether `text` has the exact shape `YYYY-MM-DD HH:MM`.
pub open spec fn due_date_shape_ok(text: Seq<char>) -> bool {
    &&& text.len() == 16
    &&& is_digit(text[0]) && is_digit(text[1]) && is_digit(text[2]) && is_digit(text[3])
    &&& text[4] == '-'
    &&& is_digit(text[5]) && is_digit(text[6])
    &&& text[7] == '-'
    &&& is_digit(text[8]) && is_digit(text[9])
    &&& text[10] == ' '
    &&& is_digit(text[11]) && is_digit(text[12])
    &&& text[13] == ':'
    &&& is_digit(text[14]) && is_digit(text[15])
}

pub open spec fn due_year(text: Seq<char>) -> int {
    char_digit(text[0]) * 1000 + char_digit(text[1]) * 100 + char_digit(text[2]) * 10
        + char_digit(text[3])
}

pub open spec fn due_month(text: Seq<char>) -> int {
    char_digit(text[5]) * 10 + char_digit(text[6])
}

pub open spec fn due_day(text: Seq<char>) -> int {
    char_digit(text[8]) * 10 + char_digit(text[9])
}

pub open spec fn due_hour(text: Seq<char>) -> int {
    char_digit(text[11]) * 10 + char_digit(text[12])
}

pub open spec fn due_minute(text: Seq<char>) -> int {
    char_digit(text[14]) * 10 + char_digit(text[15])
}

/// Whether the fields of a well-shaped due-date text denote a real
/// calendar date and time of day.
pub open spec fn due_date_range_ok(text: Seq<char>) -> bool {
    &&& 1 <= due_month(text) <= 12
    &&& 1 <= due_day(text) <= spec_days_in_month(due_year(text), due_month(text))
    &&& due_hour(text) < 24
    &&& due_minute(text) < 60
}

/// The meaning of a due-date text: the timestamp it denotes at the
/// given local offset (seconds are zero), or the reason it is
/// rejected. Unlike the interactive prompt's silent fallback, a
/// malformed text is an error here.
pub open spec fn spec_parse_due_date(text: Seq<char>, offset_seconds: i64) -> Result<
    Timestamp,
    DueDateError,
> {
    if !due_date_shape_ok(text) {
        Err(DueDateError::BadShape)
    } else if !due_date_range_ok(text) {
        Err(DueDateError::BadRange)
    } else {
        Ok(
            Timestamp {
                year: due_year(text) as i64,
                month: due_month(text) as u8,
                day: due_day(text) as u8,
                hour: due_hour(text) as u8,
                minute: due_minute(text) as u8,
                second: 0,
                offset_seconds,
            },
        )
    }
}

/// Parses a due-date text of the fixed shape `YYYY-MM-DD HH:MM`.
pub fn parse_due_date(text: &Vec<char>, offset_seconds: i64) -> (r: Result<
    Timestamp,
    DueDateError,
>)
    requires
        -86400 <= offset_seconds <= 86400,
    ensures
        r == spec_parse_due_date(text@, offset_seconds),
        r matches Ok(ts) ==> ts.wf(),
{
    if text.len() != 16 {
        return Err(DueDateError::BadShape);
    }
    let d0 = char_to_digit(text[0]);
    let d1 = char_to_digit(text[1]);
    let d2 = char_to_digit(text[2]);
    let d3 = char_to_digit(text[3]);
    let m0 = char_to_digit(text[5]);
    let m1 = char_to_digit(text[6]);
    let a0 = char_to_digit(text[8]);
    let a1 = char_to_digit(text[9]);
    let h0 = char_to_digit(text[11]);
    let h1 = char_to_digit(text[12]);
    let n0 = char_to_digit(text[14]);
    let n1 = char_to_digit(text[15]);
    if d0.is_none() || d1.is_none() || d2.is_none() || d3.is_none() || m0.is_none() || m1.is_none()
        || a0.is_none() || a1.is_none() || h0.is_none() || h1.is_none() || n0.is_none()
        || n1.is_none() {
        return Err(DueDateError::BadShape);
    }
    if text[4] != '-' || text[7] != '-' || text[10] != ' ' || text[13] != ':' {
        return Err(DueDateError::BadShape);
    }
    let year: u64 = (d0.unwrap() as u64) * 1000 + (d1.unwrap() as u64) * 100 + (d2.unwrap()
        as u64) * 10 + (d3.unwrap() as u64);
    let month: u8 = m0.unwrap() * 10 + m1.unwrap();
    let day: u8 = a0.unwrap() * 10 + a1.unwrap();
    let hour: u8 = h0.unwrap() * 10 + h1.unwrap();
    let minute: u8 = n0.unwrap() * 10 + n1.unwrap();
    if !(1 <= month && month <= 12) {
        return Err(DueDateError::BadRange);
    }
    if !(1 <= day && day <= days_in_month(year, month)) {
        return Err(DueDateError::BadRange);
    }
    if !(hour < 24) {
        return Err(DueDateError::BadRange);
    }
    if !(minute < 60) {
        return Err(DueDateError::BadRange);
    }
    Ok(
        Timestamp {
            year: year as i64,
            month,
            day,
            hour,
            minute,
            second: 0,
            offset_seconds,
        },
    )
}

// ---------------------------------------------------------------------
// Display formats
// ---------------------------------------------------------------------

/// A two-digit, zero-padded numeral.
pub open spec fn two_digits(v: int) -> Seq<char> {
    seq![digit_char(v / 10 % 10), digit_char(v % 10)]
}

/// A four-digit, zero-padded numeral.
pub open spec fn four_digits(v: int) -> Seq<char> {
    seq![digit_char(v / 1000 % 10), digit_char(v / 100 % 10), digit_char(v / 10 % 10), digit_char(v % 10)]
}

/// The date as `YYYY-MM-DD`; a year outside four digits keeps its sign
/// and full width.
#[verifier::opaque]
pub open spec fn fmt_date(ts: Timestamp) -> Seq<char> {
    (if 0 <= ts.year <= 9999 {
        four_digits(ts.year as int)
    } else {
        signed_digits(ts.year as int)
    }) + seq!['-'] + two_digits(ts.month as int) + seq!['-'] + two_digits(ts.day as int)
}

/// The date and time as `YYYY-MM-DD HH:MM`.
#[verifier::opaque]
pub open spec fn fmt_date_hm(ts: Timestamp) -> Seq<char> {
    fmt_date(ts) + seq![' '] + two_digits(ts.hour as int) + seq![':'] + two_digits(
        ts.minute as int,
    )
}

/// The date and time as `YYYY-MM-DD HH:MM:SS`.
#[verifier::opaque]
pub open spec fn fmt_date_hms(ts: Timestamp) -> Seq<char> {
    fmt_date_hm(ts) + seq![':'] + two_digits(ts.second as int)
}

/// The time of day as `HH:MM:SS`.
#[verifier::opaque]
pub open spec fn fmt_hms(ts: Timestamp) -> Seq<char> {
    two_digits(ts.hour as int) + seq![':'] + two_digits(ts.minute as int) + seq![':'] + two_digits(
        ts.second as int,
    )
}

pub fn push_two_digits(out: &mut Vec<char>, v: u8)
    requires
        v < 100,
    ensures
        final(out)@ == old(out)@ + two_digits(v as int),
{
    out.push(digit_to_char(v / 10));
    out.push(digit_to_char(v % 10));
    assert(v / 10 % 10 == v / 10);
    assert(out@ =~= old(out)@ + two_digits(v as int));
}

pub fn push_four_digits(out: &mut Vec<char>, v: u64)
    requires
        v < 10000,
    ensures
        final(out)@ == old(out)@ + four_digits(v as int),
{
    out.push(digit_to_char((v / 1000) as u8));
    out.push(digit_to_char((v / 100 % 10) as u8));
    out.push(digit_to_char((v / 10 % 10) as u8));
    out.push(digit_to_char((v % 10) as u8));
    assert(v / 1000 % 10 == v / 1000);
    assert(out@ =~= old(out)@ + four_digits(v as int));
}

pub fn push_date_hm(out: &mut Vec<char>, ts: &Timestamp)
    requires
        ts.wf(),
    ensures
        final(out)@ == old(out)@ + fmt_date_hm(*ts),
{
    if 0 <= ts.year && ts.year <= 9999 {
        push_four_digits(out, ts.year as u64);
    } else {
        push_signed(out, ts.year as i128);
    }
    out.push('-');
    push_two_digits(out, ts.month);
    out.push('-');
    push_two_digits(out, ts.day);
    out.push(' ');
    push_two_digits(out, ts.hour);
    out.push(':');
    push_two_digits(out, ts.minute);
    proof {
        reveal(fmt_date);
        reveal(fmt_date_hm);
    }
    assert(out@ =~= old(out)@ + fmt_date_hm(*ts));
}

pub fn push_date_hms(out: &mut Vec<char>, ts: &Timestamp)
    requires
        ts.wf(),
    ensures
        final(out)@ == old(out)@ + fmt_date_hms(*ts),
{
    push_date_hm(out, ts);
    out.push(':');
    push_two_digits(out, ts.second);
    proof {
        reveal(fmt_date_hms);
    }
    assert(out@ =~= old(out)@ + fmt_date_hms(*ts));
}

pub fn push_hms(out: &mut Vec<char>, ts: &Timestamp)
    requires
        ts.wf(),
    ensures
        final(out)@ == old(out)@ + fmt_hms(*ts),
{
    push_two_digits(out, ts.hour);
    out.push(':');
    push_two_digits(out, ts.minute);
    out.push(':');
    push_two_digits(out, ts.second);
    proof {
        reveal(fmt_hms);
    }
    assert(out@ =~= old(out)@ + fmt_hms(*ts));
}

} // verus!
