//! Readings of the clocks: the monotonic instant of the last activity and
//! the local wall-clock time that dates each captured idea.

use vstd::prelude::*;
use std::time::Instant;
use chrono::{Datelike, Timelike};
use crate::capture::CalendarDate;
use crate::text::{digit, int_text, push_int};

verus! {

/// The monotonic clock reading of `std::time::Instant`, carried as an opaque value.
#[verifier::external_type_specification]
#[verifier::external_body]
pub struct ExInstant(std::time::Instant);

/// Calls `std::time::Instant::now`. Nothing is claimed of the reading.
#[verifier::external_body]
pub fn instant_now() -> Instant {
    Instant::now()
}

/// A reading of the local wall clock: date, time of day, and the local
/// offset from UTC in seconds.
#[derive(Debug, Clone, Copy, PartialEq, Eq, Structural)]
pub struct LocalTime {
    pub year: i32,
    pub month: u32,
    pub day: u32,
    pub hour: u32,
    pub minute: u32,
    pub second: u32,
    pub offset_seconds: i32,
}

impl LocalTime {
    /// Every field lies in its range.
    pub open spec fn wf(self) -> bool {
        &&& 1 <= self.month <= 12
        &&& 1 <= self.day <= 31
        &&& self.hour <= 23
        &&& self.minute <= 59
        &&& self.second <= 59
        &&& -86400 < self.offset_seconds < 86400
    }
}

/// Calls chrono's `Local::now` and reads the date, the time of day and the
/// offset (`local_minus_utc`) of the result. The reading depends on the
/// clock; the contract claims only the ranges that chrono documents: month
/// 1 to 12, day 1 to 31, hour 0 to 23, minute and second 0 to 59, and an
/// offset of less than a day either way (the only offsets a `FixedOffset`
/// can hold). `Local::now` panics when the system clock reads before 1970
/// or the time-zone data gives no local time; that depends on the machine,
/// not on any argument, so no `requires` can rule it out.
#[verifier::external_body]
pub fn local_clock() -> (t: LocalTime)
    ensures
        t.wf(),
{
    let now = chrono::Local::now();
    LocalTime {
        year: now.year(),
        month: now.month(),
        day: now.day(),
        hour: now.hour(),
        minute: now.minute(),
        second: now.second(),
        offset_seconds: now.offset().local_minus_utc(),
    }
}

/// Two decimal digits of `n` (`n < 100`), with a leading zero.
pub open spec fn two_digits(n: nat) -> Seq<char> {
    seq![digit((n / 10) as int), digit((n % 10) as int)]
}

/// Four decimal digits of `n` (`n < 10000`), with leading zeros.
pub open spec fn four_digits(n: nat) -> Seq<char> {
    seq![digit((n / 1000) as int), digit((n / 100 % 10) as int), digit((n / 10 % 10) as int), digit((n % 10) as int)]
}

/// A year in four digits, or in full with its sign outside 0 to 9999.
pub open spec fn year_text(y: int) -> Seq<char> {
    if 0 <= y <= 9999 {
        four_digits(y as nat)
    } else {
        int_text(y)
    }
}

/// An offset from UTC as `+HH:MM` or `-HH:MM` (seconds left out).
pub open spec fn offset_text(o: int) -> Seq<char> {
    let a: nat = if o < 0 { (-o) as nat } else { o as nat };
    (if o < 0 { seq!['-'] } else { seq!['+'] }) + two_digits(a / 3600) + seq![':'] + two_digits(a % 3600 / 60)
}

/// A reading's local date and time as `YYYY-MM-DDTHH:MM:SS` (the offset is
/// kept apart, see `offset_text`).
pub open spec fn timestamp_text(t: LocalTime) -> Seq<char> {
    year_text(t.year as int) + seq!['-'] + two_digits(t.month as nat) + seq!['-'] + two_digits(t.day as nat)
        + seq!['T'] + two_digits(t.hour as nat) + seq![':'] + two_digits(t.minute as nat) + seq![':']
        + two_digits(t.second as nat)
}

/// Appends the digit `d` (`d < 10`).
fn push_digit(s: &mut String, d: u32)
    requires
        d < 10,
    ensures
        final(s)@ == old(s)@.push(digit(d as int)),
{
    let b: u8 = d as u8;
    let c: char = (b + 48) as char;
    assert(c == digit(d as int));
    s.push(c);
}

/// Appends two digits of `n` (`n < 100`).
fn push_two(s: &mut String, n: u32)
    requires
        n < 100,
    ensures
        final(s)@ == old(s)@ + two_digits(n as nat),
{
    push_digit(s, n / 10);
    push_digit(s, n % 10);
    assert(s@ =~= old(s)@ + two_digits(n as nat));
}

/// The reading's local date and time (see `timestamp_text`).
pub fn format_timestamp(t: &LocalTime) -> (r: String)
    requires
        t.wf(),
    ensures
        r@ == timestamp_text(*t),
{
    let mut r = String::new();
    if 0 <= t.year && t.year <= 9999 {
        let y = t.year as u32;
        push_digit(&mut r, y / 1000);
        push_digit(&mut r, y / 100 % 10);
        push_digit(&mut r, y / 10 % 10);
        push_digit(&mut r, y % 10);
        assert(r@ =~= four_digits(y as nat));
    } else {
        push_int(&mut r, t.year as i64);
        assert(r@ =~= int_text(t.year as int));
    }
    r.push('-');
    push_two(&mut r, t.month);
    r.push('-');
    push_two(&mut r, t.day);
    r.push('T');
    push_two(&mut r, t.hour);
    r.push(':');
    push_two(&mut r, t.minute);
    r.push(':');
    push_two(&mut r, t.second);
    assert(r@ =~= timestamp_text(*t));
    r
}

/// The reading's offset from UTC (see `offset_text`).
pub fn format_offset(t: &LocalTime) -> (r: String)
    requires
        t.wf(),
    ensures
        r@ == offset_text(t.offset_seconds as int),
{
    let mut r = String::new();
    let a: u32 = if t.offset_seconds < 0 {
        r.push('-');
        (-(t.offset_seconds as i64)) as u32
    } else {
        r.push('+');
        t.offset_seconds as u32
    };
    push_two(&mut r, a / 3600);
    r.push(':');
    push_two(&mut r, a % 3600 / 60);
    assert(r@ =~= offset_text(t.offset_seconds as int));
    r
}

/// The calendar date that chrono's `DateTime::parse_from_rfc3339` gives for a
/// text, or `None` where it rejects the text.
pub uninterp spec fn rfc3339_date(s: Seq<char>) -> Option<CalendarDate>;

/// Calls chrono's `DateTime::parse_from_rfc3339` and reads the year, month,
/// day and weekday (`num_days_from_monday`) of the result. The contract
/// claims that the result is a function of the text alone, and the ranges
/// that chrono documents: `month` 1 to 12, `day` 1 to 31, weekday 0 to 6.
#[verifier::external_body]
pub fn parse_rfc3339_date(s: &str) -> (r: Option<CalendarDate>)
    ensures
        r == rfc3339_date(s@),
        r matches Some(d) ==> d.wf(),
{
    match chrono::DateTime::parse_from_rfc3339(s) {
        Ok(dt) => Some(CalendarDate {
            year: dt.year(),
            month: dt.month(),
            day: dt.day(),
            weekday: dt.weekday().num_days_from_monday(),
        }),
        Err(_) => None,
    }
}

/// Calls chrono's `Local::now` and reads the date in the local offset. The
/// date depends on the clock; the contract claims only the ranges that
/// chrono documents: `month` 1 to 12, `day` 1 to 31, weekday 0 to 6.
/// `Local::now` panics when the system clock reads before 1970 or the
/// time-zone data gives no local time; that depends on the machine, not on
/// any argument, so no `requires` can rule it out.
#[verifier::external_body]
pub fn local_today() -> (d: CalendarDate)
    ensures
        d.wf(),
{
    let dt: chrono::DateTime<chrono::FixedOffset> = chrono::Local::now().into();
    CalendarDate { year: dt.year(), month: dt.month(), day: dt.day(), weekday: dt.weekday().num_days_from_monday() }
}

} // verus!
