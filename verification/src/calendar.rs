//! Calendar dates and date-times, held as day numbers (days from January 1
//! of year 1 in the proleptic Gregorian calendar, which is day 1) and times
//! of day; what needs the calendar itself (parsing, formatting, the current
//! date, arithmetic at the edges of the range) is asked of `chrono`.
use vstd::prelude::*;
use chrono::{Datelike, Days, Local, NaiveDate, NaiveDateTime, NaiveTime, Timelike};
use crate::text::nat_text;

verus! {

/// The day number of `chrono`'s earliest date (`NaiveDate::MIN`).
pub const FIRST_DAY: i32 = -95746129;

/// The day number of `chrono`'s latest date (`NaiveDate::MAX`).
pub const LAST_DAY: i32 = 95745399;

/// Whether `d` is the day number of a date that `chrono` can represent.
pub open spec fn day_in_range(d: int) -> bool {
    FIRST_DAY <= d <= LAST_DAY
}

/// A calendar date, as its day number.
#[derive(Clone, Copy, Debug)]
pub struct Date {
    days: i32,
}

impl View for Date {
    type V = int;

    closed spec fn view(&self) -> int {
        self.days as int
    }
}

impl Date {
    #[verifier::type_invariant]
    spec fn wf(self) -> bool {
        day_in_range(self.days as int)
    }

    /// The date with day number `days`, if `chrono` can represent it.
    pub fn from_days(days: i32) -> (r: Option<Date>)
        ensures
            r is Some <==> day_in_range(days as int),
            r matches Some(d) ==> d@ == days,
    {
        if FIRST_DAY <= days && days <= LAST_DAY {
            Some(Date { days })
        } else {
            None
        }
    }

    /// The date `year-month-day`, if there is such a date.
    pub fn from_ymd(year: i32, month: u32, day: u32) -> (r: Option<Date>)
        ensures
            match r {
                Some(d) => spec_ymd_day(year as int, month as int, day as int) == Some(d@),
                None => spec_ymd_day(year as int, month as int, day as int) is None,
            },
    {
        date_from_ymd(year, month, day)
    }

    /// The day number (day 1 is January 1 of year 1).
    pub fn days(&self) -> (r: i32)
        ensures
            r == self@,
            day_in_range(r as int),
    {
        proof {
            use_type_invariant(self);
        }
        self.days
    }

    /// Whether two dates are the same day.
    pub fn same_day(&self, other: &Date) -> (r: bool)
        ensures
            r == (self@ == other@),
    {
        self.days == other.days
    }
}

/// Whether `y` is a leap year of the proleptic Gregorian calendar.
pub open spec fn is_leap_year(y: int) -> bool {
    y % 4 == 0 && (y % 100 != 0 || y % 400 == 0)
}

/// The number of days of month `m` of year `y`.
pub open spec fn month_length(y: int, m: int) -> int {
    if m == 2 {
        if is_leap_year(y) { 29 } else { 28 }
    } else if m == 4 || m == 6 || m == 9 || m == 11 {
        30
    } else {
        31
    }
}

/// The number of days of year `y` before month `m`.
pub open spec fn days_before_month(y: int, m: int) -> int
    decreases m,
{
    if m <= 1 {
        0
    } else {
        days_before_month(y, m - 1) + month_length(y, m - 1)
    }
}

/// The number of days from 1 January of year 1 to 1 January of year `y`
/// (negative before year 1).
pub open spec fn days_before_year(y: int) -> int {
    let p = y - 1;
    365 * p + p / 4 - p / 100 + p / 400
}

/// The day number of the date `year-month-day`, if there is such a date
/// that `chrono` represents (`NaiveDate::from_ymd_opt`, years -262143 to
/// 262142): 1 January of year 1 is day 1.
pub open spec fn spec_ymd_day(year: int, month: int, day: int) -> Option<int> {
    if -262143 <= year <= 262142 && 1 <= month <= 12 && 1 <= day <= month_length(year, month) {
        Some(days_before_year(year) + days_before_month(year, month) + day)
    } else {
        None
    }
}

/// The day number of the date that `NaiveDate::parse_from_str(s, "%Y-%m-%d")`
/// reads from `s`, if it reads one.
pub uninterp spec fn spec_parse_date(s: Seq<char>) -> Option<int>;

/// `n` in decimal, with zeros in front up to `width` digits.
pub open spec fn padded(n: nat, width: nat) -> Seq<char> {
    let t = nat_text(n);
    if t.len() >= width {
        t
    } else {
        Seq::new((width - t.len()) as nat, |i: int| '0') + t
    }
}

/// A year as `chrono` writes it: four digits from 0 to 9999, else a sign
/// and at least four digits.
pub open spec fn year_text(y: int) -> Seq<char> {
    if 0 <= y <= 9999 {
        padded(y as nat, 4)
    } else if y > 9999 {
        seq!['+'] + padded(y as nat, 4)
    } else {
        seq!['-'] + padded((-y) as nat, 4)
    }
}

/// The date `y-m-d` as `YYYY-MM-DD`.
pub open spec fn ymd_text(y: int, m: int, d: int) -> Seq<char> {
    year_text(y) + seq!['-'] + padded(m as nat, 2) + seq!['-'] + padded(d as nat, 2)
}

/// The year, month and day of the date with day number `d` (see
/// `spec_ymd_day`).
pub open spec fn day_ymd(d: int) -> (int, int, int) {
    choose|t: (int, int, int)| spec_ymd_day(t.0, t.1, t.2) == Some(d)
}

/// How `chrono` displays the date with day number `d`: `YYYY-MM-DD`.
pub open spec fn spec_date_text(d: int) -> Seq<char> {
    ymd_text(day_ymd(d).0, day_ymd(d).1, day_ymd(d).2)
}

/// The date-time, as (day number, second of the day, nanosecond), that
/// `NaiveDateTime::parse_from_str(s, "%Y-%m-%dT%H:%M:%S")` reads from `s`.
pub uninterp spec fn spec_parse_datetime(s: Seq<char>) -> Option<(int, int, int)>;

/// The fraction of a second as `chrono` writes it: nothing for none, else a
/// dot and three, six or nine digits, the fewest that hold it.
pub open spec fn fraction_text(nanos: int) -> Seq<char> {
    if nanos == 0 {
        Seq::empty()
    } else if nanos % 1_000_000 == 0 {
        seq!['.'] + padded((nanos / 1_000_000) as nat, 3)
    } else if nanos % 1_000 == 0 {
        seq!['.'] + padded((nanos / 1_000) as nat, 6)
    } else {
        seq!['.'] + padded(nanos as nat, 9)
    }
}

/// A time of day as `chrono` writes it: `HH:MM:SS` and the fraction; during
/// a leap second (`nanos` past one second) the second reads 60.
pub open spec fn time_text(secs: int, nanos: int) -> Seq<char> {
    let (sec, frac) = if nanos >= 1_000_000_000 {
        (secs % 60 + 1, nanos - 1_000_000_000)
    } else {
        (secs % 60, nanos)
    };
    padded((secs / 3600) as nat, 2) + seq![':'] + padded((secs / 60 % 60) as nat, 2) + seq![':'] + padded(
        sec as nat,
        2,
    ) + fraction_text(frac)
}

/// How `chrono` displays a date-time: the date, a space and the time.
pub open spec fn spec_datetime_text(day: int, secs: int, nanos: int) -> Seq<char> {
    spec_date_text(day) + seq![' '] + time_text(secs, nanos)
}

/// `NaiveDate::from_ymd_opt` and `num_days_from_ce`: the date
/// `year-month-day`, if it exists and is in range, by its day number (see
/// `spec_ymd_day`).
#[verifier::external_body]
pub(crate) fn date_from_ymd(year: i32, month: u32, day: u32) -> (r: Option<Date>)
    ensures
        match r {
            Some(d) => spec_ymd_day(year as int, month as int, day as int) == Some(d@),
            None => spec_ymd_day(year as int, month as int, day as int) is None,
        },
{
    NaiveDate::from_ymd_opt(year, month, day).map(|d| Date { days: d.num_days_from_ce() })
}

/// `NaiveDate::parse_from_str(s, "%Y-%m-%d")`; the contract names the day
/// number of what it reads `spec_parse_date(s@)`.
#[verifier::external_body]
pub(crate) fn parse_date(s: &str) -> (r: Option<Date>)
    ensures
        match r {
            Some(d) => spec_parse_date(s@) == Some(d@),
            None => spec_parse_date(s@) is None,
        },
{
    NaiveDate::parse_from_str(s, "%Y-%m-%d").ok().map(|d| Date { days: d.num_days_from_ce() })
}

/// `NaiveDate`'s `Display`: claimed to write the date's year, month and day
/// as `spec_date_text` says.
#[verifier::external_body]
pub(crate) fn date_text(d: &Date) -> (r: String)
    ensures
        r@ == spec_date_text(d@),
{
    NaiveDate::from_num_days_from_ce_opt(d.days).unwrap().to_string()
}

/// `NaiveDate::checked_add_days`: per `chrono`'s source, `None` exactly when
/// `n` exceeds `i32::MAX` or the sum leaves the representable range, and
/// otherwise the date `n` days later.
#[verifier::external_body]
pub(crate) fn date_add_days(d: &Date, n: u64) -> (r: Option<Date>)
    ensures
        r is Some <==> (n <= i32::MAX && day_in_range(d@ + n)),
        r matches Some(x) ==> x@ == d@ + n,
{
    NaiveDate::from_num_days_from_ce_opt(d.days).unwrap().checked_add_days(Days::new(n)).map(
        |x| Date { days: x.num_days_from_ce() },
    )
}

/// `NaiveDate::checked_sub_days`: per `chrono`'s source, `None` exactly when
/// `n` exceeds `i32::MAX` or the difference leaves the representable range,
/// and otherwise the date `n` days earlier.
#[verifier::external_body]
pub(crate) fn date_sub_days(d: &Date, n: u64) -> (r: Option<Date>)
    ensures
        r is Some <==> (n <= i32::MAX && day_in_range(d@ - n)),
        r matches Some(x) ==> x@ + n == d@,
{
    NaiveDate::from_num_days_from_ce_opt(d.days).unwrap().checked_sub_days(Days::new(n)).map(
        |x| Date { days: x.num_days_from_ce() },
    )
}

/// `chrono::Local::now().date_naive()`: today in the local time zone. The
/// contract says nothing of which day that is.
#[verifier::external_body]
pub(crate) fn today() -> (r: Date) {
    Date { days: Local::now().date_naive().num_days_from_ce() }
}

/// A date and a time of day, as `chrono::NaiveDateTime` holds them: the
/// second of the day and the nanosecond within it (which reaches past one
/// second only during a leap second).
#[derive(Clone, Copy, Debug)]
pub struct DateTime {
    date: Date,
    secs: u32,
    nanos: u32,
}

/// Whether (second of day, nanosecond) is a time that `chrono` accepts.
pub open spec fn time_ok(secs: int, nanos: int) -> bool {
    &&& 0 <= secs < 86400
    &&& 0 <= nanos < 2_000_000_000
    &&& nanos >= 1_000_000_000 ==> secs % 60 == 59
}

impl View for DateTime {
    type V = (int, int, int);

    closed spec fn view(&self) -> (int, int, int) {
        (self.date@, self.secs as int, self.nanos as int)
    }
}

impl DateTime {
    #[verifier::type_invariant]
    spec fn wf(self) -> bool {
        time_ok(self.secs as int, self.nanos as int)
    }

    /// The date-time at second `secs` of the day `date`, plus `nanos`
    /// nanoseconds, if that is a valid time of day.
    pub fn from_parts(date: Date, secs: u32, nanos: u32) -> (r: Option<DateTime>)
        ensures
            r is Some <==> time_ok(secs as int, nanos as int),
            r matches Some(t) ==> t@ == (date@, secs as int, nanos as int),
    {
        if secs < 86400 && nanos < 2_000_000_000 && (nanos < 1_000_000_000 || secs % 60 == 59) {
            Some(DateTime { date, secs, nanos })
        } else {
            None
        }
    }

    /// The date.
    pub fn date(&self) -> (r: Date)
        ensures
            r@ == self@.0,
    {
        self.date
    }

    /// The second of the day.
    pub fn seconds(&self) -> (r: u32)
        ensures
            r == self@.1,
    {
        self.secs
    }

    /// The nanosecond within the second.
    pub fn nanos(&self) -> (r: u32)
        ensures
            r == self@.2,
    {
        self.nanos
    }
}

/// `NaiveDateTime::parse_from_str(s, "%Y-%m-%dT%H:%M:%S")`; the contract
/// names what it reads `spec_parse_datetime(s@)`.
#[verifier::external_body]
pub(crate) fn parse_datetime(s: &str) -> (r: Option<DateTime>)
    ensures
        match r {
            Some(t) => spec_parse_datetime(s@) == Some(t@),
            None => spec_parse_datetime(s@) is None,
        },
{
    NaiveDateTime::parse_from_str(s, "%Y-%m-%dT%H:%M:%S").ok().map(
        |t| DateTime {
            date: Date { days: t.date().num_days_from_ce() },
            secs: t.time().num_seconds_from_midnight(),
            nanos: t.time().nanosecond(),
        },
    )
}

/// `NaiveDateTime`'s `Display`: claimed to write the date, a space and the
/// time as `spec_datetime_text` says.
#[verifier::external_body]
pub(crate) fn datetime_text(t: &DateTime) -> (r: String)
    ensures
        r@ == spec_datetime_text(t@.0, t@.1, t@.2),
{
    let date = NaiveDate::from_num_days_from_ce_opt(t.date.days).unwrap();
    let time = NaiveTime::from_num_seconds_from_midnight_opt(t.secs, t.nanos).unwrap();
    NaiveDateTime::new(date, time).to_string()
}

} // verus!
