//! Temporal values: a tagged date-or-datetime type with formatting and
//! urgency classification.
//!
//! Dates are plain calendar values (year, month, day) in the proleptic
//! Gregorian calendar; times are hours and minutes of a local day. Day
//! arithmetic and weekday names come from the `chrono` crate through
//! trusted wrappers; everything built on top of them is verified.

use vstd::prelude::*;
use vstd::string::StrSliceExecFns;
use vstd::string::StringExecFns;
use crate::fmt::{spec_dec_pad, push_dec_pad};

verus! {

/// A calendar date in the proleptic Gregorian calendar.
#[derive(Clone, Copy, PartialEq, Eq, Structural, Debug)]
pub struct SimpleDate {
    pub year: i32,
    pub month: u8,
    pub day: u8,
}

/// A time of day with minute precision.
#[derive(Clone, Copy, PartialEq, Eq, Structural, Debug)]
pub struct SimpleTime {
    pub hour: u8,
    pub minute: u8,
}

/// A date, or a date with a time of day, in local time.
#[derive(Clone, Copy, PartialEq, Eq, Structural, Debug)]
pub enum DateMaybeTime {
    Date(SimpleDate),
    DateTime(SimpleDate, SimpleTime),
}

/// An instant: a date and the seconds elapsed since its midnight.
#[derive(Clone, Copy, PartialEq, Eq, Structural, Debug)]
pub struct Moment {
    pub date: SimpleDate,
    pub secs: u32,
}

/// Urgency of a temporal value relative to now: past due, due within a
/// day, or further out. Used only for display coloring.
#[derive(Clone, Copy, PartialEq, Eq, Structural, Debug)]
pub enum Urgency {
    Overdue,
    DueSoon,
    Upcoming,
}

pub open spec fn spec_is_leap_year(y: int) -> bool {
    (y % 4 == 0 && y % 100 != 0) || y % 400 == 0
}

pub open spec fn spec_days_in_month(y: int, m: int) -> int {
    if m == 2 {
        if spec_is_leap_year(y) { 29 } else { 28 }
    } else if m == 4 || m == 6 || m == 9 || m == 11 {
        30
    } else {
        31
    }
}

impl SimpleDate {
    /// A well-formed calendar date, within the year range that day
    /// arithmetic supports (chrono's `MIN_YEAR..=MAX_YEAR`).
    pub open spec fn wf(self) -> bool {
        &&& -262143 <= self.year <= 262142
        &&& 1 <= self.month <= 12
        &&& 1 <= self.day <= spec_days_in_month(self.year as int, self.month as int)
    }
}

impl SimpleTime {
    pub open spec fn wf(self) -> bool {
        self.hour < 24 && self.minute < 60
    }
}

impl DateMaybeTime {
    pub open spec fn wf(self) -> bool {
        match self {
            DateMaybeTime::Date(d) => d.wf(),
            DateMaybeTime::DateTime(d, t) => d.wf() && t.wf(),
        }
    }

    /// The calendar-date portion of the value.
    pub open spec fn spec_date(self) -> SimpleDate {
        match self {
            DateMaybeTime::Date(d) => d,
            DateMaybeTime::DateTime(d, _) => d,
        }
    }
}

impl Moment {
    pub open spec fn wf(self) -> bool {
        self.date.wf() && self.secs < 86400
    }
}

/// Whether a year is a leap year in the proleptic Gregorian calendar.
pub fn is_leap_year(y: i32) -> (r: bool)
    ensures
        r == spec_is_leap_year(y as int),
{
    (y % 4 == 0 && y % 100 != 0) || y % 400 == 0
}

/// Number of days in the given month of the given year.
pub fn days_in_month(y: i32, m: u8) -> (r: u8)
    requires
        1 <= m <= 12,
    ensures
        r == spec_days_in_month(y as int, m as int),
{
    if m == 2 {
        if is_leap_year(y) { 29 } else { 28 }
    } else if m == 4 || m == 6 || m == 9 || m == 11 {
        30
    } else {
        31
    }
}

/// The year as printed: zero-padded to four digits, a leading minus
/// sign for years before year zero.
pub open spec fn spec_year_chars(y: int) -> Seq<char> {
    if y < 0 {
        seq!['-'] + spec_dec_pad(-y, 4)
    } else {
        spec_dec_pad(y, 4)
    }
}

/// The date portion as printed: `YYYY/MM/DD`.
pub open spec fn spec_date_chars(d: SimpleDate) -> Seq<char> {
    spec_year_chars(d.year as int) + seq!['/'] + spec_dec_pad(d.month as int, 2)
        + seq!['/'] + spec_dec_pad(d.day as int, 2)
}

/// The time portion as printed: `HH:MM`, 24-hour.
pub open spec fn spec_time_chars(t: SimpleTime) -> Seq<char> {
    spec_dec_pad(t.hour as int, 2) + seq![':'] + spec_dec_pad(t.minute as int, 2)
}

/// Append the printed year to `out`.
fn push_year(out: &mut String, y: i32)
    ensures
        final(out)@ == old(out)@ + spec_year_chars(y as int),
{
    if y < 0 {
        proof {
            reveal_strlit("-");
        }
        out.append("-");
        let mag: u64 = (-(y as i64)) as u64;
        push_dec_pad(out, mag, 4);
        proof {
            assert(final(out)@ =~= old(out)@ + spec_year_chars(y as int));
        }
    } else {
        push_dec_pad(out, y as u64, 4);
    }
}

impl DateMaybeTime {
    /// The date portion formatted `YYYY/MM/DD`.
    pub fn date_string(&self) -> (r: String)
        ensures
            r@ == spec_date_chars(self.spec_date()),
    {
        let d = match self {
            DateMaybeTime::Date(d) => *d,
            DateMaybeTime::DateTime(d, _) => *d,
        };
        let mut out = String::new();
        push_year(&mut out, d.year);
        proof {
            reveal_strlit("/");
        }
        out.append("/");
        push_dec_pad(&mut out, d.month as u64, 2);
        out.append("/");
        push_dec_pad(&mut out, d.day as u64, 2);
        proof {
            assert(out@ =~= spec_date_chars(self.spec_date()));
        }
        out
    }

    /// Empty for a plain date; `HH:MM` (24-hour) for a date-time.
    pub fn time_string(&self) -> (r: String)
        ensures
            match self {
                DateMaybeTime::Date(_) => r@ == Seq::<char>::empty(),
                DateMaybeTime::DateTime(_, t) => r@ == spec_time_chars(*t),
            },
    {
        match self {
            DateMaybeTime::Date(_) => String::new(),
            DateMaybeTime::DateTime(_, t) => {
                let mut out = String::new();
                push_dec_pad(&mut out, t.hour as u64, 2);
                proof {
                    reveal_strlit(":");
                }
                out.append(":");
                push_dec_pad(&mut out, t.minute as u64, 2);
                proof {
                    assert(out@ =~= spec_time_chars(*t));
                }
                out
            }
        }
    }
}

/// Whether a character is a decimal digit.
pub open spec fn spec_is_digit(c: char) -> bool {
    48 <= c as u32 <= 57
}

/// The numeric value of a digit character.
pub open spec fn spec_digit_val(c: char) -> int {
    c as u32 - 48
}

/// The date that the text `YYYY/MM/DD` denotes: four digits, a slash,
/// two digits, a slash, two digits, naming a well-formed calendar date.
/// Anything else parses to nothing.
pub open spec fn spec_parse_date(s: Seq<char>) -> Option<SimpleDate> {
    if s.len() == 10 && spec_is_digit(s[0]) && spec_is_digit(s[1]) && spec_is_digit(s[2])
        && spec_is_digit(s[3]) && s[4] == '/' && spec_is_digit(s[5]) && spec_is_digit(s[6])
        && s[7] == '/' && spec_is_digit(s[8]) && spec_is_digit(s[9]) {
        let y = spec_digit_val(s[0]) * 1000 + spec_digit_val(s[1]) * 100 + spec_digit_val(s[2])
            * 10 + spec_digit_val(s[3]);
        let m = spec_digit_val(s[5]) * 10 + spec_digit_val(s[6]);
        let d = spec_digit_val(s[8]) * 10 + spec_digit_val(s[9]);
        if 1 <= m <= 12 && 1 <= d <= spec_days_in_month(y, m) {
            Some(SimpleDate { year: y as i32, month: m as u8, day: d as u8 })
        } else {
            None
        }
    } else {
        None
    }
}

/// The time that the text `HH:MM` denotes, 24-hour. Anything else
/// parses to nothing.
pub open spec fn spec_parse_time(s: Seq<char>) -> Option<SimpleTime> {
    if s.len() == 5 && spec_is_digit(s[0]) && spec_is_digit(s[1]) && s[2] == ':'
        && spec_is_digit(s[3]) && spec_is_digit(s[4]) {
        let h = spec_digit_val(s[0]) * 10 + spec_digit_val(s[1]);
        let m = spec_digit_val(s[3]) * 10 + spec_digit_val(s[4]);
        if h < 24 && m < 60 {
            Some(SimpleTime { hour: h as u8, minute: m as u8 })
        } else {
            None
        }
    } else {
        None
    }
}

/// The digit value of `c`, or nothing if `c` is not a digit.
fn digit_val(c: char) -> (r: Option<u8>)
    ensures
        r is Some <==> spec_is_digit(c),
        r is Some ==> r->0 == spec_digit_val(c),
{
    let u = c as u32;
    if 48 <= u && u <= 57 {
        Some((u - 48) as u8)
    } else {
        None
    }
}

/// Parse a date written `YYYY/MM/DD`, rejecting malformed text and
/// impossible calendar dates.
pub fn parse_date(s: &str) -> (r: Option<SimpleDate>)
    ensures
        r == spec_parse_date(s@),
        r is Some ==> r->0.wf(),
{
    if s.unicode_len() != 10 {
        return None;
    }
    if s.get_char(4) != '/' || s.get_char(7) != '/' {
        return None;
    }
    let (d0, d1, d2, d3) = (digit_val(s.get_char(0)), digit_val(s.get_char(1)),
        digit_val(s.get_char(2)), digit_val(s.get_char(3)));
    let (d5, d6) = (digit_val(s.get_char(5)), digit_val(s.get_char(6)));
    let (d8, d9) = (digit_val(s.get_char(8)), digit_val(s.get_char(9)));
    match (d0, d1, d2, d3, d5, d6, d8, d9) {
        (Some(y0), Some(y1), Some(y2), Some(y3), Some(m0), Some(m1), Some(a0), Some(a1)) => {
            let y: u32 = y0 as u32 * 1000 + y1 as u32 * 100 + y2 as u32 * 10 + y3 as u32;
            let m: u8 = m0 * 10 + m1;
            let d: u8 = a0 * 10 + a1;
            if 1 <= m && m <= 12 && 1 <= d && d <= days_in_month(y as i32, m) {
                Some(SimpleDate { year: y as i32, month: m, day: d })
            } else {
                None
            }
        }
        _ => None,
    }
}

/// Parse a time written `HH:MM`, 24-hour.
pub fn parse_time(s: &str) -> (r: Option<SimpleTime>)
    ensures
        r == spec_parse_time(s@),
        r is Some ==> r->0.wf(),
{
    if s.unicode_len() != 5 {
        return None;
    }
    if s.get_char(2) != ':' {
        return None;
    }
    let (d0, d1) = (digit_val(s.get_char(0)), digit_val(s.get_char(1)));
    let (d3, d4) = (digit_val(s.get_char(3)), digit_val(s.get_char(4)));
    match (d0, d1, d3, d4) {
        (Some(h0), Some(h1), Some(m0), Some(m1)) => {
            let h: u8 = h0 * 10 + h1;
            let m: u8 = m0 * 10 + m1;
            if h < 24 && m < 60 {
                Some(SimpleTime { hour: h, minute: m })
            } else {
                None
            }
        }
        _ => None,
    }
}

/// The day number of a calendar date: what `chrono`'s
/// `Datelike::num_days_from_ce` returns for it. A function of the date
/// alone; consecutive calendar days have consecutive numbers.
pub uninterp spec fn day_num(y: int, m: int, d: int) -> int;

/// The English weekday name of a calendar date, as `chrono` formats it
/// with `%A`. A function of the date alone.
pub uninterp spec fn weekday_of(y: int, m: int, d: int) -> Seq<char>;

impl SimpleDate {
    /// The day number of this date.
    pub open spec fn spec_day_num(self) -> int {
        day_num(self.year as int, self.month as int, self.day as int)
    }
}

/// Relies on chrono's `NaiveDate::from_ymd_opt` (which accepts every
/// well-formed date in chrono's year range) and
/// `Datelike::num_days_from_ce`, whose result depends on the date alone.
#[verifier::external_body]
fn chrono_day_number(d: &SimpleDate) -> (r: i32)
    requires
        d.wf(),
    ensures
        r as int == day_num(d.year as int, d.month as int, d.day as int),
{
    chrono::Datelike::num_days_from_ce(
        &chrono::NaiveDate::from_ymd_opt(d.year, d.month as u32, d.day as u32).unwrap(),
    )
}

/// Relies on chrono's `NaiveDate::from_ymd_opt` and on formatting with
/// `%A`, the full weekday name, which depends on the date alone.
#[verifier::external_body]
fn chrono_weekday_name(d: &SimpleDate) -> (r: String)
    requires
        d.wf(),
    ensures
        r@ == weekday_of(d.year as int, d.month as int, d.day as int),
{
    chrono::NaiveDate::from_ymd_opt(d.year, d.month as u32, d.day as u32)
        .unwrap()
        .format("%A")
        .to_string()
}

/// Relies on chrono's `Local::now`, `DateTime::date_naive`, the
/// `Datelike` field accessors, and `Timelike::num_seconds_from_midnight`
/// (always below 86400: leap seconds are not counted). Every outcome is
/// a well-formed instant; nothing else can be promised of the clock.
#[verifier::external_body]
pub(crate) fn now_moment() -> (r: Moment)
    ensures
        r.wf(),
{
    let now = chrono::Local::now();
    let d = now.date_naive();
    Moment {
        date: SimpleDate {
            year: chrono::Datelike::year(&d),
            month: chrono::Datelike::month(&d) as u8,
            day: chrono::Datelike::day(&d) as u8,
        },
        secs: chrono::Timelike::num_seconds_from_midnight(&now.time()),
    }
}

/// The full English month name.
pub open spec fn spec_month_name(m: int) -> Seq<char> {
    if m == 1 { "January"@ }
    else if m == 2 { "February"@ }
    else if m == 3 { "March"@ }
    else if m == 4 { "April"@ }
    else if m == 5 { "May"@ }
    else if m == 6 { "June"@ }
    else if m == 7 { "July"@ }
    else if m == 8 { "August"@ }
    else if m == 9 { "September"@ }
    else if m == 10 { "October"@ }
    else if m == 11 { "November"@ }
    else { "December"@ }
}

/// The full English month name of month `m`.
pub fn month_name(m: u8) -> (r: String)
    requires
        1 <= m <= 12,
    ensures
        r@ == spec_month_name(m as int),
{
    let s: &str = if m == 1 { "January" }
        else if m == 2 { "February" }
        else if m == 3 { "March" }
        else if m == 4 { "April" }
        else if m == 5 { "May" }
        else if m == 6 { "June" }
        else if m == 7 { "July" }
        else if m == 8 { "August" }
        else if m == 9 { "September" }
        else if m == 10 { "October" }
        else if m == 11 { "November" }
        else { "December" };
    String::from_str(s)
}

/// The day label: `Yesterday`/`Today`/`Tomorrow` for adjacent days, the
/// weekday name within a week, else month and day (and year when it
/// differs from today's).
pub open spec fn spec_day_label(d: SimpleDate, today: SimpleDate) -> Seq<char> {
    let days = d.spec_day_num() - today.spec_day_num();
    if days == -1 { "Yesterday"@ }
    else if days == 0 { "Today"@ }
    else if days == 1 { "Tomorrow"@ }
    else if 1 <= days <= 7 {
        "upcoming "@ + weekday_of(d.year as int, d.month as int, d.day as int)
    } else if -7 <= days <= -1 {
        "recent "@ + weekday_of(d.year as int, d.month as int, d.day as int)
    } else if d.year == today.year {
        spec_month_name(d.month as int) + " "@ + spec_dec_pad(d.day as int, 2)
    } else {
        spec_month_name(d.month as int) + " "@ + spec_dec_pad(d.day as int, 2) + " "@
            + spec_year_chars(d.year as int)
    }
}

/// The trailing day-count: `; in N days`/`; N days ago` below two
/// weeks, weeks beyond that; nothing while the label itself already
/// places the day (the adjacent-day words and the weekday window).
pub open spec fn spec_day_suffix(days: int) -> Seq<char> {
    if -7 <= days <= 7 {
        Seq::<char>::empty()
    } else {
        let mag = if vstd::math::abs(days) >= 14 {
            vstd::math::abs(days) / 7
        } else {
            vstd::math::abs(days)
        };
        let scale: Seq<char> = if vstd::math::abs(days) >= 14 { "weeks"@ } else { "days"@ };
        if days < 0 {
            "; "@ + crate::fmt::spec_dec(mag as int) + " "@ + scale + " ago"@
        } else {
            "; in "@ + crate::fmt::spec_dec(mag as int) + " "@ + scale
        }
    }
}

/// `am` before noon, `pm` from noon on.
pub open spec fn spec_ampm(t: SimpleTime) -> Seq<char> {
    if t.hour < 12 { "am"@ } else { "pm"@ }
}

/// The whole human-relative description of a temporal value against a
/// given `today`: the day label, then for a date-time a comma and the
/// 24-hour time with an am/pm tag, then the day-count suffix.
pub open spec fn spec_describe(v: DateMaybeTime, today: SimpleDate) -> Seq<char> {
    match v {
        DateMaybeTime::Date(d) => {
            spec_day_label(d, today) + spec_day_suffix(d.spec_day_num() - today.spec_day_num())
        }
        DateMaybeTime::DateTime(d, t) => {
            spec_day_label(d, today) + ", "@ + spec_time_chars(t) + spec_ampm(t)
                + spec_day_suffix(d.spec_day_num() - today.spec_day_num())
        }
    }
}

/// Append the day label for `d` against `today`, given their day
/// difference.
fn push_day_label(out: &mut String, d: &SimpleDate, today: &SimpleDate, days: i64)
    requires
        d.wf(),
        today.wf(),
        days as int == d.spec_day_num() - today.spec_day_num(),
    ensures
        final(out)@ == old(out)@ + spec_day_label(*d, *today),
{
    if days == -1 {
        out.append("Yesterday");
    } else if days == 0 {
        out.append("Today");
    } else if days == 1 {
        out.append("Tomorrow");
    } else if 1 <= days && days <= 7 {
        out.append("upcoming ");
        let w = chrono_weekday_name(d);
        out.append(w.as_str());
        proof {
            assert(final(out)@ =~= old(out)@ + spec_day_label(*d, *today));
        }
    } else if -7 <= days && days <= -1 {
        out.append("recent ");
        let w = chrono_weekday_name(d);
        out.append(w.as_str());
        proof {
            assert(final(out)@ =~= old(out)@ + spec_day_label(*d, *today));
        }
    } else {
        let mn = month_name(d.month);
        out.append(mn.as_str());
        out.append(" ");
        push_dec_pad(out, d.day as u64, 2);
        if d.year != today.year {
            out.append(" ");
            push_year(out, d.year);
        }
        proof {
            assert(final(out)@ =~= old(out)@ + spec_day_label(*d, *today));
        }
    }
}

/// Append the day-count suffix for a day difference.
fn push_day_suffix(out: &mut String, days: i64)
    requires
        -4294967296 <= days <= 4294967296,
    ensures
        final(out)@ == old(out)@ + spec_day_suffix(days as int),
{
    if days < -7 || days > 7 {
        let mag: u64 = if days < 0 { (-days) as u64 } else { days as u64 };
        let (mag, weeks): (u64, bool) = if mag >= 14 { (mag / 7, true) } else { (mag, false) };
        if days < 0 {
            out.append("; ");
        } else {
            out.append("; in ");
        }
        crate::fmt::push_dec(out, mag);
        out.append(" ");
        if weeks {
            out.append("weeks");
        } else {
            out.append("days");
        }
        if days < 0 {
            out.append(" ago");
        }
        proof {
            assert(final(out)@ =~= old(out)@ + spec_day_suffix(days as int));
        }
    } else {
        proof {
            assert(final(out)@ =~= old(out)@ + spec_day_suffix(days as int));
        }
    }
}

/// Append the `, HH:MMam` time tag of a date-time.
fn push_time_tag(out: &mut String, t: &SimpleTime)
    ensures
        final(out)@ == old(out)@ + ", "@ + spec_time_chars(*t) + spec_ampm(*t),
{
    proof {
        reveal_strlit(":");
    }
    out.append(", ");
    push_dec_pad(out, t.hour as u64, 2);
    out.append(":");
    push_dec_pad(out, t.minute as u64, 2);
    if t.hour < 12 {
        out.append("am");
    } else {
        out.append("pm");
    }
    proof {
        assert(final(out)@ =~= old(out)@ + ", "@ + spec_time_chars(*t) + spec_ampm(*t));
    }
}

impl DateMaybeTime {
    /// The human-relative description of this value against `today`.
    pub fn describe(&self, today: &SimpleDate) -> (r: String)
        requires
            self.wf(),
            today.wf(),
        ensures
            r@ == spec_describe(*self, *today),
    {
        let d = match self {
            DateMaybeTime::Date(d) => *d,
            DateMaybeTime::DateTime(d, _) => *d,
        };
        let dn = chrono_day_number(&d);
        let tn = chrono_day_number(today);
        let days: i64 = dn as i64 - tn as i64;
        let mut out = String::new();
        push_day_label(&mut out, &d, today, days);
        if let DateMaybeTime::DateTime(_, t) = self {
            push_time_tag(&mut out, t);
        }
        push_day_suffix(&mut out, days);
        proof {
            assert(out@ =~= spec_describe(*self, *today));
        }
        out
    }

    /// The description against the current local day. The clock decides
    /// which day that is, so only this much is promised: the result is
    /// the description for some well-formed day.
    pub fn to_string(&self) -> (r: String)
        requires
            self.wf(),
        ensures
            exists|today: SimpleDate| today.wf() && r@ == spec_describe(*self, today),
    {
        let now = now_moment();
        self.describe(&now.date)
    }
}

/// Urgency of a value at instant `now`: overdue when the remaining
/// duration (to midnight for a plain date) is negative, due soon when
/// under a day, upcoming otherwise.
pub open spec fn spec_urgency(v: DateMaybeTime, now: Moment) -> Urgency {
    match v {
        DateMaybeTime::Date(d) => {
            let days = d.spec_day_num() - now.date.spec_day_num();
            if days < 0 { Urgency::Overdue }
            else if days < 1 { Urgency::DueSoon }
            else { Urgency::Upcoming }
        }
        DateMaybeTime::DateTime(d, t) => {
            let rem = (d.spec_day_num() - now.date.spec_day_num()) * 86400
                + t.hour * 3600 + t.minute * 60 - now.secs;
            if rem < 0 { Urgency::Overdue }
            else if rem < 86400 { Urgency::DueSoon }
            else { Urgency::Upcoming }
        }
    }
}

impl DateMaybeTime {
    /// Urgency of this value at the given instant.
    pub fn urgency_at(&self, now: &Moment) -> (r: Urgency)
        requires
            self.wf(),
            now.wf(),
        ensures
            r == spec_urgency(*self, *now),
    {
        match self {
            DateMaybeTime::Date(d) => {
                let days: i64 = chrono_day_number(d) as i64
                    - chrono_day_number(&now.date) as i64;
                if days < 0 { Urgency::Overdue }
                else if days < 1 { Urgency::DueSoon }
                else { Urgency::Upcoming }
            }
            DateMaybeTime::DateTime(d, t) => {
                let days: i64 = chrono_day_number(d) as i64
                    - chrono_day_number(&now.date) as i64;
                let rem: i64 = days * 86400 + t.hour as i64 * 3600 + t.minute as i64 * 60
                    - now.secs as i64;
                if rem < 0 { Urgency::Overdue }
                else if rem < 86400 { Urgency::DueSoon }
                else { Urgency::Upcoming }
            }
        }
    }

    /// Urgency of this value now. The clock decides the instant; the
    /// result is the urgency at some well-formed instant.
    pub fn urgency(&self) -> (r: Urgency)
        requires
            self.wf(),
        ensures
            exists|now: Moment| now.wf() && r == spec_urgency(*self, now),
    {
        let now = now_moment();
        self.urgency_at(&now)
    }

    /// Combine an optional date and an optional time: nothing from
    /// nothing, a plain date from a date alone, a date-time otherwise,
    /// the date defaulting to the current local day.
    pub fn from_parts(date: Option<SimpleDate>, time: Option<SimpleTime>) -> (r: Option<
        DateMaybeTime,
    >)
        requires
            date is Some ==> date->0.wf(),
            time is Some ==> time->0.wf(),
        ensures
            r is Some <==> (date is Some || time is Some),
            r is Some ==> r->0.wf(),
            date is Some && time is None ==> r == Some(DateMaybeTime::Date(date->0)),
            date is Some && time is Some ==> r == Some(
                DateMaybeTime::DateTime(date->0, time->0),
            ),
            date is None && time is Some ==> (r->0 is DateTime
                && r->0->DateTime_1 == time->0),
    {
        match (date, time) {
            (None, None) => None,
            (Some(d), None) => Some(DateMaybeTime::Date(d)),
            (d, Some(t)) => {
                let day = match d {
                    Some(d) => d,
                    None => now_moment().date,
                };
                Some(DateMaybeTime::DateTime(day, t))
            }
        }
    }
}

/// The padded digits of a small number, spelled out.
proof fn lemma_pad_digits(n: int)
    requires
        0 <= n,
    ensures
        n < 100 ==> spec_dec_pad(n, 2) =~= seq![
            crate::fmt::spec_digit(n / 10),
            crate::fmt::spec_digit(n % 10),
        ],
        n < 10000 ==> spec_dec_pad(n, 4) =~= seq![
            crate::fmt::spec_digit(n / 1000),
            crate::fmt::spec_digit((n / 100) % 10),
            crate::fmt::spec_digit((n / 10) % 10),
            crate::fmt::spec_digit(n % 10),
        ],
{
    reveal_with_fuel(crate::fmt::spec_dec, 5);
    reveal_with_fuel(spec_dec_pad, 5);
}

/// A digit character parses back to its value.
proof fn lemma_digit_val(k: int)
    requires
        0 <= k <= 9,
    ensures
        spec_is_digit(crate::fmt::spec_digit(k)),
        spec_digit_val(crate::fmt::spec_digit(k)) == k,
{
}

/// Reading a date back from its printed form: for every well-formed
/// date with a four-digit year, parsing the text that `date_string`
/// produces yields the date itself. The interactive date prompt leans
/// on this: it refills the input line with the printed date.
pub proof fn lemma_parse_date_string(d: SimpleDate)
    requires
        d.wf(),
        0 <= d.year <= 9999,
    ensures
        spec_parse_date(spec_date_chars(d)) == Some(d),
{
    let y = d.year as int;
    let m = d.month as int;
    let dd = d.day as int;
    lemma_pad_digits(y);
    lemma_pad_digits(m);
    lemma_pad_digits(dd);
    let s = spec_date_chars(d);
    assert(s =~= seq![
        crate::fmt::spec_digit(y / 1000),
        crate::fmt::spec_digit((y / 100) % 10),
        crate::fmt::spec_digit((y / 10) % 10),
        crate::fmt::spec_digit(y % 10),
        '/',
        crate::fmt::spec_digit(m / 10),
        crate::fmt::spec_digit(m % 10),
        '/',
        crate::fmt::spec_digit(dd / 10),
        crate::fmt::spec_digit(dd % 10),
    ]);
    lemma_digit_val(y / 1000);
    lemma_digit_val((y / 100) % 10);
    lemma_digit_val((y / 10) % 10);
    lemma_digit_val(y % 10);
    lemma_digit_val(m / 10);
    lemma_digit_val(m % 10);
    lemma_digit_val(dd / 10);
    lemma_digit_val(dd % 10);
    assert((y / 1000) * 1000 + ((y / 100) % 10) * 100 + ((y / 10) % 10) * 10 + y % 10 == y) by {
        lemma_decompose(y);
    };
    assert((m / 10) * 10 + m % 10 == m) by {
        vstd::arithmetic::div_mod::lemma_fundamental_div_mod(m, 10);
    };
    assert((dd / 10) * 10 + dd % 10 == dd) by {
        vstd::arithmetic::div_mod::lemma_fundamental_div_mod(dd, 10);
    };
}

/// A number below 10000 is its four decimal digits reassembled.
proof fn lemma_decompose(y: int)
    requires
        0 <= y < 10000,
    ensures
        (y / 1000) * 1000 + ((y / 100) % 10) * 100 + ((y / 10) % 10) * 10 + y % 10 == y,
{
    vstd::arithmetic::div_mod::lemma_fundamental_div_mod(y, 10);
    vstd::arithmetic::div_mod::lemma_fundamental_div_mod(y / 10, 10);
    vstd::arithmetic::div_mod::lemma_fundamental_div_mod(y / 100, 10);
    assert((y / 10) / 10 == y / 100) by {
        vstd::arithmetic::div_mod::lemma_div_denominator(y, 10, 10);
    };
    assert((y / 100) / 10 == y / 1000) by {
        vstd::arithmetic::div_mod::lemma_div_denominator(y, 100, 10);
    };
    assert(y / 1000 < 10) by {
        vstd::arithmetic::div_mod::lemma_fundamental_div_mod(y, 1000);
    };
}

} // verus!
