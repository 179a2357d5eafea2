//! The proleptic Gregorian calendar, computed by `chrono`.
//!
//! Dates and times are plain civil fields here. The functions hand them to
//! `chrono` and take civil fields back; the contracts are stated over day
//! numbers and nanoseconds.

use chrono::format::StrftimeItems;
use chrono::{Datelike, FixedOffset, NaiveDate, NaiveDateTime, NaiveTime, TimeDelta, Timelike};
use std::fmt::Write;
use vstd::prelude::*;

verus! {

/// Whether a year has a 29th of February.
pub open spec fn is_leap(year: int) -> bool {
    year % 4 == 0 && (year % 100 != 0 || year % 400 == 0)
}

/// The number of days of a month.
pub open spec fn days_in_month(year: int, month: int) -> int {
    if month == 2 {
        if is_leap(year) {
            29
        } else {
            28
        }
    } else if month == 4 || month == 6 || month == 9 || month == 11 {
        30
    } else {
        31
    }
}

/// The days of a year before the first of `month`.
pub open spec fn days_before_month(year: int, month: int) -> int
    decreases month,
{
    if month <= 1 {
        0
    } else {
        days_before_month(year, month - 1) + days_in_month(year, month - 1)
    }
}

/// The days before the first of January of `year`, counted from year 1.
pub open spec fn days_before_year(year: int) -> int {
    365 * (year - 1) + (year - 1) / 4 - (year - 1) / 100 + (year - 1) / 400
}

/// The day number of a date; 0001-01-01 is day 1.
pub open spec fn ordinal(year: int, month: int, day: int) -> int {
    days_before_year(year) + days_before_month(year, month) + day
}

/// Whether the fields name a day that `chrono` can hold.
pub open spec fn is_civil_date(year: int, month: int, day: int) -> bool {
    &&& -262_143 <= year <= 262_142
    &&& 1 <= month <= 12
    &&& 1 <= day <= days_in_month(year, month)
}

/// Whether a day number is one that `chrono` can hold.
pub open spec fn is_calendar_day(n: int) -> bool {
    ordinal(-262_143, 1, 1) <= n <= ordinal(262_142, 12, 31)
}

/// A civil date and time of day.
#[derive(Clone, Copy, Debug, PartialEq, Eq, Structural)]
pub struct Naive {
    pub year: i32,
    pub month: u32,
    pub day: u32,
    pub hour: u32,
    pub minute: u32,
    pub second: u32,
    /// Nanoseconds; from a thousand million on they stand for a leap second.
    pub nano: u32,
}

impl Naive {
    /// Whether the fields name a moment that `chrono` can hold.
    pub open spec fn wf(self) -> bool {
        &&& is_civil_date(self.year as int, self.month as int, self.day as int)
        &&& self.hour < 24
        &&& self.minute < 60
        &&& self.second < 60
        &&& self.nano < 1_000_000_000 || (self.second == 59 && self.nano < 2_000_000_000)
    }

    /// Whether the moment lies in a leap second.
    pub open spec fn in_leap_second(self) -> bool {
        self.nano >= 1_000_000_000
    }

    /// The day number.
    pub open spec fn day_number(self) -> int {
        ordinal(self.year as int, self.month as int, self.day as int)
    }

    /// The seconds since midnight of day 0.
    pub open spec fn seconds(self) -> int {
        self.day_number() * 86_400 + self.hour * 3_600 + self.minute * 60 + self.second
    }

    /// The nanoseconds since midnight of day 0.
    pub open spec fn nanos(self) -> int {
        self.seconds() * 1_000_000_000 + self.nano
    }

    /// The second of the day.
    pub open spec fn clock(self) -> int {
        self.hour * 3_600 + self.minute * 60 + self.second
    }

    /// Whether a moment in a leap second stays in its second when it is moved by
    /// these nanoseconds.
    pub open spec fn stays(self, nanos: int) -> bool {
        self.in_leap_second() && -1_000_000_000 < nanos && self.nano + nanos < 2_000_000_000
    }

    /// The nanoseconds since midnight of day 0 when the moment is moved out of
    /// its second. A leap second that is left forward counts for nothing.
    pub open spec fn moved_nanos(self, nanos: int) -> int {
        if self.in_leap_second() && nanos > 0 {
            self.nanos() + nanos - 1_000_000_000
        } else {
            self.nanos() + nanos
        }
    }

    /// The microseconds since 1970-01-01 00:00.
    pub open spec fn epoch_micros(self) -> int {
        (self.seconds() - 719_163 * 86_400) * 1_000_000 + self.nano / 1_000
    }
}

/// Whether nanoseconds since midnight of day 0 are a moment that `chrono` can hold.
pub open spec fn is_calendar_moment(nanos: int) -> bool {
    is_calendar_day(nanos / 86_400_000_000_000)
}

/// Whether a moment is another one moved by these nanoseconds; there is none
/// exactly when that is outside `chrono`'s years.
pub open spec fn moment_moved(moment: Naive, nanos: int, r: Option<Naive>) -> bool {
    if moment.stays(nanos) {
        r == Some(Naive { nano: (moment.nano + nanos) as u32, ..moment })
    } else {
        match r {
            Some(sum) => sum.wf() && !sum.in_leap_second() && sum.nanos() == moment.moved_nanos(
                nanos,
            ),
            None => !is_calendar_moment(moment.moved_nanos(nanos)),
        }
    }
}

/// `NaiveDate::from_ymd_opt` gives a date exactly for the days of the calendar
/// within `chrono`'s years.
#[verifier::external_body]
pub(crate) fn civil_date_exists(year: i32, month: u32, day: u32) -> (r: bool)
    ensures
        r == is_civil_date(year as int, month as int, day as int),
{
    NaiveDate::from_ymd_opt(year, month, day).is_some()
}

/// `Datelike::num_days_from_ce` is the day number.
#[verifier::external_body]
pub(crate) fn num_days_from_ce(year: i32, month: u32, day: u32) -> (r: i32)
    requires
        is_civil_date(year as int, month as int, day as int),
    ensures
        r == ordinal(year as int, month as int, day as int),
{
    NaiveDate::from_ymd_opt(year, month, day).unwrap().num_days_from_ce()
}

/// `NaiveDate::from_num_days_from_ce_opt` gives the date of a day number within
/// `chrono`'s years.
#[verifier::external_body]
pub(crate) fn date_from_days(days: i32) -> (r: Option<(i32, u32, u32)>)
    ensures
        r is Some <==> is_calendar_day(days as int),
        r matches Some((year, month, day)) ==> is_civil_date(year as int, month as int, day as int)
            && ordinal(year as int, month as int, day as int) == days,
{
    NaiveDate::from_num_days_from_ce_opt(days).map(|d| (d.year(), d.month(), d.day()))
}

/// `Weekday::num_days_from_monday` of `Datelike::weekday`; 0001-01-01 is a Monday.
#[verifier::external_body]
pub(crate) fn days_from_monday(year: i32, month: u32, day: u32) -> (r: u32)
    requires
        is_civil_date(year as int, month as int, day as int),
    ensures
        r == (ordinal(year as int, month as int, day as int) - 1) % 7,
{
    NaiveDate::from_ymd_opt(year, month, day).unwrap().weekday().num_days_from_monday()
}

/// `FixedOffset::east_opt` accepts offsets of less than a day.
#[verifier::external_body]
pub(crate) fn is_fixed_offset(seconds: i32) -> (r: bool)
    ensures
        r == (-86_400 < seconds < 86_400),
{
    FixedOffset::east_opt(seconds).is_some()
}

/// `NaiveDateTime::checked_add_signed` adds a duration on the line of
/// nanoseconds and gives nothing when the sum is outside `chrono`'s years. A
/// moment in a leap second keeps its second when less than a second is added or
/// taken off and the leap second does not end in between; a longer way forward
/// leaves the leap second out.
#[verifier::external_body]
pub(crate) fn moment_plus(moment: Naive, seconds: i64, nanos: u32) -> (r: Option<Naive>)
    requires
        moment.wf(),
        -1_000_000_000_000_000 < seconds < 1_000_000_000_000_000,
        nanos < 1_000_000_000,
    ensures
        moment_moved(moment, seconds * 1_000_000_000 + nanos, r),
{
    let date = NaiveDate::from_ymd_opt(moment.year, moment.month, moment.day).unwrap();
    let t = NaiveTime::from_hms_nano_opt(moment.hour, moment.minute, moment.second, moment.nano);
    let sum = date.and_time(t.unwrap()).checked_add_signed(TimeDelta::new(seconds, nanos).unwrap());
    sum.map(|m| Naive {
        year: m.year(),
        month: m.month(),
        day: m.day(),
        hour: m.hour(),
        minute: m.minute(),
        second: m.second(),
        nano: m.nanosecond(),
    })
}

/// `NaiveDateTime::checked_sub_signed` adds the negated duration.
#[verifier::external_body]
pub(crate) fn moment_minus(moment: Naive, seconds: i64, nanos: u32) -> (r: Option<Naive>)
    requires
        moment.wf(),
        -1_000_000_000_000_000 < seconds < 1_000_000_000_000_000,
        nanos < 1_000_000_000,
    ensures
        moment_moved(moment, -(seconds * 1_000_000_000 + nanos), r),
{
    let date = NaiveDate::from_ymd_opt(moment.year, moment.month, moment.day).unwrap();
    let t = NaiveTime::from_hms_nano_opt(moment.hour, moment.minute, moment.second, moment.nano);
    let rest = date.and_time(t.unwrap()).checked_sub_signed(TimeDelta::new(seconds, nanos).unwrap());
    rest.map(|m| Naive {
        year: m.year(),
        month: m.month(),
        day: m.day(),
        hour: m.hour(),
        minute: m.minute(),
        second: m.second(),
        nano: m.nanosecond(),
    })
}

/// Integer quotient rounded toward zero.
pub open spec fn truncated_div(a: int, b: int) -> int {
    if a >= 0 {
        a / b
    } else {
        -((-a) / b)
    }
}

/// The nanoseconds from `b` to `a`. A leap second counts as a second when the
/// other moment's time of day is the later one.
pub open spec fn nanos_between(a: Naive, b: Naive) -> int {
    a.nanos() - b.nanos() + if a.clock() > b.clock() && b.in_leap_second() {
        1_000_000_000int
    } else if a.clock() < b.clock() && a.in_leap_second() {
        -1_000_000_000int
    } else {
        0
    }
}

/// `TimeDelta::num_microseconds` of `NaiveDateTime::signed_duration_since`: the
/// microseconds from `b` to `a`, rounded toward zero, if they fit.
#[verifier::external_body]
pub(crate) fn micros_between(a: Naive, b: Naive) -> (r: Option<i64>)
    requires
        a.wf(),
        b.wf(),
    ensures
        r is Some <==> i64::MIN <= truncated_div(nanos_between(a, b), 1_000) <= i64::MAX,
        r matches Some(d) ==> d == truncated_div(nanos_between(a, b), 1_000),
{
    let day = NaiveDate::from_ymd_opt(a.year, a.month, a.day).unwrap();
    let time = NaiveTime::from_hms_nano_opt(a.hour, a.minute, a.second, a.nano).unwrap();
    let from_day = NaiveDate::from_ymd_opt(b.year, b.month, b.day).unwrap();
    let from_time = NaiveTime::from_hms_nano_opt(b.hour, b.minute, b.second, b.nano).unwrap();
    day.and_time(time).signed_duration_since(from_day.and_time(from_time)).num_microseconds()
}

/// `DateTime::timestamp_micros` of `NaiveDateTime::and_utc`: the microseconds
/// since the Unix epoch.
#[verifier::external_body]
pub(crate) fn timestamp_micros(moment: Naive) -> (r: i64)
    requires
        moment.wf(),
    ensures
        r == moment.epoch_micros(),
{
    let date = NaiveDate::from_ymd_opt(moment.year, moment.month, moment.day).unwrap();
    let t = NaiveTime::from_hms_nano_opt(moment.hour, moment.minute, moment.second, moment.nano);
    date.and_time(t.unwrap()).and_utc().timestamp_micros()
}

/// What `chrono` writes for a date and a `strftime` format, unknown directives
/// being copied; nothing when a directive asks for what a date does not have.
pub uninterp spec fn date_format(year: int, month: int, day: int, format: Seq<char>) -> Option<Seq<char>>;

/// `NaiveDate::format_with_items` with `StrftimeItems::new_lenient`, written to a string.
#[verifier::external_body]
pub(crate) fn strftime_date(year: i32, month: u32, day: u32, format: &str) -> (r: Option<String>)
    requires
        is_civil_date(year as int, month as int, day as int),
    ensures
        r is Some <==> date_format(year as int, month as int, day as int, format@) is Some,
        r matches Some(text) ==> text@ == date_format(
            year as int,
            month as int,
            day as int,
            format@,
        )->0,
{
    let date = NaiveDate::from_ymd_opt(year, month, day).unwrap();
    let mut out = String::new();
    write!(out, "{}", date.format_with_items(StrftimeItems::new_lenient(format))).ok().map(|()| out)
}

/// What `chrono` writes for a date and time and a `strftime` format, unknown
/// directives being copied; nothing when a directive asks for an offset.
pub uninterp spec fn moment_format(moment: Naive, format: Seq<char>) -> Option<Seq<char>>;

/// `NaiveDateTime::format_with_items` with `StrftimeItems::new_lenient`, written to a string.
#[verifier::external_body]
pub(crate) fn strftime_moment(moment: Naive, format: &str) -> (r: Option<String>)
    requires
        moment.wf(),
    ensures
        r is Some <==> moment_format(moment, format@) is Some,
        r matches Some(text) ==> text@ == moment_format(moment, format@)->0,
{
    let date = NaiveDate::from_ymd_opt(moment.year, moment.month, moment.day).unwrap();
    let t = NaiveTime::from_hms_nano_opt(moment.hour, moment.minute, moment.second, moment.nano);
    let naive = date.and_time(t.unwrap());
    let mut out = String::new();
    write!(out, "{}", naive.format_with_items(StrftimeItems::new_lenient(format))).ok().map(|()| out)
}

/// The date and time that `chrono` reads from a text with a format, if any.
pub uninterp spec fn parsed_moment(text: Seq<char>, format: Seq<char>) -> Option<Naive>;

/// `NaiveDateTime::parse_from_str`; what it reads is a moment that `chrono` can hold.
#[verifier::external_body]
pub(crate) fn parse_moment(text: &str, format: &str) -> (r: Option<Naive>)
    ensures
        r == parsed_moment(text@, format@),
        r matches Some(moment) ==> moment.wf(),
{
    NaiveDateTime::parse_from_str(text, format).ok().map(|m| Naive {
        year: m.year(),
        month: m.month(),
        day: m.day(),
        hour: m.hour(),
        minute: m.minute(),
        second: m.second(),
        nano: m.nanosecond(),
    })
}

/// The date that `chrono` reads from a text with a format, if any.
pub uninterp spec fn parsed_date(text: Seq<char>, format: Seq<char>) -> Option<(i32, u32, u32)>;

/// `NaiveDate::parse_from_str`; what it reads is a date that `chrono` can hold.
#[verifier::external_body]
pub(crate) fn parse_date(text: &str, format: &str) -> (r: Option<(i32, u32, u32)>)
    ensures
        r == parsed_date(text@, format@),
        r matches Some((year, month, day)) ==> is_civil_date(
            year as int,
            month as int,
            day as int,
        ),
{
    NaiveDate::parse_from_str(text, format).ok().map(|d| (d.year(), d.month(), d.day()))
}

/// The civil fields that `speedate` reads from an RFC 3339 date and time:
/// year, month, day, hour, minute, second, microsecond and UTC offset.
pub uninterp spec fn rfc3339_fields(bytes: Seq<u8>) -> Option<
    (u16, u8, u8, u8, u8, u8, u32, Option<i32>),
>;

/// The civil fields that `speedate` reads from an ISO 8601 date.
pub uninterp spec fn iso_date_fields(bytes: Seq<u8>) -> Option<(u16, u8, u8)>;

/// Whether a byte is a decimal digit.
pub open spec fn is_digit_code(b: u8) -> bool {
    48 <= b <= 57
}

/// The fields that `YYYY-MM-DD` is written with.
pub open spec fn written_date(b: Seq<u8>) -> Option<(int, int, int)> {
    if b.len() == 10 && is_digit_code(b[0]) && is_digit_code(b[1]) && is_digit_code(b[2])
        && is_digit_code(b[3]) && b[4] == 45 && is_digit_code(b[5]) && is_digit_code(b[6])
        && b[7] == 45 && is_digit_code(b[8]) && is_digit_code(b[9]) {
        Some(
            (
                (b[0] - 48) * 1000 + (b[1] - 48) * 100 + (b[2] - 48) * 10 + (b[3] - 48),
                (b[5] - 48) * 10 + (b[6] - 48),
                (b[8] - 48) * 10 + (b[9] - 48),
            ),
        )
    } else {
        None
    }
}

/// Whether two digits stand at a place.
pub open spec fn is_pair(b: Seq<u8>, at: int) -> bool {
    is_digit_code(b[at]) && is_digit_code(b[at + 1])
}

/// The number that the two digits at a place write.
pub open spec fn pair(b: Seq<u8>, at: int) -> int {
    (b[at] - 48) * 10 + (b[at + 1] - 48)
}

/// The hour, minute and second of `HH:MM:SS` after a date and a separator.
pub open spec fn written_clock(b: Seq<u8>) -> Option<(int, int, int)> {
    if b.len() >= 19 && (b[10] == 84 || b[10] == 32) && is_pair(b, 11) && b[13] == 58 && is_pair(
        b,
        14,
    ) && b[16] == 58 && is_pair(b, 17) && pair(b, 11) < 24 && pair(b, 14) < 60 && pair(b, 17)
        < 60 {
        Some((pair(b, 11), pair(b, 14), pair(b, 17)))
    } else {
        None
    }
}

/// The offset of `+HH:MM` or `-HH:MM` at a place where the text may also end.
pub open spec fn written_offset(b: Seq<u8>, at: int) -> Option<Option<int>> {
    if b.len() == at {
        Some(None)
    } else if b.len() == at + 6 && (b[at] == 43 || b[at] == 45) && is_pair(b, at + 1) && b[at + 3]
        == 58 && is_pair(b, at + 4) && pair(b, at + 1) < 24 && pair(b, at + 4) < 60 {
        let size = pair(b, at + 1) * 3_600 + pair(b, at + 4) * 60;
        Some(
            Some(
                if b[at] == 45 {
                    -size
                } else {
                    size
                },
            ),
        )
    } else {
        None
    }
}

/// The fields that `YYYY-MM-DDTHH:MM:SS` is written with, or the same with a space,
/// with six digits of a fraction and with an offset.
pub open spec fn written_moment(b: Seq<u8>) -> Option<
    (int, int, int, int, int, int, int, Option<int>),
> {
    match (written_date(b.subrange(0, 10)), written_clock(b)) {
        (Some((year, month, day)), Some((hour, minute, second))) => {
            let fraction = b.len() >= 26 && b[19] == 46 && is_pair(b, 20) && is_pair(b, 22)
                && is_pair(b, 24);
            let micros = if fraction {
                pair(b, 20) * 10_000 + pair(b, 22) * 100 + pair(b, 24)
            } else {
                0
            };
            let end = if fraction {
                26int
            } else {
                19
            };
            match written_offset(b, end) {
                Some(offset) => Some((year, month, day, hour, minute, second, micros, offset)),
                None => None,
            }
        },
        _ => None,
    }
}

/// `speedate::DateTime::parse_bytes_rfc3339`: the fields of a moment, which depend
/// on the bytes alone. A moment on a day of the calendar gives its own fields when
/// it is written in the usual way; what else is read is only named.
#[verifier::external_body]
pub(crate) fn parse_rfc3339(bytes: &[u8]) -> (r: Option<
    (u16, u8, u8, u8, u8, u8, u32, Option<i32>),
>)
    ensures
        r == rfc3339_fields(bytes@),
        match written_moment(bytes@) {
            Some((year, month, day, hour, minute, second, micros, offset)) => is_civil_date(
                year,
                month,
                day,
            ) ==> r == Some(
                (
                    year as u16,
                    month as u8,
                    day as u8,
                    hour as u8,
                    minute as u8,
                    second as u8,
                    micros as u32,
                    match offset {
                        Some(seconds) => Some(seconds as i32),
                        None => None,
                    },
                ),
            ),
            None => true,
        },
{
    speedate::DateTime::parse_bytes_rfc3339(bytes).ok().map(|p| {
        let (d, t) = (p.date, p.time);
        (d.year, d.month, d.day, t.hour, t.minute, t.second, t.microsecond, t.tz_offset)
    })
}

/// `speedate::Date::parse_bytes`: the fields of a date, which depend on the bytes
/// alone. A day of the calendar that is written `YYYY-MM-DD` gives its own fields;
/// what else is read, such as a number of seconds, is only named.
#[verifier::external_body]
pub(crate) fn parse_iso_date_bytes(bytes: &[u8]) -> (r: Option<(u16, u8, u8)>)
    ensures
        r == iso_date_fields(bytes@),
        match written_date(bytes@) {
            Some((y, m, d)) => is_civil_date(y, m, d) ==> r == Some((y as u16, m as u8, d as u8)),
            None => true,
        },
{
    speedate::Date::parse_bytes(bytes).ok().map(|d| (d.year, d.month, d.day))
}

/// A year has 366 days when it is a leap year and 365 otherwise.
pub proof fn lemma_year_length(year: int)
    ensures
        days_before_year(year + 1) - days_before_year(year) == (if is_leap(year) {
            366int
        } else {
            365
        }),
        days_before_month(year, 12) + 31 == (if is_leap(year) {
            366int
        } else {
            365
        }),
{
    reveal_with_fuel(days_before_month, 13);
    assert(days_before_year(year + 1) - days_before_year(year) == 365 + year / 4 - (year - 1) / 4
        - (year / 100 - (year - 1) / 100) + year / 400 - (year - 1) / 400);
    assert(year / 4 - (year - 1) / 4 == (if year % 4 == 0 {
        1int
    } else {
        0
    }));
    assert(year / 100 - (year - 1) / 100 == (if year % 100 == 0 {
        1int
    } else {
        0
    }));
    assert(year / 400 - (year - 1) / 400 == (if year % 400 == 0 {
        1int
    } else {
        0
    }));
    assert(year % 400 == 0 ==> year % 100 == 0);
    assert(year % 100 == 0 ==> year % 4 == 0);
}

/// Later years start later.
pub proof fn lemma_years_ascend(a: int, b: int)
    requires
        a <= b,
    ensures
        days_before_year(a) + 365 * (b - a) <= days_before_year(b),
    decreases b - a,
{
    if a < b {
        lemma_years_ascend(a, b - 1);
        lemma_year_length(b - 1);
    }
}

/// Later months start later.
pub proof fn lemma_months_ascend(year: int, a: int, b: int)
    requires
        1 <= a < b,
    ensures
        days_before_month(year, a) + days_in_month(year, a) <= days_before_month(year, b),
    decreases b - a,
{
    if a + 1 < b {
        lemma_months_ascend(year, a, b - 1);
    }
}

/// The days of a year lie between the starts of that year and the next.
pub proof fn lemma_ordinal_in_year(year: int, month: int, day: int)
    requires
        1 <= month <= 12,
        1 <= day <= days_in_month(year, month),
    ensures
        days_before_year(year) < ordinal(year, month, day) <= days_before_year(year + 1),
{
    lemma_year_length(year);
    if month < 12 {
        lemma_months_ascend(year, month, 12);
    }
    lemma_months_nonnegative(year, month);
}

proof fn lemma_months_nonnegative(year: int, month: int)
    ensures
        days_before_month(year, month) >= 0,
    decreases month,
{
    if month > 1 {
        lemma_months_nonnegative(year, month - 1);
    }
}

/// Two dates with the same day number are the same date.
pub proof fn lemma_ordinal_injective(y1: int, m1: int, d1: int, y2: int, m2: int, d2: int)
    requires
        is_civil_date(y1, m1, d1),
        is_civil_date(y2, m2, d2),
        ordinal(y1, m1, d1) == ordinal(y2, m2, d2),
    ensures
        y1 == y2,
        m1 == m2,
        d1 == d2,
{
    lemma_ordinal_in_year(y1, m1, d1);
    lemma_ordinal_in_year(y2, m2, d2);
    if y1 < y2 {
        lemma_years_ascend(y1 + 1, y2);
    }
    if y2 < y1 {
        lemma_years_ascend(y2 + 1, y1);
    }
    if m1 < m2 {
        lemma_months_ascend(y1, m1, m2);
    }
    if m2 < m1 {
        lemma_months_ascend(y1, m2, m1);
    }
}

} // verus!
