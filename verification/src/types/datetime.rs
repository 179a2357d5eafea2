//! Python `datetime.datetime`.

use vstd::prelude::*;

use crate::args::{raises, Raised};
use crate::calendar::{
    is_calendar_day, is_fixed_offset, lemma_ordinal_in_year, lemma_ordinal_injective,
    lemma_years_ascend, micros_between, moment_format, moment_minus, moment_moved, moment_plus,
    nanos_between, parse_date, parse_moment, parsed_date, parsed_moment, strftime_moment,
    timestamp_micros, truncated_div, Naive,
};
use crate::decimal::{int_digits, padded_digits, push_int, push_padded};
use crate::exception::{ExcType, RunError, RunResult};
use crate::heap::HeapId;
use crate::order::{int_order, order_i64, Order};
use crate::text::{chars_of, push_str, string_of};
use crate::types::date::{
    from_ymd, is_python_day, iso_text, lemma_last_day, lemma_python_range, push_iso,
    strftime_result, ymd_error, Date,
};
use crate::types::str_repr::{repr_text, string_repr_fmt};
use crate::types::timedelta::{from_total_microseconds, TimeDelta};
use crate::types::timezone::{
    copy_name, format_offset_hms, offset_hms, offset_in_range, timezone_repr, TimeZone,
};

verus! {

/// A date and time, with a fixed offset from UTC when it is aware.
#[derive(Debug)]
pub struct DateTime {
    pub naive: Naive,
    pub offset_seconds: Option<i32>,
    pub timezone_name: Option<String>,
    /// The timezone object, so that `dt.tzinfo` is always the same one.
    pub tzinfo_ref: Option<HeapId>,
}

/// The nanoseconds of a day.
pub open spec fn day_nanos() -> int {
    86_400_000_000_000
}

impl DateTime {
    /// Whether the moment exists in Python's years, and only an aware one has
    /// an offset, a timezone name and a timezone object.
    pub open spec fn wf(self) -> bool {
        &&& self.naive.wf()
        &&& 1 <= self.naive.year <= 9999
        &&& match self.offset_seconds {
            Some(offset) => offset_in_range(offset as int) && !self.naive.in_leap_second(),
            None => self.timezone_name is None && self.tzinfo_ref is None,
        }
    }

    /// The offset from UTC in seconds; none counts as zero.
    pub open spec fn offset(self) -> int {
        match self.offset_seconds {
            Some(offset) => offset as int,
            None => 0,
        }
    }

    /// The microseconds since the Unix epoch in UTC; the wall clock of a naive
    /// datetime counts as UTC.
    pub open spec fn instant(self) -> int {
        self.naive.epoch_micros() - self.offset() * 1_000_000
    }

    /// The timezone of an aware datetime.
    pub open spec fn zone(self) -> Option<TimeZone> {
        match self.offset_seconds {
            Some(offset_seconds) => Some(
                TimeZone { offset_seconds, name: self.timezone_name },
            ),
            None => None,
        }
    }

    /// The retained timezone object, if the datetime is aware.
    pub fn tzinfo_ref(&self) -> (r: Option<HeapId>)
        ensures
            r == self.tzinfo_ref,
    {
        self.tzinfo_ref
    }

    /// A copy.
    pub fn duplicate(&self) -> (r: DateTime)
        ensures
            r == *self,
    {
        DateTime {
            naive: self.naive,
            offset_seconds: self.offset_seconds,
            timezone_name: copy_name(&self.timezone_name),
            tzinfo_ref: self.tzinfo_ref,
        }
    }

    /// The date of the wall clock.
    pub fn date(&self) -> (r: Date)
        requires
            self.wf(),
        ensures
            r.wf(),
            r.year == self.naive.year,
            r.month == self.naive.month,
            r.day == self.naive.day,
    {
        Date { year: self.naive.year, month: self.naive.month, day: self.naive.day }
    }
}

/// Whether a datetime has an offset.
pub fn is_aware(datetime: &DateTime) -> (r: bool)
    ensures
        r == (datetime.offset_seconds is Some),
{
    datetime.offset_seconds.is_some()
}

/// The offset of an aware datetime.
pub fn offset_seconds(datetime: &DateTime) -> (r: Option<i32>)
    ensures
        r == datetime.offset_seconds,
{
    datetime.offset_seconds
}

/// The timezone of an aware datetime.
pub fn timezone_info(datetime: &DateTime) -> (r: Option<TimeZone>)
    ensures
        r == datetime.zone(),
{
    match datetime.offset_seconds {
        Some(offset_seconds) => Some(
            TimeZone { offset_seconds, name: copy_name(&datetime.timezone_name) },
        ),
        None => None,
    }
}

/// Whether a year is one of Python's.
pub fn year_in_python_range(year: i32) -> (r: bool)
    ensures
        r == (1 <= year <= 9999),
{
    1 <= year && year <= 9999
}

/// Year, month, day, hour, minute, second and microsecond, when the year is
/// one of Python's.
pub fn to_components(datetime: &DateTime) -> (r: Option<(i32, u8, u8, u8, u8, u8, u32)>)
    requires
        datetime.naive.wf(),
    ensures
        r is Some <==> 1 <= datetime.naive.year <= 9999,
        r matches Some((year, month, day, hour, minute, second, microsecond)) ==> {
            &&& year == datetime.naive.year
            &&& month == datetime.naive.month
            &&& day == datetime.naive.day
            &&& hour == datetime.naive.hour
            &&& minute == datetime.naive.minute
            &&& second == datetime.naive.second
            &&& microsecond == datetime.naive.nano / 1_000
        },
{
    let n = datetime.naive;
    if !year_in_python_range(n.year) {
        return None;
    }
    Some(
        (
            n.year,
            n.month as u8,
            n.day as u8,
            n.hour as u8,
            n.minute as u8,
            n.second as u8,
            n.nano / 1_000,
        ),
    )
}

/// A day near Python's calendar is one that `chrono` can hold.
proof fn lemma_near_python(n: int)
    requires
        -10 <= n <= 3_652_070,
    ensures
        is_calendar_day(n),
{
    lemma_years_ascend(-262_142, 1);
    lemma_ordinal_in_year(-262_143, 1, 1);
    lemma_years_ascend(10000, 262_142);
    lemma_ordinal_in_year(262_142, 12, 31);
    crate::calendar::lemma_year_length(9999);
    crate::calendar::lemma_year_length(262_142);
    reveal_with_fuel(crate::calendar::days_before_month, 13);
}

/// The day number from the nanoseconds.
pub proof fn lemma_day_of_nanos(naive: Naive)
    requires
        naive.wf(),
        !naive.in_leap_second(),
    ensures
        naive.nanos() / day_nanos() == naive.day_number(),
        1 <= naive.year <= 9999 <==> is_python_day(naive.nanos() / day_nanos()),
{
    lemma_python_range(naive.year as int, naive.month as int, naive.day as int);
}

/// A time of day has its fields from its nanoseconds.
proof fn lemma_clock_unique(
    h1: int,
    m1: int,
    s1: int,
    n1: int,
    h2: int,
    m2: int,
    s2: int,
    n2: int,
)
    requires
        0 <= m1 < 60,
        0 <= m2 < 60,
        0 <= s1 < 60,
        0 <= s2 < 60,
        0 <= n1 < 1_000_000_000,
        0 <= n2 < 1_000_000_000,
        (h1 * 3_600 + m1 * 60 + s1) * 1_000_000_000 + n1 == (h2 * 3_600 + m2 * 60 + s2)
            * 1_000_000_000 + n2,
    ensures
        h1 == h2,
        m1 == m2,
        s1 == s2,
        n1 == n2,
{
    assert(h1 * 3_600 + m1 * 60 + s1 == h2 * 3_600 + m2 * 60 + s2);
    assert(h1 * 60 + m1 == h2 * 60 + m2);
}

/// Moments with the same nanoseconds are the same.
pub proof fn lemma_moment_unique(a: Naive, b: Naive)
    requires
        a.wf(),
        b.wf(),
        !a.in_leap_second(),
        !b.in_leap_second(),
        a.nanos() == b.nanos(),
    ensures
        a == b,
{
    lemma_day_of_nanos(a);
    lemma_day_of_nanos(b);
    lemma_ordinal_injective(
        a.year as int,
        a.month as int,
        a.day as int,
        b.year as int,
        b.month as int,
        b.day as int,
    );
    lemma_clock_unique(
        a.hour as int,
        a.minute as int,
        a.second as int,
        a.nano as int,
        b.hour as int,
        b.minute as int,
        b.second as int,
        b.nano as int,
    );
}

/// The moment in UTC.
fn to_utc_naive(datetime: &DateTime) -> (r: Option<Naive>)
    requires
        datetime.wf(),
    ensures
        r is Some <==> datetime.offset_seconds is Some,
        r matches Some(utc) ==> utc.wf() && !utc.in_leap_second() && utc.nanos()
            == datetime.naive.nanos() - datetime.offset() * 1_000_000_000,
{
    match datetime.offset_seconds {
        None => None,
        Some(offset) => {
            proof {
                lemma_day_of_nanos(datetime.naive);
                lemma_last_day();
                let n = datetime.naive.nanos() - offset * 1_000_000_000;
                lemma_near_python(n / day_nanos());
            }
            moment_minus(datetime.naive, offset as i64, 0)
        },
    }
}

/// A naive datetime, when its year is one of Python's.
fn from_local_naive(naive: Naive) -> (r: Option<DateTime>)
    requires
        naive.wf(),
    ensures
        r is Some <==> 1 <= naive.year <= 9999,
        r matches Some(dt) ==> dt == (DateTime {
            naive,
            offset_seconds: None,
            timezone_name: None,
            tzinfo_ref: None,
        }),
{
    if !year_in_python_range(naive.year) {
        return None;
    }
    Some(DateTime { naive, offset_seconds: None, timezone_name: None, tzinfo_ref: None })
}

/// The aware datetime of a moment in UTC, when its local year is one of Python's.
fn from_utc_naive_with_timezone_parts(
    utc: Naive,
    offset_seconds: i32,
    timezone_name: Option<String>,
) -> (r: Option<DateTime>)
    requires
        utc.wf(),
        !utc.in_leap_second(),
    ensures
        r is Some <==> offset_in_range(offset_seconds as int) && is_python_day(
            (utc.nanos() + offset_seconds * 1_000_000_000) / day_nanos(),
        ),
        r matches Some(dt) ==> {
            &&& dt.wf()
            &&& dt.naive.nanos() == utc.nanos() + offset_seconds * 1_000_000_000
            &&& dt.offset_seconds == Some(offset_seconds)
            &&& dt.timezone_name == timezone_name
            &&& dt.tzinfo_ref is None
        },
{
    if !is_fixed_offset(offset_seconds) {
        return None;
    }
    proof {
        lemma_last_day();
        let n = (utc.nanos() + offset_seconds * 1_000_000_000) / day_nanos();
        if is_python_day(n) {
            lemma_near_python(n);
        }
    }
    let local = match moment_plus(utc, offset_seconds as i64, 0) {
        Some(local) => local,
        None => {
            return None;
        },
    };
    proof {
        lemma_day_of_nanos(local);
    }
    if !year_in_python_range(local.year) {
        return None;
    }
    Some(
        DateTime {
            naive: local,
            offset_seconds: Some(offset_seconds),
            timezone_name,
            tzinfo_ref: None,
        },
    )
}

/// The same without a name.
fn from_utc_naive_with_offset(utc: Naive, offset_seconds: i32) -> (r: Option<DateTime>)
    requires
        utc.wf(),
        !utc.in_leap_second(),
    ensures
        r is Some <==> offset_in_range(offset_seconds as int) && is_python_day(
            (utc.nanos() + offset_seconds * 1_000_000_000) / day_nanos(),
        ),
{
    from_utc_naive_with_timezone_parts(utc, offset_seconds, None)
}

/// The microseconds of the wall clock since the Unix epoch.
pub fn local_micros(datetime: &DateTime) -> (r: Option<i64>)
    requires
        datetime.naive.wf(),
    ensures
        r is Some <==> 1 <= datetime.naive.year <= 9999,
        r matches Some(n) ==> n == datetime.naive.epoch_micros(),
{
    if !year_in_python_range(datetime.naive.year) {
        return None;
    }
    Some(timestamp_micros(datetime.naive))
}

/// The microseconds since the Unix epoch; those of the wall clock for a naive
/// datetime.
pub fn utc_micros(datetime: &DateTime) -> (r: Option<i64>)
    requires
        datetime.wf(),
    ensures
        r matches Some(n) && n == datetime.instant(),
{
    match datetime.offset_seconds {
        Some(_) => match to_utc_naive(datetime) {
            None => None,
            Some(utc) => {
                proof {
                    lemma_micros_shift(datetime.naive, utc, -datetime.offset());
                }
                Some(timestamp_micros(utc))
            },
        },
        None => local_micros(datetime),
    }
}

/// Moving by whole seconds moves the microseconds by as much.
proof fn lemma_micros_shift(a: Naive, b: Naive, seconds: int)
    requires
        a.wf(),
        b.wf(),
        !a.in_leap_second(),
        !b.in_leap_second(),
        b.nanos() == a.nanos() + seconds * 1_000_000_000,
    ensures
        b.epoch_micros() == a.epoch_micros() + seconds * 1_000_000,
{
    lemma_whole_seconds(b.seconds(), b.nano as int, a.seconds() + seconds, a.nano as int);
}

/// Whether a datetime is another one moved by so many nanoseconds; there is
/// none exactly when that is outside Python's years. It has the same timezone
/// and no timezone object yet.
pub open spec fn moved_by(dt: DateTime, nanos: int, r: Option<DateTime>) -> bool {
    match r {
        Some(next) => {
            &&& next.wf()
            &&& moment_moved(dt.naive, nanos, Some(next.naive))
            &&& next.offset_seconds == dt.offset_seconds
            &&& next.timezone_name == dt.timezone_name
            &&& next.tzinfo_ref is None
        },
        None => !dt.naive.stays(nanos) && !is_python_day(
            dt.naive.moved_nanos(nanos) / day_nanos(),
        ),
    }
}

/// A datetime moved by a duration, forward or back.
pub fn moved(datetime: &DateTime, delta: &TimeDelta, forward: bool) -> (r: Option<DateTime>)
    requires
        datetime.wf(),
        delta.wf(),
    ensures
        moved_by(
            *datetime,
            if forward {
                delta.total() * 1_000
            } else {
                -delta.total() * 1_000
            },
            r,
        ),
{
    let seconds: i64 = delta.days as i64 * 86_400 + delta.seconds as i64;
    let nanos: u32 = delta.microseconds as u32 * 1_000;
    let ghost shift: int = if forward {
        delta.total() * 1_000
    } else {
        -delta.total() * 1_000
    };
    proof {
        assert(seconds * 1_000_000_000 + nanos == delta.total() * 1_000);
        lemma_last_day();
    }
    match datetime.offset_seconds {
        Some(offset) => {
            let utc = match to_utc_naive(datetime) {
                Some(utc) => utc,
                None => {
                    return None;
                },
            };
            proof {
                let day = (datetime.naive.nanos() + shift) / day_nanos();
                let utc_day = (utc.nanos() + shift) / day_nanos();
                if is_python_day(day) {
                    lemma_near_python(utc_day);
                }
            }
            let next = if forward {
                moment_plus(utc, seconds, nanos)
            } else {
                moment_minus(utc, seconds, nanos)
            };
            match next {
                None => None,
                Some(next_utc) => from_utc_naive_with_timezone_parts(
                    next_utc,
                    offset,
                    copy_name(&datetime.timezone_name),
                ),
            }
        },
        None => {
            proof {
                let day = datetime.naive.moved_nanos(shift) / day_nanos();
                if is_python_day(day) {
                    lemma_near_python(day);
                }
            }
            let next = if forward {
                moment_plus(datetime.naive, seconds, nanos)
            } else {
                moment_minus(datetime.naive, seconds, nanos)
            };
            match next {
                None => None,
                Some(local) => {
                    proof {
                        if !local.in_leap_second() {
                            lemma_day_of_nanos(local);
                        }
                    }
                    from_local_naive(local)
                },
            }
        },
    }
}

/// Adding a duration and taking it off again gives the same wall clock and
/// offset, unless the way leads out of a leap second.
pub proof fn lemma_move_back(dt: DateTime, nanos: int, there: DateTime, back: Option<DateTime>)
    requires
        dt.wf(),
        dt.naive.in_leap_second() ==> there.naive.in_leap_second(),
        moved_by(dt, nanos, Some(there)),
        moved_by(there, -nanos, back),
    ensures
        back matches Some(home) && home.naive == dt.naive && home.offset_seconds
            == dt.offset_seconds && home.timezone_name == dt.timezone_name,
{
    if !dt.naive.in_leap_second() {
        lemma_day_of_nanos(dt.naive);
        match back {
            Some(home) => {
                lemma_moment_unique(home.naive, dt.naive);
            },
            None => {},
        }
    }
}

/// The duration from one datetime to another in microseconds, rounded toward
/// zero; there is none between an aware and a naive one.
pub open spec fn difference(a: DateTime, b: DateTime) -> Option<int> {
    if (a.offset_seconds is Some) != (b.offset_seconds is Some) {
        None
    } else {
        Some(
            truncated_div(
                nanos_between(a.naive, b.naive) - (a.offset() - b.offset()) * 1_000_000_000,
                1_000,
            ),
        )
    }
}

/// `a - b`.
pub fn elapsed(a: &DateTime, b: &DateTime) -> (r: Option<TimeDelta>)
    requires
        a.wf(),
        b.wf(),
    ensures
        match (r, difference(*a, *b)) {
            (Some(delta), Some(total)) => delta.wf() && delta.total() == total,
            (None, None) => true,
            _ => false,
        },
{
    if is_aware(a) != is_aware(b) {
        return None;
    }
    proof {
        lemma_last_day();
        lemma_python_range(a.naive.year as int, a.naive.month as int, a.naive.day as int);
        lemma_python_range(b.naive.year as int, b.naive.month as int, b.naive.day as int);
    }
    let between = match (to_utc_naive(a), to_utc_naive(b)) {
        (Some(left), Some(right)) => micros_between(left, right),
        _ => micros_between(a.naive, b.naive),
    };
    match between {
        None => None,
        Some(micros) => match from_total_microseconds(micros as i128) {
            Ok(delta) => Some(delta),
            Err(_) => None,
        },
    }
}

/// The difference of two datetimes undoes adding it, to the microsecond. Out of
/// a leap second it does when the time of day moves the same way as the moment.
pub proof fn lemma_difference_of_moved(dt: DateTime, micros: int, next: DateTime)
    requires
        dt.wf(),
        dt.naive.in_leap_second() && !dt.naive.stays(micros * 1_000) ==> (micros > 0
            <==> next.naive.clock() > dt.naive.clock()),
        moved_by(dt, micros * 1_000, Some(next)),
    ensures
        difference(next, dt) == Some(micros),
{
}

/// Whether datetimes are equal: aware ones when they are the same instant,
/// naive ones when they show the same wall clock.
pub open spec fn same_moment(a: DateTime, b: DateTime) -> bool {
    (a.offset_seconds is Some) == (b.offset_seconds is Some) && a.instant() == b.instant()
}

/// Whether datetimes are equal.
pub fn datetimes_equal(a: &DateTime, b: &DateTime) -> (r: bool)
    requires
        a.wf(),
        b.wf(),
    ensures
        r == same_moment(*a, *b),
{
    if is_aware(a) != is_aware(b) {
        return false;
    }
    match (utc_micros(a), utc_micros(b)) {
        (Some(x), Some(y)) => x == y,
        _ => false,
    }
}

/// The order of datetimes; an aware and a naive one have none.
pub open spec fn moment_order(a: DateTime, b: DateTime) -> Option<Order> {
    if (a.offset_seconds is Some) != (b.offset_seconds is Some) {
        None
    } else {
        Some(int_order(a.instant(), b.instant()))
    }
}

/// The order of datetimes.
pub fn order_datetimes(a: &DateTime, b: &DateTime) -> (r: Option<Order>)
    requires
        a.wf(),
        b.wf(),
    ensures
        r == moment_order(*a, *b),
{
    if is_aware(a) != is_aware(b) {
        return None;
    }
    match (utc_micros(a), utc_micros(b)) {
        (Some(x), Some(y)) => Some(order_i64(x, y)),
        _ => None,
    }
}

/// A number of nanoseconds has one number of whole seconds.
proof fn lemma_whole_seconds(s: int, n: int, t: int, m: int)
    requires
        0 <= n < 1_000_000_000,
        0 <= m < 1_000_000_000,
        s * 1_000_000_000 + n == t * 1_000_000_000 + m,
    ensures
        s == t,
        n == m,
{
}

/// Aware datetimes that are the same instant are equal, whatever their offsets.
pub proof fn lemma_offset_does_not_matter(a: DateTime, b: DateTime)
    requires
        a.wf(),
        b.wf(),
        a.offset_seconds is Some,
        b.offset_seconds is Some,
        a.naive.nanos() - a.offset() * 1_000_000_000 == b.naive.nanos() - b.offset()
            * 1_000_000_000,
    ensures
        same_moment(a, b),
{
    lemma_whole_seconds(
        a.naive.seconds() - a.offset(),
        a.naive.nano as int,
        b.naive.seconds() - b.offset(),
        b.naive.nano as int,
    );
}

/// The text of a moment with a separator between date and time.
pub open spec fn moment_text(dt: DateTime, sep: char) -> Seq<char> {
    let n = dt.naive;
    let clock = iso_text(n.year as nat, n.month as nat, n.day as nat).push(sep) + padded_digits(
        n.hour as nat,
        2,
    ) + ":"@ + padded_digits(n.minute as nat, 2) + ":"@ + padded_digits(n.second as nat, 2);
    let with_micros = if n.nano / 1_000 != 0 {
        clock + "."@ + padded_digits((n.nano / 1_000) as nat, 6)
    } else {
        clock
    };
    match dt.offset_seconds {
        Some(offset) => with_micros + offset_hms(offset as int),
        None => with_micros,
    }
}

/// The ISO 8601 text with the given separator. `isoformat()` separates with
/// `T`, `str()` with a space.
pub fn format_isoformat(dt: &DateTime, sep: char) -> (r: String)
    requires
        dt.wf(),
    ensures
        r@ == moment_text(*dt, sep),
{
    let (year, month, day, hour, minute, second, microsecond) = match to_components(dt) {
        Some(parts) => parts,
        None => {
            return "<out of range>".to_owned();
        },
    };
    let mut out: Vec<char> = Vec::new();
    push_iso(&mut out, year as u64, month as u64, day as u64);
    out.push(sep);
    push_padded(&mut out, hour as u64, 2);
    push_str(&mut out, ":");
    push_padded(&mut out, minute as u64, 2);
    push_str(&mut out, ":");
    push_padded(&mut out, second as u64, 2);
    if microsecond != 0 {
        push_str(&mut out, ".");
        push_padded(&mut out, microsecond as u64, 6);
    }
    match dt.offset_seconds {
        Some(offset) => push_str(&mut out, format_offset_hms(offset).as_str()),
        None => {},
    }
    assert(out@ =~= moment_text(*dt, sep));
    string_of(&out)
}

/// The `repr` of a datetime.
pub open spec fn datetime_repr(dt: DateTime) -> Seq<char> {
    let n = dt.naive;
    let micros = n.nano / 1_000;
    let start = "datetime.datetime("@ + int_digits(n.year as int) + ", "@ + int_digits(
        n.month as int,
    ) + ", "@ + int_digits(n.day as int) + ", "@ + int_digits(n.hour as int) + ", "@ + int_digits(
        n.minute as int,
    );
    let with_second = if n.second != 0 || micros != 0 {
        start + ", "@ + int_digits(n.second as int)
    } else {
        start
    };
    let with_micros = if micros != 0 {
        with_second + ", "@ + int_digits(micros as int)
    } else {
        with_second
    };
    let with_zone = match dt.offset_seconds {
        Some(offset) => with_micros + ", tzinfo="@ + timezone_repr(
            offset as int,
            match dt.timezone_name {
                Some(name) => Some(repr_text(name@)),
                None => None,
            },
        ),
        None => with_micros,
    };
    with_zone + ")"@
}

/// `repr(dt)`.
pub fn repr(dt: &DateTime) -> (r: String)
    requires
        dt.wf(),
    ensures
        r@ == datetime_repr(*dt),
{
    let (year, month, day, hour, minute, second, microsecond) = match to_components(dt) {
        Some(parts) => parts,
        None => {
            return "datetime.datetime(<out of range>)".to_owned();
        },
    };
    let mut out: Vec<char> = Vec::new();
    push_str(&mut out, "datetime.datetime(");
    push_int(&mut out, year as i64);
    push_str(&mut out, ", ");
    push_int(&mut out, month as i64);
    push_str(&mut out, ", ");
    push_int(&mut out, day as i64);
    push_str(&mut out, ", ");
    push_int(&mut out, hour as i64);
    push_str(&mut out, ", ");
    push_int(&mut out, minute as i64);
    if second != 0 || microsecond != 0 {
        push_str(&mut out, ", ");
        push_int(&mut out, second as i64);
    }
    if microsecond != 0 {
        push_str(&mut out, ", ");
        push_int(&mut out, microsecond as i64);
    }
    match timezone_info(dt) {
        Some(zone) => {
            let mut quoted: Vec<char> = Vec::new();
            match &zone.name {
                Some(name) => {
                    string_repr_fmt(name.as_str(), &mut quoted);
                    assert(quoted@ =~= repr_text(name@));
                },
                None => {},
            }
            push_str(&mut out, ", tzinfo=");
            push_str(&mut out, zone.repr(string_of(&quoted).as_str()).as_str());
        },
        None => {},
    }
    push_str(&mut out, ")");
    assert(out@ =~= datetime_repr(*dt));
    string_of(&out)
}

/// `dt.strftime(format)` of the wall clock.
pub fn format_datetime_strftime(dt: &DateTime, format: &str) -> (r: RunResult<String>)
    requires
        dt.naive.wf(),
    ensures
        match (moment_format(dt.naive, format@), r) {
            (Some(text), Ok(out)) => out@ == text,
            (None, Err(e)) => e.says(ExcType::ValueError, "Invalid format string"@),
            _ => false,
        },
{
    strftime_result(strftime_moment(dt.naive, format))
}

/// A `strptime` format as `chrono` reads it: `%f` becomes `%6f`, or `%.f` in
/// place of `.` where a full stop was just written. `done` is what was written
/// so far.
pub open spec fn chrono_format(rest: Seq<char>, done: Seq<char>) -> Seq<char>
    decreases rest.len(),
{
    if rest.len() == 0 {
        done
    } else if rest[0] != '%' {
        chrono_format(rest.skip(1), done.push(rest[0]))
    } else if rest.len() == 1 {
        done.push('%')
    } else if rest[1] == 'f' {
        if done.len() > 0 && done.last() == '.' {
            chrono_format(rest.skip(2), done.drop_last() + seq!['%', '.', 'f'])
        } else {
            chrono_format(rest.skip(2), done + seq!['%', '6', 'f'])
        }
    } else {
        chrono_format(rest.skip(2), done + seq!['%', rest[1]])
    }
}

/// The format for `chrono` of a `strptime` format.
pub fn chrono_strptime_formats(fmt: &str) -> (r: Vec<String>)
    ensures
        r@.len() == 1,
        r@[0]@ == chrono_format(fmt@, Seq::empty()),
{
    let chars = chars_of(fmt);
    let mut out: Vec<char> = Vec::new();
    let mut i: usize = 0;
    assert(chars@.skip(0) =~= chars@);
    assert(out@ =~= Seq::empty());
    while i < chars.len()
        invariant
            i <= chars@.len(),
            chars@ == fmt@,
            chrono_format(chars@.skip(i as int), out@) == chrono_format(fmt@, Seq::empty()),
        decreases chars@.len() - i,
    {
        let c = chars[i];
        assert(chars@.skip(i as int)[0] == c);
        assert(chars@.skip(i as int).skip(1) =~= chars@.skip(i + 1));
        if c != '%' {
            out.push(c);
            i = i + 1;
        } else if i + 1 == chars.len() {
            out.push('%');
            i = i + 1;
            assert(chars@.skip(i as int) =~= Seq::empty());
        } else {
            let next = chars[i + 1];
            let ghost before = out@;
            assert(chars@.skip(i as int)[1] == next);
            assert(chars@.skip(i as int).skip(2) =~= chars@.skip(i + 2));
            if next == 'f' {
                let dotted = out.len() > 0 && out[out.len() - 1] == '.';
                if dotted {
                    let _dot = out.pop();
                    out.push('%');
                    out.push('.');
                    out.push('f');
                    assert(out@ =~= before.drop_last() + seq!['%', '.', 'f']);
                } else {
                    out.push('%');
                    out.push('6');
                    out.push('f');
                    assert(out@ =~= before + seq!['%', '6', 'f']);
                }
            } else {
                out.push('%');
                out.push(next);
                assert(out@ =~= before + seq!['%', next]);
            }
            i = i + 2;
        }
    }
    assert(chars@.skip(i as int) =~= Seq::empty());
    let mut all: Vec<String> = Vec::new();
    all.push(string_of(&out));
    all
}

/// What `strptime` makes of the moment or else the date that `chrono` reads:
/// a date alone is midnight.
pub open spec fn read_moment(
    moment: Option<Naive>,
    date: Option<(i32, u32, u32)>,
) -> Option<Naive> {
    match moment {
        Some(m) => Some(m),
        None => match date {
            Some((year, month, day)) => Some(
                Naive { year, month, day, hour: 0, minute: 0, second: 0, nano: 0 },
            ),
            None => None,
        },
    }
}

/// The first of the two that was read; a date alone is midnight.
pub fn prefer_moment(moment: Option<Naive>, date: Option<(i32, u32, u32)>) -> (r: Option<Naive>)
    ensures
        r == read_moment(moment, date),
{
    match moment {
        Some(m) => Some(m),
        None => match date {
            Some((year, month, day)) => Some(
                Naive { year, month, day, hour: 0, minute: 0, second: 0, nano: 0 },
            ),
            None => None,
        },
    }
}

/// What `strptime` reads from a text.
pub open spec fn strptime_moment(text: Seq<char>, fmt: Seq<char>) -> Option<Naive> {
    let format = chrono_format(fmt, Seq::empty());
    read_moment(parsed_moment(text, format), parsed_date(text, format))
}

/// Reads a text by a `strptime` format.
pub fn parse_strptime_naive(date_string: &str, fmt: &str) -> (r: Option<Naive>)
    ensures
        r == strptime_moment(date_string@, fmt@),
        r matches Some(moment) ==> moment.wf(),
{
    let formats = chrono_strptime_formats(fmt);
    let format = formats[0].as_str();
    prefer_moment(parse_moment(date_string, format), parse_date(date_string, format))
}

/// The error for a time of day that does not exist, if any.
pub open spec fn clock_error(hour: int, minute: int, second: int, microsecond: int) -> Option<
    Seq<char>,
> {
    if !(0 <= hour <= 23) {
        Some("hour must be in 0..23, not "@ + int_digits(hour))
    } else if !(0 <= minute <= 59) {
        Some("minute must be in 0..59, not "@ + int_digits(minute))
    } else if !(0 <= second <= 59) {
        Some("second must be in 0..59, not "@ + int_digits(second))
    } else if !(0 <= microsecond <= 999_999) {
        Some("microsecond must be in 0..999999, not "@ + int_digits(microsecond))
    } else {
        None
    }
}

/// Civil fields of a datetime.
#[derive(Clone, Copy, Debug, PartialEq, Eq, Structural)]
pub struct Civil {
    pub year: i32,
    pub month: i32,
    pub day: i32,
    pub hour: i32,
    pub minute: i32,
    pub second: i32,
    pub microsecond: i32,
}

impl Civil {
    /// The moment that valid fields name.
    pub open spec fn moment(self) -> Naive {
        Naive {
            year: self.year,
            month: self.month as u32,
            day: self.day as u32,
            hour: self.hour as u32,
            minute: self.minute as u32,
            second: self.second as u32,
            nano: (self.microsecond * 1_000) as u32,
        }
    }
}

/// The datetime of civil fields in a timezone, without a timezone object yet,
/// or the error.
pub open spec fn built(c: Civil, tzinfo: Option<TimeZone>) -> Result<DateTime, Raised> {
    match clock_error(c.hour as int, c.minute as int, c.second as int, c.microsecond as int) {
        Some(message) => Err((ExcType::ValueError, message)),
        None => match ymd_error(c.year as int, c.month as int, c.day as int) {
            Some(message) => Err((ExcType::ValueError, message)),
            None => match tzinfo {
                None => Ok(
                    DateTime {
                        naive: c.moment(),
                        offset_seconds: None,
                        timezone_name: None,
                        tzinfo_ref: None,
                    },
                ),
                Some(tz) => if !offset_in_range(tz.offset_seconds as int) {
                    Err((ExcType::ValueError, "timezone offset out of range"@))
                } else {
                    Ok(
                        DateTime {
                            naive: c.moment(),
                            offset_seconds: Some(tz.offset_seconds),
                            timezone_name: tz.name,
                            tzinfo_ref: None,
                        },
                    )
                },
            },
        },
    }
}

/// Whether a datetime is what is said of it.
pub open spec fn datetime_is(r: RunResult<DateTime>, expected: Result<DateTime, Raised>) -> bool {
    match expected {
        Ok(dt) => r == Ok::<DateTime, RunError>(dt),
        Err(e) => raises(r, e),
    }
}

fn range_message(head: &str, n: i32) -> (r: RunError)
    ensures
        r.says(ExcType::ValueError, head@ + int_digits(n as int)),
{
    let mut out: Vec<char> = chars_of(head);
    push_int(&mut out, n as i64);
    RunError::new_msg(ExcType::ValueError, string_of(&out))
}

/// The datetime of civil fields in a timezone, without a timezone object yet.
pub fn build(c: Civil, tzinfo: Option<TimeZone>) -> (r: RunResult<DateTime>)
    ensures
        datetime_is(r, built(c, tzinfo)),
        r matches Ok(dt) ==> dt.wf(),
{
    if c.hour < 0 || c.hour > 23 {
        return Err(range_message("hour must be in 0..23, not ", c.hour));
    }
    if c.minute < 0 || c.minute > 59 {
        return Err(range_message("minute must be in 0..59, not ", c.minute));
    }
    if c.second < 0 || c.second > 59 {
        return Err(range_message("second must be in 0..59, not ", c.second));
    }
    if c.microsecond < 0 || c.microsecond > 999_999 {
        return Err(range_message("microsecond must be in 0..999999, not ", c.microsecond));
    }
    let date = match from_ymd(c.year, c.month, c.day) {
        Ok(date) => date,
        Err(e) => {
            return Err(e);
        },
    };
    let naive = Naive {
        year: date.year,
        month: date.month,
        day: date.day,
        hour: c.hour as u32,
        minute: c.minute as u32,
        second: c.second as u32,
        nano: c.microsecond as u32 * 1_000,
    };
    assert(naive == c.moment());
    let (offset_seconds, timezone_name) = match tzinfo {
        Some(tz) => (Some(tz.offset_seconds), tz.name),
        None => (None, None),
    };
    match offset_seconds {
        None => {},
        Some(offset) => {
            if !is_fixed_offset(offset) {
                return Err(RunError::new(ExcType::ValueError, "timezone offset out of range"));
            }
        },
    }
    let datetime = DateTime { naive, offset_seconds, timezone_name, tzinfo_ref: None };
    match offset_seconds {
        None => {},
        Some(offset) => {
            proof {
                lemma_day_of_nanos(naive);
            }
            let utc = match to_utc_naive(&datetime) {
                Some(utc) => utc,
                None => {
                    return Err(RunError::new(ExcType::OverflowError, "date value out of range"));
                },
            };
            if from_utc_naive_with_offset(utc, offset).is_none() {
                return Err(RunError::new(ExcType::OverflowError, "date value out of range"));
            }
        },
    }
    Ok(datetime)
}

} // verus!
