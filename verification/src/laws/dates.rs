//! Arithmetic with dates, datetimes and durations.

use vstd::prelude::*;

use crate::arith::{as_done, as_optional, computed, Arith};
use crate::calendar::{days_in_month, nanos_between, ordinal, truncated_div};
use crate::exception::{RunError, RunResult};
use crate::heap::HeapData;
use crate::laws::results::{keeps_data, lemma_object_given};
use crate::outcome::object_result;
use crate::types::date::{is_python_day, lemma_dates_ordered, lemma_python_range, lemma_same_day, Date};
use crate::types::datetime::{
    day_nanos, difference, lemma_day_of_nanos, lemma_moment_unique, moved_by, DateTime,
};
use crate::types::datetime_ops::{held, optional, shift_done, shift_held, tz_attached};
use crate::types::timedelta::{lemma_duration_unique, TimeDelta};
use crate::value::Value;
use crate::value_add::{difference_of, lemma_entry_ok, sum_of};
use crate::vm::VM;

verus! {

/// The date that a value refers to.
pub open spec fn date_at(vm: VM, v: Value) -> Option<Date> {
    match vm.data_of(v) {
        Some(HeapData::Date(date)) => Some(date),
        _ => None,
    }
}

/// The datetime that a value refers to.
pub open spec fn datetime_at(vm: VM, v: Value) -> Option<DateTime> {
    match vm.data_of(v) {
        Some(HeapData::DateTime(dt)) => Some(dt),
        _ => None,
    }
}

/// The duration that a value refers to.
pub open spec fn duration_at(vm: VM, v: Value) -> Option<TimeDelta> {
    match vm.data_of(v) {
        Some(HeapData::TimeDelta(delta)) => Some(delta),
        _ => None,
    }
}

/// The moment of a datetime in nanoseconds: that in UTC of an aware one, and that of
/// the wall clock of a naive one.
pub open spec fn moment(dt: DateTime) -> int {
    dt.naive.nanos() - (if dt.offset_seconds is Some {
        dt.offset_seconds->0 as int
    } else {
        0
    }) * 1_000_000_000
}

/// Whether both datetimes are aware or both naive.
pub open spec fn comparable(x: DateTime, y: DateTime) -> bool {
    x.offset_seconds is Some == y.offset_seconds is Some
}

/// What an arithmetic result is as a value.
pub open spec fn value_done(r: RunResult<Arith>) -> Option<Value> {
    match r {
        Ok(Arith::Done(v)) => Some(v),
        _ => None,
    }
}

/// The duration of microseconds that nanoseconds hold, rounded toward zero.
pub open spec fn rounds_to(total: int, nanos: int) -> bool {
    &&& nanos >= 0 ==> total * 1_000 <= nanos < total * 1_000 + 1_000
    &&& nanos <= 0 ==> total * 1_000 - 1_000 < nanos <= total * 1_000
}

/// The difference of two datetimes is the duration from the second to the first: it
/// is positive exactly when the first is at least a microsecond later.
pub proof fn lemma_datetime_difference(
    before: VM,
    after: VM,
    a: Value,
    b: Value,
    r: RunResult<Arith>,
)
    requires
        datetime_at(before, a) is Some,
        datetime_at(before, b) is Some,
        comparable(datetime_at(before, a)->0, datetime_at(before, b)->0),
        !datetime_at(before, a)->0.naive.in_leap_second(),
        !datetime_at(before, b)->0.naive.in_leap_second(),
        computed(before, after, r, difference_of(before, a, b)),
        r is Ok,
    ensures
        value_done(r) matches Some(v) && duration_at(after, v) matches Some(d) && d.wf()
            && rounds_to(
            d.total(),
            moment(datetime_at(before, a)->0) - moment(datetime_at(before, b)->0),
        ),
        keeps_data(before, after),
{
    let x = datetime_at(before, a)->0;
    let y = datetime_at(before, b)->0;
    let total = difference(x, y)->0;
    let o = as_optional(r)->0;
    let (delta, v) = choose|delta: TimeDelta, v: RunResult<Value>|
        #![trigger object_result(before, after, v, HeapData::TimeDelta(delta))]
        delta.wf() && delta.total() == total && object_result(
            before,
            after,
            v,
            HeapData::TimeDelta(delta),
        ) && o == optional(v);
    lemma_object_given(before, after, v, HeapData::TimeDelta(delta));
    let n = nanos_between(x.naive, y.naive) - (x.offset() - y.offset()) * 1_000_000_000;
    assert(n == moment(x) - moment(y));
    assert(total == truncated_div(n, 1_000));
}

/// An aware and a naive datetime have no difference.
pub proof fn lemma_no_difference(before: VM, after: VM, a: Value, b: Value, r: RunResult<Arith>)
    requires
        datetime_at(before, a) is Some,
        datetime_at(before, b) is Some,
        !comparable(datetime_at(before, a)->0, datetime_at(before, b)->0),
        computed(before, after, r, difference_of(before, a, b)),
    ensures
        r == Ok::<Arith, RunError>(Arith::Unsupported),
{
}

/// What a datetime moved by nanoseconds is.
proof fn lemma_shift(
    before: VM,
    after: VM,
    dt: DateTime,
    nanos: int,
    o: RunResult<Option<Value>>,
)
    requires
        dt.wf(),
        !dt.naive.in_leap_second(),
        shift_done(before, after, o, dt, nanos),
        o is Ok,
    ensures
        match o->Ok_0 {
            Some(v) => datetime_at(after, v) matches Some(next) && next.wf()
                && !next.naive.in_leap_second() && next.naive.nanos() == dt.naive.nanos() + nanos
                && next.offset_seconds == dt.offset_seconds && next.timezone_name
                == dt.timezone_name,
            None => !is_python_day((dt.naive.nanos() + nanos) / day_nanos()),
        },
{
    let next = choose|next: Option<DateTime>|
        #[trigger] moved_by(dt, nanos, next) && (match next {
            None => o == Ok::<Option<Value>, RunError>(None) && after == before,
            Some(moved) => shift_held(before, after, o, moved, dt.tzinfo_ref),
        });
    match next {
        None => {},
        Some(moved) => {
            let (mid, made, v) = choose|mid: VM, made: RunResult<DateTime>, v: RunResult<Value>|
                #[trigger] tz_attached(before, mid, made, moved, dt.tzinfo_ref) && #[trigger] held(
                    mid,
                    after,
                    made,
                    v,
                ) && o == optional(v);
            assert(made is Ok);
            lemma_object_given(mid, after, v, HeapData::DateTime(made->Ok_0));
        },
    }
}

/// Adding a duration to a datetime, on either side, moves its wall clock by that
/// duration and keeps its timezone. It fails only outside Python's years.
pub proof fn lemma_datetime_plus(
    before: VM,
    after: VM,
    a: Value,
    b: Value,
    dt: DateTime,
    delta: TimeDelta,
    r: RunResult<Arith>,
)
    requires
        before.wf(),
        before.ok(a),
        before.ok(b),
        (datetime_at(before, a) == Some(dt) && duration_at(before, b) == Some(delta)) || (
        duration_at(before, a) == Some(delta) && datetime_at(before, b) == Some(dt)),
        !dt.naive.in_leap_second(),
        computed(before, after, r, sum_of(before, a, b)),
        r is Ok,
    ensures
        match value_done(r) {
            Some(v) => datetime_at(after, v) matches Some(next) && next.wf()
                && !next.naive.in_leap_second() && next.naive.nanos() == dt.naive.nanos()
                + delta.total() * 1_000 && next.offset_seconds == dt.offset_seconds
                && next.timezone_name == dt.timezone_name,
            None => r == Ok::<Arith, RunError>(Arith::Unsupported) && !is_python_day(
                (dt.naive.nanos() + delta.total() * 1_000) / day_nanos(),
            ),
        },
{
    lemma_entry_ok(before, a->Ref_0);
    lemma_entry_ok(before, b->Ref_0);
    lemma_shift(before, after, dt, delta.total() * 1_000, as_optional(r)->0);
}

/// Taking a duration off a datetime moves its wall clock back by that duration and
/// keeps its timezone. It fails only outside Python's years.
pub proof fn lemma_datetime_minus(
    before: VM,
    after: VM,
    a: Value,
    b: Value,
    dt: DateTime,
    delta: TimeDelta,
    r: RunResult<Arith>,
)
    requires
        before.wf(),
        before.ok(a),
        datetime_at(before, a) == Some(dt),
        duration_at(before, b) == Some(delta),
        !dt.naive.in_leap_second(),
        computed(before, after, r, difference_of(before, a, b)),
        r is Ok,
    ensures
        match value_done(r) {
            Some(v) => datetime_at(after, v) matches Some(next) && next.wf()
                && !next.naive.in_leap_second() && next.naive.nanos() == dt.naive.nanos()
                - delta.total() * 1_000 && next.offset_seconds == dt.offset_seconds
                && next.timezone_name == dt.timezone_name,
            None => r == Ok::<Arith, RunError>(Arith::Unsupported) && !is_python_day(
                (dt.naive.nanos() - delta.total() * 1_000) / day_nanos(),
            ),
        },
{
    lemma_entry_ok(before, a->Ref_0);
    lemma_shift(before, after, dt, -delta.total() * 1_000, as_optional(r)->0);
}

/// The moment of a datetime on a whole microsecond.
proof fn lemma_whole_micros(dt: DateTime)
    requires
        dt.naive.nano % 1_000 == 0,
    ensures
        moment(dt) % 1_000 == 0,
{
    let s = dt.naive.seconds();
    let o = if dt.offset_seconds is Some {
        dt.offset_seconds->0 as int
    } else {
        0
    };
    lemma_whole_thousands(s, o, dt.naive.nano as int);
}

proof fn lemma_whole_thousands(s: int, o: int, n: int)
    requires
        n % 1_000 == 0,
    ensures
        (s * 1_000_000_000 + n - o * 1_000_000_000) % 1_000 == 0,
{
}

/// A duration between whole microseconds is not rounded.
proof fn lemma_exact(total: int, a: int, b: int)
    requires
        a % 1_000 == 0,
        b % 1_000 == 0,
        rounds_to(total, a - b),
    ensures
        total * 1_000 == a - b,
{
}

/// `b + (a - b)` is `a` again for datetimes on whole microseconds: the same wall
/// clock for naive ones, and the same moment, on the wall clock of `b`, for aware
/// ones.
pub proof fn lemma_difference_added_back(
    before: VM,
    mid: VM,
    after: VM,
    a: Value,
    b: Value,
    d: Value,
    r: RunResult<Arith>,
    s: RunResult<Arith>,
)
    requires
        before.wf(),
        mid.wf(),
        before.ok(a),
        before.ok(b),
        mid.ok(d),
        datetime_at(before, a) is Some,
        datetime_at(before, b) is Some,
        comparable(datetime_at(before, a)->0, datetime_at(before, b)->0),
        !datetime_at(before, a)->0.naive.in_leap_second(),
        !datetime_at(before, b)->0.naive.in_leap_second(),
        datetime_at(before, a)->0.naive.nano % 1_000 == 0,
        datetime_at(before, b)->0.naive.nano % 1_000 == 0,
        computed(before, mid, r, difference_of(before, a, b)),
        r == Ok::<Arith, RunError>(Arith::Done(d)),
        computed(mid, after, s, sum_of(mid, b, d)),
        s is Ok,
    ensures
        ({
            let x = datetime_at(before, a)->0;
            let y = datetime_at(before, b)->0;
            &&& value_done(s) matches Some(v) ==> (datetime_at(after, v) matches Some(z) && moment(
                z,
            ) == moment(x) && z.offset_seconds == y.offset_seconds)
            &&& x.offset_seconds is None ==> (value_done(s) matches Some(v) && datetime_at(
                after,
                v,
            ) matches Some(z) && z.naive == x.naive)
        }),
{
    let x = datetime_at(before, a)->0;
    let y = datetime_at(before, b)->0;
    lemma_entry_ok(before, a->Ref_0);
    lemma_entry_ok(before, b->Ref_0);
    lemma_datetime_difference(before, mid, a, b, r);
    let delta = duration_at(mid, d)->0;
    let n = moment(x) - moment(y);
    lemma_whole_micros(x);
    lemma_whole_micros(y);
    lemma_exact(delta.total(), moment(x), moment(y));
    assert(mid.entries()[b->Ref_0.0 as int].data == before.entries()[b->Ref_0.0 as int].data);
    assert(datetime_at(mid, b) == Some(y));
    lemma_datetime_plus(mid, after, b, d, y, delta, s);
    if x.offset_seconds is None {
        lemma_day_of_nanos(x.naive);
        assert(y.naive.nanos() + n == x.naive.nanos());
        let z = datetime_at(after, value_done(s)->0)->0;
        lemma_moment_unique(z.naive, x.naive);
    }
}

/// Adding a duration to a datetime and taking it off again gives the wall clock and
/// the timezone that it had.
pub proof fn lemma_datetime_there_and_back(
    before: VM,
    mid: VM,
    after: VM,
    a: Value,
    b: Value,
    w: Value,
    dt: DateTime,
    delta: TimeDelta,
    r: RunResult<Arith>,
    s: RunResult<Arith>,
)
    requires
        before.wf(),
        mid.wf(),
        before.ok(a),
        before.ok(b),
        mid.ok(w),
        datetime_at(before, a) == Some(dt),
        duration_at(before, b) == Some(delta),
        duration_at(mid, b) == Some(delta),
        !dt.naive.in_leap_second(),
        computed(before, mid, r, sum_of(before, a, b)),
        r == Ok::<Arith, RunError>(Arith::Done(w)),
        computed(mid, after, s, difference_of(mid, w, b)),
        s is Ok,
    ensures
        value_done(s) matches Some(v) && datetime_at(after, v) matches Some(z) && z.naive
            == dt.naive && z.offset_seconds == dt.offset_seconds && z.timezone_name
            == dt.timezone_name,
{
    lemma_entry_ok(before, a->Ref_0);
    lemma_datetime_plus(before, mid, a, b, dt, delta, r);
    let next = datetime_at(mid, w)->0;
    lemma_datetime_minus(mid, after, w, b, next, delta, s);
    assert(next.naive.nanos() - delta.total() * 1_000 == dt.naive.nanos());
    lemma_day_of_nanos(dt.naive);
    let z = datetime_at(after, value_done(s)->0)->0;
    lemma_moment_unique(z.naive, dt.naive);
}

/// The difference of two dates is a duration of whole days, from the second to the
/// first: positive exactly when the first is the later one.
pub proof fn lemma_date_difference(before: VM, after: VM, a: Value, b: Value, r: RunResult<Arith>)
    requires
        before.wf(),
        before.ok(a),
        before.ok(b),
        date_at(before, a) is Some,
        date_at(before, b) is Some,
        computed(before, after, r, difference_of(before, a, b)),
        r is Ok,
    ensures
        ({
            let x = date_at(before, a)->0;
            let y = date_at(before, b)->0;
            value_done(r) matches Some(v) && duration_at(after, v) matches Some(d) && {
                &&& d.seconds == 0 && d.microseconds == 0
                &&& d.days == ordinal(x.year as int, x.month as int, x.day as int) - ordinal(
                    y.year as int,
                    y.month as int,
                    y.day as int,
                )
                &&& d.days > 0 <==> (y.year < x.year || (y.year == x.year && (y.month < x.month || (
                y.month == x.month && y.day < x.day))))
            }
        }),
        keeps_data(before, after),
{
    let x = date_at(before, a)->0;
    let y = date_at(before, b)->0;
    lemma_entry_ok(before, a->Ref_0);
    lemma_entry_ok(before, b->Ref_0);
    lemma_dates_ordered(y, x);
    let n = x.day_number() - y.day_number();
    let total = n * crate::types::timedelta::MICROSECONDS_PER_DAY;
    let v = as_done(r)->0;
    let delta = choose|delta: TimeDelta|
        #![trigger object_result(before, after, v, HeapData::TimeDelta(delta))]
        delta.wf() && delta.total() == total && object_result(
            before,
            after,
            v,
            HeapData::TimeDelta(delta),
        );
    lemma_object_given(before, after, v, HeapData::TimeDelta(delta));
    lemma_python_range(x.year as int, x.month as int, x.day as int);
    lemma_python_range(y.year as int, y.month as int, y.day as int);
    crate::types::date::lemma_last_day();
    lemma_duration_unique(
        delta,
        TimeDelta { days: n as i32, seconds: 0, microseconds: 0 },
    );
}

/// Adding a duration to a date, on either side, gives the date so many days later;
/// the seconds and microseconds of the duration do not matter. It fails only outside
/// Python's years.
pub proof fn lemma_date_plus(
    before: VM,
    after: VM,
    a: Value,
    b: Value,
    date: Date,
    delta: TimeDelta,
    r: RunResult<Arith>,
)
    requires
        (date_at(before, a) == Some(date) && duration_at(before, b) == Some(delta)) || (duration_at(
            before,
            a,
        ) == Some(delta) && date_at(before, b) == Some(date)),
        computed(before, after, r, sum_of(before, a, b)),
        r is Ok,
    ensures
        match value_done(r) {
            Some(v) => date_at(after, v) matches Some(next) && next.wf() && ordinal(
                next.year as int,
                next.month as int,
                next.day as int,
            ) == ordinal(date.year as int, date.month as int, date.day as int) + delta.days,
            None => r == Ok::<Arith, RunError>(Arith::Unsupported) && !is_python_day(
                ordinal(date.year as int, date.month as int, date.day as int) + delta.days,
            ),
        },
        keeps_data(before, after),
{
    lemma_date_by(before, after, date, delta.days as int, as_optional(r)->0);
}

/// Taking a duration off a date gives the date so many days earlier. It fails only
/// outside Python's years.
pub proof fn lemma_date_minus(
    before: VM,
    after: VM,
    a: Value,
    b: Value,
    date: Date,
    delta: TimeDelta,
    r: RunResult<Arith>,
)
    requires
        date_at(before, a) == Some(date),
        duration_at(before, b) == Some(delta),
        computed(before, after, r, difference_of(before, a, b)),
        r is Ok,
    ensures
        match value_done(r) {
            Some(v) => date_at(after, v) matches Some(next) && next.wf() && ordinal(
                next.year as int,
                next.month as int,
                next.day as int,
            ) == ordinal(date.year as int, date.month as int, date.day as int) - delta.days,
            None => r == Ok::<Arith, RunError>(Arith::Unsupported) && !is_python_day(
                ordinal(date.year as int, date.month as int, date.day as int) - delta.days,
            ),
        },
        keeps_data(before, after),
{
    lemma_date_by(before, after, date, -(delta.days as int), as_optional(r)->0);
}

proof fn lemma_date_by(before: VM, after: VM, date: Date, days: int, o: RunResult<Option<Value>>)
    requires
        crate::types::date_ops::date_moved(before, after, o, date, days),
        o is Ok,
    ensures
        match o->Ok_0 {
            Some(v) => date_at(after, v) matches Some(next) && next.wf() && next.day_number()
                == date.day_number() + days,
            None => !is_python_day(date.day_number() + days),
        },
        keeps_data(before, after),
{
    if is_python_day(date.day_number() + days) {
        let (next, v) = choose|next: Date, v: RunResult<Value>|
            #![trigger object_result(before, after, v, HeapData::Date(next))]
            next.wf() && next.day_number() == date.day_number() + days && object_result(
                before,
                after,
                v,
                HeapData::Date(next),
            ) && o == optional(v);
        lemma_object_given(before, after, v, HeapData::Date(next));
    }
}

/// `b + (a - b)` is `a` again for dates.
pub proof fn lemma_date_difference_added_back(
    before: VM,
    mid: VM,
    after: VM,
    a: Value,
    b: Value,
    d: Value,
    r: RunResult<Arith>,
    s: RunResult<Arith>,
)
    requires
        before.wf(),
        before.ok(a),
        before.ok(b),
        date_at(before, a) is Some,
        date_at(before, b) is Some,
        computed(before, mid, r, difference_of(before, a, b)),
        r == Ok::<Arith, RunError>(Arith::Done(d)),
        computed(mid, after, s, sum_of(mid, b, d)),
        s is Ok,
    ensures
        value_done(s) matches Some(v) && date_at(after, v) == date_at(before, a),
{
    let x = date_at(before, a)->0;
    let y = date_at(before, b)->0;
    lemma_entry_ok(before, a->Ref_0);
    lemma_entry_ok(before, b->Ref_0);
    lemma_date_difference(before, mid, a, b, r);
    assert(mid.entries()[b->Ref_0.0 as int].data == before.entries()[b->Ref_0.0 as int].data);
    lemma_date_plus(mid, after, b, d, y, duration_at(mid, d)->0, s);
    lemma_python_range(x.year as int, x.month as int, x.day as int);
    lemma_same_day(date_at(after, value_done(s)->0)->0, x);
}

/// A day after a date comes the next day of its month, after the last one the first
/// of the next month, and after the last of December the first of January.
pub proof fn lemma_day_after(
    before: VM,
    after: VM,
    a: Value,
    b: Value,
    date: Date,
    delta: TimeDelta,
    r: RunResult<Arith>,
)
    requires
        before.wf(),
        before.ok(a),
        date_at(before, a) == Some(date),
        duration_at(before, b) == Some(delta),
        delta.days == 1,
        date.year < 9999 || date.month < 12 || date.day < 31,
        computed(before, after, r, sum_of(before, a, b)),
        r is Ok,
    ensures
        value_done(r) matches Some(v) && date_at(after, v) == Some(
            if date.day < days_in_month(date.year as int, date.month as int) {
                Date { day: (date.day + 1) as u32, ..date }
            } else if date.month < 12 {
                Date { year: date.year, month: (date.month + 1) as u32, day: 1 }
            } else {
                Date { year: (date.year + 1) as i32, month: 1, day: 1 }
            },
        ),
{
    let next = if date.day < days_in_month(date.year as int, date.month as int) {
        Date { day: (date.day + 1) as u32, ..date }
    } else if date.month < 12 {
        Date { year: date.year, month: (date.month + 1) as u32, day: 1 }
    } else {
        Date { year: (date.year + 1) as i32, month: 1, day: 1 }
    };
    lemma_entry_ok(before, a->Ref_0);
    lemma_date_plus(before, after, a, b, date, delta, r);
    crate::calendar::lemma_year_length(date.year as int);
    assert(crate::calendar::days_before_month(date.year as int, 1) == 0);
    assert(crate::calendar::days_before_month(date.year + 1, 1) == 0);
    assert(next.wf());
    assert(next.day_number() == date.day_number() + 1);
    lemma_python_range(next.year as int, next.month as int, next.day as int);
    lemma_same_day(date_at(after, value_done(r)->0)->0, next);
}

/// The sum of two durations lasts as long as both, and their difference as long as
/// the first without the second. They fail only where there is no such duration.
pub proof fn lemma_duration_sum_and_difference(
    before: VM,
    after: VM,
    a: Value,
    b: Value,
    x: TimeDelta,
    y: TimeDelta,
    r: RunResult<Arith>,
    rest: VM,
    s: RunResult<Arith>,
)
    requires
        duration_at(before, a) == Some(x),
        duration_at(before, b) == Some(y),
        computed(before, after, r, sum_of(before, a, b)),
        computed(before, rest, s, difference_of(before, a, b)),
        r is Ok,
        s is Ok,
    ensures
        match value_done(r) {
            Some(v) => duration_at(after, v) matches Some(d) && d.wf() && d.total() == x.total()
                + y.total(),
            None => !crate::types::timedelta::duration_in_range(x.total() + y.total()),
        },
        match value_done(s) {
            Some(v) => duration_at(rest, v) matches Some(d) && d.wf() && d.total() == x.total()
                - y.total(),
            None => !crate::types::timedelta::duration_in_range(x.total() - y.total()),
        },
{
    lemma_duration_made(before, after, r, x.total() + y.total());
    lemma_duration_made(before, rest, s, x.total() - y.total());
}

/// A duration that was computed lasts so long.
pub proof fn lemma_duration_made(before: VM, after: VM, r: RunResult<Arith>, total: int)
    requires
        computed(before, after, r, crate::value_add::duration_of(total)),
        r is Ok,
    ensures
        match value_done(r) {
            Some(v) => duration_at(after, v) matches Some(d) && d.wf() && d.total() == total,
            None => !crate::types::timedelta::duration_in_range(total),
        },
{
    if crate::types::timedelta::duration_in_range(total) {
        let v = as_done(r)->0;
        let delta = choose|delta: TimeDelta|
            #![trigger object_result(before, after, v, HeapData::TimeDelta(delta))]
            delta.wf() && delta.total() == total && object_result(
                before,
                after,
                v,
                HeapData::TimeDelta(delta),
            );
        lemma_object_given(before, after, v, HeapData::TimeDelta(delta));
    }
}

} // verus!
