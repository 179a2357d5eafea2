//! What dates, datetimes and timezones are made of and say of themselves.

use vstd::prelude::*;
use vstd::utf8::encode_utf8;

use crate::args::ArgValues;
use crate::calendar::{days_in_month, iso_date_fields, parsed_date, parsed_moment, written_date};
use crate::call::CallResult;
use crate::exception::RunResult;
use crate::heap::{HeapData, HeapId};
use crate::intern::StaticStrings;
use crate::laws::dates::{date_at, datetime_at, duration_at};
use crate::laws::results::{
    lemma_bounded, lemma_consumed, lemma_held_string, lemma_object_given, lemma_positional_fit,
};
use crate::outcome::object_result;
use crate::types::date::{iso_text, lemma_written_date, Date};
use crate::types::date_ops::{
    date_call_done, date_from_args, date_fromisoformat_done, date_params, date_signature,
    no_date_fields, timezone_init_done,
};
use crate::types::datetime::{chrono_format, strptime_moment, Civil, DateTime};
use crate::types::datetime_methods::{
    datetime_call_done, datetime_init_done, datetime_params, no_fields,
};
use crate::types::datetime_ops::{components_done, held};
use crate::types::timedelta::TimeDelta;
use crate::types::timezone::TimeZone;
use crate::value::{EitherStr, Value};
use crate::value_attr::attr_done;
use crate::vm::VM;

verus! {

/// The value of a result that is one.
pub open spec fn value_of(r: RunResult<CallResult>) -> Option<Value> {
    match r {
        Ok(CallResult::Value(v)) => Some(v),
        _ => None,
    }
}

/// Whether positional arguments are these small integers.
pub open spec fn ints_given(args: ArgValues, ns: Seq<i32>) -> bool {
    &&& args.just(ns.len())
    &&& forall|i: int| 0 <= i < ns.len() ==> args.pos@[i] == Value::Int((#[trigger] ns[i]) as i64)
}

/// `date(year, month, day)` is that day where there is one, and an error otherwise.
pub proof fn lemma_date_made(
    before: VM,
    mid: VM,
    after: VM,
    args: ArgValues,
    year: i32,
    month: i32,
    day: i32,
    r: RunResult<Value>,
)
    requires
        ints_given(args, seq![year, month, day]),
        args.consumed(mid, after),
        date_from_args(before, mid, r, args, date_signature(), no_date_fields()),
    ensures
        ({
            let exists_day = 1 <= year <= 9999 && 1 <= month <= 12 && 1 <= day <= days_in_month(
                year as int,
                month as int,
            );
            &&& !exists_day ==> r is Err
            &&& exists_day && r is Ok ==> (date_at(after, r->Ok_0) matches Some(date) && date.year
                == year && date.month == month && date.day == day)
        }),
{
    let ns = seq![year, month, day];
    assert(ns[0] == year && ns[1] == month && ns[2] == day);
    lemma_positional_fit(args, date_signature(), date_params(), before.interns);
    lemma_consumed(args, mid, after);
    let values = if crate::arg_binding::first_bad_int(
        args,
        date_params(),
        no_date_fields(),
        before.interns,
        0,
    ) is None {
        choose|values: Seq<i32>|
            #[trigger] crate::arg_binding::ints_are(
                values,
                args,
                date_params(),
                no_date_fields(),
                before.interns,
            ) && crate::types::date_ops::date_value(
                before,
                mid,
                r,
                crate::types::date_ops::date_made(values),
            )
    } else {
        ns
    };
    reveal_with_fuel(crate::arg_binding::first_bad_int, 4);
    assert(values[0] == year && values[1] == month && values[2] == day);
    if r is Ok {
        let date = crate::types::date_ops::date_made(values)->Ok_0;
        lemma_object_given(before, mid, r, HeapData::Date(date));
        assert(after.data_of(r->Ok_0) == mid.data_of(r->Ok_0));
    }
}

/// A date gives back the year, month and day that it was made of.
pub proof fn lemma_date_attributes(
    before: VM,
    after: VM,
    v: Value,
    attr: EitherStr,
    r: RunResult<CallResult>,
)
    requires
        date_at(before, v) is Some,
        attr_done(before, after, r, v, attr),
    ensures
        attr.well_known() == Some(StaticStrings::Year) ==> value_of(r) == Some(
            Value::Int(date_at(before, v)->0.year as i64),
        ),
        attr.well_known() == Some(StaticStrings::Month) ==> value_of(r) == Some(
            Value::Int(date_at(before, v)->0.month as i64),
        ),
        attr.well_known() == Some(StaticStrings::Day) ==> value_of(r) == Some(
            Value::Int(date_at(before, v)->0.day as i64),
        ),
{
}

/// A datetime gives back the fields that it was made of.
pub proof fn lemma_datetime_attributes(
    before: VM,
    after: VM,
    v: Value,
    attr: EitherStr,
    r: RunResult<CallResult>,
)
    requires
        datetime_at(before, v) is Some,
        attr_done(before, after, r, v, attr),
    ensures
        ({
            let n = datetime_at(before, v)->0.naive;
            &&& attr.well_known() == Some(StaticStrings::Year) ==> value_of(r) == Some(
                Value::Int(n.year as i64),
            )
            &&& attr.well_known() == Some(StaticStrings::Month) ==> value_of(r) == Some(
                Value::Int(n.month as i64),
            )
            &&& attr.well_known() == Some(StaticStrings::Day) ==> value_of(r) == Some(
                Value::Int(n.day as i64),
            )
            &&& attr.well_known() == Some(StaticStrings::Hour) ==> value_of(r) == Some(
                Value::Int(n.hour as i64),
            )
            &&& attr.well_known() == Some(StaticStrings::Minute) ==> value_of(r) == Some(
                Value::Int(n.minute as i64),
            )
            &&& attr.well_known() == Some(StaticStrings::Second) ==> value_of(r) == Some(
                Value::Int(n.second as i64),
            )
            &&& attr.well_known() == Some(StaticStrings::Microsecond) ==> value_of(r) == Some(
                Value::Int((n.nano / 1_000) as i64),
            )
        }),
{
}

/// The weekday after a day follows that of the day: after six comes zero, which is a
/// Monday, as the first day of the calendar is. `isoweekday` counts from one.
pub proof fn lemma_weekdays(
    before: VM,
    after: VM,
    a: Date,
    b: Date,
    weekday: EitherStr,
    isoweekday: EitherStr,
    args: ArgValues,
    r: RunResult<CallResult>,
    v2: VM,
    s: RunResult<CallResult>,
    v3: VM,
    t: RunResult<CallResult>,
)
    requires
        args.just(0),
        b.day_number() == a.day_number() + 1,
        weekday.well_known() == Some(StaticStrings::Weekday),
        isoweekday.well_known() == Some(StaticStrings::Isoweekday),
        date_call_done(before, after, r, a, weekday, args),
        date_call_done(before, v2, s, b, weekday, args),
        date_call_done(before, v3, t, a, isoweekday, args),
    ensures
        value_of(r) matches Some(Value::Int(m)) && value_of(s) matches Some(Value::Int(n))
            && value_of(t) matches Some(Value::Int(k)) && 0 <= m <= 6 && n == (if m == 6 {
            0
        } else {
            m + 1
        }) && k == m + 1,
        a.year == 1 && a.month == 1 && a.day == 1 ==> value_of(r) == Some(Value::Int(0)),
{
    if a.year == 1 && a.month == 1 && a.day == 1 {
        assert(crate::calendar::days_before_month(1, 1) == 0);
        assert(a.day_number() == 1);
    }
}

/// A datetime falls on the weekday of its date.
pub proof fn lemma_datetime_weekdays(
    before: VM,
    after: VM,
    dt: DateTime,
    date: Date,
    attr: EitherStr,
    args: ArgValues,
    r: RunResult<CallResult>,
    v2: VM,
    s: RunResult<CallResult>,
)
    requires
        args.just(0),
        date.year == dt.naive.year && date.month == dt.naive.month && date.day == dt.naive.day,
        attr.well_known() == Some(StaticStrings::Weekday) || attr.well_known() == Some(
            StaticStrings::Isoweekday,
        ),
        datetime_call_done(before, after, r, dt, attr, args),
        date_call_done(before, v2, s, date, attr, args),
    ensures
        value_of(r) is Some && value_of(r) == value_of(s),
{
}

/// `isoformat` writes a date so that its year, month and day can be read from the
/// digits.
pub proof fn lemma_date_isoformat(
    before: VM,
    mid: VM,
    after: VM,
    date: Date,
    attr: EitherStr,
    args: ArgValues,
    r: RunResult<CallResult>,
)
    requires
        before.wf(),
        date.wf(),
        args.just(0),
        args.consumed(mid, after),
        attr.well_known() == Some(StaticStrings::Isoformat),
        date_call_done(before, mid, r, date, attr, args),
        r is Ok,
    ensures
        value_of(r) matches Some(v) && after.text_of(v) matches Some(t) && written_date(
            encode_utf8(t),
        ) == Some((date.year as int, date.month as int, date.day as int)),
{
    let text = iso_text(date.year as nat, date.month as nat, date.day as nat);
    let v = crate::types::file_ops::as_value(r)->0;
    lemma_held_string(before, mid, v, text);
    lemma_consumed(args, mid, after);
    lemma_written_date(date);
}

/// `isoformat` writes a datetime so that its fields and its offset can be read from the
/// text, where the offset is whole minutes.
pub proof fn lemma_datetime_isoformat(
    before: VM,
    mid: VM,
    after: VM,
    dt: DateTime,
    attr: EitherStr,
    args: ArgValues,
    r: RunResult<CallResult>,
)
    requires
        before.wf(),
        dt.wf(),
        crate::types::iso_text::written_in_full(dt),
        args.just(0),
        args.consumed(mid, after),
        attr.well_known() == Some(StaticStrings::Isoformat),
        datetime_call_done(before, mid, r, dt, attr, args),
        r is Ok,
    ensures
        value_of(r) matches Some(v) && after.text_of(v) matches Some(t)
            && crate::calendar::written_moment(encode_utf8(t)) == Some(
            (
                dt.naive.year as int,
                dt.naive.month as int,
                dt.naive.day as int,
                dt.naive.hour as int,
                dt.naive.minute as int,
                dt.naive.second as int,
                (dt.naive.nano / 1_000) as int,
                match dt.offset_seconds {
                    Some(offset) => Some(offset as int),
                    None => None,
                },
            ),
        ),
{
    let text = crate::types::datetime::moment_text(dt, 'T');
    lemma_held_string(before, mid, crate::types::file_ops::as_value(r)->0, text);
    lemma_consumed(args, mid, after);
    crate::types::iso_text::lemma_written_moment(dt, 'T');
}

/// `datetime.date` is the day of the wall clock.
pub proof fn lemma_datetime_date(
    before: VM,
    mid: VM,
    after: VM,
    dt: DateTime,
    attr: EitherStr,
    args: ArgValues,
    r: RunResult<CallResult>,
)
    requires
        args.just(0),
        args.consumed(mid, after),
        attr.well_known() == Some(StaticStrings::Date),
        datetime_call_done(before, mid, r, dt, attr, args),
        r is Ok,
    ensures
        value_of(r) matches Some(v) && date_at(after, v) matches Some(date) && date.year
            == dt.naive.year && date.month == dt.naive.month && date.day == dt.naive.day,
{
    let v = crate::types::file_ops::as_value(r)->0;
    let date = Date { year: dt.naive.year, month: dt.naive.month, day: dt.naive.day };
    lemma_object_given(before, mid, v, HeapData::Date(date));
    lemma_consumed(args, mid, after);
}

/// A datetime that was made of valid fields has them.
proof fn lemma_components(
    before: VM,
    after: VM,
    r: RunResult<Value>,
    c: Civil,
    zone: Option<TimeZone>,
    preferred: Option<HeapId>,
)
    requires
        crate::types::datetime_ops::new_from_components(before, after, r, c, zone, preferred),
        r is Ok,
    ensures
        after.ok(r->Ok_0),
        datetime_at(after, r->Ok_0) matches Some(dt) && dt.naive == c.moment()
            && dt.offset_seconds == (match zone {
            Some(tz) => Some(tz.offset_seconds),
            None => None,
        }),
{
    let (mid, made) = choose|mid: VM, made: RunResult<DateTime>|
        #[trigger] components_done(before, mid, made, c, zone, preferred) && held(
            mid,
            after,
            made,
            r,
        );
    lemma_object_given(mid, after, r, HeapData::DateTime(made->Ok_0));
}

/// `datetime(year, month, day, hour, minute, second, microsecond)` has these fields
/// and no timezone.
pub proof fn lemma_datetime_made(
    before: VM,
    mid: VM,
    after: VM,
    args: ArgValues,
    ns: Seq<i32>,
    r: RunResult<Value>,
)
    requires
        ns.len() == 7,
        ints_given(args, ns),
        args.consumed(mid, after),
        datetime_init_done(before, mid, r, args),
        r is Ok,
    ensures
        datetime_at(after, r->Ok_0) matches Some(dt) && dt.naive.year == ns[0] && dt.naive.month
            == ns[1] as u32 && dt.naive.day == ns[2] as u32 && dt.naive.hour == ns[3] as u32
            && dt.naive.minute == ns[4] as u32 && dt.naive.second == ns[5] as u32 && dt.naive.nano
            == (ns[6] * 1_000) as u32 && dt.offset_seconds is None,
{
    lemma_consumed(args, mid, after);
    let values = choose|values: Seq<i32>|
        #[trigger] crate::arg_binding::ints_are(
            values,
            args,
            datetime_params(),
            no_fields(),
            before.interns,
        ) && crate::types::datetime_ops::new_from_components(
            before,
            mid,
            r,
            crate::types::datetime_methods::civil_of(values),
            crate::types::datetime_ops::tz_of(
                before,
                crate::types::datetime_methods::tz_argument(before, args),
            ).0,
            crate::types::datetime_ops::tz_of(
                before,
                crate::types::datetime_methods::tz_argument(before, args),
            ).1,
        );
    assert forall|i: int| 0 <= i < 7 implies values[i] == ns[i] by {
        assert(args.pos@[i] == Value::Int(ns[i] as i64));
        assert(args.small_arg(i, datetime_params()[i], no_fields()[i] as int, before.interns)
            == Ok::<int, crate::args::Raised>(values[i] as int));
    }
    assert(crate::types::datetime_methods::tz_argument(before, args) == Value::PyNone);
    lemma_components(
        before,
        mid,
        r,
        crate::types::datetime_methods::civil_of(values),
        None,
        None,
    );
    assert(after.data_of(r->Ok_0) == mid.data_of(r->Ok_0));
}

/// A datetime with a timezone as its eighth argument has its offset.
pub proof fn lemma_aware_datetime_made(
    before: VM,
    mid: VM,
    after: VM,
    args: ArgValues,
    tz: TimeZone,
    r: RunResult<Value>,
)
    requires
        args.just(8),
        before.data_of(args.pos@[7]) == Some(HeapData::TimeZone(tz)),
        args.consumed(mid, after),
        datetime_init_done(before, mid, r, args),
        r is Ok,
    ensures
        datetime_at(after, r->Ok_0) matches Some(dt) && dt.offset_seconds == Some(
            tz.offset_seconds,
        ),
{
    lemma_consumed(args, mid, after);
    let given = crate::types::datetime_methods::tz_argument(before, args);
    assert(given == args.pos@[7]);
    let values = choose|values: Seq<i32>|
        #[trigger] crate::arg_binding::ints_are(
            values,
            args,
            datetime_params(),
            no_fields(),
            before.interns,
        ) && crate::types::datetime_ops::new_from_components(
            before,
            mid,
            r,
            crate::types::datetime_methods::civil_of(values),
            crate::types::datetime_ops::tz_of(before, given).0,
            crate::types::datetime_ops::tz_of(before, given).1,
        );
    lemma_components(
        before,
        mid,
        r,
        crate::types::datetime_methods::civil_of(values),
        Some(tz),
        crate::types::datetime_ops::tz_of(before, given).1,
    );
    assert(after.data_of(r->Ok_0) == mid.data_of(r->Ok_0));
}

/// `replace` without arguments gives a datetime with the same fields and offset.
pub proof fn lemma_replace_nothing(
    before: VM,
    mid: VM,
    after: VM,
    dt: DateTime,
    attr: EitherStr,
    args: ArgValues,
    r: RunResult<CallResult>,
)
    requires
        dt.wf(),
        !dt.naive.in_leap_second(),
        dt.naive.nano % 1_000 == 0,
        args.just(0),
        args.consumed(mid, after),
        attr.well_known() == Some(StaticStrings::Replace),
        datetime_call_done(before, mid, r, dt, attr, args),
        r is Ok,
    ensures
        value_of(r) matches Some(v) && datetime_at(after, v) matches Some(new) && new.naive
            == dt.naive && new.offset_seconds == dt.offset_seconds,
{
    lemma_consumed(args, mid, after);
    let v = crate::types::file_ops::as_value(r)->0;
    let params = crate::types::datetime_methods::replace_params();
    let fields = crate::types::datetime_methods::fields_of(dt);
    let values = choose|values: Seq<i32>|
        #[trigger] crate::arg_binding::ints_are(values, args, params, fields, before.interns)
            && crate::types::datetime_ops::new_from_components(
            before,
            mid,
            v,
            crate::types::datetime_methods::civil_of(values),
            crate::types::datetime_methods::replaced_zone(before, args, dt).0,
            crate::types::datetime_methods::replaced_zone(before, args, dt).1,
        );
    assert forall|i: int| 0 <= i < 7 implies values[i] == fields[i] by {
        assert(args.small_arg(i, params[i], fields[i] as int, before.interns) == Ok::<
            int,
            crate::args::Raised,
        >(values[i] as int));
    }
    assert(args.argument(7, "tzinfo"@, before.interns) is None);
    lemma_components(
        before,
        mid,
        v,
        crate::types::datetime_methods::civil_of(values),
        dt.zone(),
        dt.tzinfo_ref,
    );
    assert(crate::types::datetime_methods::civil_of(values).moment() == dt.naive);
}

/// `timestamp` counts the seconds and microseconds of moments: those of two datetimes
/// are as far apart as their moments, and that of the start of 1970 is zero.
pub proof fn lemma_timestamps(
    before: VM,
    a: DateTime,
    b: DateTime,
    attr: EitherStr,
    args: ArgValues,
    v1: VM,
    r: RunResult<CallResult>,
    v2: VM,
    s: RunResult<CallResult>,
)
    requires
        a.wf(),
        b.wf(),
        !a.naive.in_leap_second(),
        !b.naive.in_leap_second(),
        args.just(0),
        attr.well_known() == Some(StaticStrings::Timestamp),
        datetime_call_done(before, v1, r, a, attr, args),
        datetime_call_done(before, v2, s, b, attr, args),
    ensures
        counted(r) is Some,
        counted(s) is Some,
        counted(r)->0 - counted(s)->0 == (a.naive.epoch_micros() - a.offset() * 1_000_000) - (
        b.naive.epoch_micros() - b.offset() * 1_000_000),
        a.naive.year == 1970 && a.naive.month == 1 && a.naive.day == 1 && a.naive.hour == 0
            && a.naive.minute == 0 && a.naive.second == 0 && a.naive.nano < 1_000
            && a.offset_seconds is None ==> counted(r) == Some(0int),
{
    lemma_seconds_bound(a);
    lemma_seconds_bound(b);
    if a.naive.year == 1970 && a.naive.month == 1 && a.naive.day == 1 {
        assert(crate::calendar::days_before_month(1970, 1) == 0);
        assert(a.naive.day_number() == 719_163);
    }
}

/// The microseconds of a result that is seconds and millionths of them.
pub open spec fn counted(r: RunResult<CallResult>) -> Option<int> {
    match r {
        Ok(CallResult::Float(task)) => match (task.op, task.left, task.right) {
            (
                crate::float::FloatOp::AddMillionths,
                crate::float::FloatOperand::Int(seconds),
                crate::float::FloatOperand::Int(micros),
            ) => Some(seconds * 1_000_000 + micros),
            _ => None,
        },
        _ => None,
    }
}

proof fn lemma_seconds_bound(dt: DateTime)
    requires
        dt.wf(),
    ensures
        -100_000_000_000 <= crate::types::datetime_methods::epoch_seconds(dt) <= 1_000_000_000_000,
{
    crate::types::date::lemma_python_range(
        dt.naive.year as int,
        dt.naive.month as int,
        dt.naive.day as int,
    );
    crate::types::date::lemma_last_day();
}

/// Whether the fields of a replaced date are those given by name and otherwise its own.
proof fn lemma_small_field(args: ArgValues, vm: VM, name: Seq<char>, i: int, kept: int, n: int)
    requires
        args.small_arg(i, name, kept, vm.interns) == Ok::<int, crate::args::Raised>(n),
    ensures
        args.argument(i, name, vm.interns) is None ==> n == kept,
        args.argument(i, name, vm.interns) matches Some(Value::Int(k)) ==> n == k,
{
}

/// `replace` gives a date with the fields that are given and its own for the others.
pub proof fn lemma_date_replace(
    before: VM,
    mid: VM,
    after: VM,
    date: Date,
    attr: EitherStr,
    args: ArgValues,
    r: RunResult<CallResult>,
)
    requires
        date.wf(),
        args.consumed(mid, after),
        attr.well_known() == Some(StaticStrings::Replace),
        date_call_done(before, mid, r, date, attr, args),
        r is Ok,
    ensures
        value_of(r) matches Some(v) && date_at(after, v) matches Some(new) && {
            &&& match args.argument(0, "year"@, before.interns) {
                Some(Value::Int(n)) => new.year == n,
                Some(_) => true,
                None => new.year == date.year,
            }
            &&& match args.argument(1, "month"@, before.interns) {
                Some(Value::Int(n)) => new.month == n,
                Some(_) => true,
                None => new.month == date.month,
            }
            &&& match args.argument(2, "day"@, before.interns) {
                Some(Value::Int(n)) => new.day == n,
                Some(_) => true,
                None => new.day == date.day,
            }
        },
{
    lemma_consumed(args, mid, after);
    let v = crate::types::file_ops::as_value(r)->0;
    let kept = crate::types::date_ops::date_fields(date);
    let values = choose|values: Seq<i32>|
        #[trigger] crate::arg_binding::ints_are(values, args, date_params(), kept, before.interns)
            && crate::types::date_ops::date_value(
            before,
            mid,
            v,
            crate::types::date_ops::date_made(values),
        );
    assert(values.len() == 3);
    assert(args.small_arg(0, date_params()[0], kept[0] as int, before.interns) == Ok::<
        int,
        crate::args::Raised,
    >(values[0] as int));
    assert(args.small_arg(1, date_params()[1], kept[1] as int, before.interns) == Ok::<
        int,
        crate::args::Raised,
    >(values[1] as int));
    assert(args.small_arg(2, date_params()[2], kept[2] as int, before.interns) == Ok::<
        int,
        crate::args::Raised,
    >(values[2] as int));
    lemma_small_field(args, before, "year"@, 0, kept[0] as int, values[0] as int);
    lemma_small_field(args, before, "month"@, 1, kept[1] as int, values[1] as int);
    lemma_small_field(args, before, "day"@, 2, kept[2] as int, values[2] as int);
    let new = crate::types::date_ops::date_made(values)->Ok_0;
    lemma_object_given(before, mid, v, HeapData::Date(new));
}

/// A `strptime` format in which no `%` stands before an `f` is read as it is.
pub proof fn lemma_plain_format(rest: Seq<char>, done: Seq<char>)
    requires
        !crate::regex::has_pair(rest, '%', 'f'),
    ensures
        crate::types::datetime::chrono_format(rest, done) == done + rest,
    decreases rest.len(),
{
    if rest.len() == 0 {
        assert(done + rest =~= done);
    } else {
        let step = if rest[0] != '%' || rest.len() == 1 {
            1int
        } else {
            2
        };
        if step == 2 {
            assert(!crate::regex::pair_at(rest, '%', 'f', 1));
        }
        let tail = rest.skip(step);
        assert(!crate::regex::has_pair(tail, '%', 'f')) by {
            if crate::regex::has_pair(tail, '%', 'f') {
                let i = choose|i: int| #[trigger] crate::regex::pair_at(tail, '%', 'f', i);
                assert(crate::regex::pair_at(rest, '%', 'f', i + step));
            }
        }
        if rest[0] != '%' {
            lemma_plain_format(tail, done.push(rest[0]));
            assert(done.push(rest[0]) + tail =~= done + rest);
        } else if rest.len() == 1 {
            assert(done.push('%') =~= done + rest);
        } else {
            lemma_plain_format(tail, done + seq!['%', rest[1]]);
            assert(done + seq!['%', rest[1]] + tail =~= done + rest);
        }
    }
}

/// `timezone(offset)` has the offset of the duration in seconds.
pub proof fn lemma_timezone_made(
    before: VM,
    mid: VM,
    after: VM,
    args: ArgValues,
    delta: TimeDelta,
    r: RunResult<Value>,
)
    requires
        before.wf(),
        args.just(1),
        duration_at(before, args.pos@[0]) == Some(delta),
        args.consumed(mid, after),
        timezone_init_done(before, mid, r, args),
        r is Ok,
    ensures
        after.data_of(r->Ok_0) matches Some(HeapData::TimeZone(tz)) && tz.offset_seconds * 1_000_000
            == delta.total() && tz.name is None,
{
    lemma_positional_fit(
        args,
        crate::types::date_ops::timezone_signature(),
        seq!["offset"@, "name"@],
        before.interns,
    );
    lemma_consumed(args, mid, after);
    lemma_bounded(mid);
    let seconds = delta.days * 86_400 + delta.seconds;
    if seconds == 0 {
        assert(mid.data_of(r->Ok_0) == before.data_of(r->Ok_0));
    } else {
        let tz = choose|tz: TimeZone|
            #![trigger object_result(before, mid, r, HeapData::TimeZone(tz))]
            tz.offset_seconds == seconds && crate::types::timezone::name_text(tz.name) == None::<
                Seq<char>,
            > && object_result(before, mid, r, HeapData::TimeZone(tz));
        lemma_object_given(before, mid, r, HeapData::TimeZone(tz));
    }
    assert(after.data_of(r->Ok_0) == mid.data_of(r->Ok_0));
}

/// `tzinfo` of an aware datetime is the timezone object that it keeps, and of a naive
/// one `None`.
pub proof fn lemma_tzinfo(
    before: VM,
    after: VM,
    v: Value,
    attr: EitherStr,
    r: RunResult<CallResult>,
)
    requires
        datetime_at(before, v) is Some,
        attr.well_known() == Some(StaticStrings::Tzinfo),
        attr_done(before, after, r, v, attr),
    ensures
        datetime_at(before, v)->0.tzinfo_ref matches Some(id) ==> value_of(r) == Some(
            Value::Ref(id),
        ),
        datetime_at(before, v)->0.tzinfo_ref is None && datetime_at(
            before,
            v,
        )->0.offset_seconds is None ==> value_of(r) == Some(Value::PyNone),
{
}

/// A timezone that is made with a name has it.
pub proof fn lemma_named_timezone_made(
    before: VM,
    mid: VM,
    after: VM,
    args: ArgValues,
    delta: TimeDelta,
    name: Seq<char>,
    r: RunResult<Value>,
)
    requires
        args.just(2),
        duration_at(before, args.pos@[0]) == Some(delta),
        before.text_of(args.pos@[1]) == Some(name),
        args.consumed(mid, after),
        timezone_init_done(before, mid, r, args),
        r is Ok,
    ensures
        after.data_of(r->Ok_0) matches Some(HeapData::TimeZone(tz)) && tz.offset_seconds * 1_000_000
            == delta.total() && tz.name is Some && tz.name->0@ == name,
{
    lemma_positional_fit(
        args,
        crate::types::date_ops::timezone_signature(),
        seq!["offset"@, "name"@],
        before.interns,
    );
    lemma_consumed(args, mid, after);
    let seconds = delta.days * 86_400 + delta.seconds;
    let tz = choose|tz: TimeZone|
        #![trigger object_result(before, mid, r, HeapData::TimeZone(tz))]
        tz.offset_seconds == seconds && crate::types::timezone::name_text(tz.name) == Some(name)
            && object_result(before, mid, r, HeapData::TimeZone(tz));
    lemma_object_given(before, mid, r, HeapData::TimeZone(tz));
    assert(after.data_of(r->Ok_0) == mid.data_of(r->Ok_0));
}

/// `strptime` gives the naive datetime that was read from the text; where nothing was
/// read or the year is not one of Python's, it is an error.
pub proof fn lemma_strptime(
    before: VM,
    mid: VM,
    after: VM,
    args: ArgValues,
    text: Seq<char>,
    format: Seq<char>,
    r: RunResult<Value>,
)
    requires
        args.just(2),
        before.text_of(args.pos@[0]) == Some(text),
        before.text_of(args.pos@[1]) == Some(format),
        args.consumed(mid, after),
        crate::types::datetime_ops::made_value(
            before,
            mid,
            r,
            crate::types::datetime_ops::strptime_args(before, args),
        ),
    ensures
        strptime_moment(text, format) is None ==> r is Err,
        strptime_moment(text, format) matches Some(naive) ==> {
            &&& !(1 <= naive.year <= 9999) ==> r is Err
            &&& r is Ok ==> (datetime_at(after, r->Ok_0) matches Some(dt) && dt.naive == naive
                && dt.offset_seconds is None)
        },
{
    lemma_consumed(args, mid, after);
    if r is Ok {
        let dt = crate::types::datetime_ops::strptime_args(before, args)->Ok_0;
        lemma_object_given(before, mid, r, HeapData::DateTime(dt));
        assert(after.data_of(r->Ok_0) == mid.data_of(r->Ok_0));
    }
}

/// `date.fromisoformat` gives the date of the year, month and day that are read from the
/// text; where none are read, or there is no such day, it is an error.
pub proof fn lemma_date_fromisoformat(
    before: VM,
    mid: VM,
    after: VM,
    args: ArgValues,
    text: Seq<char>,
    r: RunResult<Value>,
)
    requires
        args.just(1),
        before.text_of(args.pos@[0]) == Some(text),
        args.consumed(mid, after),
        date_fromisoformat_done(before, mid, r, args),
    ensures
        match iso_date_fields(encode_utf8(text)) {
            None => r is Err,
            Some((year, month, day)) => {
                &&& !(1 <= year <= 9999 && 1 <= month <= 12 && 1 <= day <= days_in_month(
                    year as int,
                    month as int,
                )) ==> r is Err
                &&& r is Ok ==> (date_at(after, r->Ok_0) matches Some(date) && date.year == year
                    && date.month == month && date.day == day)
            },
        },
{
    lemma_consumed(args, mid, after);
    if r is Ok {
        let (year, month, day) = iso_date_fields(encode_utf8(text))->0;
        let date = Date { year: year as i32, month: month as u32, day: day as u32 };
        lemma_object_given(before, mid, r, HeapData::Date(date));
        assert(after.data_of(r->Ok_0) == mid.data_of(r->Ok_0));
    }
}

/// What `strptime` reads: the moment, or, where the format is that of a date alone, the
/// midnight with which that date begins.
pub proof fn lemma_strptime_reads(text: Seq<char>, format: Seq<char>)
    ensures
        ({
            let engine = chrono_format(format, Seq::empty());
            match (parsed_moment(text, engine), parsed_date(text, engine)) {
                (Some(naive), _) => strptime_moment(text, format) == Some(naive),
                (None, Some((year, month, day))) => strptime_moment(text, format) matches Some(m)
                    && m.year == year && m.month == month && m.day == day && m.hour == 0
                    && m.minute == 0 && m.second == 0 && m.nano == 0,
                (None, None) => strptime_moment(text, format) is None,
            }
        }),
{
}

/// Whether a text has no percent sign.
pub open spec fn unmarked(s: Seq<char>) -> bool {
    forall|i: int| 0 <= i < s.len() ==> #[trigger] s[i] != '%'
}

proof fn lemma_unmarked_read(a: Seq<char>, rest: Seq<char>, done: Seq<char>)
    requires
        unmarked(a),
    ensures
        chrono_format(a + rest, done) == chrono_format(rest, done + a),
    decreases a.len(),
{
    if a.len() == 0 {
        assert(a + rest =~= rest);
        assert(done + a =~= done);
    } else {
        let tail = a.skip(1);
        assert forall|i: int| 0 <= i < tail.len() implies #[trigger] tail[i] != '%' by {
            assert(tail[i] == a[i + 1]);
        }
        lemma_unmarked_read(tail, rest, done.push(a[0]));
        assert((a + rest).skip(1) =~= tail + rest);
        assert(done.push(a[0]) + tail =~= done + a);
    }
}

/// How a format of `strptime` is handed on, piece by piece: a text without marks and
/// every mark but that of microseconds stay as they are; the mark of microseconds asks
/// for six digits, or takes a full stop before it along.
pub proof fn lemma_format_read(a: Seq<char>, mark: char, b: Seq<char>)
    requires
        unmarked(a),
        unmarked(b),
        mark != 'f',
    ensures
        chrono_format(a, Seq::empty()) == a,
        chrono_format(a + seq!['%', mark] + b, Seq::empty()) == a + seq!['%', mark] + b,
        a.len() == 0 || a.last() != '.' ==> chrono_format(a + seq!['%', 'f'] + b, Seq::empty()) == a
            + seq!['%', '6', 'f'] + b,
        a.len() > 0 && a.last() == '.' ==> chrono_format(a + seq!['%', 'f'] + b, Seq::empty())
            == a.drop_last() + seq!['%', '.', 'f'] + b,
{
    let none = Seq::<char>::empty();
    lemma_unmarked_read(a, none, none);
    assert(a + none =~= a);
    assert(none + a =~= a);
    let other = seq!['%', mark] + b;
    let micros = seq!['%', 'f'] + b;
    assert(a + seq!['%', mark] + b =~= a + other);
    assert(a + seq!['%', 'f'] + b =~= a + micros);
    lemma_unmarked_read(a, other, none);
    lemma_unmarked_read(a, micros, none);
    assert(other.skip(2) =~= b);
    assert(micros.skip(2) =~= b);
    assert(b + none =~= b);
    lemma_unmarked_read(b, none, a + seq!['%', mark]);
    lemma_unmarked_read(b, none, a + seq!['%', '6', 'f']);
    if a.len() > 0 {
        lemma_unmarked_read(b, none, a.drop_last() + seq!['%', '.', 'f']);
    }
}

} // verus!
