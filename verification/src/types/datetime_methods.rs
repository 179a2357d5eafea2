//! Constructors, methods and attributes of dates, datetimes and timezones.

use vstd::prelude::*;

use crate::arg_binding::{first_bad_int, get_small_args, ints_are, Signature};
use crate::args::{no_args_error, param_texts, raises, ArgValues, Raised};
use crate::calendar::moment_format;
use crate::call::CallResult;
use crate::decimal::{int_digits, push_int};
use crate::exception::{ExcType, RunError, RunResult};
use crate::float::{FloatOp, FloatOperand, FloatTask};
use crate::heap::{id_ok, with_ref, HeapData, HeapId, UTC_TIMEZONE};
use crate::intern::StaticStrings;
use crate::outcome::{allocate_object, object_result};
use crate::text::{chars_of, push_str, string_of};
use crate::types::date::{isoformat, isoweekday, weekday, Date};
use crate::types::datetime::{
    format_datetime_strftime, format_isoformat, moment_text, timezone_info, utc_micros, Civil,
    DateTime,
};
use crate::types::datetime_ops::{
    components_done, from_components, hold, new_from_components, tz_error, tz_of,
    tzinfo_from_value,
};
use crate::types::file_ops::{as_value, with_entries};
use crate::types::py_type::Type;
use crate::types::str::{
    allocate_string, allocate_string_no_interning, held_string, string_result,
};
use crate::types::str_args::lemma_argument_ok;
use crate::types::str_methods::{attribute_error, no_attribute};
use crate::types::timezone::TimeZone;
use crate::value::{EitherStr, Value};
use crate::vm::VM;

verus! {

/// The names of the integer parameters of `datetime`.
pub open spec fn datetime_params() -> Seq<Seq<char>> {
    seq![
        "year"@,
        "month"@,
        "day"@,
        "hour"@,
        "minute"@,
        "second"@,
        "microsecond"@,
        "tzinfo"@,
        "fold"@,
    ]
}

/// What stands for integer arguments of `datetime` that are not given.
pub open spec fn no_fields() -> Seq<i32> {
    Seq::new(7, |i: int| 0i32)
}

/// How `datetime` takes its arguments: three are required and `fold` is given
/// by name.
pub open spec fn datetime_signature() -> Signature {
    Signature { label: "function", subject: "this function", required: 3, max_positional: 8 }
}

/// Civil fields from integers.
pub open spec fn civil_of(values: Seq<i32>) -> Civil {
    Civil {
        year: values[0],
        month: values[1],
        day: values[2],
        hour: values[3],
        minute: values[4],
        second: values[5],
        microsecond: values[6],
    }
}

/// Civil fields from integers.
fn civil_from(values: &Vec<i32>) -> (r: Civil)
    requires
        values@.len() == 7,
    ensures
        r == civil_of(values@),
{
    Civil {
        year: values[0],
        month: values[1],
        day: values[2],
        hour: values[3],
        minute: values[4],
        second: values[5],
        microsecond: values[6],
    }
}

/// The error for a fold that is neither 0 nor 1.
pub open spec fn fold_error(fold: int) -> Raised {
    (ExcType::ValueError, "fold must be either 0 or 1, not "@ + int_digits(fold))
}

/// The timezone argument of `datetime`.
pub open spec fn tz_argument(vm: VM, args: ArgValues) -> Value {
    match args.argument(7, "tzinfo"@, vm.interns) {
        Some(v) => v,
        None => Value::PyNone,
    }
}

/// The error for the arguments of `datetime`, if any, before the fields are
/// looked at together.
pub open spec fn datetime_args_error(vm: VM, args: ArgValues) -> Option<Raised> {
    let params = datetime_params();
    let fold = args.small_arg(8, "fold"@, 0, vm.interns);
    if let Some(e) = args.signature_error(datetime_signature(), params, vm.interns) {
        Some(e)
    } else if let Some(e) = first_bad_int(args, params, no_fields(), vm.interns, 0) {
        Some(e)
    } else if let Err(e) = fold {
        Some(e)
    } else if fold->Ok_0 != 0 && fold->Ok_0 != 1 {
        Some(fold_error(fold->Ok_0))
    } else {
        tz_error(vm, tz_argument(vm, args))
    }
}

/// What `datetime(...)` comes to.
pub open spec fn datetime_init_done(
    before: VM,
    after: VM,
    r: RunResult<Value>,
    args: ArgValues,
) -> bool {
    match datetime_args_error(before, args) {
        Some(e) => raises(r, e) && after == before,
        None => exists|values: Seq<i32>|
            #[trigger] ints_are(
                values,
                args,
                datetime_params(),
                no_fields(),
                before.interns,
            ) && new_from_components(
                before,
                after,
                r,
                civil_of(values),
                tz_of(before, tz_argument(before, args)).0,
                tz_of(before, tz_argument(before, args)).1,
            ),
    }
}

/// `datetime(year, month, day, hour=0, minute=0, second=0, microsecond=0,
/// tzinfo=None, *, fold=0)`.
pub fn init(args: ArgValues, vm: &mut VM) -> (r: RunResult<Value>)
    requires
        old(vm).wf(),
        args.ok(old(vm).entries().len(), old(vm).interns),
    ensures
        final(vm).wf(),
        r matches Ok(v) ==> final(vm).ok(v),
        exists|mid: VM| #[trigger]
            args.consumed(mid, *final(vm)) && datetime_init_done(*old(vm), mid, r, args),
{
    let ghost given = args;
    let r = init_from(&args, vm);
    let ghost mid = *vm;
    args.release(vm);
    assert(given.consumed(mid, *vm));
    r
}

/// The same without taking the arguments.
fn init_from(args: &ArgValues, vm: &mut VM) -> (r: RunResult<Value>)
    requires
        old(vm).wf(),
        args.ok(old(vm).entries().len(), old(vm).interns),
    ensures
        final(vm).wf(),
        r matches Ok(v) ==> final(vm).ok(v),
        datetime_init_done(*old(vm), *final(vm), r, *args),
{
    let params: [&'static str; 9] = [
        "year",
        "month",
        "day",
        "hour",
        "minute",
        "second",
        "microsecond",
        "tzinfo",
        "fold",
    ];
    let signature = Signature {
        label: "function",
        subject: "this function",
        required: 3,
        max_positional: 8,
    };
    let zeros: [i32; 7] = [0, 0, 0, 0, 0, 0, 0];
    proof {
        assert(param_texts(params@) =~= datetime_params());
        assert(zeros@ =~= no_fields());
        lemma_argument_ok(*args, 7, "tzinfo"@, vm.entries().len(), vm.interns);
    }
    match args.check_signature(&signature, &params, &vm.interns) {
        Ok(_) => {},
        Err(e) => {
            return Err(e);
        },
    }
    let values = match get_small_args(args, &params, &zeros, &vm.interns) {
        Ok(values) => values,
        Err(e) => {
            return Err(e);
        },
    };
    let fold: i32 = match args.get_small_arg(8, "fold", 0, &vm.interns) {
        Ok(fold) => fold,
        Err(e) => {
            return Err(e);
        },
    };
    if fold != 0 && fold != 1 {
        let mut out = chars_of("fold must be either 0 or 1, not ");
        push_int(&mut out, fold as i64);
        return Err(RunError::new_msg(ExcType::ValueError, string_of(&out)));
    }
    let tzinfo: Value = match args.get_argument(7, "tzinfo", &vm.interns) {
        Some(v) => v.alias(),
        None => Value::PyNone,
    };
    let (tz, tz_ref) = match tzinfo_from_value(&tzinfo, vm) {
        Ok(found) => found,
        Err(e) => {
            return Err(e);
        },
    };
    let made = from_components(civil_from(&values), tz, tz_ref, vm);
    let ghost mid = *vm;
    proof {
        assert(ints_are(
            values@,
            *args,
            datetime_params(),
            no_fields(),
            old(vm).interns,
        ));
        assert(components_done(*old(vm), mid, made, civil_of(values@), tz, tz_ref));
    }
    hold(made, vm)
}

/// The names of the parameters of `datetime.replace`.
pub open spec fn replace_params() -> Seq<Seq<char>> {
    seq![
        "year"@,
        "month"@,
        "day"@,
        "hour"@,
        "minute"@,
        "second"@,
        "microsecond"@,
        "tzinfo"@,
    ]
}

/// How `replace` takes its arguments: all by name.
pub open spec fn replace_signature() -> Signature {
    Signature { label: "replace()", subject: "replace()", required: 0, max_positional: 0 }
}

/// The fields of a datetime as integers.
pub open spec fn fields_of(dt: DateTime) -> Seq<i32> {
    let n = dt.naive;
    seq![
        n.year,
        n.month as i32,
        n.day as i32,
        n.hour as i32,
        n.minute as i32,
        n.second as i32,
        (n.nano / 1_000) as i32,
    ]
}

/// The timezone of a replaced datetime: its own unless another is given.
pub open spec fn replaced_zone(vm: VM, args: ArgValues, dt: DateTime) -> (
    Option<TimeZone>,
    Option<HeapId>,
) {
    match args.argument(7, "tzinfo"@, vm.interns) {
        None => (dt.zone(), dt.tzinfo_ref),
        Some(v) => tz_of(vm, v),
    }
}

/// The error for the arguments of `datetime.replace`, if any.
pub open spec fn replace_args_error(vm: VM, args: ArgValues, dt: DateTime) -> Option<Raised> {
    if let Some(e) = args.signature_error(replace_signature(), replace_params(), vm.interns) {
        Some(e)
    } else if let Some(e) = first_bad_int(args, replace_params(), fields_of(dt), vm.interns, 0) {
        Some(e)
    } else {
        match args.argument(7, "tzinfo"@, vm.interns) {
            None => None,
            Some(v) => tz_error(vm, v),
        }
    }
}

/// What `dt.replace(...)` comes to.
pub open spec fn replace_done(
    before: VM,
    after: VM,
    r: RunResult<Value>,
    dt: DateTime,
    args: ArgValues,
) -> bool {
    match replace_args_error(before, args, dt) {
        Some(e) => raises(r, e) && after == before,
        None => exists|values: Seq<i32>|
            #[trigger] ints_are(values, args, replace_params(), fields_of(dt), before.interns)
                && new_from_components(
                before,
                after,
                r,
                civil_of(values),
                replaced_zone(before, args, dt).0,
                replaced_zone(before, args, dt).1,
            ),
    }
}

/// `dt.replace(...)`: the given fields, the others kept.
fn extract_datetime_replace_kwargs(args: &ArgValues, dt: &DateTime, vm: &mut VM) -> (r: RunResult<
    Value,
>)
    requires
        old(vm).wf(),
        dt.wf(),
        id_ok(dt.tzinfo_ref, old(vm).entries().len()),
        args.ok(old(vm).entries().len(), old(vm).interns),
    ensures
        final(vm).wf(),
        r matches Ok(v) ==> final(vm).ok(v),
        replace_done(*old(vm), *final(vm), r, *dt, *args),
{
    let params: [&'static str; 8] = [
        "year",
        "month",
        "day",
        "hour",
        "minute",
        "second",
        "microsecond",
        "tzinfo",
    ];
    let signature = Signature {
        label: "replace()",
        subject: "replace()",
        required: 0,
        max_positional: 0,
    };
    let n = dt.naive;
    let fields: [i32; 7] = [
        n.year,
        n.month as i32,
        n.day as i32,
        n.hour as i32,
        n.minute as i32,
        n.second as i32,
        (n.nano / 1_000) as i32,
    ];
    proof {
        assert(param_texts(params@) =~= replace_params());
        assert(fields@ =~= fields_of(*dt));
        lemma_argument_ok(*args, 7, "tzinfo"@, vm.entries().len(), vm.interns);
    }
    match args.check_signature(&signature, &params, &vm.interns) {
        Ok(_) => {},
        Err(e) => {
            return Err(e);
        },
    }
    let values = match get_small_args(args, &params, &fields, &vm.interns) {
        Ok(values) => values,
        Err(e) => {
            return Err(e);
        },
    };
    let (tz, tz_ref) = match args.get_argument(7, "tzinfo", &vm.interns) {
        None => (timezone_info(dt), dt.tzinfo_ref),
        Some(v) => match tzinfo_from_value(v, vm) {
            Ok(found) => found,
            Err(e) => {
                return Err(e);
            },
        },
    };
    let made = from_components(civil_from(&values), tz, tz_ref, vm);
    let ghost mid = *vm;
    proof {
        assert(ints_are(values@, *args, replace_params(), fields_of(*dt), old(vm).interns));
        assert(components_done(*old(vm), mid, made, civil_of(values@), tz, tz_ref));
    }
    hold(made, vm)
}

/// How `strftime` takes its argument.
pub open spec fn strftime_signature() -> Signature {
    Signature { label: "strftime()", subject: "strftime()", required: 1, max_positional: 1 }
}

/// The format argument of `strftime`, or the error.
pub open spec fn strftime_arg(vm: VM, args: ArgValues) -> Result<Seq<char>, Raised> {
    match args.signature_error(strftime_signature(), seq!["format"@], vm.interns) {
        Some(e) => Err(e),
        None => {
            let v = args.argument(0, "format"@, vm.interns)->0;
            match vm.text_of(v) {
                Some(t) => Ok(t),
                None => Err(
                    (
                        ExcType::TypeError,
                        "strftime() argument 1 must be str, not "@ + vm.type_of(v).arg_text(),
                    ),
                ),
            }
        },
    }
}

/// Parses the format argument of `strftime`.
pub(crate) fn parse_strftime_arg(args: &ArgValues, vm: &VM) -> (r: RunResult<String>)
    requires
        args.ok(vm.entries().len(), vm.interns),
    ensures
        match strftime_arg(*vm, *args) {
            Ok(t) => r matches Ok(s) && s@ == t,
            Err(e) => raises(r, e),
        },
{
    let params: [&'static str; 1] = ["format"];
    let signature = Signature {
        label: "strftime()",
        subject: "strftime()",
        required: 1,
        max_positional: 1,
    };
    proof {
        assert(param_texts(params@) =~= seq!["format"@]);
        lemma_argument_ok(*args, 0, "format"@, vm.entries().len(), vm.interns);
        reveal_with_fuel(ArgValues::first_missing, 2);
    }
    match args.check_signature(&signature, &params, &vm.interns) {
        Ok(_) => {},
        Err(e) => {
            return Err(e);
        },
    }
    match args.get_argument(0, "format", &vm.interns) {
        None => Err(RunError::new(ExcType::TypeError, "strftime() needs a format")),
        Some(v) => match v.text(vm) {
            Some(t) => Ok(t.to_owned()),
            None => {
                let mut out = chars_of("strftime() argument 1 must be str, not ");
                push_str(&mut out, v.py_type(vm).cpython_arg_name());
                Err(RunError::new_msg(ExcType::TypeError, string_of(&out)))
            },
        },
    }
}

/// The error for a directive that cannot be rendered.
pub open spec fn format_error() -> Raised {
    (ExcType::ValueError, "Invalid format string"@)
}

/// What formatting comes to, given what was written.
pub open spec fn formatted_done(
    before: VM,
    after: VM,
    r: RunResult<CallResult>,
    written: Option<Seq<char>>,
) -> bool {
    match written {
        None => raises(r, format_error()) && after == before,
        Some(text) => as_value(r) matches Some(v) && string_result(before, after, v, text),
    }
}

/// The result of a method without arguments: an error for any argument, or a value.
pub open spec fn plain_done(
    before: VM,
    after: VM,
    r: RunResult<CallResult>,
    name: Seq<char>,
    args: ArgValues,
    v: Value,
) -> bool {
    after == before && if args.total() > 0 {
        raises(r, no_args_error(name, args.total()))
    } else {
        r == Ok::<CallResult, RunError>(CallResult::Value(v))
    }
}

/// The whole seconds since the Unix epoch in UTC.
pub open spec fn epoch_seconds(dt: DateTime) -> int {
    dt.naive.seconds() - 719_163 * 86_400 - dt.offset()
}

/// What a method of a datetime comes to.
pub open spec fn datetime_call_done(
    before: VM,
    after: VM,
    r: RunResult<CallResult>,
    dt: DateTime,
    attr: EitherStr,
    args: ArgValues,
) -> bool {
    match attr.well_known() {
        Some(StaticStrings::Isoformat) => if args.total() > 0 {
            raises(r, no_args_error("datetime.isoformat"@, args.total())) && after == before
        } else {
            as_value(r) matches Some(v) && held_string(before, after, v, moment_text(dt, 'T'))
        },
        Some(StaticStrings::Strftime) => match strftime_arg(before, args) {
            Err(e) => raises(r, e) && after == before,
            Ok(format) => formatted_done(before, after, r, moment_format(dt.naive, format)),
        },
        Some(StaticStrings::Replace) => as_value(r) matches Some(v) && replace_done(
            before,
            after,
            v,
            dt,
            args,
        ),
        Some(StaticStrings::Weekday) => plain_done(
            before,
            after,
            r,
            "datetime.weekday"@,
            args,
            Value::Int(((dt.naive.day_number() - 1) % 7) as i64),
        ),
        Some(StaticStrings::Isoweekday) => plain_done(
            before,
            after,
            r,
            "datetime.isoweekday"@,
            args,
            Value::Int(((dt.naive.day_number() - 1) % 7 + 1) as i64),
        ),
        Some(StaticStrings::Date) => if args.total() > 0 {
            raises(r, no_args_error("datetime.date"@, args.total())) && after == before
        } else {
            as_value(r) matches Some(v) && object_result(
                before,
                after,
                v,
                HeapData::Date(
                    Date { year: dt.naive.year, month: dt.naive.month, day: dt.naive.day },
                ),
            )
        },
        Some(StaticStrings::Timestamp) => after == before && if args.total() > 0 {
            raises(r, no_args_error("datetime.timestamp"@, args.total()))
        } else {
            r == Ok::<CallResult, RunError>(
                CallResult::Float(
                    FloatTask {
                        op: FloatOp::AddMillionths,
                        left: FloatOperand::Int(epoch_seconds(dt) as i64),
                        right: FloatOperand::Int((dt.naive.nano / 1_000) as i64),
                    },
                ),
            )
        },
        _ => raises(r, no_attribute(Type::DateTime.text(), attr.text(before.interns))) && after
            == before,
    }
}

pub(crate) fn returned(r: RunResult<Value>) -> (out: RunResult<CallResult>)
    ensures
        as_value(out) == Some(r),
{
    match r {
        Ok(v) => Ok(CallResult::Value(v)),
        Err(e) => Err(e),
    }
}

/// Calls a method of a datetime.
pub fn py_call_attr(dt: &DateTime, vm: &mut VM, attr: &EitherStr, args: ArgValues) -> (r: RunResult<
    CallResult,
>)
    requires
        old(vm).wf(),
        dt.wf(),
        id_ok(dt.tzinfo_ref, old(vm).entries().len()),
        attr.ok(old(vm).interns),
        args.ok(old(vm).entries().len(), old(vm).interns),
    ensures
        final(vm).wf(),
        r matches Ok(CallResult::Value(v)) ==> final(vm).ok(v),
        exists|mid: VM| #[trigger]
            args.consumed(mid, *final(vm)) && datetime_call_done(
                *old(vm),
                mid,
                r,
                *dt,
                *attr,
                args,
            ),
{
    let ghost given = args;
    let r = call_attr(dt, vm, attr, &args);
    let ghost mid = *vm;
    args.release(vm);
    assert(given.consumed(mid, *vm));
    r
}

/// The same without taking the arguments.
fn call_attr(dt: &DateTime, vm: &mut VM, attr: &EitherStr, args: &ArgValues) -> (r: RunResult<
    CallResult,
>)
    requires
        old(vm).wf(),
        dt.wf(),
        id_ok(dt.tzinfo_ref, old(vm).entries().len()),
        attr.ok(old(vm).interns),
        args.ok(old(vm).entries().len(), old(vm).interns),
    ensures
        final(vm).wf(),
        r matches Ok(CallResult::Value(v)) ==> final(vm).ok(v),
        datetime_call_done(*old(vm), *final(vm), r, *dt, *attr, *args),
{
    match attr.static_string() {
        Some(StaticStrings::Isoformat) => match args.check_zero_args("datetime.isoformat") {
            Err(e) => Err(e),
            Ok(_) => returned(allocate_string_no_interning(format_isoformat(dt, 'T'), vm)),
        },
        Some(StaticStrings::Strftime) => match parse_strftime_arg(args, vm) {
            Err(e) => Err(e),
            Ok(format) => match format_datetime_strftime(dt, format.as_str()) {
                Err(e) => Err(e),
                Ok(text) => returned(allocate_string(text, vm)),
            },
        },
        Some(StaticStrings::Replace) => returned(extract_datetime_replace_kwargs(args, dt, vm)),
        Some(StaticStrings::Weekday) => match args.check_zero_args("datetime.weekday") {
            Err(e) => Err(e),
            Ok(_) => Ok(CallResult::Value(Value::Int(weekday(dt.date())))),
        },
        Some(StaticStrings::Isoweekday) => match args.check_zero_args("datetime.isoweekday") {
            Err(e) => Err(e),
            Ok(_) => Ok(CallResult::Value(Value::Int(isoweekday(dt.date())))),
        },
        Some(StaticStrings::Date) => match args.check_zero_args("datetime.date") {
            Err(e) => Err(e),
            Ok(_) => returned(allocate_object(HeapData::Date(dt.date()), vm)),
        },
        Some(StaticStrings::Timestamp) => match args.check_zero_args("datetime.timestamp") {
            Err(e) => Err(e),
            Ok(_) => {
                let (seconds, micros) = timestamp_parts(dt);
                Ok(
                    CallResult::Float(
                        FloatTask {
                            op: FloatOp::AddMillionths,
                            left: FloatOperand::Int(seconds),
                            right: FloatOperand::Int(micros),
                        },
                    ),
                )
            },
        },
        _ => Err(attribute_error(Type::DateTime.as_str(), attr.as_str(&vm.interns))),
    }
}

/// The whole seconds and the microseconds of a POSIX timestamp; the wall clock
/// of a naive datetime counts as UTC.
pub fn timestamp_parts(dt: &DateTime) -> (r: (i64, i64))
    requires
        dt.wf(),
    ensures
        r.0 == epoch_seconds(*dt),
        r.1 == dt.naive.nano / 1_000,
{
    let micros: i64 = (dt.naive.nano / 1_000) as i64;
    let total: i64 = match utc_micros(dt) {
        Some(total) => total,
        None => 0,
    };
    let whole: i128 = total as i128 - micros as i128;
    let seconds: i128 = crate::types::timedelta::floor_div_pos(whole, 1_000_000);
    (seconds as i64, micros)
}

/// What an attribute of a datetime comes to; nothing for one that it has not.
pub open spec fn datetime_attr_done(
    before: VM,
    after: VM,
    r: RunResult<Option<CallResult>>,
    dt: DateTime,
    attr: EitherStr,
) -> bool {
    let n = dt.naive;
    let number = match attr.well_known() {
        Some(StaticStrings::Year) => Some(n.year as int),
        Some(StaticStrings::Month) => Some(n.month as int),
        Some(StaticStrings::Day) => Some(n.day as int),
        Some(StaticStrings::Hour) => Some(n.hour as int),
        Some(StaticStrings::Minute) => Some(n.minute as int),
        Some(StaticStrings::Second) => Some(n.second as int),
        Some(StaticStrings::Microsecond) => Some((n.nano / 1_000) as int),
        _ => None,
    };
    match number {
        Some(i) => after == before && r == Ok::<Option<CallResult>, RunError>(
            Some(CallResult::Value(Value::Int(i as i64))),
        ),
        None => if attr.well_known() == Some(StaticStrings::Tzinfo) {
            tzinfo_done(before, after, r, dt)
        } else {
            after == before && r == Ok::<Option<CallResult>, RunError>(None)
        },
    }
}

/// What `dt.tzinfo` comes to: the retained timezone object, or one for the
/// offset where none is retained, and `None` for a naive datetime.
pub open spec fn tzinfo_done(
    before: VM,
    after: VM,
    r: RunResult<Option<CallResult>>,
    dt: DateTime,
) -> bool {
    match dt.tzinfo_ref {
        Some(id) => r == Ok::<Option<CallResult>, RunError>(
            Some(CallResult::Value(Value::Ref(id))),
        ) && with_entries(before, after, with_ref(before.entries(), Value::Ref(id))),
        None => match dt.zone() {
            None => r == Ok::<Option<CallResult>, RunError>(
                Some(CallResult::Value(Value::PyNone)),
            ) && after == before,
            Some(zone) => if zone.offset_seconds == 0 && zone.name is None {
                let utc = Value::Ref(HeapId(UTC_TIMEZONE));
                r == Ok::<Option<CallResult>, RunError>(Some(CallResult::Value(utc)))
                    && with_entries(before, after, with_ref(before.entries(), utc))
            } else {
                exists|v: RunResult<Value>|
                    #[trigger] object_result(before, after, v, HeapData::TimeZone(zone)) && (
                    match v {
                        Ok(v) => r == Ok::<Option<CallResult>, RunError>(
                            Some(CallResult::Value(v)),
                        ),
                        Err(e) => r == Err::<Option<CallResult>, RunError>(e),
                    })
            },
        },
    }
}

/// An attribute of a datetime.
pub fn py_getattr(dt: &DateTime, attr: &EitherStr, vm: &mut VM) -> (r: RunResult<Option<CallResult>>)
    requires
        old(vm).wf(),
        dt.wf(),
        id_ok(dt.tzinfo_ref, old(vm).entries().len()),
    ensures
        final(vm).wf(),
        r matches Ok(Some(CallResult::Value(v))) ==> final(vm).ok(v),
        datetime_attr_done(*old(vm), *final(vm), r, *dt, *attr),
{
    let n = dt.naive;
    let number: i64 = match attr.static_string() {
        Some(StaticStrings::Year) => n.year as i64,
        Some(StaticStrings::Month) => n.month as i64,
        Some(StaticStrings::Day) => n.day as i64,
        Some(StaticStrings::Hour) => n.hour as i64,
        Some(StaticStrings::Minute) => n.minute as i64,
        Some(StaticStrings::Second) => n.second as i64,
        Some(StaticStrings::Microsecond) => (n.nano / 1_000) as i64,
        Some(StaticStrings::Tzinfo) => {
            return tzinfo_attr(dt, vm);
        },
        _ => {
            return Ok(None);
        },
    };
    Ok(Some(CallResult::Value(Value::Int(number))))
}

/// `dt.tzinfo`.
fn tzinfo_attr(dt: &DateTime, vm: &mut VM) -> (r: RunResult<Option<CallResult>>)
    requires
        old(vm).wf(),
        dt.wf(),
        id_ok(dt.tzinfo_ref, old(vm).entries().len()),
    ensures
        final(vm).wf(),
        r matches Ok(Some(CallResult::Value(v))) ==> final(vm).ok(v),
        tzinfo_done(*old(vm), *final(vm), r, *dt),
{
    match dt.tzinfo_ref {
        Some(id) => {
            let v = vm.clone_value(&Value::Ref(id));
            Ok(Some(CallResult::Value(v)))
        },
        None => match timezone_info(dt) {
            None => Ok(Some(CallResult::Value(Value::PyNone))),
            Some(zone) => {
                if zone.offset_seconds == 0 && zone.name.is_none() {
                    let utc = vm.get_timezone_utc();
                    return Ok(Some(CallResult::Value(utc)));
                }
                let ghost data = HeapData::TimeZone(zone);
                let v = allocate_object(HeapData::TimeZone(zone), vm);
                assert(object_result(*old(vm), *vm, v, data));
                match v {
                    Ok(v) => Ok(Some(CallResult::Value(v))),
                    Err(e) => Err(e),
                }
            },
        },
    }
}

} // verus!
