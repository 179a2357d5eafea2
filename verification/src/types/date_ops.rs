//! Dates and timezones in the heap: constructors, arithmetic, methods and
//! attributes.

use vstd::prelude::*;
use vstd::utf8::encode_utf8;

use crate::arg_binding::{first_bad_int, get_small_args, ints_are, Signature};
use crate::args::{no_args_error, one_arg_error, param_texts, raises, ArgValues, Raised};
use crate::calendar::{date_format, iso_date_fields};
use crate::call::{AttrCallResult, CallResult, OsFunctionCall};
use crate::exception::{ExcType, RunError, RunResult};
use crate::heap::{with_ref, HeapData, HeapId, UTC_TIMEZONE};
use crate::intern::StaticStrings;
use crate::outcome::{allocate_object, object_result};
use crate::text::{chars_of, push_str, string_of};
use crate::types::date::{
    days_between, delta_days, format_date_strftime, from_ymd, is_python_day, iso_date, iso_text,
    isoformat, isoweekday, parse_iso_date, plus_days, to_ymd, weekday, ymd_error, Date,
};
use crate::types::datetime_methods::{
    formatted_done, parse_strftime_arg, plain_done, replace_signature, returned, strftime_arg,
};
use crate::types::datetime_ops::{
    class_text_arg, duration_done, extract_str_arg, invalid_isoformat, isoformat_error, optional,
};
use crate::types::file_ops::{as_value, with_entries};
use crate::types::py_type::Type;
use crate::types::str::{allocate_string, allocate_string_no_interning, held_string};
use crate::types::str_args::lemma_argument_ok;
use crate::types::str_methods::{attribute_error, no_attribute};
use crate::types::timedelta::{
    delta_repr, exact_total_seconds, format_repr, from_total_microseconds, TimeDelta,
    MICROSECONDS_PER_DAY,
};
use crate::types::timezone::{
    offset_in_range, offset_range_error, range_error, TimeZone, MAX_TIMEZONE_OFFSET_SECONDS,
    MIN_TIMEZONE_OFFSET_SECONDS,
};
use crate::value::{EitherStr, Value};
use crate::value_type::shallow_type;
use crate::vm::VM;

verus! {

/// The names of the parameters of `date`.
pub open spec fn date_params() -> Seq<Seq<char>> {
    seq!["year"@, "month"@, "day"@]
}

/// How `date` takes its arguments.
pub open spec fn date_signature() -> Signature {
    Signature { label: "function", subject: "this function", required: 3, max_positional: 3 }
}

/// The date of three integers, or the error.
pub open spec fn date_made(values: Seq<i32>) -> Result<Date, Raised> {
    match ymd_error(values[0] as int, values[1] as int, values[2] as int) {
        Some(message) => Err((ExcType::ValueError, message)),
        None => Ok(Date { year: values[0], month: values[1] as u32, day: values[2] as u32 }),
    }
}

/// What a date or an error comes to as a value.
pub open spec fn date_value(
    before: VM,
    after: VM,
    r: RunResult<Value>,
    made: Result<Date, Raised>,
) -> bool {
    match made {
        Err(e) => raises(r, e) && after == before,
        Ok(date) => object_result(before, after, r, HeapData::Date(date)),
    }
}

/// What making a date of arguments comes to; `kept` stands for arguments that
/// are not given.
pub open spec fn date_from_args(
    before: VM,
    after: VM,
    r: RunResult<Value>,
    args: ArgValues,
    signature: Signature,
    kept: Seq<i32>,
) -> bool {
    if let Some(e) = args.signature_error(signature, date_params(), before.interns) {
        raises(r, e) && after == before
    } else if let Some(e) = first_bad_int(args, date_params(), kept, before.interns, 0) {
        raises(r, e) && after == before
    } else {
        exists|values: Seq<i32>|
            #[trigger] ints_are(values, args, date_params(), kept, before.interns) && date_value(
                before,
                after,
                r,
                date_made(values),
            )
    }
}

/// Makes a date of arguments; `kept` stands for those that are not given.
fn make_date(args: &ArgValues, signature: &Signature, kept: &[i32], vm: &mut VM) -> (r: RunResult<
    Value,
>)
    requires
        old(vm).wf(),
        args.ok(old(vm).entries().len(), old(vm).interns),
        signature.required <= 3,
        kept@.len() == 3,
    ensures
        final(vm).wf(),
        r matches Ok(v) ==> final(vm).ok(v),
        date_from_args(*old(vm), *final(vm), r, *args, *signature, kept@),
{
    let params: [&'static str; 3] = ["year", "month", "day"];
    assert(param_texts(params@) =~= date_params());
    match args.check_signature(signature, &params, &vm.interns) {
        Ok(_) => {},
        Err(e) => {
            return Err(e);
        },
    }
    let values = match get_small_args(args, &params, kept, &vm.interns) {
        Ok(values) => values,
        Err(e) => {
            return Err(e);
        },
    };
    assert(ints_are(values@, *args, date_params(), kept@, old(vm).interns));
    match from_ymd(values[0], values[1], values[2]) {
        Err(e) => Err(e),
        Ok(date) => {
            assert(date_made(values@) == Ok::<Date, Raised>(date));
            allocate_object(HeapData::Date(date), vm)
        },
    }
}

/// What stands for the arguments of `date` that are not given; none may miss.
pub open spec fn no_date_fields() -> Seq<i32> {
    Seq::new(3, |i: int| 0i32)
}

/// `date(year, month, day)`.
pub fn init(args: ArgValues, vm: &mut VM) -> (r: RunResult<Value>)
    requires
        old(vm).wf(),
        args.ok(old(vm).entries().len(), old(vm).interns),
    ensures
        final(vm).wf(),
        r matches Ok(v) ==> final(vm).ok(v),
        exists|mid: VM| #[trigger]
            args.consumed(mid, *final(vm)) && date_from_args(
                *old(vm),
                mid,
                r,
                args,
                date_signature(),
                no_date_fields(),
            ),
{
    let ghost given = args;
    let r = init_from(&args, vm);
    let ghost mid = *vm;
    args.release(vm);
    assert(given.consumed(mid, *vm));
    r
}

/// The same without taking the arguments.
fn init_from(args: &ArgValues, vm: &mut VM) -> (r: RunResult<Value>)
    requires
        old(vm).wf(),
        args.ok(old(vm).entries().len(), old(vm).interns),
    ensures
        final(vm).wf(),
        r matches Ok(v) ==> final(vm).ok(v),
        date_from_args(*old(vm), *final(vm), r, *args, date_signature(), no_date_fields()),
{
    let signature = Signature {
        label: "function",
        subject: "this function",
        required: 3,
        max_positional: 3,
    };
    let zeros: [i32; 3] = [0, 0, 0];
    assert(zeros@ =~= no_date_fields());
    make_date(args, &signature, &zeros, vm)
}

/// `date.today()`: a call of the host.
pub fn class_today(args: ArgValues, vm: &mut VM) -> (r: RunResult<AttrCallResult>)
    requires
        old(vm).wf(),
        args.ok(old(vm).entries().len(), old(vm).interns),
    ensures
        final(vm).wf(),
        if args.total() > 0 {
            raises(r, no_args_error("date.today"@, args.total()))
        } else {
            r == Ok::<AttrCallResult, RunError>(AttrCallResult::OsCall(OsFunctionCall::Today))
        },
        args.consumed(*old(vm), *final(vm)),
{
    let ghost given = args;
    let r = class_today_from(&args);
    let ghost mid = *vm;
    args.release(vm);
    assert(given.consumed(mid, *vm));
    r
}

/// The same without taking the arguments.
fn class_today_from(args: &ArgValues) -> (r: RunResult<AttrCallResult>)
    requires
        args.total() <= usize::MAX,
    ensures
        if args.total() > 0 {
            raises(r, no_args_error("date.today"@, args.total()))
        } else {
            r == Ok::<AttrCallResult, RunError>(AttrCallResult::OsCall(OsFunctionCall::Today))
        },
{
    match args.check_zero_args("date.today") {
        Ok(_) => Ok(AttrCallResult::OsCall(OsFunctionCall::Today)),
        Err(e) => Err(e),
    }
}

/// The date of civil fields that were read from a text, or the error.
pub open spec fn date_read(fields: Option<(int, int, int)>, text: Seq<char>) -> Result<
    Date,
    Raised,
> {
    match fields {
        None => Err(isoformat_error(text)),
        Some((year, month, day)) => Ok(
            Date { year: year as i32, month: month as u32, day: day as u32 },
        ),
    }
}

/// What `date.fromisoformat(text)` comes to.
pub open spec fn date_fromisoformat_done(
    before: VM,
    after: VM,
    r: RunResult<Value>,
    args: ArgValues,
) -> bool {
    if !args.just(1) {
        raises(r, one_arg_error("date.fromisoformat"@, args.total())) && after == before
    } else {
        match class_text_arg(before, args.pos@[0], "fromisoformat"@) {
            Err(e) => raises(r, e) && after == before,
            Ok(text) => date_value(
                before,
                after,
                r,
                date_read(iso_date(iso_date_fields(encode_utf8(text))), text),
            ),
        }
    }
}

/// `date.fromisoformat(text)`.
pub fn class_fromisoformat(args: ArgValues, vm: &mut VM) -> (r: RunResult<Value>)
    requires
        old(vm).wf(),
        args.ok(old(vm).entries().len(), old(vm).interns),
    ensures
        final(vm).wf(),
        r matches Ok(v) ==> final(vm).ok(v),
        exists|mid: VM|
            {
                &&& #[trigger] args.consumed(mid, *final(vm))
                &&& date_fromisoformat_done(*old(vm), mid, r, args)
                &&& forall|date: Date|
                    date.wf() && args.just(1) && old(vm).text_of(args.pos@[0]) == Some(
                        #[trigger] iso_text(date.year as nat, date.month as nat, date.day as nat),
                    ) ==> object_result(*old(vm), mid, r, HeapData::Date(date))
            },
{
    let ghost given = args;
    let r = class_fromisoformat_from(&args, vm);
    let ghost mid = *vm;
    args.release(vm);
    assert(given.consumed(mid, *vm));
    r
}

/// The same without taking the arguments.
fn class_fromisoformat_from(args: &ArgValues, vm: &mut VM) -> (r: RunResult<Value>)
    requires
        old(vm).wf(),
        args.ok(old(vm).entries().len(), old(vm).interns),
    ensures
        final(vm).wf(),
        r matches Ok(v) ==> final(vm).ok(v),
        date_fromisoformat_done(*old(vm), *final(vm), r, *args),
        forall|date: Date|
            date.wf() && args.just(1) && old(vm).text_of(args.pos@[0]) == Some(
                #[trigger] iso_text(date.year as nat, date.month as nat, date.day as nat),
            ) ==> object_result(*old(vm), *final(vm), r, HeapData::Date(date)),
{
    let value = match args.get_one_arg("date.fromisoformat") {
        Ok(value) => value,
        Err(e) => {
            return Err(e);
        },
    };
    assert(vm.ok(args.pos@[0]));
    let text = match extract_str_arg(value, "fromisoformat", vm) {
        Ok(text) => text,
        Err(e) => {
            return Err(e);
        },
    };
    match parse_iso_date(text) {
        None => Err(invalid_isoformat(text)),
        Some(date) => {
            assert(date_read(iso_date(iso_date_fields(encode_utf8(text@))), text@) == Ok::<
                Date,
                Raised,
            >(date));
            allocate_object(HeapData::Date(date), vm)
        },
    }
}

/// The fields of a date as integers.
pub open spec fn date_fields(date: Date) -> Seq<i32> {
    seq![date.year, date.month as i32, date.day as i32]
}

/// What a method of a date comes to.
pub open spec fn date_call_done(
    before: VM,
    after: VM,
    r: RunResult<CallResult>,
    date: Date,
    attr: EitherStr,
    args: ArgValues,
) -> bool {
    match attr.well_known() {
        Some(StaticStrings::Isoformat) => if args.total() > 0 {
            raises(r, no_args_error("date.isoformat"@, args.total())) && after == before
        } else {
            as_value(r) matches Some(v) && held_string(
                before,
                after,
                v,
                iso_text(date.year as nat, date.month as nat, date.day as nat),
            )
        },
        Some(StaticStrings::Strftime) => match strftime_arg(before, args) {
            Err(e) => raises(r, e) && after == before,
            Ok(format) => formatted_done(
                before,
                after,
                r,
                date_format(date.year as int, date.month as int, date.day as int, format),
            ),
        },
        Some(StaticStrings::Replace) => as_value(r) matches Some(v) && date_from_args(
            before,
            after,
            v,
            args,
            replace_signature(),
            date_fields(date),
        ),
        Some(StaticStrings::Weekday) => plain_done(
            before,
            after,
            r,
            "date.weekday"@,
            args,
            Value::Int(((date.day_number() - 1) % 7) as i64),
        ),
        Some(StaticStrings::Isoweekday) => plain_done(
            before,
            after,
            r,
            "date.isoweekday"@,
            args,
            Value::Int(((date.day_number() - 1) % 7 + 1) as i64),
        ),
        _ => raises(r, no_attribute(Type::Date.text(), attr.text(before.interns))) && after
            == before,
    }
}

/// Calls a method of a date.
pub fn py_call_attr(date: Date, vm: &mut VM, attr: &EitherStr, args: ArgValues) -> (r: RunResult<
    CallResult,
>)
    requires
        old(vm).wf(),
        date.wf(),
        attr.ok(old(vm).interns),
        args.ok(old(vm).entries().len(), old(vm).interns),
    ensures
        final(vm).wf(),
        r matches Ok(CallResult::Value(v)) ==> final(vm).ok(v),
        exists|mid: VM| #[trigger]
            args.consumed(mid, *final(vm)) && date_call_done(*old(vm), mid, r, date, *attr, args),
{
    let ghost given = args;
    let r = call_attr(date, vm, attr, &args);
    let ghost mid = *vm;
    args.release(vm);
    assert(given.consumed(mid, *vm));
    r
}

/// The same without taking the arguments.
fn call_attr(date: Date, vm: &mut VM, attr: &EitherStr, args: &ArgValues) -> (r: RunResult<
    CallResult,
>)
    requires
        old(vm).wf(),
        date.wf(),
        attr.ok(old(vm).interns),
        args.ok(old(vm).entries().len(), old(vm).interns),
    ensures
        final(vm).wf(),
        r matches Ok(CallResult::Value(v)) ==> final(vm).ok(v),
        date_call_done(*old(vm), *final(vm), r, date, *attr, *args),
{
    match attr.static_string() {
        Some(StaticStrings::Isoformat) => match args.check_zero_args("date.isoformat") {
            Err(e) => Err(e),
            Ok(_) => returned(allocate_string_no_interning(isoformat(date), vm)),
        },
        Some(StaticStrings::Strftime) => match parse_strftime_arg(args, vm) {
            Err(e) => Err(e),
            Ok(format) => match format_date_strftime(date, format.as_str()) {
                Err(e) => Err(e),
                Ok(text) => returned(allocate_string(text, vm)),
            },
        },
        Some(StaticStrings::Replace) => {
            let signature = Signature {
                label: "replace()",
                subject: "replace()",
                required: 0,
                max_positional: 0,
            };
            let fields: [i32; 3] = [date.year, date.month as i32, date.day as i32];
            assert(fields@ =~= date_fields(date));
            returned(make_date(args, &signature, &fields, vm))
        },
        Some(StaticStrings::Weekday) => match args.check_zero_args("date.weekday") {
            Err(e) => Err(e),
            Ok(_) => Ok(CallResult::Value(Value::Int(weekday(date)))),
        },
        Some(StaticStrings::Isoweekday) => match args.check_zero_args("date.isoweekday") {
            Err(e) => Err(e),
            Ok(_) => Ok(CallResult::Value(Value::Int(isoweekday(date)))),
        },
        _ => Err(attribute_error(Type::Date.as_str(), attr.as_str(&vm.interns))),
    }
}

/// An attribute of a date; nothing for one that it has not.
pub fn py_getattr(date: Date, attr: &EitherStr) -> (r: RunResult<Option<CallResult>>)
    requires
        date.wf(),
    ensures
        r == Ok::<Option<CallResult>, RunError>(
            match attr.well_known() {
                Some(StaticStrings::Year) => Some(CallResult::Value(Value::Int(date.year as i64))),
                Some(StaticStrings::Month) => Some(
                    CallResult::Value(Value::Int(date.month as i64)),
                ),
                Some(StaticStrings::Day) => Some(CallResult::Value(Value::Int(date.day as i64))),
                _ => None,
            },
        ),
{
    let (year, month, day) = to_ymd(date);
    match attr.static_string() {
        Some(StaticStrings::Year) => Ok(Some(CallResult::Value(Value::Int(year as i64)))),
        Some(StaticStrings::Month) => Ok(Some(CallResult::Value(Value::Int(month as i64)))),
        Some(StaticStrings::Day) => Ok(Some(CallResult::Value(Value::Int(day as i64)))),
        _ => Ok(None),
    }
}

/// `date - date`: a duration of whole days.
pub fn py_sub_date(a: Date, b: Date, vm: &mut VM) -> (r: RunResult<Option<Value>>)
    requires
        old(vm).wf(),
        a.wf(),
        b.wf(),
    ensures
        final(vm).wf(),
        r matches Ok(Some(v)) ==> final(vm).ok(v),
        duration_done(
            *old(vm),
            *final(vm),
            r,
            Some((a.day_number() - b.day_number()) * MICROSECONDS_PER_DAY),
        ),
{
    proof {
        crate::types::date::lemma_last_day();
        crate::types::date::lemma_python_range(a.year as int, a.month as int, a.day as int);
        crate::types::date::lemma_python_range(b.year as int, b.month as int, b.day as int);
    }
    let days: i64 = days_between(a, b);
    match from_total_microseconds(days as i128 * MICROSECONDS_PER_DAY) {
        Err(_) => Ok(None),
        Ok(delta) => {
            let v = allocate_object(HeapData::TimeDelta(delta), vm);
            assert(object_result(*old(vm), *vm, v, HeapData::TimeDelta(delta)));
            match v {
                Ok(v) => Ok(Some(v)),
                Err(e) => Err(e),
            }
        },
    }
}

/// What moving a date by days comes to: nothing outside Python's years.
pub open spec fn date_moved(
    before: VM,
    after: VM,
    r: RunResult<Option<Value>>,
    date: Date,
    days: int,
) -> bool {
    if is_python_day(date.day_number() + days) {
        exists|next: Date, v: RunResult<Value>|
            #![trigger object_result(before, after, v, HeapData::Date(next))]
            next.wf() && next.day_number() == date.day_number() + days && object_result(
                before,
                after,
                v,
                HeapData::Date(next),
            ) && r == optional(v)
    } else {
        r == Ok::<Option<Value>, RunError>(None) && after == before
    }
}

/// Moves a date by days.
fn move_date(date: Date, days: i64, vm: &mut VM) -> (r: RunResult<Option<Value>>)
    requires
        old(vm).wf(),
        date.wf(),
    ensures
        final(vm).wf(),
        r matches Ok(Some(v)) ==> final(vm).ok(v),
        date_moved(*old(vm), *final(vm), r, date, days as int),
{
    match plus_days(date, days) {
        None => Ok(None),
        Some(next) => {
            proof {
                crate::types::date::lemma_python_range(
                    next.year as int,
                    next.month as int,
                    next.day as int,
                );
            }
            let v = allocate_object(HeapData::Date(next), vm);
            assert(object_result(*old(vm), *vm, v, HeapData::Date(next)));
            match v {
                Ok(v) => Ok(Some(v)),
                Err(e) => Err(e),
            }
        },
    }
}

/// `date + timedelta`: only the days of the duration count.
pub fn py_add(date: Date, delta: &TimeDelta, vm: &mut VM) -> (r: RunResult<Option<Value>>)
    requires
        old(vm).wf(),
        date.wf(),
    ensures
        final(vm).wf(),
        r matches Ok(Some(v)) ==> final(vm).ok(v),
        date_moved(*old(vm), *final(vm), r, date, delta.days as int),
{
    move_date(date, delta_days(delta), vm)
}

/// `date - timedelta`: only the days of the duration count.
pub fn py_sub_timedelta(date: Date, delta: &TimeDelta, vm: &mut VM) -> (r: RunResult<Option<Value>>)
    requires
        old(vm).wf(),
        date.wf(),
    ensures
        final(vm).wf(),
        r matches Ok(Some(v)) ==> final(vm).ok(v),
        date_moved(*old(vm), *final(vm), r, date, -(delta.days as int)),
{
    move_date(date, -delta_days(delta), vm)
}

/// The type of an argument as `timezone` names it.
pub open spec fn arg_type(vm: VM, v: Value) -> Type {
    match v {
        Value::Ref(id) => vm.heap.data(id).type_of(),
        other => shallow_type(other),
    }
}

/// The offset argument of `timezone` in seconds, or the error.
pub open spec fn offset_arg(vm: VM, v: Value) -> Result<int, Raised> {
    match vm.data_of(v) {
        Some(HeapData::TimeDelta(delta)) => {
            let seconds = delta.days * 86_400 + delta.seconds;
            if delta.microseconds != 0 {
                Err(
                    (
                        ExcType::ValueError,
                        "offset must be a timedelta representing a whole number of seconds"@,
                    ),
                )
            } else if !offset_in_range(seconds) {
                Err(
                    (
                        ExcType::ValueError,
                        offset_range_error(
                            delta_repr(
                                delta.days as int,
                                delta.seconds as int,
                                delta.microseconds as int,
                            ),
                        ),
                    ),
                )
            } else {
                Ok(seconds)
            }
        },
        _ => Err(
            (
                ExcType::TypeError,
                "timezone() argument 1 must be datetime.timedelta, not "@ + arg_type(
                    vm,
                    v,
                ).arg_text(),
            ),
        ),
    }
}

/// The offset argument of `timezone` in seconds.
fn extract_offset_seconds(offset_arg_value: &Value, vm: &VM) -> (r: RunResult<i32>)
    requires
        vm.wf(),
        vm.ok(*offset_arg_value),
    ensures
        match offset_arg(*vm, *offset_arg_value) {
            Ok(n) => r matches Ok(m) && m == n,
            Err(e) => raises(r, e),
        },
{
    match offset_arg_value {
        Value::Ref(id) => match vm.heap.get(*id) {
            HeapData::TimeDelta(delta) => {
                assert(crate::heap::data_ok(
                    vm.heap.entries@[id.0 as int].data,
                    vm.heap.entries@.len(),
                    vm.interns,
                ));
                let seconds: i64 = match exact_total_seconds(delta) {
                    Some(seconds) => seconds,
                    None => {
                        return Err(
                            RunError::new(
                                ExcType::ValueError,
                                "offset must be a timedelta representing a whole number of seconds",
                            ),
                        );
                    },
                };
                if seconds < MIN_TIMEZONE_OFFSET_SECONDS as i64 || seconds
                    > MAX_TIMEZONE_OFFSET_SECONDS as i64 {
                    return Err(range_error(format_repr(delta).as_str()));
                }
                return Ok(seconds as i32);
            },
            _ => {},
        },
        _ => {},
    }
    let mut out = chars_of("timezone() argument 1 must be datetime.timedelta, not ");
    push_str(&mut out, offset_arg_value.py_type_heap(vm).cpython_arg_name());
    Err(RunError::new_msg(ExcType::TypeError, string_of(&out)))
}

/// The name argument of `timezone`, or the error.
pub open spec fn name_arg(vm: VM, v: Value) -> Result<Seq<char>, Raised> {
    match vm.text_of(v) {
        Some(t) => Ok(t),
        None => Err(
            (
                ExcType::TypeError,
                "timezone() argument 2 must be str, not "@ + arg_type(vm, v).arg_text(),
            ),
        ),
    }
}

/// The name argument of `timezone`.
fn extract_name(name: &Value, vm: &VM) -> (r: RunResult<String>)
    requires
        vm.ok(*name),
    ensures
        match name_arg(*vm, *name) {
            Ok(t) => r matches Ok(s) && s@ == t,
            Err(e) => raises(r, e),
        },
{
    match name.text(vm) {
        Some(t) => Ok(t.to_owned()),
        None => Err(bad_name_arg(name, vm)),
    }
}

/// The error for a name that is no string.
fn bad_name_arg(name: &Value, vm: &VM) -> (r: RunError)
    requires
        vm.ok(*name),
    ensures
        r.says(
            ExcType::TypeError,
            "timezone() argument 2 must be str, not "@ + arg_type(*vm, *name).arg_text(),
        ),
{
    let mut out = chars_of("timezone() argument 2 must be str, not ");
    push_str(&mut out, name.py_type_heap(vm).cpython_arg_name());
    RunError::new_msg(ExcType::TypeError, string_of(&out))
}

/// How `timezone` takes its arguments.
pub open spec fn timezone_signature() -> Signature {
    Signature { label: "timezone()", subject: "timezone()", required: 1, max_positional: 2 }
}

/// The offset and the name that `timezone` is called with, or the error.
pub open spec fn timezone_args(vm: VM, args: ArgValues) -> Result<
    (int, Option<Seq<char>>),
    Raised,
> {
    match args.signature_error(timezone_signature(), seq!["offset"@, "name"@], vm.interns) {
        Some(e) => Err(e),
        None => match offset_arg(vm, args.argument(0, "offset"@, vm.interns)->0) {
            Err(e) => Err(e),
            Ok(offset) => match args.argument(1, "name"@, vm.interns) {
                None => Ok((offset, None)),
                Some(v) => match name_arg(vm, v) {
                    Err(e) => Err(e),
                    Ok(name) => Ok((offset, Some(name))),
                },
            },
        },
    }
}

/// What `timezone(offset, name?)` comes to: UTC without a name is the shared object.
pub open spec fn timezone_init_done(
    before: VM,
    after: VM,
    r: RunResult<Value>,
    args: ArgValues,
) -> bool {
    match timezone_args(before, args) {
        Err(e) => raises(r, e) && after == before,
        Ok((offset, name)) => if offset == 0 && name is None {
            let utc = Value::Ref(HeapId(UTC_TIMEZONE));
            r == Ok::<Value, RunError>(utc) && with_entries(
                before,
                after,
                with_ref(before.entries(), utc),
            )
        } else {
            exists|tz: TimeZone|
                #![trigger object_result(before, after, r, HeapData::TimeZone(tz))]
                tz.offset_seconds == offset && crate::types::timezone::name_text(tz.name) == name
                    && object_result(before, after, r, HeapData::TimeZone(tz))
        },
    }
}

impl TimeZone {
    /// `timezone(offset, name?)`.
    pub fn init(args: ArgValues, vm: &mut VM) -> (r: RunResult<Value>)
        requires
            old(vm).wf(),
            args.ok(old(vm).entries().len(), old(vm).interns),
        ensures
            final(vm).wf(),
            r matches Ok(v) ==> final(vm).ok(v),
            exists|mid: VM| #[trigger]
                args.consumed(mid, *final(vm)) && timezone_init_done(*old(vm), mid, r, args),
    {
        let ghost given = args;
        let r = Self::init_from(&args, vm);
        let ghost mid = *vm;
        args.release(vm);
        assert(given.consumed(mid, *vm));
        r
    }

    /// The same without taking the arguments.
    fn init_from(args: &ArgValues, vm: &mut VM) -> (r: RunResult<Value>)
        requires
            old(vm).wf(),
            args.ok(old(vm).entries().len(), old(vm).interns),
        ensures
            final(vm).wf(),
            r matches Ok(v) ==> final(vm).ok(v),
            timezone_init_done(*old(vm), *final(vm), r, *args),
    {
        let params: [&'static str; 2] = ["offset", "name"];
        let signature = Signature {
            label: "timezone()",
            subject: "timezone()",
            required: 1,
            max_positional: 2,
        };
        proof {
            assert(param_texts(params@) =~= seq!["offset"@, "name"@]);
            lemma_argument_ok(*args, 0, "offset"@, vm.entries().len(), vm.interns);
            lemma_argument_ok(*args, 1, "name"@, vm.entries().len(), vm.interns);
            reveal_with_fuel(ArgValues::first_missing, 2);
        }
        match args.check_signature(&signature, &params, &vm.interns) {
            Ok(_) => {},
            Err(e) => {
                return Err(e);
            },
        }
        let offset: i32 = match args.get_argument(0, "offset", &vm.interns) {
            None => {
                return Err(RunError::new(ExcType::TypeError, "timezone() needs an offset"));
            },
            Some(v) => match extract_offset_seconds(v, vm) {
                Ok(offset) => offset,
                Err(e) => {
                    return Err(e);
                },
            },
        };
        let name: Option<String> = match args.get_argument(1, "name", &vm.interns) {
            None => None,
            Some(v) => match extract_name(v, vm) {
                Ok(name) => Some(name),
                Err(e) => {
                    return Err(e);
                },
            },
        };
        if offset == 0 && name.is_none() {
            return Ok(vm.get_timezone_utc());
        }
        match TimeZone::new(offset, name) {
            Err(e) => Err(e),
            Ok(tz) => {
                let ghost made = tz;
                let r = allocate_object(HeapData::TimeZone(tz), vm);
                assert(object_result(*old(vm), *vm, r, HeapData::TimeZone(made)));
                r
            },
        }
    }
}

} // verus!
