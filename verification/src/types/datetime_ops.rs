//! Datetimes in the heap: constructors, arithmetic, methods and attributes.

use vstd::prelude::*;
use vstd::utf8::encode_utf8;

use crate::args::{
    one_arg_error, raises, takes_at_most_error, unexpected_kwarg_error, ArgValues, Raised,
};
use crate::calendar::{iso_date_fields, parse_iso_date_bytes, parse_rfc3339, rfc3339_fields};
use crate::call::{AttrCallResult, OsFunctionCall};
use crate::exception::{ExcType, RunError, RunResult};
use crate::heap::{id_ok, with_ref, HeapData, HeapId, UTC_TIMEZONE};
use crate::intern::StaticStrings;
use crate::outcome::{allocate_object, object_result};
use crate::release::{lemma_released_data, released};
use crate::text::{chars_of, push_str, string_of};
use crate::types::datetime::{
    build, built, datetime_is, elapsed, moment_text, moved, moved_by, parse_strptime_naive,
    strptime_moment, year_in_python_range, Civil, DateTime,
};
use crate::types::file_ops::with_entries;
use crate::types::iso_text::{civil_of, lemma_written_moment, written_in_full};
use crate::types::py_type::Type;
use crate::types::str::heap_full;
use crate::types::timedelta::TimeDelta;
use crate::types::timezone::{copy_name, offset_in_range, TimeZone};
use crate::value::{value_refs, EitherStr, Value};
use crate::value_type::shallow_type;
use crate::vm::{fresh, VM};

verus! {

/// Whether a datetime was given its timezone object: the preferred one, the
/// shared one for UTC, or a new one. A naive datetime gets none.
pub open spec fn tz_attached(
    before: VM,
    after: VM,
    r: RunResult<DateTime>,
    dt: DateTime,
    preferred: Option<HeapId>,
) -> bool {
    match dt.offset_seconds {
        None => r == Ok::<DateTime, RunError>(dt) && after == before,
        Some(offset) => match preferred {
            Some(id) => r == Ok::<DateTime, RunError>(DateTime { tzinfo_ref: Some(id), ..dt })
                && with_entries(before, after, with_ref(before.entries(), Value::Ref(id))),
            None => if offset == 0 && dt.timezone_name is None {
                let utc = HeapId(UTC_TIMEZONE);
                r == Ok::<DateTime, RunError>(DateTime { tzinfo_ref: Some(utc), ..dt })
                    && with_entries(before, after, with_ref(before.entries(), Value::Ref(utc)))
            } else if before.heap.room() > 0 {
                let zone = TimeZone { offset_seconds: offset, name: dt.timezone_name };
                let id = HeapId(before.entries().len() as usize);
                r == Ok::<DateTime, RunError>(DateTime { tzinfo_ref: Some(id), ..dt })
                    && with_entries(
                    before,
                    after,
                    before.entries().push(fresh(HeapData::TimeZone(zone))),
                )
            } else {
                r matches Err(e) && heap_full(e) && after == before
            },
        },
    }
}

/// Allocates a timezone object, or takes the shared one for UTC.
fn allocate_tzinfo_ref(offset_seconds: i32, timezone_name: Option<String>, vm: &mut VM) -> (r:
    RunResult<HeapId>)
    requires
        old(vm).wf(),
        offset_in_range(offset_seconds as int),
    ensures
        final(vm).wf(),
        if offset_seconds == 0 && timezone_name is None {
            r == Ok::<HeapId, RunError>(HeapId(UTC_TIMEZONE)) && with_entries(
                *old(vm),
                *final(vm),
                with_ref(old(vm).entries(), Value::Ref(HeapId(UTC_TIMEZONE))),
            )
        } else if old(vm).heap.room() > 0 {
            r == Ok::<HeapId, RunError>(HeapId(old(vm).entries().len() as usize)) && with_entries(
                *old(vm),
                *final(vm),
                old(vm).entries().push(
                    fresh(HeapData::TimeZone(TimeZone { offset_seconds, name: timezone_name })),
                ),
            )
        } else {
            r matches Err(e) && heap_full(e) && *final(vm) == *old(vm)
        },
{
    if offset_seconds == 0 && timezone_name.is_none() {
        let _shared = vm.get_timezone_utc();
        return Ok(HeapId(UTC_TIMEZONE));
    }
    vm.allocate(HeapData::TimeZone(TimeZone { offset_seconds, name: timezone_name }))
}

/// Gives a datetime its timezone object.
fn attach_or_allocate_tzinfo_ref(
    datetime: DateTime,
    preferred: Option<HeapId>,
    vm: &mut VM,
) -> (r: RunResult<DateTime>)
    requires
        old(vm).wf(),
        datetime.wf(),
        id_ok(preferred, old(vm).entries().len()),
    ensures
        final(vm).wf(),
        final(vm).entries().len() >= old(vm).entries().len(),
        r matches Ok(dt) ==> dt.wf() && id_ok(dt.tzinfo_ref, final(vm).entries().len()),
        tz_attached(*old(vm), *final(vm), r, datetime, preferred),
{
    let mut datetime = datetime;
    let ghost dt = datetime;
    let offset: i32 = match datetime.offset_seconds {
        None => {
            return Ok(datetime);
        },
        Some(offset) => offset,
    };
    let id = match preferred {
        Some(id) => {
            let _counted = vm.clone_value(&Value::Ref(id));
            id
        },
        None => match allocate_tzinfo_ref(offset, copy_name(&datetime.timezone_name), vm) {
            Ok(id) => id,
            Err(e) => {
                return Err(e);
            },
        },
    };
    datetime.tzinfo_ref = Some(id);
    assert(datetime == (DateTime { tzinfo_ref: Some(id), ..dt }));
    Ok(datetime)
}

/// What making a datetime of civil fields comes to.
pub open spec fn components_done(
    before: VM,
    after: VM,
    r: RunResult<DateTime>,
    c: Civil,
    tzinfo: Option<TimeZone>,
    preferred: Option<HeapId>,
) -> bool {
    match built(c, tzinfo) {
        Err(e) => raises(r, e) && after == before,
        Ok(dt) => tz_attached(before, after, r, dt, preferred),
    }
}

/// A datetime of civil fields in a timezone.
pub fn from_components(
    c: Civil,
    tzinfo: Option<TimeZone>,
    tzinfo_ref: Option<HeapId>,
    vm: &mut VM,
) -> (r: RunResult<DateTime>)
    requires
        old(vm).wf(),
        id_ok(tzinfo_ref, old(vm).entries().len()),
    ensures
        final(vm).wf(),
        final(vm).entries().len() >= old(vm).entries().len(),
        r matches Ok(dt) ==> dt.wf() && id_ok(dt.tzinfo_ref, final(vm).entries().len()),
        components_done(*old(vm), *final(vm), r, c, tzinfo, tzinfo_ref),
{
    match build(c, tzinfo) {
        Err(e) => Err(e),
        Ok(dt) => attach_or_allocate_tzinfo_ref(dt, tzinfo_ref, vm),
    }
}

/// Whether a datetime that was made went to the heap, or the error to the result.
pub open spec fn held(mid: VM, after: VM, made: RunResult<DateTime>, r: RunResult<Value>) -> bool {
    match made {
        Err(e) => r == Err::<Value, RunError>(e) && after == mid,
        Ok(dt) => object_result(mid, after, r, HeapData::DateTime(dt)),
    }
}

/// Puts a datetime that was made into the heap.
pub(crate) fn hold(made: RunResult<DateTime>, vm: &mut VM) -> (r: RunResult<Value>)
    requires
        old(vm).wf(),
        made matches Ok(dt) ==> dt.wf() && id_ok(dt.tzinfo_ref, old(vm).entries().len()),
    ensures
        final(vm).wf(),
        r matches Ok(v) ==> final(vm).ok(v),
        held(*old(vm), *final(vm), made, r),
{
    match made {
        Err(e) => Err(e),
        Ok(dt) => allocate_object(HeapData::DateTime(dt), vm),
    }
}

/// What making a datetime and putting it into the heap comes to.
pub open spec fn new_from_components(
    before: VM,
    after: VM,
    r: RunResult<Value>,
    c: Civil,
    tzinfo: Option<TimeZone>,
    preferred: Option<HeapId>,
) -> bool {
    exists|mid: VM, made: RunResult<DateTime>|
        #[trigger] components_done(before, mid, made, c, tzinfo, preferred) && held(
            mid,
            after,
            made,
            r,
        )
}

/// The error for a timezone argument of the wrong type, if it is.
pub open spec fn tz_error(vm: VM, v: Value) -> Option<Raised> {
    let wrong = match v {
        Value::PyNone => None,
        Value::Ref(id) => match vm.heap.data(id) {
            HeapData::TimeZone(_) => None,
            other => Some(other.type_of()),
        },
        other => Some(shallow_type(other)),
    };
    match wrong {
        None => None,
        Some(t) => Some(
            (
                ExcType::TypeError,
                "tzinfo argument must be None or of a tzinfo subclass, not type '"@ + t.text()
                    + "'"@,
            ),
        ),
    }
}

fn type_error_tzinfo(t: Type) -> (r: RunError)
    ensures
        r.says(
            ExcType::TypeError,
            "tzinfo argument must be None or of a tzinfo subclass, not type '"@ + t.text() + "'"@,
        ),
{
    let mut out = chars_of("tzinfo argument must be None or of a tzinfo subclass, not type '");
    push_str(&mut out, t.as_str());
    push_str(&mut out, "'");
    assert(out@ =~= "tzinfo argument must be None or of a tzinfo subclass, not type '"@ + t.text()
        + "'"@);
    RunError::new_msg(ExcType::TypeError, string_of(&out))
}

/// Checks that a value is `None` or a timezone.
fn validate_tz_arg(value: &Value, vm: &VM) -> (r: RunResult<()>)
    requires
        vm.ok(*value),
    ensures
        match tz_error(*vm, *value) {
            Some(e) => raises(r, e),
            None => r is Ok,
        },
{
    match value {
        Value::PyNone => Ok(()),
        Value::Ref(id) => match vm.heap.get(*id) {
            HeapData::TimeZone(_) => Ok(()),
            other => Err(type_error_tzinfo(other.py_type())),
        },
        _ => Err(type_error_tzinfo(value.py_type_shallow())),
    }
}

/// The timezone that a value is and its heap entry; `None` is none.
pub open spec fn tz_of(vm: VM, v: Value) -> (Option<TimeZone>, Option<HeapId>) {
    match v {
        Value::Ref(id) => match vm.heap.data(id) {
            HeapData::TimeZone(tz) => (Some(tz), Some(id)),
            _ => (None, None),
        },
        _ => (None, None),
    }
}

/// The timezone that a value is.
pub(crate) fn tzinfo_from_value(value: &Value, vm: &VM) -> (r: RunResult<(Option<TimeZone>, Option<HeapId>)>)
    requires
        vm.ok(*value),
    ensures
        match tz_error(*vm, *value) {
            Some(e) => raises(r, e),
            None => r == Ok::<_, RunError>(tz_of(*vm, *value)),
        },
        r matches Ok(found) ==> id_ok(found.1, vm.entries().len()),
{
    match value {
        Value::PyNone => Ok((None, None)),
        Value::Ref(id) => match vm.heap.get(*id) {
            HeapData::TimeZone(tz) => Ok((Some(tz.duplicate()), Some(*id))),
            other => Err(type_error_tzinfo(other.py_type())),
        },
        _ => Err(type_error_tzinfo(value.py_type_shallow())),
    }
}

/// The timezone argument of `datetime.now` among the keyword arguments from
/// `k` on, when `seen` was already given.
pub open spec fn now_keywords(
    vm: VM,
    kwargs: Seq<(EitherStr, Value)>,
    k: int,
    seen: Option<Value>,
) -> Result<Value, Raised>
    decreases kwargs.len() - k,
{
    if k >= kwargs.len() {
        Ok(
            match seen {
                Some(v) => v,
                None => Value::PyNone,
            },
        )
    } else if kwargs[k].0 != EitherStr::Interned(StaticStrings::Tz.spec_id()) {
        Err(unexpected_kwarg_error("now"@, kwargs[k].0.text(vm.interns)))
    } else if seen is Some {
        Err(takes_at_most_error("now"@, 1, 2))
    } else if let Some(e) = tz_error(vm, kwargs[k].1) {
        Err(e)
    } else {
        now_keywords(vm, kwargs, k + 1, Some(kwargs[k].1))
    }
}

/// The timezone argument of `datetime.now`, or the error.
pub open spec fn now_tz(vm: VM, args: ArgValues) -> Result<Value, Raised> {
    if args.pos@.len() == 0 {
        now_keywords(vm, args.kwargs@, 0, None)
    } else if let Some(e) = tz_error(vm, args.pos@[0]) {
        Err(e)
    } else if args.pos@.len() > 1 {
        Err(takes_at_most_error("now"@, 1, 2))
    } else {
        now_keywords(vm, args.kwargs@, 0, Some(args.pos@[0]))
    }
}

/// Takes the timezone argument of `datetime.now`, which is nothing if it is not
/// given. The references of all other arguments are dropped, and without a timezone
/// those of all.
pub fn extract_now_tz(args: ArgValues, vm: &mut VM) -> (r: RunResult<Value>)
    requires
        old(vm).wf(),
        args.ok(old(vm).entries().len(), old(vm).interns),
    ensures
        final(vm).wf(),
        final(vm).same_setting(*old(vm)),
        match now_tz(*old(vm), args) {
            Ok(v) => {
                &&& r == Ok::<Value, RunError>(v)
                &&& final(vm).ok(v)
                &&& final(vm).entries() == released(with_ref(old(vm).entries(), v), args.refs())
            },
            Err(e) => raises(r, e) && final(vm).entries() == released(
                old(vm).entries(),
                args.refs(),
            ),
        },
{
    match read_now_tz(&args, vm) {
        Ok(v) => {
            let tz = vm.clone_value(&v);
            args.release(vm);
            Ok(tz)
        },
        Err(e) => {
            args.release(vm);
            Err(e)
        },
    }
}

/// Reads the timezone argument of `datetime.now`.
fn read_now_tz(args: &ArgValues, vm: &VM) -> (r: RunResult<Value>)
    requires
        args.ok(vm.entries().len(), vm.interns),
    ensures
        match now_tz(*vm, *args) {
            Ok(v) => r == Ok::<Value, RunError>(v) && vm.ok(v),
            Err(e) => raises(r, e),
        },
{
    let mut tz: Value = Value::PyNone;
    let mut seen: bool = false;
    if args.pos.len() > 0 {
        assert(vm.ok(args.pos@[0]));
        match validate_tz_arg(&args.pos[0], vm) {
            Ok(_) => {},
            Err(e) => {
                return Err(e);
            },
        }
        if args.pos.len() > 1 {
            return Err(now_at_most());
        }
        tz = args.pos[0].alias();
        seen = true;
    }
    for k in 0..args.kwargs.len()
        invariant
            args.ok(vm.entries().len(), vm.interns),
            vm.ok(tz),
            !seen ==> tz == Value::PyNone,
            now_tz(*vm, *args) == now_keywords(
                *vm,
                args.kwargs@,
                k as int,
                if seen {
                    Some(tz)
                } else {
                    None
                },
            ),
    {
        let key = &args.kwargs[k].0;
        assert(key.ok(vm.interns) && vm.ok(args.kwargs@[k as int].1));
        let named = match key.string_id() {
            Some(id) => id == StaticStrings::Tz.id(),
            None => false,
        };
        if !named {
            let mut out: Vec<char> = Vec::new();
            push_str(&mut out, "now");
            push_str(&mut out, "() got an unexpected keyword argument '");
            push_str(&mut out, key.as_str(&vm.interns));
            push_str(&mut out, "'");
            assert(out@ =~= unexpected_kwarg_error("now"@, key.text(vm.interns)).1);
            return Err(RunError::new_msg(ExcType::TypeError, string_of(&out)));
        }
        if seen {
            return Err(now_at_most());
        }
        match validate_tz_arg(&args.kwargs[k].1, vm) {
            Ok(_) => {},
            Err(e) => {
                return Err(e);
            },
        }
        tz = args.kwargs[k].1.alias();
        seen = true;
    }
    Ok(tz)
}

fn now_at_most() -> (r: RunError)
    ensures
        r.says(ExcType::TypeError, takes_at_most_error("now"@, 1, 2).1),
{
    let mut out: Vec<char> = Vec::new();
    push_str(&mut out, "now");
    push_str(&mut out, "() takes at most ");
    crate::decimal::push_nat(&mut out, 1);
    push_str(&mut out, " argument");
    push_str(&mut out, "");
    push_str(&mut out, " (");
    crate::decimal::push_nat(&mut out, 2);
    push_str(&mut out, " given)");
    assert(out@ =~= takes_at_most_error("now"@, 1, 2).1);
    RunError::new_msg(ExcType::TypeError, string_of(&out))
}

/// `datetime.now(tz=None)`: a call of the host.
pub fn class_now(args: ArgValues, vm: &mut VM) -> (r: RunResult<AttrCallResult>)
    requires
        old(vm).wf(),
        args.ok(old(vm).entries().len(), old(vm).interns),
    ensures
        final(vm).wf(),
        final(vm).same_setting(*old(vm)),
        match now_tz(*old(vm), args) {
            Err(e) => raises(r, e) && final(vm).entries() == released(
                old(vm).entries(),
                args.refs(),
            ),
            Ok(v) => {
                &&& r matches Ok(AttrCallResult::OsCall(call))
                &&& call matches OsFunctionCall::Now { offset_seconds, timezone_name }
                &&& match tz_of(*old(vm), v).0 {
                    Some(tz) => offset_seconds == Some(tz.offset_seconds) && timezone_name
                        == tz.name,
                    None => offset_seconds is None && timezone_name is None,
                }
                &&& final(vm).entries() == released(
                    released(with_ref(old(vm).entries(), v), args.refs()),
                    value_refs(v),
                )
            },
        },
{
    match extract_now_tz(args, vm) {
        Err(e) => Err(e),
        Ok(v) => {
            proof {
                lemma_released_data(with_ref(old(vm).entries(), v), args.refs());
            }
            let mut offset_seconds: Option<i32> = None;
            let mut timezone_name: Option<String> = None;
            match &v {
                Value::Ref(id) => match vm.heap.get(*id) {
                    HeapData::TimeZone(tz) => {
                        offset_seconds = Some(tz.offset_seconds);
                        timezone_name = copy_name(&tz.name);
                    },
                    _ => {},
                },
                _ => {},
            }
            v.drop_with_heap(vm);
            Ok(AttrCallResult::OsCall(OsFunctionCall::Now { offset_seconds, timezone_name }))
        },
    }
}

/// The text of an argument of a class method, or the error.
pub open spec fn class_text_arg(vm: VM, v: Value, method: Seq<char>) -> Result<Seq<char>, Raised> {
    match vm.text_of(v) {
        Some(t) => Ok(t),
        None => Err((ExcType::TypeError, method + ": argument must be str"@)),
    }
}

/// The text of an argument of a class method.
pub fn extract_str_arg<'a>(value: &'a Value, method_name: &str, vm: &'a VM) -> (r: RunResult<&'a str>)
    requires
        vm.ok(*value),
    ensures
        match class_text_arg(*vm, *value, method_name@) {
            Ok(t) => r matches Ok(s) && s@ == t,
            Err(e) => raises(r, e),
        },
{
    match value.text(vm) {
        Some(t) => Ok(t),
        None => {
            let mut out = chars_of(method_name);
            push_str(&mut out, ": argument must be str");
            Err(RunError::new_msg(ExcType::TypeError, string_of(&out)))
        },
    }
}

/// The error for anything but two arguments.
pub open spec fn two_args_error(name: Seq<char>, given: nat) -> Raised {
    (
        ExcType::TypeError,
        name + " expected 2 arguments, got "@ + crate::decimal::nat_digits(given),
    )
}

/// The error for a text that does not fit its format.
pub open spec fn mismatch_error(text: Seq<char>, fmt: Seq<char>) -> Raised {
    (
        ExcType::ValueError,
        "time data '"@ + text + "' does not match format '"@ + fmt + "'"@,
    )
}

/// The datetime that `strptime` makes of what was read, or the error.
pub open spec fn strptime_made(
    moment: Option<crate::calendar::Naive>,
    text: Seq<char>,
    fmt: Seq<char>,
) -> Result<DateTime, Raised> {
    match moment {
        None => Err(mismatch_error(text, fmt)),
        Some(naive) => if 1 <= naive.year <= 9999 {
            Ok(
                DateTime {
                    naive,
                    offset_seconds: None,
                    timezone_name: None,
                    tzinfo_ref: None,
                },
            )
        } else {
            Err((ExcType::ValueError, "year is out of range"@))
        },
    }
}

/// The datetime that `strptime` makes of what was read.
pub fn strptime_result(moment: Option<crate::calendar::Naive>, text: &str, fmt: &str) -> (r:
    RunResult<DateTime>)
    ensures
        datetime_is(r, strptime_made(moment, text@, fmt@)),
{
    match moment {
        None => {
            let mut out = chars_of("time data '");
            push_str(&mut out, text);
            push_str(&mut out, "' does not match format '");
            push_str(&mut out, fmt);
            push_str(&mut out, "'");
            assert(out@ =~= mismatch_error(text@, fmt@).1);
            Err(RunError::new_msg(ExcType::ValueError, string_of(&out)))
        },
        Some(naive) => {
            if !year_in_python_range(naive.year) {
                return Err(RunError::new(ExcType::ValueError, "year is out of range"));
            }
            Ok(
                DateTime {
                    naive,
                    offset_seconds: None,
                    timezone_name: None,
                    tzinfo_ref: None,
                },
            )
        },
    }
}

/// What `datetime.strptime(text, format)` makes of its arguments.
pub open spec fn strptime_args(vm: VM, args: ArgValues) -> Result<DateTime, Raised> {
    if !args.just(2) {
        Err(two_args_error("datetime.strptime"@, args.total()))
    } else {
        match class_text_arg(vm, args.pos@[0], "strptime"@) {
            Err(e) => Err(e),
            Ok(text) => match class_text_arg(vm, args.pos@[1], "strptime"@) {
                Err(e) => Err(e),
                Ok(fmt) => strptime_made(strptime_moment(text, fmt), text, fmt),
            },
        }
    }
}

/// What a datetime or an error comes to as a value.
pub open spec fn made_value(
    before: VM,
    after: VM,
    r: RunResult<Value>,
    made: Result<DateTime, Raised>,
) -> bool {
    match made {
        Err(e) => raises(r, e) && after == before,
        Ok(dt) => object_result(before, after, r, HeapData::DateTime(dt)),
    }
}

/// `datetime.strptime(text, format)`.
pub fn class_strptime(args: ArgValues, vm: &mut VM) -> (r: RunResult<Value>)
    requires
        old(vm).wf(),
        args.ok(old(vm).entries().len(), old(vm).interns),
    ensures
        final(vm).wf(),
        r matches Ok(v) ==> final(vm).ok(v),
        exists|mid: VM| #[trigger]
            args.consumed(mid, *final(vm)) && made_value(
                *old(vm),
                mid,
                r,
                strptime_args(*old(vm), args),
            ),
{
    let ghost given = args;
    let r = class_strptime_from(&args, vm);
    let ghost mid = *vm;
    args.release(vm);
    assert(given.consumed(mid, *vm));
    r
}

/// The same without taking the arguments.
fn class_strptime_from(args: &ArgValues, vm: &mut VM) -> (r: RunResult<Value>)
    requires
        old(vm).wf(),
        args.ok(old(vm).entries().len(), old(vm).interns),
    ensures
        final(vm).wf(),
        r matches Ok(v) ==> final(vm).ok(v),
        made_value(*old(vm), *final(vm), r, strptime_args(*old(vm), *args)),
{
    if args.pos.len() != 2 || args.kwargs.len() != 0 {
        let mut out = chars_of("datetime.strptime");
        push_str(&mut out, " expected 2 arguments, got ");
        let given: usize = args.pos.len() + args.kwargs.len();
        crate::decimal::push_nat(&mut out, given as u64);
        assert(out@ =~= two_args_error("datetime.strptime"@, args.total()).1);
        return Err(RunError::new_msg(ExcType::TypeError, string_of(&out)));
    }
    assert(vm.ok(args.pos@[0]) && vm.ok(args.pos@[1]));
    let text = match extract_str_arg(&args.pos[0], "strptime", vm) {
        Ok(text) => text,
        Err(e) => {
            return Err(e);
        },
    };
    let fmt = match extract_str_arg(&args.pos[1], "strptime", vm) {
        Ok(fmt) => fmt,
        Err(e) => {
            return Err(e);
        },
    };
    let made = strptime_result(parse_strptime_naive(text, fmt), text, fmt);
    match made {
        Err(e) => Err(e),
        Ok(dt) => allocate_object(HeapData::DateTime(dt), vm),
    }
}

/// What an ISO 8601 text says, from the fields of a date and time or else of a
/// date: civil fields and an offset.
pub open spec fn iso_civil(
    full: Option<(u16, u8, u8, u8, u8, u8, u32, Option<i32>)>,
    date: Option<(u16, u8, u8)>,
) -> Option<(Civil, Option<i32>)> {
    match full {
        Some((year, month, day, hour, minute, second, microsecond, offset)) => Some(
            (
                Civil {
                    year: year as i32,
                    month: month as i32,
                    day: day as i32,
                    hour: hour as i32,
                    minute: minute as i32,
                    second: second as i32,
                    microsecond: if microsecond <= i32::MAX {
                        microsecond as i32
                    } else {
                        0
                    },
                },
                offset,
            ),
        ),
        None => match date {
            Some((year, month, day)) => Some(
                (
                    Civil {
                        year: year as i32,
                        month: month as i32,
                        day: day as i32,
                        hour: 0,
                        minute: 0,
                        second: 0,
                        microsecond: 0,
                    },
                    None,
                ),
            ),
            None => None,
        },
    }
}

/// What an ISO 8601 text says, from its fields.
pub fn civil_from_iso_fields(
    full: Option<(u16, u8, u8, u8, u8, u8, u32, Option<i32>)>,
    date: Option<(u16, u8, u8)>,
) -> (r: Option<(Civil, Option<i32>)>)
    ensures
        r == iso_civil(full, date),
{
    match full {
        Some((year, month, day, hour, minute, second, microsecond, offset)) => Some(
            (
                Civil {
                    year: year as i32,
                    month: month as i32,
                    day: day as i32,
                    hour: hour as i32,
                    minute: minute as i32,
                    second: second as i32,
                    microsecond: if microsecond <= i32::MAX as u32 {
                        microsecond as i32
                    } else {
                        0
                    },
                },
                offset,
            ),
        ),
        None => match date {
            Some((year, month, day)) => Some(
                (
                    Civil {
                        year: year as i32,
                        month: month as i32,
                        day: day as i32,
                        hour: 0,
                        minute: 0,
                        second: 0,
                        microsecond: 0,
                    },
                    None,
                ),
            ),
            None => None,
        },
    }
}

/// What an ISO 8601 text says.
pub open spec fn iso_fields(text: Seq<char>) -> Option<(Civil, Option<i32>)> {
    iso_civil(rfc3339_fields(encode_utf8(text)), iso_date_fields(encode_utf8(text)))
}

/// What reading an ISO 8601 text comes to. Whatever goes wrong, there is no
/// datetime.
pub open spec fn iso_read(before: VM, after: VM, r: Option<DateTime>, fields: Option<
    (Civil, Option<i32>),
>) -> bool {
    match fields {
        None => r is None && after == before,
        Some((c, offset)) => exists|made: RunResult<DateTime>|
            #[trigger] components_done(before, after, made, c, iso_zone(offset), None) && r == (
            match made {
                Ok(dt) => Some(dt),
                Err(_) => None,
            }),
    }
}

/// The timezone without a name that an offset is.
pub open spec fn iso_zone(offset: Option<i32>) -> Option<TimeZone> {
    match offset {
        Some(offset_seconds) => Some(TimeZone { offset_seconds, name: None }),
        None => None,
    }
}

/// Makes a datetime of what an ISO 8601 text says.
pub fn datetime_from_iso(fields: Option<(Civil, Option<i32>)>, vm: &mut VM) -> (r: Option<DateTime>)
    requires
        old(vm).wf(),
    ensures
        final(vm).wf(),
        r matches Some(dt) ==> dt.wf() && id_ok(dt.tzinfo_ref, final(vm).entries().len()),
        iso_read(*old(vm), *final(vm), r, fields),
{
    match fields {
        None => None,
        Some((c, offset)) => {
            let zone = match offset {
                Some(offset_seconds) => Some(TimeZone { offset_seconds, name: None }),
                None => None,
            };
            match from_components(c, zone, None, vm) {
                Ok(dt) => Some(dt),
                Err(_) => None,
            }
        },
    }
}

/// Reads an ISO 8601 text: a date and time, or else a date alone. What a
/// datetime is written as gives its fields.
fn parse_iso_datetime(s: &str, vm: &mut VM) -> (r: Option<DateTime>)
    requires
        old(vm).wf(),
    ensures
        final(vm).wf(),
        r matches Some(dt) ==> dt.wf() && id_ok(dt.tzinfo_ref, final(vm).entries().len()),
        iso_read(*old(vm), *final(vm), r, iso_fields(s@)),
        forall|dt: DateTime, sep: char|
            dt.wf() && written_in_full(dt) && (sep == 'T' || sep == ' ') && s@
                == #[trigger] moment_text(dt, sep) ==> iso_fields(s@) == Some(
                (civil_of(dt), dt.offset_seconds),
            ),
{
    let bytes = s.as_bytes();
    let full = parse_rfc3339(bytes);
    let date = parse_iso_date_bytes(bytes);
    proof {
        assert forall|dt: DateTime, sep: char|
            dt.wf() && written_in_full(dt) && (sep == 'T' || sep == ' ') && s@
                == #[trigger] moment_text(dt, sep) implies iso_civil(full, date) == Some(
            (civil_of(dt), dt.offset_seconds),
        ) by {
            lemma_written_moment(dt, sep);
        }
    }
    datetime_from_iso(civil_from_iso_fields(full, date), vm)
}

/// The error for a text that is no ISO 8601.
pub open spec fn isoformat_error(text: Seq<char>) -> Raised {
    (ExcType::ValueError, "Invalid isoformat string: '"@ + text + "'"@)
}

/// The error for a text that is no ISO 8601.
pub fn invalid_isoformat(text: &str) -> (r: RunError)
    ensures
        r.says(ExcType::ValueError, isoformat_error(text@).1),
{
    let mut out = chars_of("Invalid isoformat string: '");
    push_str(&mut out, text);
    push_str(&mut out, "'");
    assert(out@ =~= isoformat_error(text@).1);
    RunError::new_msg(ExcType::ValueError, string_of(&out))
}

/// What `datetime.fromisoformat(text)` comes to.
pub open spec fn fromisoformat_done(
    before: VM,
    after: VM,
    r: RunResult<Value>,
    args: ArgValues,
) -> bool {
    if !args.just(1) {
        raises(r, one_arg_error("datetime.fromisoformat"@, args.total())) && after == before
    } else {
        match class_text_arg(before, args.pos@[0], "fromisoformat"@) {
            Err(e) => raises(r, e) && after == before,
            Ok(text) => exists|mid: VM, read: Option<DateTime>|
                #[trigger] iso_read(before, mid, read, iso_fields(text)) && (match read {
                    None => raises(r, isoformat_error(text)) && after == mid,
                    Some(dt) => object_result(mid, after, r, HeapData::DateTime(dt)),
                }),
        }
    }
}

/// What reading a datetime back from its text comes to: the same wall clock and
/// offset, with a timezone object of its own.
pub open spec fn read_back(before: VM, after: VM, r: RunResult<Value>, dt: DateTime) -> bool {
    exists|mid: VM, made: RunResult<DateTime>|
        #[trigger] tz_attached(
            before,
            mid,
            made,
            DateTime { timezone_name: None, tzinfo_ref: None, ..dt },
            None,
        ) && (match made {
            Ok(dt) => object_result(mid, after, r, HeapData::DateTime(dt)),
            Err(_) => r is Err && after == mid,
        })
}

/// `datetime.fromisoformat(text)`. The text that a datetime is written as is read
/// as that datetime.
pub fn class_fromisoformat(args: ArgValues, vm: &mut VM) -> (r: RunResult<Value>)
    requires
        old(vm).wf(),
        args.ok(old(vm).entries().len(), old(vm).interns),
    ensures
        final(vm).wf(),
        r matches Ok(v) ==> final(vm).ok(v),
        exists|mid: VM|
            {
                &&& #[trigger] args.consumed(mid, *final(vm))
                &&& fromisoformat_done(*old(vm), mid, r, args)
                &&& forall|dt: DateTime, sep: char|
                    dt.wf() && written_in_full(dt) && (sep == 'T' || sep == ' ') && args.just(1)
                        && old(vm).text_of(args.pos@[0]) == Some(#[trigger] moment_text(dt, sep))
                        ==> read_back(*old(vm), mid, r, dt)
            },
{
    let ghost given = args;
    let r = class_fromisoformat_from(&args, vm);
    let ghost mid = *vm;
    args.release(vm);
    assert(given.consumed(mid, *vm));
    r
}

/// The same without taking the arguments.
fn class_fromisoformat_from(args: &ArgValues, vm: &mut VM) -> (r: RunResult<Value>)
    requires
        old(vm).wf(),
        args.ok(old(vm).entries().len(), old(vm).interns),
    ensures
        final(vm).wf(),
        r matches Ok(v) ==> final(vm).ok(v),
        fromisoformat_done(*old(vm), *final(vm), r, *args),
        forall|dt: DateTime, sep: char|
            dt.wf() && written_in_full(dt) && (sep == 'T' || sep == ' ') && args.just(1) && old(
                vm,
            ).text_of(args.pos@[0]) == Some(#[trigger] moment_text(dt, sep)) ==> read_back(
                *old(vm),
                *final(vm),
                r,
                dt,
            ),
{
    let value = match args.get_one_arg("datetime.fromisoformat") {
        Ok(value) => value,
        Err(e) => {
            return Err(e);
        },
    };
    assert(vm.ok(args.pos@[0]));
    let text = match extract_str_arg(value, "fromisoformat", vm) {
        Ok(text) => text.to_owned(),
        Err(e) => {
            return Err(e);
        },
    };
    let read = parse_iso_datetime(text.as_str(), vm);
    let ghost mid = *vm;
    assert(iso_read(*old(vm), mid, read, iso_fields(text@)));
    let r = match read {
        None => Err(invalid_isoformat(text.as_str())),
        Some(dt) => allocate_object(HeapData::DateTime(dt), vm),
    };
    proof {
        assert forall|dt: DateTime, sep: char|
            dt.wf() && written_in_full(dt) && (sep == 'T' || sep == ' ') && text@
                == #[trigger] moment_text(dt, sep) implies read_back(*old(vm), *vm, r, dt) by {
            let c = civil_of(dt);
            let zone = iso_zone(dt.offset_seconds);
            let made = choose|made: RunResult<DateTime>|
                #[trigger] components_done(*old(vm), mid, made, c, zone, None) && read == (
                match made {
                    Ok(dt) => Some(dt),
                    Err(_) => None,
                });
            assert(c.moment() == dt.naive);
            assert(built(c, zone) == Ok::<DateTime, Raised>(
                DateTime { timezone_name: None, tzinfo_ref: None, ..dt },
            ));
            assert(tz_attached(
                *old(vm),
                mid,
                made,
                DateTime { timezone_name: None, tzinfo_ref: None, ..dt },
                None,
            ));
        }
    }
    r
}

/// What `datetime + delta` or `datetime - delta` comes to: nothing outside
/// Python's years.
pub open spec fn shift_done(
    before: VM,
    after: VM,
    r: RunResult<Option<Value>>,
    dt: DateTime,
    nanos: int,
) -> bool {
    exists|next: Option<DateTime>|
        #[trigger] moved_by(dt, nanos, next) && (match next {
            None => r == Ok::<Option<Value>, RunError>(None) && after == before,
            Some(moved) => shift_held(before, after, r, moved, dt.tzinfo_ref),
        })
}

/// What giving a moved datetime its timezone object and a heap entry comes to.
pub open spec fn shift_held(
    before: VM,
    after: VM,
    r: RunResult<Option<Value>>,
    moved: DateTime,
    tzinfo_ref: Option<HeapId>,
) -> bool {
    exists|mid: VM, made: RunResult<DateTime>, v: RunResult<Value>|
        #[trigger] tz_attached(before, mid, made, moved, tzinfo_ref) && #[trigger] held(
            mid,
            after,
            made,
            v,
        ) && r == optional(v)
}

/// A value that is there, or the error.
pub open spec fn optional(v: RunResult<Value>) -> RunResult<Option<Value>> {
    match v {
        Ok(v) => Ok(Some(v)),
        Err(e) => Err(e),
    }
}

/// Moves a datetime by a duration, forward or back.
fn shift(datetime: &DateTime, delta: &TimeDelta, forward: bool, vm: &mut VM) -> (r: RunResult<
    Option<Value>,
>)
    requires
        old(vm).wf(),
        datetime.wf(),
        id_ok(datetime.tzinfo_ref, old(vm).entries().len()),
        delta.wf(),
    ensures
        final(vm).wf(),
        r matches Ok(Some(v)) ==> final(vm).ok(v),
        shift_done(
            *old(vm),
            *final(vm),
            r,
            *datetime,
            if forward {
                delta.total() * 1_000
            } else {
                -delta.total() * 1_000
            },
        ),
{
    let next = moved(datetime, delta, forward);
    match next {
        None => Ok(None),
        Some(moved) => {
            let made = attach_or_allocate_tzinfo_ref(moved, datetime.tzinfo_ref, vm);
            let ghost mid = *vm;
            let v = hold(made, vm);
            assert(tz_attached(*old(vm), mid, made, moved, datetime.tzinfo_ref));
            assert(held(mid, *vm, made, v));
            let out = match v {
                Ok(v) => Ok(Some(v)),
                Err(e) => Err(e),
            };
            assert(out == optional(v));
            assert(shift_held(*old(vm), *vm, out, moved, datetime.tzinfo_ref));
            out
        },
    }
}

/// `datetime + timedelta`.
pub fn py_add(datetime: &DateTime, delta: &TimeDelta, vm: &mut VM) -> (r: RunResult<Option<Value>>)
    requires
        old(vm).wf(),
        datetime.wf(),
        id_ok(datetime.tzinfo_ref, old(vm).entries().len()),
        delta.wf(),
    ensures
        final(vm).wf(),
        r matches Ok(Some(v)) ==> final(vm).ok(v),
        shift_done(
            *old(vm),
            *final(vm),
            r,
            *datetime,
            delta.total() * 1_000,
        ),
{
    shift(datetime, delta, true, vm)
}

/// `datetime - timedelta`.
pub fn py_sub_timedelta(datetime: &DateTime, delta: &TimeDelta, vm: &mut VM) -> (r: RunResult<
    Option<Value>,
>)
    requires
        old(vm).wf(),
        datetime.wf(),
        id_ok(datetime.tzinfo_ref, old(vm).entries().len()),
        delta.wf(),
    ensures
        final(vm).wf(),
        r matches Ok(Some(v)) ==> final(vm).ok(v),
        shift_done(
            *old(vm),
            *final(vm),
            r,
            *datetime,
            -delta.total() * 1_000,
        ),
{
    shift(datetime, delta, false, vm)
}

/// What a duration comes to as an optional value.
pub open spec fn duration_done(
    before: VM,
    after: VM,
    r: RunResult<Option<Value>>,
    total: Option<int>,
) -> bool {
    match total {
        None => r == Ok::<Option<Value>, RunError>(None) && after == before,
        Some(total) => exists|delta: TimeDelta, v: RunResult<Value>|
            #![trigger object_result(before, after, v, HeapData::TimeDelta(delta))]
            delta.wf() && delta.total() == total && object_result(
                before,
                after,
                v,
                HeapData::TimeDelta(delta),
            ) && r == optional(v),
    }
}

/// `datetime - datetime`: a duration. An aware and a naive one have none.
pub fn py_sub_datetime(a: &DateTime, b: &DateTime, vm: &mut VM) -> (r: RunResult<Option<Value>>)
    requires
        old(vm).wf(),
        a.wf(),
        b.wf(),
    ensures
        final(vm).wf(),
        r matches Ok(Some(v)) ==> final(vm).ok(v),
        duration_done(
            *old(vm),
            *final(vm),
            r,
            crate::types::datetime::difference(*a, *b),
        ),
{
    match elapsed(a, b) {
        None => Ok(None),
        Some(delta) => {
            let v = allocate_object(HeapData::TimeDelta(delta), vm);
            assert(object_result(*old(vm), *vm, v, HeapData::TimeDelta(delta)));
            match v {
                Ok(v) => Ok(Some(v)),
                Err(e) => Err(e),
            }
        },
    }
}

} // verus!
