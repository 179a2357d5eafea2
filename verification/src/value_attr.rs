//! Attributes of values.

use vstd::prelude::*;

use crate::args::{raises, Raised};
use crate::call::CallResult;
use crate::exception::{ExcType, RunError, RunResult};
use crate::heap::{with_ref, HeapData, HeapId, UTC_TIMEZONE};
use crate::intern::StaticStrings;
use crate::release::released;
use crate::text::{chars_of, push_str, same_text, string_of};
use crate::types::dataclass::Dataclass;
use crate::types::dataclass_ops::{instance_at, instance_attr_done, set_attr_done};
use crate::types::datetime_methods::{datetime_attr_done, returned};
use crate::types::file_ops::{as_value, file_attr_done};
use crate::types::namedtuple::NamedTuple;
use crate::types::path_ops::{path_attr, path_attr_done};
use crate::types::py_type::Type;
use crate::types::re_pattern::RePattern;
use crate::types::str::{allocate_string, string_result};
use crate::types::str_methods::{attribute_error, no_attribute};
use crate::value::{value_refs, Builtins, EitherStr, Value};
use crate::value_add::lemma_entry_ok;
use crate::vm::VM;

verus! {

/// Whether reading an attribute of a pattern did what it should.
pub open spec fn pattern_attr_done(
    before: VM,
    after: VM,
    r: RunResult<CallResult>,
    pattern: RePattern,
    attr: EitherStr,
) -> bool {
    match attr.well_known() {
        Some(StaticStrings::PatternAttr) => as_value(r) matches Some(v) && string_result(
            before,
            after,
            v,
            pattern.text(),
        ),
        Some(StaticStrings::Flags) => after == before && r == Ok::<CallResult, RunError>(
            CallResult::Value(Value::Int(pattern.bits() as i64)),
        ),
        _ => after == before && raises(
            r,
            no_attribute(Type::RePattern.text(), attr.text(before.interns)),
        ),
    }
}

/// Whether reading an attribute of a named tuple did what it should.
pub open spec fn field_done(
    before: VM,
    after: VM,
    r: RunResult<CallResult>,
    tuple: NamedTuple,
    attr: Seq<char>,
) -> bool {
    match tuple.position(attr, before.interns) {
        Some(i) => {
            &&& r == Ok::<CallResult, RunError>(CallResult::Value(tuple.items@[i]))
            &&& after.same_setting(before)
            &&& after.entries() == with_ref(before.entries(), tuple.items@[i])
        },
        None => after == before && raises(r, no_attribute(tuple.name.text(before.interns), attr)),
    }
}

/// Whether reading an attribute of a type did what it should: types have a name, and
/// the class of timezones has UTC.
pub open spec fn type_attr_done(
    before: VM,
    after: VM,
    r: RunResult<CallResult>,
    t: Type,
    attr: Seq<char>,
) -> bool {
    let utc = Value::Ref(HeapId(UTC_TIMEZONE));
    if attr == "__name__"@ {
        as_value(r) matches Some(v) && string_result(before, after, v, t.text())
    } else if t == Type::TimeZone && attr == "utc"@ {
        &&& r == Ok::<CallResult, RunError>(CallResult::Value(utc))
        &&& after.same_setting(before)
        &&& after.entries() == with_ref(before.entries(), utc)
    } else {
        after == before && raises(r, no_attribute(Type::Type.text(), attr))
    }
}

/// What a type says of an attribute, where nothing means that there is none.
pub open spec fn completed(
    r: RunResult<CallResult>,
    x: RunResult<Option<CallResult>>,
    missing: Raised,
) -> bool {
    match x {
        Ok(Some(c)) => r == Ok::<CallResult, RunError>(c),
        Ok(None) => raises(r, missing),
        Err(e) => r == Err::<CallResult, RunError>(e),
    }
}

/// Whether reading an attribute of an object in the heap did what it should.
pub open spec fn entry_attr_done(
    before: VM,
    after: VM,
    r: RunResult<CallResult>,
    id: HeapId,
    attr: EitherStr,
) -> bool {
    let name = attr.text(before.interns);
    let data = before.heap.data(id);
    let missing = no_attribute(data.type_of().text(), name);
    match data {
        HeapData::DateTime(moment) => exists|x: RunResult<Option<CallResult>>|
            #[trigger] datetime_attr_done(before, after, x, moment, attr) && completed(
                r,
                x,
                missing,
            ),
        HeapData::Date(date) => after == before && match attr.well_known() {
            Some(StaticStrings::Year) => r == Ok::<CallResult, RunError>(
                CallResult::Value(Value::Int(date.year as i64)),
            ),
            Some(StaticStrings::Month) => r == Ok::<CallResult, RunError>(
                CallResult::Value(Value::Int(date.month as i64)),
            ),
            Some(StaticStrings::Day) => r == Ok::<CallResult, RunError>(
                CallResult::Value(Value::Int(date.day as i64)),
            ),
            _ => raises(r, missing),
        },
        HeapData::OpenFile(_) => file_attr_done(before, after, r, id, attr),
        HeapData::Path(path) => path_attr_done(before, after, r, name, path_attr(path@, name)),
        HeapData::Slice(slice) => after == before && match slice.attr(name) {
            Some(v) => r == Ok::<CallResult, RunError>(CallResult::Value(v)),
            None => raises(r, missing),
        },
        HeapData::NamedTuple(tuple) => field_done(before, after, r, tuple, name),
        HeapData::Dataclass(instance) => instance_attr_done(before, after, r, instance, name),
        HeapData::RePattern(pattern) => pattern_attr_done(before, after, r, pattern, attr),
        _ => raises(r, missing) && after == before,
    }
}

/// Whether an object keeps its attributes by rules of its own.
pub open spec fn keeps_attributes(vm: VM, v: Value) -> bool {
    vm.data_of(v) matches Some(HeapData::Module(_)) || vm.data_of(v) matches Some(
        HeapData::TimeDelta(_),
    ) || vm.data_of(v) matches Some(HeapData::ReMatch(_))
}

/// Whether reading an attribute of a value did what it should.
pub open spec fn attr_done(
    before: VM,
    after: VM,
    r: RunResult<CallResult>,
    v: Value,
    attr: EitherStr,
) -> bool {
    match v {
        Value::Ref(id) => entry_attr_done(before, after, r, id, attr),
        Value::Builtin(Builtins::Type(t)) => type_attr_done(
            before,
            after,
            r,
            t,
            attr.text(before.interns),
        ),
        _ => after == before && raises(
            r,
            no_attribute(before.type_of(v).text(), attr.text(before.interns)),
        ),
    }
}

fn complete(x: RunResult<Option<CallResult>>, t: Type, name: &str) -> (r: RunResult<CallResult>)
    ensures
        completed(r, x, no_attribute(t.text(), name@)),
{
    match x {
        Ok(Some(c)) => Ok(c),
        Ok(None) => Err(attribute_error(t.as_str(), name)),
        Err(e) => Err(e),
    }
}

fn pattern_attr(pattern: String, flags: u16, attr: &EitherStr, vm: &mut VM) -> (r: RunResult<
    CallResult,
>)
    requires
        old(vm).wf(),
        attr.ok(old(vm).interns),
    ensures
        final(vm).wf(),
        r matches Ok(CallResult::Value(v)) ==> final(vm).ok(v),
        forall|p: RePattern|
            p.text() == pattern@ && p.bits() == flags ==> #[trigger] pattern_attr_done(
                *old(vm),
                *final(vm),
                r,
                p,
                *attr,
            ),
{
    match attr.static_string() {
        Some(StaticStrings::PatternAttr) => returned(allocate_string(pattern, vm)),
        Some(StaticStrings::Flags) => Ok(CallResult::Value(Value::Int(flags as i64))),
        _ => Err(attribute_error(Type::RePattern.as_str(), attr.as_str(&vm.interns))),
    }
}

/// What an entry is, as far as its attributes go.
enum Kind {
    DateTime(crate::types::datetime::DateTime),
    Date(crate::types::date::Date),
    OpenFile,
    Path(crate::types::path::Path),
    Found(Value),
    Field(Value),
    Error(RunError),
    Instance,
    Pattern(String, u16),
}

fn type_attr(t: Type, attr: &EitherStr, vm: &mut VM) -> (r: RunResult<CallResult>)
    requires
        old(vm).wf(),
        attr.ok(old(vm).interns),
    ensures
        final(vm).wf(),
        r matches Ok(CallResult::Value(v)) ==> final(vm).ok(v),
        type_attr_done(*old(vm), *final(vm), r, t, attr.text(old(vm).interns)),
{
    let name = attr.as_str(&vm.interns);
    if same_text(name, "__name__") {
        return returned(allocate_string(t.as_str().to_owned(), vm));
    }
    if t == Type::TimeZone && same_text(name, "utc") {
        return Ok(CallResult::Value(vm.get_timezone_utc()));
    }
    Err(attribute_error(Type::Type.as_str(), name))
}

fn entry_attr(id: HeapId, attr: &EitherStr, vm: &mut VM) -> (r: RunResult<CallResult>)
    requires
        old(vm).wf(),
        id.0 < old(vm).entries().len(),
        attr.ok(old(vm).interns),
        !keeps_attributes(*old(vm), Value::Ref(id)),
    ensures
        final(vm).wf(),
        r matches Ok(CallResult::Value(v)) ==> final(vm).ok(v),
        entry_attr_done(*old(vm), *final(vm), r, id, *attr),
{
    proof {
        lemma_entry_ok(*vm, id);
    }
    let name = attr.as_str(&vm.interns).to_owned();
    let t = vm.heap.get(id).py_type();
    let kind = match vm.heap.get(id) {
        HeapData::DateTime(moment) => Kind::DateTime(moment.duplicate()),
        HeapData::Date(date) => Kind::Date(*date),
        HeapData::OpenFile(_) => Kind::OpenFile,
        HeapData::Path(path) => Kind::Path(path.duplicate()),
        HeapData::Slice(slice) => match slice.py_getattr(attr, vm) {
            Some(v) => Kind::Found(v),
            None => Kind::Error(attribute_error(t.as_str(), name.as_str())),
        },
        HeapData::NamedTuple(tuple) => match tuple.get_by_name(name.as_str(), &vm.interns) {
            Some(v) => Kind::Field(v.alias()),
            None => Kind::Error(attribute_error(tuple.name(&vm.interns), name.as_str())),
        },
        HeapData::Dataclass(_) => Kind::Instance,
        HeapData::RePattern(pattern) => Kind::Pattern(pattern.pattern().to_owned(), pattern.flags()),
        _ => Kind::Error(attribute_error(t.as_str(), name.as_str())),
    };
    match kind {
        Kind::DateTime(moment) => {
            let x = crate::types::datetime_methods::py_getattr(&moment, attr, vm);
            let ghost given = x;
            let r = complete(x, t, name.as_str());
            assert(datetime_attr_done(*old(vm), *vm, given, moment, *attr));
            r
        },
        Kind::Date(date) => complete(
            crate::types::date_ops::py_getattr(date, attr),
            t,
            name.as_str(),
        ),
        Kind::OpenFile => crate::types::file_ops::py_getattr(id, attr, vm),
        Kind::Path(path) => crate::types::path_ops::py_getattr(&path, attr, vm),
        Kind::Found(v) => Ok(CallResult::Value(v)),
        Kind::Field(v) => Ok(CallResult::Value(vm.clone_value(&v))),
        Kind::Error(e) => Err(e),
        Kind::Instance => crate::types::dataclass_ops::py_getattr(id, attr, vm),
        Kind::Pattern(pattern, flags) => pattern_attr(pattern, flags, attr, vm),
    }
}

/// What came of a call that was made.
pub open spec fn given_call(r: RunResult<Option<CallResult>>) -> Option<RunResult<CallResult>> {
    match r {
        Ok(Some(c)) => Some(Ok(c)),
        Ok(None) => None,
        Err(e) => Some(Err(e)),
    }
}

fn give_call(r: RunResult<CallResult>) -> (out: RunResult<Option<CallResult>>)
    ensures
        given_call(out) == Some(r),
{
    match r {
        Ok(c) => Ok(Some(c)),
        Err(e) => Err(e),
    }
}

/// The error for setting an attribute of what has none to set.
pub open spec fn cannot_set(t: Type, name: Seq<char>) -> Raised {
    (
        ExcType::AttributeError,
        "'"@ + t.text() + "' object has no attribute '"@ + name
            + "' and no __dict__ for setting new attributes"@,
    )
}

fn no_setattr(t: Type, name: &str) -> (r: RunError)
    ensures
        r.says(cannot_set(t, name@).0, cannot_set(t, name@).1),
{
    let mut out = chars_of("'");
    push_str(&mut out, t.as_str());
    push_str(&mut out, "' object has no attribute '");
    push_str(&mut out, name);
    push_str(&mut out, "' and no __dict__ for setting new attributes");
    assert(out@ =~= cannot_set(t, name@).1);
    RunError::new_msg(ExcType::AttributeError, string_of(&out))
}

/// Whether an attribute of an instance is set and the value that was there before is
/// dropped.
pub open spec fn attr_replaced(
    before: VM,
    after: VM,
    r: RunResult<()>,
    id: HeapId,
    key: Value,
    value: Value,
) -> bool {
    exists|mid: VM, x: RunResult<Option<Value>>|
        #[trigger] set_attr_done(before, mid, x, id, key, value) && match x {
            Err(e) => r == Err::<(), RunError>(e) && after == mid,
            Ok(None) => r is Ok && after == mid,
            Ok(Some(previous)) => r is Ok && after.same_setting(mid) && after.entries()
                == released(mid.entries(), value_refs(previous)),
        }
}

/// Whether setting an attribute did what it should. Only instances of dataclasses
/// take attributes; every other value refuses and drops what it was given.
pub open spec fn attr_set_done(
    before: VM,
    after: VM,
    r: RunResult<()>,
    v: Value,
    name: EitherStr,
    value: Value,
) -> bool {
    match before.data_of(v) {
        Some(HeapData::Dataclass(_)) => match name {
            EitherStr::Interned(key) => attr_replaced(
                before,
                after,
                r,
                v->Ref_0,
                Value::InternString(key),
                value,
            ),
            EitherStr::Heap(text) => exists|mid: VM, x: RunResult<Value>|
                #[trigger] string_result(before, mid, x, text@) && match x {
                    Err(e) => {
                        &&& r == Err::<(), RunError>(e)
                        &&& after.same_setting(mid)
                        &&& after.entries() == released(mid.entries(), value_refs(value))
                    },
                    Ok(key) => attr_replaced(mid, after, r, v->Ref_0, key, value),
                },
        },
        _ => {
            &&& raises(r, cannot_set(before.type_of(v), name.text(before.interns)))
            &&& after.same_setting(before)
            &&& after.entries() == released(before.entries(), value_refs(value))
        },
    }
}

fn replace_attr(id: HeapId, key: Value, value: Value, vm: &mut VM) -> (r: RunResult<()>)
    requires
        old(vm).wf(),
        id.0 < old(vm).entries().len(),
        instance_at(*old(vm), id) is Some,
        old(vm).ok(key),
        old(vm).ok(value),
        old(vm).text_of(key) is Some,
    ensures
        final(vm).wf(),
        attr_replaced(*old(vm), *final(vm), r, id, key, value),
{
    let x = Dataclass::set_attr(id, key, value, vm);
    let ghost given = x;
    let ghost mid = *vm;
    let r = match x {
        Err(e) => Err(e),
        Ok(None) => Ok(()),
        Ok(Some(previous)) => {
            previous.drop_with_heap(vm);
            Ok(())
        },
    };
    assert(set_attr_done(*old(vm), mid, given, id, key, value));
    r
}

impl Value {
    /// `self.attr`; nothing when the object is a module, a duration or a match, which keep
    /// their attributes by rules of their own.
    pub fn py_getattr(&self, attr: &EitherStr, vm: &mut VM) -> (r: RunResult<Option<CallResult>>)
        requires
            old(vm).wf(),
            old(vm).ok(*self),
            attr.ok(old(vm).interns),
        ensures
            final(vm).wf(),
            r matches Ok(Some(CallResult::Value(v))) ==> final(vm).ok(v),
            if keeps_attributes(*old(vm), *self) {
                r == Ok::<Option<CallResult>, RunError>(None) && *final(vm) == *old(vm)
            } else {
                given_call(r) matches Some(x) && attr_done(*old(vm), *final(vm), x, *self, *attr)
            },
    {
        match self {
            Value::Ref(id) => {
                match vm.heap.get(*id) {
                    HeapData::Module(_) | HeapData::TimeDelta(_) | HeapData::ReMatch(_) => {
                        return Ok(None);
                    },
                    _ => {},
                }
                give_call(entry_attr(*id, attr, vm))
            },
            Value::Builtin(Builtins::Type(t)) => give_call(type_attr(*t, attr, vm)),
            _ => Err(attribute_error(self.py_type(vm).as_str(), attr.as_str(&vm.interns))),
        }
    }

    /// `self.name = value`.
    pub fn py_set_attr(&self, name: &EitherStr, value: Value, vm: &mut VM) -> (r: RunResult<()>)
        requires
            old(vm).wf(),
            old(vm).ok(*self),
            name.ok(old(vm).interns),
            old(vm).ok(value),
        ensures
            final(vm).wf(),
            attr_set_done(*old(vm), *final(vm), r, *self, *name, value),
    {
        let t = self.py_type(vm);
        let instance = match self {
            Value::Ref(id) => match vm.heap.get(*id) {
                HeapData::Dataclass(_) => Some(*id),
                _ => None,
            },
            _ => None,
        };
        match instance {
            Some(id) => match name {
                EitherStr::Interned(key) => replace_attr(
                    id,
                    Value::InternString(*key),
                    value,
                    vm,
                ),
                EitherStr::Heap(text) => {
                    let x = allocate_string(text.clone(), vm);
                    let ghost given = x;
                    let ghost mid = *vm;
                    assert(string_result(*old(vm), mid, given, text@));
                    match x {
                        Err(e) => {
                            value.drop_with_heap(vm);
                            Err(e)
                        },
                        Ok(key) => {
                            assert(instance_at(mid, id) == instance_at(*old(vm), id));
                            replace_attr(id, key, value, vm)
                        },
                    }
                },
            },
            None => {
                let e = no_setattr(t, name.as_str(&vm.interns));
                value.drop_with_heap(vm);
                Err(e)
            },
        }
    }

    /// Whether the value can stand in a `with` statement.
    pub fn py_is_context_manager(&self, vm: &VM) -> (r: bool)
        requires
            vm.ok(*self),
        ensures
            r == (vm.data_of(*self) matches Some(HeapData::OpenFile(_)) || vm.data_of(
                *self,
            ) matches Some(HeapData::TestContextManager(_))),
    {
        match self {
            Value::Ref(id) => match vm.heap.get(*id) {
                HeapData::OpenFile(_) | HeapData::TestContextManager(_) => true,
                _ => false,
            },
            _ => false,
        }
    }
}

} // verus!
