//! Instances of dataclasses as objects: attributes and methods.

use vstd::prelude::*;

use crate::args::{raises, ArgValues, Raised};
use crate::call::CallResult;
use crate::exception::{ExcType, RunError, RunResult};
use crate::heap::{with_ref, HeapData, HeapId};
use crate::release::{lemma_released_data, released};
use crate::text::{chars_of, string_of};
use crate::types::containers::Dict;
use crate::types::dataclass::{
    find_named, lemma_named_place, named_entry, named_place, Dataclass,
};
use crate::types::path::strings;
use crate::types::path_ops::prepended;
use crate::types::py_type::Type;
use crate::types::str_methods::{attribute_error, no_attribute};
use crate::types::str_repr::{repr_text, string_repr_fmt};
use crate::value::{value_refs, EitherStr, Value};
use crate::value_add::lemma_entry_ok;
use crate::value_item::quoted_error;
use crate::vm::VM;

verus! {

/// The instance that an entry holds.
pub open spec fn instance_at(vm: VM, id: HeapId) -> Option<Dataclass> {
    match vm.heap.data(id) {
        HeapData::Dataclass(instance) => Some(instance),
        _ => None,
    }
}

/// The attributes with one of them set: in its place, or else at the end.
pub open spec fn with_attr(
    vm: VM,
    entries: Seq<(Value, Value)>,
    key: Value,
    value: Value,
) -> Seq<(Value, Value)> {
    let i = named_place(vm, entries, vm.text_of(key)->0, 0);
    if i < entries.len() {
        entries.update(i, (entries[i].0, value))
    } else {
        entries.push((key, value))
    }
}

/// Whether an instance is another with these attributes.
pub open spec fn instance_with(
    made: Dataclass,
    instance: Dataclass,
    entries: Seq<(Value, Value)>,
) -> bool {
    &&& made.name == instance.name
    &&& made.type_id == instance.type_id
    &&& strings(made.field_names@) == strings(instance.field_names@)
    &&& made.frozen == instance.frozen
    &&& made.attrs.entries@ == entries
}

/// Whether nothing changed but the attributes of an instance.
pub open spec fn attrs_set(before: VM, after: VM, id: HeapId, entries: Seq<(Value, Value)>) -> bool {
    &&& after.same_setting(before)
    &&& after.entries().len() == before.entries().len()
    &&& forall|j: int|
        0 <= j < before.entries().len() && j != id.0 ==> after.entries()[j]
            == #[trigger] before.entries()[j]
    &&& after.entries()[id.0 as int].refs == before.entries()[id.0 as int].refs
    &&& instance_at(before, id) matches Some(instance) && instance_at(after, id) matches Some(made)
        && instance_with(made, instance, entries)
}

/// The error for setting a field of a frozen instance.
pub open spec fn frozen_error(name: Seq<char>) -> Raised {
    (ExcType::FrozenInstanceError, "cannot assign to field "@ + repr_text(name))
}

/// Whether setting an attribute did what it should: a frozen instance refuses and
/// drops what it was given; else the value that was there before is handed out.
pub open spec fn set_attr_done(
    before: VM,
    after: VM,
    r: RunResult<Option<Value>>,
    id: HeapId,
    key: Value,
    value: Value,
) -> bool {
    let instance = instance_at(before, id)->0;
    let entries = instance.attrs.entries@;
    let name = before.text_of(key)->0;
    let i = named_place(before, entries, name, 0);
    if instance.frozen {
        &&& raises(r, frozen_error(name))
        &&& after.same_setting(before)
        &&& after.entries() == released(
            released(before.entries(), value_refs(key)),
            value_refs(value),
        )
    } else if i < entries.len() {
        &&& r == Ok::<Option<Value>, RunError>(Some(entries[i].1))
        &&& exists|mid: VM|
            #[trigger] attrs_set(before, mid, id, with_attr(before, entries, key, value))
                && after.same_setting(mid) && after.entries() == released(
                mid.entries(),
                value_refs(key),
            )
    } else {
        &&& r == Ok::<Option<Value>, RunError>(None)
        &&& attrs_set(before, after, id, with_attr(before, entries, key, value))
    }
}

fn copy_strings(all: &Vec<String>) -> (r: Vec<String>)
    ensures
        strings(r@) == strings(all@),
{
    let mut out: Vec<String> = Vec::new();
    for i in 0..all.len()
        invariant
            out@.len() == i,
            forall|j: int| 0 <= j < i ==> (#[trigger] out@[j])@ == all@[j]@,
    {
        out.push(all[i].clone());
    }
    assert(strings(out@) =~= strings(all@));
    out
}

fn changed_entries(entries: &Vec<(Value, Value)>, place: usize, key: &Value, value: &Value) -> (r: Vec<
    (Value, Value),
>)
    requires
        place <= entries@.len(),
    ensures
        r@ == (if place < entries@.len() {
            entries@.update(place as int, (entries@[place as int].0, *value))
        } else {
            entries@.push((*key, *value))
        }),
{
    let mut out: Vec<(Value, Value)> = Vec::new();
    for i in 0..entries.len()
        invariant
            out@.len() == i,
            forall|j: int|
                0 <= j < i ==> #[trigger] out@[j] == (if j == place {
                    (entries@[j].0, *value)
                } else {
                    entries@[j]
                }),
    {
        if i == place {
            out.push((entries[i].0.alias(), value.alias()));
        } else {
            out.push((entries[i].0.alias(), entries[i].1.alias()));
        }
    }
    if place == entries.len() {
        out.push((key.alias(), value.alias()));
    }
    proof {
        if place < entries@.len() {
            assert(out@ =~= entries@.update(place as int, (entries@[place as int].0, *value)));
        } else {
            assert(out@ =~= entries@.push((*key, *value)));
        }
    }
    out
}

impl Dataclass {
    /// Sets an attribute of the instance at `self_id`, and hands out the value that
    /// was there before.
    pub fn set_attr(self_id: HeapId, name: Value, value: Value, vm: &mut VM) -> (r: RunResult<
        Option<Value>,
    >)
        requires
            old(vm).wf(),
            self_id.0 < old(vm).entries().len(),
            instance_at(*old(vm), self_id) is Some,
            old(vm).ok(name),
            old(vm).ok(value),
            old(vm).text_of(name) is Some,
        ensures
            final(vm).wf(),
            r matches Ok(Some(v)) ==> final(vm).ok(v),
            set_attr_done(*old(vm), *final(vm), r, self_id, name, value),
    {
        proof {
            lemma_entry_ok(*vm, self_id);
        }
        let ghost before = *vm;
        let text = match name.text(vm) {
            Some(text) => text.to_owned(),
            None => String::new(),
        };
        let (previous, made) = match vm.heap.get(self_id) {
            HeapData::Dataclass(instance) => {
                if instance.frozen {
                    let mut out = chars_of("cannot assign to field ");
                    string_repr_fmt(text.as_str(), &mut out);
                    assert(out@ =~= frozen_error(text@).1);
                    let e = RunError::new_msg(ExcType::FrozenInstanceError, string_of(&out));
                    name.drop_with_heap(vm);
                    proof {
                        lemma_released_data(before.entries(), value_refs(name));
                    }
                    value.drop_with_heap(vm);
                    return Err(e);
                }
                let entries = &instance.attrs.entries;
                let place: usize = find_named(entries, text.as_str(), vm);
                proof {
                    lemma_named_place(*vm, entries@, text@, 0);
                }
                let previous = if place < entries.len() {
                    assert(vm.ok(entries@[place as int].1));
                    Some(entries[place].1.alias())
                } else {
                    None
                };
                let changed = changed_entries(entries, place, &name, &value);
                let made = Dataclass {
                    name: instance.name.duplicate(),
                    type_id: instance.type_id,
                    field_names: copy_strings(&instance.field_names),
                    attrs: Dict { entries: changed },
                    frozen: instance.frozen,
                };
                (previous, made)
            },
            _ => {
                return Ok(None);
            },
        };
        vm.set_data(self_id, HeapData::Dataclass(made));
        let ghost mid = *vm;
        proof {
            let entries = instance_at(before, self_id)->0.attrs.entries@;
            assert(attrs_set(before, mid, self_id, with_attr(before, entries, name, value)));
        }
        if previous.is_some() {
            name.drop_with_heap(vm);
            proof {
                lemma_released_data(mid.entries(), value_refs(name));
            }
        }
        Ok(previous)
    }
}

/// Whether reading an attribute of an instance did what it should.
pub open spec fn instance_attr_done(
    before: VM,
    after: VM,
    r: RunResult<CallResult>,
    instance: Dataclass,
    attr: Seq<char>,
) -> bool {
    match named_entry(before, instance.attrs.entries@, attr) {
        Some(v) => {
            &&& r == Ok::<CallResult, RunError>(CallResult::Value(v))
            &&& after.same_setting(before)
            &&& after.entries() == with_ref(before.entries(), v)
        },
        None => after == before && raises(
            r,
            no_attribute(instance.name.text(before.interns), attr),
        ),
    }
}

/// Reads an attribute of the instance at `self_id`. Errors name its class.
pub fn py_getattr(self_id: HeapId, attr: &EitherStr, vm: &mut VM) -> (r: RunResult<CallResult>)
    requires
        old(vm).wf(),
        self_id.0 < old(vm).entries().len(),
        instance_at(*old(vm), self_id) is Some,
        attr.ok(old(vm).interns),
    ensures
        final(vm).wf(),
        r matches Ok(CallResult::Value(v)) ==> final(vm).ok(v),
        instance_attr_done(
            *old(vm),
            *final(vm),
            r,
            instance_at(*old(vm), self_id)->0,
            attr.text(old(vm).interns),
        ),
{
    proof {
        lemma_entry_ok(*vm, self_id);
    }
    let name = attr.as_str(&vm.interns);
    let found = match vm.heap.get(self_id) {
        HeapData::Dataclass(instance) => match instance.attrs.get_by_str(name, vm) {
            Some(v) => v.alias(),
            None => {
                return Err(attribute_error(instance.name(&vm.interns), name));
            },
        },
        _ => Value::Undefined,
    };
    Ok(CallResult::Value(vm.clone_value(&found)))
}

/// Whether a name is public.
pub open spec fn is_public(name: Seq<char>) -> bool {
    name.len() == 0 || name[0] != '_'
}

/// The error for calling what cannot be called.
pub open spec fn not_callable(t: Type) -> Raised {
    (ExcType::TypeError, "'"@ + t.text() + "' object is not callable"@)
}

/// Whether calling a method of an instance did what it should: the host has the
/// methods with public names, and the arguments go to it behind the instance, of
/// which there is one more reference; attributes are not called.
pub open spec fn instance_call_done(
    before: VM,
    after: VM,
    r: RunResult<CallResult>,
    id: HeapId,
    instance: Dataclass,
    attr: EitherStr,
    args: ArgValues,
) -> bool {
    let name = attr.text(before.interns);
    match named_entry(before, instance.attrs.entries@, name) {
        Some(v) => raises(r, not_callable(before.type_of(v))) && args.consumed(before, after),
        None => if is_public(name) {
            &&& r matches Ok(CallResult::MethodCall(method, longer))
            &&& method == attr
            &&& prepended(args, Value::Ref(id), longer)
            &&& after.same_setting(before)
            &&& after.entries() == with_ref(before.entries(), Value::Ref(id))
        } else {
            args.consumed(before, after) && raises(
                r,
                no_attribute(instance.name.text(before.interns), name),
            )
        },
    }
}

fn has_public_name(name: &str) -> (r: bool)
    ensures
        r == is_public(name@),
{
    let chars = chars_of(name);
    chars.len() == 0 || chars[0] != '_'
}

/// Calls a method of the instance at `self_id`.
pub fn py_call_attr(self_id: HeapId, vm: &mut VM, attr: &EitherStr, args: ArgValues) -> (r: RunResult<
    CallResult,
>)
    requires
        old(vm).wf(),
        self_id.0 < old(vm).entries().len(),
        instance_at(*old(vm), self_id) is Some,
        attr.ok(old(vm).interns),
        args.ok(old(vm).entries().len(), old(vm).interns),
    ensures
        final(vm).wf(),
        r matches Ok(CallResult::Value(v)) ==> final(vm).ok(v),
        !(r matches Ok(CallResult::Value(_))),
        instance_call_done(
            *old(vm),
            *final(vm),
            r,
            self_id,
            instance_at(*old(vm), self_id)->0,
            *attr,
            args,
        ),
{
    proof {
        lemma_entry_ok(*vm, self_id);
    }
    let name = attr.as_str(&vm.interns);
    match vm.heap.get(self_id) {
        HeapData::Dataclass(instance) => match instance.attrs.get_by_str(name, vm) {
            Some(v) => {
                let e = quoted_error("'", v.py_type(vm), "' object is not callable");
                args.release(vm);
                return Err(e);
            },
            None => {
                if !has_public_name(name) {
                    let e = attribute_error(instance.name(&vm.interns), name);
                    args.release(vm);
                    return Err(e);
                }
            },
        },
        _ => {},
    }
    let this = vm.clone_value(&Value::Ref(self_id));
    Ok(CallResult::MethodCall(attr.duplicate(), args.prepend(this)))
}

/// An attribute that was set is read back, and the other attributes are as they
/// were.
pub proof fn lemma_set_then_get(
    vm: VM,
    entries: Seq<(Value, Value)>,
    key: Value,
    value: Value,
    other: Seq<char>,
)
    requires
        vm.text_of(key) is Some,
    ensures
        named_entry(vm, with_attr(vm, entries, key, value), vm.text_of(key)->0) == Some(value),
        other != vm.text_of(key)->0 ==> named_entry(
            vm,
            with_attr(vm, entries, key, value),
            other,
        ) == named_entry(vm, entries, other),
{
    let name = vm.text_of(key)->0;
    let made = with_attr(vm, entries, key, value);
    lemma_named_place(vm, entries, name, 0);
    lemma_place_kept(vm, entries, key, value, name, 0);
    lemma_named_place(vm, entries, other, 0);
    lemma_found_text(vm, entries, name, 0);
    if other != name {
        lemma_place_kept(vm, entries, key, value, other, 0);
        lemma_found_text(vm, entries, other, 0);
    }
}

/// What is found has the text that was looked for.
proof fn lemma_found_text(vm: VM, entries: Seq<(Value, Value)>, name: Seq<char>, i: int)
    requires
        0 <= i <= entries.len(),
    ensures
        ({
            let p = named_place(vm, entries, name, i);
            i <= p <= entries.len() && (p < entries.len() ==> vm.text_of(entries[p].0) == Some(
                name,
            ))
        }),
    decreases entries.len() - i,
{
    if i < entries.len() && vm.text_of(entries[i].0) != Some(name) {
        lemma_found_text(vm, entries, name, i + 1);
    }
}

/// Setting an attribute moves none: what was found is found in the same place, and
/// what was not found is found at most at the end.
proof fn lemma_place_kept(
    vm: VM,
    entries: Seq<(Value, Value)>,
    key: Value,
    value: Value,
    name: Seq<char>,
    i: int,
)
    requires
        vm.text_of(key) is Some,
        0 <= i <= entries.len(),
        named_place(vm, entries, vm.text_of(key)->0, 0) <= entries.len(),
        named_place(vm, entries, vm.text_of(key)->0, 0) >= 0,
    ensures
        ({
            let made = with_attr(vm, entries, key, value);
            let p = named_place(vm, entries, name, i);
            named_place(vm, made, name, i) == (if p < entries.len() || vm.text_of(key) == Some(
                name,
            ) {
                p
            } else {
                made.len() as int
            })
        }),
    decreases entries.len() - i,
{
    let made = with_attr(vm, entries, key, value);
    if i < entries.len() {
        assert(made[i].0 == entries[i].0);
        if vm.text_of(entries[i].0) != Some(name) {
            lemma_place_kept(vm, entries, key, value, name, i + 1);
        }
    } else if made.len() > entries.len() {
        assert(made[i].0 == key);
        reveal_with_fuel(named_place, 3);
    }
}

} // verus!
