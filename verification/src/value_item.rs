//! Items of values: subscripts and membership.

use vstd::prelude::*;

use crate::args::{raises, Raised};
use crate::arith::{list_result, new_list, new_tuple, tuple_result};
use crate::exception::{ExcType, RunError, RunResult};
use crate::heap::{with_ref, HeapData};
use crate::outcome::{allocate_bytes, bytes_result};
use crate::release::{lemma_released_data, released};
use crate::text::{chars_of, push_str, string_of};
use crate::types::bytes::{byte_at, get_byte_at_index};
use crate::types::py_type::Type;
use crate::types::slice::{slice_collect_iterator, slice_positions, Slice};
use crate::types::str::{allocate_char, allocate_string, char_at, string_result};
use crate::value::{value_refs, Value};
use crate::value_add::lemma_entry_ok;
use crate::value_int::{bad_index, type_error_indices};
use crate::vm::VM;

verus! {

/// What a subscript gives.
pub enum Item {
    /// A string.
    Text(Seq<char>),
    /// A byte.
    Byte(u8),
    /// Bytes.
    Raw(Seq<u8>),
    /// One of the items.
    One(Value),
    /// A tuple of items.
    TupleOf(Seq<Value>),
    /// A list of items.
    ListOf(Seq<Value>),
    /// An error.
    Raise(Raised),
    /// The container looks it up by its own rules.
    ByContainer,
}

/// The item at an index that counts from the end when negative.
pub open spec fn item_at<T>(s: Seq<T>, index: int) -> Option<T> {
    let place = if index < 0 {
        index + s.len()
    } else {
        index
    };
    if 0 <= place < s.len() {
        Some(s[place])
    } else {
        None
    }
}

/// The items that a slice selects.
pub open spec fn sliced<T>(s: Seq<T>, slice: Slice) -> Seq<T> {
    slice.selected(s.len() as int).map_values(|i: int| s[i])
}

/// The error for a slice whose step is zero.
pub open spec fn zero_step() -> Raised {
    (ExcType::ValueError, "slice step cannot be zero"@)
}

/// The error for an index that is out of range.
pub open spec fn out_of_range(message: Seq<char>) -> Raised {
    (ExcType::IndexError, message)
}

/// The error for a value without items.
pub open spec fn not_subscriptable(t: Type) -> Raised {
    (ExcType::TypeError, "'"@ + t.text() + "' object is not subscriptable"@)
}

impl VM {
    /// The slice that a value refers to.
    pub open spec fn slice_of(self, v: Value) -> Option<Slice> {
        match self.data_of(v) {
            Some(HeapData::Slice(slice)) => Some(slice),
            _ => None,
        }
    }

    /// The index that a value stands for in a literal: only small integers and truth
    /// values are taken.
    pub open spec fn literal_index(self, v: Value, container: Type) -> Result<int, Raised> {
        match v {
            Value::Int(n) => Ok(n as int),
            Value::Bool(b) => Ok(
                if b {
                    1
                } else {
                    0
                },
            ),
            _ => Err(bad_index(container, self.type_of(v))),
        }
    }
}

/// What subscripting a text gives, where the key stands for `index`.
pub open spec fn text_item(vm: VM, s: Seq<char>, key: Value, index: Result<int, Raised>) -> Item {
    match vm.slice_of(key) {
        Some(slice) => if slice.step_or_one() == 0 {
            Item::Raise(zero_step())
        } else {
            Item::Text(sliced(s, slice))
        },
        None => match index {
            Err(e) => Item::Raise(e),
            Ok(i) => match char_at(s, i) {
                Some(c) => Item::Text(seq![c]),
                None => Item::Raise(out_of_range("string index out of range"@)),
            },
        },
    }
}

/// What subscripting bytes gives, where the key stands for `index`.
pub open spec fn bytes_item(vm: VM, b: Seq<u8>, key: Value, index: Result<int, Raised>) -> Item {
    match vm.slice_of(key) {
        Some(slice) => if slice.step_or_one() == 0 {
            Item::Raise(zero_step())
        } else {
            Item::Raw(sliced(b, slice))
        },
        None => match index {
            Err(e) => Item::Raise(e),
            Ok(i) => match byte_at(b, i) {
                Some(x) => Item::Byte(x),
                None => Item::Raise(out_of_range("index out of range"@)),
            },
        },
    }
}

/// What subscripting a tuple or list gives.
pub open spec fn sequence_item(vm: VM, xs: Seq<Value>, key: Value, is_tuple: bool) -> Item {
    match vm.slice_of(key) {
        Some(slice) => if slice.step_or_one() == 0 {
            Item::Raise(zero_step())
        } else if is_tuple {
            Item::TupleOf(sliced(xs, slice))
        } else {
            Item::ListOf(sliced(xs, slice))
        },
        None => match vm.index_of(
            key,
            if is_tuple {
                Type::Tuple
            } else {
                Type::List
            },
        ) {
            Err(e) => Item::Raise(e),
            Ok(i) => match item_at(xs, i) {
                Some(x) => Item::One(x),
                None => Item::Raise(
                    out_of_range(
                        if is_tuple {
                            "tuple index out of range"@
                        } else {
                            "list index out of range"@
                        },
                    ),
                ),
            },
        },
    }
}

/// What subscripting a named tuple gives: only small integers are taken.
pub open spec fn named_item(vm: VM, xs: Seq<Value>, key: Value) -> Item {
    match key {
        Value::Int(n) => match item_at(xs, n as int) {
            Some(x) => Item::One(x),
            None => Item::Raise(out_of_range("tuple index out of range"@)),
        },
        _ => Item::Raise(bad_index(Type::NamedTuple, vm.type_of(key))),
    }
}

/// What subscripting a value gives.
pub open spec fn item_of(vm: VM, v: Value, key: Value) -> Item {
    match v {
        Value::InternString(id) => text_item(
            vm,
            vm.interns.str_at(id),
            key,
            vm.literal_index(key, Type::Str),
        ),
        Value::InternBytes(id) => bytes_item(
            vm,
            vm.interns.bytes_at(id),
            key,
            vm.literal_index(key, Type::Bytes),
        ),
        Value::Ref(id) => match vm.heap.data(id) {
            HeapData::Str(s) => text_item(vm, s@, key, vm.index_of(key, Type::Str)),
            HeapData::Bytes(b) => bytes_item(vm, b@, key, vm.index_of(key, Type::Bytes)),
            HeapData::Tuple(tuple) => sequence_item(vm, tuple.items@, key, true),
            HeapData::List(list) => sequence_item(vm, list.items@, key, false),
            HeapData::NamedTuple(tuple) => named_item(vm, tuple.items@, key),
            HeapData::Dict(_) | HeapData::Range(_) => Item::ByContainer,
            d => Item::Raise(not_subscriptable(d.type_of())),
        },
        _ => Item::Raise(not_subscriptable(vm.type_of(v))),
    }
}

/// An item that is there, or an error.
pub open spec fn given_item(r: RunResult<Option<Value>>) -> Option<RunResult<Value>> {
    match r {
        Ok(Some(v)) => Some(Ok(v)),
        Ok(None) => None,
        Err(e) => Some(Err(e)),
    }
}

/// Whether a subscript did what is said of it.
pub open spec fn item_done(before: VM, after: VM, r: RunResult<Option<Value>>, o: Item) -> bool {
    match o {
        Item::Raise(e) => raises(r, e) && after == before,
        Item::ByContainer => r == Ok::<Option<Value>, RunError>(None) && after == before,
        Item::Byte(b) => r == Ok::<Option<Value>, RunError>(Some(Value::Int(b as i64))) && after
            == before,
        Item::One(v) => {
            &&& r == Ok::<Option<Value>, RunError>(Some(v))
            &&& after.same_setting(before)
            &&& after.entries() == with_ref(before.entries(), v)
        },
        Item::Text(s) => given_item(r) matches Some(x) && string_result(before, after, x, s),
        Item::Raw(b) => given_item(r) matches Some(x) && bytes_result(before, after, x, b),
        Item::TupleOf(xs) => given_item(r) matches Some(x) && tuple_result(before, after, x, xs),
        Item::ListOf(xs) => given_item(r) matches Some(x) && list_result(before, after, x, xs),
    }
}

fn give_item(r: RunResult<Value>) -> (out: RunResult<Option<Value>>)
    ensures
        given_item(out) == Some(r),
{
    match r {
        Ok(v) => Ok(Some(v)),
        Err(e) => Err(e),
    }
}

fn slice_key(key: &Value, vm: &VM) -> (r: Option<Slice>)
    requires
        vm.ok(*key),
    ensures
        r == vm.slice_of(*key),
{
    match key {
        Value::Ref(id) => match vm.heap.get(*id) {
            HeapData::Slice(slice) => Some(
                Slice { start: slice.start, stop: slice.stop, step: slice.step },
            ),
            _ => None,
        },
        _ => None,
    }
}

fn small_index(key: &Value, vm: &VM, container: Type) -> (r: RunResult<i64>)
    requires
        vm.ok(*key),
    ensures
        crate::types::str_args::int_is(r, vm.literal_index(*key, container)),
{
    match key {
        Value::Int(n) => Ok(*n),
        Value::Bool(b) => if *b {
            Ok(1)
        } else {
            Ok(0)
        },
        _ => Err(type_error_indices(container, key.py_type(vm))),
    }
}

fn index_error(message: &str) -> (r: RunError)
    ensures
        r.says(ExcType::IndexError, message@),
{
    RunError::new(ExcType::IndexError, message)
}

fn get_text_item(
    chars: &[char],
    key: &Value,
    index: RunResult<i64>,
    vm: &mut VM,
    Ghost(expected): Ghost<Result<int, Raised>>,
) -> (r: RunResult<Option<Value>>)
    requires
        old(vm).wf(),
        old(vm).ok(*key),
        old(vm).slice_of(*key) is None ==> crate::types::str_args::int_is(index, expected),
    ensures
        final(vm).wf(),
        r matches Ok(Some(v)) ==> final(vm).ok(v),
        item_done(*old(vm), *final(vm), r, text_item(*old(vm), chars@, *key, expected)),
{
    match slice_key(key, vm) {
        Some(slice) => match slice_collect_iterator(&slice, chars) {
            Err(e) => Err(e),
            Ok(selected) => {
                let text = string_of(&selected);
                assert(text@ =~= sliced(chars@, slice));
                give_item(allocate_string(text, vm))
            },
        },
        None => match index {
            Err(e) => Err(e),
            Ok(i) => match place_in(i, chars.len()) {
                None => Err(index_error("string index out of range")),
                Some(place) => give_item(allocate_char(chars[place], vm)),
            },
        },
    }
}

/// Where an index points that counts from the end when negative.
fn place_in(index: i64, len: usize) -> (r: Option<usize>)
    ensures
        match r {
            Some(place) => place < len && place == (if index < 0 {
                index + len
            } else {
                index as int
            }),
            None => !(0 <= (if index < 0 {
                index + len
            } else {
                index as int
            }) < len),
        },
{
    let wide: i128 = if index < 0 {
        index as i128 + len as i128
    } else {
        index as i128
    };
    if wide < 0 || wide >= len as i128 {
        None
    } else {
        Some(wide as usize)
    }
}

fn get_bytes_item(
    bytes: &[u8],
    key: &Value,
    index: RunResult<i64>,
    vm: &mut VM,
    Ghost(expected): Ghost<Result<int, Raised>>,
) -> (r: RunResult<Option<Value>>)
    requires
        old(vm).wf(),
        old(vm).ok(*key),
        old(vm).slice_of(*key) is None ==> crate::types::str_args::int_is(index, expected),
    ensures
        final(vm).wf(),
        r matches Ok(Some(v)) ==> final(vm).ok(v),
        item_done(*old(vm), *final(vm), r, bytes_item(*old(vm), bytes@, *key, expected)),
{
    match slice_key(key, vm) {
        Some(slice) => match slice_collect_iterator(&slice, bytes) {
            Err(e) => Err(e),
            Ok(selected) => {
                assert(selected@ =~= sliced(bytes@, slice));
                give_item(allocate_bytes(selected, vm))
            },
        },
        None => match index {
            Err(e) => Err(e),
            Ok(i) => match get_byte_at_index(bytes, i) {
                None => Err(index_error("index out of range")),
                Some(b) => Ok(Some(Value::Int(b as i64))),
            },
        },
    }
}

/// The items that a slice selects.
fn select_items(xs: &[Value], slice: &Slice) -> (r: RunResult<Vec<Value>>)
    ensures
        match r {
            Ok(out) => slice.step_or_one() != 0 && out@ == sliced(xs@, *slice) && forall|i: int|
                0 <= i < out@.len() ==> xs@.contains(#[trigger] out@[i]),
            Err(e) => slice.step_or_one() == 0 && e.says(zero_step().0, zero_step().1),
        },
{
    let places = match slice_positions(slice, xs.len()) {
        Ok(places) => places,
        Err(e) => {
            return Err(e);
        },
    };
    let ghost selected = slice.selected(xs@.len() as int);
    let mut out: Vec<Value> = Vec::new();
    for k in 0..places.len()
        invariant
            selected == places@.map_values(|x: usize| x as int),
            forall|j: int| 0 <= j < places@.len() ==> places@[j] < xs@.len(),
            out@.len() == k,
            forall|j: int| 0 <= j < k ==> #[trigger] out@[j] == xs@[selected[j]],
            forall|j: int| 0 <= j < k ==> xs@.contains(#[trigger] out@[j]),
    {
        assert(selected[k as int] == places@[k as int] as int);
        out.push(xs[places[k]].alias());
        assert(xs@.contains(xs@[places@[k as int] as int]));
    }
    assert(out@ =~= sliced(xs@, *slice));
    Ok(out)
}

/// Copies of the items, without counting them.
fn aliases(xs: &[Value]) -> (r: Vec<Value>)
    ensures
        r@ == xs@,
{
    let mut out: Vec<Value> = Vec::new();
    for i in 0..xs.len()
        invariant
            out@ == xs@.take(i as int),
    {
        out.push(xs[i].alias());
        assert(out@ =~= xs@.take(i + 1));
    }
    assert(xs@.take(xs@.len() as int) =~= xs@);
    out
}

fn get_sequence_item(xs: &[Value], key: &Value, is_tuple: bool, vm: &mut VM) -> (r: RunResult<
    Option<Value>,
>)
    requires
        old(vm).wf(),
        old(vm).ok(*key),
        old(vm).all_ok(xs@),
    ensures
        final(vm).wf(),
        r matches Ok(Some(v)) ==> final(vm).ok(v),
        item_done(*old(vm), *final(vm), r, sequence_item(*old(vm), xs@, *key, is_tuple)),
{
    match slice_key(key, vm) {
        Some(slice) => match select_items(xs, &slice) {
            Err(e) => Err(e),
            Ok(selected) => {
                proof {
                    assert forall|i: int| 0 <= i < selected@.len() implies vm.ok(
                        #[trigger] selected@[i],
                    ) by {
                        let j = choose|j: int| 0 <= j < xs@.len() && xs@[j] == selected@[i];
                        assert(vm.ok(xs@[j]));
                    }
                }
                if is_tuple {
                    give_item(new_tuple(&selected, vm))
                } else {
                    give_item(new_list(&selected, vm))
                }
            },
        },
        None => {
            let container = if is_tuple {
                Type::Tuple
            } else {
                Type::List
            };
            match key.as_index(vm, container) {
                Err(e) => Err(e),
                Ok(i) => match place_in(i, xs.len()) {
                    None => if is_tuple {
                        Err(index_error("tuple index out of range"))
                    } else {
                        Err(index_error("list index out of range"))
                    },
                    Some(place) => {
                        assert(vm.ok(xs@[place as int]));
                        Ok(Some(vm.clone_value(&xs[place])))
                    },
                },
            }
        },
    }
}

fn get_named_item(xs: &[Value], key: &Value, vm: &mut VM) -> (r: RunResult<Option<Value>>)
    requires
        old(vm).wf(),
        old(vm).ok(*key),
        old(vm).all_ok(xs@),
    ensures
        final(vm).wf(),
        r matches Ok(Some(v)) ==> final(vm).ok(v),
        item_done(*old(vm), *final(vm), r, named_item(*old(vm), xs@, *key)),
{
    match key {
        Value::Int(n) => match place_in(*n, xs.len()) {
            None => Err(index_error("tuple index out of range")),
            Some(place) => {
                assert(vm.ok(xs@[place as int]));
                Ok(Some(vm.clone_value(&xs[place])))
            },
        },
        _ => Err(type_error_indices(Type::NamedTuple, key.py_type(vm))),
    }
}

pub(crate) fn quoted_error(before: &str, t: Type, after: &str) -> (r: RunError)
    ensures
        r.says(ExcType::TypeError, before@ + t.text() + after@),
{
    let mut out: Vec<char> = Vec::new();
    push_str(&mut out, before);
    push_str(&mut out, t.as_str());
    push_str(&mut out, after);
    assert(out@ =~= before@ + t.text() + after@);
    RunError::new_msg(ExcType::TypeError, string_of(&out))
}

impl Value {
    /// `self[key]`; nothing when the container is a dictionary or a range, which
    /// looks its items up by its own rules.
    pub fn py_getitem(&self, key: &Value, vm: &mut VM) -> (r: RunResult<Option<Value>>)
        requires
            old(vm).wf(),
            old(vm).ok(*self),
            old(vm).ok(*key),
        ensures
            final(vm).wf(),
            r matches Ok(Some(v)) ==> final(vm).ok(v),
            item_done(*old(vm), *final(vm), r, item_of(*old(vm), *self, *key)),
    {
        match self {
            Value::InternString(id) => {
                let chars = chars_of(vm.interns.get_str(*id));
                let index = small_index(key, vm, Type::Str);
                get_text_item(&chars, key, index, vm, Ghost(vm.literal_index(*key, Type::Str)))
            },
            Value::InternBytes(id) => {
                let bytes = copy_bytes(vm.interns.get_bytes(*id));
                let index = small_index(key, vm, Type::Bytes);
                get_bytes_item(&bytes, key, index, vm, Ghost(vm.literal_index(*key, Type::Bytes)))
            },
            Value::Ref(id) => {
                proof {
                    lemma_entry_ok(*vm, *id);
                }
                match vm.heap.get(*id) {
                    HeapData::Str(s) => {
                        let chars = chars_of(s.as_str());
                        let index = key.as_index(vm, Type::Str);
                        get_text_item(&chars, key, index, vm, Ghost(vm.index_of(*key, Type::Str)))
                    },
                    HeapData::Bytes(b) => {
                        let bytes = copy_bytes(b.as_slice());
                        let index = key.as_index(vm, Type::Bytes);
                        get_bytes_item(
                            &bytes,
                            key,
                            index,
                            vm,
                            Ghost(vm.index_of(*key, Type::Bytes)),
                        )
                    },
                    HeapData::Tuple(tuple) => {
                        let xs = aliases(tuple.as_slice());
                        get_sequence_item(&xs, key, true, vm)
                    },
                    HeapData::List(list) => {
                        let xs = aliases(list.as_slice());
                        get_sequence_item(&xs, key, false, vm)
                    },
                    HeapData::NamedTuple(tuple) => {
                        let xs = aliases(tuple.items.as_slice());
                        get_named_item(&xs, key, vm)
                    },
                    HeapData::Dict(_) | HeapData::Range(_) => Ok(None),
                    d => Err(quoted_error("'", d.py_type(), "' object is not subscriptable")),
                }
            },
            _ => Err(quoted_error("'", self.py_type(vm), "' object is not subscriptable")),
        }
    }
}

/// The error for a value whose items cannot be assigned.
pub open spec fn no_item_assignment(t: Type) -> Raised {
    (ExcType::TypeError, "'"@ + t.text() + "' object does not support item assignment"@)
}

impl Value {
    /// `self[key] = value`; `false` when the container is a list or a dictionary,
    /// which takes items by its own rules. Every other value refuses them, and an
    /// object in the heap drops what it was given.
    pub fn py_setitem(&self, key: Value, value: Value, vm: &mut VM) -> (r: RunResult<bool>)
        requires
            old(vm).wf(),
            old(vm).ok(*self),
            old(vm).ok(key),
            old(vm).ok(value),
        ensures
            final(vm).wf(),
            final(vm).same_setting(*old(vm)),
            match old(vm).data_of(*self) {
                Some(HeapData::List(_)) | Some(HeapData::Dict(_)) => r == Ok::<bool, RunError>(
                    false,
                ) && final(vm).entries() == old(vm).entries(),
                Some(d) => raises(r, no_item_assignment(d.type_of())) && final(vm).entries()
                    == released(
                    released(old(vm).entries(), value_refs(key)),
                    value_refs(value),
                ),
                None => final(vm).entries() == old(vm).entries() && raises(
                    r,
                    no_item_assignment(old(vm).type_of(*self)),
                ),
            },
    {
        match self {
            Value::Ref(id) => {
                let t = match vm.heap.get(*id) {
                    HeapData::List(_) | HeapData::Dict(_) => {
                        return Ok(false);
                    },
                    d => d.py_type(),
                };
                key.drop_with_heap(vm);
                proof {
                    lemma_released_data(old(vm).entries(), value_refs(key));
                }
                value.drop_with_heap(vm);
                Err(quoted_error("'", t, "' object does not support item assignment"))
            },
            _ => Err(
                quoted_error("'", self.py_type(vm), "' object does not support item assignment"),
            ),
        }
    }
}

pub(crate) fn copy_bytes(b: &[u8]) -> (r: Vec<u8>)
    ensures
        r@ == b@,
{
    let r = crate::types::bytes::sub_bytes(b, 0, b.len());
    assert(r@ =~= b@);
    r
}

} // verus!
