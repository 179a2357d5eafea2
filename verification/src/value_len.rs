//! Lengths and truth of values.

use vstd::prelude::*;

use crate::float::FloatValue;
use crate::heap::HeapData;
use crate::text::chars_of;
use crate::types::str_methods::dict_entries;
use crate::value::Value;
use crate::value_add::lemma_entry_ok;
use crate::value_eq::viewed;
use crate::vm::VM;

verus! {

/// A number as a length, if it fits.
pub open spec fn as_length(n: int) -> Option<usize> {
    if 0 <= n <= usize::MAX {
        Some(n as usize)
    } else {
        None
    }
}

/// The length of a heap entry, if its type has one.
pub open spec fn data_len(vm: VM, d: HeapData) -> Option<usize> {
    match d {
        HeapData::Str(s) => Some(s@.len() as usize),
        HeapData::Bytes(b) => Some(b@.len() as usize),
        HeapData::List(list) => Some(list.items@.len() as usize),
        HeapData::Tuple(tuple) => Some(tuple.items@.len() as usize),
        HeapData::NamedTuple(tuple) => Some(tuple.items@.len() as usize),
        HeapData::Dict(dict) => Some(dict.entries@.len() as usize),
        HeapData::SetData(set) => Some(set.items@.len() as usize),
        HeapData::FrozenSet(set) => Some(set.items@.len() as usize),
        HeapData::Range(range) => as_length(range.count()),
        HeapData::DictKeysView(view) => Some(dict_entries(vm, view.dict_id).len() as usize),
        HeapData::DictItemsView(view) => Some(dict_entries(vm, view.dict_id).len() as usize),
        HeapData::DictValuesView(view) => Some(dict_entries(vm, view.dict_id).len() as usize),
        _ => None,
    }
}

/// Whether a heap entry counts as true: a number that is not zero, a container that
/// is not empty, anything else.
pub open spec fn data_truth(vm: VM, d: HeapData) -> bool {
    match d {
        HeapData::LongInt(li) => li@ != 0,
        HeapData::TimeDelta(delta) => delta.total() != 0,
        _ => data_len(vm, d) != Some(0usize),
    }
}

impl VM {
    /// The length of a value, if its type has one.
    pub open spec fn len_of(self, v: Value) -> Option<usize> {
        match v {
            Value::InternString(id) => Some(self.interns.str_at(id).len() as usize),
            Value::InternBytes(id) => Some(self.interns.bytes_at(id).len() as usize),
            Value::Ref(id) => data_len(self, self.heap.data(id)),
            _ => None,
        }
    }

    /// Whether a value counts as true.
    pub open spec fn truth_of(self, v: Value) -> bool {
        match v {
            Value::Undefined => false,
            Value::PyNone => false,
            Value::Bool(b) => b,
            Value::Int(n) => n != 0,
            Value::Float(f) => f.value() != FloatValue::Finite(0),
            Value::Ref(id) => data_truth(self, self.heap.data(id)),
            _ => self.len_of(v) != Some(0usize),
        }
    }
}

/// A value that has a length counts as true exactly when it is not empty.
pub proof fn lemma_truth_by_length(vm: VM, v: Value)
    requires
        vm.len_of(v) is Some,
    ensures
        vm.truth_of(v) == (vm.len_of(v) != Some(0usize)),
{
}

impl Value {
    /// `len(self)`, if the type has a length. Strings are counted in characters.
    pub fn py_len(&self, vm: &VM) -> (r: Option<usize>)
        requires
            vm.wf(),
            vm.ok(*self),
        ensures
            r == vm.len_of(*self),
    {
        match self {
            Value::InternString(id) => Some(chars_of(vm.interns.get_str(*id)).len()),
            Value::InternBytes(id) => Some(vm.interns.get_bytes(*id).len()),
            Value::Ref(id) => {
                proof {
                    lemma_entry_ok(*vm, *id);
                }
                match vm.heap.get(*id) {
                    HeapData::Str(s) => Some(chars_of(s.as_str()).len()),
                    HeapData::Bytes(b) => Some(b.as_slice().len()),
                    HeapData::List(list) => Some(list.items.len()),
                    HeapData::Tuple(tuple) => Some(tuple.as_slice().len()),
                    HeapData::NamedTuple(tuple) => Some(tuple.items.len()),
                    HeapData::Dict(dict) => Some(dict.entries.len()),
                    HeapData::SetData(set) => Some(set.items.len()),
                    HeapData::FrozenSet(set) => Some(set.items.len()),
                    HeapData::Range(range) => {
                        let n: i128 = range.len();
                        if 0 <= n && n <= usize::MAX as i128 {
                            Some(n as usize)
                        } else {
                            None
                        }
                    },
                    HeapData::DictKeysView(view) => Some(viewed(vm, view.dict_id).len()),
                    HeapData::DictItemsView(view) => Some(viewed(vm, view.dict_id).len()),
                    HeapData::DictValuesView(view) => Some(viewed(vm, view.dict_id).len()),
                    _ => None,
                }
            },
            _ => None,
        }
    }

    /// `bool(self)`.
    pub fn py_bool(&self, vm: &VM) -> (r: bool)
        requires
            vm.wf(),
            vm.ok(*self),
        ensures
            r == vm.truth_of(*self),
    {
        match self {
            Value::Undefined => false,
            Value::PyNone => false,
            Value::Bool(b) => *b,
            Value::Int(n) => *n != 0,
            Value::Float(f) => !f.is_zero(),
            Value::Ref(id) => {
                proof {
                    lemma_entry_ok(*vm, *id);
                }
                match vm.heap.get(*id) {
                    HeapData::LongInt(li) => !li.is_zero(),
                    HeapData::TimeDelta(delta) => {
                        delta.days != 0 || delta.seconds != 0 || delta.microseconds != 0
                    },
                    _ => match self.py_len(vm) {
                        Some(n) => n != 0,
                        None => true,
                    },
                }
            },
            _ => match self.py_len(vm) {
                Some(n) => n != 0,
                None => true,
            },
        }
    }
}

} // verus!
