//! The types of values.

use vstd::prelude::*;

use crate::heap::HeapData;
use crate::types::py_type::Type;
use crate::value::{Builtins, Value};
use crate::vm::VM;

verus! {

impl Builtins {
    /// The type of a builtin: classes are types, the others functions.
    pub open spec fn type_of(self) -> Type {
        match self {
            Builtins::Function(_) => Type::BuiltinFunction,
            Builtins::Exception(_) => Type::Type,
            Builtins::Type(_) => Type::Type,
        }
    }
}

impl VM {
    /// The type of a value; one that is not defined counts as `None`.
    pub open spec fn type_of(self, v: Value) -> Type {
        match v {
            Value::Undefined => Type::NoneType,
            Value::Ellipsis => Type::Ellipsis,
            Value::PyNone => Type::NoneType,
            Value::Bool(_) => Type::Bool,
            Value::Int(_) => Type::Int,
            Value::InternLongInt(_) => Type::Int,
            Value::Float(_) => Type::Float,
            Value::InternString(_) => Type::Str,
            Value::InternBytes(_) => Type::Bytes,
            Value::Builtin(b) => b.type_of(),
            Value::ModuleFunction(_) => Type::BuiltinFunction,
            Value::DefFunction(_) => Type::Function,
            Value::ExtFunction(_) => Type::Function,
            Value::Marker(m) => m.type_of(),
            Value::Property(_) => Type::Property,
            Value::Ref(id) => self.heap.data(id).type_of(),
        }
    }
}

/// The type of a value as far as it shows without the heap; `NoneType` stands
/// for whatever a reference refers to.
pub open spec fn shallow_type(v: Value) -> Type {
    match v {
        Value::Undefined => Type::NoneType,
        Value::PyNone => Type::NoneType,
        Value::Ellipsis => Type::Ellipsis,
        Value::Bool(_) => Type::Bool,
        Value::Int(_) => Type::Int,
        Value::InternLongInt(_) => Type::Int,
        Value::Float(_) => Type::Float,
        Value::InternString(_) => Type::Str,
        Value::InternBytes(_) => Type::Bytes,
        Value::Builtin(_) => Type::BuiltinFunction,
        Value::ModuleFunction(_) => Type::Function,
        Value::DefFunction(_) => Type::Function,
        Value::ExtFunction(_) => Type::Function,
        Value::Marker(_) => Type::SpecialForm,
        Value::Property(_) => Type::Property,
        Value::Ref(_) => Type::NoneType,
    }
}

impl Value {
    /// The type of the value.
    pub fn py_type(&self, vm: &VM) -> (r: Type)
        requires
            vm.ok(*self),
        ensures
            r == vm.type_of(*self),
    {
        match self {
            Value::Undefined => Type::NoneType,
            Value::Ellipsis => Type::Ellipsis,
            Value::PyNone => Type::NoneType,
            Value::Bool(_) => Type::Bool,
            Value::Int(_) => Type::Int,
            Value::InternLongInt(_) => Type::Int,
            Value::Float(_) => Type::Float,
            Value::InternString(_) => Type::Str,
            Value::InternBytes(_) => Type::Bytes,
            Value::Builtin(b) => match b {
                Builtins::Function(_) => Type::BuiltinFunction,
                Builtins::Exception(_) => Type::Type,
                Builtins::Type(_) => Type::Type,
            },
            Value::ModuleFunction(_) => Type::BuiltinFunction,
            Value::DefFunction(_) => Type::Function,
            Value::ExtFunction(_) => Type::Function,
            Value::Marker(m) => m.py_type(),
            Value::Property(_) => Type::Property,
            Value::Ref(id) => vm.heap.get(*id).py_type(),
        }
    }

    /// The type of the value as far as it shows without the heap.
    pub fn py_type_shallow(&self) -> (r: Type)
        ensures
            r == shallow_type(*self),
    {
        match self {
            Value::Undefined => Type::NoneType,
            Value::PyNone => Type::NoneType,
            Value::Ellipsis => Type::Ellipsis,
            Value::Bool(_) => Type::Bool,
            Value::Int(_) => Type::Int,
            Value::InternLongInt(_) => Type::Int,
            Value::Float(_) => Type::Float,
            Value::InternString(_) => Type::Str,
            Value::InternBytes(_) => Type::Bytes,
            Value::Builtin(_) => Type::BuiltinFunction,
            Value::ModuleFunction(_) => Type::Function,
            Value::DefFunction(_) => Type::Function,
            Value::ExtFunction(_) => Type::Function,
            Value::Marker(_) => Type::SpecialForm,
            Value::Property(_) => Type::Property,
            Value::Ref(_) => Type::NoneType,
        }
    }

    /// The type of the value, read from the heap where it is a reference.
    pub fn py_type_heap(&self, vm: &VM) -> (r: Type)
        requires
            vm.ok(*self),
        ensures
            r == (match *self {
                Value::Ref(id) => vm.heap.data(id).type_of(),
                v => shallow_type(v),
            }),
    {
        match self {
            Value::Ref(id) => vm.heap.get(*id).py_type(),
            _ => self.py_type_shallow(),
        }
    }

    /// The name of the module that the value is.
    pub open spec fn module_name_of(self, vm: VM) -> Seq<char> {
        match vm.data_of(self) {
            Some(HeapData::Module(name)) => vm.interns.str_at(name),
            _ => "<unknown>"@,
        }
    }

    /// The name of the module that the value is, or `<unknown>`.
    pub fn module_name(&self, vm: &VM) -> (r: String)
        requires
            vm.wf(),
            vm.ok(*self),
        ensures
            r@ == self.module_name_of(*vm),
    {
        match self {
            Value::Ref(id) => match vm.heap.get(*id) {
                HeapData::Module(name) => {
                    proof {
                        assert(crate::heap::data_ok(
                            vm.heap.entries@[id.0 as int].data,
                            vm.heap.entries@.len(),
                            vm.interns,
                        ));
                    }
                    vm.interns.get_str(*name).to_owned()
                },
                _ => "<unknown>".to_owned(),
            },
            _ => "<unknown>".to_owned(),
        }
    }

    /// The text of the value, if it is a string.
    pub fn text<'a>(&'a self, vm: &'a VM) -> (r: Option<&'a str>)
        requires
            vm.ok(*self),
        ensures
            match (r, vm.text_of(*self)) {
                (Some(s), Some(t)) => s@ == t,
                (None, None) => true,
                _ => false,
            },
    {
        match self {
            Value::InternString(id) => Some(vm.interns.get_str(*id)),
            Value::Ref(id) => match vm.heap.get(*id) {
                HeapData::Str(s) => Some(s.as_str()),
                _ => None,
            },
            _ => None,
        }
    }

    /// The bytes of the value, if it is bytes.
    pub fn raw_bytes<'a>(&'a self, vm: &'a VM) -> (r: Option<&'a [u8]>)
        requires
            vm.ok(*self),
        ensures
            match (r, vm.bytes_of(*self)) {
                (Some(b), Some(t)) => b@ == t,
                (None, None) => true,
                _ => false,
            },
    {
        match self {
            Value::InternBytes(id) => Some(vm.interns.get_bytes(*id).as_slice()),
            Value::Ref(id) => match vm.heap.get(*id) {
                HeapData::Bytes(b) => Some(b.as_slice()),
                _ => None,
            },
            _ => None,
        }
    }

    /// Whether the value is a string.
    pub fn is_str(&self, vm: &VM) -> (r: bool)
        requires
            vm.ok(*self),
        ensures
            r == (vm.text_of(*self) is Some),
    {
        self.text(vm).is_some()
    }

    /// The value as a name, if it is a string.
    pub fn as_either_str(&self, vm: &VM) -> (r: Option<crate::value::EitherStr>)
        requires
            vm.ok(*self),
        ensures
            match *self {
                Value::InternString(id) => r == Some(crate::value::EitherStr::Interned(id)),
                Value::Ref(id) => match vm.heap.data(id) {
                    HeapData::Str(s) => r matches Some(crate::value::EitherStr::Heap(t)) && t@ == s@,
                    _ => r is None,
                },
                _ => r is None,
            },
    {
        match self {
            Value::InternString(id) => Some(crate::value::EitherStr::Interned(*id)),
            Value::Ref(id) => match vm.heap.get(*id) {
                HeapData::Str(s) => Some(crate::value::EitherStr::Heap(s.as_str().to_owned())),
                _ => None,
            },
            _ => None,
        }
    }
}

} // verus!
