//! Identities of values.

use vstd::bytes::{spec_u64_to_le_bytes, u64_to_le_bytes};
use vstd::prelude::*;

use crate::heap::{HeapData, HeapId};
use crate::value::{Builtins, Value};
use crate::value_eq::ext_name;
use crate::value_hash::{
    as_unsigned, hash_bytes, hash_named, hash_python_str, mixed, named_hash, numbers_hash,
    one_number, text_hash, unsigned,
};
use crate::vm::VM;

verus! {

/// The kinds of identities, by the place of their highest bit, counted from the top.
pub const SINGLETON_KIND: u32 = 1;

pub const INTERN_STR_KIND: u32 = 2;

pub const INTERN_BYTES_KIND: u32 = 3;

pub const HEAP_KIND: u32 = 4;

pub const INT_KIND: u32 = 5;

pub const FLOAT_KIND: u32 = 6;

pub const BUILTIN_KIND: u32 = 7;

pub const FUNCTION_KIND: u32 = 8;

pub const EXTFUNCTION_KIND: u32 = 9;

pub const MARKER_KIND: u32 = 10;

pub const MODULE_FUNCTION_KIND: u32 = 12;

pub const INTERN_LONG_INT_KIND: u32 = 13;

pub const PROPERTY_KIND: u32 = 14;

/// The highest bit of the identities of a kind.
pub open spec fn tag(kind: u32) -> usize {
    1usize << ((usize::BITS - kind) as u32)
}

/// The identity of a kind with the low bits of a number.
pub open spec fn tagged(kind: u32, n: usize) -> usize {
    tag(kind) | (n & ((tag(kind) - 1) as usize))
}

/// The identity of a kind with the low bits of a number.
fn tagged_id(kind: u32, n: usize) -> (r: usize)
    requires
        1 <= kind <= 14,
    ensures
        r == tagged(kind, n),
{
    let shift: u32 = usize::BITS - kind;
    let high: usize = 1usize << shift;
    assert(high >= 1) by (bit_vector)
        requires
            high == 1usize << shift,
            shift < usize::BITS,
    ;
    high | (n & (high - 1))
}

/// The low bits of a hash.
pub open spec fn low_bits(h: u64) -> usize {
    (h & (usize::MAX as u64)) as usize
}

fn low(h: u64) -> (r: usize)
    ensures
        r == low_bits(h),
{
    (h & (usize::MAX as u64)) as usize
}

/// The hash that the identity of a builtin is made of.
pub open spec fn builtin_hash(b: Builtins) -> u64 {
    match b {
        Builtins::Function(n) => numbers_hash(3, seq![n as i64]),
        Builtins::Exception(n) => numbers_hash(4, seq![n as i64]),
        Builtins::Type(t) => named_hash(5, t.text()),
    }
}

/// The identity of a heap entry.
pub open spec fn heap_identity(id: HeapId) -> usize {
    tagged(HEAP_KIND, id.0)
}

/// The identity of a function of the host: it depends on nothing but the name.
pub open spec fn ext_identity(name: Seq<char>) -> usize {
    tagged(EXTFUNCTION_KIND, low_bits(text_hash(name)))
}

/// The identity of a value.
pub open spec fn identity(vm: VM, v: Value) -> usize {
    match v {
        Value::Undefined => tagged(SINGLETON_KIND, 0),
        Value::Ellipsis => tagged(SINGLETON_KIND, 1),
        Value::PyNone => tagged(SINGLETON_KIND, 2),
        Value::Bool(false) => tagged(SINGLETON_KIND, 3),
        Value::Bool(true) => tagged(SINGLETON_KIND, 4),
        Value::InternString(id) => tagged(INTERN_STR_KIND, id.0),
        Value::InternBytes(id) => tagged(INTERN_BYTES_KIND, id.0),
        Value::InternLongInt(id) => tagged(INTERN_LONG_INT_KIND, id.0),
        Value::Int(n) => tagged(
            INT_KIND,
            low_bits(mixed(seq![spec_u64_to_le_bytes(unsigned(n as int))])),
        ),
        Value::Float(f) => tagged(FLOAT_KIND, low_bits(mixed(seq![spec_u64_to_le_bytes(f.0)]))),
        Value::Builtin(b) => tagged(BUILTIN_KIND, low_bits(builtin_hash(b))),
        Value::ModuleFunction(m) => tagged(
            MODULE_FUNCTION_KIND,
            low_bits(numbers_hash(6, seq![m.0 as i64])),
        ),
        Value::DefFunction(f) => tagged(FUNCTION_KIND, f.0),
        Value::ExtFunction(id) => ext_identity(vm.interns.str_at(id)),
        Value::Marker(m) => tagged(MARKER_KIND, m.0.position() as usize),
        Value::Property(p) => tagged(PROPERTY_KIND, p.0 as usize),
        Value::Ref(id) => match vm.heap.data(id) {
            HeapData::ExtFunction(name) => ext_identity(name@),
            _ => heap_identity(id),
        },
    }
}

/// The kind of a value's identity.
pub open spec fn identity_kind(vm: VM, v: Value) -> u32 {
    match v {
        Value::Undefined | Value::Ellipsis | Value::PyNone | Value::Bool(_) => SINGLETON_KIND,
        Value::InternString(_) => INTERN_STR_KIND,
        Value::InternBytes(_) => INTERN_BYTES_KIND,
        Value::InternLongInt(_) => INTERN_LONG_INT_KIND,
        Value::Int(_) => INT_KIND,
        Value::Float(_) => FLOAT_KIND,
        Value::Builtin(_) => BUILTIN_KIND,
        Value::ModuleFunction(_) => MODULE_FUNCTION_KIND,
        Value::DefFunction(_) => FUNCTION_KIND,
        Value::ExtFunction(_) => EXTFUNCTION_KIND,
        Value::Marker(_) => MARKER_KIND,
        Value::Property(_) => PROPERTY_KIND,
        Value::Ref(id) => match vm.heap.data(id) {
            HeapData::ExtFunction(_) => EXTFUNCTION_KIND,
            _ => HEAP_KIND,
        },
    }
}

/// The identity of a heap entry.
pub fn heap_tagged_id(heap_id: HeapId) -> (r: usize)
    ensures
        r == heap_identity(heap_id),
{
    tagged_id(HEAP_KIND, heap_id.index())
}

fn word_hash(n: u64) -> (r: u64)
    ensures
        r == mixed(seq![spec_u64_to_le_bytes(n)]),
{
    let bytes = u64_to_le_bytes(n);
    hash_bytes(&bytes)
}

fn builtin_value_id(b: Builtins) -> (r: usize)
    ensures
        r == tagged(BUILTIN_KIND, low_bits(builtin_hash(b))),
{
    let h: u64 = match b {
        Builtins::Function(n) => one_number(3, n as i64),
        Builtins::Exception(n) => one_number(4, n as i64),
        Builtins::Type(t) => hash_named(5, t.as_str()),
    };
    tagged_id(BUILTIN_KIND, low(h))
}

fn ext_function_value_id(name: &str) -> (r: usize)
    ensures
        r == ext_identity(name@),
{
    tagged_id(EXTFUNCTION_KIND, low(hash_python_str(name)))
}

impl Value {
    /// The identity of the value: a number that tells objects apart. Small values
    /// have identities that are computed from what they are.
    pub fn id(&self, vm: &VM) -> (r: usize)
        requires
            vm.ok(*self),
        ensures
            r == identity(*vm, *self),
    {
        match self {
            Value::Undefined => tagged_id(SINGLETON_KIND, 0),
            Value::Ellipsis => tagged_id(SINGLETON_KIND, 1),
            Value::PyNone => tagged_id(SINGLETON_KIND, 2),
            Value::Bool(b) => if *b {
                tagged_id(SINGLETON_KIND, 4)
            } else {
                tagged_id(SINGLETON_KIND, 3)
            },
            Value::InternString(id) => tagged_id(INTERN_STR_KIND, id.0),
            Value::InternBytes(id) => tagged_id(INTERN_BYTES_KIND, id.0),
            Value::InternLongInt(id) => tagged_id(INTERN_LONG_INT_KIND, id.0),
            Value::Int(n) => tagged_id(INT_KIND, low(word_hash(as_unsigned(*n)))),
            Value::Float(f) => tagged_id(FLOAT_KIND, low(word_hash(f.0))),
            Value::Builtin(b) => builtin_value_id(*b),
            Value::ModuleFunction(m) => tagged_id(
                MODULE_FUNCTION_KIND,
                low(one_number(6, m.0 as i64)),
            ),
            Value::DefFunction(f) => tagged_id(FUNCTION_KIND, f.0),
            Value::ExtFunction(id) => ext_function_value_id(vm.interns.get_str(*id)),
            Value::Marker(m) => tagged_id(MARKER_KIND, m.0.index()),
            Value::Property(p) => tagged_id(PROPERTY_KIND, p.0 as usize),
            Value::Ref(id) => match vm.heap.get(*id) {
                HeapData::ExtFunction(name) => ext_function_value_id(name.as_str()),
                _ => heap_tagged_id(*id),
            },
        }
    }

    /// `self is other`.
    pub fn is(&self, other: &Value, vm: &VM) -> (r: bool)
        requires
            vm.ok(*self),
            vm.ok(*other),
        ensures
            r == (identity(*vm, *self) == identity(*vm, *other)),
    {
        self.id(vm) == other.id(vm)
    }
}

proof fn lemma_tag_range(kind: u32, n: usize)
    requires
        1 <= kind <= 14,
    ensures
        tag(kind) <= tagged(kind, n),
        tagged(kind, n) <= tag(kind) + (tag(kind) - 1),
        n < tag(kind) ==> tagged(kind, n) == tag(kind) + n,
{
    let shift = (usize::BITS - kind) as u32;
    let high = 1usize << shift;
    assert(high >= 1) by (bit_vector)
        requires
            high == 1usize << shift,
            shift < usize::BITS,
    ;
    let mask = (high - 1) as usize;
    assert(high <= (high | (n & mask)) && (high | (n & mask)) <= high + mask && (n < high ==> (high
        | (n & mask)) == high + n)) by (bit_vector)
        requires
            high == 1usize << shift,
            shift < usize::BITS,
            mask == high - 1,
    ;
}

proof fn lemma_tags_ordered(less: u32, more: u32)
    requires
        1 <= less < more <= 14,
    ensures
        2 * tag(more) <= tag(less),
{
    let a = (usize::BITS - less) as u32;
    let b = (usize::BITS - more) as u32;
    assert(2 * (1usize << b) <= (1usize << a)) by (bit_vector)
        requires
            b < a,
            a < usize::BITS,
    ;
}

/// Identities of different kinds are different: no value is taken for one of
/// another kind.
pub proof fn lemma_kinds_differ(vm: VM, a: Value, b: Value)
    requires
        identity_kind(vm, a) != identity_kind(vm, b),
    ensures
        identity(vm, a) != identity(vm, b),
{
    let j = identity_kind(vm, a);
    let k = identity_kind(vm, b);
    let x = identity_number(vm, a);
    let y = identity_number(vm, b);
    lemma_tag_range(j, x);
    lemma_tag_range(k, y);
    if j < k {
        lemma_tags_ordered(j, k);
    } else {
        lemma_tags_ordered(k, j);
    }
}

/// The number whose low bits are in a value's identity.
spec fn identity_number(vm: VM, v: Value) -> usize {
    match v {
        Value::Undefined => 0,
        Value::Ellipsis => 1,
        Value::PyNone => 2,
        Value::Bool(b) => if b {
            4
        } else {
            3
        },
        Value::InternString(id) => id.0,
        Value::InternBytes(id) => id.0,
        Value::InternLongInt(id) => id.0,
        Value::Int(n) => low_bits(mixed(seq![spec_u64_to_le_bytes(unsigned(n as int))])),
        Value::Float(f) => low_bits(mixed(seq![spec_u64_to_le_bytes(f.0)])),
        Value::Builtin(b) => low_bits(builtin_hash(b)),
        Value::ModuleFunction(m) => low_bits(numbers_hash(6, seq![m.0 as i64])),
        Value::DefFunction(f) => f.0,
        Value::ExtFunction(id) => low_bits(text_hash(vm.interns.str_at(id))),
        Value::Marker(m) => m.0.position() as usize,
        Value::Property(p) => p.0 as usize,
        Value::Ref(id) => match vm.heap.data(id) {
            HeapData::ExtFunction(name) => low_bits(text_hash(name@)),
            _ => id.0,
        },
    }
}

/// Two objects in the heap are one exactly when their entries are the same, as
/// long as the entries are numbered below the bit of their kind.
pub proof fn lemma_heap_identity(vm: VM, a: HeapId, b: HeapId)
    requires
        a.0 < tag(HEAP_KIND),
        b.0 < tag(HEAP_KIND),
        !(vm.heap.data(a) is ExtFunction),
        !(vm.heap.data(b) is ExtFunction),
    ensures
        identity(vm, Value::Ref(a)) == identity(vm, Value::Ref(b)) <==> a == b,
{
    lemma_tag_range(HEAP_KIND, a.0);
    lemma_tag_range(HEAP_KIND, b.0);
}

/// Functions of the host with one name are one object, whether the name is
/// interned or in the heap.
pub proof fn lemma_ext_identity(vm: VM, a: Value, b: Value)
    requires
        ext_name(vm, a) is Some,
        ext_name(vm, a) == ext_name(vm, b),
    ensures
        identity(vm, a) == identity(vm, b),
{
}

/// The singletons are all different.
pub proof fn lemma_singletons_differ(vm: VM, a: Value, b: Value)
    requires
        identity_kind(vm, a) == SINGLETON_KIND,
        identity_kind(vm, b) == SINGLETON_KIND,
    ensures
        identity(vm, a) == identity(vm, b) <==> a == b,
{
    let high = tag(SINGLETON_KIND);
    let shift = (usize::BITS - SINGLETON_KIND) as u32;
    assert(high >= 1024) by (bit_vector)
        requires
            high == 1usize << shift,
            shift == usize::BITS - 1,
    ;
    lemma_tag_range(SINGLETON_KIND, identity_number(vm, a));
    lemma_tag_range(SINGLETON_KIND, identity_number(vm, b));
}

} // verus!
