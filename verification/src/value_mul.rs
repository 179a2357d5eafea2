//! Multiplication of values.

use vstd::prelude::*;
use vstd::utf8::encode_utf8;

use crate::arith::{
    computed, done, lemma_repeated_from, memory_error, new_list, new_tuple, raised, repeated,
    rounded, Arith, Computed, Operand,
};
use crate::args::raises;
use crate::bigint::{addressable_bits, bit_length, magnitude};
use crate::exception::{ExcType, RunError, RunResult};
use crate::float::{FloatOp, FloatOperand};
use crate::heap::{HeapData, HeapId};
use crate::outcome::{allocate_bytes, allocate_object, object_result};
use crate::text::{byte_len, chars_of, push_range, string_of};
use crate::types::bytes::push_bytes;
use crate::types::long_int::LongInt;
use crate::types::str::allocate_string;
use crate::types::timedelta::{
    days_error, duration_in_range, from_total_microseconds, total_microseconds,
};
use crate::value::Value;
use crate::value_add::lemma_entry_ok;
use crate::value_int::{i64_bits, i64_to_repeat_count, longint_to_repeat_count, repeat_count};
use crate::vm::VM;

verus! {

/// The memory that a value takes in a container, in bytes.
pub const VALUE_SIZE: usize = 16;

/// Whether an integer of this many bits is too large for the limit on results.
pub open spec fn too_many_bits(vm: VM, bits: int) -> bool {
    (bits + 7) / 8 > vm.heap.max_bytes || !addressable_bits(bits)
}

/// Checks the size of an integer result.
pub fn check_bits(vm: &VM, bits: u128) -> (r: RunResult<()>)
    ensures
        if too_many_bits(*vm, bits as int) {
            raises(r, memory_error())
        } else {
            r is Ok
        },
{
    if bits > 0x100_0000_0000_0000_0000_0000 {
        return Err(RunError::new(ExcType::MemoryError, "memory limit exceeded"));
    }
    if (bits + 7) / 8 > vm.heap.max_bytes as u128 || bits + 64 > 8 * (isize::MAX as u128) {
        return Err(RunError::new(ExcType::MemoryError, "memory limit exceeded"));
    }
    Ok(())
}

/// Whether so many bytes so many times are too large for the limit on results.
pub open spec fn too_large_repeat(vm: VM, bytes: int, count: int) -> bool {
    bytes * count > vm.heap.max_bytes
}

/// Checks the size of a repetition.
pub fn check_repeat_size(vm: &VM, bytes: u128, count: usize) -> (r: RunResult<()>)
    requires
        bytes <= 0x100_0000_0000_0000_0000,
    ensures
        if too_large_repeat(*vm, bytes as int, count as int) {
            raises(r, memory_error())
        } else {
            r is Ok
        },
{
    let wide: u128 = count as u128;
    if count > 0 && bytes > vm.heap.max_bytes as u128 {
        assert(bytes * count >= bytes) by (nonlinear_arith)
            requires
                count >= 1,
                bytes >= 0,
        ;
        return Err(RunError::new(ExcType::MemoryError, "memory limit exceeded"));
    }
    if count == 0 {
        assert(bytes * count == 0) by (nonlinear_arith)
            requires
                count == 0,
        ;
        return Ok(());
    }
    assert(bytes * wide <= 0xffff_ffff_ffff_ffff * 0xffff_ffff_ffff_ffff) by (nonlinear_arith)
        requires
            0 <= bytes <= 0xffff_ffff_ffff_ffff,
            0 <= wide <= 0xffff_ffff_ffff_ffff,
    ;
    if bytes * wide > vm.heap.max_bytes as u128 {
        Err(RunError::new(ExcType::MemoryError, "memory limit exceeded"))
    } else {
        Ok(())
    }
}

/// A text repeated, or the error when that is too large.
pub open spec fn text_times(vm: VM, s: Seq<char>, count: int) -> Computed {
    if too_large_repeat(vm, encode_utf8(s).len() as int, count) {
        raised(memory_error())
    } else {
        Computed::Text(repeated(s, count as nat))
    }
}

/// Bytes repeated, or the error when that is too large.
pub open spec fn bytes_times(vm: VM, s: Seq<u8>, count: int) -> Computed {
    if too_large_repeat(vm, s.len() as int, count) {
        raised(memory_error())
    } else {
        Computed::Raw(repeated(s, count as nat))
    }
}

/// A sequence in the heap repeated.
pub open spec fn sequence_times(vm: VM, data: HeapData, count: int) -> Computed {
    match data {
        HeapData::Str(s) => text_times(vm, s@, count),
        HeapData::Bytes(b) => bytes_times(vm, b@, count),
        HeapData::List(list) => if too_large_repeat(vm, list.items@.len() * VALUE_SIZE, count) {
            raised(memory_error())
        } else {
            Computed::Items(repeated(list.items@, count as nat))
        },
        HeapData::Tuple(tuple) => if too_large_repeat(vm, tuple.items@.len() * VALUE_SIZE, count) {
            raised(memory_error())
        } else {
            Computed::TupleItems(repeated(tuple.items@, count as nat))
        },
        _ => Computed::Unsupported,
    }
}

/// Whether a heap entry is a sequence that can be repeated.
pub open spec fn is_sequence(data: HeapData) -> bool {
    data is Str || data is Bytes || data is List || data is Tuple
}

/// The product of a long and another integer, or the error when it is too large.
pub open spec fn long_product(vm: VM, a: int, b: int) -> Computed {
    if too_many_bits(vm, (bit_length(magnitude(a)) + bit_length(magnitude(b))) as int) {
        raised(memory_error())
    } else {
        Computed::Integer(a * b)
    }
}

/// A heap entry times a machine integer.
pub open spec fn heap_times_int(vm: VM, data: HeapData, n: int) -> Computed {
    match data {
        HeapData::LongInt(li) => long_product(vm, li@, n),
        HeapData::TimeDelta(td) => if !(i128::MIN <= td.total() * n <= i128::MAX) {
            Computed::Raise(ExcType::OverflowError, "timedelta multiplication overflow"@)
        } else if duration_in_range(td.total() * n) {
            Computed::Duration(td.total() * n)
        } else {
            Computed::Raise(ExcType::OverflowError, days_error(td.total() * n))
        },
        _ => if is_sequence(data) {
            match repeat_count(n) {
                Err(e) => raised(e),
                Ok(count) => sequence_times(vm, data, count),
            }
        } else {
            Computed::Unsupported
        },
    }
}

/// The product of two heap entries: of long integers, or of a sequence and a
/// long integer.
pub open spec fn heap_product(vm: VM, a: HeapData, b: HeapData) -> Computed {
    match (a, b) {
        (HeapData::LongInt(x), HeapData::LongInt(y)) => long_product(vm, x@, y@),
        (HeapData::LongInt(x), other) => match repeat_count(x@) {
            Err(e) => raised(e),
            Ok(count) => sequence_times(vm, other, count),
        },
        (other, HeapData::LongInt(x)) => match repeat_count(x@) {
            Err(e) => raised(e),
            Ok(count) => sequence_times(vm, other, count),
        },
        _ => Computed::Unsupported,
    }
}

/// 1 for true and 0 for false.
pub open spec fn bool_int(b: bool) -> i64 {
    if b {
        1
    } else {
        0
    }
}

/// An interned string or bytes repeated.
pub open spec fn interned_times(vm: VM, v: Value, n: int) -> Computed {
    match repeat_count(n) {
        Err(e) => raised(e),
        Ok(count) => match v {
            Value::InternString(id) => text_times(vm, vm.interns.str_at(id), count),
            Value::InternBytes(id) => bytes_times(vm, vm.interns.bytes_at(id), count),
            _ => Computed::Unsupported,
        },
    }
}

/// Whether a value is an interned string or interned bytes.
pub open spec fn is_interned_sequence(v: Value) -> bool {
    v is InternString || v is InternBytes
}

/// Rounding multiplication.
pub open spec fn float_product(a: Operand, b: Operand) -> Computed {
    Computed::Rounded(FloatOp::Mul, a, b)
}

/// What `a * b` comes to.
pub open spec fn product_of(vm: VM, a: Value, b: Value) -> Computed {
    match (a, b) {
        (Value::Int(x), Value::Int(y)) => Computed::Integer(x * y),
        (Value::Int(n), Value::Ref(id)) => heap_times_int(vm, vm.heap.data(id), n as int),
        (Value::Ref(id), Value::Int(n)) => heap_times_int(vm, vm.heap.data(id), n as int),
        (Value::Ref(x), Value::Ref(y)) => heap_product(vm, vm.heap.data(x), vm.heap.data(y)),
        (Value::Float(x), Value::Float(y)) => float_product(Operand::Float(x), Operand::Float(y)),
        (Value::Int(x), Value::Float(y)) => float_product(Operand::Int(x), Operand::Float(y)),
        (Value::Float(x), Value::Int(y)) => float_product(Operand::Float(x), Operand::Int(y)),
        (Value::Bool(x), Value::Int(y)) => Computed::Integer(bool_int(x) * y),
        (Value::Int(x), Value::Bool(y)) => Computed::Integer(x * bool_int(y)),
        (Value::Bool(x), Value::Float(y)) => float_product(
            Operand::Int(bool_int(x)),
            Operand::Float(y),
        ),
        (Value::Float(x), Value::Bool(y)) => float_product(
            Operand::Float(x),
            Operand::Int(bool_int(y)),
        ),
        (Value::Bool(x), Value::Bool(y)) => Computed::Integer(bool_int(x) * bool_int(y)),
        (Value::Int(n), other) => if is_interned_sequence(other) {
            interned_times(vm, other, n as int)
        } else {
            Computed::Unsupported
        },
        (other, Value::Int(n)) => if is_interned_sequence(other) {
            interned_times(vm, other, n as int)
        } else {
            Computed::Unsupported
        },
        (Value::Ref(id), other) => interned_times_heap(vm, other, vm.heap.data(id)),
        (other, Value::Ref(id)) => interned_times_heap(vm, other, vm.heap.data(id)),
        _ => Computed::Unsupported,
    }
}

/// An interned string or bytes times a heap entry.
pub open spec fn interned_times_heap(vm: VM, v: Value, data: HeapData) -> Computed {
    match data {
        HeapData::LongInt(li) => if is_interned_sequence(v) {
            interned_times(vm, v, li@)
        } else {
            Computed::Unsupported
        },
        _ => Computed::Unsupported,
    }
}

/// 1 for true and 0 for false.
pub fn int_of_bool(b: bool) -> (r: i64)
    ensures
        r == bool_int(b),
{
    if b {
        1
    } else {
        0
    }
}

/// Characters repeated.
fn repeat_chars(chars: &[char], count: usize) -> (r: Vec<char>)
    ensures
        r@ == repeated(chars@, count as nat),
{
    let mut out: Vec<char> = Vec::new();
    for i in 0..count
        invariant
            out@ == repeated(chars@, i as nat),
    {
        push_range(&mut out, chars, 0, chars.len());
        assert(chars@.subrange(0, chars@.len() as int) =~= chars@);
        assert(out@ =~= repeated(chars@, (i + 1) as nat));
    }
    out
}

/// Bytes repeated.
fn repeat_bytes(bytes: &[u8], count: usize) -> (r: Vec<u8>)
    ensures
        r@ == repeated(bytes@, count as nat),
{
    let mut out: Vec<u8> = Vec::new();
    for i in 0..count
        invariant
            out@ == repeated(bytes@, i as nat),
    {
        push_bytes(&mut out, bytes, 0, bytes.len());
        assert(bytes@.subrange(0, bytes@.len() as int) =~= bytes@);
        assert(out@ =~= repeated(bytes@, (i + 1) as nat));
    }
    out
}

/// Items repeated; references are not counted.
fn repeat_items(items: &[Value], count: usize) -> (r: Vec<Value>)
    ensures
        r@ == repeated(items@, count as nat),
{
    let mut out: Vec<Value> = Vec::new();
    for i in 0..count
        invariant
            out@ == repeated(items@, i as nat),
    {
        let ghost start = out@;
        for j in 0..items.len()
            invariant
                out@ == start + items@.take(j as int),
        {
            out.push(items[j].alias());
            assert(out@ =~= start + items@.take(j + 1));
        }
        assert(items@.take(items@.len() as int) =~= items@);
        assert(out@ =~= repeated(items@, (i + 1) as nat));
    }
    out
}

/// A text repeated as a value.
fn new_text_times(text: &str, count: usize, vm: &VM) -> (r: RunResult<String>)
    ensures
        match text_times(*vm, text@, count as int) {
            Computed::Text(t) => r matches Ok(s) && s@ == t,
            Computed::Raise(t, m) => raises(r, (t, m)),
            _ => false,
        },
{
    match check_repeat_size(vm, byte_len(text) as u128, count) {
        Err(e) => Err(e),
        Ok(_) => {
            let chars = chars_of(text);
            Ok(string_of(&repeat_chars(&chars, count)))
        },
    }
}

/// Bytes repeated.
fn new_bytes_times(bytes: &[u8], count: usize, vm: &VM) -> (r: RunResult<Vec<u8>>)
    ensures
        match bytes_times(*vm, bytes@, count as int) {
            Computed::Raw(t) => r matches Ok(s) && s@ == t,
            Computed::Raise(t, m) => raises(r, (t, m)),
            _ => false,
        },
{
    match check_repeat_size(vm, bytes.len() as u128, count) {
        Err(e) => Err(e),
        Ok(_) => Ok(repeat_bytes(bytes, count)),
    }
}

/// A sequence in the heap repeated.
fn repeat_sequence(id: HeapId, count: usize, vm: &mut VM) -> (r: RunResult<Arith>)
    requires
        old(vm).wf(),
        id.0 < old(vm).entries().len(),
    ensures
        final(vm).wf(),
        r matches Ok(Arith::Done(v)) ==> final(vm).ok(v),
        computed(
            *old(vm),
            *final(vm),
            r,
            sequence_times(*old(vm), old(vm).heap.data(id), count as int),
        ),
{
    proof {
        lemma_entry_ok(*vm, id);
    }
    match vm.heap.get(id) {
        HeapData::Str(s) => match new_text_times(s.as_str(), count, vm) {
            Err(e) => Err(e),
            Ok(text) => done(allocate_string(text, vm)),
        },
        HeapData::Bytes(b) => match new_bytes_times(b.as_slice(), count, vm) {
            Err(e) => Err(e),
            Ok(bytes) => done(allocate_bytes(bytes, vm)),
        },
        HeapData::List(list) => {
            let items = list.as_slice();
            match check_repeat_size(vm, items.len() as u128 * VALUE_SIZE as u128, count) {
                Err(e) => Err(e),
                Ok(_) => {
                    proof {
                        lemma_repeated_ok(*vm, items@, count as nat);
                    }
                    let all = repeat_items(items, count);
                    done(new_list(&all, vm))
                },
            }
        },
        HeapData::Tuple(tuple) => {
            let items = tuple.as_slice();
            match check_repeat_size(vm, items.len() as u128 * VALUE_SIZE as u128, count) {
                Err(e) => Err(e),
                Ok(_) => {
                    proof {
                        lemma_repeated_ok(*vm, items@, count as nat);
                    }
                    let all = repeat_items(items, count);
                    done(new_tuple(&all, vm))
                },
            }
        },
        _ => Ok(Arith::Unsupported),
    }
}

/// Repeated items refer to what exists.
proof fn lemma_repeated_ok(vm: VM, items: Seq<Value>, n: nat)
    requires
        vm.all_ok(items),
    ensures
        vm.all_ok(repeated(items, n)),
{
    lemma_repeated_from(items, n);
    assert forall|i: int| 0 <= i < repeated(items, n).len() implies vm.ok(
        #[trigger] repeated(items, n)[i],
    ) by {
        assert(items.contains(repeated(items, n)[i]));
        let j = choose|j: int| 0 <= j < items.len() && items[j] == repeated(items, n)[i];
        assert(vm.ok(items[j]));
    }
}

/// A heap entry times a machine integer.
fn mult_heap_int(id: HeapId, n: i64, vm: &mut VM) -> (r: RunResult<Arith>)
    requires
        old(vm).wf(),
        id.0 < old(vm).entries().len(),
    ensures
        final(vm).wf(),
        r matches Ok(Arith::Done(v)) ==> final(vm).ok(v),
        computed(
            *old(vm),
            *final(vm),
            r,
            heap_times_int(*old(vm), old(vm).heap.data(id), n as int),
        ),
{
    proof {
        lemma_entry_ok(*vm, id);
    }
    match vm.heap.get(id) {
        HeapData::LongInt(li) => {
            match check_bits(vm, li.bits() as u128 + i64_bits(n) as u128) {
                Err(e) => Err(e),
                Ok(_) => {
                    let product = li.mul(&LongInt::from_i64(n));
                    done(product.into_value(vm))
                },
            }
        },
        HeapData::TimeDelta(td) => {
            let total: i128 = match total_microseconds(td).checked_mul(n as i128) {
                Some(total) => total,
                None => {
                    return Err(
                        RunError::new(
                            ExcType::OverflowError,
                            "timedelta multiplication overflow",
                        ),
                    );
                },
            };
            match from_total_microseconds(total) {
                Err(e) => Err(e),
                Ok(delta) => {
                    let v = allocate_object(HeapData::TimeDelta(delta), vm);
                    assert(object_result(*old(vm), *vm, v, HeapData::TimeDelta(delta)));
                    done(v)
                },
            }
        },
        HeapData::Str(_) | HeapData::Bytes(_) | HeapData::List(_) | HeapData::Tuple(_) => {
            match i64_to_repeat_count(n) {
                Err(e) => Err(e),
                Ok(count) => repeat_sequence(id, count, vm),
            }
        },
        _ => Ok(Arith::Unsupported),
    }
}

/// The product of two heap entries.
fn mult_heap(x: HeapId, y: HeapId, vm: &mut VM) -> (r: RunResult<Arith>)
    requires
        old(vm).wf(),
        x.0 < old(vm).entries().len(),
        y.0 < old(vm).entries().len(),
    ensures
        final(vm).wf(),
        r matches Ok(Arith::Done(v)) ==> final(vm).ok(v),
        computed(
            *old(vm),
            *final(vm),
            r,
            heap_product(*old(vm), old(vm).heap.data(x), old(vm).heap.data(y)),
        ),
{
    match (vm.heap.get(x), vm.heap.get(y)) {
        (HeapData::LongInt(a), HeapData::LongInt(b)) => {
            match check_bits(vm, a.bits() as u128 + b.bits() as u128) {
                Err(e) => Err(e),
                Ok(_) => {
                    let product = a.mul(b);
                    done(product.into_value(vm))
                },
            }
        },
        (HeapData::LongInt(li), _) => match longint_to_repeat_count(li) {
            Err(e) => Err(e),
            Ok(count) => repeat_sequence(y, count, vm),
        },
        (_, HeapData::LongInt(li)) => match longint_to_repeat_count(li) {
            Err(e) => Err(e),
            Ok(count) => repeat_sequence(x, count, vm),
        },
        _ => Ok(Arith::Unsupported),
    }
}

/// An interned string or bytes repeated.
fn mult_interned(v: &Value, count: RunResult<usize>, n: Ghost<int>, vm: &mut VM) -> (r: RunResult<
    Arith,
>)
    requires
        old(vm).wf(),
        old(vm).ok(*v),
        is_interned_sequence(*v),
        crate::value_int::count_is(count, repeat_count(n@)),
    ensures
        final(vm).wf(),
        r matches Ok(Arith::Done(v)) ==> final(vm).ok(v),
        computed(*old(vm), *final(vm), r, interned_times(*old(vm), *v, n@)),
{
    let count: usize = match count {
        Ok(count) => count,
        Err(e) => {
            return Err(e);
        },
    };
    match v {
        Value::InternString(id) => match new_text_times(vm.interns.get_str(*id), count, vm) {
            Err(e) => Err(e),
            Ok(text) => done(allocate_string(text, vm)),
        },
        Value::InternBytes(id) => match new_bytes_times(vm.interns.get_bytes(*id), count, vm) {
            Err(e) => Err(e),
            Ok(bytes) => done(allocate_bytes(bytes, vm)),
        },
        _ => Ok(Arith::Unsupported),
    }
}

/// An interned string or bytes times a heap entry.
fn mult_interned_heap(v: &Value, id: HeapId, vm: &mut VM) -> (r: RunResult<Arith>)
    requires
        old(vm).wf(),
        old(vm).ok(*v),
        id.0 < old(vm).entries().len(),
    ensures
        final(vm).wf(),
        r matches Ok(Arith::Done(v)) ==> final(vm).ok(v),
        computed(
            *old(vm),
            *final(vm),
            r,
            interned_times_heap(*old(vm), *v, old(vm).heap.data(id)),
        ),
{
    match v {
        Value::InternString(_) | Value::InternBytes(_) => match vm.heap.get(id) {
            HeapData::LongInt(li) => {
                let ghost n = li@;
                let count = longint_to_repeat_count(li);
                mult_interned(v, count, Ghost(n), vm)
            },
            _ => Ok(Arith::Unsupported),
        },
        _ => Ok(Arith::Unsupported),
    }
}

/// A product with 0 or 1.
proof fn lemma_bool_times(b: bool, n: int)
    ensures
        bool_int(b) * n == (if b {
            n
        } else {
            0
        }),
        n * bool_int(b) == bool_int(b) * n,
{
    let k = bool_int(b) as int;
    assert(k * n == (if b {
        n
    } else {
        0
    })) by (nonlinear_arith)
        requires
            k == (if b {
                1int
            } else {
                0
            }),
    ;
    assert(n * k == k * n) by (nonlinear_arith);
}

impl Value {
    /// `self * other`.
    pub fn py_mult(&self, other: &Value, vm: &mut VM) -> (r: RunResult<Arith>)
        requires
            old(vm).wf(),
            old(vm).ok(*self),
            old(vm).ok(*other),
        ensures
            final(vm).wf(),
            r matches Ok(Arith::Done(v)) ==> final(vm).ok(v),
            computed(*old(vm), *final(vm), r, product_of(*old(vm), *self, *other)),
    {
        match (self, other) {
            (Value::Int(a), Value::Int(b)) => match a.checked_mul(*b) {
                Some(product) => Ok(Arith::Done(Value::Int(product))),
                None => {
                    let product = LongInt::from_i64(*a).mul(&LongInt::from_i64(*b));
                    done(product.into_value(vm))
                },
            },
            (Value::Int(n), Value::Ref(id)) => mult_heap_int(*id, *n, vm),
            (Value::Ref(id), Value::Int(n)) => mult_heap_int(*id, *n, vm),
            (Value::Ref(x), Value::Ref(y)) => mult_heap(*x, *y, vm),
            (Value::Float(a), Value::Float(b)) => rounded(
                FloatOp::Mul,
                FloatOperand::Float(*a),
                FloatOperand::Float(*b),
            ),
            (Value::Int(a), Value::Float(b)) => rounded(
                FloatOp::Mul,
                FloatOperand::Int(*a),
                FloatOperand::Float(*b),
            ),
            (Value::Float(a), Value::Int(b)) => rounded(
                FloatOp::Mul,
                FloatOperand::Float(*a),
                FloatOperand::Int(*b),
            ),
            (Value::Bool(a), Value::Int(b)) => {
                let product: i64 = if *a {
                    *b
                } else {
                    0
                };
                proof {
                    lemma_bool_times(*a, *b as int);
                }
                Ok(Arith::Done(Value::Int(product)))
            },
            (Value::Int(a), Value::Bool(b)) => {
                let product: i64 = if *b {
                    *a
                } else {
                    0
                };
                proof {
                    lemma_bool_times(*b, *a as int);
                }
                Ok(Arith::Done(Value::Int(product)))
            },
            (Value::Bool(a), Value::Float(b)) => rounded(
                FloatOp::Mul,
                FloatOperand::Int(int_of_bool(*a)),
                FloatOperand::Float(*b),
            ),
            (Value::Float(a), Value::Bool(b)) => rounded(
                FloatOp::Mul,
                FloatOperand::Float(*a),
                FloatOperand::Int(int_of_bool(*b)),
            ),
            (Value::Bool(a), Value::Bool(b)) => {
                let product: i64 = int_of_bool(*a && *b);
                proof {
                    lemma_bool_times(*a, bool_int(*b) as int);
                }
                Ok(Arith::Done(Value::Int(product)))
            },
            (Value::Int(n), Value::InternString(_)) | (Value::Int(n), Value::InternBytes(_)) => {
                let ghost wide = *n as int;
                mult_interned(other, i64_to_repeat_count(*n), Ghost(wide), vm)
            },
            (Value::InternString(_), Value::Int(n)) | (Value::InternBytes(_), Value::Int(n)) => {
                let ghost wide = *n as int;
                mult_interned(self, i64_to_repeat_count(*n), Ghost(wide), vm)
            },
            (Value::Int(_), _) => Ok(Arith::Unsupported),
            (_, Value::Int(_)) => Ok(Arith::Unsupported),
            (Value::Ref(id), _) => mult_interned_heap(other, *id, vm),
            (_, Value::Ref(id)) => mult_interned_heap(self, *id, vm),
            _ => Ok(Arith::Unsupported),
        }
    }
}

} // verus!
