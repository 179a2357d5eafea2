//! Addition and subtraction of values.

use vstd::prelude::*;

use crate::arith::{computed, done, done_if, new_list, new_tuple, rounded, Arith, Computed, Operand};
use crate::exception::RunResult;
use crate::float::{FloatOp, FloatOperand};
use crate::heap::{data_ok, HeapData, HeapId};
use crate::outcome::{allocate_bytes, allocate_object, object_result};
use crate::text::{chars_of, push_str, string_of};
use crate::types::bytes::push_bytes;
use crate::types::date_ops;
use crate::types::datetime_ops;
use crate::types::long_int::LongInt;
use crate::types::str::allocate_string;
use crate::types::timedelta::{
    duration_in_range, from_total_microseconds, total_microseconds, TimeDelta,
};
use crate::value::Value;
use crate::vm::VM;

verus! {

/// A duration of so many microseconds, if it is one.
pub open spec fn duration_of(total: int) -> Computed {
    if duration_in_range(total) {
        Computed::Duration(total)
    } else {
        Computed::Unsupported
    }
}

/// The sum of two heap entries.
pub open spec fn heap_sum(a: HeapData, b: HeapData) -> Computed {
    match (a, b) {
        (HeapData::LongInt(x), HeapData::LongInt(y)) => Computed::Integer(x@ + y@),
        (HeapData::Str(x), HeapData::Str(y)) => Computed::Text(x@ + y@),
        (HeapData::Bytes(x), HeapData::Bytes(y)) => Computed::Raw(x@ + y@),
        (HeapData::List(x), HeapData::List(y)) => Computed::Items(x.items@ + y.items@),
        (HeapData::Tuple(x), HeapData::Tuple(y)) => Computed::TupleItems(x.items@ + y.items@),
        (HeapData::Date(d), HeapData::TimeDelta(t)) => Computed::DateBy(d, t.days as int),
        (HeapData::TimeDelta(t), HeapData::Date(d)) => Computed::DateBy(d, t.days as int),
        (HeapData::DateTime(d), HeapData::TimeDelta(t)) => Computed::MomentBy(d, t.total() * 1_000),
        (HeapData::TimeDelta(t), HeapData::DateTime(d)) => Computed::MomentBy(d, t.total() * 1_000),
        (HeapData::TimeDelta(x), HeapData::TimeDelta(y)) => duration_of(x.total() + y.total()),
        _ => Computed::Unsupported,
    }
}

/// What `a + b` comes to.
pub open spec fn sum_of(vm: VM, a: Value, b: Value) -> Computed {
    match (a, b) {
        (Value::Int(x), Value::Int(y)) => Computed::Integer(x + y),
        (Value::Float(x), Value::Float(y)) => Computed::Rounded(
            FloatOp::Add,
            Operand::Float(x),
            Operand::Float(y),
        ),
        (Value::Int(x), Value::Float(y)) => Computed::Rounded(
            FloatOp::Add,
            Operand::Int(x),
            Operand::Float(y),
        ),
        (Value::Float(x), Value::Int(y)) => Computed::Rounded(
            FloatOp::Add,
            Operand::Float(x),
            Operand::Int(y),
        ),
        (Value::Ref(x), Value::Ref(y)) => heap_sum(vm.heap.data(x), vm.heap.data(y)),
        (Value::Int(x), Value::Ref(y)) => match vm.heap.data(y) {
            HeapData::LongInt(l) => Computed::Integer(x + l@),
            _ => Computed::Unsupported,
        },
        (Value::Ref(x), Value::Int(y)) => match vm.heap.data(x) {
            HeapData::LongInt(l) => Computed::Integer(l@ + y),
            _ => Computed::Unsupported,
        },
        _ => match (vm.text_of(a), vm.text_of(b)) {
            (Some(s), Some(t)) => Computed::Text(s + t),
            _ => match (vm.bytes_of(a), vm.bytes_of(b)) {
                (Some(s), Some(t)) => Computed::Raw(s + t),
                _ => Computed::Unsupported,
            },
        },
    }
}

/// Two texts, one after the other.
fn joined_text(a: &str, b: &str) -> (r: String)
    ensures
        r@ == a@ + b@,
{
    let mut out = chars_of(a);
    push_str(&mut out, b);
    string_of(&out)
}

/// Two runs of bytes, one after the other.
fn joined_bytes(a: &[u8], b: &[u8]) -> (r: Vec<u8>)
    ensures
        r@ == a@ + b@,
{
    let mut out: Vec<u8> = Vec::new();
    push_bytes(&mut out, a, 0, a.len());
    push_bytes(&mut out, b, 0, b.len());
    assert(out@ =~= a@ + b@);
    out
}

/// The items of two slices, one after the other; references are not counted.
fn joined_items(a: &[Value], b: &[Value]) -> (r: Vec<Value>)
    ensures
        r@ == a@ + b@,
{
    let mut out: Vec<Value> = Vec::new();
    for i in 0..a.len()
        invariant
            out@ == a@.take(i as int),
    {
        out.push(a[i].alias());
        assert(out@ =~= a@.take(i + 1));
    }
    assert(a@.take(a@.len() as int) =~= a@);
    for i in 0..b.len()
        invariant
            out@ == a@ + b@.take(i as int),
    {
        out.push(b[i].alias());
        assert(out@ =~= a@ + b@.take(i + 1));
    }
    assert(b@.take(b@.len() as int) =~= b@);
    out
}

/// What an entry of a well-formed heap holds is well-formed.
pub proof fn lemma_entry_ok(vm: VM, id: HeapId)
    requires
        vm.wf(),
        id.0 < vm.entries().len(),
    ensures
        data_ok(vm.heap.data(id), vm.entries().len(), vm.interns),
{
    assert(data_ok(vm.heap.entries@[id.0 as int].data, vm.heap.entries@.len(), vm.interns));
}

/// A duration of so many microseconds as a value, if it is one.
fn new_duration(total: i128, vm: &mut VM) -> (r: RunResult<Arith>)
    requires
        old(vm).wf(),
    ensures
        final(vm).wf(),
        r matches Ok(Arith::Done(v)) ==> final(vm).ok(v),
        computed(*old(vm), *final(vm), r, duration_of(total as int)),
{
    match from_total_microseconds(total) {
        Err(_) => Ok(Arith::Unsupported),
        Ok(delta) => {
            let v = allocate_object(HeapData::TimeDelta(delta), vm);
            assert(object_result(*old(vm), *vm, v, HeapData::TimeDelta(delta)));
            done(v)
        },
    }
}

/// The sum of two heap entries.
fn add_heap(x: HeapId, y: HeapId, vm: &mut VM) -> (r: RunResult<Arith>)
    requires
        old(vm).wf(),
        x.0 < old(vm).entries().len(),
        y.0 < old(vm).entries().len(),
    ensures
        final(vm).wf(),
        r matches Ok(Arith::Done(v)) ==> final(vm).ok(v),
        computed(
            *old(vm),
            *final(vm),
            r,
            heap_sum(old(vm).heap.data(x), old(vm).heap.data(y)),
        ),
{
    proof {
        lemma_entry_ok(*vm, x);
        lemma_entry_ok(*vm, y);
    }
    match (vm.heap.get(x), vm.heap.get(y)) {
        (HeapData::LongInt(a), HeapData::LongInt(b)) => {
            let sum = a.add(b);
            done(sum.into_value(vm))
        },
        (HeapData::Str(a), HeapData::Str(b)) => {
            let text = joined_text(a.as_str(), b.as_str());
            done(allocate_string(text, vm))
        },
        (HeapData::Bytes(a), HeapData::Bytes(b)) => {
            let bytes = joined_bytes(a.as_slice(), b.as_slice());
            done(allocate_bytes(bytes, vm))
        },
        (HeapData::List(a), HeapData::List(b)) => {
            let items = joined_items(a.as_slice(), b.as_slice());
            done(new_list(&items, vm))
        },
        (HeapData::Tuple(a), HeapData::Tuple(b)) => {
            let items = joined_items(a.as_slice(), b.as_slice());
            done(new_tuple(&items, vm))
        },
        (HeapData::Date(d), HeapData::TimeDelta(t)) => {
            let date = *d;
            let delta = *t;
            done_if(date_ops::py_add(date, &delta, vm))
        },
        (HeapData::TimeDelta(t), HeapData::Date(d)) => {
            let date = *d;
            let delta = *t;
            done_if(date_ops::py_add(date, &delta, vm))
        },
        (HeapData::DateTime(d), HeapData::TimeDelta(t)) => {
            let moment = d.duplicate();
            let delta = *t;
            done_if(datetime_ops::py_add(&moment, &delta, vm))
        },
        (HeapData::TimeDelta(t), HeapData::DateTime(d)) => {
            let moment = d.duplicate();
            let delta = *t;
            done_if(datetime_ops::py_add(&moment, &delta, vm))
        },
        (HeapData::TimeDelta(a), HeapData::TimeDelta(b)) => {
            let total: i128 = total_microseconds(a) + total_microseconds(b);
            new_duration(total, vm)
        },
        _ => Ok(Arith::Unsupported),
    }
}

/// The difference of two heap entries.
pub open spec fn heap_difference(a: HeapData, b: HeapData) -> Computed {
    match (a, b) {
        (HeapData::LongInt(x), HeapData::LongInt(y)) => Computed::Integer(x@ - y@),
        (HeapData::Date(x), HeapData::Date(y)) => Computed::Duration(
            (x.day_number() - y.day_number()) * crate::types::timedelta::MICROSECONDS_PER_DAY,
        ),
        (HeapData::Date(d), HeapData::TimeDelta(t)) => Computed::DateBy(d, -(t.days as int)),
        (HeapData::DateTime(x), HeapData::DateTime(y)) => Computed::Between(x, y),
        (HeapData::DateTime(d), HeapData::TimeDelta(t)) => Computed::MomentBy(
            d,
            -t.total() * 1_000,
        ),
        (HeapData::TimeDelta(x), HeapData::TimeDelta(y)) => duration_of(x.total() - y.total()),
        _ => Computed::Unsupported,
    }
}

/// What `a - b` comes to.
pub open spec fn difference_of(vm: VM, a: Value, b: Value) -> Computed {
    match (a, b) {
        (Value::Int(x), Value::Int(y)) => Computed::Integer(x - y),
        (Value::Int(x), Value::Ref(y)) => match vm.heap.data(y) {
            HeapData::LongInt(l) => Computed::Integer(x - l@),
            _ => Computed::Unsupported,
        },
        (Value::Ref(x), Value::Int(y)) => match vm.heap.data(x) {
            HeapData::LongInt(l) => Computed::Integer(l@ - y),
            _ => Computed::Unsupported,
        },
        (Value::Ref(x), Value::Ref(y)) => heap_difference(vm.heap.data(x), vm.heap.data(y)),
        (Value::Float(x), Value::Float(y)) => Computed::Rounded(
            FloatOp::Sub,
            Operand::Float(x),
            Operand::Float(y),
        ),
        (Value::Int(x), Value::Float(y)) => Computed::Rounded(
            FloatOp::Sub,
            Operand::Int(x),
            Operand::Float(y),
        ),
        (Value::Float(x), Value::Int(y)) => Computed::Rounded(
            FloatOp::Sub,
            Operand::Float(x),
            Operand::Int(y),
        ),
        _ => Computed::Unsupported,
    }
}

/// The difference of two heap entries.
fn sub_heap(x: HeapId, y: HeapId, vm: &mut VM) -> (r: RunResult<Arith>)
    requires
        old(vm).wf(),
        x.0 < old(vm).entries().len(),
        y.0 < old(vm).entries().len(),
    ensures
        final(vm).wf(),
        r matches Ok(Arith::Done(v)) ==> final(vm).ok(v),
        computed(
            *old(vm),
            *final(vm),
            r,
            heap_difference(old(vm).heap.data(x), old(vm).heap.data(y)),
        ),
{
    proof {
        lemma_entry_ok(*vm, x);
        lemma_entry_ok(*vm, y);
    }
    match (vm.heap.get(x), vm.heap.get(y)) {
        (HeapData::LongInt(a), HeapData::LongInt(b)) => {
            let rest = a.sub(b);
            done(rest.into_value(vm))
        },
        (HeapData::Date(a), HeapData::Date(b)) => {
            let left = *a;
            let right = *b;
            done_if(date_ops::py_sub_date(left, right, vm))
        },
        (HeapData::Date(d), HeapData::TimeDelta(t)) => {
            let date = *d;
            let delta = *t;
            done_if(date_ops::py_sub_timedelta(date, &delta, vm))
        },
        (HeapData::DateTime(a), HeapData::DateTime(b)) => {
            let left = a.duplicate();
            let right = b.duplicate();
            done_if(datetime_ops::py_sub_datetime(&left, &right, vm))
        },
        (HeapData::DateTime(d), HeapData::TimeDelta(t)) => {
            let moment = d.duplicate();
            let delta = *t;
            done_if(datetime_ops::py_sub_timedelta(&moment, &delta, vm))
        },
        (HeapData::TimeDelta(a), HeapData::TimeDelta(b)) => {
            let total: i128 = total_microseconds(a) - total_microseconds(b);
            new_duration(total, vm)
        },
        _ => Ok(Arith::Unsupported),
    }
}

impl Value {
    /// `self + other`.
    pub fn py_add(&self, other: &Value, vm: &mut VM) -> (r: RunResult<Arith>)
        requires
            old(vm).wf(),
            old(vm).ok(*self),
            old(vm).ok(*other),
        ensures
            final(vm).wf(),
            r matches Ok(Arith::Done(v)) ==> final(vm).ok(v),
            computed(*old(vm), *final(vm), r, sum_of(*old(vm), *self, *other)),
    {
        match (self, other) {
            (Value::Int(a), Value::Int(b)) => match a.checked_add(*b) {
                Some(sum) => Ok(Arith::Done(Value::Int(sum))),
                None => {
                    let sum = LongInt::from_i64(*a).add(&LongInt::from_i64(*b));
                    done(sum.into_value(vm))
                },
            },
            (Value::Float(a), Value::Float(b)) => rounded(
                FloatOp::Add,
                FloatOperand::Float(*a),
                FloatOperand::Float(*b),
            ),
            (Value::Int(a), Value::Float(b)) => rounded(
                FloatOp::Add,
                FloatOperand::Int(*a),
                FloatOperand::Float(*b),
            ),
            (Value::Float(a), Value::Int(b)) => rounded(
                FloatOp::Add,
                FloatOperand::Float(*a),
                FloatOperand::Int(*b),
            ),
            (Value::Ref(x), Value::Ref(y)) => add_heap(*x, *y, vm),
            (Value::Int(i), Value::Ref(id)) => match vm.heap.get(*id) {
                HeapData::LongInt(li) => {
                    let sum = li.add(&LongInt::from_i64(*i));
                    done(sum.into_value(vm))
                },
                _ => Ok(Arith::Unsupported),
            },
            (Value::Ref(id), Value::Int(i)) => match vm.heap.get(*id) {
                HeapData::LongInt(li) => {
                    let sum = li.add(&LongInt::from_i64(*i));
                    done(sum.into_value(vm))
                },
                _ => Ok(Arith::Unsupported),
            },
            _ => {
                let text = match (self.text(vm), other.text(vm)) {
                    (Some(a), Some(b)) => Some(joined_text(a, b)),
                    _ => None,
                };
                match text {
                    Some(text) => {
                        return done(allocate_string(text, vm));
                    },
                    None => {},
                }
                let bytes = match (self.raw_bytes(vm), other.raw_bytes(vm)) {
                    (Some(a), Some(b)) => Some(joined_bytes(a, b)),
                    _ => None,
                };
                match bytes {
                    Some(bytes) => done(allocate_bytes(bytes, vm)),
                    None => Ok(Arith::Unsupported),
                }
            },
        }
    }

    /// `self - other`.
    pub fn py_sub(&self, other: &Value, vm: &mut VM) -> (r: RunResult<Arith>)
        requires
            old(vm).wf(),
            old(vm).ok(*self),
            old(vm).ok(*other),
        ensures
            final(vm).wf(),
            r matches Ok(Arith::Done(v)) ==> final(vm).ok(v),
            computed(*old(vm), *final(vm), r, difference_of(*old(vm), *self, *other)),
    {
        match (self, other) {
            (Value::Int(a), Value::Int(b)) => match a.checked_sub(*b) {
                Some(rest) => Ok(Arith::Done(Value::Int(rest))),
                None => {
                    let rest = LongInt::from_i64(*a).sub(&LongInt::from_i64(*b));
                    done(rest.into_value(vm))
                },
            },
            (Value::Int(a), Value::Ref(id)) => match vm.heap.get(*id) {
                HeapData::LongInt(li) => {
                    let rest = LongInt::from_i64(*a).sub(li);
                    done(rest.into_value(vm))
                },
                _ => Ok(Arith::Unsupported),
            },
            (Value::Ref(id), Value::Int(b)) => match vm.heap.get(*id) {
                HeapData::LongInt(li) => {
                    let rest = li.sub(&LongInt::from_i64(*b));
                    done(rest.into_value(vm))
                },
                _ => Ok(Arith::Unsupported),
            },
            (Value::Ref(x), Value::Ref(y)) => sub_heap(*x, *y, vm),
            (Value::Float(a), Value::Float(b)) => rounded(
                FloatOp::Sub,
                FloatOperand::Float(*a),
                FloatOperand::Float(*b),
            ),
            (Value::Int(a), Value::Float(b)) => rounded(
                FloatOp::Sub,
                FloatOperand::Int(*a),
                FloatOperand::Float(*b),
            ),
            (Value::Float(a), Value::Int(b)) => rounded(
                FloatOp::Sub,
                FloatOperand::Float(*a),
                FloatOperand::Int(*b),
            ),
            _ => Ok(Arith::Unsupported),
        }
    }
}

} // verus!
