//! What arithmetic on values comes to.

use vstd::prelude::*;

use crate::args::{raises, Raised};
use crate::exception::{ExcType, RunError, RunResult};
use crate::float::{FloatOp, FloatOperand, FloatTask};
use crate::heap::{lemma_with_refs_data, with_ref, with_refs, HeapData, HeapId, EMPTY_TUPLE};
use crate::outcome::{allocate_object, bytes_result, object_result};
use crate::types::containers::List;
use crate::types::date::Date;
use crate::types::date_ops::date_moved;
use crate::types::datetime::{difference, DateTime};
use crate::types::datetime_ops::{duration_done, shift_done};
use crate::types::path::{normalized, Path};
use crate::types::str::{heap_full, string_result};
use crate::types::timedelta::TimeDelta;
use crate::types::tuple::Tuple;
use crate::types::tuple_vec::TupleVec;
use crate::value::{FloatBits, Value};
use crate::value_int::int_result;
use crate::vm::VM;

verus! {

/// What an arithmetic operation gives: nothing for operands that it does not
/// know, a value, or rounding arithmetic for the host.
#[derive(Debug)]
pub enum Arith {
    Unsupported,
    Done(Value),
    Float(FloatTask),
}

/// An operand of rounding arithmetic.
pub enum Operand {
    Float(FloatBits),
    Int(i64),
    Long(int),
}

/// What an arithmetic operation comes to, before it is put into the heap.
pub enum Computed {
    /// The operands are none that the operation knows.
    Unsupported,
    Raise(ExcType, Seq<char>),
    /// A value that needs nothing from the heap.
    Exact(Value),
    Integer(int),
    /// Rounding arithmetic.
    Rounded(FloatOp, Operand, Operand),
    Text(Seq<char>),
    Raw(Seq<u8>),
    /// A duration in microseconds.
    Duration(int),
    /// A list of these items.
    Items(Seq<Value>),
    /// A tuple of these items.
    TupleItems(Seq<Value>),
    /// The normal form of a path.
    PathText(Seq<char>),
    /// A date so many days later.
    DateBy(Date, int),
    /// A datetime so many nanoseconds later.
    MomentBy(DateTime, int),
    /// The duration from the second to the first.
    Between(DateTime, DateTime),
}

/// An exception.
pub open spec fn raised(e: Raised) -> Computed {
    Computed::Raise(e.0, e.1)
}

/// Whether an operand is what is said of it.
pub open spec fn operand_is(o: FloatOperand, expected: Operand) -> bool {
    match (o, expected) {
        (FloatOperand::Float(f), Operand::Float(g)) => f == g,
        (FloatOperand::Int(i), Operand::Int(j)) => i == j,
        (FloatOperand::Long(l), Operand::Long(n)) => l@ == n,
        _ => false,
    }
}

/// Whether rounding arithmetic is what is said of it.
pub open spec fn task_is(task: FloatTask, op: FloatOp, left: Operand, right: Operand) -> bool {
    task.op == op && operand_is(task.left, left) && operand_is(task.right, right)
}

/// A result that is a value or an error.
pub open spec fn as_done(r: RunResult<Arith>) -> Option<RunResult<Value>> {
    match r {
        Ok(Arith::Done(v)) => Some(Ok(v)),
        Err(e) => Some(Err(e)),
        _ => None,
    }
}

/// A result that is a value, nothing or an error.
pub open spec fn as_optional(r: RunResult<Arith>) -> Option<RunResult<Option<Value>>> {
    match r {
        Ok(Arith::Done(v)) => Some(Ok(Some(v))),
        Ok(Arith::Unsupported) => Some(Ok(None)),
        Err(e) => Some(Err(e)),
        _ => None,
    }
}

/// A value as a result of arithmetic.
pub fn done(r: RunResult<Value>) -> (out: RunResult<Arith>)
    ensures
        as_done(out) == Some(r),
{
    match r {
        Ok(v) => Ok(Arith::Done(v)),
        Err(e) => Err(e),
    }
}

/// An optional value as a result of arithmetic.
pub fn done_if(r: RunResult<Option<Value>>) -> (out: RunResult<Arith>)
    ensures
        as_optional(out) == Some(r),
{
    match r {
        Ok(Some(v)) => Ok(Arith::Done(v)),
        Ok(None) => Ok(Arith::Unsupported),
        Err(e) => Err(e),
    }
}

/// Rounding arithmetic as a result.
pub fn rounded(op: FloatOp, left: FloatOperand, right: FloatOperand) -> (out: RunResult<Arith>)
    ensures
        out == Ok::<Arith, RunError>(Arith::Float(FloatTask { op, left, right })),
{
    Ok(Arith::Float(FloatTask { op, left, right }))
}

/// Whether a result is a new list of the items, each counted once more.
pub open spec fn list_result(before: VM, after: VM, r: RunResult<Value>, items: Seq<Value>) -> bool {
    let counted = with_refs(before.entries(), items);
    let n = before.entries().len();
    after.same_setting(before) && match r {
        Ok(v) => {
            &&& before.heap.room() > 0
            &&& v == Value::Ref(HeapId(n as usize))
            &&& after.entries().len() == n + 1
            &&& after.entries().take(n as int) == counted
            &&& after.entries()[n as int].refs == 1
            &&& after.entries()[n as int].data matches HeapData::List(list)
            &&& list.items@ == items
        },
        Err(e) => before.heap.room() <= 0 && heap_full(e) && after.entries() == counted,
    }
}

/// Whether a result is a tuple of the items, each counted once more; the empty
/// tuple is shared.
pub open spec fn tuple_result(
    before: VM,
    after: VM,
    r: RunResult<Value>,
    items: Seq<Value>,
) -> bool {
    let counted = with_refs(before.entries(), items);
    let n = before.entries().len();
    let empty = Value::Ref(HeapId(EMPTY_TUPLE));
    after.same_setting(before) && if items.len() == 0 {
        r == Ok::<Value, RunError>(empty) && after.entries() == with_ref(before.entries(), empty)
    } else {
        match r {
            Ok(v) => {
                &&& before.heap.room() > 0
                &&& v == Value::Ref(HeapId(n as usize))
                &&& after.entries().len() == n + 1
                &&& after.entries().take(n as int) == counted
                &&& after.entries()[n as int].refs == 1
                &&& after.entries()[n as int].data matches HeapData::Tuple(tuple)
                &&& tuple.items@ == items
            },
            Err(e) => before.heap.room() <= 0 && heap_full(e) && after.entries() == counted,
        }
    }
}

/// A new list of the items, each counted once more.
pub fn new_list(items: &[Value], vm: &mut VM) -> (r: RunResult<Value>)
    requires
        old(vm).wf(),
        old(vm).all_ok(items@),
    ensures
        final(vm).wf(),
        r matches Ok(v) ==> final(vm).ok(v),
        list_result(*old(vm), *final(vm), r, items@),
{
    proof {
        lemma_with_refs_data(vm.entries(), items@);
    }
    let copies = vm.clone_values(items);
    let ghost mid = *vm;
    let r = allocate_object(HeapData::List(List::new(copies)), vm);
    proof {
        if r is Ok {
            assert(vm.entries().take(mid.entries().len() as int) =~= mid.entries());
        }
    }
    r
}

/// Whether a result is a tuple that takes over the items; the empty tuple is shared.
pub open spec fn tuple_held(before: VM, after: VM, r: RunResult<Value>, items: Seq<Value>) -> bool {
    let n = before.entries().len();
    let empty = Value::Ref(HeapId(EMPTY_TUPLE));
    after.same_setting(before) && if items.len() == 0 {
        r == Ok::<Value, RunError>(empty) && after.entries() == with_ref(before.entries(), empty)
    } else {
        match r {
            Ok(v) => {
                &&& before.heap.room() > 0
                &&& v == Value::Ref(HeapId(n as usize))
                &&& after.entries().len() == n + 1
                &&& after.entries().take(n as int) == before.entries()
                &&& after.entries()[n as int].refs == 1
                &&& after.entries()[n as int].data matches HeapData::Tuple(tuple)
                &&& tuple.items@ == items
            },
            Err(e) => before.heap.room() <= 0 && heap_full(e) && after.entries()
                == before.entries(),
        }
    }
}

/// A tuple of the items; the empty tuple is shared.
pub fn allocate_tuple(items: TupleVec, vm: &mut VM) -> (r: RunResult<Value>)
    requires
        old(vm).wf(),
        old(vm).all_ok(items@),
    ensures
        final(vm).wf(),
        r matches Ok(v) ==> final(vm).ok(v),
        tuple_held(*old(vm), *final(vm), r, items@),
{
    if items.as_slice().len() == 0 {
        return Ok(vm.get_empty_tuple());
    }
    let r = allocate_object(HeapData::Tuple(Tuple::new(items)), vm);
    proof {
        if r is Ok {
            assert(vm.entries().take(old(vm).entries().len() as int) =~= old(vm).entries());
        }
    }
    r
}

/// A tuple of the items, each counted once more.
pub fn new_tuple(items: &[Value], vm: &mut VM) -> (r: RunResult<Value>)
    requires
        old(vm).wf(),
        old(vm).all_ok(items@),
    ensures
        final(vm).wf(),
        final(vm).same_setting(*old(vm)),
        final(vm).entries().len() >= old(vm).entries().len(),
        r matches Ok(v) ==> final(vm).ok(v),
        tuple_result(*old(vm), *final(vm), r, items@),
{
    proof {
        lemma_with_refs_data(vm.entries(), items@);
    }
    let copies = vm.clone_values(items);
    allocate_tuple(TupleVec::from_vec(copies), vm)
}

/// Whether a result is what is said of it.
pub open spec fn computed(before: VM, after: VM, r: RunResult<Arith>, o: Computed) -> bool {
    match o {
        Computed::Unsupported => r == Ok::<Arith, RunError>(Arith::Unsupported) && after == before,
        Computed::Raise(t, m) => raises(r, (t, m)) && after == before,
        Computed::Exact(v) => r == Ok::<Arith, RunError>(Arith::Done(v)) && after == before,
        Computed::Integer(n) => as_done(r) matches Some(v) && int_result(before, after, v, n),
        Computed::Rounded(op, left, right) => {
            &&& r matches Ok(Arith::Float(task)) && task_is(task, op, left, right)
            &&& after == before
        },
        Computed::Text(t) => as_done(r) matches Some(v) && string_result(before, after, v, t),
        Computed::Raw(b) => as_done(r) matches Some(v) && bytes_result(before, after, v, b),
        Computed::Duration(total) => as_done(r) matches Some(v) && exists|delta: TimeDelta|
            #![trigger object_result(before, after, v, HeapData::TimeDelta(delta))]
            delta.wf() && delta.total() == total && object_result(
                before,
                after,
                v,
                HeapData::TimeDelta(delta),
            ),
        Computed::Items(items) => as_done(r) matches Some(v) && list_result(
            before,
            after,
            v,
            items,
        ),
        Computed::TupleItems(items) => as_done(r) matches Some(v) && tuple_result(
            before,
            after,
            v,
            items,
        ),
        Computed::PathText(text) => as_done(r) matches Some(v) && path_result(
            before,
            after,
            v,
            text,
        ),
        Computed::DateBy(date, days) => as_optional(r) matches Some(v) && date_moved(
            before,
            after,
            v,
            date,
            days,
        ),
        Computed::MomentBy(dt, nanos) => as_optional(r) matches Some(v) && shift_done(
            before,
            after,
            v,
            dt,
            nanos,
        ),
        Computed::Between(a, b) => as_optional(r) matches Some(v) && duration_done(
            before,
            after,
            v,
            difference(a, b),
        ),
    }
}

/// Whether a result is a new path with this normal form, or the heap is full.
pub open spec fn path_result(before: VM, after: VM, r: RunResult<Value>, text: Seq<char>) -> bool {
    exists|path: Path|
        #![trigger object_result(before, after, r, HeapData::Path(path))]
        path@ == normalized(text) && object_result(before, after, r, HeapData::Path(path))
}

/// Puts a path into the heap.
pub fn allocate_path(text: String, vm: &mut VM) -> (r: RunResult<Value>)
    requires
        old(vm).wf(),
    ensures
        final(vm).wf(),
        r matches Ok(v) ==> final(vm).ok(v),
        path_result(*old(vm), *final(vm), r, text@),
{
    let path = Path::new(text);
    let ghost made = path;
    let r = allocate_object(HeapData::Path(path), vm);
    assert(object_result(*old(vm), *vm, r, HeapData::Path(made)));
    r
}

/// The error for a result that is too large.
pub open spec fn memory_error() -> Raised {
    (ExcType::MemoryError, "memory limit exceeded"@)
}

/// A sequence repeated `n` times.
pub open spec fn repeated<T>(s: Seq<T>, n: nat) -> Seq<T>
    decreases n,
{
    if n == 0 {
        Seq::empty()
    } else {
        repeated(s, (n - 1) as nat) + s
    }
}

/// What a repeated sequence holds.
pub proof fn lemma_repeated_from<T>(s: Seq<T>, n: nat)
    ensures
        forall|i: int|
            0 <= i < repeated(s, n).len() ==> s.contains(#[trigger] repeated(s, n)[i]),
    decreases n,
{
    if n > 0 {
        lemma_repeated_from(s, (n - 1) as nat);
        let front = repeated(s, (n - 1) as nat);
        assert forall|i: int| 0 <= i < repeated(s, n).len() implies s.contains(
            #[trigger] repeated(s, n)[i],
        ) by {
            if i < front.len() {
                assert(repeated(s, n)[i] == front[i]);
            } else {
                assert(s[i - front.len()] == repeated(s, n)[i]);
            }
        }
    }
}

} // verus!
