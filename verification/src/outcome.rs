//! What an operation comes to, before it is put into the heap.

use vstd::prelude::*;

use crate::args::{raises, Raised};
use crate::exception::{ExcType, RunError, RunResult};
use crate::heap::{data_ok, HeapData, HeapId};
use crate::text::{string_of, texts};
use crate::types::bytes::Bytes;
use crate::types::containers::List;
use crate::types::str::{
    adds_strings, allocate_string, allocate_strings, has_room, heap_full, held_texts,
    string_result, string_values,
};
use crate::types::tuple::Tuple;
use crate::types::tuple_vec::TupleVec;
use crate::value::Value;
use crate::vm::{fresh, VM};

verus! {

/// A result that is not yet in the heap.
#[derive(Debug)]
pub enum Answer {
    Flag(bool),
    Number(i64),
    Text(Vec<char>),
    /// A list of strings.
    Texts(Vec<Vec<char>>),
    /// A tuple of strings.
    TupleOfTexts(Vec<Vec<char>>),
    Raw(Vec<u8>),
}

/// What an operation comes to: a result, or an exception.
pub enum Outcome {
    Flag(bool),
    Number(int),
    Text(Seq<char>),
    Texts(Seq<Seq<char>>),
    TupleOfTexts(Seq<Seq<char>>),
    Raw(Seq<u8>),
    Raise(ExcType, Seq<char>),
}

/// An outcome that is an exception.
pub open spec fn raise(e: Raised) -> Outcome {
    Outcome::Raise(e.0, e.1)
}

/// Whether a result is what the outcome says.
pub open spec fn answers(r: RunResult<Answer>, o: Outcome) -> bool {
    match (r, o) {
        (Ok(Answer::Flag(a)), Outcome::Flag(b)) => a == b,
        (Ok(Answer::Number(a)), Outcome::Number(b)) => a == b,
        (Ok(Answer::Text(a)), Outcome::Text(b)) => a@ == b,
        (Ok(Answer::Texts(a)), Outcome::Texts(b)) => texts(a@) == b,
        (Ok(Answer::TupleOfTexts(a)), Outcome::TupleOfTexts(b)) => texts(a@) == b,
        (Ok(Answer::Raw(a)), Outcome::Raw(b)) => a@ == b,
        (Err(e), Outcome::Raise(t, m)) => e.says(t, m),
        _ => false,
    }
}

/// Whether strings were put into the heap and then one entry that holds them.
pub open spec fn adds_collection(before: VM, after: VM, all: Seq<Seq<char>>) -> bool {
    let n = before.entries().len() + held_texts(all).len();
    &&& after.grows_from(before)
    &&& after.entries().len() == n + 1
    &&& after.entries()[n as int].refs == 1
    &&& forall|k: int|
        0 <= k < held_texts(all).len() ==> crate::types::str::is_fresh_str(
            #[trigger] after.entries()[before.entries().len() + k],
            held_texts(all)[k],
        )
}

/// Whether a value is a new list of strings.
pub open spec fn new_string_list(before: VM, after: VM, v: Value, all: Seq<Seq<char>>) -> bool {
    let n = before.entries().len() + held_texts(all).len();
    &&& v == Value::Ref(HeapId(n as usize))
    &&& adds_collection(before, after, all)
    &&& after.entries()[n as int].data matches HeapData::List(list)
    &&& list.items@ == string_values(before.entries().len(), all)
}

/// Whether a value is a new tuple of strings.
pub open spec fn new_string_tuple(before: VM, after: VM, v: Value, all: Seq<Seq<char>>) -> bool {
    let n = before.entries().len() + held_texts(all).len();
    &&& v == Value::Ref(HeapId(n as usize))
    &&& adds_collection(before, after, all)
    &&& after.entries()[n as int].data matches HeapData::Tuple(tuple)
    &&& tuple.items@ == string_values(before.entries().len(), all)
}

/// Whether a value is new bytes.
pub open spec fn new_bytes(before: VM, after: VM, v: Value, bytes: Seq<u8>) -> bool {
    &&& v == Value::Ref(HeapId(before.entries().len() as usize))
    &&& after.entries().len() == before.entries().len() + 1
    &&& after.grows_from(before)
    &&& after.entries().last().refs == 1
    &&& after.entries().last().data matches HeapData::Bytes(b)
    &&& b@ == bytes
}

/// Whether a result is what the outcome says, put into the heap: `before` is
/// the state before and `after` the state after. Every outcome that is no
/// exception succeeds unless the heap is full.
pub open spec fn realised(before: VM, after: VM, r: RunResult<Value>, o: Outcome) -> bool {
    match o {
        Outcome::Raise(t, m) => raises(r, (t, m)) && after == before,
        Outcome::Flag(b) => r == Ok::<Value, RunError>(Value::Bool(b)) && after == before,
        Outcome::Number(n) => {
            &&& r matches Ok(Value::Int(i)) && i == n
            &&& after == before
        },
        Outcome::Text(t) => string_result(before, after, r, t),
        Outcome::Texts(all) => match r {
            Ok(v) => has_room(before, held_texts(all).len() + 1) && new_string_list(
                before,
                after,
                v,
                all,
            ),
            Err(e) => !has_room(before, held_texts(all).len() + 1) && heap_full(e)
                && after.grows_from(before),
        },
        Outcome::TupleOfTexts(all) => match r {
            Ok(v) => has_room(before, held_texts(all).len() + 1) && new_string_tuple(
                before,
                after,
                v,
                all,
            ),
            Err(e) => !has_room(before, held_texts(all).len() + 1) && heap_full(e)
                && after.grows_from(before),
        },
        Outcome::Raw(bytes) => bytes_result(before, after, r, bytes),
    }
}

/// Whether a result is new bytes, or the error for a full heap.
pub open spec fn bytes_result(before: VM, after: VM, r: RunResult<Value>, bytes: Seq<u8>) -> bool {
    match r {
        Ok(v) => before.heap.room() > 0 && new_bytes(before, after, v, bytes),
        Err(e) => before.heap.room() <= 0 && heap_full(e) && after == before,
    }
}

/// Puts bytes into the heap.
pub fn allocate_bytes(bytes: Vec<u8>, vm: &mut VM) -> (r: RunResult<Value>)
    requires
        old(vm).wf(),
    ensures
        final(vm).wf(),
        r matches Ok(v) ==> final(vm).ok(v),
        bytes_result(*old(vm), *final(vm), r, bytes@),
{
    match vm.allocate(HeapData::Bytes(Bytes::new(bytes))) {
        Ok(id) => {
            assert(old(vm).entries().is_prefix_of(vm.entries()));
            Ok(Value::Ref(id))
        },
        Err(e) => Err(e),
    }
}

/// Puts strings and a list of them into the heap.
pub fn allocate_string_list(pieces: &Vec<Vec<char>>, vm: &mut VM) -> (r: RunResult<Value>)
    requires
        old(vm).wf(),
    ensures
        final(vm).wf(),
        r matches Ok(v) ==> final(vm).ok(v),
        realised(*old(vm), *final(vm), r, Outcome::Texts(texts(pieces@))),
{
    let ghost all = texts(pieces@);
    let items = match allocate_strings(pieces, vm) {
        Ok(items) => items,
        Err(e) => {
            return Err(e);
        },
    };
    let ghost mid = *vm;
    match vm.allocate(HeapData::List(List::new(items))) {
        Ok(id) => {
            proof {
                assert(vm.entries().drop_last() =~= mid.entries());
                lemma_collection(*old(vm), mid, *vm, all);
            }
            Ok(Value::Ref(id))
        },
        Err(e) => Err(e),
    }
}

/// Strings, and one more entry after them.
proof fn lemma_collection(before: VM, mid: VM, after: VM, all: Seq<Seq<char>>)
    requires
        adds_strings(before, mid, held_texts(all)),
        after.same_setting(mid),
        after.entries().len() == mid.entries().len() + 1,
        mid.entries() == after.entries().drop_last(),
        after.entries().last().refs == 1,
    ensures
        adds_collection(before, after, all),
{
    let n = before.entries().len();
    assert forall|k: int| 0 <= k < held_texts(all).len() implies crate::types::str::is_fresh_str(
        #[trigger] after.entries()[n + k],
        held_texts(all)[k],
    ) by {
        assert(after.entries()[n + k] == mid.entries()[n + k]);
    }
    assert(before.entries().is_prefix_of(after.entries())) by {
        assert(before.entries().is_prefix_of(mid.entries()));
        assert forall|i: int| 0 <= i < n implies before.entries()[i] == after.entries()[i] by {
            assert(mid.entries()[i] == after.entries()[i]);
        }
        assert(before.entries() =~= after.entries().subrange(0, n as int));
    }
}

/// Puts strings and a tuple of them into the heap.
pub fn allocate_string_tuple(pieces: &Vec<Vec<char>>, vm: &mut VM) -> (r: RunResult<Value>)
    requires
        old(vm).wf(),
    ensures
        final(vm).wf(),
        r matches Ok(v) ==> final(vm).ok(v),
        realised(*old(vm), *final(vm), r, Outcome::TupleOfTexts(texts(pieces@))),
{
    let ghost all = texts(pieces@);
    let items = match allocate_strings(pieces, vm) {
        Ok(items) => items,
        Err(e) => {
            return Err(e);
        },
    };
    let ghost mid = *vm;
    let tuple = Tuple::new(TupleVec::from_vec(items));
    match vm.allocate(HeapData::Tuple(tuple)) {
        Ok(id) => {
            proof {
                assert(vm.entries().drop_last() =~= mid.entries());
                lemma_collection(*old(vm), mid, *vm, all);
            }
            Ok(Value::Ref(id))
        },
        Err(e) => Err(e),
    }
}

impl Answer {
    /// Puts the result into the heap.
    pub fn realise(self, vm: &mut VM) -> (r: RunResult<Value>)
        requires
            old(vm).wf(),
        ensures
            final(vm).wf(),
            r matches Ok(v) ==> final(vm).ok(v),
            forall|o: Outcome|
                answers(Ok(self), o) ==> #[trigger] realised(*old(vm), *final(vm), r, o),
    {
        match self {
            Answer::Flag(b) => Ok(Value::Bool(b)),
            Answer::Number(n) => Ok(Value::Int(n)),
            Answer::Text(text) => allocate_string(string_of(&text), vm),
            Answer::Texts(pieces) => allocate_string_list(&pieces, vm),
            Answer::TupleOfTexts(pieces) => allocate_string_tuple(&pieces, vm),
            Answer::Raw(bytes) => allocate_bytes(bytes, vm),
        }
    }
}

/// Whether a value is a new heap entry that holds `data`, or the heap is full.
pub open spec fn object_result(before: VM, after: VM, r: RunResult<Value>, data: HeapData) -> bool {
    match r {
        Ok(v) => {
            &&& before.heap.room() > 0
            &&& v == Value::Ref(HeapId(before.entries().len() as usize))
            &&& after.same_setting(before)
            &&& after.entries() == before.entries().push(fresh(data))
        },
        Err(e) => before.heap.room() <= 0 && heap_full(e) && after == before,
    }
}

/// Puts an object into the heap.
pub fn allocate_object(data: HeapData, vm: &mut VM) -> (r: RunResult<Value>)
    requires
        old(vm).wf(),
        data_ok(data, old(vm).entries().len(), old(vm).interns),
    ensures
        final(vm).wf(),
        r matches Ok(v) ==> final(vm).ok(v),
        object_result(*old(vm), *final(vm), r, data),
{
    match vm.allocate(data) {
        Ok(id) => Ok(Value::Ref(id)),
        Err(e) => Err(e),
    }
}

} // verus!
