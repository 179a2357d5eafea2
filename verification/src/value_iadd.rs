//! In-place addition of values.

use vstd::prelude::*;

use crate::arith::{computed, Arith, Computed, Operand};
use crate::exception::{RunError, RunResult};
use crate::float::{FloatOp, FloatTask};
use crate::heap::{lemma_with_refs_data, with_refs, HeapData, HeapEntry, HeapId};
use crate::types::containers::List;
use crate::types::file_ops::with_entries;
use crate::value::Value;
use crate::value_add::lemma_entry_ok;
use crate::vm::VM;

verus! {

/// What an in-place operation did.
#[derive(Debug)]
pub enum InPlace {
    /// The left operand is the result now.
    Changed,
    /// The operands are none that can be combined in place.
    NotSupported,
    /// The left operand is to become the result of rounding arithmetic.
    Float(FloatTask),
}

/// What `a += b` makes of `a`, where it makes a new value.
pub open spec fn sum_in_place(vm: VM, a: Value, b: Value) -> Option<Computed> {
    match (a, b) {
        (Value::Int(x), Value::Int(y)) => Some(Computed::Integer(x + y)),
        (Value::Float(x), Value::Float(y)) => Some(
            Computed::Rounded(FloatOp::Add, Operand::Float(x), Operand::Float(y)),
        ),
        (Value::InternString(x), _) => match vm.text_of(b) {
            Some(t) => Some(Computed::Text(vm.interns.str_at(x) + t)),
            None => None,
        },
        (Value::InternBytes(x), _) => match vm.bytes_of(b) {
            Some(t) => Some(Computed::Raw(vm.interns.bytes_at(x) + t)),
            None => None,
        },
        _ => None,
    }
}

/// Whether both values are lists.
pub open spec fn both_lists(vm: VM, a: Value, b: Value) -> bool {
    vm.data_of(a) matches Some(HeapData::List(_)) && vm.data_of(b) matches Some(HeapData::List(_))
}

/// Whether a list took the items of another at its end, each counted once more.
pub open spec fn list_extended(before: VM, after: VM, id: HeapId, other: HeapId) -> bool {
    let items = before.heap.data(id)->List_0.items@;
    let more = before.heap.data(other)->List_0.items@;
    let counted = with_refs(before.entries(), more);
    exists|list: List|
        list.items@ == items + more && with_entries(
            before,
            after,
            #[trigger] counted.update(
                id.0 as int,
                HeapEntry { data: HeapData::List(list), refs: counted[id.0 as int].refs },
            ),
        )
}

/// What `a += b` comes to, where `now` is `a` after it.
pub open spec fn iadd_done(
    before: VM,
    after: VM,
    r: RunResult<InPlace>,
    a: Value,
    now: Value,
    b: Value,
) -> bool {
    match sum_in_place(before, a, b) {
        Some(o) => match r {
            Ok(InPlace::Changed) => computed(before, after, Ok(Arith::Done(now)), o),
            Ok(InPlace::Float(task)) => now == a && computed(
                before,
                after,
                Ok(Arith::Float(task)),
                o,
            ),
            Ok(InPlace::NotSupported) => false,
            Err(e) => now == a && computed(before, after, Err(e), o),
        },
        None => if both_lists(before, a, b) {
            r == Ok::<InPlace, RunError>(InPlace::Changed) && now == a && list_extended(
                before,
                after,
                a->Ref_0,
                b->Ref_0,
            )
        } else {
            r == Ok::<InPlace, RunError>(InPlace::NotSupported) && now == a && after == before
        },
    }
}

/// Puts the items of a list at the end of another.
fn extend_list(id: HeapId, other: HeapId, vm: &mut VM)
    requires
        old(vm).wf(),
        both_lists(*old(vm), Value::Ref(id), Value::Ref(other)),
        id.0 < old(vm).entries().len(),
        other.0 < old(vm).entries().len(),
    ensures
        final(vm).wf(),
        list_extended(*old(vm), *final(vm), id, other),
{
    proof {
        lemma_entry_ok(*vm, id);
        lemma_entry_ok(*vm, other);
    }
    let mut all: Vec<Value> = Vec::new();
    match vm.heap.get(id) {
        HeapData::List(list) => {
            for i in 0..list.items.len()
                invariant
                    all@ == list.items@.take(i as int),
            {
                all.push(list.items[i].alias());
                assert(all@ =~= list.items@.take(i + 1));
            }
            assert(list.items@.take(list.items@.len() as int) =~= list.items@);
        },
        _ => {},
    }
    let ghost own = all@;
    let mut more: Vec<Value> = Vec::new();
    match vm.heap.get(other) {
        HeapData::List(list) => {
            for i in 0..list.items.len()
                invariant
                    all@ == own + list.items@.take(i as int),
                    more@ == list.items@.take(i as int),
            {
                all.push(list.items[i].alias());
                more.push(list.items[i].alias());
                assert(all@ =~= own + list.items@.take(i + 1));
                assert(more@ =~= list.items@.take(i + 1));
            }
            assert(list.items@.take(list.items@.len() as int) =~= list.items@);
        },
        _ => {},
    }
    let ghost extra = more@;
    proof {
        lemma_with_refs_data(vm.entries(), extra);
    }
    let _counted = vm.clone_values(&more);
    let list = List::new(all);
    assert(vm.all_ok(list.items@)) by {
        assert forall|i: int| 0 <= i < list.items@.len() implies vm.ok(
            #[trigger] list.items@[i],
        ) by {
            if i < own.len() {
                assert(list.items@[i] == own[i]);
                assert(old(vm).ok(own[i]));
            } else {
                assert(list.items@[i] == extra[i - own.len()]);
                assert(old(vm).ok(extra[i - own.len()]));
            }
        }
    }
    let ghost made = list;
    let ghost counted = vm.entries();
    vm.set_data(id, HeapData::List(list));
    assert(vm.entries() == counted.update(
        id.0 as int,
        HeapEntry { data: HeapData::List(made), refs: counted[id.0 as int].refs },
    ));
}

impl Value {
    /// `self += other`.
    pub fn py_iadd(&mut self, other: &Value, vm: &mut VM) -> (r: RunResult<InPlace>)
        requires
            old(vm).wf(),
            old(vm).ok(*old(self)),
            old(vm).ok(*other),
        ensures
            final(vm).wf(),
            final(vm).ok(*final(self)),
            iadd_done(*old(vm), *final(vm), r, *old(self), *final(self), *other),
    {
        let combined = match (&*self, other) {
            (Value::Int(_), Value::Int(_)) => true,
            (Value::Float(_), Value::Float(_)) => true,
            (Value::InternString(_), _) => other.text(vm).is_some(),
            (Value::InternBytes(_), _) => other.raw_bytes(vm).is_some(),
            _ => false,
        };
        if combined {
            return match self.py_add(other, vm) {
                Ok(Arith::Done(v)) => {
                    *self = v;
                    Ok(InPlace::Changed)
                },
                Ok(Arith::Float(task)) => Ok(InPlace::Float(task)),
                Ok(Arith::Unsupported) => Ok(InPlace::NotSupported),
                Err(e) => Err(e),
            };
        }
        let lists = match (&*self, other) {
            (Value::Ref(x), Value::Ref(y)) => match (vm.heap.get(*x), vm.heap.get(*y)) {
                (HeapData::List(_), HeapData::List(_)) => Some((*x, *y)),
                _ => None,
            },
            _ => None,
        };
        match lists {
            Some((x, y)) => {
                proof {
                    lemma_with_refs_data(vm.entries(), vm.heap.data(y)->List_0.items@);
                }
                extend_list(x, y, vm);
                Ok(InPlace::Changed)
            },
            None => Ok(InPlace::NotSupported),
        }
    }
}

} // verus!
