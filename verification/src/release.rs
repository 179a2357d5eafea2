//! Dropping references, and with the last one everything that only it kept alive.

use vstd::prelude::*;

use crate::args::ArgValues;
use crate::heap::{data_ok, data_refs, decremented, with_ref, without_ref, HeapEntry, HeapId};
use crate::value::{value_ok, value_refs, values_ok, values_refs, EitherStr, Value};
use crate::vm::VM;

verus! {

/// The references that are counted; a count at its limit is not.
pub open spec fn counted(refs: u64) -> nat {
    if refs == u64::MAX {
        0
    } else {
        refs as nat
    }
}

/// All references that are counted.
pub open spec fn total_refs(entries: Seq<HeapEntry>) -> nat
    decreases entries.len(),
{
    if entries.len() == 0 {
        0
    } else {
        total_refs(entries.drop_last()) + counted(entries.last().refs)
    }
}

/// Changing one count changes the total by the difference.
pub proof fn lemma_total_update(entries: Seq<HeapEntry>, i: int, e: HeapEntry)
    requires
        0 <= i < entries.len(),
    ensures
        total_refs(entries.update(i, e)) == total_refs(entries) - counted(entries[i].refs)
            + counted(e.refs),
        total_refs(entries) >= counted(entries[i].refs),
    decreases entries.len(),
{
    let changed = entries.update(i, e);
    if i == entries.len() - 1 {
        assert(changed.drop_last() =~= entries.drop_last());
    } else {
        lemma_total_update(entries.drop_last(), i, e);
        assert(changed.drop_last() =~= entries.drop_last().update(i, e));
    }
}

/// The heap after dropping one reference for each entry on the stack, the last
/// first. An entry that loses its last reference drops those it holds itself.
pub open spec fn released(entries: Seq<HeapEntry>, stack: Seq<HeapId>) -> Seq<HeapEntry>
    decreases total_refs(entries), stack.len(),
{
    if stack.len() == 0 {
        entries
    } else {
        let id = stack.last();
        let rest = stack.drop_last();
        if id.0 >= entries.len() {
            released(entries, rest)
        } else {
            let entry = entries[id.0 as int];
            proof {
                lemma_total_update(
                    entries,
                    id.0 as int,
                    HeapEntry { data: entry.data, refs: decremented(entry.refs) },
                );
            }
            if entry.refs == 0 || entry.refs == u64::MAX {
                released(entries, rest)
            } else if entry.refs > 1 {
                released(without_ref(entries, id), rest)
            } else {
                released(without_ref(entries, id), rest + data_refs(entry.data))
            }
        }
    }
}

/// Whether the stack names only entries that exist.
pub open spec fn stack_ok(stack: Seq<HeapId>, entries: nat) -> bool {
    forall|i: int| 0 <= i < stack.len() ==> (#[trigger] stack[i]).0 < entries
}

/// The entries that values refer to exist.
proof fn lemma_values_refs_ok(vs: Seq<Value>, entries: nat, interns: crate::intern::Interns)
    requires
        values_ok(vs, entries, interns),
    ensures
        stack_ok(values_refs(vs), entries),
    decreases vs.len(),
{
    if vs.len() > 0 {
        assert(value_ok(vs[vs.len() - 1], entries, interns));
        assert(values_ok(vs.drop_last(), entries, interns)) by {
            assert forall|i: int| 0 <= i < vs.drop_last().len() implies value_ok(
                #[trigger] vs.drop_last()[i],
                entries,
                interns,
            ) by {
                assert(value_ok(vs[i], entries, interns));
            }
        }
        lemma_values_refs_ok(vs.drop_last(), entries, interns);
    }
}

/// The entries that the pairs of a dictionary refer to exist.
proof fn lemma_pair_refs_ok(
    pairs: Seq<(Value, Value)>,
    entries: nat,
    interns: crate::intern::Interns,
)
    requires
        crate::heap::entries_ok(pairs, entries, interns),
    ensures
        stack_ok(crate::heap::pair_refs(pairs), entries),
    decreases pairs.len(),
{
    if pairs.len() > 0 {
        let last = pairs[pairs.len() - 1];
        assert(value_ok(last.0, entries, interns) && value_ok(last.1, entries, interns));
        assert(crate::heap::entries_ok(pairs.drop_last(), entries, interns)) by {
            assert forall|i: int| 0 <= i < pairs.drop_last().len() implies value_ok(
                (#[trigger] pairs.drop_last()[i]).0,
                entries,
                interns,
            ) && value_ok(pairs.drop_last()[i].1, entries, interns) by {
                assert(value_ok(pairs[i].0, entries, interns));
            }
        }
        lemma_pair_refs_ok(pairs.drop_last(), entries, interns);
    }
}

/// The entries that a well-formed entry refers to exist.
pub proof fn lemma_data_refs_ok(
    data: crate::heap::HeapData,
    entries: nat,
    interns: crate::intern::Interns,
)
    requires
        data_ok(data, entries, interns),
    ensures
        stack_ok(data_refs(data), entries),
{
    match data {
        crate::heap::HeapData::List(list) => lemma_values_refs_ok(list.items@, entries, interns),
        crate::heap::HeapData::Tuple(tuple) => lemma_values_refs_ok(tuple.items@, entries, interns),
        crate::heap::HeapData::NamedTuple(tuple) => lemma_values_refs_ok(
            tuple.items@,
            entries,
            interns,
        ),
        crate::heap::HeapData::Dict(dict) => lemma_pair_refs_ok(dict.entries@, entries, interns),
        crate::heap::HeapData::SetData(set) => lemma_values_refs_ok(set.items@, entries, interns),
        crate::heap::HeapData::FrozenSet(set) => lemma_values_refs_ok(set.items@, entries, interns),
        crate::heap::HeapData::Dataclass(instance) => lemma_pair_refs_ok(
            instance.attrs.entries@,
            entries,
            interns,
        ),
        _ => {},
    }
}

impl VM {
    /// Drops one reference to an entry, and with the last one those that the
    /// entry holds.
    pub fn release(&mut self, id: HeapId)
        requires
            old(self).wf(),
            id.0 < old(self).entries().len(),
        ensures
            final(self).wf(),
            final(self).same_setting(*old(self)),
            final(self).entries() == released(old(self).entries(), seq![id]),
    {
        let mut ids: Vec<HeapId> = Vec::new();
        ids.push(id);
        assert(ids@ =~= seq![id]);
        self.release_all(ids);
    }

    /// Drops one reference to each entry, the last first, and with the last one to
    /// an entry those that it holds.
    pub fn release_all(&mut self, ids: Vec<HeapId>)
        requires
            old(self).wf(),
            stack_ok(ids@, old(self).entries().len()),
        ensures
            final(self).wf(),
            final(self).same_setting(*old(self)),
            final(self).entries() == released(old(self).entries(), ids@),
            final(self).entries().len() == old(self).entries().len(),
    {
        let mut stack = ids;
        while stack.len() > 0
            invariant
                self.wf(),
                self.same_setting(*old(self)),
                self.entries().len() == old(self).entries().len(),
                stack_ok(stack@, self.entries().len()),
                released(self.entries(), stack@) == released(old(self).entries(), ids@),
            decreases total_refs(self.entries()), stack@.len(),
        {
            let ghost before = self.entries();
            let ghost whole = stack@;
            let top = stack.pop().unwrap();
            assert(whole[whole.len() - 1].0 < before.len());
            assert forall|i: int| 0 <= i < stack@.len() implies (#[trigger] stack@[i]).0 < before.len() by {
                assert(stack@[i] == whole[i]);
            }
            let refs: u64 = self.heap.refs(top);
            if refs != 0 && refs != u64::MAX {
                if refs == 1 {
                    proof {
                        assert(data_ok(before[top.0 as int].data, before.len(), self.interns));
                        lemma_data_refs_ok(before[top.0 as int].data, before.len(), self.interns);
                    }
                    let ghost rest = stack@;
                    self.heap.get(top).py_dec_ref_ids(&mut stack);
                    assert(stack_ok(stack@, before.len())) by {
                        assert forall|i: int| 0 <= i < stack@.len() implies (#[trigger] stack@[i]).0
                            < before.len() by {
                            if i < rest.len() {
                                assert(stack@[i] == rest[i]);
                            } else {
                                assert(stack@[i] == data_refs(before[top.0 as int].data)[i
                                    - rest.len()]);
                            }
                        }
                    }
                }
                self.drop_value(Value::Ref(top));
                proof {
                    lemma_total_update(
                        before,
                        top.0 as int,
                        HeapEntry {
                            data: before[top.0 as int].data,
                            refs: decremented(before[top.0 as int].refs),
                        },
                    );
                }
            }
        }
    }
}

impl Value {
    /// Copies a value; a reference is counted once more.
    pub fn clone_with_heap(&self, vm: &mut VM) -> (r: Value)
        requires
            old(vm).wf(),
            old(vm).ok(*self),
        ensures
            final(vm).wf(),
            final(vm).same_setting(*old(vm)),
            final(vm).entries() == with_ref(old(vm).entries(), *self),
            r == *self,
    {
        vm.clone_value(self)
    }

    /// Drops a value; a reference is counted once less, and with the last one
    /// go those that the entry holds.
    pub fn drop_with_heap(self, vm: &mut VM)
        requires
            old(vm).wf(),
            old(vm).ok(self),
        ensures
            final(vm).wf(),
            final(vm).same_setting(*old(vm)),
            final(vm).entries() == released(old(vm).entries(), value_refs(self)),
    {
        match self {
            Value::Ref(id) => vm.release(id),
            _ => {},
        }
    }
}

/// Whether one state is another after the references of values are dropped.
pub open spec fn dropped(before: VM, after: VM, vs: Seq<Value>) -> bool {
    &&& after.same_setting(before)
    &&& after.entries() == released(before.entries(), values_refs(vs))
}

impl VM {
    /// Drops values.
    pub fn drop_values(&mut self, values: Vec<Value>)
        requires
            old(self).wf(),
            old(self).all_ok(values@),
        ensures
            final(self).wf(),
            final(self).entries().len() == old(self).entries().len(),
            dropped(*old(self), *final(self), values@),
    {
        let mut stack: Vec<HeapId> = Vec::new();
        crate::value::push_value_refs(&values, &mut stack);
        proof {
            assert(stack@ =~= values_refs(values@));
            lemma_values_refs_ok(values@, self.entries().len(), self.interns);
        }
        self.release_all(stack);
    }
}

/// The values among keyword arguments.
pub open spec fn kwarg_values(kwargs: Seq<(EitherStr, Value)>) -> Seq<Value> {
    kwargs.map_values(|pair: (EitherStr, Value)| pair.1)
}

impl ArgValues {
    /// The entries that the arguments refer to, once for each reference.
    pub open spec fn refs(self) -> Seq<HeapId> {
        values_refs(self.pos@) + values_refs(kwarg_values(self.kwargs@))
    }

    /// Whether one state is another after the references of the arguments are
    /// dropped.
    pub open spec fn consumed(self, before: VM, after: VM) -> bool {
        &&& after.same_setting(before)
        &&& after.entries() == released(before.entries(), self.refs())
    }

    /// Drops the references of the arguments.
    pub fn release(self, vm: &mut VM)
        requires
            old(vm).wf(),
            self.ok(old(vm).entries().len(), old(vm).interns),
        ensures
            final(vm).wf(),
            final(vm).entries().len() == old(vm).entries().len(),
            self.consumed(*old(vm), *final(vm)),
    {
        let mut values: Vec<Value> = Vec::new();
        for i in 0..self.kwargs.len()
            invariant
                values@ == kwarg_values(self.kwargs@).take(i as int),
        {
            values.push(self.kwargs[i].1.alias());
            assert(values@ =~= kwarg_values(self.kwargs@).take(i + 1));
        }
        assert(values@ =~= kwarg_values(self.kwargs@));
        let mut stack: Vec<HeapId> = Vec::new();
        crate::value::push_value_refs(&self.pos, &mut stack);
        crate::value::push_value_refs(&values, &mut stack);
        proof {
            assert(stack@ =~= self.refs());
            lemma_values_refs_ok(self.pos@, vm.entries().len(), vm.interns);
            lemma_values_refs_ok(values@, vm.entries().len(), vm.interns);
            assert forall|i: int| 0 <= i < stack@.len() implies (#[trigger] stack@[i]).0
                < vm.entries().len() by {
                let first = values_refs(self.pos@);
                if i < first.len() {
                    assert(stack@[i] == first[i]);
                } else {
                    assert(stack@[i] == values_refs(values@)[i - first.len()]);
                }
            }
        }
        vm.release_all(stack);
    }
}

/// Copying a value and dropping the copy leaves every count as it was, unless
/// the count is at its limit or the entry was already dead.
pub proof fn lemma_clone_then_drop(entries: Seq<HeapEntry>, v: Value)
    requires
        v matches Value::Ref(id) ==> id.0 < entries.len() && 0 < entries[id.0 as int].refs
            < u64::MAX - 1,
    ensures
        released(with_ref(entries, v), value_refs(v)) == entries,
{
    match v {
        Value::Ref(id) => {
            let counted_once = with_ref(entries, v);
            let stack = seq![id];
            assert(stack.drop_last() =~= Seq::empty());
            assert(counted_once[id.0 as int].refs == entries[id.0 as int].refs + 1);
            assert(without_ref(counted_once, id) =~= entries);
            assert(released(entries, Seq::<HeapId>::empty()) == entries);
            assert(released(counted_once, stack) == released(
                without_ref(counted_once, id),
                stack.drop_last(),
            ));
        },
        _ => {
            assert(released(entries, Seq::<HeapId>::empty()) == entries);
        },
    }
}

/// Dropping references changes no data.
pub proof fn lemma_released_data(entries: Seq<HeapEntry>, stack: Seq<HeapId>)
    ensures
        released(entries, stack).len() == entries.len(),
        forall|i: int|
            0 <= i < entries.len() ==> (#[trigger] released(entries, stack)[i]).data
                == entries[i].data,
    decreases total_refs(entries), stack.len(),
{
    if stack.len() > 0 {
        let id = stack.last();
        let rest = stack.drop_last();
        if id.0 >= entries.len() {
            lemma_released_data(entries, rest);
        } else {
            let entry = entries[id.0 as int];
            lemma_total_update(
                entries,
                id.0 as int,
                HeapEntry { data: entry.data, refs: decremented(entry.refs) },
            );
            if entry.refs == 0 || entry.refs == u64::MAX {
                lemma_released_data(entries, rest);
            } else if entry.refs > 1 {
                lemma_released_data(without_ref(entries, id), rest);
            } else {
                lemma_released_data(without_ref(entries, id), rest + data_refs(entry.data));
            }
        }
    }
}

} // verus!
