//! The state that operations on values work on.

use vstd::prelude::*;

use crate::exception::{ExcType, RunError, RunResult};
use crate::heap::{
    data_ok, lemma_data_ok_grows, lemma_with_refs_data, with_ref, with_refs, without_ref, Heap,
    HeapData, HeapEntry, HeapId, EMPTY_TUPLE, UTC_TIMEZONE,
};
use crate::intern::Interns;
use crate::types::bytes::Bytes;
use crate::types::file::PendingFileEffect;
use crate::types::str::Str;
use crate::types::timezone::TimeZone;
use crate::types::tuple::Tuple;
use crate::types::tuple_vec::TupleVec;
use crate::value::{value_ok, values_ok, Value};

verus! {

/// The interpreter's state as far as values depend on it.
#[derive(Debug)]
pub struct VM {
    pub heap: Heap,
    pub interns: Interns,
    /// What is left to do for a file when the host answers the current call.
    pub pending_file_effect: Option<PendingFileEffect>,
}

/// An entry with one reference.
pub open spec fn fresh(data: HeapData) -> HeapEntry {
    HeapEntry { data, refs: 1 }
}

impl VM {
    /// Whether the tables and the arena are well-formed.
    pub open spec fn wf(self) -> bool {
        &&& self.interns.wf()
        &&& self.heap.wf(self.interns)
    }

    /// The heap entries.
    pub open spec fn entries(self) -> Seq<HeapEntry> {
        self.heap.entries@
    }

    /// Whether what a value refers to exists.
    pub open spec fn ok(self, v: Value) -> bool {
        value_ok(v, self.heap.entries@.len(), self.interns)
    }

    /// Whether what the values refer to exists.
    pub open spec fn all_ok(self, vs: Seq<Value>) -> bool {
        values_ok(vs, self.heap.entries@.len(), self.interns)
    }

    /// What a value refers to in the heap.
    pub open spec fn data_of(self, v: Value) -> Option<HeapData> {
        match v {
            Value::Ref(id) => Some(self.heap.data(id)),
            _ => None,
        }
    }

    /// The text of a value that is a string.
    pub open spec fn text_of(self, v: Value) -> Option<Seq<char>> {
        match v {
            Value::InternString(id) => Some(self.interns.str_at(id)),
            Value::Ref(id) => match self.heap.data(id) {
                HeapData::Str(s) => Some(s@),
                _ => None,
            },
            _ => None,
        }
    }

    /// The bytes of a value that is bytes.
    pub open spec fn bytes_of(self, v: Value) -> Option<Seq<u8>> {
        match v {
            Value::InternBytes(id) => Some(self.interns.bytes_at(id)),
            Value::Ref(id) => match self.heap.data(id) {
                HeapData::Bytes(b) => Some(b@),
                _ => None,
            },
            _ => None,
        }
    }

    /// Whether nothing but the entries changed.
    pub open spec fn same_setting(self, other: VM) -> bool {
        &&& self.interns == other.interns
        &&& self.heap.same_limits(other.heap)
        &&& self.pending_file_effect == other.pending_file_effect
    }

    /// Whether the entries are those of `other` and then more.
    pub open spec fn grows_from(self, other: VM) -> bool {
        &&& self.same_setting(other)
        &&& other.entries().is_prefix_of(self.entries())
    }

    /// A state with nothing but what is always there.
    pub fn new(max_entries: usize, max_bytes: usize, max_depth: usize) -> (r: VM)
        ensures
            r.wf(),
            r.entries().len() == 2,
            r.heap.max_entries == max_entries,
            r.heap.max_bytes == max_bytes,
            r.heap.max_depth == max_depth,
            r.interns.bytes@.len() == 0,
            r.interns.long_ints@.len() == 0,
            r.pending_file_effect is None,
    {
        let interns = Interns::new();
        let mut entries: Vec<HeapEntry> = Vec::new();
        let empty = Tuple::new(TupleVec::new());
        entries.push(HeapEntry { data: HeapData::Tuple(empty), refs: 1 });
        entries.push(HeapEntry { data: HeapData::TimeZone(TimeZone::utc()), refs: 1 });
        VM {
            heap: Heap { entries, max_entries, max_bytes, max_depth },
            interns,
            pending_file_effect: None,
        }
    }

    /// Puts an entry into the heap, unless it is full.
    pub fn allocate(&mut self, data: HeapData) -> (r: RunResult<HeapId>)
        requires
            old(self).wf(),
            data_ok(data, old(self).entries().len(), old(self).interns),
        ensures
            final(self).wf(),
            final(self).same_setting(*old(self)),
            match r {
                Ok(id) => {
                    &&& old(self).heap.room() > 0
                    &&& id.0 == old(self).entries().len()
                    &&& final(self).entries() == old(self).entries().push(fresh(data))
                },
                Err(e) => {
                    &&& old(self).heap.room() <= 0
                    &&& e.says(ExcType::MemoryError, "allocation limit exceeded"@)
                    &&& *final(self) == *old(self)
                },
            },
    {
        if self.heap.entries.len() >= self.heap.max_entries {
            return Err(RunError::new(ExcType::MemoryError, "allocation limit exceeded"));
        }
        let id: usize = self.heap.entries.len();
        self.heap.entries.push(HeapEntry { data, refs: 1 });
        proof {
            let before = old(self).entries();
            let after = self.entries();
            assert forall|i: int| 0 <= i < after.len() implies data_ok(
                (#[trigger] after[i]).data,
                after.len(),
                self.interns,
            ) by {
                if i < before.len() {
                    assert(after[i] == before[i]);
                    lemma_data_ok_grows(before[i].data, before.len(), after.len(), self.interns);
                } else {
                    lemma_data_ok_grows(data, before.len(), after.len(), self.interns);
                }
            }
            assert(after[EMPTY_TUPLE as int] == before[EMPTY_TUPLE as int]);
            assert(after[UTC_TIMEZONE as int] == before[UTC_TIMEZONE as int]);
        }
        Ok(HeapId(id))
    }

    /// Counts one more reference to what the value refers to, and gives the value again.
    pub fn clone_value(&mut self, v: &Value) -> (r: Value)
        requires
            old(self).wf(),
            old(self).ok(*v),
        ensures
            final(self).wf(),
            final(self).same_setting(*old(self)),
            final(self).entries() == with_ref(old(self).entries(), *v),
            r == *v,
    {
        match v {
            Value::Ref(id) => {
                self.heap.inc_ref(*id);
                proof {
                    let before = old(self).entries();
                    let after = self.entries();
                    assert forall|i: int| 0 <= i < after.len() implies data_ok(
                        (#[trigger] after[i]).data,
                        after.len(),
                        self.interns,
                    ) by {
                        assert(after[i].data == before[i].data);
                    }
                    assert(after[EMPTY_TUPLE as int].data == before[EMPTY_TUPLE as int].data);
                    assert(after[UTC_TIMEZONE as int].data == before[UTC_TIMEZONE as int].data);
                }
            },
            _ => {},
        }
        v.alias()
    }

    /// Counts one more reference to what each item refers to, and gives the items again.
    pub fn clone_values(&mut self, items: &[Value]) -> (r: Vec<Value>)
        requires
            old(self).wf(),
            old(self).all_ok(items@),
        ensures
            final(self).wf(),
            final(self).same_setting(*old(self)),
            final(self).entries() == with_refs(old(self).entries(), items@),
            r@ == items@,
    {
        let mut out: Vec<Value> = Vec::new();
        for i in 0..items.len()
            invariant
                self.wf(),
                self.same_setting(*old(self)),
                old(self).all_ok(items@),
                self.entries() == with_refs(old(self).entries(), items@.take(i as int)),
                out@ == items@.take(i as int),
        {
            proof {
                lemma_with_refs_data(old(self).entries(), items@.take(i as int));
                assert(items@.take(i + 1).drop_last() =~= items@.take(i as int));
            }
            let item = self.clone_value(&items[i]);
            out.push(item);
            assert(out@ =~= items@.take(i + 1));
        }
        assert(items@.take(items@.len() as int) =~= items@);
        out
    }

    /// Counts one reference less to what the value refers to.
    pub fn drop_value(&mut self, v: Value)
        requires
            old(self).wf(),
            old(self).ok(v),
        ensures
            final(self).wf(),
            final(self).same_setting(*old(self)),
            final(self).entries() == (match v {
                Value::Ref(id) => without_ref(old(self).entries(), id),
                _ => old(self).entries(),
            }),
    {
        match v {
            Value::Ref(id) => {
                let refs: u64 = self.heap.entries[id.0].refs;
                let fewer: u64 = if refs == u64::MAX || refs == 0 {
                    refs
                } else {
                    refs - 1
                };
                self.heap.entries[id.0].refs = fewer;
                proof {
                    let before = old(self).entries();
                    let after = self.entries();
                    assert(after =~= without_ref(before, id));
                    assert forall|i: int| 0 <= i < after.len() implies data_ok(
                        (#[trigger] after[i]).data,
                        after.len(),
                        self.interns,
                    ) by {
                        assert(after[i].data == before[i].data);
                    }
                    assert(after[EMPTY_TUPLE as int].data == before[EMPTY_TUPLE as int].data);
                    assert(after[UTC_TIMEZONE as int].data == before[UTC_TIMEZONE as int].data);
                }
            },
            _ => {},
        }
    }

    /// Replaces what an entry holds.
    pub fn set_data(&mut self, id: HeapId, data: HeapData)
        requires
            old(self).wf(),
            id.0 < old(self).entries().len(),
            id.0 != EMPTY_TUPLE,
            id.0 != UTC_TIMEZONE,
            data_ok(data, old(self).entries().len(), old(self).interns),
        ensures
            final(self).wf(),
            final(self).same_setting(*old(self)),
            final(self).entries() == old(self).entries().update(
                id.0 as int,
                HeapEntry { data, refs: old(self).entries()[id.0 as int].refs },
            ),
    {
        let refs: u64 = self.heap.entries[id.0].refs;
        self.heap.entries.set(id.0, HeapEntry { data, refs });
        proof {
            let before = old(self).entries();
            let after = self.entries();
            assert forall|i: int| 0 <= i < after.len() implies data_ok(
                (#[trigger] after[i]).data,
                after.len(),
                self.interns,
            ) by {
                if i != id.0 {
                    assert(after[i] == before[i]);
                }
            }
            assert(after[EMPTY_TUPLE as int] == before[EMPTY_TUPLE as int]);
            assert(after[UTC_TIMEZONE as int] == before[UTC_TIMEZONE as int]);
        }
    }

    /// The shared empty tuple.
    pub fn get_empty_tuple(&mut self) -> (r: Value)
        requires
            old(self).wf(),
        ensures
            final(self).wf(),
            final(self).same_setting(*old(self)),
            r == Value::Ref(HeapId(EMPTY_TUPLE)),
            final(self).entries() == with_ref(old(self).entries(), r),
    {
        self.clone_value(&Value::Ref(HeapId(EMPTY_TUPLE)))
    }

    /// The shared UTC timezone.
    pub fn get_timezone_utc(&mut self) -> (r: Value)
        requires
            old(self).wf(),
        ensures
            final(self).wf(),
            final(self).same_setting(*old(self)),
            r == Value::Ref(HeapId(UTC_TIMEZONE)),
            final(self).entries() == with_ref(old(self).entries(), r),
    {
        self.clone_value(&Value::Ref(HeapId(UTC_TIMEZONE)))
    }

    /// The error of an operation that recursed too deeply.
    pub fn recursion_error() -> (r: RunError)
        ensures
            r.says(ExcType::RecursionError, "maximum recursion depth exceeded"@),
    {
        RunError::new(ExcType::RecursionError, "maximum recursion depth exceeded")
    }

    /// Checks the size of a result against the limit.
    pub fn check_size(&self, bytes: u128) -> (r: RunResult<()>)
        ensures
            match r {
                Ok(_) => bytes <= self.heap.max_bytes,
                Err(e) => bytes > self.heap.max_bytes && e.says(
                    ExcType::MemoryError,
                    "memory limit exceeded"@,
                ),
            },
    {
        if bytes > self.heap.max_bytes as u128 {
            Err(RunError::new(ExcType::MemoryError, "memory limit exceeded"))
        } else {
            Ok(())
        }
    }
}

/// Counting a reference and dropping it again leaves the heap as it was,
/// unless the count is at its limit.
pub proof fn lemma_clone_drop_balance(entries: Seq<HeapEntry>, id: HeapId)
    requires
        id.0 < entries.len(),
        entries[id.0 as int].refs < u64::MAX - 1,
    ensures
        without_ref(with_ref(entries, Value::Ref(id)), id) == entries,
{
    let e = entries[id.0 as int];
    assert(without_ref(with_ref(entries, Value::Ref(id)), id) =~= entries);
}

} // verus!
