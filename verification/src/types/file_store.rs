//! What happens to a file object when the host answers a call for it.

use vstd::prelude::*;

use crate::args::{raises, Raised};
use crate::exception::{ExcType, RunError, RunResult};
use crate::heap::HeapId;
use crate::outcome::{allocate_bytes, bytes_result};
use crate::release::{lemma_released_data, released};
use crate::types::bytes::sub_bytes;
use crate::types::file::{OpenFile, ReadSpec};
use crate::types::file_buffer::{
    compute_slice, file_at, file_ok, file_set, get_file, internal, lemma_file_buffer_ok,
    lemma_file_ok_kept, put_file, slice_done,
};
use crate::types::file_ops::with_entries;
use crate::types::str::{allocate_string_no_interning, heap_full, is_fresh_str};
use crate::value::{value_refs, Value};
use crate::value_int::{overflow_c_ssize_t, ssize_overflow};
use crate::vm::VM;

verus! {

/// Whether a string went to a new heap entry, or the heap is full.
pub open spec fn text_held(before: VM, after: VM, r: RunResult<HeapId>, text: Seq<char>) -> bool {
    match r {
        Ok(id) => {
            &&& before.heap.room() > 0
            &&& id.0 == before.entries().len()
            &&& after.entries().len() == before.entries().len() + 1
            &&& after.grows_from(before)
            &&& is_fresh_str(after.entries().last(), text)
        },
        Err(e) => before.heap.room() <= 0 && heap_full(e) && after == before,
    }
}

/// What the content that the host read is held in: the heap entry that it
/// already is, or a new one for what is interned.
pub open spec fn content_held(before: VM, after: VM, r: RunResult<HeapId>, content: Value) -> bool {
    match content {
        Value::Ref(id) => r == Ok::<HeapId, RunError>(id) && after == before,
        Value::InternString(id) => text_held(before, after, r, before.interns.str_at(id)),
        Value::InternBytes(id) => match r {
            Ok(held) => bytes_result(
                before,
                after,
                Ok(Value::Ref(held)),
                before.interns.bytes_at(id),
            ),
            Err(e) => bytes_result(before, after, Err(e), before.interns.bytes_at(id)),
        },
        _ => raises(
            r,
            internal("os_read_result_to_heap_id: OS result must be a string or bytes value"@),
        ) && after == before,
    }
}

/// Puts the content that the host read into a heap entry.
fn os_read_result_to_heap_id(result: Value, vm: &mut VM) -> (r: RunResult<HeapId>)
    requires
        old(vm).wf(),
        old(vm).ok(result),
    ensures
        final(vm).wf(),
        final(vm).grows_from(*old(vm)),
        r matches Ok(id) ==> id.0 < final(vm).entries().len(),
        content_held(*old(vm), *final(vm), r, result),
{
    match result {
        Value::Ref(id) => Ok(id),
        Value::InternString(string_id) => {
            let s = vm.interns.get_str(string_id).to_owned();
            match allocate_string_no_interning(s, vm) {
                Ok(Value::Ref(id)) => Ok(id),
                Ok(_) => Err(
                    RunError::new(ExcType::RuntimeError, "a new string is always a reference"),
                ),
                Err(e) => Err(e),
            }
        },
        Value::InternBytes(bytes_id) => {
            let whole = vm.interns.get_bytes(bytes_id);
            let copy = sub_bytes(whole, 0, whole.len());
            assert(copy@ =~= vm.interns.bytes_at(bytes_id));
            match allocate_bytes(copy, vm) {
                Ok(Value::Ref(id)) => Ok(id),
                Ok(_) => Err(
                    RunError::new(ExcType::RuntimeError, "new bytes are always a reference"),
                ),
                Err(e) => Err(e),
            }
        },
        _ => Err(
            RunError::new(
                ExcType::RuntimeError,
                "os_read_result_to_heap_id: OS result must be a string or bytes value",
            ),
        ),
    }
}

/// Whether content became that of a file. A file that already has some keeps
/// it, and the new content is dropped.
pub open spec fn content_installed(before: VM, after: VM, file_id: HeapId, content: HeapId) -> bool {
    file_at(before, file_id) matches Some(file) && (if file.buffer is Some {
        with_entries(before, after, released(before.entries(), seq![content]))
    } else {
        file_set(before, after, file_id, OpenFile { buffer: Some(content), ..file })
    })
}

/// Gives content to a file, unless it already has some.
fn install_content(file_id: HeapId, content: HeapId, vm: &mut VM)
    requires
        old(vm).wf(),
        file_id.0 < old(vm).entries().len(),
        content.0 < old(vm).entries().len(),
        file_at(*old(vm), file_id) matches Some(file) && file.mode.can_read(),
        file_ok(*old(vm), file_id),
    ensures
        final(vm).wf(),
        final(vm).entries().len() == old(vm).entries().len(),
        file_ok(*final(vm), file_id),
        content_installed(*old(vm), *final(vm), file_id, content),
{
    proof {
        lemma_file_buffer_ok(*vm, file_id);
    }
    let loaded = match get_file(vm, file_id) {
        Some(f) => f.buffer.is_some(),
        None => false,
    };
    if loaded {
        vm.release(content);
        proof {
            lemma_released_data(old(vm).entries(), seq![content]);
            let file = file_at(*old(vm), file_id)->0;
            let buffer = file.buffer->0;
            assert(vm.heap.data(file_id) == old(vm).heap.data(file_id));
            assert(vm.heap.data(buffer) == old(vm).heap.data(buffer));
        }
        return;
    }
    match get_file(vm, file_id) {
        None => {},
        Some(f) => {
            let mut file = f.duplicate();
            let ghost filled = OpenFile { buffer: Some(content), ..file };
            file.buffer = Some(content);
            put_file(vm, file_id, file);
            assert(file_at(*vm, file_id) == Some(filled));
        },
    }
}

/// What storing content and reading from it comes to, once the pending read is
/// taken from the file.
pub open spec fn content_read(
    before: VM,
    after: VM,
    r: RunResult<Value>,
    file_id: HeapId,
    spec: ReadSpec,
    content: Value,
) -> bool {
    exists|held: VM, id: RunResult<HeapId>|
        #[trigger] content_held(before, held, id, content) && match id {
            Err(e) => r == Err::<Value, RunError>(e) && with_entries(
                held,
                after,
                released(held.entries(), seq![file_id]),
            ),
            Ok(id) => exists|installed: VM|
                #[trigger] content_installed(held, installed, file_id, id) && read_and_unpinned(
                    installed,
                    after,
                    r,
                    file_id,
                    spec,
                ),
        }
}

/// What a read comes to after which the file is counted once less.
pub open spec fn read_and_unpinned(
    before: VM,
    after: VM,
    r: RunResult<Value>,
    file_id: HeapId,
    spec: ReadSpec,
) -> bool {
    exists|done: VM|
        #[trigger] slice_done(before, done, r, file_id, spec) && with_entries(
            done,
            after,
            released(done.entries(), seq![file_id]),
        )
}

/// What storing the content that the host read comes to. The file is counted
/// once less in any case, and never keeps the pending read.
pub open spec fn buffer_stored(
    before: VM,
    after: VM,
    r: RunResult<Value>,
    file_id: HeapId,
    content: Value,
) -> bool {
    let dropped = released(released(before.entries(), value_refs(content)), seq![file_id]);
    match file_at(before, file_id) {
        None => raises(
            r,
            internal("apply_buffer_store: file_id does not point to an OpenFile"@),
        ) && with_entries(before, after, dropped),
        Some(file) => match file.pending_read {
            None => raises(r, internal("apply_buffer_store: OpenFile has no pending_read"@))
                && with_entries(before, after, dropped),
            Some(spec) => exists|taken: VM|
                #[trigger] file_set(
                    before,
                    taken,
                    file_id,
                    OpenFile { pending_read: None, ..file },
                ) && content_read(taken, after, r, file_id, spec, content),
        },
    }
}

/// Drops the content and the count that a file had for the host's call.
fn drop_answer(file_id: HeapId, result: Value, vm: &mut VM)
    requires
        old(vm).wf(),
        old(vm).ok(result),
        file_id.0 < old(vm).entries().len(),
    ensures
        final(vm).wf(),
        with_entries(
            *old(vm),
            *final(vm),
            released(released(old(vm).entries(), value_refs(result)), seq![file_id]),
        ),
        file_ok(*old(vm), file_id) ==> file_ok(*final(vm), file_id),
{
    let ghost content = result;
    result.drop_with_heap(vm);
    proof {
        lemma_released_data(old(vm).entries(), value_refs(content));
    }
    let ghost mid = *vm;
    vm.release(file_id);
    proof {
        lemma_released_data(mid.entries(), seq![file_id]);
        if file_ok(*old(vm), file_id) {
            assert forall|j: int| 0 <= j < old(vm).entries().len() implies (
            #[trigger] vm.entries()[j]).data == old(vm).entries()[j].data by {
                assert(mid.entries()[j].data == old(vm).entries()[j].data);
            }
            lemma_file_ok_kept(*old(vm), *vm, file_id);
        }
    }
}

/// Stores the content that the host read in a file, and computes what the
/// pending read of the file gives.
pub fn apply_buffer_store(file_id: HeapId, result: Value, vm: &mut VM) -> (r: RunResult<Value>)
    requires
        old(vm).wf(),
        old(vm).ok(result),
        file_id.0 < old(vm).entries().len(),
        file_ok(*old(vm), file_id),
    ensures
        final(vm).wf(),
        r matches Ok(v) ==> final(vm).ok(v),
        buffer_stored(*old(vm), *final(vm), r, file_id, result),
        file_ok(*final(vm), file_id),
{
    proof {
        lemma_file_buffer_ok(*vm, file_id);
    }
    let mut file = match get_file(vm, file_id) {
        None => {
            drop_answer(file_id, result, vm);
            return Err(
                RunError::new(
                    ExcType::RuntimeError,
                    "apply_buffer_store: file_id does not point to an OpenFile",
                ),
            );
        },
        Some(f) => f.duplicate(),
    };
    let spec = match file.pending_read {
        None => {
            drop_answer(file_id, result, vm);
            return Err(
                RunError::new(
                    ExcType::RuntimeError,
                    "apply_buffer_store: OpenFile has no pending_read",
                ),
            );
        },
        Some(spec) => spec,
    };
    let ghost cleared = OpenFile { pending_read: None, ..file };
    file.pending_read = None;
    put_file(vm, file_id, file);
    let ghost taken = *vm;
    assert(file_set(*old(vm), taken, file_id, cleared));
    assert(file_at(taken, file_id) == Some(cleared));
    proof {
        lemma_file_buffer_ok(taken, file_id);
        match cleared.buffer {
            Some(b) => {
                if b != file_id {
                    assert(taken.heap.data(b) == old(vm).heap.data(b));
                }
            },
            None => {},
        }
    }
    assert(file_ok(taken, file_id));
    let ghost content = result;
    let held = os_read_result_to_heap_id(result, vm);
    let ghost after_hold = *vm;
    assert(content_held(taken, after_hold, held, content));
    assert(after_hold.heap.data(file_id) == taken.heap.data(file_id));
    proof {
        match cleared.buffer {
            Some(b) => {
                assert(after_hold.heap.data(b) == taken.heap.data(b));
            },
            None => {},
        }
    }
    let content_id = match held {
        Ok(id) => id,
        Err(e) => {
            vm.release(file_id);
            proof {
                lemma_file_ok_kept(taken, after_hold, file_id);
                lemma_released_data(after_hold.entries(), seq![file_id]);
                lemma_file_ok_kept(after_hold, *vm, file_id);
            }
            assert(content_read(taken, *vm, Err(e), file_id, spec, content));
            return Err(e);
        },
    };
    install_content(file_id, content_id, vm);
    let ghost installed = *vm;
    assert(content_installed(after_hold, installed, file_id, content_id));
    let answer = compute_slice(file_id, spec, vm);
    let ghost done = *vm;
    assert(slice_done(installed, done, answer, file_id, spec));
    vm.release(file_id);
    proof {
        lemma_released_data(done.entries(), seq![file_id]);
        lemma_file_ok_kept(done, *vm, file_id);
    }
    assert(read_and_unpinned(installed, *vm, answer, file_id, spec));
    answer
}

/// The file after the host wrote so much, or the error if it cannot be.
pub open spec fn after_write(vm: VM, file_id: HeapId, result: Value) -> Result<OpenFile, Raised> {
    match vm.int_of(result) {
        Err(e) => Err(e),
        Ok(written) => if written < 0 {
            Err(internal("apply_write_position: write count cannot be negative"@))
        } else {
            match file_at(vm, file_id) {
                None => Err(
                    internal("apply_write_position: file_id does not point to an OpenFile"@),
                ),
                Some(file) => if file.position + written > u64::MAX {
                    Err(ssize_overflow())
                } else {
                    let position = file.position + written;
                    let length = if file.file_length < position {
                        position
                    } else {
                        file.file_length as int
                    };
                    Ok(
                        OpenFile {
                            position: position as u64,
                            file_length: length as u64,
                            eof: position >= length,
                            ..file
                        },
                    )
                },
            }
        },
    }
}

/// Moves the position of a file by what the host wrote, and gives what the host
/// gave. The file is counted once less in any case.
pub fn apply_write_position(file_id: HeapId, result: Value, vm: &mut VM) -> (r: RunResult<Value>)
    requires
        old(vm).wf(),
        old(vm).ok(result),
        file_id.0 < old(vm).entries().len(),
    ensures
        final(vm).wf(),
        r matches Ok(v) ==> final(vm).ok(v),
        match after_write(*old(vm), file_id, result) {
            Err(e) => raises(r, e) && with_entries(
                *old(vm),
                *final(vm),
                released(released(old(vm).entries(), value_refs(result)), seq![file_id]),
            ),
            Ok(file) => r == Ok::<Value, RunError>(result) && exists|moved: VM|
                #[trigger] file_set(*old(vm), moved, file_id, file) && with_entries(
                    moved,
                    *final(vm),
                    released(moved.entries(), seq![file_id]),
                ),
        },
        file_ok(*old(vm), file_id) && (file_at(*old(vm), file_id) matches Some(file)
            ==> file.buffer_meta is None) ==> file_ok(*final(vm), file_id),
{
    let written: i64 = match result.as_int(vm) {
        Ok(n) => n,
        Err(e) => {
            drop_answer(file_id, result, vm);
            return Err(e);
        },
    };
    if written < 0 {
        drop_answer(file_id, result, vm);
        return Err(
            RunError::new(
                ExcType::RuntimeError,
                "apply_write_position: write count cannot be negative",
            ),
        );
    }
    proof {
        lemma_file_buffer_ok(*vm, file_id);
    }
    let mut file = match get_file(vm, file_id) {
        None => {
            drop_answer(file_id, result, vm);
            return Err(
                RunError::new(
                    ExcType::RuntimeError,
                    "apply_write_position: file_id does not point to an OpenFile",
                ),
            );
        },
        Some(f) => f.duplicate(),
    };
    let position: u64 = match file.position.checked_add(written as u64) {
        None => {
            drop_answer(file_id, result, vm);
            return Err(overflow_c_ssize_t());
        },
        Some(position) => position,
    };
    let length: u64 = if file.file_length < position {
        position
    } else {
        file.file_length
    };
    let ghost after = OpenFile {
        position,
        file_length: length,
        eof: position >= length,
        ..file
    };
    file.position = position;
    file.file_length = length;
    file.eof = position >= length;
    put_file(vm, file_id, file);
    assert(file_set(*old(vm), *vm, file_id, after));
    let ghost moved = *vm;
    vm.release(file_id);
    proof {
        lemma_released_data(moved.entries(), seq![file_id]);
        if file_ok(*old(vm), file_id) && after.buffer_meta is None {
            assert(file_at(moved, file_id) == Some(after));
            lemma_file_ok_kept(moved, *vm, file_id);
        }
    }
    Ok(result)
}

/// Putting the position back undoes what a successful write did to a file that
/// knew whether it was at its end.
pub proof fn lemma_rollback_undoes_write(vm: VM, file_id: HeapId, result: Value)
    requires
        file_at(vm, file_id) is Some,
        after_write(vm, file_id, result) is Ok,
        ({
            let file = file_at(vm, file_id)->0;
            file.eof == (file.position >= file.file_length)
        }),
    ensures
        ({
            let file = file_at(vm, file_id)->0;
            let moved = after_write(vm, file_id, result)->Ok_0;
            (OpenFile {
                position: file.position,
                file_length: file.file_length,
                eof: file.position >= file.file_length,
                ..moved
            }) == file
        }),
{
}

} // verus!
