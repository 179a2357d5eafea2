//! Reads from the loaded content of a file.

use vstd::prelude::*;

use crate::args::{raises, Raised};
use crate::exception::{ExcType, RunError, RunResult};
use crate::heap::{data_ok, with_ref, HeapData, HeapEntry, HeapId};
use crate::outcome::{allocate_bytes, allocate_string_list, bytes_result, realised, Outcome};
use crate::text::string_of;
use crate::types::bytes::Bytes;
use crate::types::containers::List;
use crate::types::file::{BufferMeta, OpenFile, ReadSpec};
use crate::types::file_chunk::{
    byte_chunk_is, byte_texts, read_chunk, slice_binary, slice_text, text_chunk_is, ByteChunk,
    Chunk, TextChunk,
};
use crate::types::str::{allocate_string, has_room, heap_full, string_result};
use crate::utf8::{byte_offset, lemma_offset_within, nth_char_byte_offset};
use crate::value::Value;
use crate::value_int::{overflow_c_ssize_t, ssize_overflow};
use crate::vm::VM;

verus! {

/// The file object at a heap entry.
pub open spec fn file_at(vm: VM, id: HeapId) -> Option<OpenFile> {
    match vm.heap.data(id) {
        HeapData::OpenFile(file) => Some(file),
        _ => None,
    }
}

/// An error that says that something is inconsistent.
pub open spec fn internal(message: Seq<char>) -> Raised {
    (ExcType::RuntimeError, message)
}

/// Whether nothing changed but the file object at `id`.
pub open spec fn file_set(before: VM, after: VM, id: HeapId, file: OpenFile) -> bool {
    &&& after.same_setting(before)
    &&& after.entries() == before.entries().update(
        id.0 as int,
        HeapEntry { data: HeapData::OpenFile(file), refs: before.entries()[id.0 as int].refs },
    )
}

/// What is to be remembered about the loaded content of a file; there is
/// nothing when none is loaded or it is of the wrong kind.
pub open spec fn meta_for(vm: VM, file: OpenFile) -> Option<BufferMeta> {
    match file.buffer {
        None => None,
        Some(id) => match vm.heap.data(id) {
            HeapData::Bytes(b) => if file.mode.binary() {
                Some(
                    BufferMeta {
                        byte_position: (if file.position < b@.len() {
                            file.position as int
                        } else {
                            b@.len() as int
                        }) as u64,
                        buffer_total: b@.len() as u64,
                    },
                )
            } else {
                None
            },
            HeapData::Str(s) => if file.mode.binary() {
                None
            } else {
                Some(
                    BufferMeta {
                        byte_position: byte_offset(s@, file.position as int) as u64,
                        buffer_total: s@.len() as u64,
                    },
                )
            },
            _ => None,
        },
    }
}

/// Whether what a file remembers about its content is right, and a file that
/// cannot be read has and awaits none.
pub open spec fn file_ok(vm: VM, id: HeapId) -> bool {
    match file_at(vm, id) {
        Some(file) => {
            &&& file.buffer_meta is Some ==> file.buffer_meta == meta_for(vm, file)
            &&& file.buffer is Some || file.pending_read is Some ==> file.mode.can_read()
        },
        None => true,
    }
}

/// The file object at a heap entry.
pub(crate) fn get_file(vm: &VM, id: HeapId) -> (r: Option<&OpenFile>)
    requires
        id.0 < vm.entries().len(),
    ensures
        match r {
            Some(file) => file_at(*vm, id) == Some(*file),
            None => file_at(*vm, id) is None,
        },
{
    match vm.heap.get(id) {
        HeapData::OpenFile(file) => Some(file),
        _ => None,
    }
}

/// Replaces the file object at a heap entry.
pub(crate) fn put_file(vm: &mut VM, id: HeapId, file: OpenFile)
    requires
        old(vm).wf(),
        id.0 < old(vm).entries().len(),
        file_at(*old(vm), id) is Some,
        crate::heap::id_ok(file.buffer, old(vm).entries().len()),
    ensures
        final(vm).wf(),
        file_set(*old(vm), *final(vm), id, file),
{
    vm.set_data(id, HeapData::OpenFile(file));
}

/// A file's loaded content exists.
pub proof fn lemma_file_buffer_ok(vm: VM, id: HeapId)
    requires
        vm.wf(),
        id.0 < vm.entries().len(),
    ensures
        file_at(vm, id) matches Some(file) ==> crate::heap::id_ok(
            file.buffer,
            vm.entries().len(),
        ),
{
    assert(data_ok(vm.heap.entries@[id.0 as int].data, vm.heap.entries@.len(), vm.interns));
}

/// A file that was just opened remembers nothing wrong.
pub proof fn lemma_opened_file_ok(vm: VM, id: HeapId)
    requires
        file_at(vm, id) matches Some(file) && file.buffer is None && file.buffer_meta is None
            && file.pending_read is None,
    ensures
        file_ok(vm, id),
{
}

/// What a file remembers stays right while the entries keep what they hold.
pub proof fn lemma_file_ok_kept(before: VM, after: VM, id: HeapId)
    requires
        before.wf(),
        id.0 < before.entries().len(),
        file_ok(before, id),
        after.entries().len() >= before.entries().len(),
        forall|j: int|
            0 <= j < before.entries().len() ==> (#[trigger] after.entries()[j]).data
                == before.entries()[j].data,
    ensures
        file_ok(after, id),
        file_at(after, id) == file_at(before, id),
{
    lemma_file_buffer_ok(before, id);
    assert(after.entries()[id.0 as int].data == before.entries()[id.0 as int].data);
    match file_at(before, id) {
        Some(file) => match file.buffer {
            Some(b) => {
                assert(after.entries()[b.0 as int].data == before.entries()[b.0 as int].data);
            },
            None => {},
        },
        None => {},
    }
}

/// What fills in the memory about the loaded content comes to.
pub open spec fn meta_filled(before: VM, after: VM, r: RunResult<()>, id: HeapId) -> bool {
    match file_at(before, id) {
        None => raises(
            r,
            internal("populate_buffer_meta: file_id does not point to an OpenFile"@),
        ) && after == before,
        Some(file) => if file.buffer is None {
            raises(r, internal("populate_buffer_meta: buffer must be loaded"@)) && after == before
        } else if file.buffer_meta is Some {
            r is Ok && after == before
        } else if meta_for(before, file) is None {
            raises(
                r,
                internal("populate_buffer_meta: buffer type does not match file mode"@),
            ) && after == before
        } else {
            r is Ok && file_set(
                before,
                after,
                id,
                OpenFile { buffer_meta: meta_for(before, file), ..file },
            )
        },
    }
}

fn internal_error(message: &str) -> (r: RunError)
    ensures
        r.says(ExcType::RuntimeError, message@),
{
    RunError::new(ExcType::RuntimeError, message)
}

/// Fills in what a file remembers about its loaded content.
pub fn populate_buffer_meta(file_id: HeapId, vm: &mut VM) -> (r: RunResult<()>)
    requires
        old(vm).wf(),
        file_id.0 < old(vm).entries().len(),
    ensures
        final(vm).wf(),
        meta_filled(*old(vm), *final(vm), r, file_id),
        file_ok(*old(vm), file_id) ==> file_ok(*final(vm), file_id),
{
    proof {
        lemma_file_buffer_ok(*vm, file_id);
    }
    let (buffer_id, position, binary, mut file) = match get_file(vm, file_id) {
        None => {
            return Err(
                internal_error("populate_buffer_meta: file_id does not point to an OpenFile"),
            );
        },
        Some(f) => match f.buffer {
            None => {
                return Err(internal_error("populate_buffer_meta: buffer must be loaded"));
            },
            Some(buffer_id) => {
                if f.buffer_meta.is_some() {
                    return Ok(());
                }
                (buffer_id, f.position, f.mode.is_binary(), f.duplicate())
            },
        },
    };
    let meta = match vm.heap.get(buffer_id) {
        HeapData::Bytes(b) => {
            if !binary {
                return Err(
                    internal_error("populate_buffer_meta: buffer type does not match file mode"),
                );
            }
            let len: u64 = b.as_slice().len() as u64;
            BufferMeta {
                byte_position: if position < len {
                    position
                } else {
                    len
                },
                buffer_total: len,
            }
        },
        HeapData::Str(s) => {
            if binary {
                return Err(
                    internal_error("populate_buffer_meta: buffer type does not match file mode"),
                );
            }
            let text = s.as_str();
            let total: usize = crate::text::chars_of(text).len();
            let place: usize = if position < total as u64 {
                position as usize
            } else {
                total
            };
            BufferMeta {
                byte_position: nth_char_byte_offset(text, place) as u64,
                buffer_total: total as u64,
            }
        },
        _ => {
            return Err(
                internal_error("populate_buffer_meta: buffer type does not match file mode"),
            );
        },
    };
    file.buffer_meta = Some(meta);
    put_file(vm, file_id, file);
    Ok(())
}

/// A file after a read: its new position and what is remembered about it.
pub open spec fn moved(file: OpenFile, position: int, byte_position: int, eof: bool, total: int) -> OpenFile {
    OpenFile {
        position: position as u64,
        eof,
        buffer_meta: Some(
            BufferMeta { byte_position: byte_position as u64, buffer_total: total as u64 },
        ),
        file_length: total as u64,
        ..file
    }
}

/// Writes the new position back to the file.
pub fn update_file_state(
    file_id: HeapId,
    new_position: usize,
    new_byte_position: usize,
    eof: bool,
    vm: &mut VM,
) -> (r: RunResult<()>)
    requires
        old(vm).wf(),
        file_id.0 < old(vm).entries().len(),
    ensures
        final(vm).wf(),
        match file_at(*old(vm), file_id) {
            None => raises(
                r,
                internal("update_file_state: file_id does not point to an OpenFile"@),
            ) && *final(vm) == *old(vm),
            Some(file) => r is Ok && file_set(
                *old(vm),
                *final(vm),
                file_id,
                moved(
                    file,
                    new_position as int,
                    new_byte_position as int,
                    eof,
                    match file.buffer_meta {
                        Some(meta) => meta.buffer_total as int,
                        None => new_byte_position as int,
                    },
                ),
            ),
        },
{
    proof {
        lemma_file_buffer_ok(*vm, file_id);
    }
    let mut file = match get_file(vm, file_id) {
        None => {
            return Err(
                internal_error("update_file_state: file_id does not point to an OpenFile"),
            );
        },
        Some(f) => f.duplicate(),
    };
    let total: u64 = match file.buffer_meta {
        Some(meta) => meta.buffer_total,
        None => new_byte_position as u64,
    };
    file.position = new_position as u64;
    file.eof = eof;
    file.buffer_meta = Some(
        BufferMeta { byte_position: new_byte_position as u64, buffer_total: total },
    );
    file.file_length = total;
    put_file(vm, file_id, file);
    Ok(())
}

/// Whether a result is a chunk of text, put into the heap. The whole content
/// is the entry that holds it, counted once more.
pub open spec fn text_chunk_result(
    before: VM,
    after: VM,
    r: RunResult<Value>,
    buffer: HeapId,
    chunk: Chunk<char>,
) -> bool {
    match chunk {
        Chunk::Whole => {
            &&& r == Ok::<Value, RunError>(Value::Ref(buffer))
            &&& after.same_setting(before)
            &&& after.entries() == with_ref(before.entries(), Value::Ref(buffer))
        },
        Chunk::Part(t) => string_result(before, after, r, t),
        Chunk::Parts(all) => realised(before, after, r, Outcome::Texts(all)),
        Chunk::Place(n) => realised(before, after, r, Outcome::Number(n)),
    }
}

/// Puts a chunk of text into the heap.
fn put_text_chunk(chunk: TextChunk, buffer: HeapId, vm: &mut VM) -> (r: RunResult<Value>)
    requires
        old(vm).wf(),
        buffer.0 < old(vm).entries().len(),
    ensures
        final(vm).wf(),
        r matches Ok(v) ==> final(vm).ok(v),
        forall|c: Chunk<char>|
            text_chunk_is(chunk, c) ==> #[trigger] text_chunk_result(
                *old(vm),
                *final(vm),
                r,
                buffer,
                c,
            ),
{
    match chunk {
        TextChunk::Whole => Ok(vm.clone_value(&Value::Ref(buffer))),
        TextChunk::Part(part) => allocate_string(string_of(&part), vm),
        TextChunk::Parts(parts) => allocate_string_list(&parts, vm),
        TextChunk::Place(n) => Ok(Value::Int(n)),
    }
}

/// Whether an entry is fresh bytes.
pub open spec fn is_fresh_bytes(entry: HeapEntry, bytes: Seq<u8>) -> bool {
    &&& entry.refs == 1
    &&& entry.data matches HeapData::Bytes(b)
    &&& b@ == bytes
}

/// References to `n` entries in a row.
pub open spec fn refs_from(start: nat, n: nat) -> Seq<Value> {
    Seq::new(n, |k: int| Value::Ref(HeapId((start + k) as usize)))
}

/// Whether the entries are those of `before` and then fresh bytes.
pub open spec fn adds_bytes(before: VM, after: VM, all: Seq<Seq<u8>>) -> bool {
    &&& after.grows_from(before)
    &&& after.entries().len() >= before.entries().len() + all.len()
    &&& forall|k: int|
        0 <= k < all.len() ==> is_fresh_bytes(
            #[trigger] after.entries()[before.entries().len() + k],
            all[k],
        )
}

/// Whether a result is a new list of bytes, or the error for a full heap.
pub open spec fn bytes_list_result(
    before: VM,
    after: VM,
    r: RunResult<Value>,
    all: Seq<Seq<u8>>,
) -> bool {
    let n = before.entries().len() + all.len();
    match r {
        Ok(v) => {
            &&& has_room(before, all.len() + 1)
            &&& v == Value::Ref(HeapId(n as usize))
            &&& adds_bytes(before, after, all)
            &&& after.entries().len() == n + 1
            &&& after.entries()[n as int].refs == 1
            &&& after.entries()[n as int].data matches HeapData::List(list)
            &&& list.items@ == refs_from(before.entries().len(), all.len())
        },
        Err(e) => !has_room(before, all.len() + 1) && heap_full(e) && after.grows_from(before),
    }
}

/// Puts bytes and a list of them into the heap.
fn allocate_bytes_list(parts: Vec<Vec<u8>>, vm: &mut VM) -> (r: RunResult<Value>)
    requires
        old(vm).wf(),
    ensures
        final(vm).wf(),
        r matches Ok(v) ==> final(vm).ok(v),
        bytes_list_result(*old(vm), *final(vm), r, byte_texts(parts@)),
{
    let ghost all = byte_texts(parts@);
    let ghost start = old(vm).entries().len();
    let mut items: Vec<Value> = Vec::new();
    proof {
        assert(vm.entries().is_prefix_of(vm.entries()));
        assert(items@ =~= refs_from(start, 0));
    }
    for i in 0..parts.len()
        invariant
            vm.wf(),
            all == byte_texts(parts@),
            start == old(vm).entries().len(),
            vm.entries().len() == start + i,
            vm.grows_from(*old(vm)),
            forall|k: int|
                0 <= k < i ==> is_fresh_bytes(#[trigger] vm.entries()[start + k], all[k]),
            items@ == refs_from(start, i as nat),
            vm.all_ok(items@),
            has_room(*old(vm), i as nat),
    {
        let ghost mid = *vm;
        let copy = crate::types::bytes::sub_bytes(&parts[i], 0, parts[i].len());
        assert(copy@ =~= all[i as int]);
        match allocate_bytes(copy, vm) {
            Ok(v) => {
                proof {
                    assert forall|k: int| 0 <= k < i + 1 implies is_fresh_bytes(
                        #[trigger] vm.entries()[start + k],
                        all[k],
                    ) by {
                        if k < i {
                            assert(vm.entries()[start + k] == mid.entries()[start + k]);
                        }
                    }
                    assert(old(vm).entries().is_prefix_of(vm.entries()));
                    assert(refs_from(start, (i + 1) as nat) =~= refs_from(start, i as nat).push(v));
                }
                items.push(v);
            },
            Err(e) => {
                return Err(e);
            },
        }
    }
    let ghost mid = *vm;
    match vm.allocate(HeapData::List(List::new(items))) {
        Ok(id) => {
            proof {
                assert(all.len() == parts@.len());
                assert forall|k: int| 0 <= k < all.len() implies is_fresh_bytes(
                    #[trigger] vm.entries()[start + k],
                    all[k],
                ) by {
                    assert(vm.entries()[start + k] == mid.entries()[start + k]);
                }
                assert(old(vm).entries().is_prefix_of(vm.entries()));
            }
            Ok(Value::Ref(id))
        },
        Err(e) => Err(e),
    }
}

/// Whether a result is a chunk of bytes, put into the heap.
pub open spec fn byte_chunk_result(
    before: VM,
    after: VM,
    r: RunResult<Value>,
    buffer: HeapId,
    chunk: Chunk<u8>,
) -> bool {
    match chunk {
        Chunk::Whole => {
            &&& r == Ok::<Value, RunError>(Value::Ref(buffer))
            &&& after.same_setting(before)
            &&& after.entries() == with_ref(before.entries(), Value::Ref(buffer))
        },
        Chunk::Part(b) => bytes_result(before, after, r, b),
        Chunk::Parts(all) => bytes_list_result(before, after, r, all),
        Chunk::Place(n) => realised(before, after, r, Outcome::Number(n)),
    }
}

/// Puts a chunk of bytes into the heap.
fn put_byte_chunk(chunk: ByteChunk, buffer: HeapId, vm: &mut VM) -> (r: RunResult<Value>)
    requires
        old(vm).wf(),
        buffer.0 < old(vm).entries().len(),
    ensures
        final(vm).wf(),
        r matches Ok(v) ==> final(vm).ok(v),
        forall|c: Chunk<u8>|
            byte_chunk_is(chunk, c) ==> #[trigger] byte_chunk_result(
                *old(vm),
                *final(vm),
                r,
                buffer,
                c,
            ),
{
    match chunk {
        ByteChunk::Whole => Ok(vm.clone_value(&Value::Ref(buffer))),
        ByteChunk::Part(part) => allocate_bytes(part, vm),
        ByteChunk::Parts(parts) => allocate_bytes_list(parts, vm),
        ByteChunk::Place(n) => Ok(Value::Int(n)),
    }
}

/// What a read from a loaded text comes to: the chunk is put into the heap, and
/// then the file's position moves.
pub open spec fn text_slice_done(
    before: VM,
    after: VM,
    r: RunResult<Value>,
    file_id: HeapId,
    buffer: HeapId,
    content: Seq<char>,
    position: int,
    spec: ReadSpec,
) -> bool {
    match read_chunk(content, '\n', position, spec) {
        Err(e) => raises(r, e) && after == before,
        Ok((chunk, place, eof)) => match r {
            Ok(_) => exists|mid: VM|
                text_chunk_result(before, mid, r, buffer, chunk) && #[trigger] file_set(
                    mid,
                    after,
                    file_id,
                    moved(
                        file_at(before, file_id)->0,
                        place,
                        byte_offset(content, place) as int,
                        eof,
                        content.len() as int,
                    ),
                ),
            Err(_) => text_chunk_result(before, after, r, buffer, chunk),
        },
    }
}

/// The smaller of two numbers.
pub open spec fn smaller(a: int, b: int) -> int {
    if a < b {
        a
    } else {
        b
    }
}

/// What a read from loaded bytes comes to.
pub open spec fn byte_slice_done(
    before: VM,
    after: VM,
    r: RunResult<Value>,
    file_id: HeapId,
    buffer: HeapId,
    content: Seq<u8>,
    position: int,
    spec: ReadSpec,
) -> bool {
    match read_chunk(content, 10u8, position, spec) {
        Err(e) => raises(r, e) && after == before,
        Ok((chunk, place, eof)) => match r {
            Ok(_) => exists|mid: VM|
                byte_chunk_result(before, mid, r, buffer, chunk) && #[trigger] file_set(
                    mid,
                    after,
                    file_id,
                    moved(
                        file_at(before, file_id)->0,
                        place,
                        smaller(place, content.len() as int),
                        eof,
                        content.len() as int,
                    ),
                ),
            Err(_) => byte_chunk_result(before, after, r, buffer, chunk),
        },
    }
}

/// Reads from a loaded text.
fn compute_slice_text(
    file_id: HeapId,
    buffer_id: HeapId,
    position: usize,
    byte_position: usize,
    buffer_total: usize,
    spec: ReadSpec,
    vm: &mut VM,
) -> (r: RunResult<Value>)
    requires
        old(vm).wf(),
        file_id.0 < old(vm).entries().len(),
        buffer_id.0 < old(vm).entries().len(),
        file_at(*old(vm), file_id) matches Some(file) && file.buffer_meta matches Some(meta)
            && meta.buffer_total == buffer_total && file.buffer == Some(buffer_id)
            && !file.mode.binary(),
        file_ok(*old(vm), file_id),
        old(vm).heap.data(buffer_id) matches HeapData::Str(s) ==> byte_position == byte_offset(
            s@,
            position as int,
        ) && buffer_total == s@.len(),
    ensures
        final(vm).wf(),
        r matches Ok(v) ==> final(vm).ok(v),
        match old(vm).heap.data(buffer_id) {
            HeapData::Str(s) => text_slice_done(
                *old(vm),
                *final(vm),
                r,
                file_id,
                buffer_id,
                s@,
                position as int,
                spec,
            ),
            _ => raises(r, internal("compute_slice_text: buffer is not a Str"@)) && *final(vm)
                == *old(vm),
        },
        final(vm).entries().len() >= old(vm).entries().len(),
        file_ok(*final(vm), file_id),
{
    let (chunk, new_position, new_byte_position, eof) = match vm.heap.get(buffer_id) {
        HeapData::Str(s) => match slice_text(
            s.as_str(),
            position,
            byte_position,
            buffer_total,
            spec,
        ) {
            Ok(parts) => parts,
            Err(e) => {
                return Err(e);
            },
        },
        _ => {
            return Err(internal_error("compute_slice_text: buffer is not a Str"));
        },
    };
    let ghost content = old(vm).heap.data(buffer_id)->Str_0@;
    let ghost expected = read_chunk(content, '\n', position as int, spec)->Ok_0;
    match put_text_chunk(chunk, buffer_id, vm) {
        Err(e) => {
            assert(text_chunk_result(*old(vm), *vm, Err(e), buffer_id, expected.0));
            Err(e)
        },
        Ok(value) => {
            let ghost mid = *vm;
            proof {
                assert(text_chunk_result(*old(vm), mid, Ok(value), buffer_id, expected.0));
                lemma_chunk_keeps_file(*old(vm), mid, file_id, buffer_id);
            }
            match update_file_state(file_id, new_position, new_byte_position, eof, vm) {
                Ok(_) => {},
                Err(e) => {
                    return Err(e);
                },
            }
            proof {
                assert(file_set(
                    mid,
                    *vm,
                    file_id,
                    moved(
                        file_at(*old(vm), file_id)->0,
                        expected.1,
                        byte_offset(content, expected.1) as int,
                        expected.2,
                        content.len() as int,
                    ),
                ));
            }
            Ok(value)
        },
    }
}

/// Putting a chunk into the heap changes no file.
proof fn lemma_chunk_keeps_file(before: VM, mid: VM, file_id: HeapId, buffer: HeapId)
    requires
        before.wf(),
        file_id.0 < before.entries().len(),
        file_ok(before, file_id),
        mid.grows_from(before) || mid == before || mid.entries() == with_ref(
            before.entries(),
            Value::Ref(buffer),
        ),
    ensures
        mid.entries().len() >= before.entries().len(),
        file_at(mid, file_id) == file_at(before, file_id),
        file_ok(mid, file_id),
        forall|j: int|
            0 <= j < before.entries().len() ==> (#[trigger] mid.entries()[j]).data
                == before.entries()[j].data,
{
    if mid.grows_from(before) {
        assert forall|j: int| 0 <= j < before.entries().len() implies (
        #[trigger] mid.entries()[j]).data == before.entries()[j].data by {
            assert(before.entries()[j] == mid.entries()[j]);
        }
    }
    lemma_file_ok_kept(before, mid, file_id);
}

/// Reads from loaded bytes.
fn compute_slice_binary(
    file_id: HeapId,
    buffer_id: HeapId,
    position: usize,
    buffer_total: usize,
    spec: ReadSpec,
    vm: &mut VM,
) -> (r: RunResult<Value>)
    requires
        old(vm).wf(),
        file_id.0 < old(vm).entries().len(),
        buffer_id.0 < old(vm).entries().len(),
        file_at(*old(vm), file_id) matches Some(file) && file.buffer_meta matches Some(meta)
            && meta.buffer_total == buffer_total && file.buffer == Some(buffer_id)
            && file.mode.binary(),
        file_ok(*old(vm), file_id),
        old(vm).heap.data(buffer_id) matches HeapData::Bytes(b) ==> buffer_total == b@.len(),
    ensures
        final(vm).wf(),
        r matches Ok(v) ==> final(vm).ok(v),
        match old(vm).heap.data(buffer_id) {
            HeapData::Bytes(b) => byte_slice_done(
                *old(vm),
                *final(vm),
                r,
                file_id,
                buffer_id,
                b@,
                position as int,
                spec,
            ),
            _ => raises(r, internal("compute_slice_binary: buffer is not Bytes"@)) && *final(vm)
                == *old(vm),
        },
        final(vm).entries().len() >= old(vm).entries().len(),
        file_ok(*final(vm), file_id),
{
    let (chunk, new_position, eof) = match vm.heap.get(buffer_id) {
        HeapData::Bytes(b) => match slice_binary(b.as_slice(), position, spec) {
            Ok(parts) => parts,
            Err(e) => {
                return Err(e);
            },
        },
        _ => {
            return Err(internal_error("compute_slice_binary: buffer is not Bytes"));
        },
    };
    let ghost content = old(vm).heap.data(buffer_id)->Bytes_0@;
    let ghost expected = read_chunk(content, 10u8, position as int, spec)->Ok_0;
    match put_byte_chunk(chunk, buffer_id, vm) {
        Err(e) => {
            assert(byte_chunk_result(*old(vm), *vm, Err(e), buffer_id, expected.0));
            Err(e)
        },
        Ok(value) => {
            let ghost mid = *vm;
            proof {
                assert(byte_chunk_result(*old(vm), mid, Ok(value), buffer_id, expected.0));
                lemma_chunk_keeps_file(*old(vm), mid, file_id, buffer_id);
            }
            let new_byte_position: usize = if new_position < buffer_total {
                new_position
            } else {
                buffer_total
            };
            match update_file_state(file_id, new_position, new_byte_position, eof, vm) {
                Ok(_) => {},
                Err(e) => {
                    return Err(e);
                },
            }
            proof {
                assert(file_set(
                    mid,
                    *vm,
                    file_id,
                    moved(
                        file_at(*old(vm), file_id)->0,
                        expected.1,
                        smaller(expected.1, content.len() as int),
                        expected.2,
                        content.len() as int,
                    ),
                ));
            }
            Ok(value)
        },
    }
}

/// What a read from the loaded content of a file comes to. What the file
/// remembers about the content is filled in first if it is missing.
pub open spec fn slice_done(
    before: VM,
    after: VM,
    r: RunResult<Value>,
    file_id: HeapId,
    spec: ReadSpec,
) -> bool {
    match file_at(before, file_id) {
        None => raises(r, internal("compute_slice: not an OpenFile"@)) && after == before,
        Some(file) => match file.buffer {
            None => raises(r, internal("compute_slice: buffer must be loaded"@)) && after == before,
            Some(buffer) => if meta_for(before, file) is None {
                raises(
                    r,
                    internal("populate_buffer_meta: buffer type does not match file mode"@),
                ) && after == before
            } else {
                exists|mid: VM|
                    #[trigger] file_set(
                        before,
                        mid,
                        file_id,
                        OpenFile { buffer_meta: meta_for(before, file), ..file },
                    ) && (if file.position > usize::MAX {
                        raises(r, ssize_overflow()) && after == mid
                    } else {
                        match mid.heap.data(buffer) {
                            HeapData::Str(s) => text_slice_done(
                                mid,
                                after,
                                r,
                                file_id,
                                buffer,
                                s@,
                                file.position as int,
                                spec,
                            ),
                            HeapData::Bytes(b) => byte_slice_done(
                                mid,
                                after,
                                r,
                                file_id,
                                buffer,
                                b@,
                                file.position as int,
                                spec,
                            ),
                            _ => false,
                        }
                    })
            },
        },
    }
}

/// The buffer is the same entry, and has the same content, when only the file changed.
proof fn lemma_meta_kept(before: VM, mid: VM, file_id: HeapId, file: OpenFile)
    requires
        before.wf(),
        file_id.0 < before.entries().len(),
        file_at(before, file_id) == Some(file),
        file.buffer is Some,
        meta_for(before, file) is Some,
        file_set(
            before,
            mid,
            file_id,
            OpenFile { buffer_meta: meta_for(before, file), ..file },
        ),
    ensures
        (file.buffer->0).0 < mid.entries().len(),
        mid.heap.data(file.buffer->0) == before.heap.data(file.buffer->0),
        file_at(mid, file_id) == Some(
            OpenFile { buffer_meta: meta_for(before, file), ..file },
        ),
{
    lemma_file_buffer_ok(before, file_id);
}

/// Reads from the loaded content of a file.
pub fn compute_slice(file_id: HeapId, spec: ReadSpec, vm: &mut VM) -> (r: RunResult<Value>)
    requires
        old(vm).wf(),
        file_id.0 < old(vm).entries().len(),
        file_ok(*old(vm), file_id),
    ensures
        final(vm).wf(),
        r matches Ok(v) ==> final(vm).ok(v),
        slice_done(*old(vm), *final(vm), r, file_id, spec),
        final(vm).entries().len() >= old(vm).entries().len(),
        file_ok(*final(vm), file_id),
{
    proof {
        lemma_file_buffer_ok(*vm, file_id);
    }
    let needs_meta = match get_file(vm, file_id) {
        None => {
            return Err(internal_error("compute_slice: not an OpenFile"));
        },
        Some(f) => match f.buffer {
            None => {
                return Err(internal_error("compute_slice: buffer must be loaded"));
            },
            Some(_) => f.buffer_meta.is_none(),
        },
    };
    let ghost file = file_at(*old(vm), file_id)->0;
    if needs_meta {
        match populate_buffer_meta(file_id, vm) {
            Ok(_) => {},
            Err(e) => {
                return Err(e);
            },
        }
    }
    let ghost mid = *vm;
    proof {
        if !needs_meta {
            assert(file_set(
                *old(vm),
                mid,
                file_id,
                OpenFile { buffer_meta: meta_for(*old(vm), file), ..file },
            )) by {
                assert(old(vm).entries().update(
                    file_id.0 as int,
                    old(vm).entries()[file_id.0 as int],
                ) =~= old(vm).entries());
            }
        }
        lemma_meta_kept(*old(vm), mid, file_id, file);
        lemma_file_buffer_ok(mid, file_id);
    }
    let (binary, buffer_id, position, meta) = match get_file(vm, file_id) {
        None => {
            return Err(internal_error("compute_slice: not an OpenFile"));
        },
        Some(f) => {
            let buffer_id = match f.buffer {
                Some(id) => id,
                None => {
                    return Err(internal_error("compute_slice: buffer must be loaded"));
                },
            };
            let meta = match f.buffer_meta {
                Some(meta) => meta,
                None => {
                    return Err(internal_error("compute_slice: buffer_meta must be loaded"));
                },
            };
            (f.mode.is_binary(), buffer_id, f.position, meta)
        },
    };
    if position > usize::MAX as u64 {
        return Err(overflow_c_ssize_t());
    }
    match vm.heap.get(buffer_id) {
        HeapData::Str(s) => {
            let _size: usize = crate::text::byte_len(s.as_str());
            proof {
                lemma_offset_within(s@, position as int);
                crate::utf8::lemma_utf8_size(s@);
                crate::types::str_format::lemma_utf8_size(s@, s@.len() as int);
                assert(s@.take(s@.len() as int) =~= s@);
            }
        },
        HeapData::Bytes(b) => {
            let _size: usize = b.as_slice().len();
        },
        _ => {},
    }
    if binary {
        compute_slice_binary(
            file_id,
            buffer_id,
            position as usize,
            meta.buffer_total as usize,
            spec,
            vm,
        )
    } else {
        compute_slice_text(
            file_id,
            buffer_id,
            position as usize,
            meta.byte_position as usize,
            meta.buffer_total as usize,
            spec,
            vm,
        )
    }
}

} // verus!
