//! The methods of file objects, and what happens when the host answers.

use vstd::prelude::*;

use crate::args::{
    at_least_error, at_most_error, no_args_error, one_arg_error, raises, ArgValues, Raised,
};
use crate::call::{CallResult, OsFunctionCall};
use crate::exception::{ExcType, RunError, RunResult};
use crate::heap::{with_ref, HeapId};
use crate::intern::StaticStrings;
use crate::outcome::{allocate_bytes, bytes_result};
use crate::release::{lemma_released_data, released};
use crate::text::{chars_of, push_str, string_of};
use crate::types::bytes::sub_bytes;
use crate::types::file::{OpenFile, PendingFileEffect, ReadSpec};
use crate::types::file_buffer::{
    compute_slice, file_at, file_ok, file_set, get_file, lemma_file_buffer_ok, put_file,
    slice_done,
};
use crate::types::file_chunk::{resolve_seek_target, seek_target};
use crate::types::str::{allocate_string, string_result};
use crate::types::str_methods::{attribute_error, no_attribute};
use crate::value::{EitherStr, Value};
use crate::value_int::{overflow_c_ssize_t, ssize_overflow};
use crate::value_add::lemma_entry_ok;
use crate::vm::VM;

verus! {

/// The error for an operation on a closed file.
pub open spec fn closed_error() -> Raised {
    (ExcType::ValueError, "I/O operation on closed file."@)
}

/// The error for an operation that the mode does not allow.
pub open spec fn unsupported(message: Seq<char>) -> Raised {
    (ExcType::UnsupportedOperation, message)
}

/// The error for an operation that the mode does not allow.
fn unsupported_operation(message: &str) -> (r: RunError)
    ensures
        r.says(ExcType::UnsupportedOperation, message@),
{
    RunError::new(ExcType::UnsupportedOperation, message)
}

/// Whether the state is that of `before` with the entries given.
pub open spec fn with_entries(before: VM, after: VM, entries: Seq<crate::heap::HeapEntry>) -> bool {
    after.same_setting(before) && after.entries() == entries
}

/// A result that is a value or an error, as the result of a call.
pub open spec fn as_value(r: RunResult<CallResult>) -> Option<RunResult<Value>> {
    match r {
        Ok(CallResult::Value(v)) => Some(Ok(v)),
        Err(e) => Some(Err(e)),
        _ => None,
    }
}

/// Whether a call of the host reads the whole file.
pub open spec fn reads_file(call: OsFunctionCall, file: OpenFile) -> bool {
    if file.mode.binary() {
        call matches OsFunctionCall::ReadBytes(path) && path@ == file.path@
    } else {
        call matches OsFunctionCall::ReadText(path) && path@ == file.path@
    }
}

/// What a read through the loaded content comes to. Where none is loaded yet,
/// the file remembers the read and the host is asked for the content; the file
/// is counted once more until the host answers.
pub open spec fn buffered_read(
    before: VM,
    after: VM,
    r: RunResult<CallResult>,
    id: HeapId,
    spec: ReadSpec,
) -> bool {
    let file = file_at(before, id)->0;
    if file.closed {
        raises(r, closed_error()) && after == before
    } else if !file.mode.can_read() {
        raises(r, unsupported("not readable"@)) && after == before
    } else if file.buffer is Some {
        as_value(r) matches Some(v) && slice_done(before, after, v, id, spec)
    } else {
        &&& r matches Ok(CallResult::OsCallStoreBuffer { call, file_id }) && file_id == id
            && reads_file(call, file)
        &&& exists|mid: VM|
            #[trigger] file_set(
                before,
                mid,
                id,
                OpenFile { pending_read: Some(spec), ..file },
            ) && with_entries(mid, after, with_ref(mid.entries(), Value::Ref(id)))
    }
}

/// A read that the host could not perform leaves the file as it was, once it no
/// longer waits for the content: the read can be tried again.
pub proof fn lemma_failed_read_leaves_file(
    before: VM,
    asked: VM,
    r: RunResult<CallResult>,
    id: HeapId,
    spec: ReadSpec,
)
    requires
        id.0 < before.entries().len(),
        file_at(before, id) matches Some(file) && file.pending_read is None,
        buffered_read(before, asked, r, id, spec),
        r matches Ok(CallResult::OsCallStoreBuffer { .. }),
    ensures
        file_at(asked, id) matches Some(waiting) && (OpenFile { pending_read: None, ..waiting })
            == file_at(before, id)->0,
{
    let file = file_at(before, id)->0;
    let mid = choose|mid: VM|
        #[trigger] file_set(before, mid, id, OpenFile { pending_read: Some(spec), ..file })
            && with_entries(mid, asked, with_ref(mid.entries(), Value::Ref(id)));
    assert(asked.entries()[id.0 as int].data == mid.entries()[id.0 as int].data);
}

/// A file that has its content asks the host for nothing when it is read.
pub proof fn lemma_loaded_file_asks_nothing(
    before: VM,
    after: VM,
    r: RunResult<CallResult>,
    id: HeapId,
    spec: ReadSpec,
)
    requires
        file_at(before, id) matches Some(file) && file.buffer is Some,
        buffered_read(before, after, r, id, spec),
    ensures
        r matches Ok(answer) ==> answer is Value,
{
}

/// Reads through the loaded content, or asks the host for it.
fn read_with_spec(self_id: HeapId, spec: ReadSpec, vm: &mut VM) -> (r: RunResult<CallResult>)
    requires
        old(vm).wf(),
        self_id.0 < old(vm).entries().len(),
        file_at(*old(vm), self_id) is Some,
        file_ok(*old(vm), self_id),
    ensures
        final(vm).wf(),
        final(vm).entries().len() >= old(vm).entries().len(),
        r matches Ok(CallResult::Value(v)) ==> final(vm).ok(v),
        buffered_read(*old(vm), *final(vm), r, self_id, spec),
        file_ok(*final(vm), self_id),
{
    proof {
        lemma_file_buffer_ok(*vm, self_id);
    }
    let mut file = match get_file(vm, self_id) {
        None => {
            return Err(RunError::new(ExcType::RuntimeError, "not an OpenFile"));
        },
        Some(f) => {
            match f.ensure_open() {
                Ok(_) => {},
                Err(e) => {
                    return Err(e);
                },
            }
            if !f.mode.readable() {
                return Err(unsupported_operation("not readable"));
            }
            f.duplicate()
        },
    };
    if file.buffer.is_some() {
        return match compute_slice(self_id, spec, vm) {
            Ok(v) => Ok(CallResult::Value(v)),
            Err(e) => Err(e),
        };
    }
    let call = if file.mode.is_binary() {
        OsFunctionCall::ReadBytes(file.path().to_owned())
    } else {
        OsFunctionCall::ReadText(file.path().to_owned())
    };
    let ghost spec_file = OpenFile { pending_read: Some(spec), ..file };
    file.pending_read = Some(spec);
    put_file(vm, self_id, file);
    let ghost mid = *vm;
    assert(file_set(*old(vm), mid, self_id, spec_file));
    inc_ref_for_pending_oscall(vm, self_id);
    Ok(CallResult::OsCallStoreBuffer { call, file_id: self_id })
}

/// Counts a file once more while the host performs a call for it.
fn inc_ref_for_pending_oscall(vm: &mut VM, file_id: HeapId)
    requires
        old(vm).wf(),
        file_id.0 < old(vm).entries().len(),
    ensures
        final(vm).wf(),
        with_entries(*old(vm), *final(vm), with_ref(old(vm).entries(), Value::Ref(file_id))),
{
    let _pin = vm.clone_value(&Value::Ref(file_id));
}

/// The size argument of `read`.
pub open spec fn read_size(vm: VM, args: ArgValues) -> Result<ReadSpec, Raised> {
    if args.just(0) {
        Ok(ReadSpec::All)
    } else if !args.just(1) {
        Err(at_most_error("read"@, 1, args.total()))
    } else {
        match args.pos@[0] {
            Value::PyNone => Ok(ReadSpec::All),
            Value::Bool(b) => Ok(
                ReadSpec::Size(
                    if b {
                        1
                    } else {
                        0
                    },
                ),
            ),
            v => match vm.int_of(v) {
                Err(e) => Err(e),
                Ok(n) => if n < 0 {
                    Ok(ReadSpec::All)
                } else if n > usize::MAX {
                    Err(ssize_overflow())
                } else {
                    Ok(ReadSpec::Size(n as usize))
                },
            },
        }
    }
}

/// Parses the size argument of `read`.
fn parse_read_size_arg(args: &ArgValues, vm: &VM) -> (r: RunResult<ReadSpec>)
    requires
        args.ok(vm.entries().len(), vm.interns),
    ensures
        match read_size(*vm, *args) {
            Ok(spec) => r matches Ok(s) && s == spec,
            Err(e) => raises(r, e),
        },
{
    match args.get_zero_one_arg("read") {
        Err(e) => Err(e),
        Ok(None) => Ok(ReadSpec::All),
        Ok(Some(v)) => match v {
            Value::PyNone => Ok(ReadSpec::All),
            Value::Bool(b) => if *b {
                Ok(ReadSpec::Size(1))
            } else {
                Ok(ReadSpec::Size(0))
            },
            _ => match v.as_int(vm) {
                Err(e) => Err(e),
                Ok(n) => if n < 0 {
                    Ok(ReadSpec::All)
                } else if n as u64 > usize::MAX as u64 {
                    Err(overflow_c_ssize_t())
                } else {
                    Ok(ReadSpec::Size(n as usize))
                },
            },
        },
    }
}

/// What an empty read comes to: an empty string or empty bytes.
pub open spec fn empty_read(before: VM, after: VM, r: RunResult<Value>, binary: bool) -> bool {
    if binary {
        bytes_result(before, after, r, Seq::empty())
    } else {
        r == Ok::<Value, RunError>(Value::InternString(StaticStrings::EmptyString.spec_id()))
            && after == before
    }
}

/// An empty string or empty bytes.
fn empty_result(binary: bool, vm: &mut VM) -> (r: RunResult<Value>)
    requires
        old(vm).wf(),
    ensures
        final(vm).wf(),
        r matches Ok(v) ==> final(vm).ok(v),
        empty_read(*old(vm), *final(vm), r, binary),
{
    if binary {
        let none: Vec<u8> = Vec::new();
        assert(none@ =~= Seq::empty());
        allocate_bytes(none, vm)
    } else {
        Ok(Value::InternString(StaticStrings::EmptyString.id()))
    }
}

/// What `file.read(size?)` comes to. A read of nothing never asks the host.
pub open spec fn read_done(
    before: VM,
    after: VM,
    r: RunResult<CallResult>,
    id: HeapId,
    args: ArgValues,
) -> bool {
    let file = file_at(before, id)->0;
    match read_size(before, args) {
        Err(e) => raises(r, e) && after == before,
        Ok(spec) => if spec != ReadSpec::Size(0) {
            buffered_read(before, after, r, id, spec)
        } else if file.closed {
            raises(r, closed_error()) && after == before
        } else if !file.mode.can_read() {
            raises(r, unsupported("not readable"@)) && after == before
        } else {
            as_value(r) matches Some(v) && empty_read(before, after, v, file.mode.binary())
        },
    }
}

/// `file.read()` and `file.read(size)`.
fn read(self_id: HeapId, args: &ArgValues, vm: &mut VM) -> (r: RunResult<CallResult>)
    requires
        old(vm).wf(),
        self_id.0 < old(vm).entries().len(),
        file_at(*old(vm), self_id) is Some,
        file_ok(*old(vm), self_id),
        args.ok(old(vm).entries().len(), old(vm).interns),
    ensures
        final(vm).wf(),
        final(vm).entries().len() >= old(vm).entries().len(),
        r matches Ok(CallResult::Value(v)) ==> final(vm).ok(v),
        read_done(*old(vm), *final(vm), r, self_id, *args),
        file_ok(*final(vm), self_id),
{
    let spec = match parse_read_size_arg(args, vm) {
        Ok(spec) => spec,
        Err(e) => {
            return Err(e);
        },
    };
    if spec == ReadSpec::Size(0) {
        let binary = match get_file(vm, self_id) {
            None => {
                return Err(RunError::new(ExcType::RuntimeError, "not an OpenFile"));
            },
            Some(f) => {
                match f.ensure_open() {
                    Ok(_) => {},
                    Err(e) => {
                        return Err(e);
                    },
                }
                if !f.mode.readable() {
                    return Err(unsupported_operation("not readable"));
                }
                f.mode.is_binary()
            },
        };
        match empty_result(binary, vm) {
            Ok(v) => Ok(CallResult::Value(v)),
            Err(e) => Err(e),
        }
    } else {
        read_with_spec(self_id, spec, vm)
    }
}

/// What a method without arguments comes to that reads lines.
pub open spec fn lines_done(
    before: VM,
    after: VM,
    r: RunResult<CallResult>,
    id: HeapId,
    name: Seq<char>,
    spec: ReadSpec,
    args: ArgValues,
) -> bool {
    if args.total() > 0 {
        raises(r, no_args_error(name, args.total())) && after == before
    } else {
        buffered_read(before, after, r, id, spec)
    }
}

/// `file.readline()`: up to and with the next line break.
fn readline(self_id: HeapId, args: &ArgValues, vm: &mut VM) -> (r: RunResult<CallResult>)
    requires
        old(vm).wf(),
        self_id.0 < old(vm).entries().len(),
        file_at(*old(vm), self_id) is Some,
        file_ok(*old(vm), self_id),
        args.ok(old(vm).entries().len(), old(vm).interns),
    ensures
        final(vm).wf(),
        final(vm).entries().len() >= old(vm).entries().len(),
        r matches Ok(CallResult::Value(v)) ==> final(vm).ok(v),
        lines_done(*old(vm), *final(vm), r, self_id, "readline"@, ReadSpec::Line, *args),
        file_ok(*final(vm), self_id),
{
    match args.check_zero_args("readline") {
        Ok(_) => read_with_spec(self_id, ReadSpec::Line, vm),
        Err(e) => Err(e),
    }
}

/// `file.readlines()`: every remaining line.
fn readlines(self_id: HeapId, args: &ArgValues, vm: &mut VM) -> (r: RunResult<CallResult>)
    requires
        old(vm).wf(),
        self_id.0 < old(vm).entries().len(),
        file_at(*old(vm), self_id) is Some,
        file_ok(*old(vm), self_id),
        args.ok(old(vm).entries().len(), old(vm).interns),
    ensures
        final(vm).wf(),
        final(vm).entries().len() >= old(vm).entries().len(),
        r matches Ok(CallResult::Value(v)) ==> final(vm).ok(v),
        lines_done(*old(vm), *final(vm), r, self_id, "readlines"@, ReadSpec::Lines, *args),
        file_ok(*final(vm), self_id),
{
    match args.check_zero_args("readlines") {
        Ok(_) => read_with_spec(self_id, ReadSpec::Lines, vm),
        Err(e) => Err(e),
    }
}

/// What a method without arguments comes to that only looks at an open file.
pub open spec fn look_result(
    r: RunResult<CallResult>,
    file: OpenFile,
    name: Seq<char>,
    args: ArgValues,
    expected: Result<Value, Raised>,
) -> bool {
    if args.total() > 0 {
        raises(r, no_args_error(name, args.total()))
    } else if file.closed {
        raises(r, closed_error())
    } else {
        match expected {
            Ok(v) => r == Ok::<CallResult, RunError>(CallResult::Value(v)),
            Err(e) => raises(r, e),
        }
    }
}

/// The position as a value.
pub open spec fn position_value(file: OpenFile) -> Result<Value, Raised> {
    if file.position > i64::MAX {
        Err(ssize_overflow())
    } else {
        Ok(Value::Int(file.position as i64))
    }
}

/// `file.tell()`: the position.
fn tell(file: &OpenFile, args: &ArgValues) -> (r: RunResult<CallResult>)
    requires
        args.total() <= usize::MAX,
    ensures
        look_result(r, *file, "tell"@, *args, position_value(*file)),
{
    match args.check_zero_args("tell") {
        Ok(_) => {},
        Err(e) => {
            return Err(e);
        },
    }
    match file.ensure_open() {
        Ok(_) => {},
        Err(e) => {
            return Err(e);
        },
    }
    if file.position > i64::MAX as u64 {
        Err(overflow_c_ssize_t())
    } else {
        Ok(CallResult::Value(Value::Int(file.position as i64)))
    }
}

/// `file.flush()`: writes are never held back, so there is nothing to do.
fn flush(file: &OpenFile, args: &ArgValues) -> (r: RunResult<CallResult>)
    requires
        args.total() <= usize::MAX,
    ensures
        look_result(r, *file, "flush"@, *args, Ok(Value::PyNone)),
{
    match args.check_zero_args("flush") {
        Ok(_) => match file.ensure_open() {
            Ok(_) => Ok(CallResult::Value(Value::PyNone)),
            Err(e) => Err(e),
        },
        Err(e) => Err(e),
    }
}

/// `file.readable()`: whether the mode allows reading.
fn readable(file: &OpenFile, args: &ArgValues) -> (r: RunResult<CallResult>)
    requires
        args.total() <= usize::MAX,
    ensures
        look_result(r, *file, "readable"@, *args, Ok(Value::Bool(file.mode.can_read()))),
{
    match args.check_zero_args("readable") {
        Ok(_) => match file.ensure_open() {
            Ok(_) => Ok(CallResult::Value(Value::Bool(file.mode.readable()))),
            Err(e) => Err(e),
        },
        Err(e) => Err(e),
    }
}

/// `file.writable()`: whether the mode allows writing.
fn writable(file: &OpenFile, args: &ArgValues) -> (r: RunResult<CallResult>)
    requires
        args.total() <= usize::MAX,
    ensures
        look_result(r, *file, "writable"@, *args, Ok(Value::Bool(file.mode.can_write()))),
{
    match args.check_zero_args("writable") {
        Ok(_) => match file.ensure_open() {
            Ok(_) => Ok(CallResult::Value(Value::Bool(file.mode.writable()))),
            Err(e) => Err(e),
        },
        Err(e) => Err(e),
    }
}

/// `file.seekable()`: always.
fn seekable(file: &OpenFile, args: &ArgValues) -> (r: RunResult<CallResult>)
    requires
        args.total() <= usize::MAX,
    ensures
        look_result(r, *file, "seekable"@, *args, Ok(Value::Bool(true))),
{
    match args.check_zero_args("seekable") {
        Ok(_) => match file.ensure_open() {
            Ok(_) => Ok(CallResult::Value(Value::Bool(true))),
            Err(e) => Err(e),
        },
        Err(e) => Err(e),
    }
}

/// The arguments of `seek`: the offset, and what it counts from.
pub open spec fn seek_args(vm: VM, args: ArgValues) -> Result<(int, int), Raised> {
    if args.total() == 0 {
        Err(at_least_error("seek"@, 1, 0))
    } else if !args.just(1) && !args.just(2) {
        Err(at_most_error("seek"@, 2, args.total()))
    } else {
        match vm.int_of(args.pos@[0]) {
            Err(e) => Err(e),
            Ok(offset) => if args.just(1) {
                Ok((offset, 0))
            } else {
                match vm.int_of(args.pos@[1]) {
                    Err(e) => Err(e),
                    Ok(whence) => Ok((offset, whence)),
                }
            },
        }
    }
}

/// Parses the arguments of `seek`.
fn parse_seek_args(args: &ArgValues, vm: &VM) -> (r: RunResult<(i64, i64)>)
    requires
        args.ok(vm.entries().len(), vm.interns),
    ensures
        match seek_args(*vm, *args) {
            Ok((a, b)) => r matches Ok((offset, whence)) && offset == a && whence == b,
            Err(e) => raises(r, e),
        },
{
    match args.get_one_two_args("seek") {
        Err(e) => Err(e),
        Ok((first, second)) => match first.as_int(vm) {
            Err(e) => Err(e),
            Ok(offset) => match second {
                None => Ok((offset, 0)),
                Some(v) => match v.as_int(vm) {
                    Err(e) => Err(e),
                    Ok(whence) => Ok((offset, whence)),
                },
            },
        },
    }
}

/// Where a seek in a file goes that is only written.
pub open spec fn write_seek(file: OpenFile, offset: int, whence: int) -> Result<int, Raised> {
    if file.position > i64::MAX || file.file_length > i64::MAX {
        Err(ssize_overflow())
    } else {
        seek_target(offset, whence, file.position as int, file.file_length as int)
    }
}

/// What `file.seek(offset, whence?)` comes to. A file that can be read is
/// loaded first; one that cannot only moves its position.
pub open spec fn seek_done(
    before: VM,
    after: VM,
    r: RunResult<CallResult>,
    id: HeapId,
    args: ArgValues,
) -> bool {
    let file = file_at(before, id)->0;
    match seek_args(before, args) {
        Err(e) => raises(r, e) && after == before,
        Ok((offset, whence)) => if file.mode.can_read() {
            buffered_read(
                before,
                after,
                r,
                id,
                ReadSpec::Seek { offset: offset as i64, whence: whence as i64 },
            )
        } else if file.closed {
            raises(r, closed_error()) && after == before
        } else {
            match write_seek(file, offset, whence) {
                Err(e) => raises(r, e) && after == before,
                Ok(t) => r == Ok::<CallResult, RunError>(CallResult::Value(Value::Int(t as i64)))
                    && file_set(
                    before,
                    after,
                    id,
                    OpenFile { position: t as u64, eof: t >= file.file_length, ..file },
                ),
            }
        },
    }
}

/// `file.seek(offset, whence=0)`: the new position.
fn seek(self_id: HeapId, args: &ArgValues, vm: &mut VM) -> (r: RunResult<CallResult>)
    requires
        old(vm).wf(),
        self_id.0 < old(vm).entries().len(),
        file_at(*old(vm), self_id) is Some,
        file_ok(*old(vm), self_id),
        args.ok(old(vm).entries().len(), old(vm).interns),
    ensures
        final(vm).wf(),
        final(vm).entries().len() >= old(vm).entries().len(),
        r matches Ok(CallResult::Value(v)) ==> final(vm).ok(v),
        seek_done(*old(vm), *final(vm), r, self_id, *args),
        file_ok(*final(vm), self_id),
{
    let (offset, whence) = match parse_seek_args(args, vm) {
        Ok(parsed) => parsed,
        Err(e) => {
            return Err(e);
        },
    };
    proof {
        lemma_file_buffer_ok(*vm, self_id);
    }
    let mut file = match get_file(vm, self_id) {
        None => {
            return Err(RunError::new(ExcType::RuntimeError, "not an OpenFile"));
        },
        Some(f) => f.duplicate(),
    };
    if file.mode.readable() {
        return read_with_spec(self_id, ReadSpec::Seek { offset, whence }, vm);
    }
    match file.ensure_open() {
        Ok(_) => {},
        Err(e) => {
            return Err(e);
        },
    }
    if file.position > i64::MAX as u64 || file.file_length > i64::MAX as u64 {
        return Err(overflow_c_ssize_t());
    }
    let target: i64 = match resolve_seek_target(
        offset,
        whence,
        file.position as i64,
        file.file_length as i64,
    ) {
        Ok(target) => target,
        Err(e) => {
            return Err(e);
        },
    };
    file.position = target as u64;
    file.eof = target as u64 >= file.file_length;
    put_file(vm, self_id, file);
    Ok(CallResult::Value(Value::Int(target)))
}

/// The error for data of the wrong kind, if it is.
pub open spec fn write_data_error(vm: VM, data: Value, binary: bool) -> Option<Raised> {
    if binary {
        if vm.bytes_of(data) is Some {
            None
        } else {
            Some(
                (
                    ExcType::TypeError,
                    "a bytes-like object is required, not '"@ + vm.type_of(data).text() + "'"@,
                ),
            )
        }
    } else if vm.text_of(data) is Some {
        None
    } else {
        Some(
            (
                ExcType::TypeError,
                "write() argument must be str, not "@ + vm.type_of(data).text(),
            ),
        )
    }
}

/// Checks that text files are given text and binary files bytes.
fn validate_write_data(data: &Value, binary: bool, vm: &VM) -> (r: RunResult<()>)
    requires
        vm.ok(*data),
    ensures
        match write_data_error(*vm, *data, binary) {
            Some(e) => raises(r, e),
            None => r is Ok,
        },
{
    if binary {
        if is_bytes(data, vm) {
            return Ok(());
        }
        let mut out = chars_of("a bytes-like object is required, not '");
        push_str(&mut out, data.py_type(vm).as_str());
        push_str(&mut out, "'");
        assert(out@ =~= "a bytes-like object is required, not '"@ + vm.type_of(*data).text()
            + "'"@);
        Err(RunError::new_msg(ExcType::TypeError, string_of(&out)))
    } else {
        if data.is_str(vm) {
            return Ok(());
        }
        let mut out = chars_of("write() argument must be str, not ");
        push_str(&mut out, data.py_type(vm).as_str());
        assert(out@ =~= "write() argument must be str, not "@ + vm.type_of(*data).text());
        Err(RunError::new_msg(ExcType::TypeError, string_of(&out)))
    }
}

/// Whether a value is bytes.
fn is_bytes(data: &Value, vm: &VM) -> (r: bool)
    requires
        vm.ok(*data),
    ensures
        r == (vm.bytes_of(*data) is Some),
{
    data.raw_bytes(vm).is_some()
}

/// The text of a string value.
fn extract_str_payload(data: &Value, vm: &VM) -> (r: Option<String>)
    requires
        vm.ok(*data),
    ensures
        match (r, vm.text_of(*data)) {
            (Some(s), Some(t)) => s@ == t,
            (None, None) => true,
            _ => false,
        },
{
    match data.text(vm) {
        Some(t) => Some(t.to_owned()),
        None => None,
    }
}

/// The bytes of a bytes value.
fn extract_bytes_payload(data: &Value, vm: &VM) -> (r: Option<Vec<u8>>)
    requires
        vm.ok(*data),
    ensures
        match (r, vm.bytes_of(*data)) {
            (Some(s), Some(t)) => s@ == t,
            (None, None) => true,
            _ => false,
        },
{
    match data.raw_bytes(vm) {
        Some(b) => {
            let copy = sub_bytes(b, 0, b.len());
            assert(copy@ =~= b@);
            Some(copy)
        },
        None => None,
    }
}

/// Whether a call of the host writes the data to the file, or appends it.
pub open spec fn writes_file(
    vm: VM,
    call: OsFunctionCall,
    file: OpenFile,
    data: Value,
    append: bool,
) -> bool {
    match call {
        OsFunctionCall::WriteText { path, data: text } => !file.mode.binary() && !append && path@
            == file.path@ && Some(text@) == vm.text_of(data),
        OsFunctionCall::AppendText { path, data: text } => !file.mode.binary() && append && path@
            == file.path@ && Some(text@) == vm.text_of(data),
        OsFunctionCall::WriteBytes { path, bytes } => file.mode.binary() && !append && path@
            == file.path@ && Some(bytes@) == vm.bytes_of(data),
        OsFunctionCall::AppendBytes { path, bytes } => file.mode.binary() && append && path@
            == file.path@ && Some(bytes@) == vm.bytes_of(data),
        _ => false,
    }
}

/// What `file.write(data)` comes to. The first write of a file that was not
/// emptied when it was opened replaces its content; all others append. The
/// file is counted once more until the host answers, and what it needs to move
/// its position is remembered.
pub open spec fn write_done(
    before: VM,
    after: VM,
    r: RunResult<CallResult>,
    id: HeapId,
    args: ArgValues,
) -> bool {
    let file = file_at(before, id)->0;
    if !args.just(1) {
        raises(r, one_arg_error("write"@, args.total())) && after == before
    } else {
        match write_data_error(before, args.pos@[0], file.mode.binary()) {
            Some(e) => raises(r, e) && after == before,
            None => if file.closed {
                raises(r, closed_error()) && after == before
            } else if !file.mode.can_write() {
                raises(
                    r,
                    unsupported(
                        if file.mode.binary() {
                            "write"@
                        } else {
                            "not writable"@
                        },
                    ),
                ) && after == before
            } else {
                &&& r matches Ok(CallResult::OsCall(call)) && writes_file(
                    before,
                    call,
                    file,
                    args.pos@[0],
                    file.mode.appends() || file.first_write_done,
                )
                &&& after.interns == before.interns
                &&& after.heap.same_limits(before.heap)
                &&& after.pending_file_effect == Some(
                    PendingFileEffect::WritePosition {
                        file_id: id,
                        previous_position: file.position,
                        previous_length: file.file_length,
                    },
                )
                &&& exists|mid: VM|
                    #[trigger] file_set(
                        before,
                        mid,
                        id,
                        OpenFile { first_write_done: true, ..file },
                    ) && after.entries() == with_ref(mid.entries(), Value::Ref(id))
            },
        }
    }
}

/// `file.write(data)`: one call of the host that writes or appends.
fn write(self_id: HeapId, args: &ArgValues, vm: &mut VM) -> (r: RunResult<CallResult>)
    requires
        old(vm).wf(),
        self_id.0 < old(vm).entries().len(),
        file_at(*old(vm), self_id) is Some,
        args.ok(old(vm).entries().len(), old(vm).interns),
    ensures
        final(vm).wf(),
        final(vm).entries().len() >= old(vm).entries().len(),
        r matches Ok(CallResult::Value(v)) ==> final(vm).ok(v),
        write_done(*old(vm), *final(vm), r, self_id, *args),
        file_ok(*old(vm), self_id) ==> file_ok(*final(vm), self_id),
{
    let data = match args.get_one_arg("write") {
        Ok(data) => data,
        Err(e) => {
            return Err(e);
        },
    };
    proof {
        lemma_file_buffer_ok(*vm, self_id);
    }
    let mut file = match get_file(vm, self_id) {
        None => {
            return Err(RunError::new(ExcType::RuntimeError, "not an OpenFile"));
        },
        Some(f) => f.duplicate(),
    };
    let binary = file.mode.is_binary();
    match validate_write_data(data, binary, vm) {
        Ok(_) => {},
        Err(e) => {
            return Err(e);
        },
    }
    match file.ensure_open() {
        Ok(_) => {},
        Err(e) => {
            return Err(e);
        },
    }
    if !file.mode.writable() {
        return Err(
            unsupported_operation(
                if binary {
                    "write"
                } else {
                    "not writable"
                },
            ),
        );
    }
    let append = file.mode.is_append() || file.first_write_done;
    let path = file.path().to_owned();
    let call = if binary {
        match extract_bytes_payload(data, vm) {
            Some(bytes) => if append {
                OsFunctionCall::AppendBytes { path, bytes }
            } else {
                OsFunctionCall::WriteBytes { path, bytes }
            },
            None => {
                return Err(RunError::new(ExcType::RuntimeError, "not bytes"));
            },
        }
    } else {
        match extract_str_payload(data, vm) {
            Some(text) => if append {
                OsFunctionCall::AppendText { path, data: text }
            } else {
                OsFunctionCall::WriteText { path, data: text }
            },
            None => {
                return Err(RunError::new(ExcType::RuntimeError, "not text"));
            },
        }
    };
    let previous_position: u64 = file.position;
    let previous_length: u64 = file.file_length;
    let ghost marked = OpenFile { first_write_done: true, ..file };
    file.first_write_done = true;
    put_file(vm, self_id, file);
    let ghost mid = *vm;
    assert(file_set(*old(vm), mid, self_id, marked));
    inc_ref_for_pending_oscall(vm, self_id);
    vm.pending_file_effect = Some(
        PendingFileEffect::WritePosition { file_id: self_id, previous_position, previous_length },
    );
    Ok(CallResult::OsCall(call))
}

/// What `file.close()` comes to: the file is closed and lets go of its content.
pub open spec fn close_done(
    before: VM,
    after: VM,
    r: RunResult<CallResult>,
    id: HeapId,
    args: ArgValues,
) -> bool {
    let file = file_at(before, id)->0;
    if args.total() > 0 {
        raises(r, no_args_error("close"@, args.total())) && after == before
    } else {
        &&& r == Ok::<CallResult, RunError>(CallResult::Value(Value::PyNone))
        &&& exists|mid: VM|
            #[trigger] file_set(
                before,
                mid,
                id,
                OpenFile { closed: true, buffer: None, buffer_meta: None, ..file },
            ) && with_entries(
                mid,
                after,
                match file.buffer {
                    Some(buffer) => released(mid.entries(), seq![buffer]),
                    None => mid.entries(),
                },
            )
    }
}

/// `file.close()`.
fn close(self_id: HeapId, args: &ArgValues, vm: &mut VM) -> (r: RunResult<CallResult>)
    requires
        old(vm).wf(),
        self_id.0 < old(vm).entries().len(),
        file_at(*old(vm), self_id) is Some,
        args.ok(old(vm).entries().len(), old(vm).interns),
    ensures
        final(vm).wf(),
        final(vm).entries().len() >= old(vm).entries().len(),
        r matches Ok(CallResult::Value(v)) ==> final(vm).ok(v),
        close_done(*old(vm), *final(vm), r, self_id, *args),
        file_ok(*old(vm), self_id) ==> file_ok(*final(vm), self_id),
{
    match args.check_zero_args("close") {
        Ok(_) => {},
        Err(e) => {
            return Err(e);
        },
    }
    proof {
        lemma_file_buffer_ok(*vm, self_id);
    }
    let mut file = match get_file(vm, self_id) {
        None => {
            return Err(RunError::new(ExcType::RuntimeError, "not an OpenFile"));
        },
        Some(f) => f.duplicate(),
    };
    let buffer = file.buffer;
    let ghost shut = OpenFile { closed: true, buffer: None, buffer_meta: None, ..file };
    file.closed = true;
    file.buffer_meta = None;
    file.buffer = None;
    put_file(vm, self_id, file);
    let ghost mid = *vm;
    assert(file_set(*old(vm), mid, self_id, shut));
    match buffer {
        Some(id) => {
            vm.release(id);
            proof {
                lemma_released_data(mid.entries(), seq![id]);
                assert(vm.heap.data(self_id) == mid.heap.data(self_id));
            }
        },
        None => {},
    }
    Ok(CallResult::Value(Value::PyNone))
}

/// Closing a closed file again changes nothing.
pub proof fn lemma_close_again(
    before: VM,
    closed: VM,
    after: VM,
    r: RunResult<CallResult>,
    again: RunResult<CallResult>,
    id: HeapId,
    args: ArgValues,
)
    requires
        id.0 < before.entries().len(),
        file_at(before, id) is Some,
        args.total() == 0,
        close_done(before, closed, r, id, args),
        close_done(closed, after, again, id, args),
    ensures
        after.entries() == closed.entries(),
        after.same_setting(closed),
{
    let file = file_at(before, id)->0;
    let shut = OpenFile { closed: true, buffer: None, buffer_meta: None, ..file };
    let mid = choose|mid: VM|
        #[trigger] file_set(before, mid, id, shut) && with_entries(
            mid,
            closed,
            match file.buffer {
                Some(buffer) => released(mid.entries(), seq![buffer]),
                None => mid.entries(),
            },
        );
    match file.buffer {
        Some(buffer) => {
            lemma_released_data(mid.entries(), seq![buffer]);
        },
        None => {},
    }
    assert(file_at(closed, id) == Some(shut));
    assert(closed.entries().update(id.0 as int, closed.entries()[id.0 as int])
        =~= closed.entries());
}

/// Entering a `with` block gives the file itself, unless it is closed.
pub fn py_enter(self_id: HeapId, vm: &mut VM) -> (r: RunResult<CallResult>)
    requires
        old(vm).wf(),
        self_id.0 < old(vm).entries().len(),
        file_at(*old(vm), self_id) is Some,
    ensures
        final(vm).wf(),
        r matches Ok(CallResult::Value(v)) ==> final(vm).ok(v),
        ({
            let file = file_at(*old(vm), self_id)->0;
            if file.closed {
                raises(r, closed_error()) && *final(vm) == *old(vm)
            } else {
                r == Ok::<CallResult, RunError>(CallResult::Value(Value::Ref(self_id)))
                    && with_entries(
                    *old(vm),
                    *final(vm),
                    with_ref(old(vm).entries(), Value::Ref(self_id)),
                )
            }
        }),
        file_ok(*old(vm), self_id) ==> file_ok(*final(vm), self_id),
{
    match get_file(vm, self_id) {
        None => {},
        Some(f) => match f.ensure_open() {
            Ok(_) => {},
            Err(e) => {
                return Err(e);
            },
        },
    }
    let itself = vm.clone_value(&Value::Ref(self_id));
    Ok(CallResult::Value(itself))
}

/// Leaving a `with` block closes the file and holds back no exception.
pub fn py_exit(self_id: HeapId, vm: &mut VM) -> (r: RunResult<CallResult>)
    requires
        old(vm).wf(),
        self_id.0 < old(vm).entries().len(),
        file_at(*old(vm), self_id) is Some,
    ensures
        final(vm).wf(),
        r matches Ok(CallResult::Value(v)) ==> final(vm).ok(v),
        r == Ok::<CallResult, RunError>(CallResult::Value(Value::PyNone)),
        file_set(
            *old(vm),
            *final(vm),
            self_id,
            (OpenFile { closed: true, ..(file_at(*old(vm), self_id)->0) }),
        ),
        file_ok(*old(vm), self_id) ==> file_ok(*final(vm), self_id),
{
    proof {
        lemma_file_buffer_ok(*vm, self_id);
    }
    let mut file = match get_file(vm, self_id) {
        None => {
            return Err(RunError::new(ExcType::RuntimeError, "not an OpenFile"));
        },
        Some(f) => f.duplicate(),
    };
    file.closed = true;
    put_file(vm, self_id, file);
    Ok(CallResult::Value(Value::PyNone))
}

/// What an attribute of a file comes to.
pub open spec fn file_attr_done(
    before: VM,
    after: VM,
    r: RunResult<CallResult>,
    id: HeapId,
    attr: EitherStr,
) -> bool {
    let file = file_at(before, id)->0;
    match attr.well_known() {
        Some(StaticStrings::Name) => as_value(r) matches Some(v) && string_result(
            before,
            after,
            v,
            file.path@,
        ),
        Some(StaticStrings::Mode) => as_value(r) matches Some(v) && string_result(
            before,
            after,
            v,
            file.mode.text(),
        ),
        Some(StaticStrings::Closed) => r == Ok::<CallResult, RunError>(
            CallResult::Value(Value::Bool(file.closed)),
        ) && after == before,
        _ => if attr.well_known() == Some(StaticStrings::Encoding) && !file.mode.binary() {
            as_value(r) matches Some(v) && string_result(before, after, v, "utf-8"@)
        } else {
            raises(
                r,
                no_attribute(file.mode.object_type().text(), attr.text(before.interns)),
            ) && after == before
        },
    }
}

/// The attributes of a file: its name, its mode, whether it is closed, and the
/// encoding of a text file.
pub fn py_getattr(self_id: HeapId, attr: &EitherStr, vm: &mut VM) -> (r: RunResult<CallResult>)
    requires
        old(vm).wf(),
        self_id.0 < old(vm).entries().len(),
        file_at(*old(vm), self_id) is Some,
        attr.ok(old(vm).interns),
    ensures
        final(vm).wf(),
        r matches Ok(CallResult::Value(v)) ==> final(vm).ok(v),
        file_attr_done(*old(vm), *final(vm), r, self_id, *attr),
{
    let file = match get_file(vm, self_id) {
        None => {
            return Err(RunError::new(ExcType::RuntimeError, "not an OpenFile"));
        },
        Some(f) => f.duplicate(),
    };
    let text: String = match attr.static_string() {
        Some(StaticStrings::Name) => file.path().to_owned(),
        Some(StaticStrings::Mode) => file.mode().to_owned(),
        Some(StaticStrings::Closed) => {
            return Ok(CallResult::Value(Value::Bool(file.closed)));
        },
        Some(StaticStrings::Encoding) => {
            if file.mode.is_binary() {
                return Err(
                    attribute_error(file.file_type().as_str(), attr.as_str(&vm.interns)),
                );
            }
            "utf-8".to_owned()
        },
        _ => {
            return Err(attribute_error(file.file_type().as_str(), attr.as_str(&vm.interns)));
        },
    };
    match allocate_string(text, vm) {
        Ok(v) => Ok(CallResult::Value(v)),
        Err(e) => Err(e),
    }
}

/// What a method call on a file comes to.
pub open spec fn file_call_done(
    before: VM,
    after: VM,
    r: RunResult<CallResult>,
    id: HeapId,
    attr: EitherStr,
    args: ArgValues,
) -> bool {
    let file = file_at(before, id)->0;
    match attr.well_known() {
        Some(StaticStrings::Read) => read_done(before, after, r, id, args),
        Some(StaticStrings::Readline) => lines_done(
            before,
            after,
            r,
            id,
            "readline"@,
            ReadSpec::Line,
            args,
        ),
        Some(StaticStrings::Readlines) => lines_done(
            before,
            after,
            r,
            id,
            "readlines"@,
            ReadSpec::Lines,
            args,
        ),
        Some(StaticStrings::Seek) => seek_done(before, after, r, id, args),
        Some(StaticStrings::Write) => write_done(before, after, r, id, args),
        Some(StaticStrings::Close) => close_done(before, after, r, id, args),
        Some(StaticStrings::Tell) => look_result(r, file, "tell"@, args, position_value(file)) && after
            == before,
        Some(StaticStrings::Flush) => look_result(r, file, "flush"@, args, Ok(Value::PyNone)) && after
            == before,
        Some(StaticStrings::Readable) => look_result(
            r,
            file,
            "readable"@,
            args,
            Ok(Value::Bool(file.mode.can_read())),
        ) && after == before,
        Some(StaticStrings::Writable) => look_result(
            r,
            file,
            "writable"@,
            args,
            Ok(Value::Bool(file.mode.can_write())),
        ) && after == before,
        Some(StaticStrings::Seekable) => look_result(r, file, "seekable"@, args, Ok(Value::Bool(true)))
            && after == before,
        _ => raises(
            r,
            no_attribute(file.mode.object_type().text(), attr.text(before.interns)),
        ) && after == before,
    }
}

/// Calls a method of a file.
pub fn py_call_attr(
    self_id: HeapId,
    vm: &mut VM,
    attr: &EitherStr,
    args: ArgValues,
) -> (r: RunResult<CallResult>)
    requires
        old(vm).wf(),
        self_id.0 < old(vm).entries().len(),
        file_at(*old(vm), self_id) is Some,
        file_ok(*old(vm), self_id),
        attr.ok(old(vm).interns),
        args.ok(old(vm).entries().len(), old(vm).interns),
    ensures
        final(vm).wf(),
        r matches Ok(CallResult::Value(v)) ==> final(vm).ok(v),
        file_ok(*final(vm), self_id),
        exists|mid: VM| #[trigger]
            args.consumed(mid, *final(vm)) && file_call_done(
                *old(vm),
                mid,
                r,
                self_id,
                *attr,
                args,
            ),
{
    let ghost given = args;
    let r = call_attr(self_id, vm, attr, &args);
    let ghost mid = *vm;
    args.release(vm);
    proof {
        assert(given.consumed(mid, *vm));
        lemma_released_data(mid.entries(), given.refs());
        lemma_file_kept(mid, *vm, self_id);
    }
    r
}

/// Counting references does not change what a file knows about its content.
proof fn lemma_file_kept(before: VM, after: VM, id: HeapId)
    requires
        before.wf(),
        after.same_setting(before),
        after.entries().len() == before.entries().len(),
        forall|i: int|
            0 <= i < before.entries().len() ==> (#[trigger] after.entries()[i]).data
                == before.entries()[i].data,
        id.0 < before.entries().len(),
        file_ok(before, id),
    ensures
        file_ok(after, id),
{
    assert(after.entries()[id.0 as int].data == before.entries()[id.0 as int].data);
    match file_at(before, id) {
        Some(file) => {
            lemma_entry_ok(before, id);
            match file.buffer {
                Some(b) => {
                    assert(after.entries()[b.0 as int].data == before.entries()[b.0 as int].data);
                },
                None => {},
            }
        },
        None => {},
    }
}

/// The same without taking the arguments.
fn call_attr(self_id: HeapId, vm: &mut VM, attr: &EitherStr, args: &ArgValues) -> (r:
    RunResult<CallResult>)
    requires
        old(vm).wf(),
        self_id.0 < old(vm).entries().len(),
        file_at(*old(vm), self_id) is Some,
        file_ok(*old(vm), self_id),
        attr.ok(old(vm).interns),
        args.ok(old(vm).entries().len(), old(vm).interns),
    ensures
        final(vm).wf(),
        final(vm).entries().len() >= old(vm).entries().len(),
        r matches Ok(CallResult::Value(v)) ==> final(vm).ok(v),
        file_call_done(*old(vm), *final(vm), r, self_id, *attr, *args),
        file_ok(*final(vm), self_id),
{
    let file = match get_file(vm, self_id) {
        None => {
            return Err(RunError::new(ExcType::RuntimeError, "not an OpenFile"));
        },
        Some(f) => f.duplicate(),
    };
    let method = match attr.static_string() {
        None => {
            return Err(attribute_error(file.file_type().as_str(), attr.as_str(&vm.interns)));
        },
        Some(method) => method,
    };
    match method {
        StaticStrings::Read => read(self_id, args, vm),
        StaticStrings::Readline => readline(self_id, args, vm),
        StaticStrings::Readlines => readlines(self_id, args, vm),
        StaticStrings::Tell => tell(&file, args),
        StaticStrings::Seek => seek(self_id, args, vm),
        StaticStrings::Write => write(self_id, args, vm),
        StaticStrings::Close => close(self_id, args, vm),
        StaticStrings::Flush => flush(&file, args),
        StaticStrings::Readable => readable(&file, args),
        StaticStrings::Writable => writable(&file, args),
        StaticStrings::Seekable => seekable(&file, args),
        _ => Err(attribute_error(file.file_type().as_str(), attr.as_str(&vm.interns))),
    }
}

} // verus!
