//! What files give and where they stand.

use vstd::prelude::*;

use crate::args::{raises, ArgValues};
use crate::call::{CallResult, OsFunctionCall};
use crate::exception::{ExcType, RunError, RunResult};
use crate::heap::{HeapData, HeapId};
use crate::intern::StaticStrings;
use crate::laws::date_methods::value_of;
use crate::laws::results::{
    lemma_bounded, lemma_bytes_given, lemma_consumed, lemma_string_given, lemma_texts_given,
    list_items, texts_are,
};
use crate::laws::str_texts::chained;
use crate::release::{lemma_released_data, released};
use crate::types::file::{OpenFile, ReadSpec};
use crate::types::file_buffer::{
    byte_slice_done, file_at, file_set, meta_for, moved, slice_done, text_chunk_result,
    text_slice_done,
};
use crate::types::file_chunk::{
    concat_parts, lemma_line_len, lemma_nl_lines_concat, line_len, nl_lines, read_chunk, Chunk,
};
use crate::types::file_ops::{as_value, file_call_done, with_entries};
use crate::types::file_store::{
    buffer_stored, content_held, content_installed, content_read, read_and_unpinned,
};
use crate::value::{EitherStr, Value};
use crate::vm::VM;

verus! {

/// Whether a file is open for reading text, holds this content and stands at a place.
pub open spec fn text_file(vm: VM, id: HeapId, content: Seq<char>, place: int) -> bool {
    &&& id.0 < vm.entries().len()
    &&& file_at(vm, id) matches Some(file)
    &&& !file.closed && file.mode.can_read() && !file.mode.binary()
    &&& file.position == place
    &&& file.buffer matches Some(buffer)
    &&& buffer.0 < vm.entries().len()
    &&& vm.heap.data(buffer) matches HeapData::Str(s)
    &&& s@ == content
}

/// Whether a file is open for reading bytes, holds this content and stands at a place.
pub open spec fn byte_file(vm: VM, id: HeapId, content: Seq<u8>, place: int) -> bool {
    &&& id.0 < vm.entries().len()
    &&& file_at(vm, id) matches Some(file)
    &&& !file.closed && file.mode.can_read() && file.mode.binary()
    &&& file.position == place
    &&& file.buffer matches Some(buffer)
    &&& buffer.0 < vm.entries().len()
    &&& vm.heap.data(buffer) matches HeapData::Bytes(b)
    &&& b@ == content
}

/// Whether a value is what a read of text gave.
pub open spec fn is_chunk(vm: VM, v: Value, content: Seq<char>, chunk: Chunk<char>) -> bool {
    match chunk {
        Chunk::Whole => vm.text_of(v) == Some(content),
        Chunk::Part(t) => vm.text_of(v) == Some(t),
        Chunk::Parts(all) => list_items(vm, v) matches Some(vs) && texts_are(vm, vs, all),
        Chunk::Place(n) => v matches Value::Int(i) && i == n,
    }
}

/// What a read of loaded text gives, and where the file stands then.
proof fn lemma_text_slice(
    before: VM,
    after: VM,
    r: RunResult<Value>,
    id: HeapId,
    content: Seq<char>,
    place: int,
    spec: ReadSpec,
)
    requires
        before.interns.wf(),
        text_file(before, id, content, place),
        place <= usize::MAX,
        slice_done(before, after, r, id, spec),
        r is Ok,
    ensures
        read_chunk(content, '\n', place, spec) matches Ok(x) && is_chunk(
            after,
            r->Ok_0,
            content,
            x.0,
        ) && text_file(after, id, content, x.1 as u64 as int),
        after.interns == before.interns,
        after.ok(r->Ok_0),
        list_items(after, r->Ok_0) matches Some(vs) ==> spec is Lines ==> after.all_ok(vs),
        file_at(after, id)->0.pending_read == file_at(before, id)->0.pending_read,
{
    let file = file_at(before, id)->0;
    let buffer = file.buffer->0;
    let first = choose|mid: VM|
        #[trigger] file_set(
            before,
            mid,
            id,
            OpenFile { buffer_meta: meta_for(before, file), ..file },
        ) && text_slice_done(mid, after, r, id, buffer, content, place, spec);
    assert(first.heap.data(buffer) == before.heap.data(buffer));
    let x = read_chunk(content, '\n', place, spec)->Ok_0;
    let next = moved(
        file_at(first, id)->0,
        x.1,
        crate::utf8::byte_offset(content, x.1) as int,
        x.2,
        content.len() as int,
    );
    let mid = choose|mid: VM|
        text_chunk_result(first, mid, r, buffer, x.0) && #[trigger] file_set(mid, after, id, next);
    lemma_bounded(mid);
    lemma_bounded(first);
    let v = r->Ok_0;
    match x.0 {
        Chunk::Whole => {
            assert(after.heap.data(buffer) == mid.heap.data(buffer));
        },
        Chunk::Part(t) => {
            lemma_string_given(first, mid, r, t);
            lemma_unmoved(first, mid, buffer, id);
            lemma_moved_text(mid, after, id, next, v);
            assert(after.heap.data(buffer) == mid.heap.data(buffer));
        },
        Chunk::Parts(all) => {
            lemma_texts_given(first, mid, all);
            let vs = list_items(mid, v)->0;
            lemma_unmoved(first, mid, buffer, id);
            assert forall|i: int| 0 <= i < vs.len() implies after.text_of(#[trigger] vs[i])
                == Some(all[i]) by {
                assert(mid.text_of(vs[i]) == Some(all[i]));
                assert(mid.ok(vs[i]));
                lemma_moved_text(mid, after, id, next, vs[i]);
            }
            assert(after.heap.data(buffer) == mid.heap.data(buffer));
        },
        Chunk::Place(_) => {
            assert(after.heap.data(buffer) == mid.heap.data(buffer));
        },
    }
}

/// A file that moved leaves texts as they are.
proof fn lemma_moved_text(mid: VM, after: VM, id: HeapId, next: OpenFile, v: Value)
    requires
        file_set(mid, after, id, next),
        id.0 < mid.entries().len(),
        mid.heap.data(id) is OpenFile,
        mid.ok(v),
    ensures
        after.text_of(v) == mid.text_of(v),
        after.bytes_of(v) == mid.bytes_of(v),
        !(mid.data_of(v) matches Some(HeapData::OpenFile(_))) ==> after.data_of(v) == mid.data_of(v),
{
}

/// Entries stay when more are added.
proof fn lemma_unmoved(first: VM, mid: VM, buffer: HeapId, id: HeapId)
    requires
        first.entries().is_prefix_of(mid.entries()) || mid == first,
        buffer.0 < first.entries().len(),
        id.0 < first.entries().len(),
    ensures
        mid.heap.data(buffer) == first.heap.data(buffer),
        mid.heap.data(id) == first.heap.data(id),
        mid.entries().len() >= first.entries().len(),
{
    if mid != first {
        assert(first.entries()[buffer.0 as int] == mid.entries()[buffer.0 as int]);
        assert(first.entries()[id.0 as int] == mid.entries()[id.0 as int]);
    }
}

/// Whether a result is that of a call of a method of a file.
pub open spec fn file_called(
    before: VM,
    mid: VM,
    after: VM,
    id: HeapId,
    attr: EitherStr,
    args: ArgValues,
    r: RunResult<CallResult>,
) -> bool {
    args.consumed(mid, after) && file_call_done(before, mid, r, id, attr, args)
}

/// Dropping the arguments leaves a file as it is.
proof fn lemma_file_stays(
    mid: VM,
    after: VM,
    id: HeapId,
    content: Seq<char>,
    place: int,
    args: ArgValues,
)
    requires
        args.consumed(mid, after),
        text_file(mid, id, content, place),
    ensures
        text_file(after, id, content, place),
{
    lemma_consumed(args, mid, after);
    let buffer = file_at(mid, id)->0.buffer->0;
    assert(after.entries()[id.0 as int].data == mid.entries()[id.0 as int].data);
    assert(after.entries()[buffer.0 as int].data == mid.entries()[buffer.0 as int].data);
}

/// `read()` gives the rest of the content, and the file stands at its end.
pub proof fn lemma_read_rest(
    before: VM,
    mid: VM,
    after: VM,
    id: HeapId,
    content: Seq<char>,
    place: int,
    attr: EitherStr,
    args: ArgValues,
    r: RunResult<CallResult>,
)
    requires
        before.wf(),
        text_file(before, id, content, place),
        0 <= place <= content.len() <= usize::MAX,
        args.just(0),
        attr.well_known() == Some(StaticStrings::Read),
        file_called(before, mid, after, id, attr, args, r),
        r is Ok,
    ensures
        value_of(r) matches Some(v) && after.text_of(v) == Some(content.skip(place)),
        text_file(after, id, content, content.len() as int),
{
    let v = as_value(r)->0;
    lemma_text_slice(before, mid, v, id, content, place, ReadSpec::All);
    assert(content.skip(0) =~= content);
    lemma_consumed(args, mid, after);
    lemma_file_stays(mid, after, id, content, content.len() as int, args);
}

/// When the host has read the content of a file that is read to its end, the read gives
/// that content from the place on where the file stands, and the file keeps it and
/// stands at its end.
#[verifier::rlimit(60)]
pub proof fn lemma_content_stored(
    before: VM,
    after: VM,
    id: HeapId,
    file: OpenFile,
    content: Value,
    text: Seq<char>,
    r: RunResult<Value>,
)
    requires
        before.wf(),
        before.ok(content),
        id.0 < before.entries().len(),
        file_at(before, id) == Some(file),
        !file.closed && file.mode.can_read() && !file.mode.binary(),
        file.buffer is None,
        file.pending_read == Some(ReadSpec::All),
        file.position <= text.len() <= usize::MAX,
        before.text_of(content) == Some(text),
        buffer_stored(before, after, r, id, content),
        r is Ok,
    ensures
        after.text_of(r->Ok_0) == Some(text.skip(file.position as int)),
        text_file(after, id, text, text.len() as int),
        file_at(after, id)->0.pending_read is None,
{
    let waiting = OpenFile { pending_read: None, ..file };
    let taken = choose|taken: VM|
        #[trigger] file_set(before, taken, id, waiting) && content_read(
            taken,
            after,
            r,
            id,
            ReadSpec::All,
            content,
        );
    let (held, made) = choose|held: VM, made: RunResult<HeapId>|
        #[trigger] content_held(taken, held, made, content) && match made {
            Err(e) => r == Err::<Value, RunError>(e) && with_entries(
                held,
                after,
                released(held.entries(), seq![id]),
            ),
            Ok(buffer) => exists|installed: VM|
                #[trigger] content_installed(held, installed, id, buffer) && read_and_unpinned(
                    installed,
                    after,
                    r,
                    id,
                    ReadSpec::All,
                ),
        };
    let buffer = made->Ok_0;
    let installed = choose|installed: VM|
        #[trigger] content_installed(held, installed, id, buffer) && read_and_unpinned(
            installed,
            after,
            r,
            id,
            ReadSpec::All,
        );
    let done = choose|done: VM|
        #[trigger] slice_done(installed, done, r, id, ReadSpec::All) && with_entries(
            done,
            after,
            released(done.entries(), seq![id]),
        );
    lemma_bounded(held);
    match content {
        Value::Ref(given) => {
            assert(given != id);
            assert(held.heap.data(buffer) == before.heap.data(given));
        },
        _ => {
            assert(held.entries()[id.0 as int] == taken.entries()[id.0 as int]);
            assert(held.heap.data(buffer) is Str);
        },
    }
    assert(file_at(held, id) == Some(waiting));
    assert(buffer != id);
    assert(text_file(installed, id, text, file.position as int));
    lemma_text_slice(installed, done, r, id, text, file.position as int, ReadSpec::All);
    assert(text.skip(0) =~= text);
    lemma_released_data(done.entries(), seq![id]);
    let kept = file_at(done, id)->0.buffer->0;
    assert(after.entries()[id.0 as int].data == done.entries()[id.0 as int].data);
    assert(after.entries()[kept.0 as int].data == done.entries()[kept.0 as int].data);
    if let Value::Ref(given) = r->Ok_0 {
        assert(after.entries()[given.0 as int].data == done.entries()[given.0 as int].data);
    }
}

/// `read(n)` gives the next so many characters, or fewer at the end of the content,
/// and the file stands after them.
pub proof fn lemma_read_some(
    before: VM,
    mid: VM,
    after: VM,
    id: HeapId,
    content: Seq<char>,
    place: int,
    n: i64,
    attr: EitherStr,
    args: ArgValues,
    r: RunResult<CallResult>,
)
    requires
        before.wf(),
        text_file(before, id, content, place),
        0 <= place <= content.len() <= usize::MAX,
        args.just(1),
        args.pos@[0] == Value::Int(n),
        0 < n <= usize::MAX,
        attr.well_known() == Some(StaticStrings::Read),
        file_called(before, mid, after, id, attr, args, r),
        r is Ok,
    ensures
        ({
            let end = if place + n < content.len() {
                place + n
            } else {
                content.len() as int
            };
            &&& value_of(r) matches Some(v)
            &&& after.text_of(v) == Some(content.subrange(place, end))
            &&& text_file(after, id, content, end)
        }),
{
    let v = as_value(r)->0;
    lemma_text_slice(before, mid, v, id, content, place, ReadSpec::Size(n as usize));
    let end = if place + n < content.len() {
        place + n
    } else {
        content.len() as int
    };
    assert(content.skip(place).take(end - place) =~= content.subrange(place, end));
    lemma_consumed(args, mid, after);
    lemma_file_stays(mid, after, id, content, end, args);
}

/// `readline` gives the content up to the next line break, with it, or up to the end,
/// and the file stands after it.
pub proof fn lemma_readline(
    before: VM,
    mid: VM,
    after: VM,
    id: HeapId,
    content: Seq<char>,
    place: int,
    attr: EitherStr,
    args: ArgValues,
    r: RunResult<CallResult>,
)
    requires
        before.wf(),
        text_file(before, id, content, place),
        0 <= place < content.len() <= usize::MAX,
        args.just(0),
        attr.well_known() == Some(StaticStrings::Readline),
        file_called(before, mid, after, id, attr, args, r),
        r is Ok,
    ensures
        value_of(r) matches Some(v) && after.text_of(v) matches Some(line) && {
            let end = place + line.len();
            &&& 0 < line.len() && end <= content.len()
            &&& line == content.subrange(place, end)
            &&& forall|i: int| 0 <= i < line.len() - 1 ==> #[trigger] line[i] != '\n'
            &&& line.last() != '\n' ==> end == content.len()
            &&& text_file(after, id, content, end)
        },
{
    let v = as_value(r)->0;
    let tail = content.skip(place);
    lemma_line_len(tail, '\n');
    let n = line_len(tail, '\n');
    lemma_text_slice(before, mid, v, id, content, place, ReadSpec::Line);
    assert(tail.take(n) =~= content.subrange(place, place + n));
    let line = tail.take(n);
    assert forall|i: int| 0 <= i < line.len() - 1 implies #[trigger] line[i] != '\n' by {
        assert(line[i] == tail[i]);
    }
    lemma_consumed(args, mid, after);
    lemma_file_stays(mid, after, id, content, place + n, args);
}

proof fn lemma_line_pieces(s: Seq<char>)
    ensures
        forall|i: int| 0 <= i < nl_lines(s, '\n').len() ==> one_line(#[trigger] nl_lines(s, '\n')[i]),
        forall|i: int|
            0 <= i < nl_lines(s, '\n').len() - 1 ==> (#[trigger] nl_lines(s, '\n')[i]).last()
                == '\n',
    decreases s.len(),
{
    if s.len() > 0 {
        lemma_line_len(s, '\n');
        let n = line_len(s, '\n');
        lemma_line_pieces(s.skip(n));
        let rest = nl_lines(s.skip(n), '\n');
        let all = nl_lines(s, '\n');
        assert(all == seq![s.take(n)] + rest);
        assert(one_line(s.take(n))) by {
            assert forall|i: int| 0 <= i < s.take(n).len() - 1 implies #[trigger] s.take(n)[i]
                != '\n' by {
                assert(s.take(n)[i] == s[i]);
            }
        }
        assert forall|i: int| 0 <= i < all.len() implies one_line(#[trigger] all[i]) by {
            if i > 0 {
                assert(all[i] == rest[i - 1]);
            }
        }
        assert forall|i: int| 0 <= i < all.len() - 1 implies (#[trigger] all[i]).last() == '\n' by {
            if i > 0 {
                assert(all[i] == rest[i - 1]);
            } else {
                assert(n < s.len()) by {
                    if n == s.len() {
                        assert(s.skip(n) =~= Seq::empty());
                    }
                }
                assert(s.take(n).last() == s[n - 1]);
            }
        }
    }
}

/// Whether a text is not empty and holds a line break at most at its end.
pub open spec fn one_line(line: Seq<char>) -> bool {
    line.len() > 0 && forall|i: int| 0 <= i < line.len() - 1 ==> #[trigger] line[i] != '\n'
}

proof fn lemma_chained_parts(pieces: Seq<Seq<char>>)
    ensures
        chained(pieces) == concat_parts(pieces),
    decreases pieces.len(),
{
    if pieces.len() > 0 {
        crate::laws::str_texts::lemma_chained_front(pieces);
        lemma_chained_parts(pieces.skip(1));
    }
}

/// Whether a result is a list of strings with these texts.
pub open spec fn lists_lines(after: VM, r: RunResult<CallResult>, lines: Seq<Seq<char>>) -> bool {
    value_of(r) matches Some(v) && list_items(after, v) matches Some(vs) && texts_are(
        after,
        vs,
        lines,
    )
}

/// `readlines` gives the lines of the rest of the content: together they are the rest,
/// each is one line, and only the last may lack its line break.
pub proof fn lemma_readlines(
    before: VM,
    mid: VM,
    after: VM,
    id: HeapId,
    content: Seq<char>,
    place: int,
    attr: EitherStr,
    args: ArgValues,
    r: RunResult<CallResult>,
)
    requires
        before.wf(),
        text_file(before, id, content, place),
        0 <= place <= content.len() <= usize::MAX,
        args.just(0),
        attr.well_known() == Some(StaticStrings::Readlines),
        file_called(before, mid, after, id, attr, args, r),
        r is Ok,
    ensures
        text_file(after, id, content, content.len() as int),
        exists|lines: Seq<Seq<char>>|
            {
                &&& #[trigger] lists_lines(after, r, lines)
                &&& chained(lines) == content.skip(place)
                &&& forall|i: int| 0 <= i < lines.len() ==> one_line(#[trigger] lines[i])
                &&& forall|i: int| 0 <= i < lines.len() - 1 ==> (#[trigger] lines[i]).last() == '\n'
            },
{
    let v = as_value(r)->0;
    let tail = content.skip(place);
    let lines = nl_lines(tail, '\n');
    lemma_text_slice(before, mid, v, id, content, place, ReadSpec::Lines);
    lemma_line_pieces(tail);
    lemma_nl_lines_concat(tail, '\n');
    lemma_chained_parts(lines);
    lemma_file_stays(mid, after, id, content, content.len() as int, args);
    lemma_consumed(args, mid, after);
    let vs = list_items(mid, v->Ok_0)->0;
    lemma_list_stays(before, mid, after, v->Ok_0, vs, lines);
    assert(lists_lines(after, r, lines));
}

/// Texts of a list stay when references are dropped.
proof fn lemma_list_stays(
    before: VM,
    mid: VM,
    after: VM,
    v: Value,
    vs: Seq<Value>,
    all: Seq<Seq<char>>,
)
    requires
        crate::laws::results::keeps_data(mid, after),
        after.entries().len() == mid.entries().len(),
        list_items(mid, v) == Some(vs),
        texts_are(mid, vs, all),
        mid.ok(v),
        mid.all_ok(vs),
    ensures
        list_items(after, v) == Some(vs),
        texts_are(after, vs, all),
{
    assert(after.entries()[v->Ref_0.0 as int].data == mid.entries()[v->Ref_0.0 as int].data);
    assert forall|i: int| 0 <= i < vs.len() implies after.text_of(#[trigger] vs[i]) == Some(
        all[i],
    ) by {
        assert(mid.text_of(vs[i]) == Some(all[i]));
        assert(mid.ok(vs[i]));
        match vs[i] {
            Value::Ref(at) => {
                assert(after.entries()[at.0 as int].data == mid.entries()[at.0 as int].data);
            },
            _ => {},
        }
    }
}

/// `seek` in a file that is only written moves it without the host, and the file is at
/// its end where nothing is left after that place.
pub proof fn lemma_seek_written(
    before: VM,
    mid: VM,
    after: VM,
    id: HeapId,
    file: OpenFile,
    offset: i64,
    whence: i64,
    attr: EitherStr,
    args: ArgValues,
    r: RunResult<CallResult>,
)
    requires
        before.wf(),
        id.0 < before.entries().len(),
        file_at(before, id) == Some(file),
        !file.closed && !file.mode.can_read(),
        (args.just(1) && args.pos@[0] == Value::Int(offset) && whence == 0) || (args.just(2)
            && args.pos@[0] == Value::Int(offset) && args.pos@[1] == Value::Int(whence)),
        attr.well_known() == Some(StaticStrings::Seek),
        file_called(before, mid, after, id, attr, args, r),
        r is Ok,
    ensures
        ({
            let target = if whence == 0 {
                offset as int
            } else if whence == 1 {
                file.position + offset
            } else {
                file.file_length + offset
            };
            &&& 0 <= whence <= 2 && target >= 0
            &&& value_of(r) matches Some(Value::Int(n))
            &&& n == target
            &&& file_at(after, id) matches Some(next)
            &&& next.position == target
            &&& next.eof == (target >= file.file_length)
            &&& next.file_length == file.file_length && next.path == file.path
        }),
{
    lemma_consumed(args, mid, after);
    assert(after.entries()[id.0 as int].data == mid.entries()[id.0 as int].data);
}

/// `seek` moves a file to a place from the start, from where it stands or from the
/// end, and gives that place.
pub proof fn lemma_seek(
    before: VM,
    mid: VM,
    after: VM,
    id: HeapId,
    content: Seq<char>,
    place: int,
    offset: i64,
    whence: i64,
    attr: EitherStr,
    args: ArgValues,
    r: RunResult<CallResult>,
)
    requires
        before.wf(),
        text_file(before, id, content, place),
        0 <= place <= content.len() <= usize::MAX,
        (args.just(1) && args.pos@[0] == Value::Int(offset) && whence == 0) || (args.just(2)
            && args.pos@[0] == Value::Int(offset) && args.pos@[1] == Value::Int(whence)),
        attr.well_known() == Some(StaticStrings::Seek),
        file_called(before, mid, after, id, attr, args, r),
        r is Ok,
    ensures
        ({
            let target = if whence == 0 {
                offset as int
            } else if whence == 1 {
                place + offset
            } else {
                content.len() + offset
            };
            &&& 0 <= whence <= 2 && target >= 0
            &&& value_of(r) matches Some(Value::Int(n))
            &&& n == target
            &&& text_file(after, id, content, target)
        }),
{
    let v = as_value(r)->0;
    lemma_text_slice(before, mid, v, id, content, place, ReadSpec::Seek { offset, whence });
    let target = read_chunk(content, '\n', place, ReadSpec::Seek { offset, whence })->Ok_0.1;
    lemma_file_stays(mid, after, id, content, target, args);
}

/// `tell` says where a file stands, and after `close` it is an error, as everything
/// but `close` is.
pub proof fn lemma_tell(
    before: VM,
    mid: VM,
    after: VM,
    id: HeapId,
    attr: EitherStr,
    args: ArgValues,
    r: RunResult<CallResult>,
)
    requires
        file_at(before, id) is Some,
        args.just(0),
        attr.well_known() == Some(StaticStrings::Tell),
        file_called(before, mid, after, id, attr, args, r),
    ensures
        ({
            let file = file_at(before, id)->0;
            &&& file.closed ==> raises(
                r,
                (ExcType::ValueError, "I/O operation on closed file."@),
            )
            &&& !file.closed && file.position <= i64::MAX ==> value_of(r) == Some(
                Value::Int(file.position as i64),
            )
        }),
{
}

/// A file that is closed gives nothing more: reading, writing and seeking are errors.
pub proof fn lemma_closed_refuses(
    before: VM,
    mid: VM,
    after: VM,
    id: HeapId,
    attr: EitherStr,
    args: ArgValues,
    r: RunResult<CallResult>,
)
    requires
        file_at(before, id) matches Some(file) && file.closed,
        attr.well_known() matches Some(name) && (name is Read || name is Readline || name is Readlines
            || name is Seek || name is Write || name is Tell || name is Flush || name is Readable
            || name is Writable || name is Seekable),
        file_called(before, mid, after, id, attr, args, r),
    ensures
        r is Err,
        file_at(mid, id) == file_at(before, id),
{
}

/// `close` closes a file.
pub proof fn lemma_close(
    before: VM,
    mid: VM,
    after: VM,
    id: HeapId,
    attr: EitherStr,
    args: ArgValues,
    r: RunResult<CallResult>,
)
    requires
        id.0 < before.entries().len(),
        file_at(before, id) is Some,
        args.just(0),
        attr.well_known() == Some(StaticStrings::Close),
        file_called(before, mid, after, id, attr, args, r),
    ensures
        value_of(r) == Some(Value::PyNone),
        file_at(after, id) matches Some(file) && file.closed && file.position == file_at(
            before,
            id,
        )->0.position,
{
    let file = file_at(before, id)->0;
    let set = choose|set: VM|
        #[trigger] file_set(
            before,
            set,
            id,
            OpenFile { closed: true, buffer: None, buffer_meta: None, ..file },
        ) && crate::types::file_ops::with_entries(
            set,
            mid,
            match file.buffer {
                Some(buffer) => crate::release::released(set.entries(), seq![buffer]),
                None => set.entries(),
            },
        );
    match file.buffer {
        Some(buffer) => {
            crate::release::lemma_released_data(set.entries(), seq![buffer]);
        },
        None => {},
    }
    assert(mid.entries()[id.0 as int].data == set.entries()[id.0 as int].data);
    lemma_consumed(args, mid, after);
    assert(after.entries()[id.0 as int].data == mid.entries()[id.0 as int].data);
}

/// `write` hands the data to the host for the path of the file: the first time in place
/// of what is there unless the file was opened for appending, and then behind it. A
/// file that is not open for writing refuses.
pub proof fn lemma_write(
    before: VM,
    mid: VM,
    after: VM,
    id: HeapId,
    text: Seq<char>,
    attr: EitherStr,
    args: ArgValues,
    r: RunResult<CallResult>,
)
    requires
        file_at(before, id) matches Some(file) && !file.closed && !file.mode.binary(),
        args.just(1),
        before.text_of(args.pos@[0]) == Some(text),
        attr.well_known() == Some(StaticStrings::Write),
        file_called(before, mid, after, id, attr, args, r),
    ensures
        ({
            let file = file_at(before, id)->0;
            &&& !file.mode.can_write() ==> r is Err
            &&& file.mode.can_write() && (file.mode.appends() || file.first_write_done) ==> (
            r matches Ok(CallResult::OsCall(OsFunctionCall::AppendText { path, data })) && path@
                == file.path@ && data@ == text)
            &&& file.mode.can_write() && !file.mode.appends() && !file.first_write_done ==> (
            r matches Ok(CallResult::OsCall(OsFunctionCall::WriteText { path, data })) && path@
                == file.path@ && data@ == text)
        }),
{
}

/// `read()` of a file of bytes gives the rest of the content, and `read(n)` the next so
/// many bytes.
pub proof fn lemma_read_bytes(
    before: VM,
    mid: VM,
    after: VM,
    id: HeapId,
    content: Seq<u8>,
    place: int,
    n: Option<i64>,
    attr: EitherStr,
    args: ArgValues,
    r: RunResult<CallResult>,
)
    requires
        before.wf(),
        byte_file(before, id, content, place),
        0 <= place <= content.len() <= usize::MAX,
        match n {
            None => args.just(0),
            Some(n) => 0 < n <= usize::MAX && args.just(1) && args.pos@[0] == Value::Int(n),
        },
        attr.well_known() == Some(StaticStrings::Read),
        file_called(before, mid, after, id, attr, args, r),
        r is Ok,
    ensures
        ({
            let end = if n is Some && place + n->0 < content.len() {
                place + n->0
            } else {
                content.len() as int
            };
            &&& value_of(r) matches Some(v)
            &&& mid.bytes_of(v) == Some(content.subrange(place, end))
            &&& byte_file(mid, id, content, end)
        }),
{
    let v = as_value(r)->0;
    let spec = match n {
        None => ReadSpec::All,
        Some(n) => ReadSpec::Size(n as usize),
    };
    let file = file_at(before, id)->0;
    let buffer = file.buffer->0;
    let first = choose|m: VM|
        #[trigger] file_set(
            before,
            m,
            id,
            OpenFile { buffer_meta: meta_for(before, file), ..file },
        ) && byte_slice_done(m, mid, v, id, buffer, content, place, spec);
    assert(first.heap.data(buffer) == before.heap.data(buffer));
    let x = read_chunk(content, 10u8, place, spec)->Ok_0;
    let next = moved(
        file_at(first, id)->0,
        x.1,
        crate::types::file_buffer::smaller(x.1, content.len() as int),
        x.2,
        content.len() as int,
    );
    let m = choose|m: VM|
        crate::types::file_buffer::byte_chunk_result(first, m, v, buffer, x.0)
            && #[trigger] file_set(m, mid, id, next);
    lemma_bounded(m);
    let end = if n is Some && place + n->0 < content.len() {
        place + n->0
    } else {
        content.len() as int
    };
    assert(content.skip(place) =~= content.subrange(place, content.len() as int));
    assert(content.skip(place).take(end - place) =~= content.subrange(place, end));
    if x.0 is Whole {
        assert(content.subrange(place, end) =~= content);
        assert(mid.heap.data(buffer) == m.heap.data(buffer));
    } else {
        lemma_bytes_given(first, m, v, x.0->Part_0);
        lemma_unmoved(first, m, buffer, id);
        lemma_moved_text(m, mid, id, next, v->Ok_0);
        assert(mid.heap.data(buffer) == m.heap.data(buffer));
    }
}

/// A file gives its path, its mode and whether it is closed.
pub proof fn lemma_file_attributes(
    before: VM,
    after: VM,
    v: Value,
    file: OpenFile,
    attr: EitherStr,
    r: RunResult<CallResult>,
)
    requires
        before.wf(),
        before.data_of(v) == Some(HeapData::OpenFile(file)),
        crate::value_attr::attr_done(before, after, r, v, attr),
        r is Ok,
    ensures
        attr.well_known() == Some(StaticStrings::Name) ==> (value_of(r) matches Some(w)
            && after.text_of(w) == Some(file.path@)),
        attr.well_known() == Some(StaticStrings::Closed) ==> value_of(r) == Some(
            Value::Bool(file.closed),
        ),
        attr.well_known() == Some(StaticStrings::Mode) && file.mode is Read
            && !file.mode.binary() ==> (value_of(r) matches Some(w) && after.text_of(w) == Some(
            "r"@,
        )),
        attr.well_known() == Some(StaticStrings::Mode) && file.mode is Write
            && !file.mode.binary() ==> (value_of(r) matches Some(w) && after.text_of(w) == Some(
            "w"@,
        )),
        attr.well_known() == Some(StaticStrings::Mode) && file.mode is Append
            && !file.mode.binary() ==> (value_of(r) matches Some(w) && after.text_of(w) == Some(
            "a"@,
        )),
{
    if attr.well_known() == Some(StaticStrings::Name) {
        lemma_string_given(before, after, as_value(r)->0, file.path@);
    } else if attr.well_known() == Some(StaticStrings::Mode) {
        lemma_string_given(before, after, as_value(r)->0, file.mode.text());
    }
}

/// `write` of bytes hands them to the host for the path of a binary file, the first time
/// in place of what is there unless the file was opened for appending. Text is refused.
pub proof fn lemma_write_bytes(
    before: VM,
    mid: VM,
    after: VM,
    id: HeapId,
    attr: EitherStr,
    args: ArgValues,
    r: RunResult<CallResult>,
)
    requires
        file_at(before, id) matches Some(file) && !file.closed && file.mode.binary()
            && file.mode.can_write(),
        args.just(1),
        attr.well_known() == Some(StaticStrings::Write),
        file_called(before, mid, after, id, attr, args, r),
    ensures
        ({
            let file = file_at(before, id)->0;
            match before.bytes_of(args.pos@[0]) {
                None => r is Err,
                Some(data) => if file.mode.appends() || file.first_write_done {
                    r matches Ok(CallResult::OsCall(OsFunctionCall::AppendBytes { path, bytes }))
                        && path@ == file.path@ && bytes@ == data
                } else {
                    r matches Ok(CallResult::OsCall(OsFunctionCall::WriteBytes { path, bytes }))
                        && path@ == file.path@ && bytes@ == data
                },
            }
        }),
{
}

/// After the host wrote so much, a file stands so much further, and is at least as long
/// as that.
pub proof fn lemma_write_moves(vm: VM, id: HeapId, n: i64, file: OpenFile)
    requires
        file_at(vm, id) is Some,
        n >= 0,
        crate::types::file_store::after_write(vm, id, Value::Int(n)) == Ok::<
            OpenFile,
            crate::args::Raised,
        >(file),
    ensures
        file.position == file_at(vm, id)->0.position + n,
        file.file_length >= file.position,
        file.file_length == file_at(vm, id)->0.file_length || file.file_length == file.position,
        file.path == file_at(vm, id)->0.path,
        file.mode == file_at(vm, id)->0.mode,
{
}

/// A file that is not open for reading gives nothing.
pub proof fn lemma_unreadable(
    before: VM,
    mid: VM,
    after: VM,
    id: HeapId,
    attr: EitherStr,
    args: ArgValues,
    r: RunResult<CallResult>,
)
    requires
        file_at(before, id) matches Some(file) && !file.mode.can_read(),
        attr.well_known() matches Some(name) && (name is Read || name is Readline
            || name is Readlines),
        file_called(before, mid, after, id, attr, args, r),
    ensures
        r is Err,
{
}

/// A file that was not read yet asks the host for what is at its path, as text or as
/// bytes by its mode, and remembers what is to be read.
pub proof fn lemma_first_read_asks(
    before: VM,
    mid: VM,
    after: VM,
    id: HeapId,
    attr: EitherStr,
    args: ArgValues,
    r: RunResult<CallResult>,
)
    requires
        id.0 < before.entries().len(),
        file_at(before, id) matches Some(file) && !file.closed && file.mode.can_read()
            && file.buffer is None,
        args.just(0),
        attr.well_known() matches Some(name) && (name is Read || name is Readline
            || name is Readlines),
        file_called(before, mid, after, id, attr, args, r),
    ensures
        ({
            let file = file_at(before, id)->0;
            &&& !file.mode.binary() ==> (r matches Ok(
                CallResult::OsCallStoreBuffer { call: OsFunctionCall::ReadText(path), file_id },
            ) && path@ == file.path@ && file_id == id)
            &&& file.mode.binary() ==> (r matches Ok(
                CallResult::OsCallStoreBuffer { call: OsFunctionCall::ReadBytes(path), file_id },
            ) && path@ == file.path@ && file_id == id)
            &&& file_at(mid, id) matches Some(waiting) && waiting.pending_read == Some(
                match attr.well_known() {
                    Some(StaticStrings::Read) => ReadSpec::All,
                    Some(StaticStrings::Readline) => ReadSpec::Line,
                    _ => ReadSpec::Lines,
                },
            )
        }),
{
    let file = file_at(before, id)->0;
    let spec = match attr.well_known() {
        Some(StaticStrings::Read) => ReadSpec::All,
        Some(StaticStrings::Readline) => ReadSpec::Line,
        _ => ReadSpec::Lines,
    };
    let set = choose|set: VM|
        #[trigger] file_set(before, set, id, OpenFile { pending_read: Some(spec), ..file })
            && crate::types::file_ops::with_entries(
            set,
            mid,
            crate::heap::with_ref(set.entries(), Value::Ref(id)),
        );
    assert(mid.entries()[id.0 as int].data == set.entries()[id.0 as int].data);
}

} // verus!
