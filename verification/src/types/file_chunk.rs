//! Which part of a file's content a read gives.

use vstd::prelude::*;

use crate::args::{raises, Raised};
use crate::decimal::{int_digits, push_int};
use crate::exception::{ExcType, RunError, RunResult};
use crate::text::{chars_of, push_str, string_of, texts};
use crate::types::bytes::sub_bytes;
use crate::types::file::ReadSpec;
use crate::types::str_args::int_is;
use crate::types::str_format::{utf8_size, width_of};
use crate::utf8::{
    byte_offset, lemma_offset_step, lemma_offset_within, lemma_utf8_size, nth_char_byte_offset,
    tail_at,
};
use crate::value_int::{overflow_c_ssize_t, ssize_overflow};

verus! {

/// What a read gives: the whole content, a part of it, its lines, or a place.
pub enum Chunk<T> {
    Whole,
    Part(Seq<T>),
    Parts(Seq<Seq<T>>),
    Place(int),
}

/// The length of the first line, with its line break.
pub open spec fn line_len<T>(s: Seq<T>, newline: T) -> int
    decreases s.len(),
{
    if s.len() == 0 {
        0
    } else if s[0] == newline {
        1
    } else {
        1 + line_len(s.skip(1), newline)
    }
}

/// A line is within the content, and ends at its first line break if it has one.
pub proof fn lemma_line_len<T>(s: Seq<T>, newline: T)
    ensures
        0 <= line_len(s, newline) <= s.len(),
        s.len() > 0 ==> line_len(s, newline) > 0,
        forall|i: int| 0 <= i < line_len(s, newline) - 1 ==> #[trigger] s[i] != newline,
        line_len(s, newline) < s.len() ==> s[line_len(s, newline) - 1] == newline,
        s.len() > 0 && s[line_len(s, newline) - 1] != newline ==> line_len(s, newline) == s.len(),
    decreases s.len(),
{
    if s.len() > 0 && s[0] != newline {
        lemma_line_len(s.skip(1), newline);
        let n = line_len(s.skip(1), newline);
        assert forall|i: int| 0 <= i < line_len(s, newline) - 1 implies #[trigger] s[i]
            != newline by {
            if i > 0 {
                assert(s.skip(1)[i - 1] == s[i]);
            }
        }
        if n > 0 {
            assert(s.skip(1)[n - 1] == s[n]);
        }
    }
}

/// The lines, each with its line break.
pub open spec fn nl_lines<T>(s: Seq<T>, newline: T) -> Seq<Seq<T>>
    decreases s.len(),
{
    let n = line_len(s, newline);
    proof {
        lemma_line_len(s, newline);
    }
    if s.len() == 0 {
        Seq::empty()
    } else {
        seq![s.take(n)] + nl_lines(s.skip(n), newline)
    }
}

/// The pieces put together.
pub open spec fn concat_parts<T>(pieces: Seq<Seq<T>>) -> Seq<T>
    decreases pieces.len(),
{
    if pieces.len() == 0 {
        Seq::empty()
    } else {
        pieces[0] + concat_parts(pieces.skip(1))
    }
}

/// The lines put together are the content.
pub proof fn lemma_nl_lines_concat<T>(s: Seq<T>, newline: T)
    ensures
        concat_parts(nl_lines(s, newline)) == s,
    decreases s.len(),
{
    lemma_line_len(s, newline);
    if s.len() > 0 {
        let n = line_len(s, newline);
        lemma_nl_lines_concat(s.skip(n), newline);
        assert(nl_lines(s, newline).skip(1) =~= nl_lines(s.skip(n), newline));
        assert(s.take(n) + s.skip(n) =~= s);
    } else {
        assert(s =~= Seq::empty());
    }
}

/// The error for a kind of seek that does not exist.
pub open spec fn bad_whence(whence: int) -> Raised {
    (ExcType::ValueError, "whence value "@ + int_digits(whence) + " unsupported"@)
}

/// Where a seek goes: from the start, from the position, or from the end.
pub open spec fn seek_target(offset: int, whence: int, position: int, length: int) -> Result<
    int,
    Raised,
> {
    if whence != 0 && whence != 1 && whence != 2 {
        Err(bad_whence(whence))
    } else {
        let target = if whence == 0 {
            offset
        } else if whence == 1 {
            position + offset
        } else {
            length + offset
        };
        if target > i64::MAX || target < i64::MIN {
            Err(ssize_overflow())
        } else if target < 0 {
            Err((ExcType::OSError, "[Errno 22] Invalid argument"@))
        } else {
            Ok(target)
        }
    }
}

/// Where a seek goes.
pub fn resolve_seek_target(offset: i64, whence: i64, position: i64, buffer_len: i64) -> (r:
    RunResult<i64>)
    ensures
        int_is(r, seek_target(offset as int, whence as int, position as int, buffer_len as int)),
        r matches Ok(t) ==> t >= 0,
{
    let target: i128 = if whence == 0 {
        offset as i128
    } else if whence == 1 {
        position as i128 + offset as i128
    } else if whence == 2 {
        buffer_len as i128 + offset as i128
    } else {
        let mut out = chars_of("whence value ");
        push_int(&mut out, whence);
        push_str(&mut out, " unsupported");
        assert(out@ =~= bad_whence(whence as int).1);
        return Err(RunError::new_msg(ExcType::ValueError, string_of(&out)));
    };
    if target > i64::MAX as i128 || target < i64::MIN as i128 {
        return Err(overflow_c_ssize_t());
    }
    if target < 0 {
        return Err(RunError::new(ExcType::OSError, "[Errno 22] Invalid argument"));
    }
    Ok(target as i64)
}

/// Where a seek goes in a content that is loaded; lengths have to fit into
/// machine integers.
pub open spec fn seek_place(offset: int, whence: int, position: int, length: int) -> Result<
    int,
    Raised,
> {
    if position > i64::MAX || length > i64::MAX {
        Err(ssize_overflow())
    } else {
        match seek_target(offset, whence, position, length) {
            Err(e) => Err(e),
            Ok(t) => if t > usize::MAX {
                Err(ssize_overflow())
            } else {
                Ok(t)
            },
        }
    }
}

/// Where a seek goes in a content that is loaded.
pub fn resolve_seek_target_usize(offset: i64, whence: i64, position: usize, buffer_len: usize) -> (r:
    RunResult<i64>)
    ensures
        int_is(r, seek_place(offset as int, whence as int, position as int, buffer_len as int)),
        r matches Ok(t) ==> 0 <= t <= usize::MAX,
{
    if position as u128 > i64::MAX as u128 || buffer_len as u128 > i64::MAX as u128 {
        return Err(overflow_c_ssize_t());
    }
    match resolve_seek_target(offset, whence, position as i64, buffer_len as i64) {
        Err(e) => Err(e),
        Ok(t) => if t as u64 > usize::MAX as u64 {
            Err(overflow_c_ssize_t())
        } else {
            Ok(t)
        },
    }
}

/// What a read of a content gives, where the position goes, and whether that is
/// at or past the end. A position past the end stays where it is.
pub open spec fn read_chunk<T>(
    content: Seq<T>,
    newline: T,
    position: int,
    spec: ReadSpec,
) -> Result<(Chunk<T>, int, bool), Raised> {
    let total = content.len() as int;
    let start = if position < total {
        position
    } else {
        total
    };
    let end = if position > total {
        position
    } else {
        total
    };
    let tail = content.skip(start);
    match spec {
        ReadSpec::All => Ok(
            (
                if start == 0 {
                    Chunk::Whole
                } else {
                    Chunk::Part(tail)
                },
                end,
                true,
            ),
        ),
        ReadSpec::Size(n) => {
            let take = if n < tail.len() {
                n as int
            } else {
                tail.len() as int
            };
            Ok((Chunk::Part(tail.take(take)), position + take, position + take >= total))
        },
        ReadSpec::Line => {
            let take = line_len(tail, newline);
            Ok((Chunk::Part(tail.take(take)), position + take, position + take >= total))
        },
        ReadSpec::Lines => Ok((Chunk::Parts(nl_lines(tail, newline)), end, true)),
        ReadSpec::Seek { offset, whence } => match seek_place(
            offset as int,
            whence as int,
            position,
            total,
        ) {
            Err(e) => Err(e),
            Ok(t) => Ok((Chunk::Place(t), t, t >= total)),
        },
    }
}

/// Two sized reads in a row give what one read of both sizes gives.
pub proof fn lemma_reads_add_up<T>(content: Seq<T>, newline: T, position: int, n: usize, m: usize)
    requires
        0 <= position,
        n + m <= usize::MAX,
    ensures
        ({
            let first = read_chunk(content, newline, position, ReadSpec::Size(n))->Ok_0;
            let second = read_chunk(content, newline, first.1, ReadSpec::Size(m))->Ok_0;
            let both = read_chunk(
                content,
                newline,
                position,
                ReadSpec::Size((n + m) as usize),
            )->Ok_0;
            &&& first.0->Part_0 + second.0->Part_0 == both.0->Part_0
            &&& second.1 == both.1
            &&& second.2 == both.2
        }),
{
    let first = read_chunk(content, newline, position, ReadSpec::Size(n))->Ok_0;
    let second = read_chunk(content, newline, first.1, ReadSpec::Size(m))->Ok_0;
    let both = read_chunk(content, newline, position, ReadSpec::Size((n + m) as usize))->Ok_0;
    assert(first.0->Part_0 + second.0->Part_0 =~= both.0->Part_0);
}

/// The content that a read gives in one piece.
pub open spec fn given<T>(chunk: Chunk<T>, content: Seq<T>) -> Seq<T> {
    match chunk {
        Chunk::Whole => content,
        Chunk::Part(s) => s,
        Chunk::Parts(lines) => concat_parts(lines),
        Chunk::Place(_) => Seq::empty(),
    }
}

/// Seeking to a place within the content and reading all from there gives the
/// content from that place on.
pub proof fn lemma_seek_then_read<T>(content: Seq<T>, newline: T, position: int, place: i64)
    requires
        0 <= position <= i64::MAX,
        content.len() <= i64::MAX,
        0 <= place <= content.len(),
        place <= usize::MAX,
    ensures
        ({
            let moved = read_chunk(
                content,
                newline,
                position,
                ReadSpec::Seek { offset: place, whence: 0 },
            )->Ok_0;
            let rest = read_chunk(content, newline, moved.1, ReadSpec::All)->Ok_0;
            &&& moved.0->Place_0 == place
            &&& moved.1 == place
            &&& given(rest.0, content) == content.skip(place as int)
        }),
{
    assert(content.skip(0) =~= content);
}

/// A place that `tell` gave is the one that seeking to it goes to, wherever the
/// file is by that time.
pub proof fn lemma_tell_then_seek<T>(content: Seq<T>, newline: T, told: i64, position: int)
    requires
        0 <= told,
        told <= usize::MAX,
        0 <= position <= i64::MAX,
        content.len() <= i64::MAX,
    ensures
        read_chunk(content, newline, position, ReadSpec::Seek { offset: told, whence: 0 }) == Ok::<
            (Chunk<T>, int, bool),
            Raised,
        >((Chunk::Place(told as int), told as int, told >= content.len())),
{
}

/// Reading the rest at once, or as lines, gives the same content.
pub proof fn lemma_lines_are_the_rest<T>(content: Seq<T>, newline: T, position: int)
    requires
        0 <= position,
    ensures
        ({
            let all = read_chunk(content, newline, position, ReadSpec::All)->Ok_0;
            let lines = read_chunk(content, newline, position, ReadSpec::Lines)->Ok_0;
            &&& given(lines.0, content) == given(all.0, content)
            &&& lines.1 == all.1
        }),
{
    let start = if position < content.len() {
        position
    } else {
        content.len() as int
    };
    lemma_nl_lines_concat(content.skip(start), newline);
    assert(content.skip(0) =~= content);
}

/// A read at or past the end gives nothing and leaves the position where it is.
pub proof fn lemma_read_past_end<T>(content: Seq<T>, newline: T, position: int, spec: ReadSpec)
    requires
        position >= content.len(),
        !(spec is Seek),
    ensures
        ({
            let r = read_chunk(content, newline, position, spec)->Ok_0;
            &&& r.1 == position
            &&& r.2
            &&& match r.0 {
                Chunk::Whole => content.len() == 0,
                Chunk::Part(s) => s.len() == 0,
                Chunk::Parts(lines) => lines.len() == 0,
                Chunk::Place(_) => false,
            }
        }),
{
}

/// What a read of a text gives.
#[derive(Debug)]
pub enum TextChunk {
    Whole,
    Part(Vec<char>),
    Parts(Vec<Vec<char>>),
    Place(i64),
}

/// What a read of bytes gives.
#[derive(Debug)]
pub enum ByteChunk {
    Whole,
    Part(Vec<u8>),
    Parts(Vec<Vec<u8>>),
    Place(i64),
}

/// The contents of byte vectors.
pub open spec fn byte_texts(v: Seq<Vec<u8>>) -> Seq<Seq<u8>> {
    v.map_values(|x: Vec<u8>| x@)
}

/// Whether a chunk of text is what is said of it.
pub open spec fn text_chunk_is(c: TextChunk, e: Chunk<char>) -> bool {
    match (c, e) {
        (TextChunk::Whole, Chunk::Whole) => true,
        (TextChunk::Part(a), Chunk::Part(b)) => a@ == b,
        (TextChunk::Parts(a), Chunk::Parts(b)) => texts(a@) == b,
        (TextChunk::Place(a), Chunk::Place(b)) => a == b,
        _ => false,
    }
}

/// Whether a chunk of bytes is what is said of it.
pub open spec fn byte_chunk_is(c: ByteChunk, e: Chunk<u8>) -> bool {
    match (c, e) {
        (ByteChunk::Whole, Chunk::Whole) => true,
        (ByteChunk::Part(a), Chunk::Part(b)) => a@ == b,
        (ByteChunk::Parts(a), Chunk::Parts(b)) => byte_texts(a@) == b,
        (ByteChunk::Place(a), Chunk::Place(b)) => a == b,
        _ => false,
    }
}

/// The first `n` characters, or all of them.
fn take_chars(s: &str, n: usize) -> (r: Vec<char>)
    ensures
        r@ == s@.take(if n < s@.len() {
            n as int
        } else {
            s@.len() as int
        }),
{
    let mut out: Vec<char> = Vec::new();
    for c in it: s.chars()
        invariant
            it.seq() == s@,
            out@ == s@.take(it.index() as int),
            out@.len() <= n,
    {
        if out.len() == n {
            return out;
        }
        out.push(c);
        assert(out@ =~= s@.take(it.index() + 1));
    }
    assert(s@.take(s@.len() as int) =~= s@);
    out
}

/// A line is known by its characters.
proof fn lemma_line_unique<T>(s: Seq<T>, newline: T, n: int)
    requires
        0 <= n <= s.len(),
        forall|i: int| 0 <= i < n - 1 ==> #[trigger] s[i] != newline,
        n < s.len() ==> n > 0 && s[n - 1] == newline,
        n == s.len() && n > 0 ==> true,
    ensures
        line_len(s, newline) == n,
{
    lemma_line_len(s, newline);
    let k = line_len(s, newline);
    if k < n {
        assert(s[k - 1] == newline);
    }
    if n < k {
        assert(s[n - 1] == newline);
    }
}

/// The first line, with its line break.
fn take_line(s: &str) -> (r: Vec<char>)
    ensures
        r@ == s@.take(line_len(s@, '\n')),
{
    let mut out: Vec<char> = Vec::new();
    for c in it: s.chars()
        invariant
            it.seq() == s@,
            out@ == s@.take(it.index() as int),
            forall|i: int| 0 <= i < it.index() ==> #[trigger] s@[i] != '\n',
    {
        out.push(c);
        assert(out@ =~= s@.take(it.index() + 1));
        if c == '\n' {
            proof {
                lemma_line_unique(s@, '\n', it.index() + 1);
            }
            return out;
        }
    }
    proof {
        lemma_line_unique(s@, '\n', s@.len() as int);
        assert(s@.take(s@.len() as int) =~= s@);
    }
    out
}

/// The lines of a text, each with its line break.
fn split_nl(chars: &[char]) -> (r: Vec<Vec<char>>)
    ensures
        texts(r@) == nl_lines(chars@, '\n'),
{
    let mut lines: Vec<Vec<char>> = Vec::new();
    let mut start: usize = 0;
    proof {
        assert(texts(lines@) =~= Seq::empty());
        assert(chars@.skip(0) =~= chars@);
        assert(Seq::<Seq<char>>::empty() + nl_lines(chars@, '\n') =~= nl_lines(chars@, '\n'));
    }
    while start < chars.len()
        invariant
            start <= chars@.len(),
            texts(lines@) + nl_lines(chars@.skip(start as int), '\n') == nl_lines(chars@, '\n'),
        decreases chars@.len() - start,
    {
        let ghost rest = chars@.skip(start as int);
        let mut end: usize = start;
        while end < chars.len() && chars[end] != '\n'
            invariant
                start <= end <= chars@.len(),
                forall|i: int| start <= i < end ==> #[trigger] chars@[i] != '\n',
            decreases chars@.len() - end,
        {
            end = end + 1;
        }
        if end < chars.len() {
            end = end + 1;
        }
        proof {
            assert forall|i: int| 0 <= i < end - start - 1 implies #[trigger] rest[i] != '\n' by {
                assert(rest[i] == chars@[start + i]);
            }
            lemma_line_unique(rest, '\n', end - start);
        }
        let line = crate::text::sub_chars(chars, start, end);
        let ghost before = texts(lines@);
        lines.push(line);
        proof {
            assert(line@ =~= rest.take(end - start));
            assert(rest.skip(end - start) =~= chars@.skip(end as int));
            assert(texts(lines@) =~= before.push(line@));
            let more = nl_lines(chars@.skip(end as int), '\n');
            assert(before + (seq![line@] + more) =~= before.push(line@) + more);
        }
        start = end;
    }
    proof {
        assert(texts(lines@) + Seq::<Seq<char>>::empty() =~= texts(lines@));
    }
    lines
}

/// The bytes that characters take.
fn chars_byte_len(chars: &[char]) -> (r: usize)
    requires
        utf8_size(chars@) <= usize::MAX,
    ensures
        r == utf8_size(chars@),
{
    let mut total: usize = 0;
    assert(chars@.take(0) =~= Seq::empty());
    for i in 0..chars.len()
        invariant
            utf8_size(chars@) <= usize::MAX,
            total == utf8_size(chars@.take(i as int)),
    {
        proof {
            assert(chars@.take(i + 1).drop_last() =~= chars@.take(i as int));
            crate::types::str_format::lemma_utf8_size(chars@, i + 1);
        }
        total = total + width_of(chars[i]) as usize;
    }
    assert(chars@.take(chars@.len() as int) =~= chars@);
    total
}

/// Computes what a read of a text gives, from the character position and the
/// byte offset that belongs to it. The result holds the new position, its byte
/// offset, and whether it is at or past the end.
pub fn slice_text(
    buffer: &str,
    position: usize,
    byte_position: usize,
    buffer_total: usize,
    spec: ReadSpec,
) -> (r: RunResult<(TextChunk, usize, usize, bool)>)
    requires
        byte_position == byte_offset(buffer@, position as int),
        buffer_total == buffer@.len(),
    ensures
        match read_chunk(buffer@, '\n', position as int, spec) {
            Err(e) => raises(r, e),
            Ok((chunk, place, end)) => r matches Ok((c, new_position, new_byte_position, eof))
                && text_chunk_is(c, chunk) && new_position == place && eof == end
                && new_byte_position == byte_offset(buffer@, place),
        },
{
    let ghost start = if position < buffer_total {
        position as int
    } else {
        buffer_total as int
    };
    let tail = tail_at(buffer, Ghost(start), byte_position);
    let buffer_bytes: usize = crate::text::byte_len(buffer);
    let end: usize = if position > buffer_total {
        position
    } else {
        buffer_total
    };
    proof {
        lemma_offset_within(buffer@, position as int);
        lemma_offset_within(buffer@, end as int);
        lemma_offset_within(buffer@, 0);
    }
    match spec {
        ReadSpec::All => {
            let chunk = if byte_position == 0 {
                TextChunk::Whole
            } else {
                TextChunk::Part(chars_of(tail))
            };
            Ok((chunk, end, buffer_bytes, true))
        },
        ReadSpec::Size(n) => {
            let part = take_chars(tail, n);
            let new_position: usize = position + part.len();
            let new_byte_position: usize = text_advance(
                buffer,
                Ghost(start),
                position,
                byte_position,
                &part,
            );
            Ok((TextChunk::Part(part), new_position, new_byte_position, new_position >= buffer_total))
        },
        ReadSpec::Line => {
            let part = take_line(tail);
            proof {
                lemma_line_len(tail@, '\n');
            }
            let new_position: usize = position + part.len();
            let new_byte_position: usize = text_advance(
                buffer,
                Ghost(start),
                position,
                byte_position,
                &part,
            );
            Ok((TextChunk::Part(part), new_position, new_byte_position, new_position >= buffer_total))
        },
        ReadSpec::Lines => Ok((TextChunk::Parts(split_nl(&chars_of(tail))), end, buffer_bytes, true)),
        ReadSpec::Seek { offset, whence } => match resolve_seek_target_usize(
            offset,
            whence,
            position,
            buffer_total,
        ) {
            Err(e) => Err(e),
            Ok(target) => {
                let place: usize = target as usize;
                let new_byte_position: usize = nth_char_byte_offset(buffer, place);
                Ok((TextChunk::Place(target), place, new_byte_position, place >= buffer_total))
            },
        },
    }
}

/// The byte offset after reading a part from the position on.
fn text_advance(
    buffer: &str,
    start: Ghost<int>,
    position: usize,
    byte_position: usize,
    part: &[char],
) -> (r: usize)
    requires
        byte_position == byte_offset(buffer@, position as int),
        start@ == if position < buffer@.len() {
            position as int
        } else {
            buffer@.len() as int
        },
        start@ + part@.len() <= buffer@.len(),
        part@ == buffer@.skip(start@).take(part@.len() as int),
    ensures
        r == byte_offset(buffer@, position + part@.len()),
{
    let total: usize = crate::text::byte_len(buffer);
    proof {
        lemma_offset_step(buffer@, start@, part@.len() as int);
        lemma_offset_within(buffer@, start@ + part@.len());
        lemma_utf8_size(part@);
        assert(buffer@.subrange(start@, start@ + part@.len()) =~= part@);
        if position >= buffer@.len() {
            assert(part@.len() == 0);
        }
    }
    byte_position + chars_byte_len(part)
}

/// The length of the first line of bytes, with its line break.
fn byte_line(bytes: &[u8], start: usize) -> (r: usize)
    requires
        start <= bytes@.len(),
    ensures
        r == start + line_len(bytes@.skip(start as int), 10u8),
        start <= r <= bytes@.len(),
{
    let ghost rest = bytes@.skip(start as int);
    let mut end: usize = start;
    while end < bytes.len() && bytes[end] != 10
        invariant
            start <= end <= bytes@.len(),
            forall|i: int| start <= i < end ==> #[trigger] bytes@[i] != 10,
        decreases bytes@.len() - end,
    {
        end = end + 1;
    }
    if end < bytes.len() {
        end = end + 1;
    }
    proof {
        assert forall|i: int| 0 <= i < end - start - 1 implies #[trigger] rest[i] != 10u8 by {
            assert(rest[i] == bytes@[start + i]);
        }
        lemma_line_unique(rest, 10u8, end - start);
    }
    end
}

/// The lines of bytes, each with its line break.
fn split_byte_lines(bytes: &[u8], from: usize) -> (r: Vec<Vec<u8>>)
    requires
        from <= bytes@.len(),
    ensures
        byte_texts(r@) == nl_lines(bytes@.skip(from as int), 10u8),
{
    let mut lines: Vec<Vec<u8>> = Vec::new();
    let mut start: usize = from;
    let ghost whole = nl_lines(bytes@.skip(from as int), 10u8);
    proof {
        assert(byte_texts(lines@) =~= Seq::empty());
        assert(Seq::<Seq<u8>>::empty() + whole =~= whole);
    }
    while start < bytes.len()
        invariant
            start <= bytes@.len(),
            byte_texts(lines@) + nl_lines(bytes@.skip(start as int), 10u8) == whole,
        decreases bytes@.len() - start,
    {
        let ghost rest = bytes@.skip(start as int);
        proof {
            lemma_line_len(rest, 10u8);
        }
        let end: usize = byte_line(bytes, start);
        let line = sub_bytes(bytes, start, end);
        let ghost before = byte_texts(lines@);
        lines.push(line);
        proof {
            assert(line@ =~= rest.take(end - start));
            assert(rest.skip(end - start) =~= bytes@.skip(end as int));
            assert(byte_texts(lines@) =~= before.push(line@));
            let more = nl_lines(bytes@.skip(end as int), 10u8);
            assert(before + (seq![line@] + more) =~= before.push(line@) + more);
        }
        start = end;
    }
    proof {
        assert(byte_texts(lines@) + Seq::<Seq<u8>>::empty() =~= byte_texts(lines@));
    }
    lines
}

/// Computes what a read of bytes gives. The result holds the new position and
/// whether it is at or past the end.
pub fn slice_binary(buffer: &[u8], position: usize, spec: ReadSpec) -> (r: RunResult<
    (ByteChunk, usize, bool),
>)
    ensures
        match read_chunk(buffer@, 10u8, position as int, spec) {
            Err(e) => raises(r, e),
            Ok((chunk, place, end)) => r matches Ok((c, new_position, eof)) && byte_chunk_is(c, chunk)
                && new_position == place && eof == end,
        },
{
    let total: usize = buffer.len();
    let start: usize = if position < total {
        position
    } else {
        total
    };
    let end: usize = if position > total {
        position
    } else {
        total
    };
    let ghost tail = buffer@.skip(start as int);
    match spec {
        ReadSpec::All => {
            let chunk = if start == 0 {
                ByteChunk::Whole
            } else {
                let part = sub_bytes(buffer, start, total);
                assert(part@ =~= tail);
                ByteChunk::Part(part)
            };
            Ok((chunk, end, true))
        },
        ReadSpec::Size(n) => {
            let take: usize = if n < total - start {
                n
            } else {
                total - start
            };
            let part = sub_bytes(buffer, start, start + take);
            assert(part@ =~= tail.take(take as int));
            let new_position: usize = position + take;
            Ok((ByteChunk::Part(part), new_position, new_position >= total))
        },
        ReadSpec::Line => {
            let stop: usize = byte_line(buffer, start);
            let part = sub_bytes(buffer, start, stop);
            assert(part@ =~= tail.take(stop - start));
            let new_position: usize = position + (stop - start);
            Ok((ByteChunk::Part(part), new_position, new_position >= total))
        },
        ReadSpec::Lines => Ok((ByteChunk::Parts(split_byte_lines(buffer, start)), end, true)),
        ReadSpec::Seek { offset, whence } => match resolve_seek_target_usize(
            offset,
            whence,
            position,
            total,
        ) {
            Err(e) => Err(e),
            Ok(target) => {
                let place: usize = target as usize;
                Ok((ByteChunk::Place(target), place, place >= total))
            },
        },
    }
}

} // verus!
