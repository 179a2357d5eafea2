//! Byte offsets of characters in UTF-8.

use vstd::prelude::*;
use vstd::utf8::{
    char_is_scalar, encode_scalar, encode_utf8, encode_utf8_decode_utf8, encode_utf8_first_scalar,
    encode_utf8_valid_utf8, is_char_boundary, pop_first_scalar,
};

use crate::text::{byte_len, chars_of};
use crate::types::str_format::{utf8_size, utf8_width, width_of};

verus! {

/// The byte offset of character `k`; that of a place past the end is the length.
pub open spec fn byte_offset(s: Seq<char>, k: int) -> nat {
    encode_utf8(s.take(if k < s.len() {
        k
    } else {
        s.len() as int
    })).len()
}

/// The encoding of two texts put together.
pub proof fn lemma_encode_concat(a: Seq<char>, b: Seq<char>)
    ensures
        encode_utf8(a + b) == encode_utf8(a) + encode_utf8(b),
    decreases a.len(),
{
    if a.len() == 0 {
        assert(a + b =~= b);
        assert(encode_utf8(a) + encode_utf8(b) =~= encode_utf8(b));
    } else {
        lemma_encode_concat(a.drop_first(), b);
        assert((a + b).drop_first() =~= a.drop_first() + b);
        assert(encode_utf8(a + b) =~= encode_utf8(a) + encode_utf8(b));
    }
}

/// Texts with the same encoding are the same.
pub proof fn lemma_encode_injective(a: Seq<char>, b: Seq<char>)
    requires
        encode_utf8(a) == encode_utf8(b),
    ensures
        a == b,
{
    encode_utf8_decode_utf8(a);
    encode_utf8_decode_utf8(b);
}

/// The end of a text is a character boundary in whatever starts with it.
pub proof fn lemma_boundary(a: Seq<char>, b: Seq<char>)
    ensures
        is_char_boundary(encode_utf8(a + b), encode_utf8(a).len() as int),
    decreases a.len(),
{
    encode_utf8_valid_utf8(a + b);
    if a.len() > 0 {
        let whole = a + b;
        let rest = a.drop_first() + b;
        lemma_boundary(a.drop_first(), b);
        encode_utf8_first_scalar(whole);
        encode_utf8_valid_utf8(rest);
        assert(whole.drop_first() =~= rest);
        assert(pop_first_scalar(encode_utf8(whole)) =~= encode_utf8(rest));
        lemma_encode_concat(a, b);
        assert(encode_utf8(a).len() == encode_scalar(a[0] as u32).len() + encode_utf8(
            a.drop_first(),
        ).len());
    }
}

/// A character takes as many bytes as its width says.
pub proof fn lemma_scalar_width(c: char)
    ensures
        encode_scalar(c as u32).len() == utf8_width(c),
{
    char_is_scalar(c);
}

/// A single character as a text.
pub proof fn lemma_encode_one(c: char)
    ensures
        encode_utf8(seq![c]).len() == utf8_width(c),
{
    reveal_with_fuel(encode_utf8, 2);
    lemma_scalar_width(c);
    assert(seq![c].drop_first() =~= Seq::<char>::empty());
}

/// A text takes as many bytes as its characters do.
pub proof fn lemma_utf8_size(s: Seq<char>)
    ensures
        encode_utf8(s).len() == utf8_size(s),
    decreases s.len(),
{
    if s.len() > 0 {
        lemma_utf8_size(s.drop_last());
        lemma_encode_concat(s.drop_last(), seq![s.last()]);
        assert(s.drop_last() + seq![s.last()] =~= s);
        lemma_encode_one(s.last());
    }
}

/// Offsets do not decrease, and are within the text.
pub proof fn lemma_offset_within(s: Seq<char>, k: int)
    requires
        0 <= k,
    ensures
        byte_offset(s, k) <= encode_utf8(s).len(),
        k >= s.len() ==> byte_offset(s, k) == encode_utf8(s).len(),
        0 < k && 0 < s.len() ==> byte_offset(s, k) > 0,
        s.len() == 0 ==> byte_offset(s, k) == 0,
{
    let n = if k < s.len() {
        k
    } else {
        s.len() as int
    };
    lemma_encode_concat(s.take(n), s.skip(n));
    assert(s.take(n) + s.skip(n) =~= s);
    if k >= s.len() {
        assert(s.take(n) =~= s);
    }
    if n > 0 {
        lemma_scalar_width(s.take(n)[0]);
        assert(encode_utf8(s.take(n)).len() == encode_scalar(s.take(n)[0] as u32).len()
            + encode_utf8(s.take(n).drop_first()).len());
    }
}

/// The offset of a later character: the one of an earlier one, and what is between.
pub proof fn lemma_offset_step(s: Seq<char>, k: int, n: int)
    requires
        0 <= k,
        0 <= n,
        k + n <= s.len(),
    ensures
        byte_offset(s, k + n) == byte_offset(s, k) + encode_utf8(s.subrange(k, k + n)).len(),
{
    assert(s.take(k + n) =~= s.take(k) + s.subrange(k, k + n));
    lemma_encode_concat(s.take(k), s.subrange(k, k + n));
}

/// The byte offset of character `nth`.
pub fn nth_char_byte_offset(s: &str, nth: usize) -> (r: usize)
    ensures
        r == byte_offset(s@, nth as int),
        r <= encode_utf8(s@).len(),
{
    let chars = chars_of(s);
    let total: usize = byte_len(s);
    let stop: usize = if nth < chars.len() {
        nth
    } else {
        chars.len()
    };
    let mut bytes: usize = 0;
    assert(s@.take(0) =~= Seq::empty());
    for i in 0..stop
        invariant
            chars@ == s@,
            stop <= chars@.len(),
            total == encode_utf8(s@).len(),
            bytes == byte_offset(s@, i as int),
    {
        let c = chars[i];
        proof {
            lemma_offset_step(s@, i as int, 1);
            lemma_encode_one(c);
            assert(s@.subrange(i as int, i + 1) =~= seq![c]);
            lemma_offset_within(s@, i + 1);
        }
        bytes = bytes + width_of(c) as usize;
    }
    proof {
        lemma_offset_within(s@, nth as int);
        if nth >= s@.len() {
            assert(s@.take(s@.len() as int) =~= s@);
        }
    }
    bytes
}

/// The text from a character on, found by its byte offset.
pub(crate) fn tail_at<'a>(s: &'a str, k: Ghost<int>, offset: usize) -> (r: &'a str)
    requires
        0 <= k@ <= s@.len(),
        offset == byte_offset(s@, k@),
    ensures
        r@ == s@.skip(k@),
{
    proof {
        let head = s@.take(k@);
        let tail = s@.skip(k@);
        assert(head + tail =~= s@);
        lemma_boundary(head, tail);
        lemma_encode_concat(head, tail);
    }
    let (_, rest) = s.split_at(offset);
    proof {
        let head = s@.take(k@);
        let tail = s@.skip(k@);
        assert(encode_utf8(s@).subrange(
            offset as int,
            encode_utf8(s@).len() as int,
        ) =~= encode_utf8(tail));
        lemma_encode_injective(rest@, tail);
    }
    rest
}

/// The last place from `k` on whose byte offset is at most the given one.
pub open spec fn place_from(s: Seq<char>, offset: int, k: int) -> int
    decreases s.len() - k,
{
    if k < s.len() && byte_offset(s, k + 1) <= offset {
        place_from(s, offset, k + 1)
    } else {
        k
    }
}

/// The character at a byte offset; an offset within a character is that of the
/// character, and one past the end is the end.
pub open spec fn char_place(s: Seq<char>, offset: int) -> int {
    place_from(s, offset, 0)
}

/// The text between two byte offsets.
pub open spec fn text_between(s: Seq<char>, from: int, to: int) -> Seq<char> {
    let a = char_place(s, from);
    let b = char_place(s, to);
    if a < b {
        s.subrange(a, b)
    } else {
        Seq::empty()
    }
}

/// Offsets grow from character to character.
pub proof fn lemma_offset_grows(s: Seq<char>, j: int, k: int)
    requires
        0 <= j < k <= s.len(),
    ensures
        byte_offset(s, j) < byte_offset(s, k),
{
    let part = s.subrange(j, k);
    lemma_offset_step(s, j, k - j);
    lemma_scalar_width(part[0]);
    assert(encode_utf8(part).len() == encode_scalar(part[0] as u32).len() + encode_utf8(
        part.drop_first(),
    ).len());
}

/// A place is found by its offset, from any place before it.
proof fn lemma_place_from(s: Seq<char>, j: int, k: int)
    requires
        0 <= j <= k <= s.len(),
    ensures
        place_from(s, byte_offset(s, k) as int, j) == k,
    decreases k - j,
{
    if j < k {
        if j + 1 < k {
            lemma_offset_grows(s, j + 1, k);
        }
        lemma_place_from(s, j + 1, k);
    } else if k < s.len() {
        lemma_offset_grows(s, k, k + 1);
    }
}

/// A character is found by its byte offset.
pub proof fn lemma_place_of_offset(s: Seq<char>, k: int)
    requires
        0 <= k <= s.len(),
    ensures
        char_place(s, byte_offset(s, k) as int) == k,
{
    lemma_place_from(s, 0, k);
}

/// The character at a byte offset.
pub fn find_place(chars: &[char], offset: usize) -> (r: usize)
    ensures
        r == char_place(chars@, offset as int),
        r <= chars@.len(),
{
    let mut bytes: u128 = 0;
    let mut k: usize = 0;
    assert(chars@.take(0) =~= Seq::empty());
    while k < chars.len()
        invariant
            k <= chars@.len(),
            bytes == byte_offset(chars@, k as int),
            bytes <= offset,
            place_from(chars@, offset as int, 0) == place_from(chars@, offset as int, k as int),
        decreases chars@.len() - k,
    {
        let c = chars[k];
        proof {
            lemma_offset_step(chars@, k as int, 1);
            lemma_encode_one(c);
            assert(chars@.subrange(k as int, k + 1) =~= seq![c]);
        }
        let next: u128 = bytes + width_of(c) as u128;
        if next > offset as u128 {
            return k;
        }
        bytes = next;
        k = k + 1;
    }
    k
}

} // verus!
