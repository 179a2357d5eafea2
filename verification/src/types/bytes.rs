//! Python `bytes`.

use vstd::prelude::*;

verus! {

/// Bytes in the heap.
#[derive(Debug)]
pub struct Bytes {
    data: Vec<u8>,
}

impl View for Bytes {
    type V = Seq<u8>;

    closed spec fn view(&self) -> Seq<u8> {
        self.data@
    }
}

impl Bytes {
    /// Wraps bytes.
    pub fn new(data: Vec<u8>) -> (r: Bytes)
        ensures
            r@ == data@,
    {
        Bytes { data }
    }

    /// The bytes.
    pub fn as_slice(&self) -> (r: &[u8])
        ensures
            r@ == self@,
    {
        self.data.as_slice()
    }
}

/// The bytes from `from` up to `to`.
pub fn sub_bytes(bytes: &[u8], from: usize, to: usize) -> (r: Vec<u8>)
    requires
        from <= to <= bytes@.len(),
    ensures
        r@ == bytes@.subrange(from as int, to as int),
{
    let mut out: Vec<u8> = Vec::new();
    push_bytes(&mut out, bytes, from, to);
    out
}

/// Appends the bytes from `from` up to `to`.
pub fn push_bytes(out: &mut Vec<u8>, bytes: &[u8], from: usize, to: usize)
    requires
        from <= to <= bytes@.len(),
    ensures
        final(out)@ == old(out)@ + bytes@.subrange(from as int, to as int),
{
    let mut i: usize = from;
    while i < to
        invariant
            from <= i <= to <= bytes@.len(),
            out@ == old(out)@ + bytes@.subrange(from as int, i as int),
        decreases to - i,
    {
        out.push(bytes[i]);
        i = i + 1;
        assert(bytes@.subrange(from as int, i as int) =~= bytes@.subrange(from as int, i - 1).push(
            bytes@[i - 1],
        ));
    }
}

/// Whether two byte slices are equal.
pub fn same_bytes(a: &[u8], b: &[u8]) -> (r: bool)
    ensures
        r == (a@ == b@),
{
    if a.len() != b.len() {
        return false;
    }
    for i in 0..a.len()
        invariant
            a@.len() == b@.len(),
            forall|j: int| 0 <= j < i ==> a@[j] == b@[j],
    {
        if a[i] != b[i] {
            return false;
        }
    }
    assert(a@ =~= b@);
    true
}

/// The byte at an index that counts from the end when negative.
pub fn get_byte_at_index(bytes: &[u8], index: i64) -> (r: Option<u8>)
    ensures
        r == byte_at(bytes@, index as int),
{
    let len: i128 = bytes.len() as i128;
    let place: i128 = if index < 0 {
        index as i128 + len
    } else {
        index as i128
    };
    if place < 0 || place >= len {
        None
    } else {
        Some(bytes[place as usize])
    }
}

/// The byte at an index that counts from the end when negative.
pub open spec fn byte_at(bytes: Seq<u8>, index: int) -> Option<u8> {
    let place = if index < 0 {
        index + bytes.len()
    } else {
        index
    };
    if 0 <= place < bytes.len() {
        Some(bytes[place])
    } else {
        None
    }
}

} // verus!
