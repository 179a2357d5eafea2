//! What subscripts and slices give.

use vstd::prelude::*;

use crate::args::raises;
use crate::exception::{ExcType, RunError, RunResult};
use crate::heap::HeapData;
use crate::laws::results::{
    lemma_bytes_given, lemma_list_given, lemma_string_given, lemma_tuple_given, list_items,
    tuple_items,
};
use crate::types::slice::{positions, Slice};
use crate::value::Value;
use crate::value_item::{given_item, item_done, item_of, sliced};
use crate::vm::VM;

verus! {

/// The end of a slice at an index, which counts from the end when negative: inside
/// the sequence, or right before or after it.
pub open spec fn slice_edge(index: int, n: int, up: bool) -> int {
    let place = if index < 0 {
        index + n
    } else {
        index
    };
    let least = if up {
        0int
    } else {
        -1
    };
    let most = if up {
        n
    } else {
        n - 1
    };
    if place < least {
        least
    } else if place > most {
        most
    } else {
        place
    }
}

/// The place after so many steps.
pub open spec fn stepped(first: int, step: int, k: int) -> int {
    first + k * step
}

/// The step of a slice; one where it is left out.
pub open spec fn slice_step(slice: Slice) -> int {
    if slice.step is Some {
        slice.step->0 as int
    } else {
        1
    }
}

/// Where a slice of so many items starts.
pub open spec fn slice_first(slice: Slice, n: int) -> int {
    let up = slice_step(slice) > 0;
    if slice.start is Some {
        slice_edge(slice.start->0 as int, n, up)
    } else if up {
        0
    } else {
        n - 1
    }
}

/// Where a slice of so many items stops.
pub open spec fn slice_end(slice: Slice, n: int) -> int {
    let up = slice_step(slice) > 0;
    if slice.stop is Some {
        slice_edge(slice.stop->0 as int, n, up)
    } else if up {
        n
    } else {
        -1
    }
}

/// Whether a place is not yet where a slice stops.
pub open spec fn goes_on(place: int, end: int, step: int) -> bool {
    if step > 0 {
        place < end
    } else {
        place > end
    }
}

/// Whether a sequence is the slice of another: from where the slice starts, in its
/// steps, as long as it does not reach where the slice stops.
pub open spec fn is_slice<T>(xs: Seq<T>, slice: Slice, ys: Seq<T>) -> bool {
    let first = slice_first(slice, xs.len() as int);
    let end = slice_end(slice, xs.len() as int);
    let step = slice_step(slice);
    &&& forall|k: int|
        0 <= k ==> (k < ys.len() <==> goes_on(#[trigger] stepped(first, step, k), end, step))
    &&& forall|k: int| 0 <= k < ys.len() ==> #[trigger] ys[k] == xs[stepped(first, step, k)]
}

/// The positions from a start in steps up to a stop.
proof fn lemma_positions(start: int, stop: int, step: int, k: int)
    requires
        step != 0,
        0 <= k,
    ensures
        k < positions(start, stop, step).len() <==> if step > 0 {
            stepped(start, step, k) < stop
        } else {
            stepped(start, step, k) > stop
        },
        k < positions(start, stop, step).len() ==> positions(start, stop, step)[k] == stepped(
            start,
            step,
            k,
        ),
    decreases k,
{
    if (step > 0 && start < stop) || (step < 0 && start > stop) {
        let rest = positions(start + step, stop, step);
        assert(positions(start, stop, step) == seq![start] + rest);
        if k > 0 {
            lemma_positions(start + step, stop, step, k - 1);
            assert(stepped(start + step, step, k - 1) == stepped(start, step, k)) by (
                nonlinear_arith);
        } else {
            assert(stepped(start, step, 0) == start) by (nonlinear_arith);
        }
    } else {
        assert(stepped(start, step, k) >= start || step < 0) by (nonlinear_arith)
            requires
                0 <= k,
        ;
        assert(stepped(start, step, k) <= start || step > 0) by (nonlinear_arith)
            requires
                0 <= k,
        ;
    }
}

proof fn lemma_sliced<T>(xs: Seq<T>, slice: Slice)
    requires
        slice.step_or_one() != 0,
        xs.len() <= i64::MAX,
    ensures
        is_slice(xs, slice, sliced(xs, slice)),
{
    let n = xs.len() as int;
    let step = slice.step_or_one();
    let ys = sliced(xs, slice);
    assert(slice.first(n) == slice_first(slice, n));
    assert(slice.limit(n) == slice_end(slice, n));
    assert forall|k: int| 0 <= k implies (k < ys.len() <==> goes_on(
        #[trigger] stepped(slice.first(n), step, k),
        slice.limit(n),
        step,
    )) by {
        lemma_positions(slice.first(n), slice.limit(n), step, k);
    }
    assert forall|k: int| 0 <= k < ys.len() implies #[trigger] ys[k] == xs[stepped(
        slice.first(n),
        step,
        k,
    )] by {
        lemma_positions(slice.first(n), slice.limit(n), step, k);
    }
}

/// A slice of a tuple is a tuple of the selected items.
pub proof fn lemma_tuple_slice(
    before: VM,
    after: VM,
    v: Value,
    key: Value,
    xs: Seq<Value>,
    slice: Slice,
    r: RunResult<Option<Value>>,
)
    requires
        before.wf(),
        tuple_items(before, v) == Some(xs),
        before.data_of(key) == Some(HeapData::Slice(slice)),
        slice.step != Some(0i64),
        xs.len() <= i64::MAX,
        item_done(before, after, r, item_of(before, v, key)),
        r is Ok,
    ensures
        r->Ok_0 matches Some(w) && tuple_items(after, w) matches Some(ys) && is_slice(
            xs,
            slice,
            ys,
        ),
{
    lemma_sliced(xs, slice);
    lemma_tuple_given(before, after, given_item(r)->0, sliced(xs, slice));
}

/// A slice of a list is a list of the selected items.
pub proof fn lemma_list_slice(
    before: VM,
    after: VM,
    v: Value,
    key: Value,
    xs: Seq<Value>,
    slice: Slice,
    r: RunResult<Option<Value>>,
)
    requires
        list_items(before, v) == Some(xs),
        before.data_of(key) == Some(HeapData::Slice(slice)),
        slice.step != Some(0i64),
        xs.len() <= i64::MAX,
        item_done(before, after, r, item_of(before, v, key)),
        r is Ok,
    ensures
        r->Ok_0 matches Some(w) && list_items(after, w) matches Some(ys) && is_slice(
            xs,
            slice,
            ys,
        ),
{
    lemma_sliced(xs, slice);
    lemma_list_given(before, after, given_item(r)->0, sliced(xs, slice));
}

/// A slice of a text is the text of the selected characters.
pub proof fn lemma_text_slice(
    before: VM,
    after: VM,
    v: Value,
    key: Value,
    s: Seq<char>,
    slice: Slice,
    r: RunResult<Option<Value>>,
)
    requires
        before.wf(),
        before.text_of(v) == Some(s),
        before.data_of(key) == Some(HeapData::Slice(slice)),
        slice.step != Some(0i64),
        s.len() <= i64::MAX,
        item_done(before, after, r, item_of(before, v, key)),
        r is Ok,
    ensures
        r->Ok_0 matches Some(w) && after.text_of(w) matches Some(t) && is_slice(s, slice, t),
{
    lemma_sliced(s, slice);
    lemma_string_given(before, after, given_item(r)->0, sliced(s, slice));
}

/// A slice of bytes is the selected bytes.
pub proof fn lemma_bytes_slice(
    before: VM,
    after: VM,
    v: Value,
    key: Value,
    b: Seq<u8>,
    slice: Slice,
    r: RunResult<Option<Value>>,
)
    requires
        before.bytes_of(v) == Some(b),
        before.data_of(key) == Some(HeapData::Slice(slice)),
        slice.step != Some(0i64),
        b.len() <= i64::MAX,
        item_done(before, after, r, item_of(before, v, key)),
        r is Ok,
    ensures
        r->Ok_0 matches Some(w) && after.bytes_of(w) matches Some(c) && is_slice(b, slice, c),
{
    lemma_sliced(b, slice);
    lemma_bytes_given(before, after, given_item(r)->0, sliced(b, slice));
}

/// The slice up to an index and the slice from that index on, one after the other,
/// are the whole.
proof fn lemma_halves<T>(xs: Seq<T>, index: i64, low: Slice, high: Slice, ys: Seq<T>, zs: Seq<T>)
    requires
        xs.len() <= i64::MAX,
        low == (Slice { start: None, stop: Some(index), step: None }),
        high == (Slice { start: Some(index), stop: None, step: None }),
        is_slice(xs, low, ys),
        is_slice(xs, high, zs),
    ensures
        ys + zs == xs,
{
    let n = xs.len() as int;
    let i = slice_edge(index as int, n, true);
    assert(slice_first(low, n) == 0 && slice_end(low, n) == i && slice_step(low) == 1);
    assert(slice_first(high, n) == i && slice_end(high, n) == n && slice_step(high) == 1);
    assert(forall|k: int| #[trigger] stepped(0, 1, k) == k);
    assert(forall|k: int| #[trigger] stepped(i, 1, k) == i + k);
    assert(stepped(0, 1, i) == i);
    assert(stepped(0, 1, ys.len() as int) == ys.len());
    assert(ys.len() == i);
    assert(stepped(i, 1, n - i) == n);
    assert(stepped(i, 1, zs.len() as int) == i + zs.len());
    assert(zs.len() == n - i);
    assert(ys + zs =~= xs);
}

/// `t[:i] + t[i:]` has the items of `t`, for a tuple and every index.
pub proof fn lemma_tuple_halves(
    before: VM,
    mid: VM,
    after: VM,
    v: Value,
    low: Value,
    high: Value,
    xs: Seq<Value>,
    index: i64,
    r: RunResult<Option<Value>>,
    s: RunResult<Option<Value>>,
)
    requires
        before.wf(),
        mid.wf(),
        tuple_items(before, v) == Some(xs),
        tuple_items(mid, v) == Some(xs),
        xs.len() <= i64::MAX,
        before.data_of(low) == Some(
            HeapData::Slice(Slice { start: None, stop: Some(index), step: None }),
        ),
        mid.data_of(high) == Some(
            HeapData::Slice(Slice { start: Some(index), stop: None, step: None }),
        ),
        item_done(before, mid, r, item_of(before, v, low)),
        item_done(mid, after, s, item_of(mid, v, high)),
        r is Ok,
        s is Ok,
    ensures
        r->Ok_0 matches Some(a) && s->Ok_0 matches Some(b) && tuple_items(mid, a) matches Some(ys)
            && tuple_items(after, b) matches Some(zs) && ys + zs == xs,
{
    let lower = Slice { start: None, stop: Some(index), step: None };
    let upper = Slice { start: Some(index), stop: None, step: None };
    lemma_tuple_slice(before, mid, v, low, xs, lower, r);
    lemma_tuple_slice(mid, after, v, high, xs, upper, s);
    lemma_halves(
        xs,
        index,
        lower,
        upper,
        tuple_items(mid, r->Ok_0->0)->0,
        tuple_items(after, s->Ok_0->0)->0,
    );
}

/// `s[:i] + s[i:]` is `s`, for a text and every index.
pub proof fn lemma_text_halves(
    before: VM,
    mid: VM,
    after: VM,
    v: Value,
    low: Value,
    high: Value,
    text: Seq<char>,
    index: i64,
    r: RunResult<Option<Value>>,
    s: RunResult<Option<Value>>,
)
    requires
        before.wf(),
        mid.wf(),
        before.text_of(v) == Some(text),
        mid.text_of(v) == Some(text),
        text.len() <= i64::MAX,
        before.data_of(low) == Some(
            HeapData::Slice(Slice { start: None, stop: Some(index), step: None }),
        ),
        mid.data_of(high) == Some(
            HeapData::Slice(Slice { start: Some(index), stop: None, step: None }),
        ),
        item_done(before, mid, r, item_of(before, v, low)),
        item_done(mid, after, s, item_of(mid, v, high)),
        r is Ok,
        s is Ok,
    ensures
        r->Ok_0 matches Some(a) && s->Ok_0 matches Some(b) && mid.text_of(a) matches Some(ys)
            && after.text_of(b) matches Some(zs) && ys + zs == text,
{
    let lower = Slice { start: None, stop: Some(index), step: None };
    let upper = Slice { start: Some(index), stop: None, step: None };
    lemma_text_slice(before, mid, v, low, text, lower, r);
    lemma_text_slice(mid, after, v, high, text, upper, s);
    lemma_halves(
        text,
        index,
        lower,
        upper,
        mid.text_of(r->Ok_0->0)->0,
        after.text_of(s->Ok_0->0)->0,
    );
}

/// A tuple, named tuple or list gives the item that a small integer counts to, from
/// the end when it is negative, and an `IndexError` where there is none.
pub proof fn lemma_item_by_index(
    before: VM,
    after: VM,
    v: Value,
    n: i64,
    xs: Seq<Value>,
    r: RunResult<Option<Value>>,
)
    requires
        tuple_items(before, v) == Some(xs) || list_items(before, v) == Some(xs) || (
        before.data_of(v) matches Some(HeapData::NamedTuple(t)) && t.items@ == xs),
        item_done(before, after, r, item_of(before, v, Value::Int(n))),
    ensures
        0 <= n < xs.len() ==> r == Ok::<Option<Value>, RunError>(Some(xs[n as int])),
        -xs.len() <= n < 0 ==> r == Ok::<Option<Value>, RunError>(Some(xs[n + xs.len()])),
        !(-xs.len() <= n < xs.len()) ==> (r matches Err(e) && exists|message: Seq<char>|
            #[trigger] e.says(ExcType::IndexError, message)),
{
    if !(-xs.len() <= n < xs.len()) {
        assert(raises(r, (ExcType::IndexError, "tuple index out of range"@)) || raises(
            r,
            (ExcType::IndexError, "list index out of range"@),
        ));
    }
}

/// A tuple or list takes any integer that fits a machine word as an index, a truth value
/// or an integer in the heap too.
pub proof fn lemma_item_by_integer(
    before: VM,
    after: VM,
    v: Value,
    key: Value,
    n: int,
    xs: Seq<Value>,
    r: RunResult<Option<Value>>,
)
    requires
        tuple_items(before, v) == Some(xs) || list_items(before, v) == Some(xs),
        before.integer_of(key) == Some(n),
        i64::MIN <= n <= i64::MAX,
        item_done(before, after, r, item_of(before, v, key)),
    ensures
        0 <= n < xs.len() ==> r == Ok::<Option<Value>, RunError>(Some(xs[n])),
        -xs.len() <= n < 0 ==> r == Ok::<Option<Value>, RunError>(Some(xs[n + xs.len()])),
        !(-xs.len() <= n < xs.len()) ==> r is Err,
{
}

/// A slice with a step of zero is a `ValueError`.
pub proof fn lemma_no_step(
    before: VM,
    after: VM,
    v: Value,
    key: Value,
    slice: Slice,
    r: RunResult<Option<Value>>,
)
    requires
        tuple_items(before, v) is Some || list_items(before, v) is Some || before.text_of(v) is Some
            || before.bytes_of(v) is Some,
        before.data_of(key) == Some(HeapData::Slice(slice)),
        slice.step == Some(0i64),
        item_done(before, after, r, item_of(before, v, key)),
    ensures
        raises(r, (ExcType::ValueError, "slice step cannot be zero"@)),
{
}

/// A text gives the character that a small integer counts to, as a text of its own.
pub proof fn lemma_character_by_index(
    before: VM,
    after: VM,
    v: Value,
    n: i64,
    s: Seq<char>,
    r: RunResult<Option<Value>>,
)
    requires
        before.wf(),
        before.text_of(v) == Some(s),
        item_done(before, after, r, item_of(before, v, Value::Int(n))),
    ensures
        r is Ok ==> -s.len() <= n < s.len() && (r->Ok_0 matches Some(w) && after.text_of(w) == Some(
            seq![
                s[if n < 0 {
                    n + s.len()
                } else {
                    n as int
                }],
            ],
        )),
        !(-s.len() <= n < s.len()) ==> raises(
            r,
            (ExcType::IndexError, "string index out of range"@),
        ),
{
    if -s.len() <= n < s.len() && r is Ok {
        let c = s[if n < 0 {
            n + s.len()
        } else {
            n as int
        }];
        lemma_string_given(before, after, given_item(r)->0, seq![c]);
    }
}

/// Bytes give the byte that a small integer counts to, as an integer.
pub proof fn lemma_byte_by_index(
    before: VM,
    after: VM,
    v: Value,
    n: i64,
    b: Seq<u8>,
    r: RunResult<Option<Value>>,
)
    requires
        before.bytes_of(v) == Some(b),
        item_done(before, after, r, item_of(before, v, Value::Int(n))),
    ensures
        0 <= n < b.len() ==> r == Ok::<Option<Value>, RunError>(Some(Value::Int(b[n as int] as i64))),
        -b.len() <= n < 0 ==> r == Ok::<Option<Value>, RunError>(
            Some(Value::Int(b[n + b.len()] as i64)),
        ),
        !(-b.len() <= n < b.len()) ==> raises(r, (ExcType::IndexError, "index out of range"@)),
{
}

} // verus!
