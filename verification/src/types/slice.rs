//! Python `slice` objects and index arithmetic.

use vstd::prelude::*;

use crate::exception::{ExcType, RunError, RunResult};

verus! {

/// A `slice` object; each part may be left out.
#[derive(Clone, Copy, Debug, PartialEq, Eq, Structural)]
pub struct Slice {
    pub start: Option<i64>,
    pub stop: Option<i64>,
    pub step: Option<i64>,
}

/// `x` moved into `lower ..= upper`.
pub open spec fn clamped(x: int, lower: int, upper: int) -> int {
    if x < lower {
        lower
    } else if x > upper {
        upper
    } else {
        x
    }
}

/// A possibly negative index counted from the end, moved into `lower ..= upper`.
pub open spec fn normal_index(index: int, length: int, lower: int, upper: int) -> int {
    clamped(
        if index < 0 {
            index + length
        } else {
            index
        },
        lower,
        upper,
    )
}

/// A sequence length as a machine integer.
pub open spec fn signed_len(length: int) -> int {
    if length > i64::MAX {
        i64::MAX as int
    } else {
        length
    }
}

impl Slice {
    /// The step; one when left out.
    pub open spec fn step_or_one(self) -> int {
        match self.step {
            Some(s) => s as int,
            None => 1,
        }
    }

    /// The first position for a sequence of `length` items.
    pub open spec fn first(self, length: int) -> int {
        let len = signed_len(length);
        if self.step_or_one() > 0 {
            match self.start {
                Some(s) => normal_index(s as int, len, 0, len),
                None => 0,
            }
        } else {
            match self.start {
                Some(s) => normal_index(s as int, len, -1, len - 1),
                None => len - 1,
            }
        }
    }

    /// The position to stop before, for a sequence of `length` items.
    pub open spec fn limit(self, length: int) -> int {
        let len = signed_len(length);
        if self.step_or_one() > 0 {
            match self.stop {
                Some(s) => normal_index(s as int, len, 0, len),
                None => len,
            }
        } else {
            match self.stop {
                Some(s) => normal_index(s as int, len, -1, len - 1),
                None => -1,
            }
        }
    }

    /// The positions that the slice selects, in order.
    pub open spec fn selected(self, length: int) -> Seq<int> {
        positions(self.first(length), self.limit(length), self.step_or_one())
    }

    /// Creates a slice from its parts.
    pub fn new(start: Option<i64>, stop: Option<i64>, step: Option<i64>) -> (r: Slice)
        ensures
            r == (Slice { start, stop, step }),
    {
        Slice { start, stop, step }
    }

    /// The concrete start, stop and step for a sequence of `length` items. A
    /// step of zero is a `ValueError`.
    pub fn indices(&self, length: usize) -> (r: RunResult<(i64, i64, i64)>)
        ensures
            match r {
                Ok((start, stop, step)) => {
                    &&& self.step_or_one() != 0
                    &&& start == self.first(length as int)
                    &&& stop == self.limit(length as int)
                    &&& step == self.step_or_one()
                },
                Err(e) => self.step_or_one() == 0 && e.says(
                    ExcType::ValueError,
                    "slice step cannot be zero"@,
                ),
            },
    {
        let step: i64 = match self.step {
            Some(s) => s,
            None => 1,
        };
        if step == 0 {
            return Err(RunError::new(ExcType::ValueError, "slice step cannot be zero"));
        }
        let len: i64 = if length as u64 > i64::MAX as u64 {
            i64::MAX
        } else {
            length as i64
        };
        if step > 0 {
            let start: i64 = match self.start {
                Some(s) => normalize_index(s, len, 0, len),
                None => 0,
            };
            let stop: i64 = match self.stop {
                Some(s) => normalize_index(s, len, 0, len),
                None => len,
            };
            Ok((start, stop, step))
        } else {
            let start: i64 = match self.start {
                Some(s) => normalize_index(s, len, -1, len - 1),
                None => len - 1,
            };
            let stop: i64 = match self.stop {
                Some(s) => normalize_index(s, len, -1, len - 1),
                None => -1,
            };
            Ok((start, stop, step))
        }
    }
}

/// Moves an index into range; a negative one counts from the end.
fn normalize_index(index: i64, length: i64, lower: i64, upper: i64) -> (r: i64)
    requires
        length >= 0,
        lower <= upper,
    ensures
        r == normal_index(index as int, length as int, lower as int, upper as int),
{
    let normalized: i64 = if index < 0 {
        index + length
    } else {
        index
    };
    if normalized < lower {
        lower
    } else if normalized > upper {
        upper
    } else {
        normalized
    }
}

/// How far `start` is from `stop` in the direction of `step`.
pub open spec fn steps_left(start: int, stop: int, step: int) -> int {
    if step > 0 && start < stop {
        stop - start
    } else if step < 0 && start > stop {
        start - stop
    } else {
        0
    }
}

/// `start`, `start + step`, ... as long as `stop` is not reached.
pub open spec fn positions(start: int, stop: int, step: int) -> Seq<int>
    decreases steps_left(start, stop, step),
{
    if (step > 0 && start < stop) || (step < 0 && start > stop) {
        seq![start] + positions(start + step, stop, step)
    } else {
        Seq::empty()
    }
}

/// The bounds lie in the sequence or right at its ends.
pub proof fn lemma_bounds_in_range(slice: Slice, length: int)
    requires
        0 <= length,
    ensures
        slice.step_or_one() > 0 ==> 0 <= slice.first(length) <= length && 0 <= slice.limit(length)
            <= length,
        slice.step_or_one() < 0 ==> -1 <= slice.first(length) < length && -1 <= slice.limit(length)
            < length,
{
}

/// Every selected position lies in the sequence.
pub proof fn lemma_selected_in_range(slice: Slice, length: int, k: int)
    requires
        0 <= length,
        0 <= k < slice.selected(length).len(),
    ensures
        0 <= slice.selected(length)[k] < length,
{
    lemma_positions_bounds(slice.first(length), slice.limit(length), slice.step_or_one(), k);
}

/// A position lies between the start and the stop.
proof fn lemma_positions_bounds(start: int, stop: int, step: int, k: int)
    requires
        0 <= k < positions(start, stop, step).len(),
    ensures
        step > 0 ==> start <= positions(start, stop, step)[k] < stop,
        step < 0 ==> stop < positions(start, stop, step)[k] <= start,
        step != 0,
    decreases k,
{
    if k > 0 {
        lemma_positions_bounds(start + step, stop, step, k - 1);
    }
}

/// The positions that `slice` selects from `length` items.
pub fn slice_positions(slice: &Slice, length: usize) -> (r: RunResult<Vec<usize>>)
    ensures
        match r {
            Ok(v) => {
                &&& slice.step_or_one() != 0
                &&& v@.map_values(|x: usize| x as int) == slice.selected(length as int)
                &&& forall|k: int| 0 <= k < v@.len() ==> v@[k] < length
            },
            Err(e) => slice.step_or_one() == 0 && e.says(
                ExcType::ValueError,
                "slice step cannot be zero"@,
            ),
        },
{
    let (start, stop, step) = match slice.indices(length) {
        Ok(parts) => parts,
        Err(e) => {
            return Err(e);
        },
    };
    let mut out: Vec<usize> = Vec::new();
    let mut i: i128 = start as i128;
    let ghost as_int = |x: usize| x as int;
    proof {
        assert(out@.map_values(as_int) =~= Seq::empty());
        assert(Seq::<int>::empty() + positions(start as int, stop as int, step as int)
            =~= positions(start as int, stop as int, step as int));
    }
    while (step > 0 && i < stop as i128) || (step < 0 && i > stop as i128)
        invariant
            step != 0,
            step == slice.step_or_one(),
            start == slice.first(length as int),
            stop == slice.limit(length as int),
            step > 0 ==> start <= i <= stop + step || i == start,
            step < 0 ==> stop + step <= i <= start || i == start,
            as_int == (|x: usize| x as int),
            positions(start as int, stop as int, step as int) == out@.map_values(as_int)
                + positions(i as int, stop as int, step as int),
            forall|k: int| 0 <= k < out@.len() ==> out@[k] < length,
        decreases steps_left(i as int, stop as int, step as int),
    {
        let ghost before = out@.map_values(as_int);
        out.push(i as usize);
        proof {
            assert(out@.map_values(as_int) =~= before.push(i as int));
            assert(before + (seq![i as int] + positions(
                i + step,
                stop as int,
                step as int,
            )) =~= before.push(i as int) + positions(i + step, stop as int, step as int));
        }
        i = i + step as i128;
    }
    proof {
        assert(out@.map_values(as_int) + Seq::<int>::empty() =~= out@.map_values(as_int));
    }
    Ok(out)
}

/// Applies a slice to the items of a sequence and collects the selected ones.
pub fn slice_collect_iterator<T: Copy>(slice: &Slice, items: &[T]) -> (r: RunResult<Vec<T>>)
    ensures
        match r {
            Ok(v) => slice.step_or_one() != 0 && v@ == slice.selected(
                items@.len() as int,
            ).map_values(|i: int| items@[i]),
            Err(e) => slice.step_or_one() == 0 && e.says(
                ExcType::ValueError,
                "slice step cannot be zero"@,
            ),
        },
{
    let places = match slice_positions(slice, items.len()) {
        Ok(places) => places,
        Err(e) => {
            return Err(e);
        },
    };
    let ghost selected = slice.selected(items@.len() as int);
    let mut out: Vec<T> = Vec::new();
    for k in 0..places.len()
        invariant
            selected == places@.map_values(|x: usize| x as int),
            forall|j: int| 0 <= j < places@.len() ==> places@[j] < items@.len(),
            out@ == selected.take(k as int).map_values(|i: int| items@[i]),
    {
        let item = items[places[k]];
        proof {
            assert(selected[k as int] == places@[k as int] as int);
            assert(selected.take(k + 1).map_values(|i: int| items@[i]) =~= selected.take(
                k as int,
            ).map_values(|i: int| items@[i]).push(item));
        }
        out.push(item);
    }
    assert(selected.take(selected.len() as int) =~= selected);
    Ok(out)
}

/// An index counted from the end when negative, moved into `0 ..= len`.
pub fn normalize_sequence_index(index: i64, len: usize) -> (r: usize)
    ensures
        r == normal_index(index as int, len as int, 0, len as int),
{
    let wide: i128 = if index < 0 {
        index as i128 + len as i128
    } else {
        index as i128
    };
    if wide < 0 {
        0
    } else if wide > len as i128 {
        len
    } else {
        wide as usize
    }
}

/// Positions one after the other are those before some place and those from it on.
proof fn lemma_positions_meet(a: int, b: int, c: int)
    requires
        a <= b <= c,
    ensures
        positions(a, b, 1) + positions(b, c, 1) == positions(a, c, 1),
    decreases b - a,
{
    if a < b {
        lemma_positions_meet(a + 1, b, c);
        assert(positions(a, b, 1) + positions(b, c, 1) =~= seq![a] + (positions(a + 1, b, 1)
            + positions(b, c, 1)));
    } else {
        assert(positions(a, b, 1) + positions(b, c, 1) =~= positions(b, c, 1));
    }
}

/// What is before an index and what is from it on make up the whole.
pub proof fn lemma_slices_meet(index: i64, length: int)
    requires
        0 <= length,
    ensures
        ({
            let before = Slice { start: None, stop: Some(index), step: None };
            let after = Slice { start: Some(index), stop: None, step: None };
            let whole = Slice { start: None, stop: None, step: None };
            before.selected(length) + after.selected(length) == whole.selected(length)
        }),
{
    let len = signed_len(length);
    lemma_positions_meet(0, normal_index(index as int, len, 0, len), len);
}

proof fn lemma_ascending(a: int, b: int)
    requires
        a <= b,
    ensures
        positions(a, b, 1) == Seq::new((b - a) as nat, |i: int| a + i),
    decreases b - a,
{
    if a < b {
        lemma_ascending(a + 1, b);
    }
    assert(positions(a, b, 1) =~= Seq::new((b - a) as nat, |i: int| a + i));
}

proof fn lemma_descending(a: int)
    requires
        -1 <= a,
    ensures
        positions(a, -1, -1) == Seq::new((a + 1) as nat, |i: int| a - i),
    decreases a + 1,
{
    if a > -1 {
        lemma_descending(a - 1);
    }
    assert(positions(a, -1, -1) =~= Seq::new((a + 1) as nat, |i: int| a - i));
}

/// A slice without bounds selects every position, and with a step of minus one
/// every position backwards.
pub proof fn lemma_unbounded_slices(length: int)
    requires
        0 <= length <= i64::MAX,
    ensures
        (Slice { start: None, stop: None, step: None }).selected(length) == Seq::new(
            length as nat,
            |i: int| i,
        ),
        (Slice { start: None, stop: None, step: Some((-1) as i64) }).selected(length) == Seq::new(
            length as nat,
            |i: int| length - 1 - i,
        ),
{
    lemma_ascending(0, length);
    lemma_descending(length - 1);
    assert(positions(0, length, 1) =~= Seq::new(length as nat, |i: int| i));
}

} // verus!
