//! What values and fields stand for.

use vstd::prelude::*;

use crate::calendar::{days_before_month, days_in_month, is_leap, ordinal, Naive};
use crate::heap::{with_ref, HeapData, HeapEntry, HeapId};
use crate::release::released;
use crate::types::timedelta::TimeDelta;
use crate::value::Value;
use crate::vm::VM;

verus! {

/// A small integer is its number, a truth value one or zero, and an integer in the heap
/// what it holds; nothing else is an integer.
pub proof fn lemma_integer_values(vm: VM, v: Value, n: i64)
    ensures
        vm.integer_of(Value::Int(n)) == Some(n as int),
        vm.integer_of(Value::Bool(true)) == Some(1int),
        vm.integer_of(Value::Bool(false)) == Some(0int),
        vm.data_of(v) matches Some(HeapData::LongInt(li)) ==> vm.integer_of(v) == Some(li@),
        !(v is Int) && !(v is Bool) && !(vm.data_of(v) matches Some(HeapData::LongInt(_)))
            ==> vm.integer_of(v) is None,
{
}

/// The text of a value is what is interned under it or held by it, and so are the bytes
/// of one; nothing else is a text or bytes.
pub proof fn lemma_text_values(vm: VM, v: Value)
    ensures
        v matches Value::InternString(id) ==> vm.text_of(v) == Some(
            vm.interns.strings@[id.0 as int]@,
        ),
        v matches Value::InternBytes(id) ==> vm.bytes_of(v) == Some(vm.interns.bytes@[id.0 as int]@),
        vm.data_of(v) matches Some(HeapData::Str(s)) ==> vm.text_of(v) == Some(s@),
        vm.data_of(v) matches Some(HeapData::Bytes(b)) ==> vm.bytes_of(v) == Some(b@),
        !(v is InternString) && !(vm.data_of(v) matches Some(HeapData::Str(_))) ==> vm.text_of(
            v,
        ) is None,
        !(v is InternBytes) && !(vm.data_of(v) matches Some(HeapData::Bytes(_))) ==> vm.bytes_of(
            v,
        ) is None,
        v matches Value::Ref(id) ==> vm.data_of(v) == Some(vm.entries()[id.0 as int].data),
{
}

/// A year has a leap day where it can be divided by four, but not where it can be
/// divided by a hundred and not by four hundred.
pub proof fn lemma_leap_years(century: int, rest: int)
    requires
        0 <= rest < 100,
    ensures
        rest != 0 ==> (is_leap(century * 100 + rest) <==> exists|k: int| rest == 4 * #[trigger] same(k)),
        rest == 0 ==> (is_leap(century * 100 + rest) <==> exists|k: int|
            century == 4 * #[trigger] same(k)),
{
    let year = century * 100 + rest;
    assert(year % 100 == rest);
    assert(year % 4 == rest % 4);
    if rest % 4 == 0 {
        assert(rest == 4 * same(rest / 4));
    }
    if rest == 0 {
        assert(year % 400 == 0 <==> century % 4 == 0);
        if century % 4 == 0 {
            assert(century == 4 * same(century / 4));
        }
    }
}

/// The number itself.
pub open spec fn same(k: int) -> int {
    k
}

/// The months have 31 days but for April, June, September and November with 30, and
/// February with 28, or 29 in a leap year.
pub proof fn lemma_month_lengths(year: int, month: int)
    requires
        1 <= month <= 12,
    ensures
        month == 2 && is_leap(year) ==> days_in_month(year, month) == 29,
        month == 2 && !is_leap(year) ==> days_in_month(year, month) == 28,
        month == 4 || month == 6 || month == 9 || month == 11 ==> days_in_month(year, month) == 30,
        month == 1 || month == 3 || month == 5 || month == 7 || month == 8 || month == 10 || month
            == 12 ==> days_in_month(year, month) == 31,
{
}

/// Days are numbered one after the other from the first of January of the year one: the
/// next day of a month has the next number, the first of a month the one after the last
/// of the month before, and the first of January the one after the last of December.
pub proof fn lemma_days_in_a_row(year: int, month: int, day: int)
    ensures
        ordinal(1, 1, 1) == 1,
        ordinal(year, month, day + 1) == ordinal(year, month, day) + 1,
        1 <= month < 12 ==> ordinal(year, month + 1, 1) == ordinal(
            year,
            month,
            days_in_month(year, month),
        ) + 1,
        ordinal(year + 1, 1, 1) == ordinal(year, 12, 31) + 1,
{
    crate::calendar::lemma_year_length(year);
    assert(days_before_month(year + 1, 1) == 0);
    assert(days_before_month(1, 1) == 0);
    if 1 <= month < 12 {
        assert(days_before_month(year, month + 1) == days_before_month(year, month) + days_in_month(
            year,
            month,
        ));
    }
}

/// A moment is its day and its time of day, in nanoseconds.
pub proof fn lemma_moments(n: Naive)
    ensures
        n.nanos() == ((((ordinal(n.year as int, n.month as int, n.day as int) * 24 + n.hour) * 60
            + n.minute) * 60 + n.second) * 1_000_000_000) + n.nano,
{
    let d = ordinal(n.year as int, n.month as int, n.day as int);
    assert(d * 86_400 + n.hour * 3_600 + n.minute * 60 + n.second == ((d * 24 + n.hour) * 60
        + n.minute) * 60 + n.second);
}

/// A duration lasts its days, seconds and microseconds together.
pub proof fn lemma_duration_total(delta: TimeDelta)
    ensures
        delta.total() == (delta.days * 86_400 + delta.seconds) * 1_000_000 + delta.microseconds,
{
}

/// A reference that is copied is counted once more, and one that is dropped once less,
/// unless the count is at its limit; entries that hold none of the dropped ones keep
/// their counts.
pub proof fn lemma_counts(entries: Seq<HeapEntry>, id: HeapId, other: int)
    requires
        id.0 < entries.len(),
        0 <= other < entries.len(),
        1 < entries[id.0 as int].refs < u64::MAX,
    ensures
        with_ref(entries, Value::Ref(id))[id.0 as int].refs == entries[id.0 as int].refs + 1,
        released(entries, seq![id])[id.0 as int].refs == entries[id.0 as int].refs - 1,
        other != id.0 ==> with_ref(entries, Value::Ref(id))[other] == entries[other] && released(
            entries,
            seq![id],
        )[other] == entries[other],
{
    reveal_with_fuel(released, 2);
    assert(seq![id].last() == id);
    assert(seq![id].drop_last() =~= Seq::empty());
}

} // verus!
