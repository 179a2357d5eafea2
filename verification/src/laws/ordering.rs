//! What comes before what.

use vstd::prelude::*;

use crate::args::Raised;
use crate::exception::{RunError, RunResult};
use crate::float::{unit_scale, FloatValue};
use crate::heap::HeapData;
use crate::order::{lex_order, Order};
use crate::types::date::lemma_dates_ordered;
use crate::value::Value;
use crate::value_add::lemma_entry_ok;
use crate::value_eq::told;
use crate::value_order::{byte_values, code_points, order_items, order_of};
use crate::vm::VM;

verus! {

/// Whether a comparison says that the first comes before, is the same as, or comes
/// after the second.
pub open spec fn compares(r: RunResult<Option<Order>>, before: bool, after: bool) -> bool {
    &&& r == Ok::<Option<Order>, RunError>(Some(Order::Less)) <==> before
    &&& r == Ok::<Option<Order>, RunError>(Some(Order::Greater)) <==> after
    &&& r == Ok::<Option<Order>, RunError>(Some(Order::Equal)) <==> !before && !after
}

/// Integers, truth values among them, are in the order of their numbers.
pub proof fn lemma_integers_in_order(
    vm: VM,
    a: Value,
    b: Value,
    x: int,
    y: int,
    r: RunResult<Option<Order>>,
)
    requires
        vm.integer_of(a) == Some(x),
        vm.integer_of(b) == Some(y),
        told(r, vm.values_order(a, b)),
    ensures
        compares(r, x < y, x > y),
{
}

/// Finite floats are in the order of their values, infinity comes after and minus
/// infinity before them, and what is not a number has no order.
pub proof fn lemma_floats_in_order(
    vm: VM,
    a: Value,
    b: Value,
    r: RunResult<Option<Order>>,
)
    requires
        a is Float,
        b is Float,
        told(r, vm.values_order(a, b)),
    ensures
        match (a->Float_0.value(), b->Float_0.value()) {
            (FloatValue::Finite(x), FloatValue::Finite(y)) => compares(r, x < y, x > y),
            (FloatValue::Finite(_), FloatValue::Infinite { negative }) => compares(
                r,
                !negative,
                negative,
            ),
            (FloatValue::Infinite { negative }, FloatValue::Finite(_)) => compares(
                r,
                negative,
                !negative,
            ),
            (FloatValue::Infinite { negative: m }, FloatValue::Infinite { negative: n }) => compares(
                r,
                m && !n,
                n && !m,
            ),
            _ => r == Ok::<Option<Order>, RunError>(None),
        },
{
}

/// An integer and a finite float are in the order of their exact values.
pub proof fn lemma_integer_and_float_in_order(
    vm: VM,
    a: Value,
    b: Value,
    x: int,
    y: int,
    r: RunResult<Option<Order>>,
    s: RunResult<Option<Order>>,
)
    requires
        vm.integer_of(a) == Some(x),
        b matches Value::Float(f) && f.value() == FloatValue::Finite(y),
        told(r, vm.values_order(a, b)),
        told(s, vm.values_order(b, a)),
    ensures
        compares(r, x * unit_scale() < y, x * unit_scale() > y),
        compares(s, y < x * unit_scale(), y > x * unit_scale()),
{
}

/// Whether one sequence comes before another: it has the smaller item at the first
/// place where they differ, or the other one goes on where it ends.
pub open spec fn sequence_before(a: Seq<int>, b: Seq<int>) -> bool {
    exists|k: int| #[trigger] differs_first(a, b, k)
}

/// Whether two sequences differ first at a place, where the first comes before.
pub open spec fn differs_first(a: Seq<int>, b: Seq<int>, k: int) -> bool {
    &&& 0 <= k <= a.len()
    &&& k < b.len()
    &&& forall|i: int| 0 <= i < k ==> #[trigger] a[i] == b[i]
    &&& k < a.len() ==> a[k] < b[k]
}

proof fn lemma_lex_before(a: Seq<int>, b: Seq<int>)
    ensures
        lex_order(a, b) == Order::Less <==> sequence_before(a, b),
        lex_order(a, b) == Order::Greater <==> sequence_before(b, a),
    decreases a.len(),
{
    if a.len() == 0 || b.len() == 0 || a[0] != b[0] {
        if lex_order(a, b) == Order::Less {
            assert(differs_first(a, b, 0));
        }
        if lex_order(a, b) == Order::Greater {
            assert(differs_first(b, a, 0));
        }
        assert forall|k: int| #[trigger] differs_first(a, b, k) implies k == 0 by {
            if k > 0 {
                assert(a[0] == b[0]);
            }
        }
        assert forall|k: int| #[trigger] differs_first(b, a, k) implies k == 0 by {
            if k > 0 {
                assert(b[0] == a[0]);
            }
        }
    } else {
        lemma_lex_before(a.skip(1), b.skip(1));
        lemma_skip_differs(a, b);
        lemma_skip_differs(b, a);
    }
}

proof fn lemma_skip_differs(a: Seq<int>, b: Seq<int>)
    requires
        a.len() > 0,
        b.len() > 0,
        a[0] == b[0],
    ensures
        sequence_before(a, b) <==> sequence_before(a.skip(1), b.skip(1)),
{
    if sequence_before(a, b) {
        let k = choose|k: int| #[trigger] differs_first(a, b, k);
        assert forall|i: int| 0 <= i < k - 1 implies #[trigger] a.skip(1)[i] == b.skip(1)[i] by {
            assert(a[i + 1] == b[i + 1]);
        }
        assert(differs_first(a.skip(1), b.skip(1), k - 1));
    }
    if sequence_before(a.skip(1), b.skip(1)) {
        let k = choose|k: int| #[trigger] differs_first(a.skip(1), b.skip(1), k);
        assert forall|i: int| 0 <= i < k + 1 implies #[trigger] a[i] == b[i] by {
            if i > 0 {
                assert(a.skip(1)[i - 1] == b.skip(1)[i - 1]);
            }
        }
        assert(differs_first(a, b, k + 1));
    }
}

/// Texts are in the order of their characters' code points, the first that differ
/// deciding; a text comes before every longer one that starts with it.
pub proof fn lemma_texts_in_order(
    vm: VM,
    a: Value,
    b: Value,
    s: Seq<char>,
    t: Seq<char>,
    r: RunResult<Option<Order>>,
)
    requires
        vm.text_of(a) == Some(s),
        vm.text_of(b) == Some(t),
        told(r, vm.values_order(a, b)),
    ensures
        compares(
            r,
            sequence_before(s.map_values(|c: char| c as int), t.map_values(|c: char| c as int)),
            sequence_before(t.map_values(|c: char| c as int), s.map_values(|c: char| c as int)),
        ),
{
    lemma_lex_before(code_points(s), code_points(t));
    assert(code_points(s) =~= s.map_values(|c: char| c as int));
    assert(code_points(t) =~= t.map_values(|c: char| c as int));
    assert(r == Ok::<Option<Order>, RunError>(Some(lex_order(code_points(s), code_points(t)))));
}

/// Literal bytes are in the order of their bytes, the first that differ deciding.
pub proof fn lemma_bytes_in_order(vm: VM, a: Value, b: Value, r: RunResult<Option<Order>>)
    requires
        a is InternBytes,
        b is InternBytes,
        told(r, vm.values_order(a, b)),
    ensures
        ({
            let s = vm.bytes_of(a)->0.map_values(|x: u8| x as int);
            let t = vm.bytes_of(b)->0.map_values(|x: u8| x as int);
            compares(r, sequence_before(s, t), sequence_before(t, s))
        }),
{
    let s = vm.bytes_of(a)->0;
    let t = vm.bytes_of(b)->0;
    lemma_lex_before(byte_values(s), byte_values(t));
    assert(byte_values(s) =~= s.map_values(|x: u8| x as int));
    assert(byte_values(t) =~= t.map_values(|x: u8| x as int));
}

/// Dates are in the order of year, month and day.
pub proof fn lemma_dates_in_order(vm: VM, a: Value, b: Value, r: RunResult<Option<Order>>)
    requires
        vm.wf(),
        vm.ok(a),
        vm.ok(b),
        vm.data_of(a) matches Some(HeapData::Date(_)),
        vm.data_of(b) matches Some(HeapData::Date(_)),
        told(r, vm.values_order(a, b)),
    ensures
        ({
            let x = vm.data_of(a)->0->Date_0;
            let y = vm.data_of(b)->0->Date_0;
            compares(
                r,
                x.year < y.year || (x.year == y.year && (x.month < y.month || (x.month == y.month
                    && x.day < y.day))),
                y.year < x.year || (y.year == x.year && (y.month < x.month || (y.month == x.month
                    && y.day < x.day))),
            )
        }),
{
    let x = vm.data_of(a)->0->Date_0;
    let y = vm.data_of(b)->0->Date_0;
    lemma_entry_ok(vm, a->Ref_0);
    lemma_entry_ok(vm, b->Ref_0);
    lemma_dates_ordered(x, y);
    lemma_dates_ordered(y, x);
}

/// Durations are in the order of their days, then seconds, then microseconds.
pub proof fn lemma_durations_in_order(vm: VM, a: Value, b: Value, r: RunResult<Option<Order>>)
    requires
        vm.wf(),
        vm.ok(a),
        vm.ok(b),
        vm.data_of(a) matches Some(HeapData::TimeDelta(_)),
        vm.data_of(b) matches Some(HeapData::TimeDelta(_)),
        told(r, vm.values_order(a, b)),
    ensures
        ({
            let x = vm.data_of(a)->0->TimeDelta_0;
            let y = vm.data_of(b)->0->TimeDelta_0;
            compares(
                r,
                x.days < y.days || (x.days == y.days && (x.seconds < y.seconds || (x.seconds
                    == y.seconds && x.microseconds < y.microseconds))),
                y.days < x.days || (y.days == x.days && (y.seconds < x.seconds || (y.seconds
                    == x.seconds && y.microseconds < x.microseconds))),
            )
        }),
{
    lemma_entry_ok(vm, a->Ref_0);
    lemma_entry_ok(vm, b->Ref_0);
}

/// Naive datetimes are in the order of their fields, down to the microsecond.
pub proof fn lemma_datetimes_in_order(vm: VM, a: Value, b: Value, r: RunResult<Option<Order>>)
    requires
        vm.wf(),
        vm.ok(a),
        vm.ok(b),
        vm.data_of(a) matches Some(HeapData::DateTime(x)) && x.offset_seconds is None
            && !x.naive.in_leap_second(),
        vm.data_of(b) matches Some(HeapData::DateTime(y)) && y.offset_seconds is None
            && !y.naive.in_leap_second(),
        told(r, vm.values_order(a, b)),
    ensures
        ({
            let x = vm.data_of(a)->0->DateTime_0.naive;
            let y = vm.data_of(b)->0->DateTime_0.naive;
            let clock = |n: crate::calendar::Naive|
                n.hour * 3_600_000_000 + n.minute * 60_000_000 + n.second * 1_000_000 + n.nano
                    / 1_000;
            let day_before = |m: crate::calendar::Naive, n: crate::calendar::Naive|
                m.year < n.year || (m.year == n.year && (m.month < n.month || (m.month == n.month
                    && m.day < n.day)));
            compares(
                r,
                day_before(x, y) || (!day_before(y, x) && clock(x) < clock(y)),
                day_before(y, x) || (!day_before(x, y) && clock(y) < clock(x)),
            )
        }),
{
    lemma_entry_ok(vm, a->Ref_0);
    lemma_entry_ok(vm, b->Ref_0);
    let x = vm.data_of(a)->0->DateTime_0.naive;
    let y = vm.data_of(b)->0->DateTime_0.naive;
    let p = crate::types::date::Date { year: x.year, month: x.month, day: x.day };
    let q = crate::types::date::Date { year: y.year, month: y.month, day: y.day };
    lemma_dates_ordered(p, q);
    lemma_dates_ordered(q, p);
    if p.day_number() == q.day_number() {
        crate::calendar::lemma_ordinal_injective(
            x.year as int,
            x.month as int,
            x.day as int,
            y.year as int,
            y.month as int,
            y.day as int,
        );
    }
}

/// Aware datetimes are in the order of their moments: of two on the same wall clock
/// the one further east comes first, and of two with the same offset the earlier
/// wall clock. An aware and a naive datetime have no order.
pub proof fn lemma_aware_in_order(vm: VM, a: Value, b: Value, r: RunResult<Option<Order>>)
    requires
        vm.data_of(a) matches Some(HeapData::DateTime(_)),
        vm.data_of(b) matches Some(HeapData::DateTime(_)),
        told(r, vm.values_order(a, b)),
    ensures
        ({
            let x = vm.data_of(a)->0->DateTime_0;
            let y = vm.data_of(b)->0->DateTime_0;
            match (x.offset_seconds, y.offset_seconds) {
                (Some(m), Some(n)) => {
                    &&& x.naive == y.naive ==> compares(r, m > n, m < n)
                    &&& m == n ==> compares(
                        r,
                        x.naive.epoch_micros() < y.naive.epoch_micros(),
                        x.naive.epoch_micros() > y.naive.epoch_micros(),
                    )
                },
                (None, None) => true,
                _ => r == Ok::<Option<Order>, RunError>(None),
            }
        }),
{
}

/// Tuples are in the order of the first items that are not the same; where all are
/// the same as far as the shorter one goes, the shorter one comes first.
pub proof fn lemma_tuples_in_order(
    vm: VM,
    a: Value,
    b: Value,
    xs: Seq<Value>,
    ys: Seq<Value>,
    k: int,
    r: RunResult<Option<Order>>,
)
    requires
        vm.data_of(a) matches Some(HeapData::Tuple(x)) && x.items@ == xs,
        vm.data_of(b) matches Some(HeapData::Tuple(y)) && y.items@ == ys,
        vm.heap.max_depth > 0,
        0 <= k <= xs.len(),
        k <= ys.len(),
        forall|i: int|
            0 <= i < k ==> order_of(vm, #[trigger] xs[i], ys[i], (vm.heap.max_depth - 1) as nat)
                == Ok::<Option<Order>, Raised>(Some(Order::Equal)),
        told(r, vm.values_order(a, b)),
    ensures
        k == xs.len() || k == ys.len() ==> compares(
            r,
            xs.len() < ys.len(),
            xs.len() > ys.len(),
        ),
        k < xs.len() && k < ys.len() ==> (match order_of(
            vm,
            xs[k],
            ys[k],
            (vm.heap.max_depth - 1) as nat,
        ) {
            Ok(Some(Order::Less)) => compares(r, true, false),
            Ok(Some(Order::Greater)) => compares(r, false, true),
            _ => true,
        }),
{
    lemma_items_from(vm, xs, ys, 0, k, (vm.heap.max_depth - 1) as nat);
}

proof fn lemma_items_from(vm: VM, xs: Seq<Value>, ys: Seq<Value>, i: int, k: int, fuel: nat)
    requires
        0 <= i <= k <= xs.len(),
        k <= ys.len(),
        forall|j: int|
            i <= j < k ==> order_of(vm, #[trigger] xs[j], ys[j], fuel) == Ok::<
                Option<Order>,
                Raised,
            >(Some(Order::Equal)),
    ensures
        order_items(vm, xs, ys, i, fuel) == order_items(vm, xs, ys, k, fuel),
    decreases k - i,
{
    if i < k {
        assert(order_of(vm, xs[i], ys[i], fuel) == Ok::<Option<Order>, Raised>(Some(Order::Equal)));
        lemma_items_from(vm, xs, ys, i + 1, k, fuel);
    }
}

} // verus!
