//! The order of values.

use vstd::prelude::*;

use crate::args::Raised;
use crate::exception::RunResult;
use crate::float::{compare_floats, compare_long_float, float_order, mixed_order};
use crate::heap::{HeapData, HeapId};
use crate::order::{int_order, lex_order, order_i64, Order};
use crate::text::chars_of;
use crate::types::date::{lemma_dates_ordered, Date};
use crate::types::datetime::{moment_order, order_datetimes};
use crate::types::timedelta::{lemma_duration_unique, total_microseconds, TimeDelta};
use crate::value::Value;
use crate::value_add::lemma_entry_ok;
use crate::value_eq::{
    eq_items, eq_values, equal, is_sequential, lemma_items_sequential, lemma_sequential_symmetric,
    told, too_deep,
};
use crate::vm::VM;

verus! {

/// The code points of a text.
pub open spec fn code_points(s: Seq<char>) -> Seq<int> {
    s.map_values(|c: char| c as int)
}

/// Bytes as numbers.
pub open spec fn byte_values(b: Seq<u8>) -> Seq<int> {
    b.map_values(|x: u8| x as int)
}

/// The order the other way round, if there is one.
pub open spec fn flipped_order(o: Option<Order>) -> Option<Order> {
    match o {
        Some(o) => Some(o.flipped()),
        None => None,
    }
}

/// The order of two heap entries that hold no values, if they have one.
pub open spec fn plain_order(a: HeapData, b: HeapData) -> Option<Order> {
    match (a, b) {
        (HeapData::Date(x), HeapData::Date(y)) => Some(
            int_order(x.day_number(), y.day_number()),
        ),
        (HeapData::DateTime(x), HeapData::DateTime(y)) => moment_order(x, y),
        (HeapData::TimeDelta(x), HeapData::TimeDelta(y)) => Some(
            int_order(x.total(), y.total()),
        ),
        _ => None,
    }
}

/// The order of two values, if they have one: numbers by their exact value, texts
/// and bytes lexicographically, tuples item by item, dates and durations by time.
/// `fuel` is how many levels of tuples are left.
pub open spec fn order_of(vm: VM, a: Value, b: Value, fuel: nat) -> Result<Option<Order>, Raised>
    decreases fuel, 0nat, 0nat,
{
    match (vm.integer_of(a), vm.integer_of(b)) {
        (Some(x), Some(y)) => Ok(Some(int_order(x, y))),
        (Some(x), None) => match b {
            Value::Float(f) => Ok(mixed_order(x, f.value())),
            _ => Ok(None),
        },
        (None, Some(y)) => match a {
            Value::Float(f) => Ok(flipped_order(mixed_order(y, f.value()))),
            _ => Ok(None),
        },
        (None, None) => match (a, b) {
            (Value::Float(f), Value::Float(g)) => Ok(float_order(f.value(), g.value())),
            (Value::InternBytes(x), Value::InternBytes(y)) => Ok(
                Some(
                    lex_order(
                        byte_values(vm.interns.bytes_at(x)),
                        byte_values(vm.interns.bytes_at(y)),
                    ),
                ),
            ),
            _ => match (vm.text_of(a), vm.text_of(b)) {
                (Some(s), Some(t)) => Ok(Some(lex_order(code_points(s), code_points(t)))),
                _ => match (vm.data_of(a), vm.data_of(b)) {
                    (Some(HeapData::Tuple(x)), Some(HeapData::Tuple(y))) => if fuel == 0 {
                        Err(too_deep())
                    } else {
                        order_items(vm, x.items@, y.items@, 0, (fuel - 1) as nat)
                    },
                    (Some(x), Some(y)) => Ok(plain_order(x, y)),
                    _ => Ok(None),
                },
            },
        },
    }
}

/// The order of two sequences from `i` on: that of the first items that differ, or
/// else that of the lengths. Items that are equal but have no order count as equal.
pub open spec fn order_items(vm: VM, xs: Seq<Value>, ys: Seq<Value>, i: int, fuel: nat) -> Result<
    Option<Order>,
    Raised,
>
    decreases fuel, 1nat, xs.len() - i,
{
    if i >= xs.len() || i >= ys.len() {
        Ok(Some(int_order(xs.len() as int, ys.len() as int)))
    } else {
        match order_of(vm, xs[i], ys[i], fuel) {
            Err(e) => Err(e),
            Ok(Some(Order::Equal)) => order_items(vm, xs, ys, i + 1, fuel),
            Ok(Some(o)) => Ok(Some(o)),
            Ok(None) => match equal(vm, xs[i], ys[i], fuel) {
                Err(e) => Err(e),
                Ok(false) => Ok(None),
                Ok(true) => order_items(vm, xs, ys, i + 1, fuel),
            },
        }
    }
}

impl VM {
    /// The order of two values within the limit on depth.
    pub open spec fn values_order(self, a: Value, b: Value) -> Result<Option<Order>, Raised> {
        order_of(self, a, b, self.heap.max_depth as nat)
    }
}

fn flip(o: Option<Order>) -> (r: Option<Order>)
    ensures
        r == flipped_order(o),
{
    match o {
        Some(o) => Some(o.reverse()),
        None => None,
    }
}

/// The lexicographic order of two texts.
pub fn order_texts(a: &str, b: &str) -> (r: Order)
    ensures
        r == lex_order(code_points(a@), code_points(b@)),
{
    let x = chars_of(a);
    let y = chars_of(b);
    let ghost p = code_points(x@);
    let ghost q = code_points(y@);
    let mut i: usize = 0;
    assert(p.skip(0) =~= p && q.skip(0) =~= q);
    while i < x.len() && i < y.len()
        invariant
            i <= x.len(),
            i <= y.len(),
            x@ == a@,
            y@ == b@,
            p == code_points(x@),
            q == code_points(y@),
            lex_order(p, q) == lex_order(p.skip(i as int), q.skip(i as int)),
        decreases x.len() - i,
    {
        assert(p.skip(i as int)[0] == x@[i as int] as int);
        assert(q.skip(i as int)[0] == y@[i as int] as int);
        if x[i] < y[i] {
            return Order::Less;
        }
        if x[i] > y[i] {
            return Order::Greater;
        }
        assert(p.skip(i as int).skip(1) =~= p.skip(i + 1));
        assert(q.skip(i as int).skip(1) =~= q.skip(i + 1));
        i += 1;
    }
    if x.len() > i {
        Order::Greater
    } else if y.len() > i {
        Order::Less
    } else {
        Order::Equal
    }
}

/// The lexicographic order of bytes.
pub fn order_bytes(x: &[u8], y: &[u8]) -> (r: Order)
    ensures
        r == lex_order(byte_values(x@), byte_values(y@)),
{
    let ghost p = byte_values(x@);
    let ghost q = byte_values(y@);
    let mut i: usize = 0;
    assert(p.skip(0) =~= p && q.skip(0) =~= q);
    while i < x.len() && i < y.len()
        invariant
            i <= x.len(),
            i <= y.len(),
            p == byte_values(x@),
            q == byte_values(y@),
            lex_order(p, q) == lex_order(p.skip(i as int), q.skip(i as int)),
        decreases x.len() - i,
    {
        assert(p.skip(i as int)[0] == x@[i as int] as int);
        assert(q.skip(i as int)[0] == y@[i as int] as int);
        if x[i] < y[i] {
            return Order::Less;
        }
        if x[i] > y[i] {
            return Order::Greater;
        }
        assert(p.skip(i as int).skip(1) =~= p.skip(i + 1));
        assert(q.skip(i as int).skip(1) =~= q.skip(i + 1));
        i += 1;
    }
    if x.len() > i {
        Order::Greater
    } else if y.len() > i {
        Order::Less
    } else {
        Order::Equal
    }
}

/// The order of two dates.
pub fn order_dates(a: &Date, b: &Date) -> (r: Order)
    requires
        a.wf(),
        b.wf(),
    ensures
        r == int_order(a.day_number(), b.day_number()),
{
    proof {
        lemma_dates_ordered(*a, *b);
        lemma_dates_ordered(*b, *a);
    }
    if a.year != b.year {
        order_i64(a.year as i64, b.year as i64)
    } else if a.month != b.month {
        order_i64(a.month as i64, b.month as i64)
    } else {
        order_i64(a.day as i64, b.day as i64)
    }
}

/// The order of two durations.
pub fn order_durations(a: &TimeDelta, b: &TimeDelta) -> (r: Order)
    requires
        a.wf(),
        b.wf(),
    ensures
        r == int_order(a.total(), b.total()),
{
    let x: i128 = total_microseconds(a);
    let y: i128 = total_microseconds(b);
    if x < y {
        Order::Less
    } else if x == y {
        Order::Equal
    } else {
        Order::Greater
    }
}

/// The order of two lengths.
fn order_lengths(a: usize, b: usize) -> (r: Order)
    ensures
        r == int_order(a as int, b as int),
{
    if a < b {
        Order::Less
    } else if a == b {
        Order::Equal
    } else {
        Order::Greater
    }
}

/// The order of two values with `depth` levels of tuples left.
fn order_values(a: &Value, b: &Value, depth: usize, vm: &VM) -> (r: RunResult<Option<Order>>)
    requires
        vm.wf(),
        vm.ok(*a),
        vm.ok(*b),
    ensures
        told(r, order_of(*vm, *a, *b, depth as nat)),
    decreases depth, 1nat,
{
    match (a.extract_bigint(vm), b.extract_bigint(vm)) {
        (Some(x), Some(y)) => {
            return Ok(Some(x.compare(&y)));
        },
        (Some(x), None) => {
            return match b {
                Value::Float(f) => Ok(compare_long_float(&x, *f)),
                _ => Ok(None),
            };
        },
        (None, Some(y)) => {
            return match a {
                Value::Float(f) => Ok(flip(compare_long_float(&y, *f))),
                _ => Ok(None),
            };
        },
        (None, None) => {},
    }
    match (a, b) {
        (Value::Float(f), Value::Float(g)) => {
            return Ok(compare_floats(*f, *g));
        },
        (Value::InternBytes(x), Value::InternBytes(y)) => {
            return Ok(Some(order_bytes(vm.interns.get_bytes(*x), vm.interns.get_bytes(*y))));
        },
        _ => {},
    }
    match (a.text(vm), b.text(vm)) {
        (Some(s), Some(t)) => {
            return Ok(Some(order_texts(s, t)));
        },
        _ => {},
    }
    match (a, b) {
        (Value::Ref(x), Value::Ref(y)) => order_entries(*x, *y, depth, vm),
        _ => Ok(None),
    }
}

/// The order of two heap entries that are neither numbers nor texts.
fn order_entries(a: HeapId, b: HeapId, depth: usize, vm: &VM) -> (r: RunResult<Option<Order>>)
    requires
        vm.wf(),
        a.0 < vm.entries().len(),
        b.0 < vm.entries().len(),
    ensures
        told(
            r,
            match (vm.heap.data(a), vm.heap.data(b)) {
                (HeapData::Tuple(x), HeapData::Tuple(y)) => if depth == 0 {
                    Err(too_deep())
                } else {
                    order_items(*vm, x.items@, y.items@, 0, (depth - 1) as nat)
                },
                (x, y) => Ok(plain_order(x, y)),
            },
        ),
    decreases depth, 0nat,
{
    proof {
        lemma_entry_ok(*vm, a);
        lemma_entry_ok(*vm, b);
    }
    match (vm.heap.get(a), vm.heap.get(b)) {
        (HeapData::Tuple(x), HeapData::Tuple(y)) => {
            if depth == 0 {
                return Err(VM::recursion_error());
            }
            let xs = x.as_slice();
            let ys = y.as_slice();
            let ghost fuel = (depth - 1) as nat;
            let mut i: usize = 0;
            while i < xs.len() && i < ys.len()
                invariant
                    vm.wf(),
                    vm.all_ok(xs@),
                    vm.all_ok(ys@),
                    xs@ == x.items@,
                    ys@ == y.items@,
                    vm.heap.data(a) == HeapData::Tuple(*x),
                    vm.heap.data(b) == HeapData::Tuple(*y),
                    depth > 0,
                    fuel == depth - 1,
                    i <= xs.len(),
                    i <= ys.len(),
                    order_items(*vm, xs@, ys@, 0, fuel) == order_items(
                        *vm,
                        xs@,
                        ys@,
                        i as int,
                        fuel,
                    ),
                decreases xs.len() - i,
            {
                assert(vm.ok(xs@[i as int]) && vm.ok(ys@[i as int]));
                match order_values(&xs[i], &ys[i], depth - 1, vm) {
                    Err(e) => {
                        return Err(e);
                    },
                    Ok(Some(Order::Equal)) => {},
                    Ok(Some(o)) => {
                        return Ok(Some(o));
                    },
                    Ok(None) => match eq_values(&xs[i], &ys[i], depth - 1, vm) {
                        Err(e) => {
                            return Err(e);
                        },
                        Ok(same) => {
                            if !same {
                                return Ok(None);
                            }
                        },
                    },
                }
                i += 1;
            }
            Ok(Some(order_lengths(xs.len(), ys.len())))
        },
        (HeapData::Date(x), HeapData::Date(y)) => Ok(Some(order_dates(x, y))),
        (HeapData::DateTime(x), HeapData::DateTime(y)) => Ok(order_datetimes(x, y)),
        (HeapData::TimeDelta(x), HeapData::TimeDelta(y)) => Ok(Some(order_durations(x, y))),
        _ => Ok(None),
    }
}

impl Value {
    /// The order of two values, if they have one.
    pub fn py_cmp(&self, other: &Value, vm: &VM) -> (r: RunResult<Option<Order>>)
        requires
            vm.wf(),
            vm.ok(*self),
            vm.ok(*other),
        ensures
            told(r, vm.values_order(*self, *other)),
    {
        order_values(self, other, vm.heap.max_depth, vm)
    }
}

proof fn lemma_lex_flips(a: Seq<int>, b: Seq<int>)
    ensures
        lex_order(b, a) == lex_order(a, b).flipped(),
    decreases a.len(),
{
    if a.len() > 0 && b.len() > 0 && a[0] == b[0] {
        lemma_lex_flips(a.skip(1), b.skip(1));
    }
}

proof fn lemma_lex_equal(a: Seq<int>, b: Seq<int>)
    ensures
        lex_order(a, b) == Order::Equal <==> a == b,
    decreases a.len(),
{
    if a.len() > 0 && b.len() > 0 && a[0] == b[0] {
        lemma_lex_equal(a.skip(1), b.skip(1));
        if a.skip(1) == b.skip(1) {
            assert forall|i: int| 0 <= i < a.len() implies a[i] == b[i] by {
                if i > 0 {
                    assert(a[i] == a.skip(1)[i - 1]);
                    assert(b[i] == b.skip(1)[i - 1]);
                }
            }
            assert(a =~= b);
        }
    } else if a.len() == 0 && b.len() == 0 {
        assert(a =~= b);
    }
}

proof fn lemma_same_code_points(s: Seq<char>, t: Seq<char>)
    ensures
        code_points(s) == code_points(t) <==> s == t,
{
    if code_points(s) == code_points(t) {
        assert(code_points(s).len() == code_points(t).len());
        assert forall|i: int| 0 <= i < s.len() implies s[i] == t[i] by {
            assert(code_points(s)[i] == code_points(t)[i]);
        }
        assert(s =~= t);
    }
}

proof fn lemma_same_byte_values(s: Seq<u8>, t: Seq<u8>)
    ensures
        byte_values(s) == byte_values(t) <==> s == t,
{
    if byte_values(s) == byte_values(t) {
        assert(byte_values(s).len() == byte_values(t).len());
        assert forall|i: int| 0 <= i < s.len() implies s[i] == t[i] by {
            assert(byte_values(s)[i] == byte_values(t)[i]);
        }
        assert(s =~= t);
    }
}

/// The order of items turned round.
proof fn lemma_items_flip(vm: VM, xs: Seq<Value>, ys: Seq<Value>, i: int, fuel: nat)
    requires
        0 <= i <= xs.len(),
        forall|j: int| 0 <= j < xs.len() ==> is_sequential(vm, #[trigger] xs[j], fuel),
        forall|j: int| 0 <= j < ys.len() ==> is_sequential(vm, #[trigger] ys[j], fuel),
    ensures
        order_items(vm, ys, xs, i, fuel) == turned(order_items(vm, xs, ys, i, fuel)),
    decreases fuel, 1nat, xs.len() - i,
{
    if i < xs.len() && i < ys.len() {
        lemma_flips(vm, xs[i], ys[i], fuel);
        lemma_sequential_symmetric(vm, xs[i], ys[i], fuel);
        lemma_items_flip(vm, xs, ys, i + 1, fuel);
    }
}

/// The order turned round, within a depth.
proof fn lemma_flips(vm: VM, a: Value, b: Value, fuel: nat)
    requires
        comparable_items(vm, a, b, fuel),
    ensures
        order_of(vm, b, a, fuel) == turned(order_of(vm, a, b, fuel)),
    decreases fuel, 0nat, 0int,
{
    match (a, b) {
        (Value::InternBytes(x), Value::InternBytes(y)) => {
            lemma_lex_flips(
                byte_values(vm.interns.bytes_at(x)),
                byte_values(vm.interns.bytes_at(y)),
            );
        },
        _ => {},
    }
    match (vm.text_of(a), vm.text_of(b)) {
        (Some(s), Some(t)) => lemma_lex_flips(code_points(s), code_points(t)),
        _ => {},
    }
    match (vm.data_of(a), vm.data_of(b)) {
        (Some(HeapData::Tuple(x)), Some(HeapData::Tuple(y))) => {
            if fuel > 0 {
                lemma_items_sequential(vm, a, x.items@, fuel);
                lemma_items_sequential(vm, b, y.items@, fuel);
                lemma_items_flip(vm, x.items@, y.items@, 0, (fuel - 1) as nat);
            }
        },
        _ => {},
    }
}

/// Whether two tuples, if that is what is compared, hold nothing but what is
/// compared place by place.
pub open spec fn comparable_items(vm: VM, a: Value, b: Value, fuel: nat) -> bool {
    match (vm.data_of(a), vm.data_of(b)) {
        (Some(HeapData::Tuple(_)), Some(HeapData::Tuple(_))) => is_sequential(vm, a, fuel)
            && is_sequential(vm, b, fuel),
        _ => true,
    }
}

/// What an order is when the operands are exchanged.
pub open spec fn turned(r: Result<Option<Order>, Raised>) -> Result<Option<Order>, Raised> {
    match r {
        Ok(o) => Ok(flipped_order(o)),
        Err(e) => Err(e),
    }
}

/// Exchanging the operands turns the order round. Tuples must not hold
/// dictionaries, sets, views or instances.
pub proof fn lemma_order_flips(vm: VM, a: Value, b: Value)
    requires
        comparable_items(vm, a, b, vm.heap.max_depth as nat),
    ensures
        vm.values_order(b, a) == turned(vm.values_order(a, b)),
{
    lemma_flips(vm, a, b, vm.heap.max_depth as nat);
}

/// Whether no text is interned twice.
pub open spec fn interned_once(vm: VM) -> bool {
    forall|i: int, j: int|
        0 <= i < j < vm.interns.strings@.len() ==> (#[trigger] vm.interns.strings@[i])@ != (
        #[trigger] vm.interns.strings@[j])@
}

/// A value does not come before or after itself.
proof fn lemma_order_self(vm: VM, a: Value, fuel: nat)
    requires
        order_of(vm, a, a, fuel) matches Ok(Some(_)),
    ensures
        order_of(vm, a, a, fuel) == Ok::<Option<Order>, Raised>(Some(Order::Equal)),
    decreases fuel, 0nat, 0int,
{
    match a {
        Value::InternBytes(x) => {
            let p = byte_values(vm.interns.bytes_at(x));
            lemma_lex_equal(p, p);
        },
        _ => {},
    }
    match vm.text_of(a) {
        Some(s) => lemma_lex_equal(code_points(s), code_points(s)),
        None => {},
    }
    match vm.data_of(a) {
        Some(HeapData::Tuple(x)) => {
            if fuel > 0 {
                lemma_items_self(vm, x.items@, 0, (fuel - 1) as nat);
            }
        },
        _ => {},
    }
}

/// Items do not come before or after themselves.
proof fn lemma_items_self(vm: VM, xs: Seq<Value>, i: int, fuel: nat)
    requires
        0 <= i <= xs.len(),
        order_items(vm, xs, xs, i, fuel) matches Ok(Some(_)),
    ensures
        order_items(vm, xs, xs, i, fuel) == Ok::<Option<Order>, Raised>(Some(Order::Equal)),
    decreases fuel, 1nat, xs.len() - i,
{
    if i < xs.len() {
        match order_of(vm, xs[i], xs[i], fuel) {
            Ok(Some(_)) => {
                lemma_order_self(vm, xs[i], fuel);
            },
            _ => {},
        }
        lemma_items_self(vm, xs, i + 1, fuel);
    }
}

/// Items that have an order are equal exactly when neither come first.
proof fn lemma_items_order(vm: VM, xs: Seq<Value>, ys: Seq<Value>, i: int, fuel: nat)
    requires
        vm.wf(),
        vm.all_ok(xs),
        vm.all_ok(ys),
        interned_once(vm),
        0 <= i <= xs.len(),
        xs.len() == ys.len(),
        order_items(vm, xs, ys, i, fuel) matches Ok(Some(_)),
    ensures
        eq_items(vm, xs, ys, i, fuel) == Ok::<bool, Raised>(
            order_items(vm, xs, ys, i, fuel) == Ok::<Option<Order>, Raised>(Some(Order::Equal)),
        ),
    decreases fuel, 2nat, xs.len() - i,
{
    if i < xs.len() {
        assert(vm.ok(xs[i]) && vm.ok(ys[i]));
        match order_of(vm, xs[i], ys[i], fuel) {
            Ok(Some(o)) => {
                lemma_ordered_equal(vm, xs[i], ys[i], fuel);
                if o == Order::Equal {
                    lemma_items_order(vm, xs, ys, i + 1, fuel);
                }
            },
            Ok(None) => {
                lemma_items_order(vm, xs, ys, i + 1, fuel);
            },
            Err(_) => {},
        }
    }
}

/// Values that have an order are equal exactly when neither comes first, within a
/// depth.
proof fn lemma_ordered_equal(vm: VM, a: Value, b: Value, fuel: nat)
    requires
        vm.wf(),
        vm.ok(a),
        vm.ok(b),
        interned_once(vm),
        order_of(vm, a, b, fuel) matches Ok(Some(_)),
    ensures
        equal(vm, a, b, fuel) == Ok::<bool, Raised>(
            order_of(vm, a, b, fuel) == Ok::<Option<Order>, Raised>(Some(Order::Equal)),
        ),
    decreases fuel, 1nat, 0int,
{
    if a == b && a is Ref {
        lemma_order_self(vm, a, fuel);
    }
    match (vm.data_of(a), vm.data_of(b)) {
        (Some(HeapData::Tuple(x)), Some(HeapData::Tuple(y))) => {
            lemma_tuple_order(vm, a, b, x.items@, y.items@, fuel);
        },
        _ => {
            lemma_plain_ordered_equal(vm, a, b, fuel);
        },
    }
}

/// The same for tuples.
proof fn lemma_tuple_order(
    vm: VM,
    a: Value,
    b: Value,
    xs: Seq<Value>,
    ys: Seq<Value>,
    fuel: nat,
)
    requires
        vm.wf(),
        vm.ok(a),
        vm.ok(b),
        interned_once(vm),
        vm.data_of(a) matches Some(HeapData::Tuple(x)) && x.items@ == xs,
        vm.data_of(b) matches Some(HeapData::Tuple(y)) && y.items@ == ys,
        order_of(vm, a, b, fuel) matches Ok(Some(_)),
        a == b ==> order_of(vm, a, b, fuel) == Ok::<Option<Order>, Raised>(Some(Order::Equal)),
    ensures
        equal(vm, a, b, fuel) == Ok::<bool, Raised>(
            order_of(vm, a, b, fuel) == Ok::<Option<Order>, Raised>(Some(Order::Equal)),
        ),
    decreases fuel, 0nat, 0int,
{
    match (a, b) {
        (Value::Ref(i), Value::Ref(j)) => {
            lemma_entry_ok(vm, i);
            lemma_entry_ok(vm, j);
        },
        _ => {},
    }
    if xs.len() == ys.len() {
        lemma_items_order(vm, xs, ys, 0, (fuel - 1) as nat);
    } else {
        lemma_lengths_order(vm, xs, ys, 0, (fuel - 1) as nat);
    }
}

/// Sequences of different lengths are not alike in order.
proof fn lemma_lengths_order(vm: VM, xs: Seq<Value>, ys: Seq<Value>, i: int, fuel: nat)
    requires
        0 <= i <= xs.len(),
        i <= ys.len(),
        xs.len() != ys.len(),
    ensures
        order_items(vm, xs, ys, i, fuel) != Ok::<Option<Order>, Raised>(Some(Order::Equal)),
    decreases xs.len() - i,
{
    if i < xs.len() && i < ys.len() {
        lemma_lengths_order(vm, xs, ys, i + 1, fuel);
    }
}

/// The same for values that are not tuples.
proof fn lemma_plain_ordered_equal(vm: VM, a: Value, b: Value, fuel: nat)
    requires
        vm.wf(),
        vm.ok(a),
        vm.ok(b),
        interned_once(vm),
        !(vm.data_of(a) matches Some(HeapData::Tuple(_))) || !(vm.data_of(b) matches Some(
            HeapData::Tuple(_),
        )),
        order_of(vm, a, b, fuel) matches Ok(Some(_)),
    ensures
        equal(vm, a, b, fuel) == Ok::<bool, Raised>(
            order_of(vm, a, b, fuel) == Ok::<Option<Order>, Raised>(Some(Order::Equal)),
        ),
{
    match (a, b) {
        (Value::InternBytes(x), Value::InternBytes(y)) => {
            let p = vm.interns.bytes_at(x);
            let q = vm.interns.bytes_at(y);
            lemma_lex_equal(byte_values(p), byte_values(q));
            lemma_same_byte_values(p, q);
        },
        _ => {},
    }
    match (vm.text_of(a), vm.text_of(b)) {
        (Some(s), Some(t)) => {
            lemma_lex_equal(code_points(s), code_points(t));
            lemma_same_code_points(s, t);
            match (a, b) {
                (Value::InternString(i), Value::InternString(j)) => {
                    if i.0 < j.0 {
                        assert(vm.interns.strings@[i.0 as int]@ != vm.interns.strings@[j.0 as int]@);
                    } else if j.0 < i.0 {
                        assert(vm.interns.strings@[j.0 as int]@ != vm.interns.strings@[i.0 as int]@);
                    }
                },
                _ => {},
            }
        },
        _ => {},
    }
    match (a, b) {
        (Value::Ref(i), Value::Ref(j)) => {
            lemma_entry_ok(vm, i);
            lemma_entry_ok(vm, j);
            match (vm.heap.data(i), vm.heap.data(j)) {
                (HeapData::Date(x), HeapData::Date(y)) => {
                    lemma_dates_ordered(x, y);
                    lemma_dates_ordered(y, x);
                },
                (HeapData::TimeDelta(x), HeapData::TimeDelta(y)) => {
                    lemma_duration_unique(x, y);
                },
                _ => {},
            }
        },
        _ => {},
    }
}

/// Values that have an order are equal exactly when neither comes first.
pub proof fn lemma_order_and_equality(vm: VM, a: Value, b: Value)
    requires
        vm.wf(),
        vm.ok(a),
        vm.ok(b),
        interned_once(vm),
        vm.values_order(a, b) matches Ok(Some(_)),
    ensures
        vm.values_equal(a, b) == Ok::<bool, Raised>(
            vm.values_order(a, b) == Ok::<Option<Order>, Raised>(Some(Order::Equal)),
        ),
{
    lemma_ordered_equal(vm, a, b, vm.heap.max_depth as nat);
}

} // verus!
