//! What equals what, what is in what, and what counts as true.

use vstd::prelude::*;

use crate::args::Raised;
use crate::exception::{RunError, RunResult};
use crate::float::{unit_scale, FloatValue};
use crate::heap::HeapData;
use crate::laws::dates::{date_at, datetime_at, duration_at};
use crate::laws::str_parts::{absent, stands};
use crate::types::containers::Range;
use crate::value::{FloatBits, Value};
use crate::value_add::lemma_entry_ok;
use crate::value_eq::{all_among, eq_entries, eq_items, equal, find_equal, told};
use crate::value_hash::hash_of;
use crate::vm::VM;

verus! {

/// Whether a comparison says this.
pub open spec fn says(r: RunResult<bool>, b: bool) -> bool {
    r == Ok::<bool, RunError>(b)
}

/// Integers, truth values among them, are equal exactly when their numbers are.
pub proof fn lemma_equal_integers(vm: VM, a: Value, b: Value, x: int, y: int, r: RunResult<bool>)
    requires
        vm.integer_of(a) == Some(x),
        vm.integer_of(b) == Some(y),
        told(r, vm.values_equal(a, b)),
    ensures
        says(r, x == y),
{
}

/// An integer and a float are equal exactly when the float is finite and their exact
/// values are the same; two floats as well, and what is not a number equals nothing.
pub proof fn lemma_equal_floats(
    vm: VM,
    a: Value,
    b: Value,
    r: RunResult<bool>,
    s: RunResult<bool>,
)
    requires
        a is Float,
        b is Float || vm.integer_of(b) is Some,
        told(r, vm.values_equal(a, b)),
        told(s, vm.values_equal(b, a)),
    ensures
        ({
            let f = a->Float_0.value();
            let same = match vm.integer_of(b) {
                Some(y) => f == FloatValue::Finite(y * unit_scale()),
                None => f == b->Float_0.value() && f != FloatValue::NotANumber,
            };
            says(r, same) && says(s, same)
        }),
{
}

/// Texts are equal exactly when they have the same characters; an interned text is
/// only interned once.
pub proof fn lemma_equal_texts(
    vm: VM,
    a: Value,
    b: Value,
    s: Seq<char>,
    t: Seq<char>,
    r: RunResult<bool>,
)
    requires
        vm.ok(a),
        vm.ok(b),
        crate::value_order::interned_once(vm),
        vm.text_of(a) == Some(s),
        vm.text_of(b) == Some(t),
        told(r, vm.values_equal(a, b)),
    ensures
        says(r, s == t),
{
    match (a, b) {
        (Value::InternString(i), Value::InternString(j)) => {
            if i.0 < j.0 {
                assert(vm.interns.strings@[i.0 as int]@ != vm.interns.strings@[j.0 as int]@);
            } else if j.0 < i.0 {
                assert(vm.interns.strings@[j.0 as int]@ != vm.interns.strings@[i.0 as int]@);
            }
        },
        _ => {},
    }
}

/// Bytes are equal exactly when they are the same bytes.
pub proof fn lemma_equal_bytes(
    vm: VM,
    a: Value,
    b: Value,
    s: Seq<u8>,
    t: Seq<u8>,
    r: RunResult<bool>,
)
    requires
        vm.bytes_of(a) == Some(s),
        vm.bytes_of(b) == Some(t),
        told(r, vm.values_equal(a, b)),
    ensures
        says(r, s == t),
{
}

/// A text, bytes, a number and `None` are never equal to one another.
pub proof fn lemma_kinds_unequal(vm: VM, a: Value, b: Value, r: RunResult<bool>)
    requires
        told(r, vm.values_equal(a, b)),
        ({
            let kind = |v: Value|
                if vm.text_of(v) is Some {
                    1int
                } else if vm.bytes_of(v) is Some {
                    2
                } else if vm.integer_of(v) is Some || v is Float {
                    3
                } else if v is PyNone {
                    4
                } else {
                    0
                };
            kind(a) != 0 && kind(b) != 0 && kind(a) != kind(b)
        }),
    ensures
        says(r, false),
{
}

/// Dates are equal exactly when they are the same day, and durations exactly when
/// they last equally long.
pub proof fn lemma_equal_dates_and_durations(vm: VM, a: Value, b: Value, r: RunResult<bool>)
    requires
        vm.wf(),
        vm.ok(a),
        vm.ok(b),
        told(r, vm.values_equal(a, b)),
    ensures
        date_at(vm, a) is Some && date_at(vm, b) is Some ==> says(
            r,
            date_at(vm, a)->0.year == date_at(vm, b)->0.year && date_at(vm, a)->0.month == date_at(
                vm,
                b,
            )->0.month && date_at(vm, a)->0.day == date_at(vm, b)->0.day,
        ),
        duration_at(vm, a) is Some && duration_at(vm, b) is Some ==> says(
            r,
            duration_at(vm, a)->0.total() == duration_at(vm, b)->0.total(),
        ),
{
    if duration_at(vm, a) is Some && duration_at(vm, b) is Some {
        lemma_entry_ok(vm, a->Ref_0);
        lemma_entry_ok(vm, b->Ref_0);
        crate::types::timedelta::lemma_duration_unique(
            duration_at(vm, a)->0,
            duration_at(vm, b)->0,
        );
    }
}

/// Datetimes are equal exactly when both are aware or both naive and their moments
/// are the same to the microsecond.
pub proof fn lemma_equal_datetimes(vm: VM, a: Value, b: Value, r: RunResult<bool>)
    requires
        told(r, vm.values_equal(a, b)),
        datetime_at(vm, a) is Some,
        datetime_at(vm, b) is Some,
    ensures
        ({
            let x = datetime_at(vm, a)->0;
            let y = datetime_at(vm, b)->0;
            match (x.offset_seconds, y.offset_seconds) {
                (Some(m), Some(n)) => says(
                    r,
                    x.naive.epoch_micros() - m * 1_000_000 == y.naive.epoch_micros() - n * 1_000_000,
                ),
                (None, None) => says(r, x.naive.epoch_micros() == y.naive.epoch_micros()),
                _ => says(r, false),
            }
        }),
{
}

/// The items of a tuple, named tuple or list.
pub open spec fn items_at(vm: VM, v: Value) -> Option<Seq<Value>> {
    match vm.data_of(v) {
        Some(HeapData::Tuple(t)) => Some(t.items@),
        Some(HeapData::NamedTuple(t)) => Some(t.items@),
        Some(HeapData::List(t)) => Some(t.items@),
        _ => None,
    }
}

/// Whether a value is a list.
pub open spec fn is_list(vm: VM, v: Value) -> bool {
    vm.data_of(v) matches Some(HeapData::List(_))
}

/// Tuples, a named tuple on the left among them, and lists are equal exactly when they
/// have as many items and each equals the one in its place; a list equals no tuple.
pub proof fn lemma_equal_sequences(
    vm: VM,
    a: Value,
    b: Value,
    xs: Seq<Value>,
    ys: Seq<Value>,
    r: RunResult<bool>,
)
    requires
        a != b,
        items_at(vm, a) == Some(xs),
        items_at(vm, b) == Some(ys),
        vm.data_of(a)->0 is Tuple ==> !(vm.data_of(b)->0 is NamedTuple),
        told(r, vm.values_equal(a, b)),
        r is Ok,
    ensures
        is_list(vm, a) != is_list(vm, b) ==> says(r, false),
        is_list(vm, a) == is_list(vm, b) && r->Ok_0 ==> xs.len() == ys.len() && (vm.heap.max_depth
            > 0 ==> pairs_equal(vm, xs, ys, (vm.heap.max_depth - 1) as nat)),
        is_list(vm, a) == is_list(vm, b) && !r->Ok_0 ==> xs.len() != ys.len() || some_unequal(
            vm,
            xs,
            ys,
            (vm.heap.max_depth - 1) as nat,
        ),
{
    if is_list(vm, a) == is_list(vm, b) && xs.len() == ys.len() {
        lemma_items_equal(vm, xs, ys, 0, (vm.heap.max_depth - 1) as nat);
    }
}

/// Whether each value equals the one in its place, with so many levels left.
pub open spec fn pairs_equal(vm: VM, xs: Seq<Value>, ys: Seq<Value>, fuel: nat) -> bool {
    forall|i: int| 0 <= i < xs.len() ==> equal(vm, #[trigger] xs[i], ys[i], fuel) == Ok::<bool, Raised>(true)
}

/// Whether some value does not equal the one in its place.
pub open spec fn some_unequal(vm: VM, xs: Seq<Value>, ys: Seq<Value>, fuel: nat) -> bool {
    exists|i: int| 0 <= i < xs.len() && equal(vm, #[trigger] xs[i], ys[i], fuel) == Ok::<bool, Raised>(false)
}

proof fn lemma_items_equal(vm: VM, xs: Seq<Value>, ys: Seq<Value>, i: int, fuel: nat)
    requires
        0 <= i <= xs.len(),
    ensures
        eq_items(vm, xs, ys, i, fuel) == Ok::<bool, Raised>(true) ==> forall|j: int|
            i <= j < xs.len() ==> equal(vm, #[trigger] xs[j], ys[j], fuel) == Ok::<bool, Raised>(true),
        eq_items(vm, xs, ys, i, fuel) == Ok::<bool, Raised>(false) ==> exists|j: int|
            i <= j < xs.len() && equal(vm, #[trigger] xs[j], ys[j], fuel) == Ok::<bool, Raised>(false),
    decreases xs.len() - i,
{
    if i < xs.len() {
        if equal(vm, xs[i], ys[i], fuel) == Ok::<bool, Raised>(true) {
            lemma_items_equal(vm, xs, ys, i + 1, fuel);
        }
    }
}

/// Whether a value equals one of the others, and whether it equals none, with so many
/// levels left.
pub open spec fn equals_one(vm: VM, v: Value, xs: Seq<Value>, fuel: nat) -> bool {
    exists|i: int| 0 <= i < xs.len() && equal(vm, v, #[trigger] xs[i], fuel) == Ok::<bool, Raised>(true)
}

/// Whether a value equals none of the others.
pub open spec fn equals_none(vm: VM, v: Value, xs: Seq<Value>, fuel: nat) -> bool {
    forall|i: int| 0 <= i < xs.len() ==> equal(vm, v, #[trigger] xs[i], fuel) == Ok::<bool, Raised>(false)
}

/// What the first place of an equal value is.
pub proof fn lemma_found_equal(vm: VM, xs: Seq<Value>, v: Value, i: int, fuel: nat)
    requires
        0 <= i <= xs.len(),
    ensures
        match find_equal(vm, xs, v, i, fuel) {
            Ok(j) => i <= j <= xs.len() && (j < xs.len() ==> equal(vm, v, xs[j], fuel) == Ok::<
                bool,
                Raised,
            >(true)) && forall|k: int|
                i <= k < j ==> equal(vm, v, #[trigger] xs[k], fuel) == Ok::<bool, Raised>(false),
            Err(_) => true,
        },
    decreases xs.len() - i,
{
    if i < xs.len() && equal(vm, v, xs[i], fuel) == Ok::<bool, Raised>(false) {
        lemma_found_equal(vm, xs, v, i + 1, fuel);
    }
}

/// The members of a set or frozen set.
pub open spec fn members_at(vm: VM, v: Value) -> Option<Seq<Value>> {
    match vm.data_of(v) {
        Some(HeapData::SetData(set)) => Some(set.items@),
        Some(HeapData::FrozenSet(set)) => Some(set.items@),
        _ => None,
    }
}

/// Sets, frozen ones among them, are equal exactly when they have as many members and
/// each of the one equals one of the other.
pub proof fn lemma_equal_sets(
    vm: VM,
    a: Value,
    b: Value,
    xs: Seq<Value>,
    ys: Seq<Value>,
    r: RunResult<bool>,
)
    requires
        a != b,
        members_at(vm, a) == Some(xs),
        members_at(vm, b) == Some(ys),
        told(r, vm.values_equal(a, b)),
        r is Ok,
    ensures
        r->Ok_0 ==> xs.len() == ys.len() && (vm.heap.max_depth > 0 ==> forall|i: int|
            0 <= i < xs.len() ==> equals_one(
                vm,
                #[trigger] xs[i],
                ys,
                (vm.heap.max_depth - 1) as nat,
            )),
        !r->Ok_0 ==> xs.len() != ys.len() || exists|i: int|
            0 <= i < xs.len() && equals_none(
                vm,
                #[trigger] xs[i],
                ys,
                (vm.heap.max_depth - 1) as nat,
            ),
{
    if xs.len() == ys.len() && vm.heap.max_depth > 0 {
        lemma_all_among(vm, xs, ys, 0, (vm.heap.max_depth - 1) as nat);
    }
}

proof fn lemma_all_among(vm: VM, xs: Seq<Value>, ys: Seq<Value>, i: int, fuel: nat)
    requires
        0 <= i <= xs.len(),
    ensures
        all_among(vm, xs, ys, i, fuel) == Ok::<bool, Raised>(true) ==> forall|j: int|
            i <= j < xs.len() ==> equals_one(vm, #[trigger] xs[j], ys, fuel),
        all_among(vm, xs, ys, i, fuel) == Ok::<bool, Raised>(false) ==> exists|j: int|
            i <= j < xs.len() && equals_none(vm, #[trigger] xs[j], ys, fuel),
    decreases xs.len() - i,
{
    if i < xs.len() {
        lemma_found_equal(vm, ys, xs[i], 0, fuel);
        match find_equal(vm, ys, xs[i], 0, fuel) {
            Ok(j) => {
                if j < ys.len() {
                    assert(equals_one(vm, xs[i], ys, fuel));
                    lemma_all_among(vm, xs, ys, i + 1, fuel);
                } else {
                    assert(equals_none(vm, xs[i], ys, fuel));
                }
            },
            Err(_) => {},
        }
    }
}

/// The entries of a dictionary.
pub open spec fn entries_at(vm: VM, v: Value) -> Option<Seq<(Value, Value)>> {
    match vm.data_of(v) {
        Some(HeapData::Dict(dict)) => Some(dict.entries@),
        _ => None,
    }
}

/// Whether an entry has its like among others: the first key that equals its key
/// stands by a value that equals its value.
pub open spec fn has_like(
    vm: VM,
    e: (Value, Value),
    ys: Seq<(Value, Value)>,
    fuel: nat,
) -> bool {
    exists|j: int|
        0 <= j < ys.len() && equal(vm, e.0, (#[trigger] ys[j]).0, fuel) == Ok::<bool, Raised>(true)
            && equal(vm, e.1, ys[j].1, fuel) == Ok::<bool, Raised>(true)
}

/// Dictionaries that are equal have as many entries, and each of the one has its like
/// in the other. Where they are not and have as many, some entry has not.
pub proof fn lemma_equal_dicts(
    vm: VM,
    a: Value,
    b: Value,
    xs: Seq<(Value, Value)>,
    ys: Seq<(Value, Value)>,
    r: RunResult<bool>,
)
    requires
        a != b,
        entries_at(vm, a) == Some(xs),
        entries_at(vm, b) == Some(ys),
        told(r, vm.values_equal(a, b)),
        r is Ok,
    ensures
        r->Ok_0 ==> xs.len() == ys.len() && (vm.heap.max_depth > 0 ==> forall|i: int|
            0 <= i < xs.len() ==> has_like(
                vm,
                #[trigger] xs[i],
                ys,
                (vm.heap.max_depth - 1) as nat,
            )),
        !r->Ok_0 ==> xs.len() != ys.len() || exists|i: int|
            0 <= i < xs.len() && lacks_like(
                vm,
                #[trigger] xs[i],
                ys,
                (vm.heap.max_depth - 1) as nat,
            ),
{
    if xs.len() == ys.len() && vm.heap.max_depth > 0 {
        lemma_like_entries(vm, xs, ys, 0, (vm.heap.max_depth - 1) as nat);
    }
}

/// Whether an entry has not its like among others: no key equals its key, or the first
/// that does stands by a value that does not equal its value.
pub open spec fn lacks_like(
    vm: VM,
    e: (Value, Value),
    ys: Seq<(Value, Value)>,
    fuel: nat,
) -> bool {
    ||| forall|j: int|
        0 <= j < ys.len() ==> equal(vm, e.0, (#[trigger] ys[j]).0, fuel) == Ok::<bool, Raised>(
            false,
        )
    ||| exists|j: int|
        0 <= j < ys.len() && equal(vm, e.0, (#[trigger] ys[j]).0, fuel) == Ok::<bool, Raised>(true)
            && equal(vm, e.1, ys[j].1, fuel) == Ok::<bool, Raised>(false)
}

proof fn lemma_like_entries(
    vm: VM,
    xs: Seq<(Value, Value)>,
    ys: Seq<(Value, Value)>,
    i: int,
    fuel: nat,
)
    requires
        0 <= i <= xs.len(),
    ensures
        eq_entries(vm, xs, ys, i, fuel) == Ok::<bool, Raised>(true) ==> forall|j: int|
            i <= j < xs.len() ==> has_like(vm, #[trigger] xs[j], ys, fuel),
        eq_entries(vm, xs, ys, i, fuel) == Ok::<bool, Raised>(false) ==> exists|j: int|
            i <= j < xs.len() && lacks_like(vm, #[trigger] xs[j], ys, fuel),
    decreases xs.len() - i,
{
    if i < xs.len() {
        let keys = crate::types::str_methods::firsts(ys);
        lemma_found_equal(vm, keys, xs[i].0, 0, fuel);
        match find_equal(vm, keys, xs[i].0, 0, fuel) {
            Ok(j) => {
                if j < ys.len() {
                    assert(keys[j] == ys[j].0);
                    if equal(vm, xs[i].1, ys[j].1, fuel) == Ok::<bool, Raised>(true) {
                        assert(has_like(vm, xs[i], ys, fuel));
                        lemma_like_entries(vm, xs, ys, i + 1, fuel);
                    } else if equal(vm, xs[i].1, ys[j].1, fuel) == Ok::<bool, Raised>(false) {
                        assert(lacks_like(vm, xs[i], ys, fuel));
                    }
                } else {
                    assert forall|k: int| 0 <= k < ys.len() implies equal(
                        vm,
                        xs[i].0,
                        (#[trigger] ys[k]).0,
                        fuel,
                    ) == Ok::<bool, Raised>(false) by {
                        assert(keys[k] == ys[k].0);
                    }
                    assert(lacks_like(vm, xs[i], ys, fuel));
                }
            },
            Err(_) => {},
        }
    }
}

/// A text is in another exactly when it stands somewhere in it.
pub proof fn lemma_text_in(
    vm: VM,
    v: Value,
    item: Value,
    s: Seq<char>,
    t: Seq<char>,
    r: RunResult<bool>,
)
    requires
        vm.text_of(v) == Some(s),
        vm.text_of(item) == Some(t),
        told(r, vm.contains(v, item)),
    ensures
        says(r, !absent(s, t)),
{
    assert forall|i: int| #[trigger] stands(s, t, i)
        == crate::types::str_search::matches_at(s, t, i) by {
        crate::laws::str_parts::lemma_stands(s, t, i);
    }
    if crate::value_contains::text_within(s, t) {
        let i = choose|i: int| crate::types::str_search::matches_at(s, t, i);
        assert(stands(s, t, i));
    }
}

/// A value is in a list or tuple, or among the values of a dictionary, exactly when it
/// equals one of the items.
pub proof fn lemma_item_in(vm: VM, v: Value, item: Value, xs: Seq<Value>, r: RunResult<bool>)
    requires
        match vm.data_of(v) {
            Some(HeapData::List(list)) => list.items@ == xs,
            Some(HeapData::Tuple(tuple)) => tuple.items@ == xs,
            Some(HeapData::DictValuesView(view)) => vm.heap.data(view.dict_id) matches HeapData::Dict(
                dict,
            ) && dict.values() == xs,
            _ => false,
        },
        told(r, vm.contains(v, item)),
        r is Ok,
    ensures
        r->Ok_0 ==> equals_one(vm, item, xs, vm.heap.max_depth as nat),
        !r->Ok_0 ==> equals_none(vm, item, xs, vm.heap.max_depth as nat),
{
    match vm.data_of(v) {
        Some(HeapData::DictValuesView(view)) => {
            assert(crate::types::str_methods::seconds(
                crate::types::str_methods::dict_entries(vm, view.dict_id),
            ) =~= xs);
        },
        _ => {},
    }
    lemma_found_equal(vm, xs, item, 0, vm.heap.max_depth as nat);
}

/// A value is in a dictionary, among its keys or in a set exactly when it equals a key
/// or member; what cannot be hashed is an error.
pub proof fn lemma_key_in(vm: VM, v: Value, item: Value, keys: Seq<Value>, r: RunResult<bool>)
    requires
        match vm.data_of(v) {
            Some(HeapData::Dict(dict)) => dict.keys() == keys,
            Some(HeapData::DictKeysView(view)) => vm.heap.data(view.dict_id) matches HeapData::Dict(
                dict,
            ) && dict.keys() == keys,
            _ => members_at(vm, v) == Some(keys),
        },
        told(r, vm.contains(v, item)),
    ensures
        hash_of(vm, item, vm.heap.max_depth as nat) == Ok::<Option<u64>, Raised>(None) ==> r is Err,
        r is Ok && r->Ok_0 ==> equals_one(vm, item, keys, vm.heap.max_depth as nat),
        r is Ok && !r->Ok_0 ==> equals_none(vm, item, keys, vm.heap.max_depth as nat),
{
    match vm.data_of(v) {
        Some(HeapData::Dict(dict)) => {
            assert(crate::types::str_methods::firsts(dict.entries@) =~= keys);
        },
        Some(HeapData::DictKeysView(view)) => {
            assert(crate::types::str_methods::firsts(
                crate::types::str_methods::dict_entries(vm, view.dict_id),
            ) =~= keys);
        },
        _ => {},
    }
    lemma_found_equal(vm, keys, item, 0, vm.heap.max_depth as nat);
}

/// Whether a range comes to a number after so many steps, before its stop.
pub open spec fn counts_to(range: Range, n: int, k: int) -> bool {
    0 <= k && n == range.start + k * range.step && if range.step > 0 {
        n < range.stop
    } else {
        n > range.stop
    }
}

/// A float that is a whole number is in a range exactly when that number is, and one
/// that is not, or is not finite, is in none.
pub proof fn lemma_float_in_range(
    vm: VM,
    v: Value,
    range: Range,
    f: FloatBits,
    n: i64,
    r: RunResult<bool>,
    s: RunResult<bool>,
)
    requires
        vm.data_of(v) == Some(HeapData::Range(range)),
        told(r, vm.contains(v, Value::Float(f))),
        told(s, vm.contains(v, Value::Int(n))),
    ensures
        f.value() == FloatValue::Finite(n * unit_scale()) ==> r is Ok && s is Ok && r->Ok_0
            == s->Ok_0,
        f.value() matches FloatValue::Finite(x) ==> (forall|m: int| x != #[trigger] (m
            * unit_scale())) ==> r is Ok && !r->Ok_0,
        !(f.value() is Finite) ==> r is Ok && !r->Ok_0,
{
    let u = unit_scale();
    vstd::arithmetic::power2::lemma_pow2_pos(1074);
    assert(u > 0);
    vstd::arithmetic::div_mod::lemma_mod_multiples_basic(n as int, u);
    vstd::arithmetic::div_mod::lemma_div_multiples_vanish(n as int, u);
    vstd::arithmetic::mul::lemma_mul_is_commutative(n as int, u);
    if let FloatValue::Finite(x) = f.value() {
        if x % u == 0 {
            vstd::arithmetic::div_mod::lemma_fundamental_div_mod(x, u);
            assert(x == (x / u) * u) by (nonlinear_arith)
                requires
                    x == u * (x / u) + x % u,
                    x % u == 0,
            ;
        }
    }
}

/// A small integer is in a range exactly when the range counts to it.
pub proof fn lemma_number_in_range(
    vm: VM,
    v: Value,
    item: Value,
    range: Range,
    n: int,
    r: RunResult<bool>,
)
    requires
        vm.data_of(v) == Some(HeapData::Range(range)),
        range.step != 0,
        item is Int || item is Bool,
        vm.integer_of(item) == Some(n),
        told(r, vm.contains(v, item)),
    ensures
        says(r, exists|k: int| #[trigger] counts_to(range, n, k)),
{
    let step = range.step as int;
    let start = range.start as int;
    if range.has(n) {
        let k = if step > 0 {
            (n - start) / step
        } else {
            (start - n) / (-step)
        };
        if step > 0 {
            assert(n == start + k * step && 0 <= k) by (nonlinear_arith)
                requires
                    step > 0,
                    n >= start,
                    (n - start) % step == 0,
                    k == (n - start) / step,
            ;
        } else {
            assert(n == start + k * step && 0 <= k) by (nonlinear_arith)
                requires
                    step < 0,
                    n <= start,
                    (start - n) % (-step) == 0,
                    k == (start - n) / (-step),
            ;
        }
        assert(counts_to(range, n, k));
    }
    if exists|k: int| #[trigger] counts_to(range, n, k) {
        let k = choose|k: int| #[trigger] counts_to(range, n, k);
        if step > 0 {
            assert(n >= start && (n - start) % step == 0) by (nonlinear_arith)
                requires
                    step > 0,
                    0 <= k,
                    n == start + k * step,
            {
                assert(n - start == k * step);
                vstd::arithmetic::div_mod::lemma_mod_multiples_basic(k, step);
            }
        } else {
            assert(n <= start && (start - n) % (-step) == 0) by (nonlinear_arith)
                requires
                    step < 0,
                    0 <= k,
                    n == start + k * step,
            {
                assert(start - n == k * (-step));
                vstd::arithmetic::div_mod::lemma_mod_multiples_basic(k, -step);
            }
        }
    }
}

/// `len` of a text, bytes, sequence, dictionary, set or view is how many items it has.
pub proof fn lemma_lengths(vm: VM, v: Value, r: Option<usize>)
    requires
        vm.wf(),
        vm.ok(v),
        r == vm.len_of(v),
    ensures
        vm.text_of(v) matches Some(s) ==> s.len() <= usize::MAX ==> r == Some(s.len() as usize),
        vm.bytes_of(v) matches Some(b) ==> b.len() <= usize::MAX ==> r == Some(b.len() as usize),
        items_at(vm, v) matches Some(xs) ==> xs.len() <= usize::MAX ==> r == Some(
            xs.len() as usize,
        ),
        members_at(vm, v) matches Some(xs) ==> xs.len() <= usize::MAX ==> r == Some(
            xs.len() as usize,
        ),
        entries_at(vm, v) matches Some(xs) ==> xs.len() <= usize::MAX ==> r == Some(
            xs.len() as usize,
        ),
        viewed_at(vm, v) matches Some(xs) ==> xs.len() <= usize::MAX ==> r == Some(
            xs.len() as usize,
        ),
{
}

/// The entries of the dictionary that a view shows.
pub open spec fn viewed_at(vm: VM, v: Value) -> Option<Seq<(Value, Value)>> {
    match vm.data_of(v) {
        Some(HeapData::DictKeysView(view)) => entries_at(vm, Value::Ref(view.dict_id)),
        Some(HeapData::DictItemsView(view)) => entries_at(vm, Value::Ref(view.dict_id)),
        Some(HeapData::DictValuesView(view)) => entries_at(vm, Value::Ref(view.dict_id)),
        _ => None,
    }
}

/// Zero, `None`, `False`, a duration of no time and what has no items count as false;
/// other numbers and what has items count as true.
pub proof fn lemma_truth(vm: VM, v: Value, r: bool)
    requires
        r == vm.truth_of(v),
    ensures
        v is PyNone ==> !r,
        vm.integer_of(v) matches Some(n) ==> r == (n != 0),
        v matches Value::Float(f) ==> r == (f.value() != FloatValue::Finite(0)),
        duration_at(vm, v) matches Some(d) ==> r == (d.total() != 0),
        vm.text_of(v) matches Some(s) ==> s.len() <= usize::MAX ==> r == (s.len() > 0),
        vm.bytes_of(v) matches Some(b) ==> b.len() <= usize::MAX ==> r == (b.len() > 0),
        items_at(vm, v) matches Some(xs) ==> xs.len() <= usize::MAX ==> r == (xs.len() > 0),
        members_at(vm, v) matches Some(xs) ==> xs.len() <= usize::MAX ==> r == (xs.len() > 0),
        entries_at(vm, v) matches Some(xs) ==> xs.len() <= usize::MAX ==> r == (xs.len() > 0),
        date_at(vm, v) is Some || datetime_at(vm, v) is Some ==> r,
{
}

} // verus!
