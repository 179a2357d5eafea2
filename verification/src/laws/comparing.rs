//! What else equals what, and what is shared.

use vstd::prelude::*;

use crate::args::Raised;
use crate::exception::{RunError, RunResult};
use crate::heap::HeapData;
use crate::laws::equality::{counts_to, says};
use crate::laws::objects::lemma_range_count;
use crate::order::Order;
use crate::types::containers::Range;
use crate::types::dict_view_ops::{disjoint, elements_equal, find_element, is_member, none_within, Element};
use crate::value::Value;
use crate::value_div::ModEq;
use crate::value_eq::{equal, told};
use crate::vm::VM;

verus! {

/// Paths are equal exactly when their texts are, slices when their parts are, and
/// timezones when their offsets are, whatever their names.
pub proof fn lemma_equal_plain(vm: VM, a: Value, b: Value, r: RunResult<bool>)
    requires
        a != b,
        told(r, vm.values_equal(a, b)),
    ensures
        match (vm.data_of(a), vm.data_of(b)) {
            (Some(HeapData::Path(x)), Some(HeapData::Path(y))) => says(r, x@ == y@),
            (Some(HeapData::Slice(x)), Some(HeapData::Slice(y))) => says(
                r,
                x.start == y.start && x.stop == y.stop && x.step == y.step,
            ),
            (Some(HeapData::TimeZone(x)), Some(HeapData::TimeZone(y))) => says(
                r,
                x.offset_seconds == y.offset_seconds,
            ),
            (Some(HeapData::RePattern(x)), Some(HeapData::RePattern(y))) => says(
                r,
                x.text() == y.text() && x.bits() == y.bits(),
            ),
            _ => true,
        },
{
}

/// Ranges are equal exactly when they count the same numbers in the same order.
pub proof fn lemma_equal_ranges(vm: VM, a: Value, b: Value, x: Range, y: Range, r: RunResult<bool>)
    requires
        a != b,
        x.step != 0,
        y.step != 0,
        vm.data_of(a) == Some(HeapData::Range(x)),
        vm.data_of(b) == Some(HeapData::Range(y)),
        told(r, vm.values_equal(a, b)),
    ensures
        says(
            r,
            forall|k: int, n: int| 0 <= k ==> #[trigger] counts_to(x, n, k) == counts_to(y, n, k),
        ),
{
    let same = x.same(y);
    if same {
        assert forall|k: int, n: int| 0 <= k implies #[trigger] counts_to(x, n, k) == counts_to(
            y,
            n,
            k,
        ) by {
            lemma_range_count(x, k);
            lemma_range_count(y, k);
            if counts_to(x, n, k) || counts_to(y, n, k) {
                assert(x.count() > 0);
                if x.count() == 1 {
                    assert(k == 0);
                    assert(k * x.step == 0 && k * y.step == 0);
                }
            }
        }
    } else if forall|k: int, n: int|
        0 <= k ==> #[trigger] counts_to(x, n, k) == counts_to(y, n, k) {
        lemma_range_count(x, 0);
        lemma_range_count(y, 0);
        lemma_range_count(x, y.count());
        lemma_range_count(y, y.count());
        lemma_range_count(x, x.count());
        lemma_range_count(y, x.count());
        let p = x.count();
        let q = y.count();
        if p > q {
            let n = x.start + q * x.step;
            assert(counts_to(x, n, q) == counts_to(y, n, q));
            assert(counts_to(x, n, q));
            assert(n == y.start + q * y.step);
        } else if q > p {
            let n = y.start + p * y.step;
            assert(counts_to(x, n, p) == counts_to(y, n, p));
            assert(counts_to(y, n, p));
            assert(n == x.start + p * x.step);
        }
        assert(p == q);
        if p > 0 {
            let n = x.start as int;
            assert(0 * x.step == 0 && 0 * y.step == 0);
            assert(x.start + 0 * x.step == n);
            assert(counts_to(x, n, 0));
            assert(counts_to(x, n, 0) == counts_to(y, n, 0));
            assert(y.start == x.start);
            if p > 1 {
                lemma_range_count(x, 1);
                let m = x.start + 1 * x.step;
                assert(counts_to(x, m, 1));
                assert(counts_to(x, m, 1) == counts_to(y, m, 1));
                assert(m == y.start + 1 * y.step);
            }
        }
        assert(false);
    }
}

/// A text and a number, or either and `None`, have no order.
pub proof fn lemma_no_order(vm: VM, a: Value, b: Value, r: RunResult<Option<Order>>)
    requires
        (vm.text_of(a) is Some && vm.integer_of(b) is Some) || (vm.integer_of(a) is Some
            && vm.text_of(b) is Some) || (a is PyNone && (vm.text_of(b) is Some || vm.integer_of(
            b,
        ) is Some)),
        told(r, vm.values_order(a, b)),
    ensures
        r == Ok::<Option<Order>, RunError>(None),
{
}

/// `py_mod_eq` of small integers says that the remainder is a number exactly when that
/// number is the rest of some quotient that lies between zero and the divisor.
pub proof fn lemma_remainder_is(x: i64, y: i64, right: i64, q: int, r: ModEq)
    requires
        y != 0,
        call_ensures(Value::py_mod_eq, (&Value::Int(x), &Value::Int(y), right), r),
    ensures
        r is Known,
        x == q * y + right && (if y > 0 {
            0 <= right < y
        } else {
            y < right <= 0
        }) ==> r->Known_0,
        r->Known_0 ==> (if y > 0 {
            0 <= right < y
        } else {
            y < right <= 0
        }),
{
    let m = crate::bigint::floor_mod(x as int, y as int);
    crate::value_int::lemma_floor_divmod_identity(x as int, y as int);
    if x == q * y + right && (if y > 0 {
        0 <= right < y
    } else {
        y < right <= 0
    }) {
        lemma_rest_unique(x, y, right, q);
    }
}

proof fn lemma_rest_unique(x: i64, y: i64, right: i64, q: int)
    requires
        y != 0,
        x == q * y + right,
        if y > 0 {
            0 <= right < y
        } else {
            y < right <= 0
        },
    ensures
        crate::bigint::floor_mod(x as int, y as int) == right,
{
    let p = crate::bigint::floor_div(x as int, y as int);
    let m = crate::bigint::floor_mod(x as int, y as int);
    crate::value_int::lemma_floor_divmod_identity(x as int, y as int);
    assert(y * p == p * y) by (nonlinear_arith);
    assert((q - p) * y == m - right) by (nonlinear_arith)
        requires
            q * y + right == p * y + m,
    ;
    assert(q == p) by (nonlinear_arith)
        requires
            (q - p) * y == m - right,
            y > 0 ==> 0 <= m < y && 0 <= right < y,
            y < 0 ==> y < m <= 0 && y < right <= 0,
            y != 0,
    ;
}

/// Whether two elements are equal, with so many levels left.
pub open spec fn alike(vm: VM, a: Element, b: Element, fuel: nat) -> bool {
    elements_equal(vm, a, b, fuel) == Ok::<bool, Raised>(true)
}

/// Whether two elements are not equal.
pub open spec fn unlike(vm: VM, a: Element, b: Element, fuel: nat) -> bool {
    elements_equal(vm, a, b, fuel) == Ok::<bool, Raised>(false)
}

proof fn lemma_found_element(vm: VM, es: Seq<Element>, e: Element, i: int, fuel: nat)
    requires
        0 <= i <= es.len(),
    ensures
        match find_element(vm, es, e, i, fuel) {
            Ok(j) => i <= j <= es.len() && (j < es.len() ==> alike(vm, e, es[j], fuel)) && forall|
                k: int,
            |
                i <= k < j ==> unlike(vm, e, #[trigger] es[k], fuel),
            Err(_) => true,
        },
    decreases es.len() - i,
{
    if i < es.len() && unlike(vm, e, es[i], fuel) {
        lemma_found_element(vm, es, e, i + 1, fuel);
    }
}

proof fn lemma_none_shared(vm: VM, xs: Seq<Element>, ys: Seq<Element>, i: int, fuel: nat)
    requires
        0 <= i <= xs.len(),
    ensures
        none_within(vm, xs, ys, i, fuel) == Ok::<bool, Raised>(true) ==> forall|j: int, k: int|
            i <= j < xs.len() && 0 <= k < ys.len() ==> unlike(
                vm,
                #[trigger] xs[j],
                #[trigger] ys[k],
                fuel,
            ),
        none_within(vm, xs, ys, i, fuel) == Ok::<bool, Raised>(false) ==> exists|j: int, k: int|
            i <= j < xs.len() && 0 <= k < ys.len() && alike(
                vm,
                #[trigger] xs[j],
                #[trigger] ys[k],
                fuel,
            ),
    decreases xs.len() - i,
{
    if i < xs.len() {
        lemma_found_element(vm, ys, xs[i], 0, fuel);
        if is_member(vm, ys, xs[i], fuel) == Ok::<bool, Raised>(false) {
            lemma_none_shared(vm, xs, ys, i + 1, fuel);
        }
    }
}

/// Whether no element of the one equals one of the other.
pub open spec fn none_alike(vm: VM, xs: Seq<Element>, ys: Seq<Element>, fuel: nat) -> bool {
    forall|j: int, k: int|
        0 <= j < xs.len() && 0 <= k < ys.len() ==> unlike(
            vm,
            #[trigger] xs[j],
            #[trigger] ys[k],
            fuel,
        )
}

/// Whether some element of the one equals one of the other.
pub open spec fn some_alike(vm: VM, xs: Seq<Element>, ys: Seq<Element>, fuel: nat) -> bool {
    exists|j: int, k: int|
        0 <= j < xs.len() && 0 <= k < ys.len() && alike(
            vm,
            #[trigger] xs[j],
            #[trigger] ys[k],
            fuel,
        )
}

/// Two sets are disjoint exactly when no member of the one equals one of the other; the
/// smaller one is looked up in the larger.
pub proof fn lemma_disjoint(vm: VM, left: Seq<Element>, right: Seq<Element>, r: RunResult<bool>)
    requires
        told(r, disjoint(vm, left, right, vm.heap.max_depth as nat)),
        r is Ok,
    ensures
        ({
            let fuel = vm.heap.max_depth as nat;
            let xs = if left.len() <= right.len() {
                left
            } else {
                right
            };
            let ys = if left.len() <= right.len() {
                right
            } else {
                left
            };
            &&& r->Ok_0 ==> none_alike(vm, xs, ys, fuel)
            &&& !r->Ok_0 ==> some_alike(vm, xs, ys, fuel)
        }),
{
    let fuel = vm.heap.max_depth as nat;
    if left.len() <= right.len() {
        lemma_none_shared(vm, left, right, 0, fuel);
    } else {
        lemma_none_shared(vm, right, left, 0, fuel);
    }
}

/// A pair is among the items of a dictionary exactly when its key is found and stands
/// by a value that equals its own; what is no pair is not.
pub proof fn lemma_pair_in_items(
    vm: VM,
    v: Value,
    item: Value,
    key: Value,
    value: Value,
    entries: Seq<(Value, Value)>,
    r: RunResult<bool>,
)
    requires
        vm.data_of(v) matches Some(HeapData::DictItemsView(view)) && vm.heap.data(
            view.dict_id,
        ) matches HeapData::Dict(dict) && dict.entries@ == entries,
        crate::laws::results::tuple_items(vm, item) == Some(seq![key, value]),
        told(r, vm.contains(v, item)),
        r is Ok,
    ensures
        r->Ok_0 ==> exists|i: int|
            0 <= i < entries.len() && equal(
                vm,
                key,
                (#[trigger] entries[i]).0,
                vm.heap.max_depth as nat,
            ) == Ok::<bool, Raised>(true) && equal(
                vm,
                value,
                entries[i].1,
                vm.heap.max_depth as nat,
            ) == Ok::<bool, Raised>(true),
{
    let fuel = vm.heap.max_depth as nat;
    let keys = crate::types::str_methods::firsts(entries);
    crate::laws::equality::lemma_found_equal(vm, keys, key, 0, fuel);
    let i = crate::value_contains::key_place(vm, keys, key, fuel)->Ok_0;
    if r->Ok_0 {
        assert(keys[i] == entries[i].0);
        assert(0 <= i < entries.len());
    }
}

} // verus!
