//! What the views of dictionaries have in common with other collections.

use vstd::prelude::*;

use crate::args::{raises, ArgValues};
use crate::call::CallResult;
use crate::exception::{RunError, RunResult};
use crate::heap::HeapId;
use crate::intern::StaticStrings;
use crate::laws::date_methods::value_of;
use crate::release::dropped;
use crate::types::containers::SetStorage;
use crate::types::dict_view_ops::{
    compared_done, disjoint, disjoint_done, element_made, elements_of, find_element, gathered,
    is_member, iterable_collected, members_made, none_within, set_collected, view_call_done,
    view_collected, wholes, Element,
};
use crate::types::py_type::Type;
use crate::value::{values_refs, EitherStr, Value};
use crate::value_eq::{equal, told};
use crate::vm::VM;

verus! {

/// Integers as elements.
pub open spec fn int_elements(ns: Seq<i64>) -> Seq<Element> {
    Seq::new(ns.len(), |i: int| Element::Whole(Value::Int(ns[i])))
}

/// Whether values are all integers out of the numbers, and every number is among them.
spec fn are_the(values: Seq<Value>, ns: Seq<i64>) -> bool {
    &&& forall|i: int|
        0 <= i < values.len() ==> (#[trigger] values[i]) is Int && ns.contains(values[i]->Int_0)
    &&& forall|j: int| 0 <= j < ns.len() ==> values.contains(Value::Int(#[trigger] ns[j]))
}

proof fn lemma_int_found(vm: VM, set: Seq<Value>, n: i64, i: int, fuel: nat)
    requires
        0 <= i <= set.len(),
        forall|j: int| 0 <= j < set.len() ==> (#[trigger] set[j]) is Int,
    ensures
        match find_element(vm, wholes(set), Element::Whole(Value::Int(n)), i, fuel) {
            Ok(p) => i <= p <= set.len() && (p < set.len() ==> set[p] == Value::Int(n)) && (p
                == set.len() ==> forall|j: int|
                i <= j < set.len() ==> #[trigger] set[j] != Value::Int(n)),
            Err(_) => false,
        },
    decreases set.len() - i,
{
    reveal_with_fuel(equal, 2);
    if i < set.len() {
        assert(wholes(set)[i] == Element::Whole(set[i]));
        lemma_int_found(vm, set, n, i + 1, fuel);
    }
}

proof fn lemma_ints_gathered(states: Seq<VM>, values: Seq<Value>, ns: Seq<i64>, fuel: nat)
    requires
        states.len() == values.len() + 1,
        values.len() == ns.len(),
        forall|i: int| 0 <= i < values.len() ==> #[trigger] values[i] == Value::Int(ns[i]),
    ensures
        match gathered(states, values, fuel) {
            Ok((set, extra)) => are_the(set, ns) && forall|i: int|
                0 <= i < extra.len() ==> (#[trigger] extra[i]) is Int,
            Err(_) => false,
        },
    decreases values.len(),
{
    if values.len() > 0 {
        let before = ns.drop_last();
        lemma_ints_gathered(states.drop_last(), values.drop_last(), before, fuel);
        let (set, extra) = gathered(states.drop_last(), values.drop_last(), fuel)->Ok_0;
        let n = ns.last();
        lemma_int_found(states.last(), set, n, 0, fuel);
        assert(ns[ns.len() - 1] == n);
        assert forall|k: i64| before.contains(k) implies ns.contains(k) by {
            let j = choose|j: int| 0 <= j < before.len() && before[j] == k;
            assert(ns[j] == k);
        }
        let made = gathered(states, values, fuel)->Ok_0.0;
        assert(is_member(states.last(), wholes(set), Element::Whole(values.last()), fuel) is Ok);
        assert forall|j: int| 0 <= j < ns.len() implies made.contains(
            Value::Int(#[trigger] ns[j]),
        ) by {
            if j < before.len() {
                assert(before[j] == ns[j]);
                assert(set.contains(Value::Int(before[j])));
                let k = choose|k: int| 0 <= k < set.len() && set[k] == Value::Int(ns[j]);
                assert(made[k] == Value::Int(ns[j]));
            } else if made.len() > set.len() {
                assert(made[set.len() as int] == Value::Int(n));
            }
        }
    }
}

proof fn lemma_nothing_dropped(before: VM, after: VM, vs: Seq<Value>)
    requires
        dropped(before, after, vs),
        forall|i: int| 0 <= i < vs.len() ==> (#[trigger] vs[i]) is Int,
    ensures
        after.entries() == before.entries(),
{
    lemma_no_refs(vs);
}

proof fn lemma_no_refs(vs: Seq<Value>)
    requires
        forall|i: int| 0 <= i < vs.len() ==> (#[trigger] vs[i]) is Int,
    ensures
        values_refs(vs) == Seq::<HeapId>::empty(),
    decreases vs.len(),
{
    if vs.len() > 0 {
        lemma_no_refs(vs.drop_last());
        assert(vs[vs.len() - 1] is Int);
    }
}

#[verifier::rlimit(40)]
proof fn lemma_ints_collected(
    before: VM,
    after: VM,
    r: RunResult<SetStorage>,
    ns: Seq<i64>,
    fuel: nat,
)
    requires
        set_collected(before, after, r, int_elements(ns), fuel),
    ensures
        r is Ok && are_the(r->Ok_0.items@, ns),
        after.same_setting(before),
        after.entries() == before.entries(),
{
    let es = int_elements(ns);
    let (states, values) = choose|states: Seq<VM>, values: Seq<Value>|
        #![trigger members_made(states, values, es)]
        {
            &&& members_made(states, values, es)
            &&& states[0] == before
            &&& match gathered(states, values, fuel) {
                Err(e) => {
                    &&& values.len() > 0
                    &&& gathered(states.drop_last(), values.drop_last(), fuel) is Ok
                    &&& raises(r, e)
                    &&& dropped(states.last(), after, values)
                },
                Ok((set, extra)) => if values.len() == es.len() {
                    &&& r matches Ok(made) && made.items@ == set
                    &&& dropped(states.last(), after, extra)
                } else {
                    exists|mid: VM, e: RunError|
                        {
                            &&& #[trigger] element_made(
                                states.last(),
                                mid,
                                Err(e),
                                es[values.len() as int],
                            )
                            &&& r == Err::<SetStorage, RunError>(e)
                            &&& dropped(mid, after, values)
                        }
                },
            }
        };
    let shown = ns.take(values.len() as int);
    assert forall|i: int| 0 <= i < values.len() implies #[trigger] values[i] == Value::Int(
        shown[i],
    ) by {
        assert(es[i] == Element::Whole(Value::Int(ns[i])));
        assert(element_made(states[i], states[i + 1], Ok(values[i]), es[i]));
    }
    lemma_ints_gathered(states, values, shown, fuel);
    if values.len() < es.len() {
        assert(es[values.len() as int] == Element::Whole(Value::Int(ns[values.len() as int])));
        assert(false);
    }
    assert(shown =~= ns);
    lemma_states_alike(states, values, ns, values.len() as int);
    let extra = gathered(states, values, fuel)->Ok_0.1;
    lemma_nothing_dropped(states.last(), after, extra);
}

proof fn lemma_states_alike(states: Seq<VM>, values: Seq<Value>, ns: Seq<i64>, i: int)
    requires
        members_made(states, values, int_elements(ns)),
        0 <= i <= values.len(),
    ensures
        states[i].same_setting(states[0]),
        states[i].entries() == states[0].entries(),
    decreases i,
{
    if i > 0 {
        lemma_states_alike(states, values, ns, i - 1);
        assert(int_elements(ns)[i - 1] == Element::Whole(Value::Int(ns[i - 1])));
        assert(states[i] == states[i - 1 + 1]);
    }
}

/// `isdisjoint` of a view that shows integers, called with a collection of integers: it
/// gives `True` exactly when no number is in both, and nothing else changes.
#[verifier::rlimit(40)]
pub proof fn lemma_isdisjoint(
    before: VM,
    after: VM,
    r: RunResult<CallResult>,
    shown: Seq<i64>,
    given: Seq<i64>,
    label: Seq<char>,
    t: Type,
    attr: EitherStr,
    args: ArgValues,
)
    requires
        view_call_done(before, after, r, int_elements(shown), label, t, attr, args),
        attr.well_known() == Some(StaticStrings::Isdisjoint),
        args.just(1),
        elements_of(before, args.pos@[0]) == Some(int_elements(given)),
        before.heap.max_depth > 0,
    ensures
        value_of(r) == Some(
            Value::Bool(forall|n: i64| !(shown.contains(n) && #[trigger] given.contains(n))),
        ),
        after.entries() == before.entries(),
{
    let other = args.pos@[0];
    let es = int_elements(shown);
    let answer = choose|x: RunResult<bool>|
        #[trigger] disjoint_done(before, after, x, es, other) && r == (match x {
            Ok(b) => Ok::<CallResult, RunError>(
                CallResult::Value(Value::Bool(b)),
            ),
            Err(e) => Err(e),
        });
    let (mid, x) = choose|mid: VM, x: RunResult<SetStorage>|
        #[trigger] view_collected(before, mid, x, es) && match x {
            Err(e) => answer == Err::<bool, RunError>(e) && after == mid,
            Ok(left) => exists|end: VM|
                #[trigger] compared_done(mid, end, answer, left.items@, other) && dropped(
                    end,
                    after,
                    left.items@,
                ),
        };
    lemma_ints_collected(before, mid, x, shown, (before.heap.max_depth - 1) as nat);
    let left = x->Ok_0.items@;
    let end = choose|end: VM|
        #[trigger] compared_done(mid, end, answer, left, other) && dropped(end, after, left);
    assert(elements_of(mid, other) == elements_of(before, other)) by {
        lemma_same_elements(before, mid, other);
    }
    let (last, y) = choose|last: VM, y: RunResult<SetStorage>|
        #[trigger] iterable_collected(mid, last, y, other) && match y {
            Err(e) => answer == Err::<bool, RunError>(e) && end == last,
            Ok(right) => told(
                answer,
                disjoint(
                    last,
                    wholes(left),
                    wholes(right.items@),
                    last.heap.max_depth as nat,
                ),
            ) && dropped(last, end, right.items@),
        };
    lemma_ints_collected(mid, last, y, given, mid.heap.max_depth as nat);
    let right = y->Ok_0.items@;
    lemma_nothing_dropped(last, end, right);
    lemma_nothing_dropped(end, after, left);
    lemma_ints_disjoint(last, left, right, answer);
    assert forall|n: i64| shown.contains(n) implies left.contains(Value::Int(n)) by {
        let j = choose|j: int| 0 <= j < shown.len() && shown[j] == n;
        assert(left.contains(Value::Int(shown[j])));
    }
    assert forall|n: i64| given.contains(n) implies right.contains(Value::Int(n)) by {
        let j = choose|j: int| 0 <= j < given.len() && given[j] == n;
        assert(right.contains(Value::Int(given[j])));
    }
    if answer->Ok_0 {
        assert forall|n: i64| !(shown.contains(n) && #[trigger] given.contains(n)) by {
            if shown.contains(n) && given.contains(n) {
                assert(left.contains(Value::Int(n)) && right.contains(Value::Int(n)));
            }
        }
    } else {
        let i = choose|i: int| 0 <= i < left.len() && right.contains(#[trigger] left[i]);
        let j = choose|j: int| 0 <= j < right.len() && right[j] == left[i];
        assert(left[i] is Int && right[j] is Int);
        assert(shown.contains(left[i]->Int_0) && given.contains(left[i]->Int_0));
    }
}

proof fn lemma_same_elements(before: VM, mid: VM, v: Value)
    requires
        mid.same_setting(before),
        mid.entries() == before.entries(),
    ensures
        elements_of(mid, v) == elements_of(before, v),
{
    assert(mid.data_of(v) == before.data_of(v));
    assert(mid.text_of(v) == before.text_of(v));
    assert(mid.bytes_of(v) == before.bytes_of(v));
}

proof fn lemma_ints_disjoint(vm: VM, left: Seq<Value>, right: Seq<Value>, r: RunResult<bool>)
    requires
        told(
            r,
            disjoint(
                vm,
                wholes(left),
                wholes(right),
                vm.heap.max_depth as nat,
            ),
        ),
        forall|i: int| 0 <= i < left.len() ==> (#[trigger] left[i]) is Int,
        forall|i: int| 0 <= i < right.len() ==> (#[trigger] right[i]) is Int,
    ensures
        r is Ok,
        r->Ok_0 ==> forall|v: Value| !(left.contains(v) && #[trigger] right.contains(v)),
        !r->Ok_0 ==> exists|i: int| 0 <= i < left.len() && right.contains(#[trigger] left[i]),
{
    let fuel = vm.heap.max_depth as nat;
    if left.len() <= right.len() {
        lemma_ints_within(vm, left, right, 0, fuel);
    } else {
        lemma_ints_within(vm, right, left, 0, fuel);
        if !r->Ok_0 {
            let i = choose|i: int| 0 <= i < right.len() && left.contains(#[trigger] right[i]);
            let j = choose|j: int| 0 <= j < left.len() && left[j] == right[i];
            assert(right.contains(left[j]));
        }
    }
}

proof fn lemma_ints_within(vm: VM, xs: Seq<Value>, ys: Seq<Value>, i: int, fuel: nat)
    requires
        0 <= i <= xs.len(),
        forall|i: int| 0 <= i < xs.len() ==> (#[trigger] xs[i]) is Int,
        forall|i: int| 0 <= i < ys.len() ==> (#[trigger] ys[i]) is Int,
    ensures
        match none_within(vm, wholes(xs), wholes(ys), i, fuel) {
            Ok(b) => (b ==> forall|j: int| i <= j < xs.len() ==> !ys.contains(#[trigger] xs[j])) && (
            !b ==> exists|j: int| i <= j < xs.len() && ys.contains(#[trigger] xs[j])),
            Err(_) => false,
        },
    decreases xs.len() - i,
{
    if i < xs.len() {
        assert(wholes(xs)[i] == Element::Whole(xs[i]));
        lemma_int_found(vm, ys, xs[i]->Int_0, 0, fuel);
        lemma_ints_within(vm, xs, ys, i + 1, fuel);
    }
}

} // verus!
