//! What tuples, slices, named tuples and instances hold.

use vstd::prelude::*;

use crate::args::{raises, ArgValues, Raised};
use crate::call::CallResult;
use crate::exception::{ExcType, RunResult};
use crate::heap::{HeapData, HeapId};
use crate::intern::{StaticStrings, StringId};
use crate::laws::date_methods::value_of;
use crate::laws::results::{
    lemma_consumed, lemma_object_given, lemma_tuple_given, list_items, tuple_items,
};
use crate::release::{lemma_released_data, released};
use crate::types::dataclass::{lemma_named_place, named_entry, named_place, Dataclass};
use crate::types::dataclass_ops::{
    attrs_set, instance_at, instance_attr_done, instance_call_done, lemma_set_then_get,
    set_attr_done, with_attr,
};
use crate::types::namedtuple::{field_position, NamedTuple};
use crate::types::slice::Slice;
use crate::types::slice_ops::{bounds_from, slice_of_args};
use crate::types::tuple_ops::{count_equal, find_between, tuple_call, tuple_init_done};
use crate::value::{value_refs, EitherStr, Value};
use crate::value_attr::{attr_done, attr_set_done};
use crate::value_eq::equal;
use crate::vm::VM;

verus! {

/// Whether a value equals another, within the limit on depth.
pub open spec fn is_equal(vm: VM, v: Value, x: Value) -> bool {
    equal(vm, v, x, vm.heap.max_depth as nat) == Ok::<bool, Raised>(true)
}

/// Whether a value does not equal another, within the limit on depth.
pub open spec fn is_unequal(vm: VM, v: Value, x: Value) -> bool {
    equal(vm, v, x, vm.heap.max_depth as nat) == Ok::<bool, Raised>(false)
}

proof fn lemma_found_between(vm: VM, xs: Seq<Value>, v: Value, i: int, end: int)
    requires
        0 <= i,
        end <= xs.len(),
    ensures
        match find_between(vm, xs, v, i, end) {
            Ok(Some(p)) => i <= p < end && is_equal(vm, v, xs[p]) && forall|k: int|
                i <= k < p ==> is_unequal(vm, v, #[trigger] xs[k]),
            Ok(None) => forall|k: int| i <= k < end ==> is_unequal(vm, v, #[trigger] xs[k]),
            Err(_) => true,
        },
    decreases end - i,
{
    if i < end && is_unequal(vm, v, xs[i]) {
        lemma_found_between(vm, xs, v, i + 1, end);
    }
}

/// `index` gives the first place of a tuple whose item equals the value.
pub proof fn lemma_tuple_index(
    vm: VM,
    xs: Seq<Value>,
    attr: EitherStr,
    args: ArgValues,
    n: int,
)
    requires
        args.just(1),
        attr.well_known() == Some(StaticStrings::Index),
        tuple_call(vm, xs, attr, args) == Ok::<int, Raised>(n),
    ensures
        0 <= n < xs.len(),
        is_equal(vm, args.pos@[0], xs[n]),
        forall|k: int| 0 <= k < n ==> is_unequal(vm, args.pos@[0], #[trigger] xs[k]),
{
    lemma_found_between(vm, xs, args.pos@[0], 0, xs.len() as int);
}

/// With a start and an end, which count from the end when negative, `index` gives the
/// first place between them whose item equals the value.
pub proof fn lemma_tuple_index_between(
    vm: VM,
    xs: Seq<Value>,
    attr: EitherStr,
    args: ArgValues,
    a: i64,
    b: i64,
    n: int,
)
    requires
        args.just(3),
        args.pos@[1] == Value::Int(a),
        args.pos@[2] == Value::Int(b),
        attr.well_known() == Some(StaticStrings::Index),
        tuple_call(vm, xs, attr, args) == Ok::<int, Raised>(n),
    ensures
        ({
            let from = crate::laws::items::slice_edge(a as int, xs.len() as int, true);
            let to = crate::laws::items::slice_edge(b as int, xs.len() as int, true);
            &&& from <= n < to
            &&& is_equal(vm, args.pos@[0], xs[n])
            &&& forall|k: int| from <= k < n ==> is_unequal(vm, args.pos@[0], #[trigger] xs[k])
        }),
{
    let from = crate::laws::items::slice_edge(a as int, xs.len() as int, true);
    let to = crate::laws::items::slice_edge(b as int, xs.len() as int, true);
    lemma_found_between(vm, xs, args.pos@[0], from, if to < from {
        from
    } else {
        to
    });
}

/// `index` of a value that no item equals is a `ValueError`.
pub proof fn lemma_tuple_index_missing(
    vm: VM,
    xs: Seq<Value>,
    attr: EitherStr,
    args: ArgValues,
)
    requires
        args.just(1),
        attr.well_known() == Some(StaticStrings::Index),
        forall|k: int| 0 <= k < xs.len() ==> is_unequal(vm, args.pos@[0], #[trigger] xs[k]),
    ensures
        tuple_call(vm, xs, attr, args) == Err::<int, Raised>(
            (ExcType::ValueError, "tuple.index(x): x not in tuple"@),
        ),
{
    lemma_found_between(vm, xs, args.pos@[0], 0, xs.len() as int);
    lemma_none_fails(vm, xs, args.pos@[0], 0);
}

proof fn lemma_none_fails(vm: VM, xs: Seq<Value>, v: Value, i: int)
    requires
        0 <= i,
        forall|k: int| 0 <= k < xs.len() ==> is_unequal(vm, v, #[trigger] xs[k]),
    ensures
        find_between(vm, xs, v, i, xs.len() as int) == Ok::<Option<int>, Raised>(None),
    decreases xs.len() - i,
{
    if i < xs.len() {
        assert(is_unequal(vm, v, xs[i]));
        lemma_none_fails(vm, xs, v, i + 1);
    }
}

/// The places of a sequence whose items equal a value.
pub open spec fn places_of(vm: VM, xs: Seq<Value>, v: Value) -> Set<int> {
    vstd::set_lib::set_int_range(0, xs.len() as int).filter(|i: int| is_equal(vm, v, xs[i]))
}

proof fn lemma_counted(vm: VM, xs: Seq<Value>, v: Value, i: int, counted: nat)
    requires
        0 <= i <= xs.len(),
        count_equal(vm, xs, v, i, counted) is Ok,
    ensures
        count_equal(vm, xs, v, i, counted)->Ok_0 == counted
            + vstd::set_lib::set_int_range(i, xs.len() as int).filter(
            |k: int| is_equal(vm, v, xs[k]),
        ).len(),
    decreases xs.len() - i,
{
    let hits = |k: int| is_equal(vm, v, xs[k]);
    let here = vstd::set_lib::set_int_range(i, xs.len() as int);
    vstd::set_lib::lemma_int_range(i, xs.len() as int);
    if i < xs.len() {
        let rest = vstd::set_lib::set_int_range(i + 1, xs.len() as int);
        vstd::set_lib::lemma_int_range(i + 1, xs.len() as int);
        if is_equal(vm, v, xs[i]) {
            lemma_counted(vm, xs, v, i + 1, counted + 1);
            assert(here.filter(hits) =~= rest.filter(hits).insert(i));
        } else {
            lemma_counted(vm, xs, v, i + 1, counted);
            assert(here.filter(hits) =~= rest.filter(hits));
        }
    } else {
        assert(here.filter(hits) =~= Set::empty());
    }
}

/// `count` says at how many places of a tuple an item equals the value.
pub proof fn lemma_tuple_count(
    vm: VM,
    xs: Seq<Value>,
    attr: EitherStr,
    args: ArgValues,
    n: int,
)
    requires
        args.just(1),
        attr.well_known() == Some(StaticStrings::Count),
        tuple_call(vm, xs, attr, args) == Ok::<int, Raised>(n),
    ensures
        n == places_of(vm, xs, args.pos@[0]).len(),
{
    lemma_counted(vm, xs, args.pos@[0], 0, 0);
}

/// A tuple of a list or tuple has its items.
pub proof fn lemma_tuple_of(
    before: VM,
    mid: VM,
    after: VM,
    args: ArgValues,
    xs: Seq<Value>,
    r: RunResult<Value>,
)
    requires
        before.wf(),
        args.just(1),
        list_items(before, args.pos@[0]) == Some(xs) || tuple_items(before, args.pos@[0]) == Some(
            xs,
        ),
        args.consumed(mid, after),
        tuple_init_done(before, mid, r, args),
        r is Ok,
    ensures
        tuple_items(after, r->Ok_0) == Some(xs),
{
    let es = crate::types::dict_view_ops::elements_of(before, args.pos@[0])->0;
    assert(crate::types::tuple_ops::element_values(es) =~= xs);
    lemma_tuple_given(before, mid, r, xs);
    lemma_consumed(args, mid, after);
}

/// A tuple of a dictionary or of its keys has the keys, one of its values the values,
/// and one of a set the members.
pub proof fn lemma_tuple_of_entries(
    before: VM,
    mid: VM,
    after: VM,
    args: ArgValues,
    xs: Seq<Value>,
    r: RunResult<Value>,
)
    requires
        before.wf(),
        args.just(1),
        match before.data_of(args.pos@[0]) {
            Some(HeapData::Dict(dict)) => xs == dict.keys(),
            Some(HeapData::DictKeysView(view)) => before.heap.data(view.dict_id) matches HeapData::Dict(
                dict,
            ) && xs == dict.keys(),
            Some(HeapData::DictValuesView(view)) => before.heap.data(
                view.dict_id,
            ) matches HeapData::Dict(dict) && xs == dict.values(),
            Some(HeapData::SetData(set)) => xs == set.items@,
            Some(HeapData::FrozenSet(set)) => xs == set.items@,
            _ => false,
        },
        args.consumed(mid, after),
        tuple_init_done(before, mid, r, args),
        r is Ok,
    ensures
        tuple_items(after, r->Ok_0) == Some(xs),
{
    let es = crate::types::dict_view_ops::elements_of(before, args.pos@[0])->0;
    assert(crate::types::tuple_ops::element_values(es) =~= xs);
    lemma_tuple_given(before, mid, r, xs);
    lemma_consumed(args, mid, after);
}

proof fn lemma_range_elements(range: crate::types::containers::Range, n: int)
    requires
        n >= 0,
    ensures
        crate::types::dict_view_ops::range_elements(range, n).len() == n,
        forall|k: int|
            0 <= k < n ==> #[trigger] crate::types::dict_view_ops::range_elements(range, n)[k]
                == crate::types::dict_view_ops::Element::Whole(
                Value::Int((range.start + k * range.step) as i64),
            ),
    decreases n,
{
    if n > 0 {
        lemma_range_elements(range, n - 1);
    }
}

/// A tuple of a range has the numbers that the range counts, in its steps.
pub proof fn lemma_tuple_of_range(
    before: VM,
    mid: VM,
    after: VM,
    args: ArgValues,
    range: crate::types::containers::Range,
    r: RunResult<Value>,
)
    requires
        before.wf(),
        args.just(1),
        before.data_of(args.pos@[0]) == Some(HeapData::Range(range)),
        range.step != 0,
        args.consumed(mid, after),
        tuple_init_done(before, mid, r, args),
        r is Ok,
    ensures
        tuple_items(after, r->Ok_0) matches Some(xs) && {
            &&& forall|k: int|
                0 <= k ==> (k < xs.len() <==> #[trigger] crate::laws::equality::counts_to(
                    range,
                    range.start + k * range.step,
                    k,
                ))
            &&& forall|k: int|
                0 <= k < xs.len() ==> #[trigger] xs[k] == Value::Int(
                    (range.start + k * range.step) as i64,
                )
        },
{
    let n = range.count();
    lemma_range_count(range, 0);
    lemma_range_elements(range, n);
    let es = crate::types::dict_view_ops::elements_of(before, args.pos@[0])->0;
    let xs = crate::types::tuple_ops::element_values(es);
    lemma_tuple_given(before, mid, r, xs);
    lemma_consumed(args, mid, after);
    assert forall|k: int| 0 <= k implies (k < xs.len()
        <==> #[trigger] crate::laws::equality::counts_to(range, range.start + k * range.step, k)) by {
        lemma_range_count(range, k);
    }
    assert forall|k: int| 0 <= k < xs.len() implies #[trigger] xs[k] == Value::Int(
        (range.start + k * range.step) as i64,
    ) by {
        assert(es[k] == crate::types::dict_view_ops::Element::Whole(
            Value::Int((range.start + k * range.step) as i64),
        ));
    }
}

/// A range counts on as long as its stop is not reached.
pub proof fn lemma_range_count(range: crate::types::containers::Range, k: int)
    requires
        range.step != 0,
        0 <= k,
    ensures
        range.count() >= 0,
        k < range.count() <==> crate::laws::equality::counts_to(
            range,
            range.start + k * range.step,
            k,
        ),
{
    let start = range.start as int;
    let stop = range.stop as int;
    let step = range.step as int;
    if step > 0 {
        if stop > start {
            let q = (stop - start - 1) / step;
            assert(0 <= q && (k < q + 1 <==> start + k * step < stop)) by (nonlinear_arith)
                requires
                    step > 0,
                    stop > start,
                    q == (stop - start - 1) / step,
                    0 <= k,
            ;
        } else {
            assert(start + k * step >= stop) by (nonlinear_arith)
                requires
                    step > 0,
                    stop <= start,
                    0 <= k,
            ;
        }
    } else {
        let down = -step;
        if start > stop {
            let q = (start - stop - 1) / down;
            assert(0 <= q && (k < q + 1 <==> start + k * step > stop)) by (nonlinear_arith)
                requires
                    step < 0,
                    down == -step,
                    start > stop,
                    q == (start - stop - 1) / down,
                    0 <= k,
            ;
        } else {
            assert(start + k * step <= stop) by (nonlinear_arith)
                requires
                    step < 0,
                    start <= stop,
                    0 <= k,
            ;
        }
    }
}

/// `len` of a range is how many numbers it counts.
pub proof fn lemma_range_length(
    vm: VM,
    v: Value,
    range: crate::types::containers::Range,
    n: usize,
    k: int,
)
    requires
        vm.data_of(v) == Some(HeapData::Range(range)),
        range.step != 0,
        vm.len_of(v) == Some(n),
        0 <= k,
    ensures
        k < n <==> crate::laws::equality::counts_to(range, range.start + k * range.step, k),
{
    lemma_range_count(range, k);
}

/// A tuple of a text has its characters, each as a text of its own.
pub proof fn lemma_tuple_of_text(
    before: VM,
    mid: VM,
    after: VM,
    args: ArgValues,
    s: Seq<char>,
    r: RunResult<Value>,
)
    requires
        before.wf(),
        args.just(1),
        before.text_of(args.pos@[0]) == Some(s),
        args.consumed(mid, after),
        tuple_init_done(before, mid, r, args),
        r is Ok,
    ensures
        tuple_items(after, r->Ok_0) matches Some(vs) && vs.len() == s.len() && forall|i: int|
            0 <= i < vs.len() ==> after.text_of(#[trigger] vs[i]) == Some(seq![s[i]]),
{
    let all = crate::types::str_methods::letters(s);
    if s.len() == 0 {
        assert(all =~= Seq::empty());
        let empty = Value::Ref(HeapId(crate::heap::EMPTY_TUPLE));
        lemma_consumed(args, mid, after);
        assert(mid.data_of(empty) == before.data_of(empty));
        assert(after.data_of(empty) == mid.data_of(empty));
    } else {
        crate::laws::strings::lemma_tuple_answer(before, mid, after, args, r, all);
        let vs = tuple_items(after, r->Ok_0)->0;
        assert forall|i: int| 0 <= i < vs.len() implies after.text_of(#[trigger] vs[i]) == Some(
            seq![s[i]],
        ) by {
            assert(after.text_of(vs[i]) == Some(all[i]));
        }
    }
}

/// `slice(stop)`, `slice(start, stop)` and `slice(start, stop, step)` have these
/// parts; those that are left out are none.
pub proof fn lemma_slice_made(
    before: VM,
    mid: VM,
    after: VM,
    args: ArgValues,
    r: RunResult<Value>,
)
    requires
        args.kwargs@.len() == 0,
        1 <= args.pos@.len() <= 3,
        forall|i: int| 0 <= i < args.pos@.len() ==> #[trigger] args.pos@[i] is Int,
        args.consumed(mid, after),
        match slice_of_args(args) {
            Err(e) => raises(r, e) && mid == before,
            Ok(slice) => object_result_of(before, mid, r, slice),
        },
        r is Ok,
    ensures
        after.data_of(r->Ok_0) matches Some(HeapData::Slice(slice)) && {
            let n = args.pos@.len();
            &&& slice.start == (if n == 1 {
                None::<i64>
            } else {
                Some(args.pos@[0]->Int_0)
            })
            &&& slice.stop == Some(
                if n == 1 {
                    args.pos@[0]->Int_0
                } else {
                    args.pos@[1]->Int_0
                },
            )
            &&& slice.step == (if n < 3 {
                None::<i64>
            } else {
                Some(args.pos@[2]->Int_0)
            })
        },
{
    reveal_with_fuel(bounds_from, 4);
    let pos = args.pos@;
    assert(pos[0] is Int);
    if pos.len() > 1 {
        assert(pos[1] is Int);
    }
    if pos.len() > 2 {
        assert(pos[2] is Int);
    }
    let slice = slice_of_args(args)->Ok_0;
    lemma_object_given(before, mid, r, HeapData::Slice(slice));
    lemma_consumed(args, mid, after);
    assert(after.data_of(r->Ok_0) == mid.data_of(r->Ok_0));
}

/// Whether a result is a new slice.
pub open spec fn object_result_of(before: VM, after: VM, r: RunResult<Value>, slice: Slice) -> bool {
    crate::outcome::object_result(before, after, r, HeapData::Slice(slice))
}

/// A slice gives back its parts; one that is left out is `None`.
pub proof fn lemma_slice_attributes(
    before: VM,
    after: VM,
    v: Value,
    slice: Slice,
    attr: EitherStr,
    r: RunResult<CallResult>,
)
    requires
        before.data_of(v) == Some(HeapData::Slice(slice)),
        attr_done(before, after, r, v, attr),
    ensures
        ({
            let shown = |part: Option<i64>|
                match part {
                    Some(n) => Value::Int(n),
                    None => Value::PyNone,
                };
            &&& attr.text(before.interns) == "start"@ ==> value_of(r) == Some(shown(slice.start))
            &&& attr.text(before.interns) == "stop"@ ==> value_of(r) == Some(shown(slice.stop))
            &&& attr.text(before.interns) == "step"@ ==> value_of(r) == Some(shown(slice.step))
        }),
{
    reveal_strlit("start");
    reveal_strlit("stop");
    reveal_strlit("step");
    assert("start"@.len() == 5 && "stop"@.len() == 4 && "step"@.len() == 4);
    assert("stop"@[2] != "step"@[2]);
}

/// An attribute of a named tuple is the item in the place of the first field with
/// that name; a name that no field has is an error.
pub proof fn lemma_field(
    before: VM,
    after: VM,
    v: Value,
    tuple: NamedTuple,
    attr: EitherStr,
    k: int,
    r: RunResult<CallResult>,
)
    requires
        before.data_of(v) == Some(HeapData::NamedTuple(tuple)),
        attr_done(before, after, r, v, attr),
        0 <= k <= tuple.field_names@.len(),
        forall|i: int|
            0 <= i < k ==> (#[trigger] tuple.field_names@[i]).text(before.interns) != attr.text(
                before.interns,
            ),
        k < tuple.field_names@.len() ==> tuple.field_names@[k].text(before.interns) == attr.text(
            before.interns,
        ),
    ensures
        k < tuple.field_names@.len() ==> value_of(r) == Some(tuple.items@[k]),
        k == tuple.field_names@.len() ==> r is Err,
{
    lemma_position(
        tuple.field_names@,
        attr.text(before.interns),
        before.interns,
        k,
        tuple.field_names@.len() as int,
    );
}

proof fn lemma_position(
    fields: Seq<EitherStr>,
    name: Seq<char>,
    interns: crate::intern::Interns,
    k: int,
    n: int,
)
    requires
        0 <= k <= fields.len(),
        0 <= n <= fields.len(),
        forall|i: int| 0 <= i < k ==> (#[trigger] fields[i]).text(interns) != name,
        k < fields.len() ==> fields[k].text(interns) == name,
    ensures
        field_position(fields, name, interns, n) == (if k < n {
            Some(k)
        } else {
            None
        }),
    decreases n,
{
    if n > 0 {
        lemma_position(fields, name, interns, k, n - 1);
    }
}

/// Whether setting an attribute of an instance, if it is not frozen, left that one with
/// the value and every other one as it was.
pub open spec fn attribute_set(before: VM, mid: VM, id: HeapId, name: Seq<char>, value: Value) -> bool {
    &&& instance_at(mid, id) is Some
    &&& named_entry(mid, instance_at(mid, id)->0.attrs.entries@, name) == Some(value)
    &&& forall|other: Seq<char>|
        other != name ==> #[trigger] named_entry(
            mid,
            instance_at(mid, id)->0.attrs.entries@,
            other,
        ) == named_entry(before, instance_at(before, id)->0.attrs.entries@, other)
}

proof fn lemma_attribute_set(
    before: VM,
    mid: VM,
    id: HeapId,
    key: Value,
    value: Value,
    name: Seq<char>,
    set: RunResult<Option<Value>>,
)
    requires
        before.wf(),
        before.ok(key),
        id.0 < before.entries().len(),
        instance_at(before, id) is Some,
        !instance_at(before, id)->0.frozen,
        before.text_of(key) == Some(name),
        set_attr_done(before, mid, set, id, key, value),
    ensures
        attribute_set(before, mid, id, name, value),
        mid.same_setting(before),
        mid.entries().len() == before.entries().len(),
        forall|j: int|
            0 <= j < instance_at(mid, id)->0.attrs.entries@.len() ==> before.ok(
                (#[trigger] instance_at(mid, id)->0.attrs.entries@[j]).0,
            ),
{
    let instance = instance_at(before, id)->0;
    let entries = instance.attrs.entries@;
    let i = named_place(before, entries, name, 0);
    lemma_named_place(before, entries, name, 0);
    let next = with_attr(before, entries, key, value);
    let done = if i < entries.len() {
        choose|done: VM|
            #[trigger] attrs_set(before, done, id, next) && mid.same_setting(done)
                && mid.entries() == released(done.entries(), value_refs(key))
    } else {
        mid
    };
    lemma_released_data(done.entries(), value_refs(key));
    assert(attrs_set(before, done, id, next));
    assert(mid.entries()[id.0 as int].data == done.entries()[id.0 as int].data);
    assert(instance_at(mid, id)->0.attrs.entries@ == next);
    crate::value_add::lemma_entry_ok(before, id);
    assert forall|j: int| 0 <= j < next.len() implies before.ok((#[trigger] next[j]).0) by {
        if j < entries.len() {
            assert(crate::value::value_ok(entries[j].0, before.entries().len(), before.interns));
            assert(next[j].0 == entries[j].0);
        }
    }
    lemma_set_then_get(before, entries, key, value, name);
    lemma_same_names(before, mid, next, name, 0, id);
    assert forall|other: Seq<char>| other != name implies #[trigger] named_entry(mid, next, other)
        == named_entry(before, entries, other) by {
        lemma_set_then_get(before, entries, key, value, other);
        lemma_same_names(before, mid, next, other, 0, id);
    }
}

/// An attribute of an instance that was set is read back, and every other one is what
/// it was; a frozen instance refuses.
pub proof fn lemma_set_and_get(
    before: VM,
    mid: VM,
    after: VM,
    id: HeapId,
    key: Value,
    value: Value,
    name: Seq<char>,
    other: Seq<char>,
    set: RunResult<Option<Value>>,
    got: RunResult<CallResult>,
)
    requires
        before.wf(),
        before.ok(key),
        id.0 < before.entries().len(),
        instance_at(before, id) is Some,
        before.text_of(key) == Some(name),
        set_attr_done(before, mid, set, id, key, value),
        instance_at(mid, id) is Some,
        instance_attr_done(mid, after, got, instance_at(mid, id)->0, other),
    ensures
        instance_at(before, id)->0.frozen ==> set is Err,
        !instance_at(before, id)->0.frozen && other == name ==> value_of(got) == Some(value),
        !instance_at(before, id)->0.frozen && other != name ==> match named_entry(
            before,
            instance_at(before, id)->0.attrs.entries@,
            other,
        ) {
            Some(v) => value_of(got) == Some(v),
            None => got is Err,
        },
{
    if !instance_at(before, id)->0.frozen {
        lemma_attribute_set(before, mid, id, key, value, name, set);
    }
}

/// `v.name = value` with an interned name: an instance has the value under that name
/// then, and every other attribute as it was; a frozen instance and every other kind of
/// value refuse, and nothing that is held changes.
pub proof fn lemma_attribute_assigned(
    before: VM,
    after: VM,
    id: HeapId,
    key: StringId,
    value: Value,
    r: RunResult<()>,
)
    requires
        before.wf(),
        before.ok(Value::Ref(id)),
        before.ok(Value::InternString(key)),
        attr_set_done(before, after, r, Value::Ref(id), EitherStr::Interned(key), value),
    ensures
        match instance_at(before, id) {
            Some(instance) if !instance.frozen => r is Ok && attribute_set(
                before,
                after,
                id,
                before.interns.strings@[key.0 as int]@,
                value,
            ),
            _ => r is Err && after.entries().len() == before.entries().len() && forall|j: int|
                0 <= j < before.entries().len() ==> (#[trigger] after.entries()[j]).data
                    == before.entries()[j].data,
        },
{
    let name = before.interns.strings@[key.0 as int]@;
    let text = Value::InternString(key);
    lemma_released_data(before.entries(), value_refs(text));
    lemma_released_data(released(before.entries(), value_refs(text)), value_refs(value));
    lemma_released_data(before.entries(), value_refs(value));
    if instance_at(before, id) is Some {
        let (mid, x) = choose|mid: VM, x: RunResult<Option<Value>>|
            #[trigger] set_attr_done(before, mid, x, id, text, value) && match x {
                Err(e) => r == Err::<(), crate::exception::RunError>(e) && after == mid,
                Ok(None) => r is Ok && after == mid,
                Ok(Some(previous)) => r is Ok && after.same_setting(mid) && after.entries()
                    == released(mid.entries(), value_refs(previous)),
            };
        if !instance_at(before, id)->0.frozen {
            lemma_attribute_set(before, mid, id, text, value, name, x);
            if let Ok(Some(previous)) = x {
                lemma_released_data(mid.entries(), value_refs(previous));
                let next = instance_at(mid, id)->0.attrs.entries@;
                assert(after.entries()[id.0 as int].data == mid.entries()[id.0 as int].data);
                assert(instance_at(after, id)->0.attrs.entries@ == next);
                lemma_same_names(mid, after, next, name, 0, id);
                assert forall|other: Seq<char>| other != name implies #[trigger] named_entry(
                    after,
                    next,
                    other,
                ) == named_entry(before, instance_at(before, id)->0.attrs.entries@, other) by {
                    lemma_same_names(mid, after, next, other, 0, id);
                    assert(named_entry(mid, next, other) == named_entry(
                        before,
                        instance_at(before, id)->0.attrs.entries@,
                        other,
                    ));
                }
            }
        }
    }
}

/// A method of an instance that is called is left to the host where its name is public
/// and no attribute has it: the host gets the instance and then the arguments as they
/// are. An attribute is not called, and neither is a private name.
pub proof fn lemma_instance_called(
    before: VM,
    after: VM,
    id: HeapId,
    instance: Dataclass,
    attr: EitherStr,
    args: ArgValues,
    i: int,
    r: RunResult<CallResult>,
)
    requires
        instance_call_done(before, after, r, id, instance, attr, args),
        0 <= i < args.pos@.len(),
    ensures
        ({
            let name = attr.text(before.interns);
            let held = named_entry(before, instance.attrs.entries@, name) is Some;
            let private = name.len() > 0 && name.first() == '_';
            &&& (held || private) == (r is Err)
            &&& r matches Ok(done) ==> done matches CallResult::MethodCall(method, longer)
                && method == attr && longer.pos@.len() == args.pos@.len() + 1 && longer.pos@.first()
                == Value::Ref(id) && longer.pos@[i + 1] == args.pos@[i] && longer.kwargs@
                == args.kwargs@
        }),
{
}

/// The names of attributes are the same in a state where nothing else changed.
proof fn lemma_same_names(
    before: VM,
    mid: VM,
    entries: Seq<(Value, Value)>,
    name: Seq<char>,
    i: int,
    id: HeapId,
)
    requires
        0 <= i <= entries.len(),
        mid.interns == before.interns,
        instance_at(before, id) is Some,
        instance_at(mid, id) is Some,
        mid.entries().len() == before.entries().len(),
        forall|j: int|
            0 <= j < before.entries().len() && j != id.0 ==> (#[trigger] mid.entries()[j]).data
                == before.entries()[j].data,
        forall|j: int| 0 <= j < entries.len() ==> before.ok((#[trigger] entries[j]).0),
    ensures
        named_place(mid, entries, name, i) == named_place(before, entries, name, i),
    decreases entries.len() - i,
{
    if i < entries.len() {
        lemma_same_names(before, mid, entries, name, i + 1, id);
        let key = entries[i].0;
        assert(before.ok(key));
        match key {
            Value::Ref(at) => {
                if at.0 != id.0 {
                    assert(mid.entries()[at.0 as int].data == before.entries()[at.0 as int].data);
                }
            },
            _ => {},
        }
        assert(mid.text_of(key) == before.text_of(key));
    }
}

} // verus!
