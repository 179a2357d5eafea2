//! Tuples as objects: construction and methods.

use vstd::prelude::*;

use crate::args::{
    at_least, at_least_error, at_most, at_most_error, no_kwargs_error, one_arg_error, raises,
    ArgValues, Raised,
};
use crate::arith::{allocate_tuple, new_tuple, tuple_held, tuple_result};
use crate::call::CallResult;
use crate::exception::{ExcType, RunError, RunResult};
use crate::heap::{with_ref, HeapData, HeapId, EMPTY_TUPLE};
use crate::intern::StaticStrings;
use crate::outcome::allocate_string_tuple;
use crate::text::{chars_of, texts};
use crate::types::dict_view_ops::{
    cannot_iterate, elements_of, elements_ok, iterate, Element,
};
use crate::types::path_ops::parts_result;
use crate::types::slice::{normal_index, normalize_sequence_index};
use crate::types::str_methods::{attribute_error, dict_entries, letters, no_attribute};
use crate::types::tuple::Tuple;
use crate::types::tuple_vec::TupleVec;
use crate::value::{EitherStr, Value};
use crate::value_add::lemma_entry_ok;
use crate::value_eq::{eq_values, equal, pairs_ok, viewed};
use crate::value_item::quoted_error;
use crate::vm::VM;

verus! {

/// The first place from `i` up to `end` of an item that equals a value.
pub open spec fn find_between(vm: VM, xs: Seq<Value>, v: Value, i: int, end: int) -> Result<
    Option<int>,
    Raised,
>
    decreases end - i,
{
    if i >= end {
        Ok(None)
    } else {
        match equal(vm, v, xs[i], vm.heap.max_depth as nat) {
            Err(e) => Err(e),
            Ok(true) => Ok(Some(i)),
            Ok(false) => find_between(vm, xs, v, i + 1, end),
        }
    }
}

/// The error for a value that is not in a tuple.
pub open spec fn not_in_tuple() -> Raised {
    (ExcType::ValueError, "tuple.index(x): x not in tuple"@)
}

/// The bounds of a search, from the arguments after the value.
pub open spec fn search_bounds(vm: VM, pos: Seq<Value>, len: int) -> Result<(int, int), Raised> {
    if pos.len() == 1 {
        Ok((0, len))
    } else {
        match vm.int_of(pos[1]) {
            Err(e) => Err(e),
            Ok(s) => {
                let start = normal_index(s, len, 0, len);
                if pos.len() == 2 {
                    Ok((start, len))
                } else {
                    match vm.int_of(pos[2]) {
                        Err(e) => Err(e),
                        Ok(t) => {
                            let end = normal_index(t, len, 0, len);
                            Ok(
                                (
                                    start,
                                    if end < start {
                                        start
                                    } else {
                                        end
                                    },
                                ),
                            )
                        },
                    }
                }
            },
        }
    }
}

/// What `tuple.index(value, start, end)` gives.
pub open spec fn index_outcome(vm: VM, xs: Seq<Value>, args: ArgValues) -> Result<int, Raised> {
    let pos = args.pos@;
    if args.kwargs@.len() > 0 {
        Err(no_kwargs_error("tuple.index"@))
    } else if pos.len() == 0 {
        Err(at_least_error("tuple.index"@, 1, 0))
    } else if pos.len() > 3 {
        Err(at_most_error("tuple.index"@, 3, pos.len()))
    } else {
        match search_bounds(vm, pos, xs.len() as int) {
            Err(e) => Err(e),
            Ok((start, end)) => match find_between(vm, xs, pos[0], start, end) {
                Err(e) => Err(e),
                Ok(Some(i)) => Ok(i),
                Ok(None) => Err(not_in_tuple()),
            },
        }
    }
}

/// How many items from `i` on equal a value, besides those counted already.
pub open spec fn count_equal(vm: VM, xs: Seq<Value>, v: Value, i: int, counted: nat) -> Result<
    nat,
    Raised,
>
    decreases xs.len() - i,
{
    if i >= xs.len() {
        Ok(counted)
    } else {
        match equal(vm, v, xs[i], vm.heap.max_depth as nat) {
            Err(e) => Err(e),
            Ok(true) => count_equal(vm, xs, v, i + 1, counted + 1),
            Ok(false) => count_equal(vm, xs, v, i + 1, counted),
        }
    }
}

/// What `tuple.count(value)` gives.
pub open spec fn count_outcome(vm: VM, xs: Seq<Value>, args: ArgValues) -> Result<int, Raised> {
    if !args.just(1) {
        Err(one_arg_error("tuple.count"@, args.total()))
    } else {
        match count_equal(vm, xs, args.pos@[0], 0, 0) {
            Err(e) => Err(e),
            Ok(n) => Ok(n as int),
        }
    }
}

/// Whether a result is a number, or the error that is said to come.
pub open spec fn number_result(r: RunResult<Value>, o: Result<int, Raised>) -> bool {
    match o {
        Ok(n) => r matches Ok(Value::Int(i)) && i == n,
        Err(e) => raises(r, e),
    }
}

fn index_arg(v: &Value, len: usize, vm: &VM) -> (r: RunResult<usize>)
    requires
        vm.ok(*v),
    ensures
        match vm.int_of(*v) {
            Ok(n) => r matches Ok(i) && i == normal_index(n, len as int, 0, len as int),
            Err(e) => raises(r, e),
        },
{
    match v.as_int(vm) {
        Err(e) => Err(e),
        Ok(n) => Ok(normalize_sequence_index(n, len)),
    }
}

/// `tuple.index(value, start, end)`: the place of the first item that equals the
/// value.
fn tuple_index(xs: &[Value], args: &ArgValues, vm: &VM) -> (r: RunResult<Value>)
    requires
        vm.wf(),
        vm.all_ok(xs@),
        xs@.len() <= i64::MAX,
        args.ok(vm.entries().len(), vm.interns),
    ensures
        number_result(r, index_outcome(*vm, xs@, *args)),
{
    let pos = match args.into_pos_only("tuple.index") {
        Err(e) => {
            return Err(e);
        },
        Ok(pos) => pos,
    };
    if pos.len() == 0 {
        return Err(at_least("tuple.index", 1, 0));
    }
    if pos.len() > 3 {
        return Err(at_most("tuple.index", 3, pos.len()));
    }
    let len: usize = xs.len();
    let mut start: usize = 0;
    let mut end: usize = len;
    if pos.len() > 1 {
        assert(vm.ok(pos@[1]));
        match index_arg(&pos[1], len, vm) {
            Err(e) => {
                return Err(e);
            },
            Ok(i) => {
                start = i;
            },
        }
    }
    if pos.len() > 2 {
        assert(vm.ok(pos@[2]));
        match index_arg(&pos[2], len, vm) {
            Err(e) => {
                return Err(e);
            },
            Ok(i) => {
                end = if i < start {
                    start
                } else {
                    i
                };
            },
        }
    }
    assert(vm.ok(pos@[0]));
    let ghost from = start as int;
    let value = &pos[0];
    let mut i: usize = start;
    while i < end
        invariant
            vm.wf(),
            vm.all_ok(xs@),
            vm.ok(*value),
            xs@.len() <= i64::MAX,
            end <= xs@.len(),
            *value == args.pos@[0],
            args.kwargs@.len() == 0,
            1 <= args.pos@.len() <= 3,
            search_bounds(*vm, args.pos@, xs@.len() as int) == Ok::<(int, int), Raised>(
                (from, end as int),
            ),
            find_between(*vm, xs@, *value, from, end as int) == find_between(
                *vm,
                xs@,
                *value,
                i as int,
                end as int,
            ),
        decreases end - i,
    {
        assert(vm.ok(xs@[i as int]));
        match eq_values(value, &xs[i], vm.heap.max_depth, vm) {
            Err(e) => {
                return Err(e);
            },
            Ok(same) => {
                if same {
                    return Ok(Value::Int(i as i64));
                }
            },
        }
        i += 1;
    }
    Err(RunError::new(ExcType::ValueError, "tuple.index(x): x not in tuple"))
}

/// `tuple.count(value)`: how many items equal the value.
fn tuple_count(xs: &[Value], args: &ArgValues, vm: &VM) -> (r: RunResult<Value>)
    requires
        vm.wf(),
        vm.all_ok(xs@),
        xs@.len() <= i64::MAX,
        args.ok(vm.entries().len(), vm.interns),
    ensures
        number_result(r, count_outcome(*vm, xs@, *args)),
{
    let value = match args.get_one_arg("tuple.count") {
        Err(e) => {
            return Err(e);
        },
        Ok(value) => value,
    };
    assert(vm.ok(args.pos@[0]));
    let mut count: usize = 0;
    for i in 0..xs.len()
        invariant
            vm.wf(),
            vm.all_ok(xs@),
            vm.ok(*value),
            count <= i,
            xs@.len() <= i64::MAX,
            args.just(1),
            *value == args.pos@[0],
            count_equal(*vm, xs@, *value, 0, 0) == count_equal(
                *vm,
                xs@,
                *value,
                i as int,
                count as nat,
            ),
    {
        assert(vm.ok(xs@[i as int]));
        match eq_values(value, &xs[i], vm.heap.max_depth, vm) {
            Err(e) => {
                return Err(e);
            },
            Ok(same) => {
                if same {
                    count += 1;
                }
            },
        }
    }
    Ok(Value::Int(count as i64))
}

/// What a method of a tuple comes to.
pub open spec fn tuple_call(vm: VM, xs: Seq<Value>, attr: EitherStr, args: ArgValues) -> Result<
    int,
    Raised,
> {
    match attr.well_known() {
        Some(StaticStrings::Index) => index_outcome(vm, xs, args),
        Some(StaticStrings::Count) => count_outcome(vm, xs, args),
        _ => Err(no_attribute("tuple"@, attr.text(vm.interns))),
    }
}

/// Calls a method of a tuple.
pub fn py_call_attr(tuple: &Tuple, vm: &mut VM, attr: &EitherStr, args: ArgValues) -> (r: RunResult<
    CallResult,
>)
    requires
        old(vm).wf(),
        old(vm).all_ok(tuple.items@),
        tuple.items@.len() <= i64::MAX,
        attr.ok(old(vm).interns),
        args.ok(old(vm).entries().len(), old(vm).interns),
    ensures
        final(vm).wf(),
        match tuple_call(*old(vm), tuple.items@, *attr, args) {
            Ok(n) => r matches Ok(CallResult::Value(Value::Int(i))) && i == n,
            Err(e) => raises(r, e),
        },
        args.consumed(*old(vm), *final(vm)),
{
    let ghost given = args;
    let r = call_attr(tuple, vm, attr, &args);
    let ghost mid = *vm;
    args.release(vm);
    assert(given.consumed(mid, *vm));
    r
}

/// The same without taking the arguments.
fn call_attr(tuple: &Tuple, vm: &VM, attr: &EitherStr, args: &ArgValues) -> (r: RunResult<
    CallResult,
>)
    requires
        vm.wf(),
        vm.all_ok(tuple.items@),
        tuple.items@.len() <= i64::MAX,
        attr.ok(vm.interns),
        args.ok(vm.entries().len(), vm.interns),
    ensures
        match tuple_call(*vm, tuple.items@, *attr, *args) {
            Ok(n) => r matches Ok(CallResult::Value(Value::Int(i))) && i == n,
            Err(e) => raises(r, e),
        },
{
    let result = match attr.static_string() {
        Some(StaticStrings::Index) => tuple_index(tuple.as_slice(), args, vm),
        Some(StaticStrings::Count) => tuple_count(tuple.as_slice(), args, vm),
        _ => {
            return Err(attribute_error("tuple", attr.as_str(&vm.interns)));
        },
    };
    match result {
        Ok(v) => Ok(CallResult::Value(v)),
        Err(e) => Err(e),
    }
}

/// Values of elements that are values.
pub open spec fn element_values(es: Seq<Element>) -> Seq<Value> {
    es.map_values(
        |e: Element|
            match e {
                Element::Whole(v) => v,
                _ => Value::Undefined,
            },
    )
}

/// Whether the values are tuples of the pairs, made one after the other; `states`
/// are the states between.
pub open spec fn pairs_made(
    states: Seq<VM>,
    values: Seq<Value>,
    entries: Seq<(Value, Value)>,
) -> bool {
    &&& states.len() == values.len() + 1
    &&& values.len() <= entries.len()
    &&& forall|i: int|
        0 <= i < values.len() ==> tuple_result(
            states[i],
            #[trigger] states[i + 1],
            Ok(values[i]),
            seq![entries[i].0, entries[i].1],
        )
}

/// Whether a result is a tuple of the pairs, each a tuple, or the heap is full.
pub open spec fn pairs_result(
    before: VM,
    after: VM,
    r: RunResult<Value>,
    entries: Seq<(Value, Value)>,
) -> bool {
    exists|states: Seq<VM>, values: Seq<Value>|
        #![trigger pairs_made(states, values, entries)]
        {
            &&& pairs_made(states, values, entries)
            &&& states[0] == before
            &&& if values.len() == entries.len() {
                tuple_held(states.last(), after, r, values)
            } else {
                let i = values.len() as int;
                &&& tuple_result(states.last(), after, r, seq![entries[i].0, entries[i].1])
                &&& r is Err
            }
        }
}

/// What `tuple(iterable)` comes to.
pub open spec fn tuple_init_done(before: VM, after: VM, r: RunResult<Value>, args: ArgValues) -> bool {
    let empty = Value::Ref(HeapId(EMPTY_TUPLE));
    if args.just(0) {
        &&& r == Ok::<Value, RunError>(empty)
        &&& after.same_setting(before)
        &&& after.entries() == with_ref(before.entries(), empty)
    } else if !args.just(1) {
        raises(r, at_most_error("tuple"@, 1, args.total())) && after == before
    } else {
        let v = args.pos@[0];
        match elements_of(before, v) {
            None => raises(r, cannot_iterate(before, v)) && after == before,
            Some(es) => match (before.text_of(v), before.data_of(v)) {
                (Some(text), _) => parts_result(before, after, r, letters(text)),
                (None, Some(HeapData::DictItemsView(view))) => pairs_result(
                    before,
                    after,
                    r,
                    dict_entries(before, view.dict_id),
                ),
                _ => tuple_result(before, after, r, element_values(es)),
            },
        }
    }
}

fn letter_pieces(chars: &[char]) -> (r: Vec<Vec<char>>)
    ensures
        texts(r@) == letters(chars@),
{
    let mut out: Vec<Vec<char>> = Vec::new();
    for i in 0..chars.len()
        invariant
            out@.len() == i,
            forall|j: int| 0 <= j < i ==> (#[trigger] out@[j])@ == seq![chars@[j]],
    {
        let one: Vec<char> = vec![chars[i]];
        assert(one@ =~= seq![chars@[i as int]]);
        out.push(one);
    }
    assert(texts(out@) =~= letters(chars@));
    out
}

fn tuple_of_letters(text: &str, vm: &mut VM) -> (r: RunResult<Value>)
    requires
        old(vm).wf(),
    ensures
        final(vm).wf(),
        r matches Ok(v) ==> final(vm).ok(v),
        parts_result(*old(vm), *final(vm), r, letters(text@)),
{
    let chars = chars_of(text);
    if chars.len() == 0 {
        return Ok(vm.get_empty_tuple());
    }
    allocate_string_tuple(&letter_pieces(&chars), vm)
}

fn values_in(es: &[Element], Ghost(vm): Ghost<VM>) -> (r: Vec<Value>)
    requires
        elements_ok(vm, es@),
    ensures
        r@ == element_values(es@),
        vm.all_ok(r@),
{
    let mut out: Vec<Value> = Vec::new();
    for i in 0..es.len()
        invariant
            elements_ok(vm, es@),
            vm.all_ok(out@),
            out@ == element_values(es@.take(i as int)),
    {
        assert(crate::types::dict_view_ops::element_ok(vm, es@[i as int]));
        match &es[i] {
            Element::Whole(v) => out.push(v.alias()),
            _ => out.push(Value::Undefined),
        }
        assert(out@ =~= element_values(es@.take(i + 1)));
    }
    assert(es@.take(es@.len() as int) =~= es@);
    out
}

fn copy_entries(entries: &[(Value, Value)]) -> (r: Vec<(Value, Value)>)
    ensures
        r@ == entries@,
{
    let mut out: Vec<(Value, Value)> = Vec::new();
    for i in 0..entries.len()
        invariant
            out@ == entries@.take(i as int),
    {
        out.push((entries[i].0.alias(), entries[i].1.alias()));
        assert(out@ =~= entries@.take(i + 1));
    }
    assert(entries@.take(entries@.len() as int) =~= entries@);
    out
}

fn tuple_of_pairs(entries: &[(Value, Value)], vm: &mut VM) -> (r: RunResult<Value>)
    requires
        old(vm).wf(),
        pairs_ok(*old(vm), entries@),
    ensures
        final(vm).wf(),
        final(vm).same_setting(*old(vm)),
        final(vm).entries().len() >= old(vm).entries().len(),
        r matches Ok(v) ==> final(vm).ok(v),
        pairs_result(*old(vm), *final(vm), r, entries@),
{
    let mut values: Vec<Value> = Vec::new();
    let ghost mut states: Seq<VM> = seq![*vm];
    for i in 0..entries.len()
        invariant
            vm.wf(),
            vm.all_ok(values@),
            vm.same_setting(*old(vm)),
            vm.entries().len() >= old(vm).entries().len(),
            pairs_ok(*old(vm), entries@),
            values@.len() == i,
            pairs_made(states, values@, entries@),
            states[0] == *old(vm),
            states.last() == *vm,
    {
        assert(vm.ok(entries@[i as int].0) && vm.ok(entries@[i as int].1));
        let pair: Vec<Value> = vec![entries[i].0.alias(), entries[i].1.alias()];
        assert(pair@ =~= seq![entries@[i as int].0, entries@[i as int].1]);
        let ghost before = *vm;
        match new_tuple(&pair, vm) {
            Err(e) => {
                proof {
                    assert(tuple_result(
                        states.last(),
                        *vm,
                        Err(e),
                        seq![entries@[i as int].0, entries@[i as int].1],
                    ));
                }
                return Err(e);
            },
            Ok(v) => {
                proof {
                    let more = states.push(*vm);
                    let longer = values@.push(v);
                    assert forall|j: int| 0 <= j < longer.len() implies tuple_result(
                        more[j],
                        #[trigger] more[j + 1],
                        Ok(longer[j]),
                        seq![entries@[j].0, entries@[j].1],
                    ) by {
                        if j < values@.len() {
                            assert(more[j] == states[j] && more[j + 1] == states[j + 1]);
                        } else {
                            assert(more[j] == before);
                        }
                    }
                    states = more;
                    assert(vm.entries().len() >= before.entries().len()) by {
                        let grown = vm.entries().take(before.entries().len() as int);
                        crate::heap::lemma_with_refs_data(before.entries(), pair@);
                        assert(grown.len() == before.entries().len());
                    }
                }
                values.push(v);
            },
        }
    }
    let ghost made = values@;
    let r = allocate_tuple(TupleVec::from_vec(values), vm);
    assert(pairs_made(states, made, entries@));
    r
}

impl Tuple {
    /// `tuple(iterable)`; without an argument the empty tuple.
    pub fn init(vm: &mut VM, args: ArgValues) -> (r: RunResult<Value>)
        requires
            old(vm).wf(),
            args.ok(old(vm).entries().len(), old(vm).interns),
        ensures
            final(vm).wf(),
            r matches Ok(v) ==> final(vm).ok(v),
            exists|mid: VM| #[trigger]
                args.consumed(mid, *final(vm)) && tuple_init_done(*old(vm), mid, r, args),
    {
        let ghost given = args;
        let r = Self::init_from(vm, &args);
        let ghost mid = *vm;
        args.release(vm);
        assert(given.consumed(mid, *vm));
        r
    }

    /// The same without taking the arguments.
    fn init_from(vm: &mut VM, args: &ArgValues) -> (r: RunResult<Value>)
        requires
            old(vm).wf(),
            args.ok(old(vm).entries().len(), old(vm).interns),
        ensures
            final(vm).wf(),
            final(vm).same_setting(*old(vm)),
            final(vm).entries().len() >= old(vm).entries().len(),
            r matches Ok(v) ==> final(vm).ok(v),
            tuple_init_done(*old(vm), *final(vm), r, *args),
    {
        let value = match args.get_zero_one_arg("tuple") {
            Err(e) => {
                return Err(e);
            },
            Ok(None) => {
                return Ok(vm.get_empty_tuple());
            },
            Ok(Some(value)) => value,
        };
        assert(vm.ok(args.pos@[0]));
        let es = match iterate(value, vm) {
            None => {
                return Err(quoted_error("'", value.py_type(vm), "' object is not iterable"));
            },
            Some(es) => es,
        };
        let text = match value.text(vm) {
            Some(text) => Some(text.to_owned()),
            None => None,
        };
        match text {
            Some(text) => {
                return tuple_of_letters(text.as_str(), vm);
            },
            None => {},
        }
        let view = match value {
            Value::Ref(id) => {
                proof {
                    lemma_entry_ok(*vm, *id);
                }
                match vm.heap.get(*id) {
                    HeapData::DictItemsView(view) => Some(view.dict_id),
                    _ => None,
                }
            },
            _ => None,
        };
        match view {
            Some(dict_id) => {
                let entries = copy_entries(viewed(vm, dict_id));
                tuple_of_pairs(&entries, vm)
            },
            None => {
                let values = values_in(&es, Ghost(*vm));
                new_tuple(&values, vm)
            },
        }
    }
}

/// An item that `index` finds is counted: when a value is found in a tuple, it
/// occurs there at least once.
pub proof fn lemma_index_counts(vm: VM, xs: Seq<Value>, v: Value, i: int, counted: nat)
    requires
        0 <= i <= xs.len(),
        find_between(vm, xs, v, i, xs.len() as int) matches Ok(Some(_)),
        count_equal(vm, xs, v, i, counted) is Ok,
    ensures
        count_equal(vm, xs, v, i, counted)->Ok_0 > counted,
    decreases xs.len() - i,
{
    if i < xs.len() {
        match equal(vm, v, xs[i], vm.heap.max_depth as nat) {
            Ok(true) => lemma_count_grows(vm, xs, v, i + 1, counted + 1),
            Ok(false) => lemma_index_counts(vm, xs, v, i + 1, counted),
            Err(_) => {},
        }
    }
}

proof fn lemma_count_grows(vm: VM, xs: Seq<Value>, v: Value, i: int, counted: nat)
    requires
        0 <= i <= xs.len(),
        count_equal(vm, xs, v, i, counted) is Ok,
    ensures
        count_equal(vm, xs, v, i, counted)->Ok_0 >= counted,
    decreases xs.len() - i,
{
    if i < xs.len() {
        match equal(vm, v, xs[i], vm.heap.max_depth as nat) {
            Ok(true) => lemma_count_grows(vm, xs, v, i + 1, counted + 1),
            Ok(false) => lemma_count_grows(vm, xs, v, i + 1, counted),
            Err(_) => {},
        }
    }
}

} // verus!
