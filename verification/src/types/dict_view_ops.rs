//! Set operations of dictionary views.

use vstd::prelude::*;
use vstd::utf8::{char_is_scalar, is_scalar};

use crate::args::{one_arg_error, raises, ArgValues, Raised};
use crate::call::CallResult;
use crate::exception::{ExcType, RunError, RunResult};
use crate::arith::{new_tuple, tuple_result};
use crate::heap::{with_ref, HeapData};
use crate::intern::StaticStrings;
use crate::release::dropped;
use crate::text::chars_of;
use crate::types::containers::{Range, SetStorage};
use crate::types::dict_view::{DictItemsView, DictKeysView};
use crate::types::py_type::Type;
use crate::types::str::{allocate_char, string_result};
use crate::types::str_methods::{attribute_error, dict_entries, firsts, no_attribute, seconds};
use crate::value::{EitherStr, Value};
use crate::value_add::lemma_entry_ok;
use crate::value_eq::{
    compare_items, eq_items, eq_values, equal, keys_of, lemma_firsts_ok, lemma_seconds_ok,
    pair_error, pairs_ok, told, too_deep, tuple_items, tuple_slice, unhashable_pair, values_of,
    viewed,
};
use crate::value_hash::{hash_of, hash_pair, hash_value, pair_hash, unhashable};
use crate::value_item::quoted_error;
use crate::value_repr::char_of_code;
use crate::vm::VM;

verus! {

/// Something that iterating gives: a value, a pair of a key and a value, or a
/// character of a text by its code point.
#[derive(Debug, PartialEq, Eq, Structural)]
pub enum Element {
    Whole(Value),
    Pair(Value, Value),
    Letter(u32),
}

/// Whether what an element is made of exists.
pub open spec fn element_ok(vm: VM, e: Element) -> bool {
    match e {
        Element::Whole(v) => vm.ok(v),
        Element::Pair(k, v) => vm.ok(k) && vm.ok(v),
        Element::Letter(code) => is_scalar(code),
    }
}

/// Whether what elements are made of exists.
pub open spec fn elements_ok(vm: VM, es: Seq<Element>) -> bool {
    forall|i: int| 0 <= i < es.len() ==> element_ok(vm, #[trigger] es[i])
}

/// Whether a value is the pair as a tuple.
pub open spec fn is_pair(vm: VM, k: Value, v: Value, other: Value, fuel: nat) -> Result<
    bool,
    Raised,
> {
    match vm.data_of(other) {
        Some(d) => match tuple_items(d) {
            Some(items) => if items.len() != 2 {
                Ok(false)
            } else if fuel == 0 {
                Err(too_deep())
            } else {
                eq_items(vm, seq![k, v], items, 0, (fuel - 1) as nat)
            },
            None => Ok(false),
        },
        None => Ok(false),
    }
}

/// Whether a value is the text of one character.
pub open spec fn is_letter(vm: VM, c: u32, other: Value) -> bool {
    match vm.text_of(other) {
        Some(t) => t.len() == 1 && t[0] as u32 == c,
        None => false,
    }
}

/// Whether two elements are equal.
pub open spec fn elements_equal(vm: VM, a: Element, b: Element, fuel: nat) -> Result<bool, Raised> {
    match (a, b) {
        (Element::Whole(x), Element::Whole(y)) => equal(vm, x, y, fuel),
        (Element::Pair(k, v), Element::Whole(y)) => is_pair(vm, k, v, y, fuel),
        (Element::Whole(x), Element::Pair(k, v)) => is_pair(vm, k, v, x, fuel),
        (Element::Pair(k, v), Element::Pair(l, w)) => if fuel == 0 {
            Err(too_deep())
        } else {
            eq_items(vm, seq![k, v], seq![l, w], 0, (fuel - 1) as nat)
        },
        (Element::Letter(c), Element::Whole(y)) => Ok(is_letter(vm, c, y)),
        (Element::Whole(x), Element::Letter(c)) => Ok(is_letter(vm, c, x)),
        (Element::Letter(c), Element::Letter(d)) => Ok(c == d),
        _ => Ok(false),
    }
}

/// The error for an element that cannot be a member of a set.
pub open spec fn member_error(vm: VM, e: Element, fuel: nat) -> Option<Raised> {
    match e {
        Element::Whole(v) => match hash_of(vm, v, fuel) {
            Err(e) => Some(e),
            Ok(None) => Some(unhashable(vm, v)),
            Ok(Some(_)) => None,
        },
        Element::Pair(k, v) => match pair_hash(vm, k, v, fuel) {
            Err(e) => Some(e),
            Ok(None) => Some(unhashable_pair()),
            Ok(Some(_)) => None,
        },
        Element::Letter(_) => None,
    }
}

/// The first place from `i` on of an element that equals another, or the length.
pub open spec fn find_element(vm: VM, es: Seq<Element>, e: Element, i: int, fuel: nat) -> Result<
    int,
    Raised,
>
    decreases es.len() - i,
{
    if i >= es.len() {
        Ok(i)
    } else {
        match elements_equal(vm, e, es[i], fuel) {
            Err(x) => Err(x),
            Ok(true) => Ok(i),
            Ok(false) => find_element(vm, es, e, i + 1, fuel),
        }
    }
}

/// Whether an element is a member of a set.
pub open spec fn is_member(vm: VM, set: Seq<Element>, e: Element, fuel: nat) -> Result<bool, Raised> {
    match member_error(vm, e, fuel) {
        Some(x) => Err(x),
        None => match find_element(vm, set, e, 0, fuel) {
            Err(x) => Err(x),
            Ok(i) => Ok(i < set.len()),
        },
    }
}

/// Whether none of the members from `i` on is in the other set.
pub open spec fn none_within(vm: VM, xs: Seq<Element>, ys: Seq<Element>, i: int, fuel: nat) -> Result<
    bool,
    Raised,
>
    decreases xs.len() - i,
{
    if i >= xs.len() {
        Ok(true)
    } else {
        match is_member(vm, ys, xs[i], fuel) {
            Err(x) => Err(x),
            Ok(true) => Ok(false),
            Ok(false) => none_within(vm, xs, ys, i + 1, fuel),
        }
    }
}

/// Whether two sets have no member in common: the members of the smaller one are
/// looked up in the other.
pub open spec fn disjoint(vm: VM, left: Seq<Element>, right: Seq<Element>, fuel: nat) -> Result<
    bool,
    Raised,
> {
    if left.len() <= right.len() {
        none_within(vm, left, right, 0, fuel)
    } else {
        none_within(vm, right, left, 0, fuel)
    }
}

/// Values as elements.
pub open spec fn wholes(vs: Seq<Value>) -> Seq<Element> {
    vs.map_values(|v: Value| Element::Whole(v))
}

/// Entries as elements.
pub open spec fn pairs(es: Seq<(Value, Value)>) -> Seq<Element> {
    es.map_values(|e: (Value, Value)| Element::Pair(e.0, e.1))
}

/// The characters of a text as elements.
pub open spec fn letter_elements(s: Seq<char>) -> Seq<Element> {
    s.map_values(|c: char| Element::Letter(c as u32))
}

/// Bytes as elements.
pub open spec fn byte_elements(b: Seq<u8>) -> Seq<Element> {
    b.map_values(|x: u8| Element::Whole(Value::Int(x as i64)))
}

/// The numbers of a range as elements, up to the `n`th.
pub open spec fn range_elements(r: Range, n: int) -> Seq<Element>
    decreases n,
{
    if n <= 0 {
        Seq::empty()
    } else {
        range_elements(r, n - 1).push(
            Element::Whole(Value::Int((r.start + (n - 1) * r.step) as i64)),
        )
    }
}

/// What iterating over a value gives, if it can be iterated over.
pub open spec fn elements_of(vm: VM, v: Value) -> Option<Seq<Element>> {
    match vm.text_of(v) {
        Some(t) => Some(letter_elements(t)),
        None => match vm.bytes_of(v) {
            Some(b) => Some(byte_elements(b)),
            None => match vm.data_of(v) {
                Some(HeapData::List(list)) => Some(wholes(list.items@)),
                Some(HeapData::Tuple(tuple)) => Some(wholes(tuple.items@)),
                Some(HeapData::NamedTuple(tuple)) => Some(wholes(tuple.items@)),
                Some(HeapData::Dict(dict)) => Some(wholes(firsts(dict.entries@))),
                Some(HeapData::SetData(set)) => Some(wholes(set.items@)),
                Some(HeapData::FrozenSet(set)) => Some(wholes(set.items@)),
                Some(HeapData::DictKeysView(view)) => Some(
                    wholes(firsts(dict_entries(vm, view.dict_id))),
                ),
                Some(HeapData::DictValuesView(view)) => Some(
                    wholes(seconds(dict_entries(vm, view.dict_id))),
                ),
                Some(HeapData::DictItemsView(view)) => Some(
                    pairs(dict_entries(vm, view.dict_id)),
                ),
                Some(HeapData::Range(range)) => Some(range_elements(range, range.count())),
                _ => None,
            },
        },
    }
}

/// The error for a value that cannot be iterated over.
pub open spec fn cannot_iterate(vm: VM, v: Value) -> Raised {
    (ExcType::TypeError, "'"@ + vm.type_of(v).text() + "' object is not iterable"@)
}

/// Whether a result is the value that an element stands for, counted once more: a pair
/// becomes a tuple, and a character a text.
pub open spec fn element_made(before: VM, after: VM, r: RunResult<Value>, e: Element) -> bool {
    match e {
        Element::Whole(v) => {
            &&& r == Ok::<Value, RunError>(v)
            &&& after.same_setting(before)
            &&& after.entries() == with_ref(before.entries(), v)
        },
        Element::Pair(k, v) => tuple_result(before, after, r, seq![k, v]),
        Element::Letter(code) => exists|text: Seq<char>|
            text.len() == 1 && text[0] as u32 == code && #[trigger] string_result(
                before,
                after,
                r,
                text,
            ),
    }
}

/// Whether the values are what the first elements stand for, made one after the
/// other; `states` are the states between.
pub open spec fn members_made(states: Seq<VM>, values: Seq<Value>, es: Seq<Element>) -> bool {
    &&& states.len() == values.len() + 1
    &&& values.len() <= es.len()
    &&& forall|i: int|
        0 <= i < values.len() ==> element_made(
            states[i],
            #[trigger] states[i + 1],
            Ok(values[i]),
            es[i],
        )
}

/// The set of values that are added one by one, each as soon as it is made, and the
/// values that were in it already.
pub open spec fn gathered(states: Seq<VM>, values: Seq<Value>, fuel: nat) -> Result<
    (Seq<Value>, Seq<Value>),
    Raised,
>
    decreases values.len(),
{
    if values.len() == 0 {
        Ok((Seq::empty(), Seq::empty()))
    } else {
        match gathered(states.drop_last(), values.drop_last(), fuel) {
            Err(e) => Err(e),
            Ok((set, extra)) => match is_member(
                states.last(),
                wholes(set),
                Element::Whole(values.last()),
                fuel,
            ) {
                Err(e) => Err(e),
                Ok(true) => Ok((set, extra.push(values.last()))),
                Ok(false) => Ok((set.push(values.last()), extra)),
            },
        }
    }
}

/// Whether a result is a set of what the elements stand for, which owns its members.
/// The first element that cannot be made, or cannot be a member, is an error, and
/// what was made is dropped.
pub open spec fn set_collected(
    before: VM,
    after: VM,
    r: RunResult<SetStorage>,
    es: Seq<Element>,
    fuel: nat,
) -> bool {
    exists|states: Seq<VM>, values: Seq<Value>|
        #![trigger members_made(states, values, es)]
        {
            &&& members_made(states, values, es)
            &&& states[0] == before
            &&& match gathered(states, values, fuel) {
                Err(e) => {
                    &&& values.len() > 0
                    &&& gathered(states.drop_last(), values.drop_last(), fuel) is Ok
                    &&& raises(r, e)
                    &&& dropped(states.last(), after, values)
                },
                Ok((set, extra)) => if values.len() == es.len() {
                    &&& r matches Ok(made) && made.items@ == set
                    &&& dropped(states.last(), after, extra)
                } else {
                    exists|mid: VM, e: RunError|
                        {
                            &&& #[trigger] element_made(
                                states.last(),
                                mid,
                                Err(e),
                                es[values.len() as int],
                            )
                            &&& r == Err::<SetStorage, RunError>(e)
                            &&& dropped(mid, after, values)
                        }
                },
            }
        }
}

/// Whether a result is the set of what a view shows.
pub open spec fn view_collected(before: VM, after: VM, r: RunResult<SetStorage>, es: Seq<Element>) -> bool {
    if before.heap.max_depth == 0 {
        raises(r, too_deep()) && after == before
    } else {
        set_collected(before, after, r, es, (before.heap.max_depth - 1) as nat)
    }
}

/// Whether a result is the set of what iterating over a value gives.
pub open spec fn iterable_collected(
    before: VM,
    after: VM,
    r: RunResult<SetStorage>,
    v: Value,
) -> bool {
    match elements_of(before, v) {
        None => raises(r, cannot_iterate(before, v)) && after == before,
        Some(es) => set_collected(before, after, r, es, before.heap.max_depth as nat),
    }
}

/// Whether a result says if the members have nothing in common with what iterating
/// over a value gives; the set of that is dropped again.
pub open spec fn compared_done(
    before: VM,
    after: VM,
    r: RunResult<bool>,
    left: Seq<Value>,
    other: Value,
) -> bool {
    exists|mid: VM, x: RunResult<SetStorage>|
        #[trigger] iterable_collected(before, mid, x, other) && match x {
            Err(e) => r == Err::<bool, RunError>(e) && after == mid,
            Ok(right) => told(
                r,
                disjoint(mid, wholes(left), wholes(right.items@), mid.heap.max_depth as nat),
            ) && dropped(mid, after, right.items@),
        }
}

/// Whether a result says if a view that shows the elements has nothing in common with
/// what iterating over a value gives; the sets of both are dropped again.
pub open spec fn disjoint_done(
    before: VM,
    after: VM,
    r: RunResult<bool>,
    es: Seq<Element>,
    other: Value,
) -> bool {
    exists|mid: VM, x: RunResult<SetStorage>|
        #[trigger] view_collected(before, mid, x, es) && match x {
            Err(e) => r == Err::<bool, RunError>(e) && after == mid,
            Ok(left) => exists|end: VM|
                #[trigger] compared_done(mid, end, r, left.items@, other) && dropped(
                    end,
                    after,
                    left.items@,
                ),
        }
}

fn same_pair(k: &Value, v: &Value, other: &Value, depth: usize, vm: &VM) -> (r: RunResult<bool>)
    requires
        vm.wf(),
        vm.ok(*k),
        vm.ok(*v),
        vm.ok(*other),
    ensures
        told(r, is_pair(*vm, *k, *v, *other, depth as nat)),
{
    match other {
        Value::Ref(id) => {
            proof {
                lemma_entry_ok(*vm, *id);
            }
            match tuple_slice(vm.heap.get(*id)) {
                Some(items) => {
                    let pair: Vec<Value> = vec![k.alias(), v.alias()];
                    assert(pair@ =~= seq![*k, *v]);
                    compare_items(&pair, items, depth, vm)
                },
                None => Ok(false),
            }
        },
        _ => Ok(false),
    }
}

fn same_letter(c: u32, other: &Value, vm: &VM) -> (r: bool)
    requires
        vm.ok(*other),
    ensures
        r == is_letter(*vm, c, *other),
{
    match other.text(vm) {
        Some(t) => {
            let chars = chars_of(t);
            chars.len() == 1 && chars[0] as u32 == c
        },
        None => false,
    }
}

fn same_element(a: &Element, b: &Element, depth: usize, vm: &VM) -> (r: RunResult<bool>)
    requires
        vm.wf(),
        element_ok(*vm, *a),
        element_ok(*vm, *b),
    ensures
        told(r, elements_equal(*vm, *a, *b, depth as nat)),
{
    match (a, b) {
        (Element::Whole(x), Element::Whole(y)) => eq_values(x, y, depth, vm),
        (Element::Pair(k, v), Element::Whole(y)) => same_pair(k, v, y, depth, vm),
        (Element::Whole(x), Element::Pair(k, v)) => same_pair(k, v, x, depth, vm),
        (Element::Pair(k, v), Element::Pair(l, w)) => {
            let left: Vec<Value> = vec![k.alias(), v.alias()];
            let right: Vec<Value> = vec![l.alias(), w.alias()];
            assert(left@ =~= seq![*k, *v]);
            assert(right@ =~= seq![*l, *w]);
            compare_items(&left, &right, depth, vm)
        },
        (Element::Letter(c), Element::Whole(y)) => Ok(same_letter(*c, y, vm)),
        (Element::Whole(x), Element::Letter(c)) => Ok(same_letter(*c, x, vm)),
        (Element::Letter(c), Element::Letter(d)) => Ok(*c == *d),
        _ => Ok(false),
    }
}

fn check_member(e: &Element, depth: usize, vm: &VM) -> (r: RunResult<()>)
    requires
        vm.wf(),
        element_ok(*vm, *e),
    ensures
        match member_error(*vm, *e, depth as nat) {
            Some(x) => raises(r, x),
            None => r is Ok,
        },
{
    match e {
        Element::Whole(v) => match hash_value(v, depth, vm) {
            Err(x) => Err(x),
            Ok(None) => Err(quoted_error("unhashable type: '", v.py_type(vm), "'")),
            Ok(Some(_)) => Ok(()),
        },
        Element::Pair(k, v) => match hash_pair(k, v, depth, vm) {
            Err(x) => Err(x),
            Ok(None) => Err(pair_error()),
            Ok(Some(_)) => Ok(()),
        },
        Element::Letter(_) => Ok(()),
    }
}

fn member(set: &[Element], e: &Element, depth: usize, vm: &VM) -> (r: RunResult<bool>)
    requires
        vm.wf(),
        elements_ok(*vm, set@),
        element_ok(*vm, *e),
    ensures
        told(r, is_member(*vm, set@, *e, depth as nat)),
{
    match check_member(e, depth, vm) {
        Err(x) => {
            return Err(x);
        },
        Ok(_) => {},
    }
    for i in 0..set.len()
        invariant
            vm.wf(),
            elements_ok(*vm, set@),
            element_ok(*vm, *e),
            member_error(*vm, *e, depth as nat) is None,
            find_element(*vm, set@, *e, 0, depth as nat) == find_element(
                *vm,
                set@,
                *e,
                i as int,
                depth as nat,
            ),
    {
        assert(element_ok(*vm, set@[i as int]));
        match same_element(e, &set[i], depth, vm) {
            Err(x) => {
                return Err(x);
            },
            Ok(b) => {
                if b {
                    return Ok(true);
                }
            },
        }
    }
    Ok(false)
}

/// The value that an element stands for.
fn make_element(e: &Element, vm: &mut VM) -> (r: RunResult<Value>)
    requires
        old(vm).wf(),
        element_ok(*old(vm), *e),
    ensures
        final(vm).wf(),
        final(vm).same_setting(*old(vm)),
        final(vm).entries().len() >= old(vm).entries().len(),
        r matches Ok(v) ==> final(vm).ok(v),
        element_made(*old(vm), *final(vm), r, *e),
{
    match e {
        Element::Whole(v) => Ok(vm.clone_value(v)),
        Element::Pair(k, v) => {
            let pair: Vec<Value> = vec![k.alias(), v.alias()];
            assert(pair@ =~= seq![*k, *v]);
            new_tuple(&pair, vm)
        },
        Element::Letter(code) => match char_of_code(*code) {
            Some(c) => {
                let r = allocate_char(c, vm);
                assert(string_result(*old(vm), *vm, r, seq![c]));
                r
            },
            None => Ok(Value::Undefined),
        },
    }
}

/// One more value is made.
proof fn lemma_member_added(
    states: Seq<VM>,
    values: Seq<Value>,
    es: Seq<Element>,
    after: VM,
    v: Value,
)
    requires
        members_made(states, values, es),
        values.len() < es.len(),
        element_made(states.last(), after, Ok(v), es[values.len() as int]),
    ensures
        members_made(states.push(after), values.push(v), es),
        states.push(after).drop_last() == states,
        values.push(v).drop_last() == values,
{
    let more = states.push(after);
    let longer = values.push(v);
    assert forall|j: int| 0 <= j < longer.len() implies element_made(
        more[j],
        #[trigger] more[j + 1],
        Ok(longer[j]),
        es[j],
    ) by {
        if j < values.len() {
            assert(more[j + 1] == states[j + 1]);
        }
    }
    assert(more.drop_last() =~= states);
    assert(longer.drop_last() =~= values);
}

/// The set of what the elements stand for.
#[verifier::rlimit(60)]
fn gather(es: &[Element], depth: usize, vm: &mut VM) -> (r: RunResult<SetStorage>)
    requires
        old(vm).wf(),
        elements_ok(*old(vm), es@),
    ensures
        final(vm).wf(),
        final(vm).same_setting(*old(vm)),
        final(vm).entries().len() >= old(vm).entries().len(),
        r matches Ok(set) ==> final(vm).all_ok(set.items@),
        set_collected(*old(vm), *final(vm), r, es@, depth as nat),
{
    let mut made: Vec<Value> = Vec::new();
    let mut set: Vec<Value> = Vec::new();
    let mut extra: Vec<Value> = Vec::new();
    let ghost mut states: Seq<VM> = seq![*vm];
    for i in 0..es.len()
        invariant
            elements_ok(*old(vm), es@),
            vm.wf(),
            vm.same_setting(*old(vm)),
            vm.entries().len() >= old(vm).entries().len(),
            vm.all_ok(made@),
            vm.all_ok(set@),
            vm.all_ok(extra@),
            made@.len() == i,
            members_made(states, made@, es@),
            states[0] == *old(vm),
            states.last() == *vm,
            gathered(states, made@, depth as nat) == Ok::<(Seq<Value>, Seq<Value>), Raised>(
                (set@, extra@),
            ),
    {
        assert(element_ok(*old(vm), es@[i as int]));
        assert(element_ok(*vm, es@[i as int]));
        let ghost before = *vm;
        let ghost earlier = made@;
        match make_element(&es[i], vm) {
            Err(e) => {
                let ghost mid = *vm;
                assert(element_made(states.last(), mid, Err(e), es@[i as int]));
                vm.drop_values(made);
                assert(members_made(states, earlier, es@));
                return Err(e);
            },
            Ok(v) => {
                made.push(v.alias());
                proof {
                    lemma_member_added(states, earlier, es@, *vm, v);
                    states = states.push(*vm);
                }
                let wrapped = whole_elements(&set, Ghost(*vm));
                match member(&wrapped, &Element::Whole(v.alias()), depth, vm) {
                    Err(e) => {
                        vm.drop_values(made);
                        assert(members_made(states, earlier.push(v), es@));
                        return Err(e);
                    },
                    Ok(b) => {
                        if b {
                            extra.push(v);
                        } else {
                            set.push(v);
                        }
                    },
                }
            },
        }
    }
    vm.drop_values(extra);
    Ok(SetStorage { items: set })
}

/// Whether two sets have no member in common.
pub fn sets_are_disjoint(left: &[Element], right: &[Element], vm: &VM) -> (r: RunResult<bool>)
    requires
        vm.wf(),
        elements_ok(*vm, left@),
        elements_ok(*vm, right@),
    ensures
        told(r, disjoint(*vm, left@, right@, vm.heap.max_depth as nat)),
{
    let (smaller, larger) = if left.len() <= right.len() {
        (left, right)
    } else {
        (right, left)
    };
    let depth: usize = vm.heap.max_depth;
    for i in 0..smaller.len()
        invariant
            vm.wf(),
            depth == vm.heap.max_depth,
            elements_ok(*vm, smaller@),
            elements_ok(*vm, larger@),
            disjoint(*vm, left@, right@, depth as nat) == none_within(
                *vm,
                smaller@,
                larger@,
                i as int,
                depth as nat,
            ),
    {
        assert(element_ok(*vm, smaller@[i as int]));
        match member(larger, &smaller[i], depth, vm) {
            Err(x) => {
                return Err(x);
            },
            Ok(b) => {
                if b {
                    return Ok(false);
                }
            },
        }
    }
    Ok(true)
}

fn whole_elements(vs: &[Value], Ghost(vm): Ghost<VM>) -> (r: Vec<Element>)
    requires
        vm.all_ok(vs@),
    ensures
        r@ == wholes(vs@),
        elements_ok(vm, r@),
{
    let mut out: Vec<Element> = Vec::new();
    for i in 0..vs.len()
        invariant
            vm.all_ok(vs@),
            elements_ok(vm, out@),
            out@ == wholes(vs@.take(i as int)),
    {
        assert(vm.ok(vs@[i as int]));
        out.push(Element::Whole(vs[i].alias()));
        assert(out@ =~= wholes(vs@.take(i + 1)));
    }
    assert(vs@.take(vs@.len() as int) =~= vs@);
    out
}

fn pair_elements(es: &[(Value, Value)], Ghost(vm): Ghost<VM>) -> (r: Vec<Element>)
    requires
        pairs_ok(vm, es@),
    ensures
        r@ == pairs(es@),
        elements_ok(vm, r@),
{
    let mut out: Vec<Element> = Vec::new();
    for i in 0..es.len()
        invariant
            pairs_ok(vm, es@),
            elements_ok(vm, out@),
            out@ == pairs(es@.take(i as int)),
    {
        assert(vm.ok(es@[i as int].0) && vm.ok(es@[i as int].1));
        out.push(Element::Pair(es[i].0.alias(), es[i].1.alias()));
        assert(out@ =~= pairs(es@.take(i + 1)));
    }
    assert(es@.take(es@.len() as int) =~= es@);
    out
}

fn text_elements(s: &str, Ghost(vm): Ghost<VM>) -> (r: Vec<Element>)
    ensures
        r@ == letter_elements(s@),
        elements_ok(vm, r@),
{
    let chars = chars_of(s);
    let mut out: Vec<Element> = Vec::new();
    for i in 0..chars.len()
        invariant
            elements_ok(vm, out@),
            out@ == letter_elements(chars@.take(i as int)),
    {
        proof {
            char_is_scalar(chars@[i as int]);
        }
        out.push(Element::Letter(chars[i] as u32));
        assert(out@ =~= letter_elements(chars@.take(i + 1)));
    }
    assert(chars@.take(chars@.len() as int) =~= chars@);
    out
}

fn raw_elements(b: &[u8], Ghost(vm): Ghost<VM>) -> (r: Vec<Element>)
    ensures
        r@ == byte_elements(b@),
        elements_ok(vm, r@),
{
    let mut out: Vec<Element> = Vec::new();
    for i in 0..b.len()
        invariant
            elements_ok(vm, out@),
            out@ == byte_elements(b@.take(i as int)),
    {
        out.push(Element::Whole(Value::Int(b[i] as i64)));
        assert(out@ =~= byte_elements(b@.take(i + 1)));
    }
    assert(b@.take(b@.len() as int) =~= b@);
    out
}

/// The numbers of a range lie between its ends.
proof fn lemma_range_number(r: Range, k: int)
    requires
        r.step != 0,
        0 <= k < r.count(),
    ensures
        r.has(r.start + k * r.step),
        i64::MIN <= r.start + k * r.step <= i64::MAX,
{
    if r.step > 0 {
        let d = r.stop - r.start - 1;
        let s = r.step as int;
        vstd::arithmetic::div_mod::lemma_fundamental_div_mod(d, s);
        assert(0 <= k * s <= s * (d / s)) by (nonlinear_arith)
            requires
                0 <= k <= d / s,
                s > 0,
        ;
        assert(k * s == s * k) by (nonlinear_arith);
        vstd::arithmetic::div_mod::lemma_fundamental_div_mod_converse(k * s, s, k, 0);
    } else {
        let d = r.start - r.stop - 1;
        let s = -(r.step as int);
        vstd::arithmetic::div_mod::lemma_fundamental_div_mod(d, s);
        assert(0 <= k * s <= s * (d / s)) by (nonlinear_arith)
            requires
                0 <= k <= d / s,
                s > 0,
        ;
        assert(k * s == s * k) by (nonlinear_arith);
        assert(k * r.step == -(k * s)) by (nonlinear_arith)
            requires
                s == -(r.step as int),
        ;
        vstd::arithmetic::div_mod::lemma_fundamental_div_mod_converse(k * s, s, k, 0);
    }
}

fn number_elements(range: &Range, Ghost(vm): Ghost<VM>) -> (r: Vec<Element>)
    requires
        range.step != 0,
    ensures
        r@ == range_elements(*range, range.count()),
        elements_ok(vm, r@),
{
    let count: i128 = range.len();
    let mut out: Vec<Element> = Vec::new();
    let mut k: i128 = 0;
    let mut current: i128 = range.start as i128;
    assert(out@ =~= range_elements(*range, 0));
    while k < count
        invariant
            range.step != 0,
            count == range.count(),
            0 <= k <= count,
            elements_ok(vm, out@),
            out@ == range_elements(*range, k as int),
            current == range.start + k * range.step,
        decreases count - k,
    {
        proof {
            lemma_range_number(*range, k as int);
            assert(range.start + (k + 1) * range.step == range.start + k * range.step + range.step)
                by (nonlinear_arith);
        }
        out.push(Element::Whole(Value::Int(current as i64)));
        k = k + 1;
        current = current + range.step as i128;
    }
    out
}

/// What iterating over a value gives, if it can be iterated over.
pub(crate) fn iterate(value: &Value, vm: &VM) -> (r: Option<Vec<Element>>)
    requires
        vm.wf(),
        vm.ok(*value),
    ensures
        match (r, elements_of(*vm, *value)) {
            (Some(es), Some(expected)) => es@ == expected && elements_ok(*vm, es@),
            (None, None) => true,
            _ => false,
        },
{
    match value.text(vm) {
        Some(t) => {
            return Some(text_elements(t, Ghost(*vm)));
        },
        None => {},
    }
    match value.raw_bytes(vm) {
        Some(b) => {
            return Some(raw_elements(b, Ghost(*vm)));
        },
        None => {},
    }
    match value {
        Value::Ref(id) => {
            proof {
                lemma_entry_ok(*vm, *id);
            }
            match vm.heap.get(*id) {
                HeapData::List(list) => Some(whole_elements(list.as_slice(), Ghost(*vm))),
                HeapData::Tuple(tuple) => Some(whole_elements(tuple.as_slice(), Ghost(*vm))),
                HeapData::NamedTuple(tuple) => Some(
                    whole_elements(tuple.items.as_slice(), Ghost(*vm)),
                ),
                HeapData::Dict(dict) => {
                    proof {
                        lemma_firsts_ok(*vm, dict.entries@);
                    }
                    Some(whole_elements(&keys_of(dict.entries.as_slice()), Ghost(*vm)))
                },
                HeapData::SetData(set) => Some(whole_elements(set.items.as_slice(), Ghost(*vm))),
                HeapData::FrozenSet(set) => Some(
                    whole_elements(set.items.as_slice(), Ghost(*vm)),
                ),
                HeapData::DictKeysView(view) => {
                    let es = viewed(vm, view.dict_id);
                    proof {
                        lemma_firsts_ok(*vm, es@);
                    }
                    Some(whole_elements(&keys_of(es), Ghost(*vm)))
                },
                HeapData::DictValuesView(view) => {
                    let es = viewed(vm, view.dict_id);
                    proof {
                        lemma_seconds_ok(*vm, es@);
                    }
                    Some(whole_elements(&values_of(es), Ghost(*vm)))
                },
                HeapData::DictItemsView(view) => Some(
                    pair_elements(viewed(vm, view.dict_id), Ghost(*vm)),
                ),
                HeapData::Range(range) => Some(number_elements(range, Ghost(*vm))),
                _ => None,
            }
        },
        _ => None,
    }
}

/// The set of what iterating over a value gives.
pub fn collect_iterable_to_set(value: &Value, vm: &mut VM) -> (r: RunResult<SetStorage>)
    requires
        old(vm).wf(),
        old(vm).ok(*value),
    ensures
        final(vm).wf(),
        final(vm).same_setting(*old(vm)),
        final(vm).entries().len() >= old(vm).entries().len(),
        r matches Ok(set) ==> final(vm).all_ok(set.items@),
        iterable_collected(*old(vm), *final(vm), r, *value),
{
    match iterate(value, vm) {
        None => Err(quoted_error("'", value.py_type(vm), "' object is not iterable")),
        Some(es) => {
            let depth: usize = vm.heap.max_depth;
            gather(&es, depth, vm)
        },
    }
}

fn collect_view(es: &[Element], vm: &mut VM) -> (r: RunResult<SetStorage>)
    requires
        old(vm).wf(),
        elements_ok(*old(vm), es@),
    ensures
        final(vm).wf(),
        final(vm).same_setting(*old(vm)),
        final(vm).entries().len() >= old(vm).entries().len(),
        r matches Ok(set) ==> final(vm).all_ok(set.items@),
        view_collected(*old(vm), *final(vm), r, es@),
{
    let depth: usize = vm.heap.max_depth;
    if depth == 0 {
        return Err(VM::recursion_error());
    }
    gather(es, depth - 1, vm)
}

fn compare_members(left: &Vec<Value>, other: &Value, vm: &mut VM) -> (r: RunResult<bool>)
    requires
        old(vm).wf(),
        old(vm).all_ok(left@),
        old(vm).ok(*other),
    ensures
        final(vm).wf(),
        final(vm).same_setting(*old(vm)),
        final(vm).entries().len() >= old(vm).entries().len(),
        compared_done(*old(vm), *final(vm), r, left@, *other),
{
    let x = collect_iterable_to_set(other, vm);
    let ghost given = x;
    let ghost mid = *vm;
    let r = match x {
        Err(e) => Err(e),
        Ok(right) => {
            let a = whole_elements(left, Ghost(*vm));
            let b = whole_elements(&right.items, Ghost(*vm));
            let r = sets_are_disjoint(&a, &b, vm);
            vm.drop_values(right.items);
            r
        },
    };
    assert(iterable_collected(*old(vm), mid, given, *other));
    r
}

fn compare_view(es: &[Element], other: &Value, vm: &mut VM) -> (r: RunResult<bool>)
    requires
        old(vm).wf(),
        elements_ok(*old(vm), es@),
        old(vm).ok(*other),
    ensures
        final(vm).wf(),
        final(vm).same_setting(*old(vm)),
        final(vm).entries().len() >= old(vm).entries().len(),
        disjoint_done(*old(vm), *final(vm), r, es@, *other),
{
    let x = collect_view(es, vm);
    let ghost given = x;
    let ghost mid = *vm;
    let r = match x {
        Err(e) => Err(e),
        Ok(left) => {
            let r = compare_members(&left.items, other, vm);
            let ghost end = *vm;
            assert(compared_done(mid, end, r, left.items@, *other));
            vm.drop_values(left.items);
            r
        },
    };
    assert(view_collected(*old(vm), mid, given, es@));
    r
}

/// What a method of a view comes to.
pub open spec fn view_call_done(
    before: VM,
    after: VM,
    r: RunResult<CallResult>,
    es: Seq<Element>,
    label: Seq<char>,
    t: Type,
    attr: EitherStr,
    args: ArgValues,
) -> bool {
    match attr.well_known() {
        Some(StaticStrings::Isdisjoint) => if !args.just(1) {
            raises(r, one_arg_error(label, args.total())) && after == before
        } else {
            exists|x: RunResult<bool>|
                #[trigger] disjoint_done(before, after, x, es, args.pos@[0]) && r == (match x {
                    Ok(b) => Ok::<CallResult, RunError>(CallResult::Value(Value::Bool(b))),
                    Err(e) => Err(e),
                })
        },
        _ => raises(r, no_attribute(t.text(), attr.text(before.interns))) && after == before,
    }
}

fn call_view(
    es: &[Element],
    label: &str,
    t: Type,
    vm: &mut VM,
    attr: &EitherStr,
    args: &ArgValues,
) -> (r: RunResult<CallResult>)
    requires
        old(vm).wf(),
        elements_ok(*old(vm), es@),
        attr.ok(old(vm).interns),
        args.ok(old(vm).entries().len(), old(vm).interns),
    ensures
        final(vm).wf(),
        final(vm).same_setting(*old(vm)),
        final(vm).entries().len() >= old(vm).entries().len(),
        r matches Ok(CallResult::Value(v)) ==> final(vm).ok(v),
        view_call_done(*old(vm), *final(vm), r, es@, label@, t, *attr, *args),
{
    match attr.static_string() {
        Some(StaticStrings::Isdisjoint) => match args.get_one_arg(label) {
            Err(e) => Err(e),
            Ok(other) => {
                assert(vm.ok(args.pos@[0]));
                let x = compare_view(es, other, vm);
                assert(disjoint_done(*old(vm), *vm, x, es@, args.pos@[0]));
                match x {
                    Ok(b) => Ok(CallResult::Value(Value::Bool(b))),
                    Err(e) => Err(e),
                }
            },
        },
        _ => Err(attribute_error(t.as_str(), attr.as_str(&vm.interns))),
    }
}

impl DictKeysView {
    /// What the view shows.
    pub open spec fn shows(self, vm: VM) -> Seq<Element> {
        wholes(firsts(dict_entries(vm, self.dict_id)))
    }

    /// What the view shows.
    fn shown(&self, vm: &VM) -> (r: Vec<Element>)
        requires
            vm.wf(),
            self.dict_id.0 < vm.entries().len(),
        ensures
            r@ == self.shows(*vm),
            elements_ok(*vm, r@),
    {
        let es = viewed(vm, self.dict_id);
        proof {
            lemma_firsts_ok(*vm, es@);
        }
        whole_elements(&keys_of(es), Ghost(*vm))
    }

    /// The keys that the view shows, as a set of its own.
    pub fn to_set(&self, vm: &mut VM) -> (r: RunResult<SetStorage>)
        requires
            old(vm).wf(),
            self.dict_id.0 < old(vm).entries().len(),
        ensures
            final(vm).wf(),
            r matches Ok(set) ==> final(vm).all_ok(set.items@),
            view_collected(*old(vm), *final(vm), r, self.shows(*old(vm))),
    {
        collect_view(&self.shown(vm), vm)
    }

    /// Whether none of the keys comes up when iterating over a value.
    pub fn isdisjoint_from_value(&self, other: &Value, vm: &mut VM) -> (r: RunResult<bool>)
        requires
            old(vm).wf(),
            self.dict_id.0 < old(vm).entries().len(),
            old(vm).ok(*other),
        ensures
            final(vm).wf(),
            disjoint_done(*old(vm), *final(vm), r, self.shows(*old(vm)), *other),
    {
        compare_view(&self.shown(vm), other, vm)
    }

    /// Calls a method of the view.
    pub fn py_call_attr(&self, vm: &mut VM, attr: &EitherStr, args: ArgValues) -> (r: RunResult<
        CallResult,
    >)
        requires
            old(vm).wf(),
            self.dict_id.0 < old(vm).entries().len(),
            attr.ok(old(vm).interns),
            args.ok(old(vm).entries().len(), old(vm).interns),
        ensures
            final(vm).wf(),
            r matches Ok(CallResult::Value(v)) ==> final(vm).ok(v),
            exists|mid: VM| #[trigger]
                args.consumed(mid, *final(vm)) && view_call_done(
                    *old(vm),
                    mid,
                    r,
                    self.shows(*old(vm)),
                    "dict_keys.isdisjoint"@,
                    Type::DictKeys,
                    *attr,
                    args,
                ),
    {
        let ghost given = args;
        let es = self.shown(vm);
        let r = call_view(&es, "dict_keys.isdisjoint", Type::DictKeys, vm, attr, &args);
        let ghost mid = *vm;
        args.release(vm);
        assert(given.consumed(mid, *vm));
        r
    }
}

impl DictItemsView {
    /// What the view shows.
    pub open spec fn shows(self, vm: VM) -> Seq<Element> {
        pairs(dict_entries(vm, self.dict_id))
    }

    /// What the view shows.
    fn shown(&self, vm: &VM) -> (r: Vec<Element>)
        requires
            vm.wf(),
            self.dict_id.0 < vm.entries().len(),
        ensures
            r@ == self.shows(*vm),
            elements_ok(*vm, r@),
    {
        pair_elements(viewed(vm, self.dict_id), Ghost(*vm))
    }

    /// The pairs that the view shows, as a set of new tuples.
    pub fn to_set(&self, vm: &mut VM) -> (r: RunResult<SetStorage>)
        requires
            old(vm).wf(),
            self.dict_id.0 < old(vm).entries().len(),
        ensures
            final(vm).wf(),
            r matches Ok(set) ==> final(vm).all_ok(set.items@),
            view_collected(*old(vm), *final(vm), r, self.shows(*old(vm))),
    {
        collect_view(&self.shown(vm), vm)
    }

    /// Whether none of the pairs comes up when iterating over a value.
    pub fn isdisjoint_from_value(&self, other: &Value, vm: &mut VM) -> (r: RunResult<bool>)
        requires
            old(vm).wf(),
            self.dict_id.0 < old(vm).entries().len(),
            old(vm).ok(*other),
        ensures
            final(vm).wf(),
            disjoint_done(*old(vm), *final(vm), r, self.shows(*old(vm)), *other),
    {
        compare_view(&self.shown(vm), other, vm)
    }

    /// Calls a method of the view.
    pub fn py_call_attr(&self, vm: &mut VM, attr: &EitherStr, args: ArgValues) -> (r: RunResult<
        CallResult,
    >)
        requires
            old(vm).wf(),
            self.dict_id.0 < old(vm).entries().len(),
            attr.ok(old(vm).interns),
            args.ok(old(vm).entries().len(), old(vm).interns),
        ensures
            final(vm).wf(),
            r matches Ok(CallResult::Value(v)) ==> final(vm).ok(v),
            exists|mid: VM| #[trigger]
                args.consumed(mid, *final(vm)) && view_call_done(
                    *old(vm),
                    mid,
                    r,
                    self.shows(*old(vm)),
                    "dict_items.isdisjoint"@,
                    Type::DictItems,
                    *attr,
                    args,
                ),
    {
        let ghost given = args;
        let es = self.shown(vm);
        let r = call_view(&es, "dict_items.isdisjoint", Type::DictItems, vm, attr, &args);
        let ghost mid = *vm;
        args.release(vm);
        assert(given.consumed(mid, *vm));
        r
    }
}

/// Nothing is disjoint from what it shares a member with: where a member of the
/// smaller set is found in the other, the sets are not disjoint.
pub proof fn lemma_shared_member(vm: VM, xs: Seq<Element>, ys: Seq<Element>, k: int, fuel: nat)
    requires
        xs.len() <= ys.len(),
        0 <= k < xs.len(),
        is_member(vm, ys, xs[k], fuel) == Ok::<bool, Raised>(true),
        forall|j: int| 0 <= j < k ==> is_member(vm, ys, #[trigger] xs[j], fuel) is Ok,
    ensures
        disjoint(vm, xs, ys, fuel) == Ok::<bool, Raised>(false),
{
    lemma_shared_from(vm, xs, ys, 0, k, fuel);
}

proof fn lemma_shared_from(vm: VM, xs: Seq<Element>, ys: Seq<Element>, i: int, k: int, fuel: nat)
    requires
        0 <= i <= k < xs.len(),
        is_member(vm, ys, xs[k], fuel) == Ok::<bool, Raised>(true),
        forall|j: int| 0 <= j < k ==> is_member(vm, ys, #[trigger] xs[j], fuel) is Ok,
    ensures
        none_within(vm, xs, ys, i, fuel) == Ok::<bool, Raised>(false),
    decreases k - i,
{
    if i < k {
        assert(is_member(vm, ys, xs[i], fuel) is Ok);
        lemma_shared_from(vm, xs, ys, i + 1, k, fuel);
    }
}

} // verus!
