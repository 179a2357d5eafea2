//! Membership: `item in container`.

use vstd::prelude::*;

use crate::args::Raised;
use crate::exception::{ExcType, RunError, RunResult};
use crate::float::{exact_long, whole_number};
use crate::heap::{HeapData, HeapId};
use crate::text::chars_of;
use crate::types::containers::Range;
use crate::types::py_type::Type;
use crate::types::str_methods::{dict_entries, firsts, seconds};
use crate::types::str_search::{find_from, lemma_first_match, matches_at};
use crate::value::Value;
use crate::value_add::lemma_entry_ok;
use crate::value_eq::{
    eq_values, equal, find_equal, key_among, lemma_firsts_ok, lemma_seconds_ok, place_among, told,
    tuple_items, tuple_slice, values_of, viewed,
};
use crate::value_hash::{hash_of, hash_value, unhashable};
use crate::value_int::fits_i64;
use crate::value_item::quoted_error;
use crate::vm::VM;

verus! {

/// Whether a text stands in another.
pub open spec fn text_within(hay: Seq<char>, needle: Seq<char>) -> bool {
    exists|i: int| matches_at(hay, needle, i)
}

/// The error for a search in a string for something else.
pub open spec fn not_a_string() -> Raised {
    (ExcType::TypeError, "'in <str>' requires string as left operand"@)
}

/// The error for a search in what has no items.
pub open spec fn not_iterable(t: Type) -> Raised {
    (ExcType::TypeError, "argument of type '"@ + t.text() + "' is not iterable"@)
}

/// Whether some item equals a value.
pub open spec fn any_equal(vm: VM, xs: Seq<Value>, v: Value, fuel: nat) -> Result<bool, Raised> {
    match find_equal(vm, xs, v, 0, fuel) {
        Ok(i) => Ok(i < xs.len()),
        Err(e) => Err(e),
    }
}

/// The place of a key among keys, or their number; only what has a hash is looked up.
pub open spec fn key_place(vm: VM, keys: Seq<Value>, v: Value, fuel: nat) -> Result<int, Raised> {
    match hash_of(vm, v, fuel) {
        Err(e) => Err(e),
        Ok(None) => Err(unhashable(vm, v)),
        Ok(Some(_)) => find_equal(vm, keys, v, 0, fuel),
    }
}

/// Whether a key is among keys.
pub open spec fn key_within(vm: VM, keys: Seq<Value>, v: Value, fuel: nat) -> Result<bool, Raised> {
    match key_place(vm, keys, v, fuel) {
        Ok(i) => Ok(i < keys.len()),
        Err(e) => Err(e),
    }
}

/// The pair that a value is, where it is a tuple of two.
pub open spec fn pair_of(vm: VM, v: Value) -> Option<(Value, Value)> {
    match vm.data_of(v) {
        Some(d) => match tuple_items(d) {
            Some(items) => if items.len() == 2 {
                Some((items[0], items[1]))
            } else {
                None
            },
            None => None,
        },
        None => None,
    }
}

/// Whether a pair is an entry of a dictionary.
pub open spec fn entry_within(vm: VM, entries: Seq<(Value, Value)>, v: Value, fuel: nat) -> Result<
    bool,
    Raised,
> {
    match pair_of(vm, v) {
        None => Ok(false),
        Some((key, value)) => match key_place(vm, firsts(entries), key, fuel) {
            Err(e) => Err(e),
            Ok(i) => if i < entries.len() {
                equal(vm, value, entries[i].1, fuel)
            } else {
                Ok(false)
            },
        },
    }
}

/// The integer that a value stands for in a range.
pub open spec fn range_probe(v: Value) -> Option<int> {
    match v {
        Value::Int(n) => Some(n as int),
        Value::Bool(b) => Some(
            if b {
                1
            } else {
                0
            },
        ),
        Value::Float(f) => match whole_number(f.value()) {
            Some(n) => if fits_i64(n) {
                Some(n)
            } else {
                None
            },
            None => None,
        },
        _ => None,
    }
}

/// Whether a range counts to a value.
pub open spec fn range_holds(range: Range, v: Value) -> bool {
    match range_probe(v) {
        Some(n) => range.has(n),
        None => false,
    }
}

/// Whether an item is in a text.
pub open spec fn text_holds(vm: VM, s: Seq<char>, item: Value) -> Result<bool, Raised> {
    match vm.text_of(item) {
        Some(t) => Ok(text_within(s, t)),
        None => Err(not_a_string()),
    }
}

impl VM {
    /// Whether an item is in a container.
    pub open spec fn contains(self, v: Value, item: Value) -> Result<bool, Raised> {
        let fuel = self.heap.max_depth as nat;
        match v {
            Value::InternString(id) => text_holds(self, self.interns.str_at(id), item),
            Value::Ref(id) => match self.heap.data(id) {
                HeapData::Str(s) => text_holds(self, s@, item),
                HeapData::List(list) => any_equal(self, list.items@, item, fuel),
                HeapData::Tuple(tuple) => any_equal(self, tuple.items@, item, fuel),
                HeapData::Dict(dict) => key_within(self, firsts(dict.entries@), item, fuel),
                HeapData::DictKeysView(view) => key_within(
                    self,
                    firsts(dict_entries(self, view.dict_id)),
                    item,
                    fuel,
                ),
                HeapData::DictItemsView(view) => entry_within(
                    self,
                    dict_entries(self, view.dict_id),
                    item,
                    fuel,
                ),
                HeapData::DictValuesView(view) => any_equal(
                    self,
                    seconds(dict_entries(self, view.dict_id)),
                    item,
                    fuel,
                ),
                HeapData::SetData(set) => key_within(self, set.items@, item, fuel),
                HeapData::FrozenSet(set) => key_within(self, set.items@, item, fuel),
                HeapData::Range(range) => Ok(range_holds(range, item)),
                d => Err(not_iterable(d.type_of())),
            },
            _ => Err(not_iterable(self.type_of(v))),
        }
    }
}

/// Whether an item is in a text.
fn str_contains(container: &str, item: &Value, vm: &VM) -> (r: RunResult<bool>)
    requires
        vm.ok(*item),
    ensures
        told(r, text_holds(*vm, container@, *item)),
{
    match item.text(vm) {
        Some(text) => {
            let hay = chars_of(container);
            let needle = chars_of(text);
            let found = find_from(&hay, &needle, 0);
            proof {
                lemma_first_match(hay@, needle@, 0);
            }
            Ok(found.is_some())
        },
        None => Err(
            RunError::new(ExcType::TypeError, "'in <str>' requires string as left operand"),
        ),
    }
}

fn among(xs: &[Value], item: &Value, vm: &VM) -> (r: RunResult<bool>)
    requires
        vm.wf(),
        vm.all_ok(xs@),
        vm.ok(*item),
    ensures
        told(r, any_equal(*vm, xs@, *item, vm.heap.max_depth as nat)),
{
    match place_among(xs, item, vm.heap.max_depth, vm) {
        Err(e) => Err(e),
        Ok(i) => Ok(i < xs.len()),
    }
}

/// Checks that a value has a hash.
pub(crate) fn check_hashable(v: &Value, vm: &VM) -> (r: RunResult<()>)
    requires
        vm.wf(),
        vm.ok(*v),
    ensures
        told(
            r,
            match vm.value_hash(*v) {
                Err(e) => Err(e),
                Ok(None) => Err(unhashable(*vm, *v)),
                Ok(Some(_)) => Ok(()),
            },
        ),
{
    match hash_value(v, vm.heap.max_depth, vm) {
        Err(e) => Err(e),
        Ok(None) => Err(quoted_error("unhashable type: '", v.py_type(vm), "'")),
        Ok(Some(_)) => Ok(()),
    }
}

fn among_keys(keys: &[Value], item: &Value, vm: &VM) -> (r: RunResult<bool>)
    requires
        vm.wf(),
        vm.all_ok(keys@),
        vm.ok(*item),
    ensures
        told(r, key_within(*vm, keys@, *item, vm.heap.max_depth as nat)),
{
    match check_hashable(item, vm) {
        Err(e) => {
            return Err(e);
        },
        Ok(_) => {},
    }
    among(keys, item, vm)
}

/// The place of an entry with the given key, or the number of entries.
pub(crate) fn entry_place(entries: &[(Value, Value)], key: &Value, vm: &VM) -> (r: RunResult<usize>)
    requires
        vm.wf(),
        vm.all_ok(firsts(entries@)),
        vm.ok(*key),
    ensures
        crate::value_eq::place_told(
            r,
            key_place(*vm, firsts(entries@), *key, vm.heap.max_depth as nat),
        ),
{
    match check_hashable(key, vm) {
        Err(e) => {
            return Err(e);
        },
        Ok(_) => {},
    }
    key_among(entries, key, vm.heap.max_depth, vm)
}

fn has_key(entries: &[(Value, Value)], key: &Value, vm: &VM) -> (r: RunResult<bool>)
    requires
        vm.wf(),
        vm.all_ok(firsts(entries@)),
        vm.ok(*key),
    ensures
        told(r, key_within(*vm, firsts(entries@), *key, vm.heap.max_depth as nat)),
{
    match entry_place(entries, key, vm) {
        Err(e) => Err(e),
        Ok(i) => Ok(i < entries.len()),
    }
}

/// The pair that a value is, where it is a tuple of two.
fn items_view_candidate<'a>(item: &Value, vm: &'a VM) -> (r: Option<(&'a Value, &'a Value)>)
    requires
        vm.wf(),
        vm.ok(*item),
    ensures
        match (r, pair_of(*vm, *item)) {
            (Some((k, v)), Some((key, value))) => *k == key && *v == value && vm.ok(key) && vm.ok(
                value,
            ),
            (None, None) => true,
            _ => false,
        },
{
    match item {
        Value::Ref(id) => {
            proof {
                lemma_entry_ok(*vm, *id);
            }
            match tuple_slice(vm.heap.get(*id)) {
                Some(items) => if items.len() == 2 {
                    assert(vm.ok(items@[0]) && vm.ok(items@[1]));
                    Some((&items[0], &items[1]))
                } else {
                    None
                },
                None => None,
            }
        },
        _ => None,
    }
}

fn has_entry(entries: &[(Value, Value)], item: &Value, vm: &VM) -> (r: RunResult<bool>)
    requires
        vm.wf(),
        crate::value_eq::pairs_ok(*vm, entries@),
        vm.ok(*item),
    ensures
        told(r, entry_within(*vm, entries@, *item, vm.heap.max_depth as nat)),
{
    proof {
        lemma_firsts_ok(*vm, entries@);
    }
    match items_view_candidate(item, vm) {
        None => Ok(false),
        Some((key, value)) => match entry_place(entries, key, vm) {
            Err(e) => Err(e),
            Ok(i) => if i < entries.len() {
                assert(vm.ok(entries@[i as int].1));
                eq_values(value, &entries[i].1, vm.heap.max_depth, vm)
            } else {
                Ok(false)
            },
        },
    }
}

fn in_range(range: &Range, item: &Value) -> (r: bool)
    requires
        range.step != 0,
    ensures
        r == range_holds(*range, *item),
{
    match item {
        Value::Int(n) => range.contains(*n),
        Value::Bool(b) => range.contains(
            if *b {
                1
            } else {
                0
            },
        ),
        Value::Float(f) => match exact_long(*f) {
            None => false,
            Some(whole) => match whole.to_i64() {
                Some(n) => range.contains(n),
                None => false,
            },
        },
        _ => false,
    }
}

impl Value {
    /// `item in self`.
    pub fn py_contains(&self, item: &Value, vm: &VM) -> (r: RunResult<bool>)
        requires
            vm.wf(),
            vm.ok(*self),
            vm.ok(*item),
        ensures
            told(r, vm.contains(*self, *item)),
    {
        match self {
            Value::InternString(id) => str_contains(vm.interns.get_str(*id), item, vm),
            Value::Ref(id) => {
                proof {
                    lemma_entry_ok(*vm, *id);
                }
                entry_contains(*id, item, vm)
            },
            _ => Err(quoted_error("argument of type '", self.py_type(vm), "' is not iterable")),
        }
    }
}

fn entry_contains(id: HeapId, item: &Value, vm: &VM) -> (r: RunResult<bool>)
    requires
        vm.wf(),
        id.0 < vm.entries().len(),
        vm.ok(*item),
    ensures
        told(r, vm.contains(Value::Ref(id), *item)),
{
    proof {
        lemma_entry_ok(*vm, id);
    }
    match vm.heap.get(id) {
        HeapData::Str(s) => str_contains(s.as_str(), item, vm),
        HeapData::List(list) => among(list.as_slice(), item, vm),
        HeapData::Tuple(tuple) => among(tuple.as_slice(), item, vm),
        HeapData::Dict(dict) => {
            proof {
                lemma_firsts_ok(*vm, dict.entries@);
            }
            has_key(dict.entries.as_slice(), item, vm)
        },
        HeapData::DictKeysView(view) => {
            let entries = viewed(vm, view.dict_id);
            proof {
                lemma_firsts_ok(*vm, entries@);
            }
            has_key(entries, item, vm)
        },
        HeapData::DictItemsView(view) => has_entry(viewed(vm, view.dict_id), item, vm),
        HeapData::DictValuesView(view) => {
            let entries = viewed(vm, view.dict_id);
            proof {
                lemma_seconds_ok(*vm, entries@);
            }
            among(&values_of(entries), item, vm)
        },
        HeapData::SetData(set) => among_keys(set.items.as_slice(), item, vm),
        HeapData::FrozenSet(set) => among_keys(set.items.as_slice(), item, vm),
        HeapData::Range(range) => Ok(in_range(range, item)),
        d => Err(quoted_error("argument of type '", d.py_type(), "' is not iterable")),
    }
}

/// The items of a list are in it: what stands at some place is found, if it is an
/// object in the heap or otherwise equals itself, and nothing before it fails to
/// compare.
pub proof fn lemma_items_within(vm: VM, xs: Seq<Value>, i: int, fuel: nat)
    requires
        0 <= i < xs.len(),
        xs[i] is Ref || equal(vm, xs[i], xs[i], fuel) == Ok::<bool, Raised>(true),
        forall|j: int| 0 <= j < i ==> equal(vm, xs[i], #[trigger] xs[j], fuel) is Ok,
    ensures
        any_equal(vm, xs, xs[i], fuel) == Ok::<bool, Raised>(true),
{
    lemma_found_by(vm, xs, i, 0, fuel);
}

proof fn lemma_found_by(vm: VM, xs: Seq<Value>, i: int, k: int, fuel: nat)
    requires
        0 <= k <= i < xs.len(),
        xs[i] is Ref || equal(vm, xs[i], xs[i], fuel) == Ok::<bool, Raised>(true),
        forall|j: int| 0 <= j < i ==> equal(vm, xs[i], #[trigger] xs[j], fuel) is Ok,
    ensures
        find_equal(vm, xs, xs[i], k, fuel) matches Ok(p) && p <= i,
    decreases i - k,
{
    if k < i {
        assert(equal(vm, xs[i], xs[k], fuel) is Ok);
        lemma_found_by(vm, xs, i, k + 1, fuel);
    } else {
        assert(equal(vm, xs[i], xs[i], fuel) == Ok::<bool, Raised>(true));
    }
}

} // verus!
