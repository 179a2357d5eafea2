//! Equality of values.

use vstd::prelude::*;

use crate::args::{raises, Raised};
use crate::exception::{ExcType, RunError, RunResult};
use crate::float::{
    compare_floats, compare_int_float, compare_long_float, float_order, mixed_order,
};
use crate::heap::{HeapData, HeapId};
use crate::order::Order;
use crate::text::same_text;
use crate::types::bytes::same_bytes;
use crate::types::datetime::{datetimes_equal, same_moment};
use crate::types::long_int::LongInt;
use crate::types::str_methods::{dict_at, dict_entries, firsts, seconds};
use crate::value::{FloatBits, Value};
use crate::value_add::lemma_entry_ok;
use crate::value_hash::{hash_pair, pair_hash};
use crate::value_mul::{bool_int, int_of_bool};
use crate::vm::VM;

verus! {

/// The error for a comparison that goes too deep.
pub open spec fn too_deep() -> Raised {
    (ExcType::RecursionError, "maximum recursion depth exceeded"@)
}

/// An integer compared to a value, if that is a number.
pub open spec fn eq_integer(vm: VM, a: int, other: Value) -> Option<bool> {
    match other {
        Value::Int(b) => Some(a == b),
        Value::Bool(b) => Some(a == bool_int(b)),
        Value::Float(f) => Some(mixed_order(a, f.value()) == Some(Order::Equal)),
        Value::Ref(id) => match vm.heap.data(id) {
            HeapData::LongInt(li) => Some(a == li@),
            _ => None,
        },
        _ => None,
    }
}

/// A number compared to a value, if that is a number. Neither is rounded.
pub open spec fn eq_number(vm: VM, f: FloatBits, other: Value) -> Option<bool> {
    match other {
        Value::Float(o) => Some(float_order(f.value(), o.value()) == Some(Order::Equal)),
        Value::Int(o) => Some(mixed_order(o as int, f.value()) == Some(Order::Equal)),
        Value::Bool(o) => Some(mixed_order(bool_int(o) as int, f.value()) == Some(Order::Equal)),
        Value::Ref(id) => match vm.heap.data(id) {
            HeapData::LongInt(li) => Some(mixed_order(li@, f.value()) == Some(Order::Equal)),
            _ => None,
        },
        _ => None,
    }
}

/// A text compared to a value, if that is a string.
pub open spec fn eq_text(vm: VM, s: Seq<char>, other: Value) -> Option<bool> {
    match vm.text_of(other) {
        Some(t) => Some(s == t),
        None => None,
    }
}

/// Bytes compared to a value, if that is bytes.
pub open spec fn eq_raw(vm: VM, b: Seq<u8>, other: Value) -> Option<bool> {
    match vm.bytes_of(other) {
        Some(t) => Some(b == t),
        None => None,
    }
}

/// The name of a function of the host.
pub open spec fn ext_name(vm: VM, v: Value) -> Option<Seq<char>> {
    match v {
        Value::ExtFunction(id) => Some(vm.interns.str_at(id)),
        Value::Ref(id) => match vm.heap.data(id) {
            HeapData::ExtFunction(name) => Some(name@),
            _ => None,
        },
        _ => None,
    }
}

/// A function of the host compared to a value, if that is one: by their names.
pub open spec fn eq_ext(vm: VM, name: Seq<char>, other: Value) -> Option<bool> {
    match ext_name(vm, other) {
        Some(t) => Some(name == t),
        None => None,
    }
}

/// Two heap entries that hold no values compared, if they are of one kind.
pub open spec fn eq_plain(a: HeapData, b: HeapData) -> Option<bool> {
    match (a, b) {
        (HeapData::Range(x), HeapData::Range(y)) => Some(x.same(y)),
        (HeapData::Slice(x), HeapData::Slice(y)) => Some(
            x.start == y.start && x.stop == y.stop && x.step == y.step,
        ),
        (HeapData::Path(x), HeapData::Path(y)) => Some(x@ == y@),
        (HeapData::Date(x), HeapData::Date(y)) => Some(x == y),
        (HeapData::DateTime(x), HeapData::DateTime(y)) => Some(same_moment(x, y)),
        (HeapData::TimeDelta(x), HeapData::TimeDelta(y)) => Some(x == y),
        (HeapData::TimeZone(x), HeapData::TimeZone(y)) => Some(
            x.offset_seconds == y.offset_seconds,
        ),
        (HeapData::RePattern(x), HeapData::RePattern(y)) => Some(
            x.text() == y.text() && x.bits() == y.bits(),
        ),
        _ => None,
    }
}

/// The members of a set or frozen set.
pub open spec fn set_items(d: HeapData) -> Option<Seq<Value>> {
    match d {
        HeapData::SetData(set) => Some(set.items@),
        HeapData::FrozenSet(set) => Some(set.items@),
        _ => None,
    }
}

/// The items of a tuple or named tuple.
pub open spec fn tuple_items(d: HeapData) -> Option<Seq<Value>> {
    match d {
        HeapData::Tuple(t) => Some(t.items@),
        HeapData::NamedTuple(t) => Some(t.items@),
        _ => None,
    }
}

/// An answer that is there.
pub open spec fn given(r: Result<bool, Raised>) -> Result<Option<bool>, Raised> {
    match r {
        Ok(b) => Ok(Some(b)),
        Err(e) => Err(e),
    }
}

/// A heap entry compared to a value from its own side; nothing when it does not
/// know the value's type. `fuel` is how many levels of containers are left.
pub open spec fn eq_data(vm: VM, d: HeapData, other: Value, fuel: nat) -> Result<
    Option<bool>,
    Raised,
>
    decreases fuel, 0nat, 0nat,
{
    match (d, vm.data_of(other)) {
        (HeapData::Str(s), _) => Ok(eq_text(vm, s@, other)),
        (HeapData::Bytes(b), _) => Ok(eq_raw(vm, b@, other)),
        (HeapData::LongInt(li), _) => Ok(eq_integer(vm, li@, other)),
        (HeapData::ExtFunction(name), _) => Ok(eq_ext(vm, name@, other)),
        (HeapData::List(x), Some(HeapData::List(y))) => given(
            if x.items@.len() != y.items@.len() {
                Ok(false)
            } else if fuel == 0 {
                Err(too_deep())
            } else {
                eq_items(vm, x.items@, y.items@, 0, (fuel - 1) as nat)
            },
        ),
        (HeapData::Tuple(x), Some(HeapData::Tuple(y))) => given(
            if x.items@.len() != y.items@.len() {
                Ok(false)
            } else if fuel == 0 {
                Err(too_deep())
            } else {
                eq_items(vm, x.items@, y.items@, 0, (fuel - 1) as nat)
            },
        ),
        (HeapData::NamedTuple(x), Some(y)) => match tuple_items(y) {
            Some(items) => given(
                if x.items@.len() != items.len() {
                    Ok(false)
                } else if fuel == 0 {
                    Err(too_deep())
                } else {
                    eq_items(vm, x.items@, items, 0, (fuel - 1) as nat)
                },
            ),
            None => Ok(None),
        },
        (HeapData::Dict(x), Some(HeapData::Dict(y))) => given(
            if x.entries@.len() != y.entries@.len() {
                Ok(false)
            } else if fuel == 0 {
                Err(too_deep())
            } else {
                eq_entries(vm, x.entries@, y.entries@, 0, (fuel - 1) as nat)
            },
        ),
        (HeapData::Dataclass(x), Some(HeapData::Dataclass(y))) => given(
            if x.type_id != y.type_id || x.attrs.entries@.len() != y.attrs.entries@.len() {
                Ok(false)
            } else if fuel == 0 {
                Err(too_deep())
            } else {
                eq_entries(vm, x.attrs.entries@, y.attrs.entries@, 0, (fuel - 1) as nat)
            },
        ),
        (HeapData::DictItemsView(x), Some(HeapData::DictItemsView(y))) => {
            let left = dict_entries(vm, x.dict_id);
            let right = dict_entries(vm, y.dict_id);
            given(
                if x.dict_id == y.dict_id {
                    Ok(true)
                } else if left.len() != right.len() {
                    Ok(false)
                } else if fuel == 0 {
                    Err(too_deep())
                } else {
                    eq_entries(vm, left, right, 0, (fuel - 1) as nat)
                },
            )
        },
        (HeapData::DictKeysView(x), Some(HeapData::DictKeysView(y))) => {
            let left = firsts(dict_entries(vm, x.dict_id));
            let right = firsts(dict_entries(vm, y.dict_id));
            given(
                if x.dict_id == y.dict_id {
                    Ok(true)
                } else if left.len() != right.len() {
                    Ok(false)
                } else if fuel == 0 {
                    Err(too_deep())
                } else {
                    all_among(vm, left, right, 0, (fuel - 1) as nat)
                },
            )
        },
        (HeapData::DictKeysView(x), Some(y)) => match set_items(y) {
            Some(members) => {
                let left = firsts(dict_entries(vm, x.dict_id));
                given(
                    if left.len() != members.len() {
                        Ok(false)
                    } else if fuel == 0 {
                        Err(too_deep())
                    } else {
                        all_among(vm, left, members, 0, (fuel - 1) as nat)
                    },
                )
            },
            None => Ok(None),
        },
        (HeapData::DictItemsView(x), Some(y)) => match set_items(y) {
            Some(members) => {
                let left = dict_entries(vm, x.dict_id);
                given(
                    if left.len() != members.len() {
                        Ok(false)
                    } else if fuel == 0 {
                        Err(too_deep())
                    } else {
                        pairs_among(vm, left, members, 0, (fuel - 1) as nat)
                    },
                )
            },
            None => Ok(None),
        },
        (_, Some(y)) => match (set_items(d), set_items(y)) {
            (Some(left), Some(right)) => given(
                if left.len() != right.len() {
                    Ok(false)
                } else if fuel == 0 {
                    Err(too_deep())
                } else {
                    all_among(vm, left, right, 0, (fuel - 1) as nat)
                },
            ),
            _ => Ok(eq_plain(d, y)),
        },
        _ => Ok(None),
    }
}

/// A value compared to another from its own side; nothing when it does not know
/// the other's type.
pub open spec fn eq_once(vm: VM, a: Value, b: Value, fuel: nat) -> Result<Option<bool>, Raised>
    decreases fuel, 1nat, 0nat,
{
    match a {
        Value::Undefined => Ok(Some(false)),
        Value::PyNone => Ok(
            if b == Value::PyNone {
                Some(true)
            } else {
                None
            },
        ),
        Value::Ellipsis => Ok(
            if b == Value::Ellipsis {
                Some(true)
            } else {
                None
            },
        ),
        Value::Bool(x) => Ok(eq_integer(vm, bool_int(x) as int, b)),
        Value::Int(x) => Ok(eq_integer(vm, x as int, b)),
        Value::Float(f) => Ok(eq_number(vm, f, b)),
        Value::InternLongInt(id) => Ok(eq_integer(vm, vm.interns.long_int_at(id), b)),
        Value::InternString(id) => Ok(
            match b {
                Value::InternString(o) => Some(id == o),
                _ => eq_text(vm, vm.interns.str_at(id), b),
            },
        ),
        Value::InternBytes(id) => Ok(eq_raw(vm, vm.interns.bytes_at(id), b)),
        Value::Builtin(x) => Ok(
            match b {
                Value::Builtin(y) => Some(x == y),
                _ => None,
            },
        ),
        Value::ModuleFunction(x) => Ok(
            match b {
                Value::ModuleFunction(y) => Some(x == y),
                _ => None,
            },
        ),
        Value::DefFunction(x) => Ok(
            match b {
                Value::DefFunction(y) => Some(x == y),
                _ => None,
            },
        ),
        Value::ExtFunction(id) => Ok(eq_ext(vm, vm.interns.str_at(id), b)),
        Value::Marker(x) => Ok(
            match b {
                Value::Marker(y) => Some(x == y),
                _ => None,
            },
        ),
        Value::Property(x) => Ok(
            match b {
                Value::Property(y) => Some(x == y),
                _ => None,
            },
        ),
        Value::Ref(id) => if b == Value::Ref(id) {
            Ok(Some(true))
        } else {
            eq_data(vm, vm.heap.data(id), b, fuel)
        },
    }
}

/// `a == b`: from the left side, or else from the right side, or else not equal.
pub open spec fn equal(vm: VM, a: Value, b: Value, fuel: nat) -> Result<bool, Raised>
    decreases fuel, 2nat, 0nat,
{
    match eq_once(vm, a, b, fuel) {
        Err(e) => Err(e),
        Ok(Some(r)) => Ok(r),
        Ok(None) => match eq_once(vm, b, a, fuel) {
            Err(e) => Err(e),
            Ok(Some(r)) => Ok(r),
            Ok(None) => Ok(false),
        },
    }
}

/// Whether items from `i` on are equal one by one.
pub open spec fn eq_items(vm: VM, xs: Seq<Value>, ys: Seq<Value>, i: int, fuel: nat) -> Result<
    bool,
    Raised,
>
    decreases fuel, 3nat, xs.len() - i,
{
    if i >= xs.len() {
        Ok(true)
    } else {
        match equal(vm, xs[i], ys[i], fuel) {
            Err(e) => Err(e),
            Ok(false) => Ok(false),
            Ok(true) => eq_items(vm, xs, ys, i + 1, fuel),
        }
    }
}

/// The first place from `i` on of an item that equals a value, or the length.
pub open spec fn find_equal(vm: VM, xs: Seq<Value>, v: Value, i: int, fuel: nat) -> Result<
    int,
    Raised,
>
    decreases fuel, 3nat, xs.len() - i,
{
    if i >= xs.len() {
        Ok(i)
    } else {
        match equal(vm, v, xs[i], fuel) {
            Err(e) => Err(e),
            Ok(true) => Ok(i),
            Ok(false) => find_equal(vm, xs, v, i + 1, fuel),
        }
    }
}

/// Whether every item from `i` on equals one of the members.
pub open spec fn all_among(vm: VM, xs: Seq<Value>, members: Seq<Value>, i: int, fuel: nat) -> Result<
    bool,
    Raised,
>
    decreases fuel, 4nat, xs.len() - i,
{
    if i >= xs.len() {
        Ok(true)
    } else {
        match find_equal(vm, members, xs[i], 0, fuel) {
            Err(e) => Err(e),
            Ok(j) => if j >= members.len() {
                Ok(false)
            } else {
                all_among(vm, xs, members, i + 1, fuel)
            },
        }
    }
}

/// Whether every entry from `i` on has an equal key with an equal value in the
/// other dictionary.
pub open spec fn eq_entries(
    vm: VM,
    xs: Seq<(Value, Value)>,
    ys: Seq<(Value, Value)>,
    i: int,
    fuel: nat,
) -> Result<bool, Raised>
    decreases fuel, 4nat, xs.len() - i,
{
    if i >= xs.len() {
        Ok(true)
    } else {
        match find_equal(vm, firsts(ys), xs[i].0, 0, fuel) {
            Err(e) => Err(e),
            Ok(j) => if j >= ys.len() {
                Ok(false)
            } else {
                match equal(vm, xs[i].1, ys[j].1, fuel) {
                    Err(e) => Err(e),
                    Ok(false) => Ok(false),
                    Ok(true) => eq_entries(vm, xs, ys, i + 1, fuel),
                }
            },
        }
    }
}

/// The first place from `j` on of a member that is the pair as a tuple, or the
/// length.
pub open spec fn find_pair(vm: VM, members: Seq<Value>, k: Value, v: Value, j: int, fuel: nat) -> Result<
    int,
    Raised,
>
    decreases fuel, 3nat, members.len() - j,
{
    if j >= members.len() {
        Ok(j)
    } else {
        let items = match vm.data_of(members[j]) {
            Some(d) => tuple_items(d),
            None => None,
        };
        match items {
            Some(pair) => if pair.len() != 2 {
                find_pair(vm, members, k, v, j + 1, fuel)
            } else if fuel == 0 {
                Err(too_deep())
            } else {
                match eq_items(vm, seq![k, v], pair, 0, (fuel - 1) as nat) {
                    Err(e) => Err(e),
                    Ok(true) => Ok(j),
                    Ok(false) => find_pair(vm, members, k, v, j + 1, fuel),
                }
            },
            None => find_pair(vm, members, k, v, j + 1, fuel),
        }
    }
}

/// Whether every entry from `i` on is one of the members as a tuple.
pub open spec fn pairs_among(
    vm: VM,
    xs: Seq<(Value, Value)>,
    members: Seq<Value>,
    i: int,
    fuel: nat,
) -> Result<bool, Raised>
    decreases fuel, 4nat, xs.len() - i,
{
    if i >= xs.len() {
        Ok(true)
    } else {
        match pair_hash(vm, xs[i].0, xs[i].1, fuel) {
            Err(e) => Err(e),
            Ok(None) => Err(unhashable_pair()),
            Ok(Some(_)) => match find_pair(vm, members, xs[i].0, xs[i].1, 0, fuel) {
                Err(e) => Err(e),
                Ok(j) => if j >= members.len() {
                    Ok(false)
                } else {
                    pairs_among(vm, xs, members, i + 1, fuel)
                },
            },
        }
    }
}

/// The error for a pair that cannot be a member of a set.
pub open spec fn unhashable_pair() -> Raised {
    (ExcType::TypeError, "unhashable type: 'tuple'"@)
}

/// The error for a pair that cannot be a member of a set.
pub(crate) fn pair_error() -> (r: RunError)
    ensures
        r.says(unhashable_pair().0, unhashable_pair().1),
{
    RunError::new(ExcType::TypeError, "unhashable type: 'tuple'")
}

impl VM {
    /// `a == b` within the limit on depth.
    pub open spec fn values_equal(self, a: Value, b: Value) -> Result<bool, Raised> {
        equal(self, a, b, self.heap.max_depth as nat)
    }
}

/// Whether a result is what is said of it.
pub open spec fn told<T>(r: RunResult<T>, e: Result<T, Raised>) -> bool {
    match e {
        Ok(t) => r == Ok::<T, RunError>(t),
        Err(x) => raises(r, x),
    }
}

/// Whether a place is what is said of it.
pub open spec fn place_told(r: RunResult<usize>, e: Result<int, Raised>) -> bool {
    match e {
        Ok(n) => r matches Ok(i) && i == n,
        Err(x) => raises(r, x),
    }
}

/// An integer compared to a value, if that is a number.
pub fn eq_i64(a: i64, other: &Value, vm: &VM) -> (r: Option<bool>)
    requires
        vm.ok(*other),
    ensures
        r == eq_integer(*vm, a as int, *other),
{
    match other {
        Value::Int(b) => Some(a == *b),
        Value::Bool(b) => Some(a == int_of_bool(*b)),
        Value::Float(f) => Some(is_equal(compare_int_float(a, *f))),
        Value::Ref(id) => match vm.heap.get(*id) {
            HeapData::LongInt(li) => Some(li.equals(&LongInt::from_i64(a))),
            _ => None,
        },
        _ => None,
    }
}

fn is_equal(order: Option<Order>) -> (r: bool)
    ensures
        r == (order == Some(Order::Equal)),
{
    match order {
        Some(Order::Equal) => true,
        _ => false,
    }
}

/// A number compared to a value, if that is a number. Neither is rounded.
pub fn eq_f64(f: FloatBits, other: &Value, vm: &VM) -> (r: Option<bool>)
    requires
        vm.ok(*other),
    ensures
        r == eq_number(*vm, f, *other),
{
    match other {
        Value::Float(o) => Some(is_equal(compare_floats(f, *o))),
        Value::Int(o) => Some(is_equal(compare_int_float(*o, f))),
        Value::Bool(o) => Some(is_equal(compare_int_float(int_of_bool(*o), f))),
        Value::Ref(id) => match vm.heap.get(*id) {
            HeapData::LongInt(li) => Some(is_equal(compare_long_float(li, f))),
            _ => None,
        },
        _ => None,
    }
}

/// A long integer compared to a value, if that is a number.
pub fn eq_bigint(b: &LongInt, other: &Value, vm: &VM) -> (r: Option<bool>)
    requires
        vm.ok(*other),
    ensures
        r == eq_integer(*vm, b@, *other),
{
    match other {
        Value::Int(o) => Some(b.equals(&LongInt::from_i64(*o))),
        Value::Bool(o) => Some(b.equals(&LongInt::from_i64(int_of_bool(*o)))),
        Value::Float(f) => Some(is_equal(compare_long_float(b, *f))),
        Value::Ref(id) => match vm.heap.get(*id) {
            HeapData::LongInt(li) => Some(b.equals(li)),
            _ => None,
        },
        _ => None,
    }
}

/// A text compared to a value, if that is a string.
pub fn eq_str(s: &str, other: &Value, vm: &VM) -> (r: Option<bool>)
    requires
        vm.ok(*other),
    ensures
        r == eq_text(*vm, s@, *other),
{
    match other.text(vm) {
        Some(t) => Some(same_text(s, t)),
        None => None,
    }
}

/// Bytes compared to a value, if that is bytes.
pub fn eq_bytes(b: &[u8], other: &Value, vm: &VM) -> (r: Option<bool>)
    requires
        vm.ok(*other),
    ensures
        r == eq_raw(*vm, b@, *other),
{
    match other.raw_bytes(vm) {
        Some(t) => Some(same_bytes(b, t)),
        None => None,
    }
}

/// A function of the host compared to a value, if that is one: by their names.
pub fn eq_ext_function(name: &str, other: &Value, vm: &VM) -> (r: Option<bool>)
    requires
        vm.ok(*other),
    ensures
        r == eq_ext(*vm, name@, *other),
{
    match other {
        Value::ExtFunction(id) => Some(same_text(name, vm.interns.get_str(*id))),
        Value::Ref(id) => match vm.heap.get(*id) {
            HeapData::ExtFunction(o) => Some(same_text(name, o.as_str())),
            _ => None,
        },
        _ => None,
    }
}

/// Two heap entries that hold no values compared, if they are of one kind.
fn plain_equal(a: &HeapData, b: &HeapData) -> (r: Option<bool>)
    requires
        a matches HeapData::Range(x) ==> x.step != 0,
        b matches HeapData::Range(x) ==> x.step != 0,
        a matches HeapData::DateTime(x) ==> x.wf(),
        b matches HeapData::DateTime(x) ==> x.wf(),
    ensures
        r == eq_plain(*a, *b),
{
    match (a, b) {
        (HeapData::Range(x), HeapData::Range(y)) => Some(x.equals(y)),
        (HeapData::Slice(x), HeapData::Slice(y)) => Some(
            x.start == y.start && x.stop == y.stop && x.step == y.step,
        ),
        (HeapData::Path(x), HeapData::Path(y)) => Some(same_text(x.as_str(), y.as_str())),
        (HeapData::Date(x), HeapData::Date(y)) => Some(*x == *y),
        (HeapData::DateTime(x), HeapData::DateTime(y)) => Some(datetimes_equal(x, y)),
        (HeapData::TimeDelta(x), HeapData::TimeDelta(y)) => Some(*x == *y),
        (HeapData::TimeZone(x), HeapData::TimeZone(y)) => Some(x.same_offset(y)),
        (HeapData::RePattern(x), HeapData::RePattern(y)) => Some(
            same_text(x.pattern(), y.pattern()) && x.flags() == y.flags(),
        ),
        _ => None,
    }
}

/// The members of a set or frozen set.
pub(crate) fn members_of(d: &HeapData) -> (r: Option<&Vec<Value>>)
    ensures
        match (r, set_items(*d)) {
            (Some(items), Some(expected)) => items@ == expected,
            (None, None) => true,
            _ => false,
        },
{
    match d {
        HeapData::SetData(set) => Some(&set.items),
        HeapData::FrozenSet(set) => Some(&set.items),
        _ => None,
    }
}

/// The items of a tuple or named tuple.
pub(crate) fn tuple_slice(d: &HeapData) -> (r: Option<&[Value]>)
    ensures
        match (r, tuple_items(*d)) {
            (Some(items), Some(expected)) => items@ == expected,
            (None, None) => true,
            _ => false,
        },
{
    match d {
        HeapData::Tuple(t) => Some(t.as_slice()),
        HeapData::NamedTuple(t) => Some(t.items.as_slice()),
        _ => None,
    }
}

fn give(r: RunResult<bool>) -> (out: RunResult<Option<bool>>)
    ensures
        forall|e: Result<bool, Raised>| told(r, e) ==> #[trigger] told(out, given(e)),
{
    match r {
        Ok(b) => Ok(Some(b)),
        Err(e) => Err(e),
    }
}

/// The items of two sequences compared, one level down.
pub(crate) fn compare_items(xs: &[Value], ys: &[Value], depth: usize, vm: &VM) -> (r: RunResult<
    bool,
>)
    requires
        vm.wf(),
        vm.all_ok(xs@),
        vm.all_ok(ys@),
    ensures
        told(
            r,
            if xs@.len() != ys@.len() {
                Ok(false)
            } else if depth == 0 {
                Err(too_deep())
            } else {
                eq_items(*vm, xs@, ys@, 0, (depth - 1) as nat)
            },
        ),
    decreases depth, 0nat,
{
    if xs.len() != ys.len() {
        return Ok(false);
    }
    if depth == 0 {
        return Err(VM::recursion_error());
    }
    let ghost fuel = (depth - 1) as nat;
    for i in 0..xs.len()
        invariant
            vm.wf(),
            vm.all_ok(xs@),
            vm.all_ok(ys@),
            xs@.len() == ys@.len(),
            depth > 0,
            fuel == depth - 1,
            eq_items(*vm, xs@, ys@, 0, fuel) == eq_items(*vm, xs@, ys@, i as int, fuel),
    {
        assert(vm.ok(xs@[i as int]) && vm.ok(ys@[i as int]));
        match eq_values(&xs[i], &ys[i], depth - 1, vm) {
            Err(e) => {
                return Err(e);
            },
            Ok(b) => {
                if !b {
                    return Ok(false);
                }
            },
        }
    }
    Ok(true)
}

/// The first place of an item that equals a value, or the length.
pub(crate) fn place_among(xs: &[Value], v: &Value, depth: usize, vm: &VM) -> (r: RunResult<usize>)
    requires
        vm.wf(),
        vm.all_ok(xs@),
        vm.ok(*v),
    ensures
        place_told(r, find_equal(*vm, xs@, *v, 0, depth as nat)),
    decreases depth, 4nat,
{
    for i in 0..xs.len()
        invariant
            vm.wf(),
            vm.all_ok(xs@),
            vm.ok(*v),
            find_equal(*vm, xs@, *v, 0, depth as nat) == find_equal(
                *vm,
                xs@,
                *v,
                i as int,
                depth as nat,
            ),
    {
        assert(vm.ok(xs@[i as int]));
        match eq_values(v, &xs[i], depth, vm) {
            Err(e) => {
                return Err(e);
            },
            Ok(b) => {
                if b {
                    return Ok(i);
                }
            },
        }
    }
    Ok(xs.len())
}

/// The first place of an entry whose key equals a value, or the length.
pub(crate) fn key_among(xs: &[(Value, Value)], v: &Value, depth: usize, vm: &VM) -> (r: RunResult<
    usize,
>)
    requires
        vm.wf(),
        vm.all_ok(firsts(xs@)),
        vm.ok(*v),
    ensures
        place_told(r, find_equal(*vm, firsts(xs@), *v, 0, depth as nat)),
    decreases depth, 4nat,
{
    let ghost keys = firsts(xs@);
    for i in 0..xs.len()
        invariant
            vm.wf(),
            keys == firsts(xs@),
            vm.all_ok(keys),
            vm.ok(*v),
            find_equal(*vm, keys, *v, 0, depth as nat) == find_equal(
                *vm,
                keys,
                *v,
                i as int,
                depth as nat,
            ),
    {
        assert(vm.ok(keys[i as int]));
        match eq_values(v, &xs[i].0, depth, vm) {
            Err(e) => {
                return Err(e);
            },
            Ok(b) => {
                if b {
                    return Ok(i);
                }
            },
        }
    }
    Ok(xs.len())
}

/// Whether all items are among the members, one level down.
fn compare_members(xs: &[Value], members: &[Value], depth: usize, vm: &VM) -> (r: RunResult<bool>)
    requires
        vm.wf(),
        vm.all_ok(xs@),
        vm.all_ok(members@),
    ensures
        told(
            r,
            if xs@.len() != members@.len() {
                Ok(false)
            } else if depth == 0 {
                Err(too_deep())
            } else {
                all_among(*vm, xs@, members@, 0, (depth - 1) as nat)
            },
        ),
    decreases depth, 0nat,
{
    if xs.len() != members.len() {
        return Ok(false);
    }
    if depth == 0 {
        return Err(VM::recursion_error());
    }
    let ghost fuel = (depth - 1) as nat;
    for i in 0..xs.len()
        invariant
            vm.wf(),
            vm.all_ok(xs@),
            vm.all_ok(members@),
            xs@.len() == members@.len(),
            depth > 0,
            fuel == depth - 1,
            all_among(*vm, xs@, members@, 0, fuel) == all_among(
                *vm,
                xs@,
                members@,
                i as int,
                fuel,
            ),
    {
        assert(vm.ok(xs@[i as int]));
        match place_among(members, &xs[i], depth - 1, vm) {
            Err(e) => {
                return Err(e);
            },
            Ok(j) => {
                if j >= members.len() {
                    return Ok(false);
                }
            },
        }
    }
    Ok(true)
}

/// Whether the entries exist.
pub open spec fn pairs_ok(vm: VM, xs: Seq<(Value, Value)>) -> bool {
    forall|i: int| 0 <= i < xs.len() ==> vm.ok((#[trigger] xs[i]).0) && vm.ok(xs[i].1)
}

/// The keys of entries that exist exist.
pub proof fn lemma_firsts_ok(vm: VM, xs: Seq<(Value, Value)>)
    requires
        pairs_ok(vm, xs),
    ensures
        vm.all_ok(firsts(xs)),
{
    assert forall|i: int| 0 <= i < firsts(xs).len() implies vm.ok(#[trigger] firsts(xs)[i]) by {
        assert(firsts(xs)[i] == xs[i].0);
    }
}

/// The values of entries that exist exist.
pub proof fn lemma_seconds_ok(vm: VM, xs: Seq<(Value, Value)>)
    requires
        pairs_ok(vm, xs),
    ensures
        vm.all_ok(seconds(xs)),
{
    assert forall|i: int| 0 <= i < seconds(xs).len() implies vm.ok(#[trigger] seconds(xs)[i]) by {
        assert(seconds(xs)[i] == xs[i].1);
    }
}

/// Two dictionaries compared, one level down.
pub(crate) fn compare_entries(
    xs: &[(Value, Value)],
    ys: &[(Value, Value)],
    depth: usize,
    vm: &VM,
) -> (r: RunResult<bool>)
    requires
        vm.wf(),
        pairs_ok(*vm, xs@),
        pairs_ok(*vm, ys@),
    ensures
        told(
            r,
            if xs@.len() != ys@.len() {
                Ok(false)
            } else if depth == 0 {
                Err(too_deep())
            } else {
                eq_entries(*vm, xs@, ys@, 0, (depth - 1) as nat)
            },
        ),
    decreases depth, 0nat,
{
    if xs.len() != ys.len() {
        return Ok(false);
    }
    if depth == 0 {
        return Err(VM::recursion_error());
    }
    let ghost fuel = (depth - 1) as nat;
    proof {
        lemma_firsts_ok(*vm, ys@);
    }
    for i in 0..xs.len()
        invariant
            vm.wf(),
            pairs_ok(*vm, xs@),
            pairs_ok(*vm, ys@),
            vm.all_ok(firsts(ys@)),
            xs@.len() == ys@.len(),
            depth > 0,
            fuel == depth - 1,
            eq_entries(*vm, xs@, ys@, 0, fuel) == eq_entries(*vm, xs@, ys@, i as int, fuel),
    {
        assert(vm.ok(xs@[i as int].0) && vm.ok(xs@[i as int].1));
        let j: usize = match key_among(ys, &xs[i].0, depth - 1, vm) {
            Err(e) => {
                return Err(e);
            },
            Ok(j) => j,
        };
        if j >= ys.len() {
            return Ok(false);
        }
        assert(vm.ok(ys@[j as int].1));
        match eq_values(&xs[i].1, &ys[j].1, depth - 1, vm) {
            Err(e) => {
                return Err(e);
            },
            Ok(b) => {
                if !b {
                    return Ok(false);
                }
            },
        }
    }
    Ok(true)
}

/// The first place of a member that is the pair as a tuple, or the length.
fn pair_among(members: &[Value], k: &Value, v: &Value, depth: usize, vm: &VM) -> (r: RunResult<
    usize,
>)
    requires
        vm.wf(),
        vm.all_ok(members@),
        vm.ok(*k),
        vm.ok(*v),
    ensures
        place_told(r, find_pair(*vm, members@, *k, *v, 0, depth as nat)),
    decreases depth, 4nat,
{
    for j in 0..members.len()
        invariant
            vm.wf(),
            vm.all_ok(members@),
            vm.ok(*k),
            vm.ok(*v),
            find_pair(*vm, members@, *k, *v, 0, depth as nat) == find_pair(
                *vm,
                members@,
                *k,
                *v,
                j as int,
                depth as nat,
            ),
    {
        assert(vm.ok(members@[j as int]));
        let items = match &members[j] {
            Value::Ref(id) => {
                proof {
                    lemma_entry_ok(*vm, *id);
                }
                tuple_slice(vm.heap.get(*id))
            },
            _ => None,
        };
        match items {
            None => {},
            Some(pair) => {
                if pair.len() == 2 {
                    let probe: Vec<Value> = vec![k.alias(), v.alias()];
                    assert(probe@ =~= seq![*k, *v]);
                    match compare_items(&probe, pair, depth, vm) {
                        Err(e) => {
                            return Err(e);
                        },
                        Ok(b) => {
                            if b {
                                return Ok(j);
                            }
                        },
                    }
                }
            },
        }
    }
    Ok(members.len())
}

/// Whether all entries are among the members as tuples, one level down.
fn compare_pairs(xs: &[(Value, Value)], members: &[Value], depth: usize, vm: &VM) -> (r: RunResult<
    bool,
>)
    requires
        vm.wf(),
        pairs_ok(*vm, xs@),
        vm.all_ok(members@),
    ensures
        told(
            r,
            if xs@.len() != members@.len() {
                Ok(false)
            } else if depth == 0 {
                Err(too_deep())
            } else {
                pairs_among(*vm, xs@, members@, 0, (depth - 1) as nat)
            },
        ),
    decreases depth, 0nat,
{
    if xs.len() != members.len() {
        return Ok(false);
    }
    if depth == 0 {
        return Err(VM::recursion_error());
    }
    let ghost fuel = (depth - 1) as nat;
    for i in 0..xs.len()
        invariant
            vm.wf(),
            pairs_ok(*vm, xs@),
            vm.all_ok(members@),
            xs@.len() == members@.len(),
            depth > 0,
            fuel == depth - 1,
            pairs_among(*vm, xs@, members@, 0, fuel) == pairs_among(
                *vm,
                xs@,
                members@,
                i as int,
                fuel,
            ),
    {
        assert(vm.ok(xs@[i as int].0) && vm.ok(xs@[i as int].1));
        match hash_pair(&xs[i].0, &xs[i].1, depth - 1, vm) {
            Err(e) => {
                return Err(e);
            },
            Ok(None) => {
                return Err(pair_error());
            },
            Ok(Some(_)) => {},
        }
        match pair_among(members, &xs[i].0, &xs[i].1, depth - 1, vm) {
            Err(e) => {
                return Err(e);
            },
            Ok(j) => {
                if j >= members.len() {
                    return Ok(false);
                }
            },
        }
    }
    Ok(true)
}

/// The keys of entries.
pub(crate) fn keys_of(pairs: &[(Value, Value)]) -> (r: Vec<Value>)
    ensures
        r@ == firsts(pairs@),
{
    let mut out: Vec<Value> = Vec::new();
    for i in 0..pairs.len()
        invariant
            out@ == firsts(pairs@.take(i as int)),
    {
        out.push(pairs[i].0.alias());
        assert(out@ =~= firsts(pairs@.take(i + 1)));
    }
    assert(pairs@.take(pairs@.len() as int) =~= pairs@);
    out
}

/// The values of entries.
pub(crate) fn values_of(pairs: &[(Value, Value)]) -> (r: Vec<Value>)
    ensures
        r@ == seconds(pairs@),
{
    let mut out: Vec<Value> = Vec::new();
    for i in 0..pairs.len()
        invariant
            out@ == seconds(pairs@.take(i as int)),
    {
        out.push(pairs[i].1.alias());
        assert(out@ =~= seconds(pairs@.take(i + 1)));
    }
    assert(pairs@.take(pairs@.len() as int) =~= pairs@);
    out
}

/// The entries of the dictionary that a view shows.
pub(crate) fn viewed(vm: &VM, id: HeapId) -> (r: &[(Value, Value)])
    requires
        vm.wf(),
        id.0 < vm.entries().len(),
    ensures
        r@ == dict_entries(*vm, id),
        pairs_ok(*vm, r@),
{
    proof {
        lemma_entry_ok(*vm, id);
    }
    match dict_at(vm, id) {
        Some(pairs) => pairs.as_slice(),
        None => {
            let none: &[(Value, Value)] = &[];
            assert(none@ =~= dict_entries(*vm, id));
            none
        },
    }
}

/// A heap entry compared to a value from its own side.
fn eq_heap(id: HeapId, other: &Value, depth: usize, vm: &VM) -> (r: RunResult<Option<bool>>)
    requires
        vm.wf(),
        id.0 < vm.entries().len(),
        vm.ok(*other),
    ensures
        told(r, eq_data(*vm, vm.heap.data(id), *other, depth as nat)),
    decreases depth, 1nat,
{
    proof {
        lemma_entry_ok(*vm, id);
    }
    let data = vm.heap.get(id);
    match data {
        HeapData::Str(s) => return Ok(eq_str(s.as_str(), other, vm)),
        HeapData::Bytes(b) => return Ok(eq_bytes(b.as_slice(), other, vm)),
        HeapData::LongInt(li) => return Ok(eq_bigint(li, other, vm)),
        HeapData::ExtFunction(name) => return Ok(eq_ext_function(name.as_str(), other, vm)),
        _ => {},
    }
    let other_id = match other {
        Value::Ref(other_id) => *other_id,
        _ => {
            return Ok(None);
        },
    };
    proof {
        lemma_entry_ok(*vm, other_id);
    }
    let theirs = vm.heap.get(other_id);
    match (data, theirs) {
        (HeapData::List(x), HeapData::List(y)) => give(
            compare_items(x.as_slice(), y.as_slice(), depth, vm),
        ),
        (HeapData::Tuple(x), HeapData::Tuple(y)) => give(
            compare_items(x.as_slice(), y.as_slice(), depth, vm),
        ),
        (HeapData::NamedTuple(x), _) => match tuple_slice(theirs) {
            Some(items) => give(compare_items(x.items.as_slice(), items, depth, vm)),
            None => Ok(None),
        },
        (HeapData::Dict(x), HeapData::Dict(y)) => give(
            compare_entries(x.entries.as_slice(), y.entries.as_slice(), depth, vm),
        ),
        (HeapData::Dataclass(x), HeapData::Dataclass(y)) => if x.type_id != y.type_id {
            Ok(Some(false))
        } else {
            give(
                compare_entries(
                    x.attrs.entries.as_slice(),
                    y.attrs.entries.as_slice(),
                    depth,
                    vm,
                ),
            )
        },
        (HeapData::DictItemsView(x), HeapData::DictItemsView(y)) => if x.dict_id == y.dict_id {
            Ok(Some(true))
        } else {
            give(compare_entries(viewed(vm, x.dict_id), viewed(vm, y.dict_id), depth, vm))
        },
        (HeapData::DictKeysView(x), HeapData::DictKeysView(y)) => if x.dict_id == y.dict_id {
            Ok(Some(true))
        } else {
            let left = viewed(vm, x.dict_id);
            let right = viewed(vm, y.dict_id);
            proof {
                lemma_firsts_ok(*vm, left@);
                lemma_firsts_ok(*vm, right@);
            }
            give(compare_members(&keys_of(left), &keys_of(right), depth, vm))
        },
        (HeapData::DictKeysView(x), _) => match members_of(theirs) {
            Some(members) => {
                let left = viewed(vm, x.dict_id);
                proof {
                    lemma_firsts_ok(*vm, left@);
                }
                give(compare_members(&keys_of(left), members, depth, vm))
            },
            None => Ok(None),
        },
        (HeapData::DictItemsView(x), _) => match members_of(theirs) {
            Some(members) => give(compare_pairs(viewed(vm, x.dict_id), members, depth, vm)),
            None => Ok(None),
        },
        _ => match (members_of(data), members_of(theirs)) {
            (Some(left), Some(right)) => give(compare_members(left, right, depth, vm)),
            _ => Ok(plain_equal(data, theirs)),
        },
    }
}

/// A value compared to another from its own side.
fn eq_value_once(a: &Value, b: &Value, depth: usize, vm: &VM) -> (r: RunResult<Option<bool>>)
    requires
        vm.wf(),
        vm.ok(*a),
        vm.ok(*b),
    ensures
        told(r, eq_once(*vm, *a, *b, depth as nat)),
    decreases depth, 2nat,
{
    match (a, b) {
        (Value::Undefined, _) => Ok(Some(false)),
        (Value::PyNone, Value::PyNone) => Ok(Some(true)),
        (Value::Ellipsis, Value::Ellipsis) => Ok(Some(true)),
        (Value::Bool(x), _) => Ok(eq_i64(int_of_bool(*x), b, vm)),
        (Value::Int(x), _) => Ok(eq_i64(*x, b, vm)),
        (Value::Float(f), _) => Ok(eq_f64(*f, b, vm)),
        (Value::InternLongInt(id), _) => Ok(eq_bigint(vm.interns.get_long_int(*id), b, vm)),
        (Value::InternString(id), Value::InternString(o)) => Ok(Some(*id == *o)),
        (Value::InternString(id), _) => Ok(eq_str(vm.interns.get_str(*id), b, vm)),
        (Value::InternBytes(id), _) => Ok(eq_bytes(vm.interns.get_bytes(*id), b, vm)),
        (Value::Builtin(x), Value::Builtin(y)) => Ok(Some(*x == *y)),
        (Value::ModuleFunction(x), Value::ModuleFunction(y)) => Ok(Some(*x == *y)),
        (Value::DefFunction(x), Value::DefFunction(y)) => Ok(Some(*x == *y)),
        (Value::ExtFunction(id), _) => Ok(eq_ext_function(vm.interns.get_str(*id), b, vm)),
        (Value::Marker(x), Value::Marker(y)) => Ok(Some(*x == *y)),
        (Value::Property(x), Value::Property(y)) => Ok(Some(*x == *y)),
        (Value::Ref(id), _) => {
            match b {
                Value::Ref(o) => {
                    if *id == *o {
                        return Ok(Some(true));
                    }
                },
                _ => {},
            }
            eq_heap(*id, b, depth, vm)
        },
        _ => Ok(None),
    }
}

/// `a == b` with `depth` levels of containers left.
pub(crate) fn eq_values(a: &Value, b: &Value, depth: usize, vm: &VM) -> (r: RunResult<bool>)
    requires
        vm.wf(),
        vm.ok(*a),
        vm.ok(*b),
    ensures
        told(r, equal(*vm, *a, *b, depth as nat)),
    decreases depth, 3nat,
{
    match eq_value_once(a, b, depth, vm) {
        Err(e) => {
            return Err(e);
        },
        Ok(Some(r)) => {
            return Ok(r);
        },
        Ok(None) => {},
    }
    match eq_value_once(b, a, depth, vm) {
        Err(e) => Err(e),
        Ok(Some(r)) => Ok(r),
        Ok(None) => Ok(false),
    }
}

impl Value {
    /// `self == other`.
    pub fn py_eq(&self, other: &Value, vm: &VM) -> (r: RunResult<bool>)
        requires
            vm.wf(),
            vm.ok(*self),
            vm.ok(*other),
        ensures
            told(r, vm.values_equal(*self, *other)),
    {
        eq_values(self, other, vm.heap.max_depth, vm)
    }

    /// `self == other` from this side alone; nothing when the other's type is not
    /// known to this value.
    pub fn py_eq_impl(&self, other: &Value, vm: &VM) -> (r: RunResult<Option<bool>>)
        requires
            vm.wf(),
            vm.ok(*self),
            vm.ok(*other),
        ensures
            told(r, eq_once(*vm, *self, *other, vm.heap.max_depth as nat)),
    {
        eq_value_once(self, other, vm.heap.max_depth, vm)
    }
}

/// A heap object equals itself, whatever it holds.
pub proof fn lemma_identical_equal(vm: VM, id: HeapId)
    ensures
        vm.values_equal(Value::Ref(id), Value::Ref(id)) == Ok::<bool, Raised>(true),
{
}

/// What is not yet defined equals nothing.
pub proof fn lemma_undefined_equals_nothing(vm: VM, v: Value)
    ensures
        vm.values_equal(Value::Undefined, v) == Ok::<bool, Raised>(false),
        vm.values_equal(v, Value::Undefined) == Ok::<bool, Raised>(false),
{
}

/// A tuple equals a named tuple exactly when the named tuple equals the tuple.
pub proof fn lemma_tuple_namedtuple(vm: VM, tuple: HeapId, named: HeapId)
    requires
        vm.heap.data(tuple) is Tuple,
        vm.heap.data(named) is NamedTuple,
    ensures
        vm.values_equal(Value::Ref(tuple), Value::Ref(named)) == vm.values_equal(
            Value::Ref(named),
            Value::Ref(tuple),
        ),
{
}

/// A truth value compares to everything as the integer zero or one does.
pub proof fn lemma_bool_as_int(vm: VM, b: bool, v: Value)
    ensures
        vm.values_equal(Value::Bool(b), v) == vm.values_equal(Value::Int(bool_int(b)), v),
        v is Bool || vm.values_equal(v, Value::Bool(b)) == vm.values_equal(
            v,
            Value::Int(bool_int(b)),
        ),
{
}

/// Whether a value holds no other values: what it equals depends on nothing
/// but its own content.
pub open spec fn is_plain(vm: VM, v: Value) -> bool {
    match vm.data_of(v) {
        Some(d) => match d {
            HeapData::Str(_) | HeapData::Bytes(_) | HeapData::LongInt(_) | HeapData::ExtFunction(_)
            | HeapData::Range(_) | HeapData::Slice(_) | HeapData::Path(_) | HeapData::Date(_)
            | HeapData::DateTime(_) | HeapData::TimeDelta(_) | HeapData::TimeZone(_)
            | HeapData::RePattern(_) => true,
            _ => false,
        },
        None => v != Value::Undefined,
    }
}

/// The items of a heap entry that is compared place by place.
pub open spec fn sequence_items(d: HeapData) -> Option<Seq<Value>> {
    match d {
        HeapData::List(list) => Some(list.items@),
        _ => tuple_items(d),
    }
}

/// Whether comparing a value goes place by place, as deep as a comparison looks:
/// it holds no dictionaries, sets, views or instances.
pub open spec fn is_sequential(vm: VM, v: Value, fuel: nat) -> bool
    decreases fuel,
{
    match vm.data_of(v) {
        Some(d) => match sequence_items(d) {
            Some(items) => fuel == 0 || forall|i: int|
                0 <= i < items.len() ==> is_sequential(vm, #[trigger] items[i], (fuel - 1) as nat),
            None => !(d is Dict) && !(d is Dataclass) && !(d is DictKeysView)
                && !(d is DictItemsView) && set_items(d) is None,
        },
        None => true,
    }
}

/// What a sequence that is compared place by place holds is so, too.
pub(crate) proof fn lemma_items_sequential(vm: VM, v: Value, items: Seq<Value>, fuel: nat)
    requires
        fuel > 0,
        is_sequential(vm, v, fuel),
        vm.data_of(v) matches Some(d) && sequence_items(d) == Some(items),
    ensures
        forall|j: int|
            0 <= j < items.len() ==> is_sequential(vm, #[trigger] items[j], (fuel - 1) as nat),
{
    let all = sequence_items(vm.data_of(v)->0)->0;
    assert forall|j: int| 0 <= j < items.len() implies is_sequential(
        vm,
        #[trigger] items[j],
        (fuel - 1) as nat,
    ) by {
        assert(is_sequential(vm, all[j], (fuel - 1) as nat));
    }
}

proof fn lemma_items_symmetric(vm: VM, xs: Seq<Value>, ys: Seq<Value>, i: int, fuel: nat)
    requires
        0 <= i <= xs.len(),
        xs.len() == ys.len(),
        forall|j: int| 0 <= j < xs.len() ==> is_sequential(vm, #[trigger] xs[j], fuel),
        forall|j: int| 0 <= j < ys.len() ==> is_sequential(vm, #[trigger] ys[j], fuel),
    ensures
        eq_items(vm, xs, ys, i, fuel) == eq_items(vm, ys, xs, i, fuel),
    decreases fuel, 1nat, xs.len() - i,
{
    if i < xs.len() {
        lemma_sequential_symmetric(vm, xs[i], ys[i], fuel);
        lemma_items_symmetric(vm, xs, ys, i + 1, fuel);
    }
}

pub(crate) proof fn lemma_sequential_symmetric(vm: VM, a: Value, b: Value, fuel: nat)
    requires
        is_sequential(vm, a, fuel),
        is_sequential(vm, b, fuel),
    ensures
        equal(vm, a, b, fuel) == equal(vm, b, a, fuel),
    decreases fuel, 0nat, 0int,
{
    match (vm.data_of(a), vm.data_of(b)) {
        (Some(x), Some(y)) => match (sequence_items(x), sequence_items(y)) {
            (Some(xs), Some(ys)) => {
                if xs.len() == ys.len() && fuel > 0 {
                    lemma_items_symmetric(vm, xs, ys, 0, (fuel - 1) as nat);
                }
            },
            _ => {},
        },
        _ => {},
    }
    match (eq_once(vm, a, b, fuel), eq_once(vm, b, a, fuel)) {
        (Ok(Some(x)), Ok(Some(y))) => {
            assert(x == y);
        },
        _ => {},
    }
}

/// Equality does not depend on the order of the operands, for values that hold
/// no dictionaries, sets, views or instances.
pub proof fn lemma_equality_symmetric(vm: VM, a: Value, b: Value)
    requires
        is_sequential(vm, a, vm.heap.max_depth as nat),
        is_sequential(vm, b, vm.heap.max_depth as nat),
    ensures
        vm.values_equal(a, b) == vm.values_equal(b, a),
{
    lemma_sequential_symmetric(vm, a, b, vm.heap.max_depth as nat);
}

} // verus!
