//! Hashes of values.

use std::collections::hash_map::DefaultHasher;
use std::hash::Hasher;
use vstd::bytes::{spec_u64_to_le_bytes, u64_to_le_bytes};
use vstd::prelude::*;
use vstd::std_specs::hash::DefaultHasherAdditionalSpecFns;
use vstd::utf8::encode_utf8;

use crate::args::Raised;
use crate::exception::{ExcType, RunResult};
use crate::float::{
    exact_long, float_order, lemma_bits_determined, lemma_whole_number, mixed_order, unit_scale,
    whole_number,
};
use crate::heap::{HeapData, HeapId};
use crate::order::Order;
use crate::types::containers::Range;
use crate::types::dataclass::{named_entry, Dataclass};
use crate::types::datetime::utc_micros;
use crate::types::long_int::LongInt;
use crate::types::path::strings;
use crate::types::slice::Slice;
use crate::value::{Builtins, FloatBits, Value};
use crate::value_add::lemma_entry_ok;
use crate::value_eq::{
    all_among, eq_items, eq_once, equal, find_equal, is_plain, told, too_deep, tuple_items,
};
use crate::value_int::fits_i64;
use crate::value_mul::bool_int;
use crate::vm::VM;

verus! {

/// The hash of a value.
#[derive(Clone, Copy, Debug, PartialEq, Eq, Structural)]
pub struct HashValue(pub u64);

impl HashValue {
    /// The hash as a number.
    pub fn raw(self) -> (r: u64)
        ensures
            r == self.0,
    {
        self.0
    }
}

/// What the hasher makes of what is written to it.
pub open spec fn mixed(writes: Seq<Seq<u8>>) -> u64 {
    DefaultHasher::spec_finish(writes)
}

/// The modulus by which large integers are reduced: the prime below two to the 61st.
pub const HASH_MODULUS: i64 = 0x1fff_ffff_ffff_ffff;

/// A machine integer as an unsigned number of the same bits.
pub open spec fn unsigned(n: int) -> u64 {
    if n >= 0 {
        n as u64
    } else {
        (n + 0x1_0000_0000_0000_0000) as u64
    }
}

/// The hash of an integer: itself where it is small, else its remainder with its sign.
pub open spec fn number_hash(n: int) -> u64 {
    if fits_i64(n) {
        unsigned(n)
    } else if n > 0 {
        unsigned(n % (HASH_MODULUS as int))
    } else {
        unsigned(-((-n) % (HASH_MODULUS as int)))
    }
}

/// The hash of a number: that of the integer it is, or else of its bits.
pub open spec fn float_hash(f: FloatBits) -> u64 {
    match whole_number(f.value()) {
        Some(n) => number_hash(n),
        None => f.0,
    }
}

/// What is written for a text.
pub open spec fn text_writes(s: Seq<char>) -> Seq<Seq<u8>> {
    seq![encode_utf8(s), seq![0xffu8]]
}

/// The hash of a text.
pub open spec fn text_hash(s: Seq<char>) -> u64 {
    mixed(text_writes(s))
}

/// What is written for numbers of one kind of object, up to the `n`th number.
pub open spec fn number_writes(kind: u8, ns: Seq<i64>, n: int) -> Seq<Seq<u8>>
    decreases n,
{
    if n <= 0 {
        seq![seq![kind]]
    } else {
        number_writes(kind, ns, n - 1).push(spec_u64_to_le_bytes(unsigned(ns[n - 1] as int)))
    }
}

/// The hash of an object of some kind that is made of numbers.
pub open spec fn numbers_hash(kind: u8, ns: Seq<i64>) -> u64 {
    mixed(number_writes(kind, ns, ns.len() as int))
}

/// The hash of an object of some kind that has a name.
pub open spec fn named_hash(kind: u8, name: Seq<char>) -> u64 {
    mixed(seq![seq![kind]] + text_writes(name))
}

/// Whether there is a number, and which.
pub open spec fn optional_numbers(n: Option<i64>) -> Seq<i64> {
    match n {
        Some(n) => seq![1i64, n],
        None => seq![0i64, 0],
    }
}

/// The numbers that a slice is made of.
pub open spec fn slice_numbers(s: Slice) -> Seq<i64> {
    optional_numbers(s.start) + optional_numbers(s.stop) + optional_numbers(s.step)
}

/// What ranges that count the same numbers have in common.
pub open spec fn range_numbers(r: Range) -> Seq<i64> {
    if r.count() == 0 {
        seq![0i64]
    } else if r.count() == 1 {
        seq![1i64, r.start]
    } else {
        seq![2i64, r.start, r.step]
    }
}

/// The hash of a heap entry that holds no values, if it has one.
pub open spec fn plain_hash(d: HeapData) -> Option<u64> {
    match d {
        HeapData::Str(s) => Some(text_hash(s@)),
        HeapData::Bytes(b) => Some(mixed(seq![b@])),
        HeapData::LongInt(li) => Some(number_hash(li@)),
        HeapData::ExtFunction(name) => Some(text_hash(name@)),
        HeapData::Path(path) => Some(text_hash(path@)),
        HeapData::Date(date) => Some(
            numbers_hash(10, seq![date.year as i64, date.month as i64, date.day as i64]),
        ),
        HeapData::DateTime(moment) => Some(numbers_hash(11, seq![moment.instant() as i64])),
        HeapData::TimeDelta(delta) => Some(
            numbers_hash(
                12,
                seq![delta.days as i64, delta.seconds as i64, delta.microseconds as i64],
            ),
        ),
        HeapData::TimeZone(tz) => Some(numbers_hash(13, seq![tz.offset_seconds as i64])),
        HeapData::Slice(slice) => Some(numbers_hash(14, slice_numbers(slice))),
        HeapData::Range(range) => Some(numbers_hash(15, range_numbers(range))),
        _ => None,
    }
}

/// The hash of a heap entry; nothing when its type has none. `fuel` is how many
/// levels of containers are left.
pub open spec fn hash_data(vm: VM, d: HeapData, fuel: nat) -> Result<Option<u64>, Raised>
    decreases fuel, 0nat, 0nat,
{
    match d {
        HeapData::Tuple(tuple) => if fuel == 0 {
            Err(too_deep())
        } else {
            hash_items(vm, tuple.items@, 0, Seq::empty(), (fuel - 1) as nat)
        },
        HeapData::NamedTuple(tuple) => if fuel == 0 {
            Err(too_deep())
        } else {
            hash_items(vm, tuple.items@, 0, Seq::empty(), (fuel - 1) as nat)
        },
        HeapData::FrozenSet(set) => if fuel == 0 {
            Err(too_deep())
        } else {
            hash_members(vm, set.items@, 0, 0, (fuel - 1) as nat)
        },
        HeapData::Dataclass(instance) => if !instance.frozen {
            Ok(None)
        } else if fuel == 0 {
            Err(too_deep())
        } else {
            hash_fields(
                vm,
                instance.attrs.entries@,
                strings(instance.field_names@),
                0,
                text_writes(instance.name.text(vm.interns)),
                (fuel - 1) as nat,
            )
        },
        _ => Ok(plain_hash(d)),
    }
}

/// The hash of a value; nothing when its type has none.
pub open spec fn hash_of(vm: VM, v: Value, fuel: nat) -> Result<Option<u64>, Raised>
    decreases fuel, 1nat, 0nat,
{
    match v {
        Value::Undefined => Ok(Some(numbers_hash(0, Seq::empty()))),
        Value::Ellipsis => Ok(Some(numbers_hash(1, Seq::empty()))),
        Value::PyNone => Ok(Some(numbers_hash(2, Seq::empty()))),
        Value::Bool(b) => Ok(
            Some(
                if b {
                    1
                } else {
                    0
                },
            ),
        ),
        Value::Int(i) => Ok(Some(number_hash(i as int))),
        Value::Float(f) => Ok(Some(float_hash(f))),
        Value::InternLongInt(id) => Ok(Some(number_hash(vm.interns.long_int_at(id)))),
        Value::InternString(id) => Ok(Some(text_hash(vm.interns.str_at(id)))),
        Value::InternBytes(id) => Ok(Some(mixed(seq![vm.interns.bytes_at(id)]))),
        Value::Builtin(Builtins::Function(n)) => Ok(Some(numbers_hash(3, seq![n as i64]))),
        Value::Builtin(Builtins::Exception(n)) => Ok(Some(numbers_hash(4, seq![n as i64]))),
        Value::Builtin(Builtins::Type(t)) => Ok(Some(named_hash(5, t.text()))),
        Value::ModuleFunction(m) => Ok(Some(numbers_hash(6, seq![m.0 as i64]))),
        Value::DefFunction(f) => Ok(Some(numbers_hash(7, seq![f.0 as i64]))),
        Value::ExtFunction(id) => Ok(Some(text_hash(vm.interns.str_at(id)))),
        Value::Marker(m) => Ok(Some(named_hash(8, m.0.text()))),
        Value::Property(p) => Ok(Some(numbers_hash(9, seq![p.0 as i64]))),
        Value::Ref(id) => hash_data(vm, vm.heap.data(id), fuel),
    }
}

/// The hash of what is written so far and the hashes of the items from `i` on.
pub open spec fn hash_items(vm: VM, xs: Seq<Value>, i: int, writes: Seq<Seq<u8>>, fuel: nat) -> Result<
    Option<u64>,
    Raised,
>
    decreases fuel, 2nat, xs.len() - i,
{
    if i >= xs.len() {
        Ok(Some(mixed(writes)))
    } else {
        match hash_of(vm, xs[i], fuel) {
            Err(e) => Err(e),
            Ok(None) => Ok(None),
            Ok(Some(h)) => hash_items(vm, xs, i + 1, writes.push(spec_u64_to_le_bytes(h)), fuel),
        }
    }
}

/// The sum of what is there so far and the hashes of the members from `i` on: it
/// does not depend on their order.
pub open spec fn hash_members(vm: VM, xs: Seq<Value>, i: int, sum: u64, fuel: nat) -> Result<
    Option<u64>,
    Raised,
>
    decreases fuel, 2nat, xs.len() - i,
{
    if i >= xs.len() {
        Ok(Some(sum))
    } else {
        match hash_of(vm, xs[i], fuel) {
            Err(e) => Err(e),
            Ok(None) => Ok(None),
            Ok(Some(h)) => hash_members(vm, xs, i + 1, sum.wrapping_add(h), fuel),
        }
    }
}

/// The hash of what is written so far and the declared fields from `i` on: their
/// names, and the hashes of those that are set.
pub open spec fn hash_fields(
    vm: VM,
    attrs: Seq<(Value, Value)>,
    names: Seq<Seq<char>>,
    i: int,
    writes: Seq<Seq<u8>>,
    fuel: nat,
) -> Result<Option<u64>, Raised>
    decreases fuel, 2nat, names.len() - i,
{
    if i >= names.len() {
        Ok(Some(mixed(writes)))
    } else {
        let named = writes + text_writes(names[i]);
        match named_entry(vm, attrs, names[i]) {
            None => hash_fields(vm, attrs, names, i + 1, named, fuel),
            Some(v) => match hash_of(vm, v, fuel) {
                Err(e) => Err(e),
                Ok(None) => Ok(None),
                Ok(Some(h)) => hash_fields(
                    vm,
                    attrs,
                    names,
                    i + 1,
                    named.push(spec_u64_to_le_bytes(h)),
                    fuel,
                ),
            },
        }
    }
}

impl VM {
    /// The hash of a value within the limit on depth.
    pub open spec fn value_hash(self, v: Value) -> Result<Option<u64>, Raised> {
        hash_of(self, v, self.heap.max_depth as nat)
    }
}

pub(crate) fn as_unsigned(n: i64) -> (r: u64)
    ensures
        r == unsigned(n as int),
{
    if n >= 0 {
        n as u64
    } else {
        (n as i128 + 0x1_0000_0000_0000_0000i128) as u64
    }
}

/// The hash of an integer.
pub fn hash_python_long_int(n: &LongInt) -> (r: u64)
    ensures
        r == number_hash(n@),
{
    match n.to_i64() {
        Some(small) => as_unsigned(small),
        None => {
            let modulus = LongInt::from_i64(HASH_MODULUS);
            let negative = n.is_negative();
            let rest = n.abs().mod_floor(&modulus);
            proof {
                let m = HASH_MODULUS as int;
                let a = crate::bigint::magnitude(n@) as int;
                vstd::arithmetic::div_mod::lemma_fundamental_div_mod(a, m);
            }
            match rest.to_i64() {
                Some(small) => if negative {
                    as_unsigned(-small)
                } else {
                    as_unsigned(small)
                },
                None => 0,
            }
        },
    }
}

impl LongInt {
    /// The hash of the integer; one that fits in 64 bits hashes as a small one does.
    pub fn hash(&self) -> (r: u64)
        ensures
            r == number_hash(self@),
    {
        hash_python_long_int(self)
    }
}

fn hash_float(f: FloatBits) -> (r: u64)
    ensures
        r == float_hash(f),
{
    match exact_long(f) {
        Some(n) => hash_python_long_int(&n),
        None => f.0,
    }
}

fn write_text(s: &str, hasher: &mut DefaultHasher)
    ensures
        final(hasher)@ == old(hasher)@ + text_writes(s@),
{
    hasher.write(s.as_bytes());
    let end: [u8; 1] = [0xff];
    hasher.write(&end);
    assert(end@ =~= seq![0xffu8]);
    assert(hasher@ =~= old(hasher)@ + text_writes(s@));
}

/// The hash of a text.
pub fn hash_python_str(s: &str) -> (r: u64)
    ensures
        r == text_hash(s@),
{
    let mut hasher = DefaultHasher::new();
    write_text(s, &mut hasher);
    assert(hasher@ =~= text_writes(s@));
    hasher.finish()
}

pub(crate) fn hash_bytes(b: &[u8]) -> (r: u64)
    ensures
        r == mixed(seq![b@]),
{
    let mut hasher = DefaultHasher::new();
    hasher.write(b);
    assert(hasher@ =~= seq![b@]);
    hasher.finish()
}

fn write_kind(kind: u8, hasher: &mut DefaultHasher)
    ensures
        final(hasher)@ == old(hasher)@.push(seq![kind]),
{
    let tag: [u8; 1] = [kind];
    hasher.write(&tag);
    assert(tag@ =~= seq![kind]);
}

fn hash_numbers(kind: u8, ns: &[i64]) -> (r: u64)
    ensures
        r == numbers_hash(kind, ns@),
{
    let mut hasher = DefaultHasher::new();
    write_kind(kind, &mut hasher);
    assert(hasher@ =~= number_writes(kind, ns@, 0));
    for i in 0..ns.len()
        invariant
            hasher@ == number_writes(kind, ns@, i as int),
    {
        let bytes = u64_to_le_bytes(as_unsigned(ns[i]));
        hasher.write(&bytes);
    }
    hasher.finish()
}

pub(crate) fn hash_named(kind: u8, name: &str) -> (r: u64)
    ensures
        r == named_hash(kind, name@),
{
    let mut hasher = DefaultHasher::new();
    write_kind(kind, &mut hasher);
    write_text(name, &mut hasher);
    assert(hasher@ =~= seq![seq![kind]] + text_writes(name@));
    hasher.finish()
}

fn push_optional(n: Option<i64>, out: &mut Vec<i64>)
    ensures
        final(out)@ == old(out)@ + optional_numbers(n),
{
    match n {
        Some(n) => {
            out.push(1);
            out.push(n);
        },
        None => {
            out.push(0);
            out.push(0);
        },
    }
    assert(out@ =~= old(out)@ + optional_numbers(n));
}

fn hash_slice(slice: &Slice) -> (r: u64)
    ensures
        r == numbers_hash(14, slice_numbers(*slice)),
{
    let mut ns: Vec<i64> = Vec::new();
    push_optional(slice.start, &mut ns);
    push_optional(slice.stop, &mut ns);
    push_optional(slice.step, &mut ns);
    assert(ns@ =~= slice_numbers(*slice));
    hash_numbers(14, &ns)
}

fn hash_range(range: &Range) -> (r: u64)
    requires
        range.step != 0,
    ensures
        r == numbers_hash(15, range_numbers(*range)),
{
    let count: i128 = range.len();
    let ns: Vec<i64> = if count == 0 {
        vec![0]
    } else if count == 1 {
        vec![1, range.start]
    } else {
        vec![2, range.start, range.step]
    };
    assert(ns@ =~= range_numbers(*range));
    hash_numbers(15, &ns)
}

/// The hash of a heap entry that holds no values, if it has one.
fn hash_plain(d: &HeapData) -> (r: Option<u64>)
    requires
        d matches HeapData::Range(x) ==> x.step != 0,
        d matches HeapData::DateTime(x) ==> x.wf(),
    ensures
        r == plain_hash(*d),
{
    match d {
        HeapData::Str(s) => Some(hash_python_str(s.as_str())),
        HeapData::Bytes(b) => Some(hash_bytes(b.as_slice())),
        HeapData::LongInt(li) => Some(hash_python_long_int(li)),
        HeapData::ExtFunction(name) => Some(hash_python_str(name.as_str())),
        HeapData::Path(path) => Some(hash_python_str(path.as_str())),
        HeapData::Date(date) => {
            let ns: Vec<i64> = vec![date.year as i64, date.month as i64, date.day as i64];
            assert(ns@ =~= seq![date.year as i64, date.month as i64, date.day as i64]);
            Some(hash_numbers(10, &ns))
        },
        HeapData::DateTime(moment) => match utc_micros(moment) {
            Some(n) => {
                let ns: Vec<i64> = vec![n];
                assert(ns@ =~= seq![moment.instant() as i64]);
                Some(hash_numbers(11, &ns))
            },
            None => None,
        },
        HeapData::TimeDelta(delta) => {
            let ns: Vec<i64> = vec![
                delta.days as i64,
                delta.seconds as i64,
                delta.microseconds as i64,
            ];
            assert(ns@ =~= seq![
                delta.days as i64,
                delta.seconds as i64,
                delta.microseconds as i64,
            ]);
            Some(hash_numbers(12, &ns))
        },
        HeapData::TimeZone(tz) => {
            let ns: Vec<i64> = vec![tz.offset_seconds as i64];
            assert(ns@ =~= seq![tz.offset_seconds as i64]);
            Some(hash_numbers(13, &ns))
        },
        HeapData::Slice(slice) => Some(hash_slice(slice)),
        HeapData::Range(range) => Some(hash_range(range)),
        _ => None,
    }
}

fn hash_sequence(xs: &[Value], depth: usize, vm: &VM) -> (r: RunResult<Option<u64>>)
    requires
        vm.wf(),
        vm.all_ok(xs@),
    ensures
        told(
            r,
            if depth == 0 {
                Err(too_deep())
            } else {
                hash_items(*vm, xs@, 0, Seq::empty(), (depth - 1) as nat)
            },
        ),
    decreases depth, 0nat,
{
    if depth == 0 {
        return Err(VM::recursion_error());
    }
    let mut hasher = DefaultHasher::new();
    let ghost fuel = (depth - 1) as nat;
    assert(hasher@ =~= Seq::<Seq<u8>>::empty());
    for i in 0..xs.len()
        invariant
            vm.wf(),
            vm.all_ok(xs@),
            depth > 0,
            fuel == depth - 1,
            hash_items(*vm, xs@, 0, Seq::empty(), fuel) == hash_items(
                *vm,
                xs@,
                i as int,
                hasher@,
                fuel,
            ),
    {
        assert(vm.ok(xs@[i as int]));
        match hash_value(&xs[i], depth - 1, vm) {
            Err(e) => {
                return Err(e);
            },
            Ok(None) => {
                return Ok(None);
            },
            Ok(Some(h)) => {
                let bytes = u64_to_le_bytes(h);
                hasher.write(&bytes);
            },
        }
    }
    Ok(Some(hasher.finish()))
}

/// The hash of a pair as a tuple.
pub open spec fn pair_hash(vm: VM, k: Value, v: Value, fuel: nat) -> Result<Option<u64>, Raised> {
    if fuel == 0 {
        Err(too_deep())
    } else {
        hash_items(vm, seq![k, v], 0, Seq::empty(), (fuel - 1) as nat)
    }
}

/// The hash of a pair as a tuple.
pub(crate) fn hash_pair(k: &Value, v: &Value, depth: usize, vm: &VM) -> (r: RunResult<Option<u64>>)
    requires
        vm.wf(),
        vm.ok(*k),
        vm.ok(*v),
    ensures
        told(r, pair_hash(*vm, *k, *v, depth as nat)),
{
    let pair: Vec<Value> = vec![k.alias(), v.alias()];
    assert(pair@ =~= seq![*k, *v]);
    hash_sequence(&pair, depth, vm)
}

fn hash_set(xs: &[Value], depth: usize, vm: &VM) -> (r: RunResult<Option<u64>>)
    requires
        vm.wf(),
        vm.all_ok(xs@),
    ensures
        told(
            r,
            if depth == 0 {
                Err(too_deep())
            } else {
                hash_members(*vm, xs@, 0, 0, (depth - 1) as nat)
            },
        ),
    decreases depth, 0nat,
{
    if depth == 0 {
        return Err(VM::recursion_error());
    }
    let mut sum: u64 = 0;
    let ghost fuel = (depth - 1) as nat;
    for i in 0..xs.len()
        invariant
            vm.wf(),
            vm.all_ok(xs@),
            depth > 0,
            fuel == depth - 1,
            hash_members(*vm, xs@, 0, 0, fuel) == hash_members(*vm, xs@, i as int, sum, fuel),
    {
        assert(vm.ok(xs@[i as int]));
        match hash_value(&xs[i], depth - 1, vm) {
            Err(e) => {
                return Err(e);
            },
            Ok(None) => {
                return Ok(None);
            },
            Ok(Some(h)) => {
                sum = sum.wrapping_add(h);
            },
        }
    }
    Ok(Some(sum))
}

fn hash_instance(instance: &Dataclass, depth: usize, vm: &VM) -> (r: RunResult<Option<u64>>)
    requires
        vm.wf(),
        instance.name.ok(vm.interns),
        crate::heap::entries_ok(instance.attrs.entries@, vm.entries().len(), vm.interns),
    ensures
        told(
            r,
            if !instance.frozen {
                Ok(None)
            } else if depth == 0 {
                Err(too_deep())
            } else {
                hash_fields(
                    *vm,
                    instance.attrs.entries@,
                    strings(instance.field_names@),
                    0,
                    text_writes(instance.name.text(vm.interns)),
                    (depth - 1) as nat,
                )
            },
        ),
    decreases depth, 0nat,
{
    if !instance.frozen {
        return Ok(None);
    }
    if depth == 0 {
        return Err(VM::recursion_error());
    }
    let mut hasher = DefaultHasher::new();
    let ghost fuel = (depth - 1) as nat;
    let ghost attrs = instance.attrs.entries@;
    let ghost names = strings(instance.field_names@);
    let ghost head = text_writes(instance.name.text(vm.interns));
    write_text(instance.name(&vm.interns), &mut hasher);
    assert(hasher@ =~= head);
    for i in 0..instance.field_names.len()
        invariant
            vm.wf(),
            crate::heap::entries_ok(instance.attrs.entries@, vm.entries().len(), vm.interns),
            instance.frozen,
            depth > 0,
            fuel == depth - 1,
            attrs == instance.attrs.entries@,
            names == strings(instance.field_names@),
            head == text_writes(instance.name.text(vm.interns)),
            hash_fields(*vm, attrs, names, 0, head, fuel) == hash_fields(
                *vm,
                attrs,
                names,
                i as int,
                hasher@,
                fuel,
            ),
    {
        let name = instance.field_names[i].as_str();
        assert(name@ == names[i as int]);
        write_text(name, &mut hasher);
        match instance.attrs.get_by_str(name, vm) {
            None => {},
            Some(v) => match hash_value(v, depth - 1, vm) {
                Err(e) => {
                    return Err(e);
                },
                Ok(None) => {
                    return Ok(None);
                },
                Ok(Some(h)) => {
                    let bytes = u64_to_le_bytes(h);
                    hasher.write(&bytes);
                },
            },
        }
    }
    Ok(Some(hasher.finish()))
}

fn hash_entry(id: HeapId, depth: usize, vm: &VM) -> (r: RunResult<Option<u64>>)
    requires
        vm.wf(),
        id.0 < vm.entries().len(),
    ensures
        told(r, hash_data(*vm, vm.heap.data(id), depth as nat)),
    decreases depth, 1nat,
{
    proof {
        lemma_entry_ok(*vm, id);
    }
    match vm.heap.get(id) {
        HeapData::Tuple(tuple) => hash_sequence(tuple.as_slice(), depth, vm),
        HeapData::NamedTuple(tuple) => hash_sequence(tuple.items.as_slice(), depth, vm),
        HeapData::FrozenSet(set) => hash_set(set.items.as_slice(), depth, vm),
        HeapData::Dataclass(instance) => hash_instance(instance, depth, vm),
        data => Ok(hash_plain(data)),
    }
}

pub(crate) fn one_number(kind: u8, n: i64) -> (r: u64)
    ensures
        r == numbers_hash(kind, seq![n]),
{
    let ns: Vec<i64> = vec![n];
    assert(ns@ =~= seq![n]);
    hash_numbers(kind, &ns)
}

fn no_numbers(kind: u8) -> (r: u64)
    ensures
        r == numbers_hash(kind, Seq::empty()),
{
    let ns: Vec<i64> = Vec::new();
    assert(ns@ =~= Seq::<i64>::empty());
    hash_numbers(kind, &ns)
}

pub(crate) fn hash_value(v: &Value, depth: usize, vm: &VM) -> (r: RunResult<Option<u64>>)
    requires
        vm.wf(),
        vm.ok(*v),
    ensures
        told(r, hash_of(*vm, *v, depth as nat)),
    decreases depth, 2nat,
{
    match v {
        Value::Undefined => Ok(Some(no_numbers(0))),
        Value::Ellipsis => Ok(Some(no_numbers(1))),
        Value::PyNone => Ok(Some(no_numbers(2))),
        Value::Bool(b) => Ok(
            Some(
                if *b {
                    1
                } else {
                    0
                },
            ),
        ),
        Value::Int(i) => Ok(Some(as_unsigned(*i))),
        Value::Float(f) => Ok(Some(hash_float(*f))),
        Value::InternLongInt(id) => Ok(
            Some(hash_python_long_int(vm.interns.get_long_int(*id))),
        ),
        Value::InternString(id) => Ok(Some(hash_python_str(vm.interns.get_str(*id)))),
        Value::InternBytes(id) => Ok(Some(hash_bytes(vm.interns.get_bytes(*id)))),
        Value::Builtin(Builtins::Function(n)) => Ok(Some(one_number(3, *n as i64))),
        Value::Builtin(Builtins::Exception(n)) => Ok(Some(one_number(4, *n as i64))),
        Value::Builtin(Builtins::Type(t)) => Ok(Some(hash_named(5, t.as_str()))),
        Value::ModuleFunction(m) => Ok(Some(one_number(6, m.0 as i64))),
        Value::DefFunction(f) => Ok(Some(one_number(7, f.0 as i64))),
        Value::ExtFunction(id) => Ok(Some(hash_python_str(vm.interns.get_str(*id)))),
        Value::Marker(m) => Ok(Some(hash_named(8, m.0.as_str()))),
        Value::Property(p) => Ok(Some(one_number(9, p.0 as i64))),
        Value::Ref(id) => hash_entry(*id, depth, vm),
    }
}

/// The error for a value that cannot be a key.
pub open spec fn unhashable(vm: VM, v: Value) -> Raised {
    (ExcType::TypeError, "unhashable type: '"@ + vm.type_of(v).text() + "'"@)
}

impl Value {
    /// The hash of the value; nothing when its type has none.
    pub fn py_hash(&self, vm: &VM) -> (r: RunResult<Option<HashValue>>)
        requires
            vm.wf(),
            vm.ok(*self),
        ensures
            told(
                r,
                match vm.value_hash(*self) {
                    Ok(Some(h)) => Ok(Some(HashValue(h))),
                    Ok(None) => Ok(None),
                    Err(e) => Err(e),
                },
            ),
    {
        match hash_value(self, vm.heap.max_depth, vm) {
            Ok(Some(h)) => Ok(Some(HashValue(h))),
            Ok(None) => Ok(None),
            Err(e) => Err(e),
        }
    }
}

/// Whether no value equals two members: a set holds nothing twice.
pub open spec fn members_apart(vm: VM, xs: Seq<Value>, fuel: nat) -> bool {
    forall|i: int, j: int, v: Value|
        0 <= i < j < xs.len() && #[trigger] equal(vm, xs[i], v, fuel) == Ok::<bool, Raised>(true)
            ==> #[trigger] equal(vm, xs[j], v, fuel) != Ok::<bool, Raised>(true)
}

/// Whether a value is plain, or a tuple or a frozen set of such values within the
/// given depth.
pub open spec fn is_key(vm: VM, v: Value, fuel: nat) -> bool
    decreases fuel,
{
    is_plain(vm, v) || (fuel > 0 && match vm.data_of(v) {
        Some(d) => match key_items(d) {
            Some(items) => {
                &&& forall|i: int|
                    0 <= i < items.len() ==> is_key(vm, #[trigger] items[i], (fuel - 1) as nat)
                &&& d is FrozenSet ==> members_apart(vm, items, (fuel - 1) as nat)
            },
            None => false,
        },
        None => false,
    })
}

/// The items of a tuple, or the members of a frozen set.
pub open spec fn key_items(d: HeapData) -> Option<Seq<Value>> {
    match d {
        HeapData::FrozenSet(set) => Some(set.items@),
        _ => tuple_items(d),
    }
}

/// Equal numbers have one hash.
proof fn lemma_float_hash(f: FloatBits, g: FloatBits)
    requires
        float_order(f.value(), g.value()) == Some(Order::Equal),
    ensures
        float_hash(f) == float_hash(g),
{
    if whole_number(f.value()) is None {
        vstd::arithmetic::power2::lemma_pow2_pos(1074);
        vstd::arithmetic::div_mod::lemma_small_mod(0, unit_scale() as nat);
        lemma_bits_determined(f, g);
    }
}

/// An integer and a number that are equal have one hash.
proof fn lemma_mixed_hash(n: int, f: FloatBits)
    requires
        mixed_order(n, f.value()) == Some(Order::Equal),
    ensures
        float_hash(f) == number_hash(n),
{
    lemma_whole_number(f.value(), n);
}

proof fn lemma_once_hash(vm: VM, a: Value, b: Value, fuel: nat)
    requires
        is_plain(vm, a),
        is_plain(vm, b),
        eq_once(vm, a, b, fuel) == Ok::<Option<bool>, Raised>(Some(true)),
        hash_of(vm, a, fuel) matches Ok(Some(_)),
        hash_of(vm, b, fuel) matches Ok(Some(_)),
    ensures
        hash_of(vm, a, fuel) == hash_of(vm, b, fuel),
{
    match (a, b) {
        (Value::Float(f), Value::Float(g)) => lemma_float_hash(f, g),
        (Value::Float(f), Value::Int(n)) => lemma_mixed_hash(n as int, f),
        (Value::Float(f), Value::Bool(x)) => lemma_mixed_hash(bool_int(x) as int, f),
        (Value::Int(n), Value::Float(f)) => lemma_mixed_hash(n as int, f),
        (Value::Bool(x), Value::Float(f)) => lemma_mixed_hash(bool_int(x) as int, f),
        (Value::InternLongInt(id), Value::Float(f)) => lemma_mixed_hash(
            vm.interns.long_int_at(id),
            f,
        ),
        (Value::Ref(id), Value::Float(f)) => match vm.heap.data(id) {
            HeapData::LongInt(li) => lemma_mixed_hash(li@, f),
            _ => {},
        },
        (Value::Float(f), Value::Ref(id)) => match vm.heap.data(id) {
            HeapData::LongInt(li) => lemma_mixed_hash(li@, f),
            _ => {},
        },
        _ => {},
    }
}

proof fn lemma_items_hash(
    vm: VM,
    xs: Seq<Value>,
    ys: Seq<Value>,
    i: int,
    writes: Seq<Seq<u8>>,
    fuel: nat,
)
    requires
        0 <= i <= xs.len(),
        xs.len() == ys.len(),
        forall|j: int| 0 <= j < xs.len() ==> is_key(vm, #[trigger] xs[j], fuel),
        forall|j: int| 0 <= j < ys.len() ==> is_key(vm, #[trigger] ys[j], fuel),
        eq_items(vm, xs, ys, i, fuel) == Ok::<bool, Raised>(true),
        hash_items(vm, xs, i, writes, fuel) matches Ok(Some(_)),
        hash_items(vm, ys, i, writes, fuel) matches Ok(Some(_)),
    ensures
        hash_items(vm, xs, i, writes, fuel) == hash_items(vm, ys, i, writes, fuel),
    decreases fuel, 1nat, xs.len() - i,
{
    if i < xs.len() {
        lemma_key_hash(vm, xs[i], ys[i], fuel);
        match hash_of(vm, xs[i], fuel) {
            Ok(Some(h)) => {
                lemma_items_hash(
                    vm,
                    xs,
                    ys,
                    i + 1,
                    writes.push(spec_u64_to_le_bytes(h)),
                    fuel,
                );
            },
            _ => {},
        }
    }
}

/// The hash of a member as a number.
pub open spec fn member_hash(vm: VM, v: Value, fuel: nat) -> nat {
    match hash_of(vm, v, fuel) {
        Ok(Some(h)) => h as nat,
        _ => 0,
    }
}

/// The hashes of all members added up.
pub open spec fn hash_total(vm: VM, xs: Seq<Value>, fuel: nat) -> nat
    decreases xs.len(),
{
    if xs.len() == 0 {
        0
    } else {
        hash_total(vm, xs.drop_last(), fuel) + member_hash(vm, xs.last(), fuel)
    }
}

/// Taking one member out takes its hash out of the total.
proof fn lemma_total_without(vm: VM, xs: Seq<Value>, k: int, fuel: nat)
    requires
        0 <= k < xs.len(),
    ensures
        hash_total(vm, xs, fuel) == hash_total(vm, xs.remove(k), fuel) + member_hash(
            vm,
            xs[k],
            fuel,
        ),
    decreases xs.len(),
{
    if k == xs.len() - 1 {
        assert(xs.remove(k) =~= xs.drop_last());
    } else {
        lemma_total_without(vm, xs.drop_last(), k, fuel);
        assert(xs.remove(k).drop_last() =~= xs.drop_last().remove(k));
        assert(xs.remove(k).last() == xs.last());
    }
}

/// The hash of a set is the total of the hashes of its members, as far as a machine
/// integer holds it.
proof fn lemma_members_total(vm: VM, xs: Seq<Value>, i: int, sum: u64, fuel: nat)
    requires
        0 <= i <= xs.len(),
        sum as int == hash_total(vm, xs.take(i), fuel) as int % 0x1_0000_0000_0000_0000,
        hash_members(vm, xs, i, sum, fuel) matches Ok(Some(_)),
    ensures
        hash_members(vm, xs, i, sum, fuel) matches Ok(Some(h)) && h as int == hash_total(
            vm,
            xs,
            fuel,
        ) as int % 0x1_0000_0000_0000_0000,
        forall|j: int|
            i <= j < xs.len() ==> (hash_of(vm, #[trigger] xs[j], fuel) matches Ok(Some(_))),
    decreases xs.len() - i,
{
    if i < xs.len() {
        assert(xs.take(i + 1).drop_last() =~= xs.take(i));
        let h = member_hash(vm, xs[i], fuel);
        let before = hash_total(vm, xs.take(i), fuel);
        let next = sum.wrapping_add(h as u64);
        assert(next as int == (before + h) as int % 0x1_0000_0000_0000_0000);
        lemma_members_total(vm, xs, i + 1, next, fuel);
    } else {
        assert(xs.take(i) =~= xs);
    }
}

/// What is looked for from a place on is not before it.
proof fn lemma_found_equal(vm: VM, ys: Seq<Value>, x: Value, j: int, fuel: nat)
    requires
        0 <= j <= ys.len(),
        find_equal(vm, ys, x, j, fuel) matches Ok(k) && k < ys.len(),
    ensures
        find_equal(vm, ys, x, j, fuel) matches Ok(k) && j <= k && equal(vm, x, ys[k], fuel) == Ok::<
            bool,
            Raised,
        >(true),
    decreases ys.len() - j,
{
    if j < ys.len() && equal(vm, x, ys[j], fuel) == Ok::<bool, Raised>(false) {
        lemma_found_equal(vm, ys, x, j + 1, fuel);
    }
}

/// Whether every value equals a member.
pub open spec fn each_found(vm: VM, xs: Seq<Value>, ys: Seq<Value>, fuel: nat) -> bool {
    forall|i: int| 0 <= i < xs.len() ==> found_in(vm, #[trigger] xs[i], ys, fuel)
}

/// Whether a value equals a member.
pub open spec fn found_in(vm: VM, x: Value, ys: Seq<Value>, fuel: nat) -> bool {
    exists|k: int|
        0 <= k < ys.len() && #[trigger] equal(vm, x, ys[k], fuel) == Ok::<bool, Raised>(true)
}

proof fn lemma_each_found(vm: VM, xs: Seq<Value>, ys: Seq<Value>, i: int, fuel: nat)
    requires
        0 <= i <= xs.len(),
        all_among(vm, xs, ys, i, fuel) == Ok::<bool, Raised>(true),
    ensures
        forall|j: int| i <= j < xs.len() ==> found_in(vm, #[trigger] xs[j], ys, fuel),
    decreases xs.len() - i,
{
    if i < xs.len() {
        lemma_found_equal(vm, ys, xs[i], 0, fuel);
        lemma_each_found(vm, xs, ys, i + 1, fuel);
    }
}

/// Members that are all found among as many others, no two at one place, have the
/// same hashes altogether.
proof fn lemma_found_total(vm: VM, xs: Seq<Value>, ys: Seq<Value>, fuel: nat)
    requires
        xs.len() == ys.len(),
        each_found(vm, xs, ys, fuel),
        members_apart(vm, xs, fuel),
        forall|j: int| 0 <= j < xs.len() ==> is_key(vm, #[trigger] xs[j], fuel),
        forall|j: int| 0 <= j < ys.len() ==> is_key(vm, #[trigger] ys[j], fuel),
        forall|j: int|
            0 <= j < xs.len() ==> (hash_of(vm, #[trigger] xs[j], fuel) matches Ok(Some(_))),
        forall|j: int|
            0 <= j < ys.len() ==> (hash_of(vm, #[trigger] ys[j], fuel) matches Ok(Some(_))),
    ensures
        hash_total(vm, xs, fuel) == hash_total(vm, ys, fuel),
    decreases fuel, 1nat, xs.len(),
{
    if xs.len() > 0 {
        let n = xs.len() - 1;
        assert(found_in(vm, xs[n], ys, fuel));
        let k = choose|k: int|
            0 <= k < ys.len() && #[trigger] equal(vm, xs[n], ys[k], fuel) == Ok::<bool, Raised>(
                true,
            );
        let fewer = ys.remove(k);
        let front = xs.drop_last();
        assert forall|i: int| 0 <= i < front.len() implies found_in(
            vm,
            #[trigger] front[i],
            fewer,
            fuel,
        ) by {
            assert(found_in(vm, xs[i], ys, fuel));
            let m = choose|m: int|
                0 <= m < ys.len() && #[trigger] equal(vm, xs[i], ys[m], fuel) == Ok::<bool, Raised>(
                    true,
                );
            assert(m != k);
            if m < k {
                assert(fewer[m] == ys[m]);
            } else {
                assert(fewer[m - 1] == ys[m]);
            }
        }
        assert forall|j: int| 0 <= j < fewer.len() implies is_key(vm, #[trigger] fewer[j], fuel)
            && (hash_of(vm, fewer[j], fuel) matches Ok(Some(_))) by {
            if j < k {
                assert(fewer[j] == ys[j]);
            } else {
                assert(fewer[j] == ys[j + 1]);
            }
        }
        assert forall|j: int| 0 <= j < front.len() implies is_key(vm, #[trigger] front[j], fuel)
            && (hash_of(vm, front[j], fuel) matches Ok(Some(_))) by {
            assert(front[j] == xs[j]);
        }
        lemma_found_total(vm, front, fewer, fuel);
        lemma_key_hash(vm, xs[n], ys[k], fuel);
        lemma_total_without(vm, ys, k, fuel);
    }
}

/// Equal frozen sets have one hash.
proof fn lemma_set_hash(vm: VM, xs: Seq<Value>, ys: Seq<Value>, fuel: nat)
    requires
        xs.len() == ys.len(),
        all_among(vm, xs, ys, 0, fuel) == Ok::<bool, Raised>(true),
        members_apart(vm, xs, fuel),
        forall|j: int| 0 <= j < xs.len() ==> is_key(vm, #[trigger] xs[j], fuel),
        forall|j: int| 0 <= j < ys.len() ==> is_key(vm, #[trigger] ys[j], fuel),
        hash_members(vm, xs, 0, 0, fuel) matches Ok(Some(_)),
        hash_members(vm, ys, 0, 0, fuel) matches Ok(Some(_)),
    ensures
        hash_members(vm, xs, 0, 0, fuel) == hash_members(vm, ys, 0, 0, fuel),
    decreases fuel, 2nat, 0int,
{
    assert(xs.take(0) =~= Seq::empty());
    assert(ys.take(0) =~= Seq::empty());
    lemma_members_total(vm, xs, 0, 0, fuel);
    lemma_members_total(vm, ys, 0, 0, fuel);
    lemma_each_found(vm, xs, ys, 0, fuel);
    lemma_found_total(vm, xs, ys, fuel);
}

pub(crate) proof fn lemma_key_hash(vm: VM, a: Value, b: Value, fuel: nat)
    requires
        is_key(vm, a, fuel),
        is_key(vm, b, fuel),
        equal(vm, a, b, fuel) == Ok::<bool, Raised>(true),
        hash_of(vm, a, fuel) matches Ok(Some(_)),
        hash_of(vm, b, fuel) matches Ok(Some(_)),
    ensures
        hash_of(vm, a, fuel) == hash_of(vm, b, fuel),
    decreases fuel, 0nat, 0int,
{
    if is_plain(vm, a) && is_plain(vm, b) {
        if eq_once(vm, a, b, fuel) == Ok::<Option<bool>, Raised>(Some(true)) {
            lemma_once_hash(vm, a, b, fuel);
        } else {
            lemma_once_hash(vm, b, a, fuel);
        }
    } else {
        match (a, b) {
            (Value::Ref(i), Value::Ref(j)) => {
                if i != j {
                    match (tuple_items(vm.heap.data(i)), tuple_items(vm.heap.data(j))) {
                        (Some(xs), Some(ys)) => {
                            let less = (fuel - 1) as nat;
                            if vm.heap.data(i) is Tuple && vm.heap.data(j) is NamedTuple {
                                lemma_items_hash(vm, ys, xs, 0, Seq::empty(), less);
                            } else {
                                lemma_items_hash(vm, xs, ys, 0, Seq::empty(), less);
                            }
                        },
                        _ => {},
                    }
                    match (vm.heap.data(i), vm.heap.data(j)) {
                        (HeapData::FrozenSet(x), HeapData::FrozenSet(y)) => lemma_set_hash(
                            vm,
                            x.items@,
                            y.items@,
                            (fuel - 1) as nat,
                        ),
                        _ => {},
                    }
                }
            },
            _ => {},
        }
    }
}

/// Equal keys have one hash: what a dictionary holds under a key is found by every
/// key that equals it. Keys are plain values, and tuples and frozen sets of keys.
pub proof fn lemma_equal_keys_hash_alike(vm: VM, a: Value, b: Value)
    requires
        is_key(vm, a, vm.heap.max_depth as nat),
        is_key(vm, b, vm.heap.max_depth as nat),
        vm.values_equal(a, b) == Ok::<bool, Raised>(true),
        vm.value_hash(a) matches Ok(Some(_)),
        vm.value_hash(b) matches Ok(Some(_)),
    ensures
        vm.value_hash(a) == vm.value_hash(b),
{
    lemma_key_hash(vm, a, b, vm.heap.max_depth as nat);
}

} // verus!
