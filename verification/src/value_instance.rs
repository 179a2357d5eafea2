//! Equality and hashes of frozen dataclass instances.

use vstd::prelude::*;
use vstd::set_lib::{lemma_int_range, lemma_len_subset, set_int_range};

use crate::args::Raised;
use crate::heap::{entries_ok, HeapData, HeapId};
use crate::types::dataclass::{lemma_named_place, named_entry, named_place, Dataclass};
use crate::types::path::strings;
use crate::types::str_methods::firsts;
use crate::value::Value;
use crate::value_add::lemma_entry_ok;
use crate::value_eq::{eq_entries, equal, find_equal};
use crate::value_hash::{hash_fields, hash_of, is_key, lemma_key_hash};
use crate::value_order::interned_once;
use crate::vm::VM;

verus! {

/// Whether the keys of attributes are strings, no two of them alike.
pub open spec fn named_once(vm: VM, attrs: Seq<(Value, Value)>) -> bool {
    &&& forall|i: int| 0 <= i < attrs.len() ==> vm.text_of(#[trigger] attrs[i].0) is Some
    &&& forall|i: int, j: int|
        0 <= i < j < attrs.len() ==> vm.text_of(#[trigger] attrs[i].0) != vm.text_of(
            #[trigger] attrs[j].0,
        )
}

/// Strings are equal exactly when their texts are.
proof fn lemma_texts_equal(vm: VM, a: Value, b: Value, fuel: nat)
    requires
        interned_once(vm),
        vm.ok(a),
        vm.ok(b),
        vm.text_of(a) is Some,
        vm.text_of(b) is Some,
    ensures
        equal(vm, a, b, fuel) == Ok::<bool, Raised>(vm.text_of(a) == vm.text_of(b)),
{
    match (a, b) {
        (Value::InternString(x), Value::InternString(y)) => {
            let i = x.0 as int;
            let j = y.0 as int;
            if i < j {
                assert(vm.interns.strings@[i]@ != vm.interns.strings@[j]@);
            } else if j < i {
                assert(vm.interns.strings@[j]@ != vm.interns.strings@[i]@);
            }
        },
        _ => {},
    }
}

/// Among attributes, the first key that equals a string is the first with its text.
proof fn lemma_key_by_text(vm: VM, ys: Seq<(Value, Value)>, k: Value, p: int, fuel: nat)
    requires
        interned_once(vm),
        entries_ok(ys, vm.entries().len(), vm.interns),
        named_once(vm, ys),
        vm.ok(k),
        vm.text_of(k) is Some,
        0 <= p <= ys.len(),
    ensures
        find_equal(vm, firsts(ys), k, p, fuel) == Ok::<int, Raised>(
            named_place(vm, ys, vm.text_of(k)->0, p),
        ),
    decreases ys.len() - p,
{
    if p < ys.len() {
        assert(firsts(ys)[p] == ys[p].0);
        assert(vm.ok(ys[p].0));
        lemma_texts_equal(vm, k, ys[p].0, fuel);
        if vm.text_of(k) != vm.text_of(ys[p].0) {
            lemma_key_by_text(vm, ys, k, p + 1, fuel);
        }
    }
}

/// What is found under a name has that name.
proof fn lemma_found_named(vm: VM, xs: Seq<(Value, Value)>, name: Seq<char>, p: int)
    requires
        0 <= p <= xs.len(),
    ensures
        p <= named_place(vm, xs, name, p) <= xs.len(),
        named_place(vm, xs, name, p) < xs.len() ==> vm.text_of(
            xs[named_place(vm, xs, name, p)].0,
        ) == Some(name),
        forall|j: int|
            p <= j < named_place(vm, xs, name, p) ==> vm.text_of(#[trigger] xs[j].0) != Some(name),
    decreases xs.len() - p,
{
    if p < xs.len() && vm.text_of(xs[p].0) != Some(name) {
        lemma_found_named(vm, xs, name, p + 1);
    }
}

/// Each entry of equal attributes has one with the same name and an equal value.
proof fn lemma_entry_matched(
    vm: VM,
    xs: Seq<(Value, Value)>,
    ys: Seq<(Value, Value)>,
    from: int,
    i: int,
    fuel: nat,
)
    requires
        interned_once(vm),
        entries_ok(xs, vm.entries().len(), vm.interns),
        entries_ok(ys, vm.entries().len(), vm.interns),
        named_once(vm, xs),
        named_once(vm, ys),
        0 <= from <= i < xs.len(),
        eq_entries(vm, xs, ys, from, fuel) == Ok::<bool, Raised>(true),
    ensures
        ({
            let j = named_place(vm, ys, vm.text_of(xs[i].0)->0, 0);
            j < ys.len() && equal(vm, xs[i].1, ys[j].1, fuel) == Ok::<bool, Raised>(true)
        }),
    decreases i - from,
{
    assert(vm.ok(xs[from].0));
    lemma_key_by_text(vm, ys, xs[from].0, 0, fuel);
    if from < i {
        lemma_entry_matched(vm, xs, ys, from + 1, i, fuel);
    }
}

/// Equal attributes have the same names.
proof fn lemma_same_names(
    vm: VM,
    xs: Seq<(Value, Value)>,
    ys: Seq<(Value, Value)>,
    name: Seq<char>,
    fuel: nat,
)
    requires
        interned_once(vm),
        entries_ok(xs, vm.entries().len(), vm.interns),
        entries_ok(ys, vm.entries().len(), vm.interns),
        named_once(vm, xs),
        named_once(vm, ys),
        xs.len() == ys.len(),
        eq_entries(vm, xs, ys, 0, fuel) == Ok::<bool, Raised>(true),
        named_entry(vm, xs, name) is None,
    ensures
        named_entry(vm, ys, name) is None,
{
    let n = xs.len();
    lemma_found_named(vm, xs, name, 0);
    lemma_found_named(vm, ys, name, 0);
    let spare = named_place(vm, ys, name, 0);
    if spare < ys.len() {
        let places = Seq::new(n, |i: int| named_place(vm, ys, vm.text_of(xs[i].0)->0, 0));
        assert forall|i: int| 0 <= i < n implies 0 <= #[trigger] places[i] < n && places[i] != spare
            && vm.text_of(ys[places[i]].0) == vm.text_of(xs[i].0) by {
            lemma_entry_matched(vm, xs, ys, 0, i, fuel);
            assert(vm.text_of(xs[i].0) is Some);
            lemma_found_named(vm, ys, vm.text_of(xs[i].0)->0, 0);
            assert(vm.text_of(xs[i].0) != Some(name));
        }
        assert(places.no_duplicates()) by {
            assert forall|i: int, j: int| 0 <= i < n && 0 <= j < n && i != j implies places[i]
                != places[j] by {
                if i < j {
                    assert(vm.text_of(xs[i].0) != vm.text_of(xs[j].0));
                } else {
                    assert(vm.text_of(xs[j].0) != vm.text_of(xs[i].0));
                }
            }
        }
        places.unique_seq_to_set();
        lemma_int_range(0, n as int);
        let rest = set_int_range(0, n as int).remove(spare);
        assert(places.to_set().subset_of(rest)) by {
            assert forall|p: int| places.to_set().contains(p) implies rest.contains(p) by {
                let i = choose|i: int| 0 <= i < places.len() && places[i] == p;
                assert(0 <= places[i] < n && places[i] != spare);
            }
        }
        lemma_len_subset(places.to_set(), rest);
        assert(false);
    }
}

/// Whether the values of attributes can be keys.
pub open spec fn keyed(vm: VM, attrs: Seq<(Value, Value)>, fuel: nat) -> bool {
    forall|i: int| 0 <= i < attrs.len() ==> is_key(vm, #[trigger] attrs[i].1, fuel)
}

proof fn lemma_fields_hash(
    vm: VM,
    xs: Seq<(Value, Value)>,
    ys: Seq<(Value, Value)>,
    names: Seq<Seq<char>>,
    i: int,
    writes: Seq<Seq<u8>>,
    fuel: nat,
)
    requires
        interned_once(vm),
        entries_ok(xs, vm.entries().len(), vm.interns),
        entries_ok(ys, vm.entries().len(), vm.interns),
        named_once(vm, xs),
        named_once(vm, ys),
        keyed(vm, xs, fuel),
        keyed(vm, ys, fuel),
        xs.len() == ys.len(),
        eq_entries(vm, xs, ys, 0, fuel) == Ok::<bool, Raised>(true),
        0 <= i <= names.len(),
        hash_fields(vm, xs, names, i, writes, fuel) matches Ok(Some(_)),
        hash_fields(vm, ys, names, i, writes, fuel) matches Ok(Some(_)),
    ensures
        hash_fields(vm, xs, names, i, writes, fuel) == hash_fields(vm, ys, names, i, writes, fuel),
    decreases names.len() - i,
{
    if i < names.len() {
        let name = names[i];
        let named = writes + crate::value_hash::text_writes(name);
        lemma_found_named(vm, xs, name, 0);
        match named_entry(vm, xs, name) {
            None => {
                lemma_same_names(vm, xs, ys, name, fuel);
                lemma_fields_hash(vm, xs, ys, names, i + 1, named, fuel);
            },
            Some(v) => {
                let p = named_place(vm, xs, name, 0);
                lemma_entry_matched(vm, xs, ys, 0, p, fuel);
                let q = named_place(vm, ys, name, 0);
                lemma_named_place(vm, ys, name, 0);
                assert(is_key(vm, xs[p].1, fuel) && is_key(vm, ys[q].1, fuel));
                lemma_key_hash(vm, xs[p].1, ys[q].1, fuel);
                match hash_of(vm, v, fuel) {
                    Ok(Some(h)) => {
                        lemma_fields_hash(
                            vm,
                            xs,
                            ys,
                            names,
                            i + 1,
                            named.push(vstd::bytes::spec_u64_to_le_bytes(h)),
                            fuel,
                        );
                    },
                    _ => {},
                }
            },
        }
    }
}

/// Equal frozen instances of one class have one hash, if their attributes can be
/// keys.
pub proof fn lemma_equal_instances_hash_alike(
    vm: VM,
    a: HeapId,
    b: HeapId,
    x: Dataclass,
    y: Dataclass,
)
    requires
        vm.wf(),
        interned_once(vm),
        vm.ok(Value::Ref(a)),
        vm.ok(Value::Ref(b)),
        vm.heap.data(a) == HeapData::Dataclass(x),
        vm.heap.data(b) == HeapData::Dataclass(y),
        x.name.text(vm.interns) == y.name.text(vm.interns),
        strings(x.field_names@) == strings(y.field_names@),
        named_once(vm, x.attrs.entries@),
        named_once(vm, y.attrs.entries@),
        keyed(vm, x.attrs.entries@, (vm.heap.max_depth - 1) as nat),
        keyed(vm, y.attrs.entries@, (vm.heap.max_depth - 1) as nat),
        vm.values_equal(Value::Ref(a), Value::Ref(b)) == Ok::<bool, Raised>(true),
        vm.value_hash(Value::Ref(a)) matches Ok(Some(_)),
        vm.value_hash(Value::Ref(b)) matches Ok(Some(_)),
    ensures
        vm.value_hash(Value::Ref(a)) == vm.value_hash(Value::Ref(b)),
{
    if a != b {
        lemma_entry_ok(vm, a);
        lemma_entry_ok(vm, b);
        let fuel = (vm.heap.max_depth - 1) as nat;
        lemma_fields_hash(
            vm,
            x.attrs.entries@,
            y.attrs.entries@,
            strings(x.field_names@),
            0,
            crate::value_hash::text_writes(x.name.text(vm.interns)),
            fuel,
        );
    }
}

} // verus!
