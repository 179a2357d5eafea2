//! What a result holds once it is in the heap.

use vstd::prelude::*;

use crate::args::ArgValues;
use crate::arith::{list_result, tuple_result};
use crate::exception::RunResult;
use crate::heap::{lemma_with_refs_data, HeapData, HeapId, EMPTY_TUPLE};
use crate::outcome::{bytes_result, object_result};
use crate::release::lemma_released_data;
use crate::types::str::{held_string, held_texts, string_result, string_values};
use crate::value::Value;
use crate::value_int::int_result;
use crate::vm::VM;

verus! {

/// The items of a tuple.
pub open spec fn tuple_items(vm: VM, v: Value) -> Option<Seq<Value>> {
    match vm.data_of(v) {
        Some(HeapData::Tuple(tuple)) => Some(tuple.items@),
        _ => None,
    }
}

/// The items of a list.
pub open spec fn list_items(vm: VM, v: Value) -> Option<Seq<Value>> {
    match vm.data_of(v) {
        Some(HeapData::List(list)) => Some(list.items@),
        _ => None,
    }
}

/// Whether values are strings with these texts.
pub open spec fn texts_are(vm: VM, vs: Seq<Value>, all: Seq<Seq<char>>) -> bool {
    &&& vs.len() == all.len()
    &&& forall|i: int| 0 <= i < vs.len() ==> vm.text_of(#[trigger] vs[i]) == Some(all[i])
}

/// Whether what entries hold is still there.
pub open spec fn keeps_data(before: VM, after: VM) -> bool {
    &&& after.interns == before.interns
    &&& before.entries().len() <= after.entries().len()
    &&& forall|i: int|
        0 <= i < before.entries().len() ==> (#[trigger] after.entries()[i]).data
            == before.entries()[i].data
}

/// A string that was made has its text.
pub proof fn lemma_string_given(before: VM, after: VM, r: RunResult<Value>, text: Seq<char>)
    requires
        before.interns.wf(),
        string_result(before, after, r, text),
        r is Ok,
    ensures
        after.text_of(r->Ok_0) == Some(text),
        keeps_data(before, after),
        after.ok(r->Ok_0),
{
    lemma_bounded(before);
    lemma_bounded(after);
    reveal_strlit("");
    if text.len() == 0 {
        assert(before.interns.strings@[128 + crate::intern::StaticStrings::EmptyString.position()]@
            == crate::intern::StaticStrings::EmptyString.text());
        assert(text =~= ""@);
    } else if text.len() == 1 && (text[0] as u32) < 128 {
        let i = text[0] as u32 as int;
        lemma_code_of(text[0]);
        assert(before.interns.strings@[i]@ == seq![i as char]);
        assert(text =~= seq![i as char]);
    }
    assert forall|i: int| 0 <= i < before.entries().len() implies (#[trigger] after.entries()[i]).data
        == before.entries()[i].data by {
        if after != before {
            assert(before.entries() == after.entries().take(before.entries().len() as int));
            assert(before.entries()[i] == after.entries()[i]);
        }
    }
}

/// The character of a character's code.
proof fn lemma_code_of(c: char)
    ensures
        (c as u32 as int) as char == c,
        c as usize == c as u32,
        0 <= c as u32 as int,
{
}

/// The number of entries is a machine integer.
pub proof fn lemma_bounded(vm: VM)
    ensures
        vm.entries().len() <= usize::MAX,
{
    assert(vm.heap.entries.len() == vm.heap.entries@.len());
}

/// A string that was put into the heap has its text.
pub proof fn lemma_held_string(before: VM, after: VM, r: RunResult<Value>, text: Seq<char>)
    requires
        before.wf(),
        held_string(before, after, r, text),
        r is Ok,
    ensures
        after.text_of(r->Ok_0) == Some(text),
        after.ok(r->Ok_0),
{
    lemma_bounded(after);
}

/// Bytes that were made are these bytes.
pub proof fn lemma_bytes_given(before: VM, after: VM, r: RunResult<Value>, bytes: Seq<u8>)
    requires
        bytes_result(before, after, r, bytes),
        r is Ok,
    ensures
        after.bytes_of(r->Ok_0) == Some(bytes),
{
    lemma_bounded(after);
}

/// An integer that was made is this integer.
pub proof fn lemma_int_given(before: VM, after: VM, r: RunResult<Value>, n: int)
    requires
        int_result(before, after, r, n),
        r is Ok,
    ensures
        after.integer_of(r->Ok_0) == Some(n),
{
    lemma_bounded(after);
}

/// An object that was made is what its value refers to.
pub proof fn lemma_object_given(before: VM, after: VM, r: RunResult<Value>, data: HeapData)
    requires
        object_result(before, after, r, data),
        r is Ok,
    ensures
        after.data_of(r->Ok_0) == Some(data),
        after.ok(r->Ok_0),
        keeps_data(before, after),
{
    lemma_bounded(after);
}

/// A tuple that was made has these items.
pub proof fn lemma_tuple_given(before: VM, after: VM, r: RunResult<Value>, items: Seq<Value>)
    requires
        before.wf(),
        tuple_result(before, after, r, items),
        r is Ok,
    ensures
        tuple_items(after, r->Ok_0) == Some(items),
        keeps_data(before, after),
        after.ok(r->Ok_0),
{
    lemma_bounded(after);
    if items.len() == 0 {
        assert(before.heap.data(HeapId(EMPTY_TUPLE))->Tuple_0.items@ =~= items);
    } else {
        let n = before.entries().len() as int;
        lemma_with_refs_data(before.entries(), items);
        assert forall|i: int| 0 <= i < n implies (#[trigger] after.entries()[i]).data
            == before.entries()[i].data by {
            assert(after.entries()[i] == after.entries().take(n)[i]);
        }
    }
}

/// A list that was made has these items.
pub proof fn lemma_list_given(before: VM, after: VM, r: RunResult<Value>, items: Seq<Value>)
    requires
        list_result(before, after, r, items),
        r is Ok,
    ensures
        list_items(after, r->Ok_0) == Some(items),
        keeps_data(before, after),
        after.ok(r->Ok_0),
{
    lemma_bounded(after);
    let n = before.entries().len() as int;
    lemma_with_refs_data(before.entries(), items);
    assert forall|i: int| 0 <= i < n implies (#[trigger] after.entries()[i]).data
        == before.entries()[i].data by {
        assert(after.entries()[i] == after.entries().take(n)[i]);
    }
}

/// Dropping the arguments leaves what entries hold.
pub proof fn lemma_consumed(args: ArgValues, mid: VM, after: VM)
    requires
        args.consumed(mid, after),
    ensures
        keeps_data(mid, after),
        after.entries().len() == mid.entries().len(),
        forall|v: Value| mid.ok(v) ==> #[trigger] after.text_of(v) == mid.text_of(v),
        forall|v: Value| mid.ok(v) ==> #[trigger] after.bytes_of(v) == mid.bytes_of(v),
        forall|v: Value| mid.ok(v) ==> #[trigger] after.data_of(v) == mid.data_of(v),
        forall|v: Value| mid.ok(v) ==> #[trigger] after.integer_of(v) == mid.integer_of(v),
{
    lemma_released_data(mid.entries(), args.refs());
    assert forall|v: Value| mid.ok(v) implies #[trigger] after.data_of(v) == mid.data_of(v) by {
        match v {
            Value::Ref(id) => {
                assert(after.entries()[id.0 as int].data == mid.entries()[id.0 as int].data);
            },
            _ => {},
        }
    }
    assert forall|v: Value| mid.ok(v) implies #[trigger] after.text_of(v) == mid.text_of(v) by {
        assert(after.data_of(v) == mid.data_of(v));
    }
    assert forall|v: Value| mid.ok(v) implies #[trigger] after.bytes_of(v) == mid.bytes_of(v) by {
        assert(after.data_of(v) == mid.data_of(v));
    }
    assert forall|v: Value| mid.ok(v) implies #[trigger] after.integer_of(v) == mid.integer_of(
        v,
    ) by {
        assert(after.data_of(v) == mid.data_of(v));
    }
}

proof fn lemma_none_missing(
    args: ArgValues,
    params: Seq<Seq<char>>,
    required: int,
    interns: crate::intern::Interns,
    i: int,
)
    requires
        0 <= i,
        required <= args.pos@.len(),
    ensures
        args.first_missing(params, required, interns, i) is None,
    decreases required - i,
{
    if i < required {
        lemma_none_missing(args, params, required, interns, i + 1);
    }
}

proof fn lemma_none_doubled(
    args: ArgValues,
    params: Seq<Seq<char>>,
    interns: crate::intern::Interns,
    i: int,
)
    requires
        args.kwargs@.len() == 0,
    ensures
        args.first_doubled(params, interns, i) is None,
    decreases params.len() - i,
{
    if i < params.len() && i < args.pos@.len() {
        assert(!args.named(params[i], interns));
        lemma_none_doubled(args, params, interns, i + 1);
    }
}

/// Positional arguments fit a signature that takes so many of them.
pub proof fn lemma_positional_fit(
    args: ArgValues,
    signature: crate::arg_binding::Signature,
    params: Seq<Seq<char>>,
    interns: crate::intern::Interns,
)
    requires
        args.kwargs@.len() == 0,
        signature.required <= args.pos@.len() <= signature.max_positional,
        args.pos@.len() <= params.len(),
    ensures
        args.signature_error(signature, params, interns) is None,
{
    lemma_none_missing(args, params, signature.required as int, interns, 0);
    lemma_none_doubled(args, params, interns, 0);
}

/// Where the values of texts lie.
proof fn lemma_value_places(start: nat, all: Seq<Seq<char>>, i: int)
    requires
        0 <= i < all.len(),
    ensures
        string_values(start, all).len() == all.len(),
        held_texts(all).len() <= all.len(),
        match crate::types::str::short_string(all[i]) {
            Some(id) => string_values(start, all)[i] == Value::InternString(id),
            None => exists|k: int|
                0 <= k < held_texts(all).len() && #[trigger] held_texts(all)[k] == all[i]
                    && string_values(start, all)[i] == Value::Ref(HeapId((start + k) as usize)),
        },
    decreases all.len(),
{
    crate::types::str::lemma_string_values_len(start, all.drop_last());
    crate::types::str::lemma_string_values_len(start, all);
    if all.len() > 1 {
        lemma_value_places(start, all.drop_last(), if i == all.len() - 1 {
            0
        } else {
            i
        });
    }
    let n = held_texts(all.drop_last()).len() as int;
    if i == all.len() - 1 {
        if crate::types::str::short_string(all[i]) is None {
            assert(held_texts(all)[n] == all[i]);
        }
    } else {
        if crate::types::str::short_string(all[i]) is None {
            let k = choose|k: int|
                0 <= k < held_texts(all.drop_last()).len() && #[trigger] held_texts(
                    all.drop_last(),
                )[k] == all.drop_last()[i] && string_values(start, all.drop_last())[i]
                    == Value::Ref(HeapId((start + k) as usize));
            assert(held_texts(all)[k] == all[i]);
        }
        assert(string_values(start, all)[i] == string_values(start, all.drop_last())[i]);
    }
}

/// The values of texts that were put into the heap have their texts.
pub proof fn lemma_texts_given(before: VM, after: VM, all: Seq<Seq<char>>)
    requires
        before.interns.wf(),
        after.interns == before.interns,
        before.entries().len() + held_texts(all).len() <= after.entries().len(),
        forall|k: int|
            0 <= k < held_texts(all).len() ==> crate::types::str::is_fresh_str(
                #[trigger] after.entries()[before.entries().len() + k],
                held_texts(all)[k],
            ),
    ensures
        texts_are(after, string_values(before.entries().len(), all), all),
        after.all_ok(string_values(before.entries().len(), all)),
{
    lemma_bounded(after);
    reveal_strlit("");
    let start = before.entries().len();
    let vs = string_values(start, all);
    crate::types::str::lemma_string_values_len(start, all);
    assert forall|i: int| 0 <= i < vs.len() implies after.text_of(#[trigger] vs[i]) == Some(
        all[i],
    ) && after.ok(vs[i]) by {
        lemma_value_places(start, all, i);
        match crate::types::str::short_string(all[i]) {
            Some(id) => {
                if all[i].len() == 0 {
                    assert(before.interns.strings@[128
                        + crate::intern::StaticStrings::EmptyString.position()]@
                        == crate::intern::StaticStrings::EmptyString.text());
                    assert(all[i] =~= ""@);
                } else {
                    let c = all[i][0] as u32 as int;
                    lemma_code_of(all[i][0]);
                    assert(before.interns.strings@[c]@ == seq![c as char]);
                    assert(all[i] =~= seq![c as char]);
                }
            },
            None => {
                let k = choose|k: int|
                    0 <= k < held_texts(all).len() && #[trigger] held_texts(all)[k] == all[i]
                        && vs[i] == Value::Ref(HeapId((start + k) as usize));
                assert(crate::types::str::is_fresh_str(
                    after.entries()[start + k],
                    held_texts(all)[k],
                ));
            },
        }
    }
}

} // verus!
