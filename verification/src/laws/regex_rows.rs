//! What `findall` gives for a pattern with several groups.

use vstd::prelude::*;

use crate::args::{raises, ArgValues};
use crate::exception::RunResult;
use crate::heap::{HeapData, HeapId, EMPTY_TUPLE};
use crate::intern::StaticStrings;
use crate::laws::regexes::{
    all_found, lemma_all_found, lemma_with_flags, pattern_called, span_text, takes_text, with_flags,
};
use crate::laws::results::{
    keeps_data, lemma_bounded, lemma_consumed, lemma_object_given, lemma_texts_given, list_items,
    texts_are, tuple_items,
};
use crate::laws::strings::lemma_texts_stay;
use crate::outcome::object_result;
use crate::regex::{regex_all, regex_groups, Span};
use crate::types::containers::List;
use crate::types::path_ops::parts_result;
use crate::types::re_ops::{
    before_fault, engine_error, fault_of, group_rows, list_held, rows_made,
};
use crate::types::re_pattern::RePattern;
use crate::value::{EitherStr, Value};
use crate::vm::VM;

verus! {

/// Whether a value is a tuple of strings with these texts.
pub open spec fn row_held(vm: VM, v: Value, texts: Seq<Seq<char>>) -> bool {
    &&& vm.ok(v)
    &&& tuple_items(vm, v) matches Some(vs)
    &&& vm.all_ok(vs)
    &&& texts_are(vm, vs, texts)
}

proof fn lemma_row_stays(mid: VM, after: VM, v: Value, texts: Seq<Seq<char>>)
    requires
        row_held(mid, v, texts),
        keeps_data(mid, after),
    ensures
        row_held(after, v, texts),
{
    let vs = tuple_items(mid, v)->0;
    let id = v->Ref_0;
    assert(after.entries()[id.0 as int].data == mid.entries()[id.0 as int].data);
    lemma_texts_stay(mid, after, vs, texts);
}

proof fn lemma_row_made(before: VM, after: VM, v: Value, texts: Seq<Seq<char>>)
    requires
        before.interns.wf(),
        before.entries().len() > EMPTY_TUPLE,
        before.entries()[EMPTY_TUPLE as int].data matches HeapData::Tuple(tuple)
            && tuple.items@.len() == 0,
        parts_result(before, after, Ok(v), texts),
    ensures
        row_held(after, v, texts),
        keeps_data(before, after),
{
    lemma_bounded(after);
    if texts.len() > 0 {
        lemma_texts_given(before, after, texts);
        assert forall|i: int| 0 <= i < before.entries().len() implies (
        #[trigger] after.entries()[i]).data == before.entries()[i].data by {}
    }
}

proof fn lemma_rows(states: Seq<VM>, values: Seq<Value>, rows: Seq<Seq<Seq<char>>>, k: int)
    requires
        rows_made(states, values, rows),
        states[0].wf(),
        0 <= k <= values.len(),
    ensures
        keeps_data(states[0], states[k]),
        forall|j: int| 0 <= j < k ==> row_held(states[k], #[trigger] values[j], rows[j]),
    decreases k,
{
    if k > 0 {
        let i = k - 1;
        lemma_rows(states, values, rows, i);
        assert(parts_result(states[i], states[i + 1], Ok(values[i]), rows[i]));
        assert(states[i].entries()[EMPTY_TUPLE as int].data
            == states[0].entries()[EMPTY_TUPLE as int].data);
        assert(states[0].heap.data(HeapId(EMPTY_TUPLE)) is Tuple);
        lemma_row_made(states[i], states[k], values[i], rows[i]);
        assert forall|j: int| 0 <= j < k implies row_held(
            states[k],
            #[trigger] values[j],
            rows[j],
        ) by {
            if j < i {
                lemma_row_stays(states[i], states[k], values[j], rows[j]);
            }
        }
        assert forall|n: int| 0 <= n < states[0].entries().len() implies (
        #[trigger] states[k].entries()[n]).data == states[0].entries()[n].data by {
            assert(states[k].entries()[n].data == states[i].entries()[n].data);
        }
    }
}

/// `findall` of a pattern with several groups gives one tuple for each match, in their
/// order, with the texts of its groups in their order, but for the whole match; a group
/// that took no part has the empty text.
pub proof fn lemma_findall_rows(
    before: VM,
    mid: VM,
    after: VM,
    pattern: RePattern,
    attr: EitherStr,
    args: ArgValues,
    text: Seq<char>,
    r: RunResult<Value>,
)
    requires
        before.wf(),
        takes_text(before, args, text),
        attr.well_known() == Some(StaticStrings::Findall),
        pattern_called(before, mid, after, pattern, attr, args, r),
        r is Ok,
        regex_groups(with_flags(pattern, pattern.text())) > 2,
        all_found(regex_all(with_flags(pattern, pattern.text()), text)),
        forall|j: int|
            0 <= j < regex_all(with_flags(pattern, pattern.text()), text).len() ==> (
            #[trigger] regex_all(with_flags(pattern, pattern.text()), text)[j])->Ok_0.len() > 0,
    ensures
        ({
            let all = regex_all(with_flags(pattern, pattern.text()), text);
            &&& list_items(after, r->Ok_0) matches Some(items)
            &&& items.len() == all.len()
            &&& forall|j: int|
                0 <= j < items.len() ==> row_held(
                    after,
                    #[trigger] items[j],
                    all[j]->Ok_0.skip(1).map_values(|g: Option<Span>| part_text(text, g)),
                )
        }),
{
    lemma_with_flags(pattern, pattern.text());
    let all = regex_all(pattern.engine_text(), text);
    lemma_all_found(all, 0);
    let rows = group_rows(text, before_fault(all));
    let fault = fault_of(all);
    let (states, values) = choose|states: Seq<VM>, values: Seq<Value>|
        #![trigger rows_made(states, values, rows)]
        {
            &&& rows_made(states, values, rows)
            &&& states[0] == before
            &&& if values.len() < rows.len() {
                parts_result(states.last(), mid, r, rows[values.len() as int]) && r is Err
            } else {
                match fault {
                    Some(e) => raises(r, engine_error(e)) && mid == states.last(),
                    None => list_held(states.last(), mid, r, values),
                }
            }
        };
    let made = choose|l: List|
        #![trigger object_result(states.last(), mid, r, HeapData::List(l))]
        l.items@ == values && object_result(states.last(), mid, r, HeapData::List(l));
    lemma_object_given(states.last(), mid, r, HeapData::List(made));
    lemma_consumed(args, mid, after);
    lemma_rows(states, values, rows, values.len() as int);
    assert(after.data_of(r->Ok_0) == mid.data_of(r->Ok_0));
    assert forall|j: int| 0 <= j < values.len() implies row_held(
        after,
        #[trigger] values[j],
        all[j]->Ok_0.skip(1).map_values(|g: Option<Span>| part_text(text, g)),
    ) by {
        lemma_row_stays(states.last(), mid, values[j], rows[j]);
        lemma_row_stays(mid, after, values[j], rows[j]);
        assert(all[j]->Ok_0.len() > 0);
        assert(rows[j] =~= all[j]->Ok_0.skip(1).map_values(
            |g: Option<Span>| part_text(text, g),
        ));
    }
}

/// The text of a group, which is empty where it took no part.
pub open spec fn part_text(text: Seq<char>, group: Option<Span>) -> Seq<char> {
    match group {
        Some(span) => span_text(text, span),
        None => Seq::empty(),
    }
}

} // verus!
