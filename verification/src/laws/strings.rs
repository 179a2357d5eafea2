//! What the methods of strings give.

use vstd::prelude::*;

use crate::args::ArgValues;
use crate::exception::RunResult;
use crate::intern::StaticStrings;
use crate::laws::results::{
    lemma_consumed, lemma_string_given, lemma_texts_given, list_items, texts_are, tuple_items,
};
use crate::outcome::{realised, Outcome};
use crate::types::str_methods::str_method_outcome;
use crate::value::Value;
use crate::vm::VM;

verus! {

/// Whether a result is that of a call of a method of a string: `mid` is the state
/// before the arguments are dropped.
pub open spec fn str_called(
    before: VM,
    mid: VM,
    after: VM,
    s: Seq<char>,
    method: StaticStrings,
    args: ArgValues,
    r: RunResult<Value>,
) -> bool {
    args.consumed(mid, after) && realised(
        before,
        mid,
        r,
        str_method_outcome(before, s, method, args),
    )
}

/// The text of a result that is a string.
pub open spec fn text_given(after: VM, r: RunResult<Value>) -> Option<Seq<char>> {
    match r {
        Ok(v) => after.text_of(v),
        Err(_) => None,
    }
}

/// Whether a result is a list of strings with these texts.
pub open spec fn texts_listed(after: VM, r: RunResult<Value>, all: Seq<Seq<char>>) -> bool {
    r matches Ok(v) && list_items(after, v) matches Some(vs) && texts_are(after, vs, all)
}

/// Whether a result is a tuple of strings with these texts.
pub open spec fn texts_in_tuple(after: VM, r: RunResult<Value>, all: Seq<Seq<char>>) -> bool {
    r matches Ok(v) && tuple_items(after, v) matches Some(vs) && texts_are(after, vs, all)
}

/// A result that is a text, after the arguments are dropped.
pub proof fn lemma_text_answer(
    before: VM,
    mid: VM,
    after: VM,
    args: ArgValues,
    r: RunResult<Value>,
    text: Seq<char>,
)
    requires
        before.wf(),
        args.consumed(mid, after),
        realised(before, mid, r, Outcome::Text(text)),
        r is Ok,
    ensures
        text_given(after, r) == Some(text),
{
    lemma_string_given(before, mid, r, text);
    lemma_consumed(args, mid, after);
}

/// A result that is a list of texts, after the arguments are dropped.
pub proof fn lemma_texts_answer(
    before: VM,
    mid: VM,
    after: VM,
    args: ArgValues,
    r: RunResult<Value>,
    all: Seq<Seq<char>>,
)
    requires
        before.wf(),
        args.consumed(mid, after),
        realised(before, mid, r, Outcome::Texts(all)),
        r is Ok,
    ensures
        texts_listed(after, r, all),
{
    crate::laws::results::lemma_bounded(mid);
    lemma_consumed(args, mid, after);
    lemma_texts_given(before, mid, all);
    let vs = list_items(mid, r->Ok_0)->0;
    lemma_texts_stay(mid, after, vs, all);
}

/// A result that is a tuple of texts, after the arguments are dropped.
pub proof fn lemma_tuple_answer(
    before: VM,
    mid: VM,
    after: VM,
    args: ArgValues,
    r: RunResult<Value>,
    all: Seq<Seq<char>>,
)
    requires
        before.wf(),
        args.consumed(mid, after),
        realised(before, mid, r, Outcome::TupleOfTexts(all)),
        r is Ok,
    ensures
        texts_in_tuple(after, r, all),
{
    crate::laws::results::lemma_bounded(mid);
    lemma_consumed(args, mid, after);
    lemma_texts_given(before, mid, all);
    let vs = tuple_items(mid, r->Ok_0)->0;
    lemma_texts_stay(mid, after, vs, all);
}

pub(crate) proof fn lemma_texts_stay(mid: VM, after: VM, vs: Seq<Value>, all: Seq<Seq<char>>)
    requires
        texts_are(mid, vs, all),
        crate::laws::results::keeps_data(mid, after),
        mid.all_ok(vs),
    ensures
        texts_are(after, vs, all),
{
    assert forall|i: int| 0 <= i < vs.len() implies after.text_of(#[trigger] vs[i]) == Some(
        all[i],
    ) by {
        assert(mid.text_of(vs[i]) == Some(all[i]));
        assert(mid.ok(vs[i]));
        match vs[i] {
            Value::Ref(id) => {
                assert(after.entries()[id.0 as int].data == mid.entries()[id.0 as int].data);
            },
            _ => {},
        }
    }
}

} // verus!
