//! Python `str`: storage and allocation.

use vstd::prelude::*;

use crate::exception::{ExcType, RunError, RunResult};
use crate::heap::{HeapData, HeapEntry, HeapId};
use crate::intern::{StaticStrings, StringId};
use crate::text::{chars_of, string_of, texts};
use crate::value::Value;
use crate::vm::VM;

verus! {

/// A string in the heap.
#[derive(Debug)]
pub struct Str {
    text: String,
}

impl View for Str {
    type V = Seq<char>;

    closed spec fn view(&self) -> Seq<char> {
        self.text@
    }
}

impl Str {
    /// Wraps a string.
    pub fn new(text: String) -> (r: Str)
        ensures
            r@ == text@,
    {
        Str { text }
    }

    /// The string.
    pub fn as_str(&self) -> (r: &str)
        ensures
            r@ == self@,
    {
        self.text.as_str()
    }
}

/// The interned string for a text that is never put into the heap: an empty
/// text or a single ASCII character.
pub open spec fn short_string(text: Seq<char>) -> Option<StringId> {
    if text.len() == 0 {
        Some(StaticStrings::EmptyString.spec_id())
    } else if text.len() == 1 && (text[0] as u32) < 128 {
        Some(StringId(text[0] as usize))
    } else {
        None
    }
}

/// Whether an entry is a fresh string with the given text.
pub open spec fn is_fresh_str(entry: HeapEntry, text: Seq<char>) -> bool {
    &&& entry.refs == 1
    &&& entry.data matches HeapData::Str(s)
    &&& s@ == text
}

/// Whether an error says that the heap is full.
pub open spec fn heap_full(e: RunError) -> bool {
    e.says(ExcType::MemoryError, "allocation limit exceeded"@)
}

/// Whether a value is the new string `text`: an interned one where there is
/// one, otherwise a new heap entry at the end of the heap.
pub open spec fn new_string(before: VM, after: VM, v: Value, text: Seq<char>) -> bool {
    match short_string(text) {
        Some(id) => v == Value::InternString(id) && after == before,
        None => {
            &&& v == Value::Ref(HeapId(before.entries().len() as usize))
            &&& after.entries().len() == before.entries().len() + 1
            &&& after.grows_from(before)
            &&& is_fresh_str(after.entries().last(), text)
        },
    }
}

/// Whether a result is the new string `text`, or the error for a full heap.
pub open spec fn string_result(
    before: VM,
    after: VM,
    r: RunResult<Value>,
    text: Seq<char>,
) -> bool {
    match r {
        Ok(v) => {
            &&& short_string(text) is Some || before.heap.room() > 0
            &&& new_string(before, after, v, text)
        },
        Err(e) => {
            &&& short_string(text) is None
            &&& before.heap.room() <= 0
            &&& heap_full(e)
            &&& after == before
        },
    }
}

/// Gives a text as a value, interned where it is short.
pub fn allocate_string(text: String, vm: &mut VM) -> (r: RunResult<Value>)
    requires
        old(vm).wf(),
    ensures
        final(vm).wf(),
        r matches Ok(v) ==> final(vm).ok(v),
        string_result(*old(vm), *final(vm), r, text@),
{
    let chars = chars_of(text.as_str());
    if chars.len() == 0 {
        return Ok(Value::InternString(StaticStrings::EmptyString.id()));
    }
    if chars.len() == 1 {
        assert(text@ =~= seq![chars@[0]]);
        return allocate_char(chars[0], vm);
    }
    allocate_string_no_interning(text, vm)
}

/// Whether a result is a new heap entry with the text, or the error for a full heap.
pub open spec fn held_string(before: VM, after: VM, r: RunResult<Value>, text: Seq<char>) -> bool {
    match r {
        Ok(v) => {
            &&& before.heap.room() > 0
            &&& v == Value::Ref(HeapId(before.entries().len() as usize))
            &&& after.entries().len() == before.entries().len() + 1
            &&& after.grows_from(before)
            &&& is_fresh_str(after.entries().last(), text)
        },
        Err(e) => before.heap.room() <= 0 && heap_full(e) && after == before,
    }
}

/// Puts a text into the heap; meant for texts that are never short.
pub fn allocate_string_no_interning(text: String, vm: &mut VM) -> (r: RunResult<Value>)
    requires
        old(vm).wf(),
    ensures
        final(vm).wf(),
        r matches Ok(v) ==> final(vm).ok(v),
        held_string(*old(vm), *final(vm), r, text@),
{
    match vm.allocate(HeapData::Str(Str::new(text))) {
        Ok(id) => {
            assert(old(vm).entries().is_prefix_of(vm.entries()));
            Ok(Value::Ref(id))
        },
        Err(e) => Err(e),
    }
}

/// Gives a single character as a value.
pub fn allocate_char(c: char, vm: &mut VM) -> (r: RunResult<Value>)
    requires
        old(vm).wf(),
    ensures
        final(vm).wf(),
        r matches Ok(v) ==> final(vm).ok(v),
        string_result(*old(vm), *final(vm), r, seq![c]),
{
    if (c as u32) < 128 {
        Ok(Value::InternString(StringId(c as usize)))
    } else {
        let one: Vec<char> = vec![c];
        assert(one@ =~= seq![c]);
        allocate_string_no_interning(string_of(&one), vm)
    }
}

/// The character at an index that counts from the end when negative.
pub open spec fn char_at(s: Seq<char>, index: int) -> Option<char> {
    let place = if index < 0 {
        index + s.len()
    } else {
        index
    };
    if 0 <= place < s.len() {
        Some(s[place])
    } else {
        None
    }
}

/// The character at an index that counts from the end when negative.
pub fn get_char_at_index(s: &str, index: i64) -> (r: Option<char>)
    ensures
        r == char_at(s@, index as int),
{
    let chars = chars_of(s);
    let len: i128 = chars.len() as i128;
    let place: i128 = if index < 0 {
        index as i128 + len
    } else {
        index as i128
    };
    if place < 0 || place >= len {
        None
    } else {
        Some(chars[place as usize])
    }
}

/// The texts that are put into the heap.
pub open spec fn held_texts(all: Seq<Seq<char>>) -> Seq<Seq<char>>
    decreases all.len(),
{
    if all.len() == 0 {
        Seq::empty()
    } else if short_string(all.last()) is Some {
        held_texts(all.drop_last())
    } else {
        held_texts(all.drop_last()).push(all.last())
    }
}

/// The values for texts when the first free heap entry is `start`.
pub open spec fn string_values(start: nat, all: Seq<Seq<char>>) -> Seq<Value>
    decreases all.len(),
{
    if all.len() == 0 {
        Seq::empty()
    } else {
        string_values(start, all.drop_last()).push(
            match short_string(all.last()) {
                Some(id) => Value::InternString(id),
                None => Value::Ref(
                    HeapId((start + held_texts(all.drop_last()).len()) as usize),
                ),
            },
        )
    }
}

/// Whether the entries are those of `before` and then fresh strings with the given texts.
pub open spec fn adds_strings(before: VM, after: VM, held: Seq<Seq<char>>) -> bool {
    &&& after.grows_from(before)
    &&& after.entries().len() == before.entries().len() + held.len()
    &&& forall|k: int|
        0 <= k < held.len() ==> is_fresh_str(
            #[trigger] after.entries()[before.entries().len() + k],
            held[k],
        )
}

/// Whether `n` more entries fit into the heap.
pub open spec fn has_room(vm: VM, n: nat) -> bool {
    n == 0 || vm.heap.room() >= n
}

/// There is a value for each text.
pub proof fn lemma_string_values_len(start: nat, all: Seq<Seq<char>>)
    ensures
        string_values(start, all).len() == all.len(),
    decreases all.len(),
{
    if all.len() > 0 {
        lemma_string_values_len(start, all.drop_last());
    }
}

/// Gives texts as values.
pub fn allocate_strings(pieces: &Vec<Vec<char>>, vm: &mut VM) -> (r: RunResult<Vec<Value>>)
    requires
        old(vm).wf(),
    ensures
        final(vm).wf(),
        match r {
            Ok(vs) => {
                &&& has_room(*old(vm), held_texts(texts(pieces@)).len())
                &&& adds_strings(*old(vm), *final(vm), held_texts(texts(pieces@)))
                &&& vs@ == string_values(old(vm).entries().len(), texts(pieces@))
                &&& final(vm).all_ok(vs@)
            },
            Err(e) => {
                &&& !has_room(*old(vm), held_texts(texts(pieces@)).len())
                &&& heap_full(e)
                &&& final(vm).grows_from(*old(vm))
            },
        },
{
    let mut out: Vec<Value> = Vec::new();
    let ghost all = texts(pieces@);
    let ghost start = old(vm).entries().len();
    proof {
        assert(all.take(0) =~= Seq::empty());
        assert(vm.entries().is_prefix_of(vm.entries()));
    }
    for i in 0..pieces.len()
        invariant
            vm.wf(),
            all == texts(pieces@),
            start == old(vm).entries().len(),
            adds_strings(*old(vm), *vm, held_texts(all.take(i as int))),
            out@ == string_values(start, all.take(i as int)),
            vm.all_ok(out@),
            has_room(*old(vm), held_texts(all.take(i as int)).len()),
    {
        let ghost mid = *vm;
        let text = string_of(&pieces[i]);
        proof {
            assert(all.take(i + 1).drop_last() =~= all.take(i as int));
            assert(all.take(i + 1).last() == text@);
        }
        match allocate_string(text, vm) {
            Ok(v) => {
                proof {
                    let held = held_texts(all.take(i as int));
                    let more = held_texts(all.take(i + 1));
                    assert forall|k: int| 0 <= k < more.len() implies is_fresh_str(
                        #[trigger] vm.entries()[start + k],
                        more[k],
                    ) by {
                        if k < held.len() {
                            assert(is_fresh_str(mid.entries()[start + k], held[k]));
                            assert(vm.entries()[start + k] == mid.entries()[start + k]);
                            assert(more[k] == held[k]);
                        }
                    }
                    assert(old(vm).entries().is_prefix_of(vm.entries()));
                    assert(vm.all_ok(out@));
                }
                out.push(v);
            },
            Err(e) => {
                proof {
                    lemma_held_prefix(all, i + 1);
                }
                return Err(e);
            },
        }
    }
    assert(all.take(all.len() as int) =~= all);
    Ok(out)
}

/// A part of the texts puts at most as many into the heap as all of them.
proof fn lemma_held_prefix(all: Seq<Seq<char>>, k: int)
    requires
        0 <= k <= all.len(),
    ensures
        held_texts(all.take(k)).len() <= held_texts(all).len(),
    decreases all.len(),
{
    if k == all.len() {
        assert(all.take(k) =~= all);
    } else {
        lemma_held_prefix(all.drop_last(), k);
        assert(all.drop_last().take(k) =~= all.take(k));
    }
}

} // verus!
