//! Matching, splitting and replacing with regular expressions.

use vstd::prelude::*;

use crate::args::{raises, Raised};
use crate::arith::memory_error;
use crate::exception::{ExcType, RunError, RunResult};
use crate::heap::HeapData;
use crate::outcome::{allocate_object, allocate_string_list, allocate_string_tuple, object_result, realised, Outcome};
use crate::regex::{
    all, all_of, begins_at_start, ends_at_end, finds, first, first_of, groups, has_pair, piece_count,
    pieces_of, regex_all, replace_by, replace_matches, starts_with_first, regex_finds, regex_first,
    regex_groups, regex_replacements, regex_split, regex_splitn, replacements, replacements_of,
    settles, spans_of, split, splitn, Groups, Replacement, Span,
};
use crate::regex_bounds::{tame_template, tamed};
use crate::text::{chars_of, push_range, string_of, sub_chars, texts};
use crate::types::containers::List;
use crate::types::path_ops::parts_result;
use crate::types::re_match::{allocate_match, match_result, ReMatch};
use crate::types::re_pattern::{at_both_ends, at_start, full_pattern, lemma_flags_settle, RePattern};
use crate::types::re_template::{engine_template, translate_replacement};
use crate::types::str::{
    adds_strings, allocate_string, allocate_strings, has_room, heap_full, held_texts,
    string_result,
};
use crate::types::str_format::{lemma_utf8_size_concat, utf8_size, width_of};
use crate::utf8::{
    char_place, find_place, lemma_place_of_offset, lemma_utf8_size, text_between,
};
use crate::value::Value;
use crate::vm::VM;

verus! {

/// The error that the engine ran into.
pub open spec fn engine_error(e: Seq<char>) -> Raised {
    (ExcType::PatternError, e)
}

/// Whether a result is the first match that the engine found, as a new object.
pub open spec fn first_match_done(
    before: VM,
    after: VM,
    r: RunResult<Value>,
    found: Result<Option<Seq<Option<Span>>>, Seq<char>>,
    pattern: Seq<char>,
    text: Seq<char>,
) -> bool {
    match found {
        Err(e) => raises(r, engine_error(e)) && after == before,
        Ok(None) => r == Ok::<Value, RunError>(Value::PyNone) && after == before,
        Ok(Some(groups)) => match_result(before, after, r, pattern, text, groups),
    }
}

/// The first match as a new object, from what the engine found.
pub fn first_match(
    found: Result<Option<Groups>, String>,
    pattern: &str,
    text: &str,
    vm: &mut VM,
) -> (r: RunResult<Value>)
    requires
        old(vm).wf(),
    ensures
        final(vm).wf(),
        r matches Ok(v) ==> final(vm).ok(v),
        first_match_done(*old(vm), *final(vm), r, first_of(found), pattern@, text@),
{
    match found {
        Err(e) => Err(RunError::new_msg(ExcType::PatternError, e)),
        Ok(None) => Ok(Value::PyNone),
        Ok(Some(groups)) => allocate_match(pattern, text, groups, vm),
    }
}

/// The place of the first error from `i` on, or the length.
pub open spec fn first_fault<T>(found: Seq<Result<T, Seq<char>>>, i: int) -> int
    decreases found.len() - i,
{
    if i < found.len() && found[i] is Ok {
        first_fault(found, i + 1)
    } else {
        i
    }
}

/// What was found before the first error.
pub open spec fn before_fault<T>(found: Seq<Result<T, Seq<char>>>) -> Seq<T> {
    Seq::new(first_fault(found, 0) as nat, |i: int| found[i]->Ok_0)
}

/// The first error.
pub open spec fn fault_of<T>(found: Seq<Result<T, Seq<char>>>) -> Option<Seq<char>> {
    let n = first_fault(found, 0);
    if n < found.len() {
        Some(found[n]->Err_0)
    } else {
        None
    }
}

/// The text of a group; empty if it took no part.
pub open spec fn group_text(text: Seq<char>, group: Option<Span>) -> Seq<char> {
    match group {
        Some(span) => text_between(text, span.0 as int, span.1 as int),
        None => Seq::empty(),
    }
}

/// The text of the only group besides the whole match.
pub open spec fn only_group(text: Seq<char>, groups: Seq<Option<Span>>) -> Seq<char> {
    if groups.len() > 1 {
        group_text(text, groups[1])
    } else {
        Seq::empty()
    }
}

/// The texts of the groups besides the whole match.
pub open spec fn group_texts(text: Seq<char>, groups: Seq<Option<Span>>) -> Seq<Seq<char>> {
    Seq::new(
        (if groups.len() > 0 {
            groups.len() - 1
        } else {
            0
        }) as nat,
        |i: int| group_text(text, groups[i + 1]),
    )
}

/// The texts of matches.
pub open spec fn match_texts(text: Seq<char>, spans: Seq<Span>) -> Seq<Seq<char>> {
    spans.map_values(|s: Span| text_between(text, s.0 as int, s.1 as int))
}

/// The texts of the only group of matches.
pub open spec fn only_groups(text: Seq<char>, all: Seq<Seq<Option<Span>>>) -> Seq<Seq<char>> {
    all.map_values(|g: Seq<Option<Span>>| only_group(text, g))
}

/// The texts of the groups of matches.
pub open spec fn group_rows(text: Seq<char>, all: Seq<Seq<Option<Span>>>) -> Seq<Seq<Seq<char>>> {
    all.map_values(|g: Seq<Option<Span>>| group_texts(text, g))
}

fn span_text(chars: &[char], from: usize, to: usize) -> (r: Vec<char>)
    ensures
        r@ == text_between(chars@, from as int, to as int),
{
    let a: usize = find_place(chars, from);
    let b: usize = find_place(chars, to);
    if a < b {
        sub_chars(chars, a, b)
    } else {
        Vec::new()
    }
}

fn one_group(chars: &[char], groups: &Groups, i: usize) -> (r: Vec<char>)
    requires
        i < groups@.len(),
    ensures
        r@ == group_text(chars@, groups@[i as int]),
{
    match groups[i] {
        Some(span) => span_text(chars, span.0, span.1),
        None => Vec::new(),
    }
}

fn row_of(chars: &[char], groups: &Groups) -> (r: Vec<Vec<char>>)
    ensures
        texts(r@) == group_texts(chars@, groups@),
{
    let mut out: Vec<Vec<char>> = Vec::new();
    let mut i: usize = 1;
    while i < groups.len()
        invariant
            1 <= i,
            groups@.len() > 0 ==> i <= groups@.len(),
            groups@.len() == 0 ==> i == 1,
            out@.len() == i - 1,
            forall|j: int|
                0 <= j < i - 1 ==> (#[trigger] out@[j])@ == group_text(chars@, groups@[j + 1]),
        decreases groups@.len() - i,
    {
        out.push(one_group(chars, groups, i));
        i = i + 1;
    }
    assert(texts(out@) =~= group_texts(chars@, groups@));
    out
}

/// What an optional message says.
pub open spec fn message(fault: Option<String>) -> Option<Seq<char>> {
    match fault {
        Some(e) => Some(e@),
        None => None,
    }
}

/// The texts of matches up to the first error, and that error.
fn texts_of_matches(chars: &[char], found: &Vec<Result<Span, String>>) -> (r: (
    Vec<Vec<char>>,
    Option<String>,
))
    ensures
        texts(r.0@) == match_texts(chars@, before_fault(spans_of(found@))),
        message(r.1) == fault_of(spans_of(found@)),
{
    let ghost seen = spans_of(found@);
    let mut out: Vec<Vec<char>> = Vec::new();
    let mut i: usize = 0;
    while i < found.len()
        invariant
            i <= found@.len(),
            seen == spans_of(found@),
            first_fault(seen, 0) == first_fault(seen, i as int),
            out@.len() == i,
            forall|j: int| 0 <= j < i ==> #[trigger] seen[j] is Ok,
            forall|j: int|
                0 <= j < i ==> (#[trigger] out@[j])@ == text_between(
                    chars@,
                    (seen[j]->Ok_0).0 as int,
                    (seen[j]->Ok_0).1 as int,
                ),
        decreases found@.len() - i,
    {
        match &found[i] {
            Ok(span) => {
                assert(seen[i as int] == Ok::<Span, Seq<char>>(*span));
                out.push(span_text(chars, span.0, span.1));
            },
            Err(e) => {
                assert(texts(out@) =~= match_texts(chars@, before_fault(seen)));
                return (out, Some(e.clone()));
            },
        }
        i = i + 1;
    }
    assert(texts(out@) =~= match_texts(chars@, before_fault(seen)));
    (out, None)
}

/// The texts of the only group of matches up to the first error, and that error.
fn texts_of_groups(chars: &[char], found: &Vec<Result<Groups, String>>) -> (r: (
    Vec<Vec<char>>,
    Option<String>,
))
    ensures
        texts(r.0@) == only_groups(chars@, before_fault(all_of(found@))),
        message(r.1) == fault_of(all_of(found@)),
{
    let ghost seen = all_of(found@);
    let mut out: Vec<Vec<char>> = Vec::new();
    let mut i: usize = 0;
    while i < found.len()
        invariant
            i <= found@.len(),
            seen == all_of(found@),
            first_fault(seen, 0) == first_fault(seen, i as int),
            out@.len() == i,
            forall|j: int| 0 <= j < i ==> #[trigger] seen[j] is Ok,
            forall|j: int|
                0 <= j < i ==> (#[trigger] out@[j])@ == only_group(
                    chars@,
                    seen[j]->Ok_0,
                ),
        decreases found@.len() - i,
    {
        match &found[i] {
            Ok(groups) => {
                assert(seen[i as int] == Ok::<Seq<Option<Span>>, Seq<char>>(groups@));
                if groups.len() > 1 {
                    out.push(one_group(chars, groups, 1));
                } else {
                    out.push(Vec::new());
                }
            },
            Err(e) => {
                assert(texts(out@) =~= only_groups(chars@, before_fault(seen)));
                return (out, Some(e.clone()));
            },
        }
        i = i + 1;
    }
    assert(texts(out@) =~= only_groups(chars@, before_fault(seen)));
    (out, None)
}

/// Whether a result is a list of texts; with an error of the engine after them,
/// whether it is that error, or the error for a heap that is full before.
pub open spec fn texts_found(
    before: VM,
    after: VM,
    r: RunResult<Value>,
    all: Seq<Seq<char>>,
    fault: Option<Seq<char>>,
) -> bool {
    match fault {
        None => realised(before, after, r, Outcome::Texts(all)),
        Some(e) => after.grows_from(before) && if has_room(before, held_texts(all).len()) {
            raises(r, engine_error(e)) && adds_strings(before, after, held_texts(all))
        } else {
            r matches Err(x) && heap_full(x)
        },
    }
}

fn list_texts(pieces: &Vec<Vec<char>>, fault: Option<String>, vm: &mut VM) -> (r: RunResult<Value>)
    requires
        old(vm).wf(),
    ensures
        final(vm).wf(),
        r matches Ok(v) ==> final(vm).ok(v),
        texts_found(*old(vm), *final(vm), r, texts(pieces@), message(fault)),
{
    match fault {
        None => allocate_string_list(pieces, vm),
        Some(e) => match allocate_strings(pieces, vm) {
            Ok(_) => Err(RunError::new_msg(ExcType::PatternError, e)),
            Err(x) => Err(x),
        },
    }
}

/// Whether the values are tuples of texts, made one after the other; `states` are
/// the states between.
pub open spec fn rows_made(states: Seq<VM>, values: Seq<Value>, rows: Seq<Seq<Seq<char>>>) -> bool {
    &&& states.len() == values.len() + 1
    &&& values.len() <= rows.len()
    &&& forall|i: int|
        0 <= i < values.len() ==> parts_result(
            states[i],
            #[trigger] states[i + 1],
            Ok(values[i]),
            rows[i],
        )
}

/// Whether a result is a new list that takes over the items, or the heap is full.
pub open spec fn list_held(before: VM, after: VM, r: RunResult<Value>, items: Seq<Value>) -> bool {
    exists|list: List|
        #![trigger object_result(before, after, r, HeapData::List(list))]
        list.items@ == items && object_result(before, after, r, HeapData::List(list))
}

/// Whether a result is a list of tuples of texts; with an error of the engine
/// after them, whether it is that error; or whether the heap is full.
pub open spec fn rows_found(
    before: VM,
    after: VM,
    r: RunResult<Value>,
    rows: Seq<Seq<Seq<char>>>,
    fault: Option<Seq<char>>,
) -> bool {
    exists|states: Seq<VM>, values: Seq<Value>|
        #![trigger rows_made(states, values, rows)]
        {
            &&& rows_made(states, values, rows)
            &&& states[0] == before
            &&& if values.len() < rows.len() {
                parts_result(states.last(), after, r, rows[values.len() as int]) && r is Err
            } else {
                match fault {
                    Some(e) => raises(r, engine_error(e)) && after == states.last(),
                    None => list_held(states.last(), after, r, values),
                }
            }
        }
}

fn tuple_of_texts(pieces: &Vec<Vec<char>>, vm: &mut VM) -> (r: RunResult<Value>)
    requires
        old(vm).wf(),
    ensures
        final(vm).wf(),
        r matches Ok(v) ==> final(vm).ok(v),
        final(vm).same_setting(*old(vm)),
        final(vm).entries().len() >= old(vm).entries().len(),
        parts_result(*old(vm), *final(vm), r, texts(pieces@)),
{
    if pieces.len() == 0 {
        return Ok(vm.get_empty_tuple());
    }
    allocate_string_tuple(pieces, vm)
}

fn list_rows(chars: &[char], found: &Vec<Result<Groups, String>>, vm: &mut VM) -> (r: RunResult<
    Value,
>)
    requires
        old(vm).wf(),
    ensures
        final(vm).wf(),
        final(vm).same_setting(*old(vm)),
        final(vm).entries().len() >= old(vm).entries().len(),
        r matches Ok(v) ==> final(vm).ok(v),
        rows_found(
            *old(vm),
            *final(vm),
            r,
            group_rows(chars@, before_fault(all_of(found@))),
            fault_of(all_of(found@)),
        ),
{
    let ghost seen = all_of(found@);
    let ghost rows = group_rows(chars@, before_fault(seen));
    let mut values: Vec<Value> = Vec::new();
    let ghost mut states: Seq<VM> = seq![*vm];
    let mut i: usize = 0;
    while i < found.len()
        invariant
            i <= found@.len(),
            vm.wf(),
            vm.same_setting(*old(vm)),
            vm.entries().len() >= old(vm).entries().len(),
            vm.all_ok(values@),
            seen == all_of(found@),
            rows == group_rows(chars@, before_fault(seen)),
            first_fault(seen, 0) == first_fault(seen, i as int),
            forall|j: int| 0 <= j < i ==> #[trigger] seen[j] is Ok,
            values@.len() == i,
            states.len() == values@.len() + 1,
            states[0] == *old(vm),
            states.last() == *vm,
            forall|j: int|
                0 <= j < i ==> parts_result(
                    states[j],
                    #[trigger] states[j + 1],
                    Ok(values@[j]),
                    group_texts(chars@, seen[j]->Ok_0),
                ),
        decreases found@.len() - i,
    {
        match &found[i] {
            Ok(groups) => {
                proof {
                    lemma_fault_after(seen, i + 1);
                }
                let row = row_of(chars, groups);
                let ghost before = *vm;
                match tuple_of_texts(&row, vm) {
                    Err(e) => {
                        proof {
                            assert(rows[i as int] == group_texts(chars@, seen[i as int]->Ok_0));
                            assert(rows_made(states, values@, rows));
                        }
                        return Err(e);
                    },
                    Ok(v) => {
                        proof {
                            let more = states.push(*vm);
                            let longer = values@.push(v);
                            assert forall|j: int| 0 <= j < i + 1 implies parts_result(
                                more[j],
                                #[trigger] more[j + 1],
                                Ok(longer[j]),
                                group_texts(chars@, seen[j]->Ok_0),
                            ) by {
                                if j < i {
                                    assert(more[j + 1] == states[j + 1]);
                                }
                            }
                            states = more;
                        }
                        values.push(v);
                    },
                }
            },
            Err(e) => {
                assert(rows_made(states, values@, rows));
                return Err(RunError::new_msg(ExcType::PatternError, e.clone()));
            },
        }
        i = i + 1;
    }
    let ghost items = values@;
    assert(rows_made(states, items, rows));
    let ghost before = *vm;
    let list = List::new(values);
    let ghost made = list;
    let r = allocate_object(HeapData::List(list), vm);
    assert(object_result(before, *vm, r, HeapData::List(made)));
    assert(list_held(before, *vm, r, items));
    r
}

/// The first error is not before the places that are none.
proof fn lemma_fault_after<T>(found: Seq<Result<T, Seq<char>>>, i: int)
    requires
        0 <= i <= found.len(),
    ensures
        i <= first_fault(found, i) <= found.len(),
    decreases found.len() - i,
{
    if i < found.len() && found[i] is Ok {
        lemma_fault_after(found, i + 1);
    }
}


/// What a substitution gives: the text with the replacements in the places of the
/// matches, unless the engine runs into an error, or the text so far and what is
/// left are too large together.
pub open spec fn substituted(
    text: Seq<char>,
    found: Seq<Result<(usize, usize, Seq<char>), Seq<char>>>,
    max_bytes: int,
    i: int,
    last_end: int,
    made: Seq<char>,
) -> Result<Seq<char>, Raised>
    decreases found.len() - i,
{
    if i >= found.len() {
        Ok(made + text_between(text, last_end, utf8_size(text)))
    } else {
        match found[i] {
            Err(e) => Err(engine_error(e)),
            Ok((start, end, replacement)) => {
                let more = made + text_between(text, last_end, start as int) + replacement;
                if utf8_size(more) + left_after(text, end as int) > max_bytes {
                    Err(memory_error())
                } else {
                    substituted(text, found, max_bytes, i + 1, end as int, more)
                }
            },
        }
    }
}

/// The bytes of a text after an offset.
pub open spec fn left_after(text: Seq<char>, offset: int) -> int {
    if offset < utf8_size(text) {
        utf8_size(text) - offset
    } else {
        0
    }
}

/// The first so many replacements, or all where the count is zero.
pub open spec fn chosen<T>(found: Seq<T>, count: usize) -> Seq<T> {
    if count == 0 || count >= found.len() {
        found
    } else {
        found.take(count as int)
    }
}

/// Whether a result is a new text, or an error.
pub open spec fn text_made(
    before: VM,
    after: VM,
    r: RunResult<Value>,
    made: Result<Seq<char>, Raised>,
) -> bool {
    match made {
        Ok(text) => string_result(before, after, r, text),
        Err(e) => raises(r, e) && after == before,
    }
}

/// A text takes at most four bytes for each of its characters.
proof fn lemma_size_bound(s: Seq<char>)
    ensures
        0 <= utf8_size(s) <= 4 * s.len(),
    decreases s.len(),
{
    if s.len() > 0 {
        lemma_size_bound(s.drop_last());
    }
}

fn size_of(chars: &[char]) -> (r: u128)
    ensures
        r == utf8_size(chars@),
{
    let mut size: u128 = 0;
    assert(chars@.take(0) =~= Seq::empty());
    for i in 0..chars.len()
        invariant
            size == utf8_size(chars@.take(i as int)),
            size <= 4 * i,
    {
        assert(chars@.take(i + 1).drop_last() =~= chars@.take(i as int));
        size = size + width_of(chars[i]) as u128;
    }
    assert(chars@.take(chars@.len() as int) =~= chars@);
    size
}

/// The text with the replacements in the places of the matches, all of them or so
/// many.
pub fn substitute(
    text: &str,
    found: &Vec<Result<Replacement, String>>,
    count: usize,
    vm: &mut VM,
) -> (r: RunResult<Value>)
    requires
        old(vm).wf(),
    ensures
        final(vm).wf(),
        r matches Ok(v) ==> final(vm).ok(v),
        text_made(
            *old(vm),
            *final(vm),
            r,
            substituted(
                text@,
                chosen(replacements_of(found@), count),
                old(vm).heap.max_bytes as int,
                0,
                0,
                Seq::empty(),
            ),
        ),
{
    let chars = chars_of(text);
    let total: u128 = size_of(&chars);
    let ghost seen = chosen(replacements_of(found@), count);
    let end: usize = if count == 0 || count >= found.len() {
        found.len()
    } else {
        count
    };
    let ghost goal = substituted(
        text@,
        seen,
        vm.heap.max_bytes as int,
        0,
        0,
        Seq::empty(),
    );
    let mut out: Vec<char> = Vec::new();
    let mut size: u128 = 0;
    let mut last_end: usize = 0;
    let mut i: usize = 0;
    while i < end
        invariant
            i <= end <= found@.len(),
            end == seen.len(),
            vm.wf(),
            *vm == *old(vm),
            chars@ == text@,
            total == utf8_size(text@),
            size == utf8_size(out@),
            seen == chosen(replacements_of(found@), count),
            goal == substituted(
                text@,
                seen,
                vm.heap.max_bytes as int,
                0,
                0,
                Seq::empty(),
            ),
            goal == substituted(
                text@,
                seen,
                vm.heap.max_bytes as int,
                i as int,
                last_end as int,
                out@,
            ),
        decreases end - i,
    {
        match &found[i] {
            Err(e) => {
                assert(seen[i as int] == Err::<(usize, usize, Seq<char>), Seq<char>>(e@));
                return Err(RunError::new_msg(ExcType::PatternError, e.clone()));
            },
            Ok(one) => {
                assert(seen[i as int] == Ok::<(usize, usize, Seq<char>), Seq<char>>(
                    (one.0, one.1, one.2@),
                ));
                let ghost made = out@;
                let mut gap = span_text(&chars, last_end, one.0);
                let mut replacement = chars_of(one.2.as_str());
                proof {
                    lemma_utf8_size_concat(made, gap@);
                    lemma_utf8_size_concat(made + gap@, replacement@);
                    lemma_size_bound(made);
                    lemma_size_bound(gap@);
                    lemma_size_bound(replacement@);
                    lemma_size_bound(text@);
                    assert(made.len() == out.len() && text@.len() == chars.len());
                    assert(gap@.len() == gap.len() && replacement@.len() == replacement.len());
                }
                size = size + size_of(&gap) + size_of(&replacement);
                out.append(&mut gap);
                out.append(&mut replacement);
                last_end = one.1;
                let left: u128 = if (last_end as u128) < total {
                    total - last_end as u128
                } else {
                    0
                };
                match vm.check_size(size + left) {
                    Ok(_) => {},
                    Err(e) => {
                        return Err(e);
                    },
                }
            },
        }
        i = i + 1;
    }
    let ghost made = out@;
    let a: usize = find_place(&chars, last_end);
    proof {
        lemma_whole_size(text@);
    }
    push_range(&mut out, &chars, a, chars.len());
    proof {
        let tail = text_between(text@, last_end as int, utf8_size(text@));
        assert(out@ =~= made + tail);
    }
    allocate_string(string_of(&out), vm)
}

/// The end of a text is found by its size.
proof fn lemma_whole_size(text: Seq<char>)
    ensures
        char_place(text, utf8_size(text)) == text.len(),
{
    lemma_utf8_size(text);
    assert(text.take(text.len() as int) =~= text);
    lemma_place_of_offset(text, text.len() as int);
}

/// Without a match, a substitution gives the text back.
pub proof fn lemma_no_match_keeps_text(text: Seq<char>, max_bytes: int)
    ensures
        substituted(text, Seq::empty(), max_bytes, 0, 0, Seq::empty()) == Ok::<Seq<char>, Raised>(
            text,
        ),
{
    lemma_whole_size(text);
    lemma_place_of_offset(text, 0);
    assert(text.take(0) =~= Seq::empty());
    assert(Seq::<char>::empty() + text_between(text, 0, utf8_size(text)) =~= text);
}

/// Whether a result is a list of pieces, or the error of the engine.
pub open spec fn pieces_listed(
    before: VM,
    after: VM,
    r: RunResult<Value>,
    found: Result<Seq<Seq<char>>, Seq<char>>,
) -> bool {
    match found {
        Ok(pieces) => realised(before, after, r, Outcome::Texts(pieces)),
        Err(e) => raises(r, engine_error(e)) && after == before,
    }
}

/// Whether there are as many pieces as matches and one more, or one more than the
/// number of splits where that is less.
pub open spec fn pieces_counted(pattern: Seq<char>, text: Seq<char>, maxsplit: usize) -> bool {
    if maxsplit == 0 {
        regex_split(pattern, text) matches Ok(pieces) ==> pieces.len() == piece_count(
            regex_finds(pattern, text).len(),
            None,
        )
    } else {
        regex_splitn(pattern, text, (maxsplit + 1) as usize) matches Ok(pieces) ==> pieces.len()
            == piece_count(regex_finds(pattern, text).len(), Some((maxsplit + 1) as usize))
    }
}

/// A list of the pieces that the engine gave.
pub fn list_pieces(found: Result<Vec<String>, String>, vm: &mut VM) -> (r: RunResult<Value>)
    requires
        old(vm).wf(),
    ensures
        final(vm).wf(),
        r matches Ok(v) ==> final(vm).ok(v),
        pieces_listed(*old(vm), *final(vm), r, pieces_of(found)),
{
    match found {
        Err(e) => Err(RunError::new_msg(ExcType::PatternError, e)),
        Ok(pieces) => {
            let mut out: Vec<Vec<char>> = Vec::new();
            for i in 0..pieces.len()
                invariant
                    out@.len() == i,
                    forall|j: int| 0 <= j < i ==> (#[trigger] out@[j])@ == pieces@[j]@,
            {
                out.push(chars_of(pieces[i].as_str()));
            }
            assert(texts(out@) =~= pieces@.map_values(|s: String| s@));
            allocate_string_list(&out, vm)
        },
    }
}

/// Whether the values are matches, made one after the other; `states` are the
/// states between.
pub open spec fn matches_made(
    states: Seq<VM>,
    values: Seq<Value>,
    pattern: Seq<char>,
    text: Seq<char>,
    found: Seq<Seq<Option<Span>>>,
) -> bool {
    &&& states.len() == values.len() + 1
    &&& values.len() <= found.len()
    &&& forall|i: int|
        0 <= i < values.len() ==> match_result(
            states[i],
            #[trigger] states[i + 1],
            Ok(values[i]),
            pattern,
            text,
            found[i],
        )
}

/// Whether a result is a list of a new match for each that was found; with an error
/// of the engine after them, whether it is that error; or whether the heap is full.
pub open spec fn matches_done(
    before: VM,
    after: VM,
    r: RunResult<Value>,
    pattern: Seq<char>,
    text: Seq<char>,
    found: Seq<Seq<Option<Span>>>,
    fault: Option<Seq<char>>,
) -> bool {
    exists|states: Seq<VM>, values: Seq<Value>|
        #![trigger matches_made(states, values, pattern, text, found)]
        {
            &&& matches_made(states, values, pattern, text, found)
            &&& states[0] == before
            &&& if values.len() < found.len() {
                match_result(states.last(), after, r, pattern, text, found[values.len() as int])
                    && r is Err
            } else {
                match fault {
                    Some(e) => raises(r, engine_error(e)) && after == states.last(),
                    None => list_held(states.last(), after, r, values),
                }
            }
        }
}

/// A list of a new match for each that the engine found.
pub fn list_all_matches(
    found: &Vec<Result<Groups, String>>,
    pattern: &str,
    text: &str,
    vm: &mut VM,
) -> (r: RunResult<Value>)
    requires
        old(vm).wf(),
    ensures
        final(vm).wf(),
        final(vm).same_setting(*old(vm)),
        final(vm).entries().len() >= old(vm).entries().len(),
        r matches Ok(v) ==> final(vm).ok(v),
        matches_done(
            *old(vm),
            *final(vm),
            r,
            pattern@,
            text@,
            before_fault(all_of(found@)),
            fault_of(all_of(found@)),
        ),
{
    let ghost seen = all_of(found@);
    let ghost good = before_fault(seen);
    let mut values: Vec<Value> = Vec::new();
    let ghost mut states: Seq<VM> = seq![*vm];
    let mut i: usize = 0;
    while i < found.len()
        invariant
            i <= found@.len(),
            vm.wf(),
            vm.same_setting(*old(vm)),
            vm.entries().len() >= old(vm).entries().len(),
            vm.all_ok(values@),
            seen == all_of(found@),
            good == before_fault(seen),
            first_fault(seen, 0) == first_fault(seen, i as int),
            forall|j: int| 0 <= j < i ==> #[trigger] seen[j] is Ok,
            values@.len() == i,
            states.len() == values@.len() + 1,
            states[0] == *old(vm),
            states.last() == *vm,
            forall|j: int|
                0 <= j < i ==> match_result(
                    states[j],
                    #[trigger] states[j + 1],
                    Ok(values@[j]),
                    pattern@,
                    text@,
                    seen[j]->Ok_0,
                ),
        decreases found@.len() - i,
    {
        match &found[i] {
            Ok(groups) => {
                proof {
                    lemma_fault_after(seen, i + 1);
                    assert(good[i as int] == seen[i as int]->Ok_0);
                }
                match allocate_match(pattern, text, copy_groups(groups), vm) {
                    Err(e) => {
                        assert(matches_made(states, values@, pattern@, text@, good));
                        return Err(e);
                    },
                    Ok(v) => {
                        proof {
                            let more = states.push(*vm);
                            let longer = values@.push(v);
                            assert forall|j: int| 0 <= j < i + 1 implies match_result(
                                more[j],
                                #[trigger] more[j + 1],
                                Ok(longer[j]),
                                pattern@,
                                text@,
                                seen[j]->Ok_0,
                            ) by {
                                if j < i {
                                    assert(more[j + 1] == states[j + 1]);
                                }
                            }
                            states = more;
                        }
                        values.push(v);
                    },
                }
            },
            Err(e) => {
                assert(matches_made(states, values@, pattern@, text@, good));
                return Err(RunError::new_msg(ExcType::PatternError, e.clone()));
            },
        }
        i = i + 1;
    }
    let ghost items = values@;
    assert(matches_made(states, items, pattern@, text@, good));
    let ghost before = *vm;
    let list = List::new(values);
    let ghost made = list;
    let r = allocate_object(HeapData::List(list), vm);
    assert(object_result(before, *vm, r, HeapData::List(made)));
    assert(list_held(before, *vm, r, items));
    r
}

fn copy_groups(groups: &Groups) -> (r: Groups)
    ensures
        r@ == groups@,
{
    let mut out: Groups = Vec::new();
    for i in 0..groups.len()
        invariant
            out@ == groups@.take(i as int),
    {
        out.push(groups[i]);
        assert(groups@.take(i + 1) =~= groups@.take(i as int).push(groups@[i as int]));
    }
    assert(groups@.take(groups@.len() as int) =~= groups@);
    out
}

/// Whether a result is what `findall` gives, from what the engine found: the
/// matches where there is no group, the texts of the group where there is one,
/// and tuples of the texts of the groups where there are more.
pub open spec fn findall_done(
    before: VM,
    after: VM,
    r: RunResult<Value>,
    groups: usize,
    spans: Seq<Result<Span, Seq<char>>>,
    all: Seq<Result<Seq<Option<Span>>, Seq<char>>>,
    text: Seq<char>,
) -> bool {
    if groups <= 1 {
        texts_found(before, after, r, match_texts(text, before_fault(spans)), fault_of(spans))
    } else if groups == 2 {
        texts_found(before, after, r, only_groups(text, before_fault(all)), fault_of(all))
    } else {
        rows_found(before, after, r, group_rows(text, before_fault(all)), fault_of(all))
    }
}

/// The texts of matches as a list.
pub fn list_matches(text: &str, found: &Vec<Result<Span, String>>, vm: &mut VM) -> (r: RunResult<
    Value,
>)
    requires
        old(vm).wf(),
    ensures
        final(vm).wf(),
        final(vm).same_setting(*old(vm)),
        final(vm).entries().len() >= old(vm).entries().len(),
        r matches Ok(v) ==> final(vm).ok(v),
        texts_found(
            *old(vm),
            *final(vm),
            r,
            match_texts(text@, before_fault(spans_of(found@))),
            fault_of(spans_of(found@)),
        ),
{
    let chars = chars_of(text);
    let (pieces, fault) = texts_of_matches(&chars, found);
    list_texts(&pieces, fault, vm)
}

/// The texts of the groups of matches as a list: bare texts where there is only
/// one group besides the whole match, otherwise tuples.
pub fn list_groups(
    text: &str,
    groups: usize,
    found: &Vec<Result<Groups, String>>,
    vm: &mut VM,
) -> (r: RunResult<Value>)
    requires
        old(vm).wf(),
        groups > 1,
    ensures
        final(vm).wf(),
        final(vm).same_setting(*old(vm)),
        final(vm).entries().len() >= old(vm).entries().len(),
        r matches Ok(v) ==> final(vm).ok(v),
        findall_done(
            *old(vm),
            *final(vm),
            r,
            groups,
            Seq::empty(),
            all_of(found@),
            text@,
        ),
{
    let chars = chars_of(text);
    if groups == 2 {
        let (pieces, fault) = texts_of_groups(&chars, found);
        list_texts(&pieces, fault, vm)
    } else {
        list_rows(&chars, found, vm)
    }
}

/// Whether a match that was given, if it is one, begins at the start of the text.
pub open spec fn match_from_start(after: VM, r: RunResult<Value>) -> bool {
    r matches Ok(v) ==> v is PyNone || (after.data_of(v) matches Some(HeapData::ReMatch(m))
        && m.groups@.len() > 0 && (m.groups@[0] matches Some(span) && span.0 == 0))
}

/// Whether a match that was given, if it is one, ends at the end of the text.
pub open spec fn match_to_end(after: VM, r: RunResult<Value>, text: Seq<char>) -> bool {
    r matches Ok(v) ==> v is PyNone || (after.data_of(v) matches Some(HeapData::ReMatch(m))
        && m.groups@.len() > 0 && (m.groups@[0] matches Some(span) && span.1
        == vstd::utf8::encode_utf8(text).len()))
}

/// A match that was found is the one that was given.
proof fn lemma_match_given(
    before: VM,
    after: VM,
    r: RunResult<Value>,
    found: Result<Option<Seq<Option<Span>>>, Seq<char>>,
    pattern: Seq<char>,
    text: Seq<char>,
)
    requires
        first_match_done(before, after, r, found, pattern, text),
    ensures
        begins_at_start(found) ==> match_from_start(after, r),
        ends_at_end(found, text) ==> match_to_end(after, r, text),
{
    assert(after.heap.entries.len() == after.heap.entries@.len());
    match found {
        Ok(Some(groups)) => {
            let m = choose|m: ReMatch|
                #![trigger object_result(before, after, r, HeapData::ReMatch(m))]
                m.is(pattern, text, groups) && object_result(
                    before,
                    after,
                    r,
                    HeapData::ReMatch(m),
                );
            assert(r is Ok ==> after.data_of(r->Ok_0) == Some(HeapData::ReMatch(m)));
        },
        _ => {},
    }
}

impl RePattern {
    /// The pattern as the engine takes it.
    pub open spec fn engine_text(self) -> Seq<char> {
        full_pattern(self.text(), self.bits())
    }

    /// The first match anywhere in a text.
    pub fn search(&self, text: &str, vm: &mut VM) -> (r: RunResult<Value>)
        requires
            old(vm).wf(),
        ensures
            final(vm).wf(),
            r matches Ok(v) ==> final(vm).ok(v),
            first_match_done(
                *old(vm),
                *final(vm),
                r,
                regex_first(self.engine_text(), text@),
                self.text(),
                text@,
            ),
    {
        let source = self.source();
        first_match(first(source.as_str(), text), self.pattern(), text, vm)
    }

    /// The match at the start of a text.
    pub fn match_start(&self, text: &str, vm: &mut VM) -> (r: RunResult<Value>)
        requires
            old(vm).wf(),
        ensures
            final(vm).wf(),
            r matches Ok(v) ==> final(vm).ok(v),
            first_match_done(
                *old(vm),
                *final(vm),
                r,
                regex_first(full_pattern(at_start(self.text()), self.bits()), text@),
                self.text(),
                text@,
            ),
            !has_pair(self.text(), '\\', 'K') ==> match_from_start(*final(vm), r),
    {
        let source = self.start_source();
        let r = first_match(first(source.as_str(), text), self.pattern(), text, vm);
        proof {
            lemma_match_given(
                *old(vm),
                *vm,
                r,
                regex_first(full_pattern(at_start(self.text()), self.bits()), text@),
                self.text(),
                text@,
            );
        }
        r
    }

    /// The match of a whole text.
    pub fn fullmatch(&self, text: &str, vm: &mut VM) -> (r: RunResult<Value>)
        requires
            old(vm).wf(),
        ensures
            final(vm).wf(),
            r matches Ok(v) ==> final(vm).ok(v),
            first_match_done(
                *old(vm),
                *final(vm),
                r,
                regex_first(full_pattern(at_both_ends(self.text()), self.bits()), text@),
                self.text(),
                text@,
            ),
            !has_pair(self.text(), '\\', 'K') ==> match_from_start(*final(vm), r) && match_to_end(
                *final(vm),
                r,
                text@,
            ),
    {
        let source = self.whole_source();
        let r = first_match(first(source.as_str(), text), self.pattern(), text, vm);
        proof {
            lemma_match_given(
                *old(vm),
                *vm,
                r,
                regex_first(full_pattern(at_both_ends(self.text()), self.bits()), text@),
                self.text(),
                text@,
            );
        }
        r
    }

    /// All matches in a text as a list of strings or of tuples of strings.
    pub fn findall(&self, text: &str, vm: &mut VM) -> (r: RunResult<Value>)
        requires
            old(vm).wf(),
            settles(self.text()),
        ensures
            final(vm).wf(),
            final(vm).same_setting(*old(vm)),
            final(vm).entries().len() >= old(vm).entries().len(),
            r matches Ok(v) ==> final(vm).ok(v),
            findall_done(
                *old(vm),
                *final(vm),
                r,
                regex_groups(self.engine_text()),
                regex_finds(self.engine_text(), text@),
                regex_all(self.engine_text(), text@),
                text@,
            ),
            regex_groups(self.engine_text()) > 1 ==> starts_with_first(
                regex_first(self.engine_text(), text@),
                regex_all(self.engine_text(), text@),
            ),
    {
        let source = self.source();
        proof {
            lemma_flags_settle(self.text(), self.bits());
        }
        let count: usize = groups(source.as_str());
        if count <= 1 {
            list_matches(text, &finds(source.as_str(), text), vm)
        } else {
            list_groups(text, count, &all(source.as_str(), text), vm)
        }
    }

    /// A text with the matches replaced, all of them or so many.
    pub fn sub(&self, repl: &str, text: &str, count: usize, vm: &mut VM) -> (r: RunResult<Value>)
        requires
            old(vm).wf(),
            settles(self.text()),
        ensures
            final(vm).wf(),
            r matches Ok(v) ==> final(vm).ok(v),
            text_made(
                *old(vm),
                *final(vm),
                r,
                substituted(
                    text@,
                    chosen(
                        regex_replacements(
                            self.engine_text(),
                            text@,
                            tamed(engine_template(repl@)),
                        ),
                        count,
                    ),
                    old(vm).heap.max_bytes as int,
                    0,
                    0,
                    Seq::empty(),
                ),
            ),
            replace_matches(
                regex_replacements(self.engine_text(), text@, tamed(engine_template(repl@))),
                regex_all(self.engine_text(), text@),
            ),
            !tamed(engine_template(repl@)).contains('$') ==> replace_by(
                regex_replacements(self.engine_text(), text@, tamed(engine_template(repl@))),
                tamed(engine_template(repl@)),
            ),
    {
        let source = self.source();
        proof {
            lemma_flags_settle(self.text(), self.bits());
        }
        let template = tame_template(translate_replacement(repl).as_str());
        let found = replacements(source.as_str(), text, template.as_str());
        substitute(text, &found, count, vm)
    }

    /// The pieces of a text between the matches, split everywhere or so often.
    pub fn split(&self, text: &str, maxsplit: usize, vm: &mut VM) -> (r: RunResult<Value>)
        requires
            old(vm).wf(),
            settles(self.text()),
            maxsplit < usize::MAX,
        ensures
            final(vm).wf(),
            r matches Ok(v) ==> final(vm).ok(v),
            pieces_listed(
                *old(vm),
                *final(vm),
                r,
                if maxsplit == 0 {
                    regex_split(self.engine_text(), text@)
                } else {
                    regex_splitn(self.engine_text(), text@, (maxsplit + 1) as usize)
                },
            ),
            pieces_counted(self.engine_text(), text@, maxsplit),
    {
        let source = self.source();
        proof {
            lemma_flags_settle(self.text(), self.bits());
        }
        let found = if maxsplit == 0 {
            split(source.as_str(), text)
        } else {
            splitn(source.as_str(), text, maxsplit + 1)
        };
        list_pieces(found, vm)
    }

    /// All matches in a text as a list of new objects.
    pub fn finditer(&self, text: &str, vm: &mut VM) -> (r: RunResult<Value>)
        requires
            old(vm).wf(),
            settles(self.text()),
        ensures
            final(vm).wf(),
            final(vm).same_setting(*old(vm)),
            final(vm).entries().len() >= old(vm).entries().len(),
            r matches Ok(v) ==> final(vm).ok(v),
            matches_done(
                *old(vm),
                *final(vm),
                r,
                self.text(),
                text@,
                before_fault(regex_all(self.engine_text(), text@)),
                fault_of(regex_all(self.engine_text(), text@)),
            ),
            starts_with_first(
                regex_first(self.engine_text(), text@),
                regex_all(self.engine_text(), text@),
            ),
    {
        let source = self.source();
        proof {
            lemma_flags_settle(self.text(), self.bits());
        }
        list_all_matches(&all(source.as_str(), text), self.pattern(), text, vm)
    }
}

} // verus!
