//! What the methods of compiled regular expressions give.

use vstd::prelude::*;

use crate::args::ArgValues;
use crate::exception::{RunError, RunResult};
use crate::heap::HeapData;
use crate::intern::StaticStrings;
use crate::laws::results::{lemma_consumed, lemma_object_given, lemma_positional_fit, list_items};
use crate::laws::str_parts::{glued, lemma_glued};
use crate::laws::strings::{lemma_text_answer, lemma_texts_answer, text_given, texts_listed};
use crate::outcome::object_result;
use crate::regex::{
    has_pair, regex_all, regex_finds, regex_first, regex_groups, regex_replacements, Span,
};
use crate::regex_bounds::tamed;
use crate::types::re_match::{whole_span, ReMatch};
use crate::types::re_methods::{
    pattern_call_done, split_params, split_signature, sub_params, sub_signature,
};
use crate::types::re_ops::{chosen, substituted};
use crate::types::re_pattern::RePattern;
use crate::types::re_template::lemma_plain_template;
use crate::types::str_format::utf8_size;
use crate::types::str_search::join_with;
use crate::utf8::text_between;
use crate::value::{EitherStr, Value};
use crate::vm::VM;

verus! {

/// The match that a value refers to.
pub open spec fn match_at(vm: VM, v: Value) -> Option<ReMatch> {
    match vm.data_of(v) {
        Some(HeapData::ReMatch(m)) => Some(m),
        _ => None,
    }
}

/// Whether a result is that of a call of a method of a pattern with a text: `mid` is
/// the state before the arguments are dropped.
pub open spec fn pattern_called(
    before: VM,
    mid: VM,
    after: VM,
    pattern: RePattern,
    attr: EitherStr,
    args: ArgValues,
    r: RunResult<Value>,
) -> bool {
    args.consumed(mid, after) && pattern_call_done(before, mid, r, pattern, attr, args)
}

/// Whether the only argument is a text.
pub open spec fn takes_text(vm: VM, args: ArgValues, text: Seq<char>) -> bool {
    args.just(1) && vm.text_of(args.pos@[0]) == Some(text)
}

/// The flags of a pattern in front of another, as the engine takes them.
pub open spec fn with_flags(pattern: RePattern, inner: Seq<char>) -> Seq<char> {
    let i = if pattern.bits() & 2 != 0 {
        seq!['i']
    } else {
        Seq::empty()
    };
    let m = if pattern.bits() & 8 != 0 {
        i + seq!['m']
    } else {
        i
    };
    let letters = if pattern.bits() & 16 != 0 {
        m + seq!['s']
    } else {
        m
    };
    if letters.len() == 0 {
        inner
    } else {
        seq!['(', '?'] + letters + seq![')'] + inner
    }
}

pub(crate) proof fn lemma_with_flags(pattern: RePattern, inner: Seq<char>)
    ensures
        with_flags(pattern, inner) == crate::types::re_pattern::full_pattern(inner, pattern.bits()),
{
    reveal_strlit("(?");
    reveal_strlit(")");
    assert("(?"@ =~= seq!['(', '?']);
    assert(")"@ =~= seq![')']);
    let i = if pattern.bits() & 2 != 0 {
        seq!['i']
    } else {
        Seq::empty()
    };
    assert(i + seq!['m'] =~= i.push('m'));
    assert((i + seq!['m']) + seq!['s'] =~= i.push('m').push('s'));
    assert(i + seq!['s'] =~= i.push('s'));
}

/// Whether a result is what the engine found first: `None` where it found nothing, and
/// a match with the groups that it found.
pub open spec fn gives_first(
    after: VM,
    r: RunResult<Value>,
    found: Result<Option<Seq<Option<Span>>>, Seq<char>>,
    text: Seq<char>,
) -> bool {
    match found {
        Err(_) => r is Err,
        Ok(None) => r == Ok::<Value, RunError>(Value::PyNone),
        Ok(Some(groups)) => r matches Ok(v) ==> (match_at(after, v) matches Some(m) && m.text@
            == text && m.groups@ == groups),
    }
}

proof fn lemma_first_given(
    before: VM,
    mid: VM,
    after: VM,
    args: ArgValues,
    r: RunResult<Value>,
    found: Result<Option<Seq<Option<Span>>>, Seq<char>>,
    pattern: Seq<char>,
    text: Seq<char>,
)
    requires
        args.consumed(mid, after),
        crate::types::re_ops::first_match_done(before, mid, r, found, pattern, text),
    ensures
        gives_first(after, r, found, text),
        r is Ok && r->Ok_0 is Ref ==> mid.ok(r->Ok_0),
{
    lemma_consumed(args, mid, after);
    match found {
        Ok(Some(groups)) => {
            let m = choose|m: ReMatch|
                #![trigger object_result(before, mid, r, HeapData::ReMatch(m))]
                m.is(pattern, text, groups) && object_result(before, mid, r, HeapData::ReMatch(m));
            if r is Ok {
                lemma_object_given(before, mid, r, HeapData::ReMatch(m));
                assert(after.data_of(r->Ok_0) == mid.data_of(r->Ok_0));
            }
        },
        _ => {},
    }
}

/// `search` looks for the pattern, as it is written, anywhere in the text.
pub proof fn lemma_search(
    before: VM,
    mid: VM,
    after: VM,
    pattern: RePattern,
    attr: EitherStr,
    args: ArgValues,
    text: Seq<char>,
    r: RunResult<Value>,
)
    requires
        takes_text(before, args, text),
        attr.well_known() == Some(StaticStrings::Search),
        pattern_called(before, mid, after, pattern, attr, args, r),
    ensures
        gives_first(after, r, regex_first(with_flags(pattern, pattern.text()), text), text),
{
    lemma_with_flags(pattern, pattern.text());
    lemma_first_given(
        before,
        mid,
        after,
        args,
        r,
        regex_first(pattern.engine_text(), text),
        pattern.text(),
        text,
    );
}

/// A match that `match` gives begins at the start of the text. It gives `None`
/// exactly when the engine finds nothing for the pattern held to the start. A pattern
/// with `\K` may move the start of a match.
pub proof fn lemma_match_starts_text(
    before: VM,
    mid: VM,
    after: VM,
    pattern: RePattern,
    attr: EitherStr,
    args: ArgValues,
    text: Seq<char>,
    r: RunResult<Value>,
)
    requires
        takes_text(before, args, text),
        attr.well_known() == Some(StaticStrings::Match),
        pattern_called(before, mid, after, pattern, attr, args, r),
        r is Ok,
    ensures
        !has_pair(pattern.text(), '\\', 'K') && !(r->Ok_0 is PyNone) ==> (match_at(
            after,
            r->Ok_0,
        ) matches Some(m) && m.text@ == text && m.groups@.len() > 0 && (m.groups@[0] matches Some(
            span,
        ) && span.0 == 0)),
        r->Ok_0 is PyNone <==> regex_first(
            with_flags(pattern, "\\A(?:"@ + pattern.text() + ")"@),
            text,
        ) == Ok::<Option<Seq<Option<Span>>>, Seq<char>>(None),
        gives_first(
            after,
            r,
            regex_first(with_flags(pattern, "\\A(?:"@ + pattern.text() + ")"@), text),
            text,
        ),
{
    let anchored = "\\A(?:"@ + pattern.text() + ")"@;
    lemma_with_flags(pattern, anchored);
    lemma_consumed(args, mid, after);
    lemma_first_given(
        before,
        mid,
        after,
        args,
        r,
        regex_first(with_flags(pattern, anchored), text),
        pattern.text(),
        text,
    );
    if r->Ok_0 is Ref {
        assert(after.data_of(r->Ok_0) == mid.data_of(r->Ok_0));
    }
}

/// A match that `fullmatch` gives reaches from the start of the text to its end. It
/// gives `None` exactly when the engine finds nothing for the pattern held to both. A
/// pattern with `\K` may move the start of a match.
pub proof fn lemma_fullmatch_covers_text(
    before: VM,
    mid: VM,
    after: VM,
    pattern: RePattern,
    attr: EitherStr,
    args: ArgValues,
    text: Seq<char>,
    r: RunResult<Value>,
)
    requires
        takes_text(before, args, text),
        attr.well_known() == Some(StaticStrings::Fullmatch),
        pattern_called(before, mid, after, pattern, attr, args, r),
        r is Ok,
    ensures
        !has_pair(pattern.text(), '\\', 'K') && !(r->Ok_0 is PyNone) ==> (match_at(
            after,
            r->Ok_0,
        ) matches Some(m) && m.text@ == text && m.groups@.len() > 0 && (m.groups@[0] matches Some(
            span,
        ) && span.0 == 0 && span.1 == vstd::utf8::encode_utf8(text).len())),
        r->Ok_0 is PyNone <==> regex_first(
            with_flags(pattern, "\\A(?:"@ + pattern.text() + ")\\z"@),
            text,
        ) == Ok::<Option<Seq<Option<Span>>>, Seq<char>>(None),
{
    let anchored = "\\A(?:"@ + pattern.text() + ")\\z"@;
    lemma_with_flags(pattern, anchored);
    lemma_consumed(args, mid, after);
    lemma_first_given(
        before,
        mid,
        after,
        args,
        r,
        regex_first(with_flags(pattern, anchored), text),
        pattern.text(),
        text,
    );
    if r->Ok_0 is Ref {
        assert(after.data_of(r->Ok_0) == mid.data_of(r->Ok_0));
    }
}

/// Whether splitting was asked for so often: not at all or with zero for everywhere.
pub open spec fn split_at_most(args: ArgValues, most: Option<i64>) -> bool {
    &&& args.kwargs@.len() == 0
    &&& match most {
        None => args.pos@.len() == 1,
        Some(n) => args.pos@.len() == 2 && args.pos@[1] == Value::Int(n),
    }
}

/// `split` gives one piece more than there are matches, and with a positive
/// `maxsplit` at most so many pieces and one more.
pub proof fn lemma_split_pieces(
    before: VM,
    mid: VM,
    after: VM,
    pattern: RePattern,
    attr: EitherStr,
    args: ArgValues,
    text: Seq<char>,
    most: Option<i64>,
    r: RunResult<Value>,
)
    requires
        before.wf(),
        split_at_most(args, most),
        most is Some ==> most->0 < usize::MAX,
        before.text_of(args.pos@[0]) == Some(text),
        attr.well_known() == Some(StaticStrings::Split),
        pattern_called(before, mid, after, pattern, attr, args, r),
        r is Ok,
    ensures
        exists|pieces: Seq<Seq<char>>| #[trigger]
            texts_listed(after, r, pieces) && ({
                let matches = regex_finds(with_flags(pattern, pattern.text()), text).len() as int;
                pieces.len() == if most is Some && 0 < most->0 < matches {
                    most->0 + 1
                } else {
                    matches + 1
                }
            }),
{
    lemma_with_flags(pattern, pattern.text());
    let n = if most is Some && most->0 > 0 {
        most->0 as usize
    } else {
        0
    };
    let found = if n == 0 {
        crate::regex::regex_split(pattern.engine_text(), text)
    } else {
        crate::regex::regex_splitn(pattern.engine_text(), text, (n + 1) as usize)
    };
    lemma_positional_fit(args, split_signature(), split_params(), before.interns);
    assert(crate::types::re_ops::pieces_listed(before, mid, r, found));
    lemma_texts_answer(before, mid, after, args, r, found->Ok_0);
    assert(texts_listed(after, r, found->Ok_0));
}

/// The matches that are replaced: the first so many or all where that is
/// zero.
pub open spec fn replaced_spans(
    pattern: RePattern,
    text: Seq<char>,
    count: int,
) -> Seq<Result<Seq<Option<Span>>, Seq<char>>> {
    let all = regex_all(with_flags(pattern, pattern.text()), text);
    if count == 0 || count >= all.len() {
        all
    } else {
        all.take(count)
    }
}

/// The part of a text from the end of one match to the start of the next; the first
/// part begins with the text, and the last one ends with it.
pub open spec fn part_between(
    text: Seq<char>,
    spans: Seq<Result<Seq<Option<Span>>, Seq<char>>>,
    i: int,
) -> Seq<char> {
    text_between(
        text,
        if i == 0 {
            0
        } else {
            whole_span(spans[i - 1]->Ok_0).1 as int
        },
        if i == spans.len() {
            utf8_size(text)
        } else {
            whole_span(spans[i]->Ok_0).0 as int
        },
    )
}

/// `sub` with a replacement that holds neither backslashes nor dollars gives the
/// parts of the text between the matches, with the replacement between each two; a
/// positive `count` leaves all matches but the first so many in their places.
pub proof fn lemma_sub(
    before: VM,
    mid: VM,
    after: VM,
    pattern: RePattern,
    attr: EitherStr,
    args: ArgValues,
    repl: Seq<char>,
    text: Seq<char>,
    count: Option<i64>,
    r: RunResult<Value>,
)
    requires
        before.wf(),
        args.kwargs@.len() == 0,
        match count {
            None => args.pos@.len() == 2,
            Some(n) => 0 <= n < usize::MAX && args.pos@.len() == 3 && args.pos@[2] == Value::Int(n),
        },
        before.text_of(args.pos@[0]) == Some(repl),
        before.text_of(args.pos@[1]) == Some(text),
        !repl.contains('\\'),
        !repl.contains('$'),
        attr.well_known() == Some(StaticStrings::Sub),
        pattern_called(before, mid, after, pattern, attr, args, r),
        r is Ok,
    ensures
        ({
            let spans = replaced_spans(
                pattern,
                text,
                if count is Some {
                    count->0 as int
                } else {
                    0
                },
            );
            text_given(after, r) == Some(
                glued(Seq::new(spans.len() + 1, |i: int| part_between(text, spans, i)), repl),
            )
        }),
{
    lemma_with_flags(pattern, pattern.text());
    lemma_positional_fit(args, sub_signature(), sub_params(), before.interns);
    let n = if count is Some {
        count->0 as int
    } else {
        0
    };
    lemma_plain_template(repl);
    lemma_untamed(repl);
    let all = regex_all(pattern.engine_text(), text);
    let found = regex_replacements(pattern.engine_text(), text, repl);
    let taken = chosen(found, n as usize);
    let spans = replaced_spans(pattern, text, n);
    let max = before.heap.max_bytes as int;
    let made = substituted(text, taken, max, 0, 0, Seq::empty());
    assert(crate::types::re_ops::text_made(before, mid, r, made));
    lemma_substituted(text, taken, spans, repl, max, 0, 0, Seq::empty());
    let pieces = Seq::new(spans.len() + 1, |i: int| part_between(text, spans, i));
    assert(pieces.skip(0) =~= pieces);
    assert(Seq::<char>::empty() + join_with(pieces, repl) =~= join_with(pieces, repl));
    lemma_glued(pieces, repl);
    lemma_text_answer(before, mid, after, args, r, made->Ok_0);
}

/// A template without dollars refers to nothing.
proof fn lemma_untamed(t: Seq<char>)
    requires
        !t.contains('$'),
    ensures
        tamed(t) == t,
{
    assert forall|i: int| !#[trigger] crate::regex_bounds::large_reference_at(t, i) by {
        lemma_no_dollars(t, i);
        lemma_no_dollars(t, i - 1);
    }
    assert(tamed(t) =~= t);
}

proof fn lemma_no_dollars(t: Seq<char>, i: int)
    requires
        !t.contains('$'),
    ensures
        crate::regex_bounds::dollars_before(t, i) == 0,
{
    if 0 < i <= t.len() {
        assert(t.contains(t[i - 1]));
    }
}

proof fn lemma_substituted(
    text: Seq<char>,
    taken: Seq<Result<(usize, usize, Seq<char>), Seq<char>>>,
    spans: Seq<Result<Seq<Option<Span>>, Seq<char>>>,
    repl: Seq<char>,
    max: int,
    i: int,
    last_end: int,
    made: Seq<char>,
)
    requires
        0 <= i <= taken.len(),
        crate::regex::replace_matches(taken, spans),
        crate::regex::replace_by(taken, repl),
        last_end == if i == 0 {
            0
        } else {
            whole_span(spans[i - 1]->Ok_0).1 as int
        },
        substituted(text, taken, max, i, last_end, made) is Ok,
    ensures
        substituted(text, taken, max, i, last_end, made)->Ok_0 == made + join_with(
            Seq::new(spans.len() + 1, |k: int| part_between(text, spans, k)).skip(i),
            repl,
        ),
    decreases taken.len() - i,
{
    let pieces = Seq::new(spans.len() + 1, |k: int| part_between(text, spans, k));
    let rest = pieces.skip(i);
    assert(rest[0] == pieces[i]);
    if i >= taken.len() {
        assert(rest.len() == 1);
    } else {
        let one = taken[i]->Ok_0;
        assert(taken[i] is Ok);
        assert(one.2 == repl);
        let more = made + text_between(text, last_end, one.0 as int) + repl;
        assert(more == made + text_between(text, last_end, one.0 as int) + one.2);
        lemma_substituted(text, taken, spans, repl, max, i + 1, one.1 as int, more);
        assert(rest.skip(1) =~= pieces.skip(i + 1));
        assert(rest.len() > 1);
        assert(join_with(rest, repl) == rest[0] + repl + join_with(rest.skip(1), repl));
        assert(more + join_with(rest.skip(1), repl) =~= made + (rest[0] + repl + join_with(
            rest.skip(1),
            repl,
        )));
    }
}

/// Whether everything was found without an error.
pub open spec fn all_found<T>(found: Seq<Result<T, Seq<char>>>) -> bool {
    forall|i: int| 0 <= i < found.len() ==> #[trigger] found[i] is Ok
}

pub(crate) proof fn lemma_all_found<T>(found: Seq<Result<T, Seq<char>>>, i: int)
    requires
        all_found(found),
        0 <= i <= found.len(),
    ensures
        crate::types::re_ops::first_fault(found, i) == found.len(),
    decreases found.len() - i,
{
    if i < found.len() {
        lemma_all_found(found, i + 1);
    }
}

/// `findall` with a pattern without groups gives the text of each match, from where it
/// starts to where it ends; with one group the text of that group, which is empty where
/// it took no part.
pub proof fn lemma_findall(
    before: VM,
    mid: VM,
    after: VM,
    pattern: RePattern,
    attr: EitherStr,
    args: ArgValues,
    text: Seq<char>,
    r: RunResult<Value>,
)
    requires
        before.wf(),
        takes_text(before, args, text),
        attr.well_known() == Some(StaticStrings::Findall),
        pattern_called(before, mid, after, pattern, attr, args, r),
        r is Ok,
        regex_groups(with_flags(pattern, pattern.text())) <= 2,
        all_found(regex_finds(with_flags(pattern, pattern.text()), text)),
        all_found(regex_all(with_flags(pattern, pattern.text()), text)),
    ensures
        ({
            let engine = with_flags(pattern, pattern.text());
            let spans = regex_finds(engine, text);
            let all = regex_all(engine, text);
            &&& regex_groups(engine) <= 1 ==> texts_listed(
                after,
                r,
                Seq::new(
                    spans.len(),
                    |i: int|
                        text_between(text, spans[i]->Ok_0.0 as int, spans[i]->Ok_0.1 as int),
                ),
            )
            &&& regex_groups(engine) == 2 ==> texts_listed(
                after,
                r,
                Seq::new(
                    all.len(),
                    |i: int|
                        {
                            let groups = all[i]->Ok_0;
                            if groups.len() > 1 && groups[1] is Some {
                                span_text(text, groups[1]->0)
                            } else {
                                Seq::empty()
                            }
                        },
                ),
            )
        }),
{
    let engine = with_flags(pattern, pattern.text());
    lemma_with_flags(pattern, pattern.text());
    let spans = regex_finds(engine, text);
    let all = regex_all(engine, text);
    lemma_all_found(spans, 0);
    lemma_all_found(all, 0);
    if regex_groups(engine) <= 1 {
        let texts = crate::types::re_ops::match_texts(
            text,
            crate::types::re_ops::before_fault(spans),
        );
        assert(texts =~= Seq::new(
            spans.len(),
            |i: int| text_between(text, spans[i]->Ok_0.0 as int, spans[i]->Ok_0.1 as int),
        ));
        lemma_texts_answer(before, mid, after, args, r, texts);
    } else {
        let texts = crate::types::re_ops::only_groups(
            text,
            crate::types::re_ops::before_fault(all),
        );
        assert(texts =~= Seq::new(
            all.len(),
            |i: int|
                {
                    let groups = all[i]->Ok_0;
                    if groups.len() > 1 && groups[1] is Some {
                        span_text(text, groups[1]->0)
                    } else {
                        Seq::empty()
                    }
                },
        ));
        lemma_texts_answer(before, mid, after, args, r, texts);
    }
}

/// The text of a span.
pub open spec fn span_text(text: Seq<char>, span: Span) -> Seq<char> {
    text_between(text, span.0 as int, span.1 as int)
}

/// `finditer` gives a match for each that the engine found, in their order, with its
/// groups.
pub proof fn lemma_finditer(
    before: VM,
    mid: VM,
    after: VM,
    pattern: RePattern,
    attr: EitherStr,
    args: ArgValues,
    text: Seq<char>,
    r: RunResult<Value>,
)
    requires
        takes_text(before, args, text),
        attr.well_known() == Some(StaticStrings::Finditer),
        pattern_called(before, mid, after, pattern, attr, args, r),
        r is Ok,
    ensures
        ({
            let all = regex_all(with_flags(pattern, pattern.text()), text);
            list_items(after, r->Ok_0) matches Some(items) && items.len() == all.len() && forall|
                j: int,
            |
                0 <= j < items.len() ==> is_match(after, #[trigger] items[j], text, all[j])
        }),
{
    lemma_with_flags(pattern, pattern.text());
    let all = regex_all(pattern.engine_text(), text);
    let found = crate::types::re_ops::before_fault(all);
    let fault = crate::types::re_ops::fault_of(all);
    let (states, values) = choose|states: Seq<VM>, values: Seq<Value>|
        #![trigger crate::types::re_ops::matches_made(states, values, pattern.text(), text, found)]
        {
            &&& crate::types::re_ops::matches_made(states, values, pattern.text(), text, found)
            &&& states[0] == before
            &&& if values.len() < found.len() {
                crate::types::re_match::match_result(
                    states.last(),
                    mid,
                    r,
                    pattern.text(),
                    text,
                    found[values.len() as int],
                ) && r is Err
            } else {
                match fault {
                    Some(e) => crate::args::raises(r, crate::types::re_ops::engine_error(e)) && mid
                        == states.last(),
                    None => crate::types::re_ops::list_held(states.last(), mid, r, values),
                }
            }
        };
    assert(values.len() == found.len());
    let made = choose|l: crate::types::containers::List|
        #![trigger object_result(states.last(), mid, r, HeapData::List(l))]
        l.items@ == values && object_result(states.last(), mid, r, HeapData::List(l));
    lemma_object_given(states.last(), mid, r, HeapData::List(made));
    lemma_consumed(args, mid, after);
    assert(after.data_of(r->Ok_0) == mid.data_of(r->Ok_0));
    lemma_no_fault(all, 0);
    assert forall|j: int| 0 <= j < values.len() implies is_match(
        after,
        #[trigger] values[j],
        text,
        all[j],
    ) by {
        lemma_states(states, values, pattern.text(), text, found, j, mid, r, made);
        lemma_before_fault(all, 0, j);
        assert(after.data_of(values[j]) == mid.data_of(values[j]));
    }
}

/// What stands before the first error is no error.
proof fn lemma_before_fault<T>(found: Seq<Result<T, Seq<char>>>, i: int, j: int)
    requires
        0 <= i <= j < crate::types::re_ops::first_fault(found, i),
    ensures
        found[j] is Ok,
    decreases j - i,
{
    if i < j {
        lemma_before_fault(found, i + 1, j);
    }
}

/// Whether a value is a match in a text with the groups that the engine found.
pub open spec fn is_match(
    vm: VM,
    v: Value,
    text: Seq<char>,
    found: Result<Seq<Option<Span>>, Seq<char>>,
) -> bool {
    match_at(vm, v) matches Some(m) && m.text@ == text && found == Ok::<
        Seq<Option<Span>>,
        Seq<char>,
    >(m.groups@)
}

/// The first match that `finditer` gives is the one that `search` gives.
pub proof fn lemma_finditer_starts_with_search(
    before: VM,
    m1: VM,
    v1: VM,
    m2: VM,
    v2: VM,
    pattern: RePattern,
    finditer: EitherStr,
    search: EitherStr,
    args: ArgValues,
    text: Seq<char>,
    list: RunResult<Value>,
    one: RunResult<Value>,
)
    requires
        takes_text(before, args, text),
        finditer.well_known() == Some(StaticStrings::Finditer),
        search.well_known() == Some(StaticStrings::Search),
        pattern_called(before, m1, v1, pattern, finditer, args, list),
        pattern_called(before, m2, v2, pattern, search, args, one),
        list is Ok,
        one is Ok,
    ensures
        list_items(v1, list->Ok_0) matches Some(items) && if one->Ok_0 is PyNone {
            items.len() == 0
        } else {
            &&& items.len() > 0
            &&& match_at(v1, items[0]) matches Some(a)
            &&& match_at(v2, one->Ok_0) matches Some(b)
            &&& a.text@ == b.text@ && a.groups@ == b.groups@
        },
{
    lemma_search(before, m2, v2, pattern, search, args, text, one);
    lemma_finditer(before, m1, v1, pattern, finditer, args, text, list);
    lemma_with_flags(pattern, pattern.text());
    let items = list_items(v1, list->Ok_0)->0;
    if items.len() > 0 {
        assert(is_match(
            v1,
            items[0],
            text,
            regex_all(with_flags(pattern, pattern.text()), text)[0],
        ));
    }
}

/// Without an error everything is found before the first one.
proof fn lemma_no_fault<T>(found: Seq<Result<T, Seq<char>>>, i: int)
    requires
        0 <= i <= found.len(),
        crate::types::re_ops::first_fault(found, i) >= found.len(),
    ensures
        crate::types::re_ops::first_fault(found, i) == found.len(),
    decreases found.len() - i,
{
    if i < found.len() && found[i] is Ok {
        lemma_no_fault(found, i + 1);
    }
}

/// A match stays while more are made and put into a list.
proof fn lemma_states(
    states: Seq<VM>,
    values: Seq<Value>,
    pattern: Seq<char>,
    text: Seq<char>,
    found: Seq<Seq<Option<Span>>>,
    j: int,
    last: VM,
    list: RunResult<Value>,
    made: crate::types::containers::List,
)
    requires
        crate::types::re_ops::matches_made(states, values, pattern, text, found),
        values.len() == found.len(),
        0 <= j < values.len(),
        object_result(states.last(), last, list, HeapData::List(made)),
        list is Ok,
    ensures
        match_at(last, values[j]) matches Some(m) && m.text@ == text && m.groups@ == found[j],
        last.ok(values[j]),
{
    lemma_state_keeps(states, values, pattern, text, found, j, values.len() as int);
    lemma_object_given(states.last(), last, list, HeapData::List(made));
    let id = values[j]->Ref_0;
    assert(last.entries()[id.0 as int].data == states.last().entries()[id.0 as int].data);
}

proof fn lemma_state_keeps(
    states: Seq<VM>,
    values: Seq<Value>,
    pattern: Seq<char>,
    text: Seq<char>,
    found: Seq<Seq<Option<Span>>>,
    j: int,
    k: int,
)
    requires
        crate::types::re_ops::matches_made(states, values, pattern, text, found),
        values.len() == found.len(),
        0 <= j < k <= values.len(),
    ensures
        values[j] is Ref,
        states[k].ok(values[j]),
        match_at(states[k], values[j]) matches Some(m) && m.text@ == text && m.groups@ == found[j],
    decreases k,
{
    let i = k - 1;
    assert(crate::types::re_match::match_result(
        states[i],
        states[i + 1],
        Ok(values[i]),
        pattern,
        text,
        found[i],
    ));
    let ok = Ok::<Value, RunError>(values[i]);
    let m = choose|m: ReMatch|
        #![trigger object_result(states[i], states[i + 1], ok, HeapData::ReMatch(m))]
        m.is(pattern, text, found[i]) && object_result(
            states[i],
            states[i + 1],
            ok,
            HeapData::ReMatch(m),
        );
    lemma_object_given(states[i], states[i + 1], ok, HeapData::ReMatch(m));
    if j < i {
        lemma_state_keeps(states, values, pattern, text, found, j, i);
        let id = values[j]->Ref_0;
        assert(states[k].entries()[id.0 as int].data == states[i].entries()[id.0 as int].data);
    }
}

/// A negative `count` leaves the text as it is.
pub proof fn lemma_sub_never(
    before: VM,
    mid: VM,
    after: VM,
    pattern: RePattern,
    attr: EitherStr,
    args: ArgValues,
    n: i64,
    text: Seq<char>,
    r: RunResult<Value>,
)
    requires
        args.just(3),
        args.pos@[2] == Value::Int(n),
        n < 0,
        before.text_of(args.pos@[1]) == Some(text),
        attr.well_known() == Some(StaticStrings::Sub),
        pattern_called(before, mid, after, pattern, attr, args, r),
    ensures
        r == Ok::<Value, RunError>(args.pos@[1]),
{
    lemma_positional_fit(args, sub_signature(), sub_params(), before.interns);
}

/// A pattern gives back what it was written as, and its flags.
pub proof fn lemma_pattern_attributes(
    before: VM,
    after: VM,
    v: Value,
    pattern: RePattern,
    attr: EitherStr,
    r: RunResult<crate::call::CallResult>,
)
    requires
        before.wf(),
        before.data_of(v) == Some(HeapData::RePattern(pattern)),
        crate::value_attr::attr_done(before, after, r, v, attr),
        r is Ok,
    ensures
        attr.well_known() == Some(StaticStrings::PatternAttr) ==> (
        crate::laws::date_methods::value_of(r) matches Some(w) && after.text_of(w) == Some(
            pattern.text(),
        )),
        attr.well_known() == Some(StaticStrings::Flags) ==> crate::laws::date_methods::value_of(r)
            == Some(Value::Int(pattern.bits() as i64)),
{
    if attr.well_known() == Some(StaticStrings::PatternAttr) {
        crate::laws::results::lemma_string_given(
            before,
            after,
            crate::types::file_ops::as_value(r)->0,
            pattern.text(),
        );
    }
}

/// The methods that look for one text refuse other arguments.
pub proof fn lemma_text_wanted(
    before: VM,
    mid: VM,
    after: VM,
    pattern: RePattern,
    attr: EitherStr,
    args: ArgValues,
    r: RunResult<Value>,
)
    requires
        attr.well_known() matches Some(name) && (name is Search || name is Match || name is Fullmatch
            || name is Findall || name is Finditer),
        !args.just(1) || before.text_of(args.pos@[0]) is None,
        pattern_called(before, mid, after, pattern, attr, args, r),
    ensures
        r is Err,
{
}

} // verus!
