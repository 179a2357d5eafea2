//! What the methods of strings make of words, lines and replacements.

use vstd::prelude::*;

use crate::args::ArgValues;
use crate::exception::RunResult;
use crate::intern::StaticStrings;
use crate::laws::results::{lemma_bytes_given, lemma_consumed};
use crate::laws::str_parts::{glued, lemma_glued, texts_listed_same};
use crate::laws::strings::{
    lemma_text_answer, lemma_texts_answer, str_called, text_given, texts_listed,
};
use crate::types::str_chars::whitespace;
use crate::types::str_search::{
    concat_all, first_match, join_with, lemma_edges, lemma_first_match, lemma_line_end, line_break,
    line_end, lines_from, lstripped, next_line, one_less, replaced_from, split_pieces, word_end,
    words, words_from,
};
use crate::value::Value;
use crate::vm::VM;

verus! {

/// Whether a text holds no white space.
pub open spec fn unbroken(s: Seq<char>) -> bool {
    forall|i: int| 0 <= i < s.len() ==> !whitespace(#[trigger] s[i])
}

proof fn lemma_left_edge_first(s: Seq<char>)
    requires
        s.len() > 0,
        whitespace(s[0]),
    ensures
        lstripped(s, None) == lstripped(s.skip(1), None),
{
    lemma_edges(s.skip(1), None);
    assert(lstripped(s, None) =~= lstripped(s.skip(1), None));
}

/// Where the first word of a text ends that starts with a word and white space.
pub proof fn lemma_word_end_at(w: Seq<char>, t: Seq<char>)
    requires
        unbroken(w),
        t.len() == 0 || whitespace(t[0]),
    ensures
        word_end(w + t) == w.len(),
    decreases w.len(),
{
    let s = w + t;
    if w.len() > 0 {
        assert(s[0] == w[0]);
        assert forall|i: int| 0 <= i < w.skip(1).len() implies !whitespace(
            #[trigger] w.skip(1)[i],
        ) by {
            assert(w.skip(1)[i] == w[i + 1]);
        }
        lemma_word_end_at(w.skip(1), t);
        assert(s.skip(1) =~= w.skip(1) + t);
    } else {
        assert(s =~= t);
    }
}

proof fn lemma_no_edge(s: Seq<char>)
    requires
        s.len() == 0 || !whitespace(s[0]),
    ensures
        lstripped(s, None) == s,
{
    assert(lstripped(s, None) =~= s);
}

/// `split` without arguments drops white space in front of a text.
pub proof fn lemma_words_skip_space(
    before: VM,
    m1: VM,
    v1: VM,
    m2: VM,
    v2: VM,
    s: Seq<char>,
    args: ArgValues,
    pieces: Seq<Seq<char>>,
    r: RunResult<Value>,
    rest: RunResult<Value>,
)
    requires
        before.wf(),
        args.just(0),
        s.len() > 0,
        whitespace(s[0]),
        str_called(before, m1, v1, s, StaticStrings::Split, args, r),
        str_called(before, m2, v2, s.skip(1), StaticStrings::Split, args, rest),
        texts_listed(v2, rest, pieces),
        r is Ok,
    ensures
        texts_listed(v1, r, pieces),
{
    reveal_with_fuel(crate::args::kwargs_error, 1);
    lemma_left_edge_first(s);
    lemma_texts_answer(before, m1, v1, args, r, words(s, None));
    lemma_texts_answer(before, m2, v2, args, rest, words(s.skip(1), None));
    texts_listed_same(v2, rest, pieces, words(s.skip(1), None));
}

/// `split` without arguments gives the first word and then the words of what follows
/// it; an empty text has none.
pub proof fn lemma_words_first(
    before: VM,
    m1: VM,
    v1: VM,
    m2: VM,
    v2: VM,
    w: Seq<char>,
    t: Seq<char>,
    args: ArgValues,
    pieces: Seq<Seq<char>>,
    r: RunResult<Value>,
    rest: RunResult<Value>,
)
    requires
        before.wf(),
        args.just(0),
        w.len() > 0,
        unbroken(w),
        t.len() == 0 || whitespace(t[0]),
        str_called(before, m1, v1, w + t, StaticStrings::Split, args, r),
        str_called(before, m2, v2, t, StaticStrings::Split, args, rest),
        texts_listed(v2, rest, pieces),
        r is Ok,
    ensures
        texts_listed(v1, r, seq![w] + pieces),
        t.len() == 0 ==> pieces.len() == 0,
{
    reveal_with_fuel(crate::args::kwargs_error, 1);
    let s = w + t;
    assert(s[0] == w[0]);
    lemma_no_edge(s);
    lemma_word_end_at(w, t);
    assert(s.take(w.len() as int) =~= w);
    assert(s.skip(w.len() as int) =~= t);
    assert(words_from(s, None) == seq![w] + words(t, None)) by {
        if t.len() == 0 {
            assert(s =~= w);
            assert(lstripped(t, None) =~= t);
            assert(words(t, None) =~= Seq::empty());
            assert(seq![w] + words(t, None) =~= seq![s]);
        }
    }
    lemma_texts_answer(before, m1, v1, args, r, words(s, None));
    lemma_texts_answer(before, m2, v2, args, rest, words(t, None));
    texts_listed_same(v2, rest, pieces, words(t, None));
    if t.len() == 0 {
        assert(lstripped(t, None) =~= t);
    }
}

/// Whether a line break is at the end of a text, and no other in it.
pub open spec fn ends_line(kept: Seq<char>, line: Seq<char>) -> bool {
    &&& forall|i: int| 0 <= i < line.len() ==> #[trigger] line[i] != '\n' && line[i] != '\r'
    &&& kept == line || kept == line + seq!['\n'] || kept == line + seq!['\r'] || kept == line
        + seq!['\r', '\n']
}

/// The texts one after the other.
pub open spec fn chained(pieces: Seq<Seq<char>>) -> Seq<char>
    decreases pieces.len(),
{
    if pieces.len() == 0 {
        Seq::empty()
    } else {
        chained(pieces.drop_last()) + pieces.last()
    }
}

/// The texts one after the other are the first and then the others.
pub proof fn lemma_chained_front(pieces: Seq<Seq<char>>)
    requires
        pieces.len() > 0,
    ensures
        chained(pieces) == pieces[0] + chained(pieces.skip(1)),
    decreases pieces.len(),
{
    if pieces.len() == 1 {
        assert(pieces.drop_last() =~= Seq::empty());
        assert(pieces.skip(1) =~= Seq::empty());
        assert(chained(pieces) =~= pieces[0] + chained(pieces.skip(1)));
    } else {
        lemma_chained_front(pieces.drop_last());
        assert(pieces.skip(1).drop_last() =~= pieces.drop_last().skip(1));
        assert(chained(pieces) =~= pieces[0] + chained(pieces.skip(1)));
    }
}

proof fn lemma_chained(pieces: Seq<Seq<char>>)
    ensures
        chained(pieces) == concat_all(pieces),
    decreases pieces.len(),
{
    if pieces.len() > 0 {
        lemma_chained_front(pieces);
        lemma_chained(pieces.skip(1));
    }
}

proof fn lemma_lines(s: Seq<char>, from: int)
    requires
        0 <= from <= s.len(),
    ensures
        ({
            let kept = lines_from(s, from, true);
            let bare = lines_from(s, from, false);
            &&& kept.len() == bare.len()
            &&& forall|i: int| 0 <= i < kept.len() ==> ends_line(#[trigger] kept[i], bare[i])
            &&& forall|i: int| 0 <= i < kept.len() - 1 ==> #[trigger] kept[i] != bare[i]
            &&& forall|i: int| 0 <= i < kept.len() ==> (#[trigger] kept[i]).len() > 0
        }),
    decreases s.len() - from,
{
    if from < s.len() {
        lemma_line_end(s, from);
        let end = line_end(s, from);
        let next = next_line(s, end);
        lemma_lines(s, next);
        lemma_line_unbroken(s, from);
        let kept = lines_from(s, from, true);
        let bare = lines_from(s, from, false);
        let k = lines_from(s, next, true);
        let b = lines_from(s, next, false);
        assert(kept == seq![s.subrange(from, next)] + k);
        assert(bare == seq![s.subrange(from, end)] + b);
        let line = s.subrange(from, end);
        if end < s.len() {
            if next == end + 2 {
                assert(kept[0] =~= line + seq!['\r', '\n']);
            } else if s[end] == '\n' {
                assert(kept[0] =~= line + seq!['\n']);
            } else {
                assert(kept[0] =~= line + seq!['\r']);
            }
            assert(kept[0].len() > bare[0].len());
        } else {
            assert(k.len() == 0);
        }
        assert forall|i: int| 0 <= i < kept.len() implies ends_line(#[trigger] kept[i], bare[i]) by {
            if i > 0 {
                assert(kept[i] == k[i - 1]);
                assert(bare[i] == b[i - 1]);
            }
        }
        assert forall|i: int| 0 <= i < kept.len() - 1 implies #[trigger] kept[i] != bare[i] by {
            if i > 0 {
                assert(kept[i] == k[i - 1]);
                assert(bare[i] == b[i - 1]);
            }
        }
        assert forall|i: int| 0 <= i < kept.len() implies (#[trigger] kept[i]).len() > 0 by {
            if i > 0 {
                assert(kept[i] == k[i - 1]);
            }
        }
    }
}

proof fn lemma_line_unbroken(s: Seq<char>, from: int)
    requires
        0 <= from <= s.len(),
    ensures
        forall|i: int| from <= i < line_end(s, from) ==> !line_break(#[trigger] s[i]),
    decreases s.len() - from,
{
    if from < s.len() && !line_break(s[from]) {
        lemma_line_unbroken(s, from + 1);
    }
}

/// `splitlines` with and without line breaks: there are as many lines; each kept one
/// is the other with its line break, which only the last may lack; and the kept ones
/// together are the text.
pub proof fn lemma_splitlines(
    before: VM,
    m1: VM,
    v1: VM,
    m2: VM,
    v2: VM,
    s: Seq<char>,
    keeping: ArgValues,
    plain: ArgValues,
    r: RunResult<Value>,
    q: RunResult<Value>,
)
    requires
        before.wf(),
        keeping.just(1),
        keeping.pos@[0] == Value::Bool(true),
        plain.just(0) || (plain.just(1) && plain.pos@[0] == Value::Bool(false)),
        str_called(before, m1, v1, s, StaticStrings::Splitlines, keeping, r),
        str_called(before, m2, v2, s, StaticStrings::Splitlines, plain, q),
        r is Ok,
        q is Ok,
    ensures
        exists|kept: Seq<Seq<char>>, bare: Seq<Seq<char>>|
            {
                &&& #[trigger] texts_listed(v1, r, kept)
                &&& #[trigger] texts_listed(v2, q, bare)
                &&& chained(kept) == s
                &&& kept.len() == bare.len()
                &&& forall|i: int| 0 <= i < kept.len() ==> ends_line(#[trigger] kept[i], bare[i])
                &&& forall|i: int| 0 <= i < kept.len() - 1 ==> #[trigger] kept[i] != bare[i]
                &&& forall|i: int| 0 <= i < kept.len() ==> (#[trigger] kept[i]).len() > 0
            },
{
    reveal_with_fuel(crate::args::kwargs_error, 1);
    let kept = lines_from(s, 0, true);
    let bare = lines_from(s, 0, false);
    lemma_lines(s, 0);
    lemma_chained(kept);
    crate::types::str_search::lemma_lines_concat(s, 0);
    assert(s.skip(0) =~= s);
    lemma_texts_answer(before, m1, v1, keeping, r, kept);
    lemma_texts_answer(before, m2, v2, plain, q, bare);
}

/// `replace` of a text that is not empty gives what `join` with the new text makes of
/// the pieces that `split` at the old one gives, with the same limit.
pub proof fn lemma_replace(
    before: VM,
    m1: VM,
    v1: VM,
    m2: VM,
    v2: VM,
    s: Seq<char>,
    args: ArgValues,
    cuts: ArgValues,
    old_text: Seq<char>,
    new_text: Seq<char>,
    max: Option<i64>,
    pieces: Seq<Seq<char>>,
    r: RunResult<Value>,
    parts: RunResult<Value>,
)
    requires
        before.wf(),
        args.kwargs@.len() == 0,
        match max {
            None => args.pos@.len() == 2,
            Some(n) => args.pos@.len() == 3 && args.pos@[2] == Value::Int(n),
        },
        before.text_of(args.pos@[0]) == Some(old_text),
        before.text_of(args.pos@[1]) == Some(new_text),
        old_text.len() > 0,
        crate::laws::str_parts::splits(before, cuts, old_text, max),
        str_called(before, m1, v1, s, StaticStrings::Replace, args, r),
        str_called(before, m2, v2, s, StaticStrings::Split, cuts, parts),
        texts_listed(v2, parts, pieces),
        r is Ok,
    ensures
        text_given(v1, r) == Some(glued(pieces, new_text)),
{
    reveal_with_fuel(crate::args::kwargs_error, 1);
    let limit = match max {
        Some(n) => crate::types::str_methods::limit_from(n as int),
        None => None,
    };
    lemma_texts_answer(before, m2, v2, cuts, parts, split_pieces(s, old_text, 0, limit));
    texts_listed_same(v2, parts, pieces, split_pieces(s, old_text, 0, limit));
    lemma_replaced(s, old_text, new_text, 0, limit);
    lemma_glued(pieces, new_text);
    lemma_text_answer(
        before,
        m1,
        v1,
        args,
        r,
        replaced_from(s, old_text, new_text, 0, limit),
    );
}

proof fn lemma_replaced(
    s: Seq<char>,
    old_text: Seq<char>,
    new_text: Seq<char>,
    from: int,
    max: Option<nat>,
)
    requires
        old_text.len() > 0,
        0 <= from <= s.len(),
    ensures
        replaced_from(s, old_text, new_text, from, max) == join_with(
            split_pieces(s, old_text, from, max),
            new_text,
        ),
        split_pieces(s, old_text, from, max).len() >= 1,
    decreases s.len() - from,
{
    lemma_first_match(s, old_text, from);
    let pieces = split_pieces(s, old_text, from, max);
    if max != Some(0nat) {
        match first_match(s, old_text, from) {
            Some(i) => {
                lemma_replaced(s, old_text, new_text, i + old_text.len(), one_less(max));
                let rest = split_pieces(s, old_text, i + old_text.len(), one_less(max));
                assert(pieces == seq![s.subrange(from, i)] + rest);
                assert(pieces.skip(1) =~= rest);
            },
            None => {},
        }
    }
}

/// `join` gives the texts of a list or tuple with the text between each two.
pub proof fn lemma_join(
    before: VM,
    mid: VM,
    after: VM,
    s: Seq<char>,
    args: ArgValues,
    vs: Seq<Value>,
    all: Seq<Seq<char>>,
    r: RunResult<Value>,
)
    requires
        before.wf(),
        args.just(1),
        crate::laws::results::tuple_items(before, args.pos@[0]) == Some(vs)
            || crate::laws::results::list_items(before, args.pos@[0]) == Some(vs),
        crate::laws::results::texts_are(before, vs, all),
        str_called(before, mid, after, s, StaticStrings::Join, args, r),
        r is Ok,
    ensures
        text_given(after, r) == Some(glued(all, s)),
{
    lemma_leading(before, vs, all, 0);
    assert(all.skip(0) =~= all);
    lemma_glued(all, s);
    lemma_text_answer(before, mid, after, args, r, join_with(all, s));
}

proof fn lemma_leading(vm: VM, vs: Seq<Value>, all: Seq<Seq<char>>, i: int)
    requires
        crate::laws::results::texts_are(vm, vs, all),
        0 <= i <= vs.len(),
    ensures
        crate::types::str_methods::leading_texts(vm, vs, i) == all.skip(i),
    decreases vs.len() - i,
{
    if i < vs.len() {
        lemma_leading(vm, vs, all, i + 1);
        assert(vm.text_of(vs[i]) == Some(all[i]));
        assert(all.skip(i) =~= seq![all[i]] + all.skip(i + 1));
    } else {
        assert(all.skip(i) =~= Seq::empty());
    }
}

/// What `split` at a separator gives, `join` with that separator puts together again.
pub proof fn lemma_split_and_join(
    before: VM,
    m1: VM,
    v1: VM,
    m2: VM,
    v2: VM,
    s: Seq<char>,
    sep: Seq<char>,
    cuts: ArgValues,
    args: ArgValues,
    parts: RunResult<Value>,
    r: RunResult<Value>,
)
    requires
        before.wf(),
        v1.wf(),
        crate::laws::str_parts::splits(before, cuts, sep, None),
        sep.len() > 0,
        str_called(before, m1, v1, s, StaticStrings::Split, cuts, parts),
        parts is Ok,
        args.just(1),
        args.pos@[0] == parts->Ok_0,
        str_called(v1, m2, v2, sep, StaticStrings::Join, args, r),
        r is Ok,
    ensures
        text_given(v2, r) == Some(s),
{
    crate::laws::str_parts::lemma_split(before, m1, v1, s, cuts, sep, None, parts);
    let pieces = choose|pieces: Seq<Seq<char>>| #[trigger]
        texts_listed(v1, parts, pieces) && glued(pieces, sep) == s;
    let vs = crate::laws::results::list_items(v1, parts->Ok_0)->0;
    lemma_join(v1, m2, v2, sep, args, vs, pieces, r);
}

/// `encode` gives the bytes of the text in UTF-8.
pub proof fn lemma_encode(
    before: VM,
    mid: VM,
    after: VM,
    s: Seq<char>,
    args: ArgValues,
    r: RunResult<Value>,
)
    requires
        args.just(0),
        str_called(before, mid, after, s, StaticStrings::Encode, args, r),
        r is Ok,
    ensures
        after.bytes_of(r->Ok_0) == Some(vstd::utf8::encode_utf8(s)),
{
    reveal_with_fuel(crate::args::kwargs_error, 1);
    reveal_strlit("utf-8");
    reveal_strlit("strict");
    assert(crate::types::str_methods::ascii_lowered("utf-8"@) =~= "utf-8"@);
    lemma_bytes_given(before, mid, r, vstd::utf8::encode_utf8(s));
    crate::laws::results::lemma_bounded(mid);
    lemma_consumed(args, mid, after);
    assert(mid.ok(r->Ok_0));
}

/// Whether a text is spaces only.
pub open spec fn blank(t: Seq<char>) -> bool {
    forall|i: int| 0 <= i < t.len() ==> #[trigger] t[i] == ' '
}

/// `expandtabs` leaves a text without tabs as it is, and puts spaces in the place of a
/// tab: at least one, up to the next column that is a multiple of the tab size, where
/// nothing but the text without tabs and line breaks stands before it.
pub proof fn lemma_expandtabs(
    before: VM,
    mid: VM,
    after: VM,
    s: Seq<char>,
    tabbed: bool,
    args: ArgValues,
    size: i64,
    r: RunResult<Value>,
)
    requires
        before.wf(),
        (args.just(1) && args.pos@[0] == Value::Int(size)) || (args.just(0) && size == 8),
        0 < size <= usize::MAX,
        forall|i: int|
            0 <= i < s.len() ==> #[trigger] s[i] != '\t' && s[i] != '\n' && s[i] != '\r',
        str_called(
            before,
            mid,
            after,
            if tabbed {
                s.push('\t')
            } else {
                s
            },
            StaticStrings::Expandtabs,
            args,
            r,
        ),
        r is Ok,
    ensures
        text_given(after, r) matches Some(t) && s.len() <= t.len() && t.take(s.len() as int) == s
            && if tabbed {
            &&& blank(t.skip(s.len() as int))
            &&& s.len() < t.len() <= s.len() + size
            &&& t.len() % size as nat == 0
        } else {
            t == s
        },
{
    reveal_with_fuel(crate::args::kwargs_error, 1);
    lemma_untabbed(s, size as int);
    let whole = if tabbed {
        s.push('\t')
    } else {
        s
    };
    let t = crate::types::str_format::tabs_expanded(whole, size as int);
    lemma_text_answer(before, mid, after, args, r, t);
    if tabbed {
        assert(whole.drop_last() =~= s);
        let n = size - s.len() as int % size as int;
        assert(t == s + crate::types::str_format::repeated(' ', n));
        assert(t.take(s.len() as int) =~= s);
        assert((s.len() + n) % size as int == 0) by {
            let q = s.len() as int / size as int;
            vstd::arithmetic::div_mod::lemma_fundamental_div_mod(s.len() as int, size as int);
            assert(s.len() + n == (q + 1) * size) by (nonlinear_arith)
                requires
                    s.len() == size * q + s.len() as int % size as int,
                    n == size - s.len() as int % size as int,
            ;
            vstd::arithmetic::div_mod::lemma_mod_multiples_basic(q + 1, size as int);
        }
    } else {
        assert(t.take(s.len() as int) =~= s);
    }
}

proof fn lemma_untabbed(s: Seq<char>, size: int)
    requires
        forall|i: int|
            0 <= i < s.len() ==> #[trigger] s[i] != '\t' && s[i] != '\n' && s[i] != '\r',
    ensures
        crate::types::str_format::tabs_expanded(s, size) == s,
        crate::types::str_format::column_after(s, size) == s.len(),
    decreases s.len(),
{
    if s.len() > 0 {
        assert forall|i: int| 0 <= i < s.drop_last().len() implies #[trigger] s.drop_last()[i]
            != '\t' && s.drop_last()[i] != '\n' && s.drop_last()[i] != '\r' by {
            assert(s.drop_last()[i] == s[i]);
        }
        lemma_untabbed(s.drop_last(), size);
        assert(s.drop_last().push(s.last()) =~= s);
    }
}

} // verus!
