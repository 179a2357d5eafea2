//! What the methods of strings do with limits and bounds.

use vstd::prelude::*;

use crate::args::ArgValues;
use crate::exception::{RunError, RunResult};
use crate::intern::StaticStrings;
use crate::laws::items::slice_edge;
use crate::laws::str_parts::{glued, lemma_glued, texts_listed_same};
use crate::laws::str_texts::{blank, unbroken};
use crate::laws::strings::{
    lemma_text_answer, lemma_texts_answer, str_called, text_given, texts_listed,
};
use crate::types::str_chars::whitespace;
use crate::types::str_format::{column_after, repeated, tabs_expanded};
use crate::types::str_methods::between;
use crate::types::str_search::{
    join_with, lemma_edges, lstripped, one_less, replaced_from, rstripped, rwords, word_start,
    words, words_from, words_to,
};
use crate::value::Value;
use crate::vm::VM;

verus! {

/// Whether the arguments of `split` or `rsplit` are `None` and how often to split.
pub open spec fn splits_words(args: ArgValues, n: i64) -> bool {
    args.just(2) && args.pos@[0] == Value::PyNone && args.pos@[1] == Value::Int(n)
}

/// `split(None, n)` gives the first word and then what `split(None, n - 1)` gives of
/// what follows it.
pub proof fn lemma_words_limited(
    before: VM,
    m1: VM,
    v1: VM,
    m2: VM,
    v2: VM,
    w: Seq<char>,
    t: Seq<char>,
    n: i64,
    args: ArgValues,
    fewer: ArgValues,
    pieces: Seq<Seq<char>>,
    r: RunResult<Value>,
    rest: RunResult<Value>,
)
    requires
        before.wf(),
        0 < n <= usize::MAX,
        splits_words(args, n),
        splits_words(fewer, (n - 1) as i64),
        w.len() > 0,
        unbroken(w),
        t.len() == 0 || whitespace(t[0]),
        str_called(before, m1, v1, w + t, StaticStrings::Split, args, r),
        str_called(before, m2, v2, t, StaticStrings::Split, fewer, rest),
        texts_listed(v2, rest, pieces),
        r is Ok,
    ensures
        texts_listed(v1, r, seq![w] + pieces),
{
    reveal_with_fuel(crate::args::kwargs_error, 1);
    let s = w + t;
    let max = Some(n as nat);
    assert(s[0] == w[0]);
    assert(lstripped(s, None) =~= s);
    crate::laws::str_texts::lemma_word_end_at(w, t);
    assert(s.take(w.len() as int) =~= w);
    assert(s.skip(w.len() as int) =~= t);
    assert(words_from(s, max) == seq![w] + words(t, one_less(max))) by {
        if t.len() == 0 {
            assert(s =~= w);
            assert(lstripped(t, None) =~= t);
            assert(words(t, one_less(max)) =~= Seq::empty());
            assert(seq![w] + words(t, one_less(max)) =~= seq![s]);
        }
    }
    lemma_texts_answer(before, m1, v1, args, r, words(s, max));
    lemma_texts_answer(before, m2, v2, fewer, rest, words(t, one_less(max)));
    texts_listed_same(v2, rest, pieces, words(t, one_less(max)));
}

/// `split(None, 0)` gives the text as one piece, without white space in front; nothing
/// where there is nothing else.
pub proof fn lemma_words_uncut(
    before: VM,
    mid: VM,
    after: VM,
    s: Seq<char>,
    k: int,
    args: ArgValues,
    r: RunResult<Value>,
)
    requires
        before.wf(),
        splits_words(args, 0),
        0 <= k <= s.len(),
        forall|i: int| 0 <= i < k ==> whitespace(#[trigger] s[i]),
        k < s.len() ==> !whitespace(s[k]),
        str_called(before, mid, after, s, StaticStrings::Split, args, r),
        r is Ok,
    ensures
        texts_listed(
            after,
            r,
            if k < s.len() {
                seq![s.skip(k)]
            } else {
                Seq::empty()
            },
        ),
{
    reveal_with_fuel(crate::args::kwargs_error, 1);
    lemma_edges(s, None);
    let e = crate::types::str_search::left_edge(s, None);
    if e < k {
        assert(whitespace(s[e]));
    } else if k < e {
        assert(whitespace(s[k]));
    }
    lemma_texts_answer(before, mid, after, args, r, words(s, Some(0nat)));
    let t = s.skip(k);
    if k == s.len() {
        assert(t.len() == 0);
    }
    assert(words(s, Some(0nat)) =~= if k < s.len() {
        seq![s.skip(k)]
    } else {
        Seq::empty()
    });
}

/// `rsplit(None, n)` gives what `rsplit(None, n - 1)` gives of what stands before the
/// last word, and then the last word.
pub proof fn lemma_rwords_limited(
    before: VM,
    m1: VM,
    v1: VM,
    m2: VM,
    v2: VM,
    w: Seq<char>,
    t: Seq<char>,
    n: i64,
    args: ArgValues,
    fewer: ArgValues,
    pieces: Seq<Seq<char>>,
    r: RunResult<Value>,
    rest: RunResult<Value>,
)
    requires
        before.wf(),
        0 < n <= usize::MAX,
        splits_words(args, n),
        splits_words(fewer, (n - 1) as i64),
        w.len() > 0,
        unbroken(w),
        t.len() == 0 || whitespace(t.last()),
        str_called(before, m1, v1, t + w, StaticStrings::Rsplit, args, r),
        str_called(before, m2, v2, t, StaticStrings::Rsplit, fewer, rest),
        texts_listed(v2, rest, pieces),
        r is Ok,
    ensures
        texts_listed(v1, r, pieces.push(w)),
{
    reveal_with_fuel(crate::args::kwargs_error, 1);
    let s = t + w;
    let max = Some(n as nat);
    assert(s.last() == w.last());
    assert(!whitespace(w[w.len() - 1]));
    assert(rstripped(s, None) =~= s);
    lemma_word_start_at(t, w);
    assert(s.skip(t.len() as int) =~= w);
    assert(words_to(s, max) == rwords(t, one_less(max)).push(w)) by {
        if t.len() == 0 {
            assert(s =~= w);
            assert(rstripped(t, None) =~= t);
            assert(rwords(t, one_less(max)) =~= Seq::empty());
            assert(rwords(t, one_less(max)).push(w) =~= seq![s]);
        } else {
            let head = s.take(t.len() - 1);
            assert(head =~= t.drop_last());
            assert(rstripped(t, None) == rstripped(head, None)) by {
                lemma_edges(head, None);
                assert(rstripped(t, None) =~= rstripped(head, None));
            }
        }
    }
    lemma_texts_answer(before, m1, v1, args, r, rwords(s, max));
    lemma_texts_answer(before, m2, v2, fewer, rest, rwords(t, one_less(max)));
    texts_listed_same(v2, rest, pieces, rwords(t, one_less(max)));
}

proof fn lemma_word_start_at(t: Seq<char>, w: Seq<char>)
    requires
        unbroken(w),
        t.len() == 0 || whitespace(t.last()),
    ensures
        word_start(t + w) == t.len(),
    decreases w.len(),
{
    let s = t + w;
    if w.len() > 0 {
        assert(s.last() == w.last());
        assert(!whitespace(w[w.len() - 1]));
        assert forall|i: int| 0 <= i < w.drop_last().len() implies !whitespace(
            #[trigger] w.drop_last()[i],
        ) by {
            assert(w.drop_last()[i] == w[i]);
        }
        lemma_word_start_at(t, w.drop_last());
        assert(s.drop_last() =~= t + w.drop_last());
    } else {
        assert(s =~= t);
    }
}

/// `rsplit` without arguments gives what `split` without arguments gives.
pub proof fn lemma_rsplit_words(
    before: VM,
    m1: VM,
    v1: VM,
    m2: VM,
    v2: VM,
    s: Seq<char>,
    args: ArgValues,
    pieces: Seq<Seq<char>>,
    r: RunResult<Value>,
    q: RunResult<Value>,
)
    requires
        before.wf(),
        args.just(0),
        str_called(before, m1, v1, s, StaticStrings::Split, args, r),
        str_called(before, m2, v2, s, StaticStrings::Rsplit, args, q),
        texts_listed(v1, r, pieces),
        q is Ok,
    ensures
        texts_listed(v2, q, pieces),
{
    reveal_with_fuel(crate::args::kwargs_error, 1);
    lemma_texts_answer(before, m1, v1, args, r, words(s, None));
    texts_listed_same(v1, r, pieces, words(s, None));
    lemma_texts_answer(before, m2, v2, args, q, words(s, None));
}

/// Each character as a text of its own, between two empty texts.
pub open spec fn letters_apart(s: Seq<char>) -> Seq<Seq<char>> {
    Seq::new(
        s.len() + 2,
        |i: int|
            if 0 < i <= s.len() {
                seq![s[i - 1]]
            } else {
                Seq::empty()
            },
    )
}

/// `replace` of the empty text puts the new text before every character and at the
/// end.
pub proof fn lemma_replace_nothing(
    before: VM,
    mid: VM,
    after: VM,
    s: Seq<char>,
    new_text: Seq<char>,
    args: ArgValues,
    r: RunResult<Value>,
)
    requires
        before.wf(),
        args.just(2),
        before.text_of(args.pos@[0]) == Some(Seq::<char>::empty()),
        before.text_of(args.pos@[1]) == Some(new_text),
        str_called(before, mid, after, s, StaticStrings::Replace, args, r),
        r is Ok,
    ensures
        text_given(after, r) == Some(glued(letters_apart(s), new_text)),
{
    reveal_with_fuel(crate::args::kwargs_error, 1);
    let all = letters_apart(s);
    lemma_glued(all, new_text);
    lemma_put_between(s, new_text, 0);
    assert(all.skip(0) =~= all);
    assert(all[0] =~= Seq::empty());
    assert(join_with(all, new_text) == all[0] + new_text + join_with(all.skip(1), new_text));
    assert(join_with(all, new_text) =~= replaced_from(s, Seq::empty(), new_text, 0, None));
    lemma_text_answer(
        before,
        mid,
        after,
        args,
        r,
        replaced_from(s, Seq::empty(), new_text, 0, None),
    );
}

proof fn lemma_put_between(s: Seq<char>, new_text: Seq<char>, from: int)
    requires
        0 <= from <= s.len(),
    ensures
        replaced_from(s, Seq::empty(), new_text, from, None) == new_text + join_with(
            letters_apart(s).skip(from + 1),
            new_text,
        ),
    decreases s.len() - from,
{
    let rest = letters_apart(s).skip(from + 1);
    if from >= s.len() {
        assert(rest.len() == 1);
        assert(rest[0] =~= Seq::empty());
        assert(new_text + join_with(rest, new_text) =~= new_text);
    } else {
        lemma_put_between(s, new_text, from + 1);
        assert(rest[0] == seq![s[from]]);
        assert(rest.skip(1) =~= letters_apart(s).skip(from + 2));
        assert(join_with(rest, new_text) == rest[0] + new_text + join_with(rest.skip(1), new_text));
        assert(new_text + seq![s[from]] + (new_text + join_with(rest.skip(1), new_text))
            =~= new_text + join_with(rest, new_text));
    }
}

/// With a start and an end, which count from the end when negative, `startswith` and
/// `endswith` say of the part between them whether it starts or ends with a text.
pub proof fn lemma_affix_between(
    before: VM,
    mid: VM,
    after: VM,
    s: Seq<char>,
    t: Seq<char>,
    a: i64,
    b: i64,
    starts: bool,
    args: ArgValues,
    r: RunResult<Value>,
)
    requires
        args.just(3),
        before.text_of(args.pos@[0]) == Some(t),
        args.pos@[1] == Value::Int(a),
        args.pos@[2] == Value::Int(b),
        slice_edge(a as int, s.len() as int, true) <= slice_edge(b as int, s.len() as int, true),
        str_called(
            before,
            mid,
            after,
            s,
            if starts {
                StaticStrings::Startswith
            } else {
                StaticStrings::Endswith
            },
            args,
            r,
        ),
    ensures
        ({
            let from = slice_edge(a as int, s.len() as int, true);
            let to = slice_edge(b as int, s.len() as int, true);
            let place = if starts {
                from
            } else {
                to - t.len()
            };
            r == Ok::<Value, RunError>(
                Value::Bool(
                    t.len() <= to - from && s.subrange(place, place + t.len()) == t,
                ),
            )
        }),
{
    let from = slice_edge(a as int, s.len() as int, true);
    let to = slice_edge(b as int, s.len() as int, true);
    let part = between(s, from, to);
    assert(part =~= s.subrange(from, to));
    let all = seq![t];
    assert(all[0] == t);
    if t.len() <= to - from {
        assert(part.subrange(0, t.len() as int) =~= s.subrange(from, from + t.len()));
        assert(part.subrange(part.len() - t.len(), part.len() as int) =~= s.subrange(
            to - t.len(),
            to - t.len() + t.len(),
        ));
        if starts && s.subrange(from, from + t.len()) == t {
            assert(all[0].is_prefix_of(part));
        }
        if !starts && s.subrange(to - t.len(), to - t.len() + t.len()) == t {
            assert(all[0].is_suffix_of(part));
        }
    }
}

/// The characters after the last line break.
pub open spec fn last_line_len(t: Seq<char>) -> int
    decreases t.len(),
{
    if t.len() == 0 || t.last() == '\n' || t.last() == '\r' {
        0
    } else {
        1 + last_line_len(t.drop_last())
    }
}

proof fn lemma_column(s: Seq<char>, size: int)
    requires
        size > 0,
    ensures
        column_after(s, size) == last_line_len(tabs_expanded(s, size)),
        column_after(s, size) >= 0,
    decreases s.len(),
{
    if s.len() > 0 {
        let head = s.drop_last();
        lemma_column(head, size);
        let t = tabs_expanded(head, size);
        if s.last() == '\t' {
            let n = size - column_after(head, size) % size;
            lemma_blank_line(t, n);
        } else {
            assert(t.push(s.last()).drop_last() =~= t);
        }
    }
}

proof fn lemma_blank_line(t: Seq<char>, n: int)
    requires
        n >= 0,
    ensures
        last_line_len(t + repeated(' ', n)) == last_line_len(t) + n,
    decreases n,
{
    let s = t + repeated(' ', n);
    if n > 0 {
        lemma_blank_line(t, n - 1);
        assert(s.last() == ' ');
        assert(s.drop_last() =~= t + repeated(' ', n - 1));
    } else {
        assert(s =~= t);
    }
}

/// One more character after a text adds itself to what `expandtabs` gives, and a tab
/// adds at least one space, up to a column that is a multiple of the tab size.
pub proof fn lemma_expandtabs_next(
    before: VM,
    m1: VM,
    v1: VM,
    m2: VM,
    v2: VM,
    s: Seq<char>,
    c: char,
    size: i64,
    args: ArgValues,
    r: RunResult<Value>,
    longer: RunResult<Value>,
)
    requires
        before.wf(),
        args.just(1),
        args.pos@[0] == Value::Int(size),
        0 < size <= usize::MAX,
        str_called(before, m1, v1, s, StaticStrings::Expandtabs, args, r),
        str_called(before, m2, v2, s.push(c), StaticStrings::Expandtabs, args, longer),
        r is Ok,
        longer is Ok,
    ensures
        text_given(v1, r) matches Some(t) && text_given(v2, longer) matches Some(u) && if c
            != '\t' {
            u == t.push(c)
        } else {
            &&& t.len() < u.len() <= t.len() + size
            &&& u.take(t.len() as int) == t
            &&& blank(u.skip(t.len() as int))
            &&& last_line_len(u) % (size as int) == 0
        },
{
    reveal_with_fuel(crate::args::kwargs_error, 1);
    let n = size as int;
    let t = tabs_expanded(s, n);
    let u = tabs_expanded(s.push(c), n);
    lemma_text_answer(before, m1, v1, args, r, t);
    lemma_text_answer(before, m2, v2, args, longer, u);
    assert(s.push(c).drop_last() =~= s);
    if c == '\t' {
        lemma_column(s, n);
        lemma_column(s.push(c), n);
        let col = column_after(s, n);
        let more = n - col % n;
        assert(u == t + repeated(' ', more));
        assert(u.take(t.len() as int) =~= t);
        assert((col + more) % n == 0) by {
            let q = col / n;
            vstd::arithmetic::div_mod::lemma_fundamental_div_mod(col, n);
            assert(col + more == (q + 1) * n) by (nonlinear_arith)
                requires
                    col == n * q + col % n,
                    more == n - col % n,
            ;
            vstd::arithmetic::div_mod::lemma_mod_multiples_basic(q + 1, n);
        }
    }
}

} // verus!
