//! What the methods of strings do at the ends of a text.

use vstd::prelude::*;

use crate::args::ArgValues;
use crate::exception::{RunError, RunResult};
use crate::intern::StaticStrings;
use crate::laws::strings::{lemma_text_answer, str_called, text_given};
use crate::types::str_chars::whitespace;
use crate::types::str_methods::between;
use crate::types::str_search::{lemma_edges, lstripped, rstripped, stripped, strippable};
use crate::value::Value;
use crate::vm::VM;

verus! {

/// Whether an argument gives the characters to strip: a text, or `None` or nothing
/// for white space.
pub open spec fn strips(vm: VM, args: ArgValues, set: Option<Seq<char>>) -> bool {
    match set {
        Some(chars) => args.just(1) && vm.text_of(args.pos@[0]) == Some(chars),
        None => args.just(0) || (args.just(1) && args.pos@[0] is PyNone),
    }
}

/// Whether a character is to be stripped.
pub open spec fn goes(c: char, set: Option<Seq<char>>) -> bool {
    match set {
        Some(chars) => exists|i: int| 0 <= i < chars.len() && #[trigger] chars[i] == c,
        None => whitespace(c),
    }
}

/// Whether a text is the part of another from one place to another, with nothing but
/// what is to be stripped outside.
pub open spec fn cut_out(s: Seq<char>, i: int, j: int, set: Option<Seq<char>>) -> bool {
    &&& 0 <= i <= j <= s.len()
    &&& forall|k: int| 0 <= k < i ==> goes(#[trigger] s[k], set)
    &&& forall|k: int| j <= k < s.len() ==> goes(#[trigger] s[k], set)
}

proof fn lemma_goes(c: char, set: Option<Seq<char>>)
    ensures
        goes(c, set) == strippable(c, set),
{
}

/// `strip` gives the part of the text without the characters at both ends: outside
/// of it are only such characters, and it neither starts nor ends with one.
pub proof fn lemma_strip(
    before: VM,
    mid: VM,
    after: VM,
    s: Seq<char>,
    args: ArgValues,
    set: Option<Seq<char>>,
    r: RunResult<Value>,
)
    requires
        before.wf(),
        strips(before, args, set),
        str_called(before, mid, after, s, StaticStrings::Strip, args, r),
        r is Ok,
    ensures
        exists|i: int, j: int| #[trigger]
            cut_out(s, i, j, set) && text_given(after, r) == Some(s.subrange(i, j)) && (i < j
                ==> !goes(s[i], set) && !goes(s[j - 1], set)),
{
    let t = lstripped(s, set);
    lemma_edges(s, set);
    lemma_edges(t, set);
    let i = crate::types::str_search::left_edge(s, set);
    let j = i + crate::types::str_search::right_edge(t, set);
    assert forall|k: int| 0 <= k < i implies goes(#[trigger] s[k], set) by {
        lemma_goes(s[k], set);
    }
    assert forall|k: int| j <= k < s.len() implies goes(#[trigger] s[k], set) by {
        assert(t[k - i] == s[k]);
        lemma_goes(s[k], set);
    }
    assert(stripped(s, set) =~= s.subrange(i, j));
    if i < j {
        assert(t[j - i - 1] == s[j - 1]);
        lemma_goes(s[i], set);
        lemma_goes(s[j - 1], set);
    }
    lemma_text_answer(before, mid, after, args, r, stripped(s, set));
    assert(cut_out(s, i, j, set));
}

/// `lstrip` gives the text without the characters at the start, which it then does
/// not start with.
pub proof fn lemma_lstrip(
    before: VM,
    mid: VM,
    after: VM,
    s: Seq<char>,
    args: ArgValues,
    set: Option<Seq<char>>,
    r: RunResult<Value>,
)
    requires
        before.wf(),
        strips(before, args, set),
        str_called(before, mid, after, s, StaticStrings::Lstrip, args, r),
        r is Ok,
    ensures
        exists|i: int| #[trigger]
            cut_out(s, i, s.len() as int, set) && text_given(after, r) == Some(s.skip(i)) && (i
                < s.len() ==> !goes(s[i], set)),
{
    lemma_edges(s, set);
    let i = crate::types::str_search::left_edge(s, set);
    assert forall|k: int| 0 <= k < i implies goes(#[trigger] s[k], set) by {
        lemma_goes(s[k], set);
    }
    if i < s.len() {
        lemma_goes(s[i], set);
    }
    lemma_text_answer(before, mid, after, args, r, lstripped(s, set));
    assert(cut_out(s, i, s.len() as int, set));
}

/// `rstrip` gives the text without the characters at the end, which it then does not
/// end with.
pub proof fn lemma_rstrip(
    before: VM,
    mid: VM,
    after: VM,
    s: Seq<char>,
    args: ArgValues,
    set: Option<Seq<char>>,
    r: RunResult<Value>,
)
    requires
        before.wf(),
        strips(before, args, set),
        str_called(before, mid, after, s, StaticStrings::Rstrip, args, r),
        r is Ok,
    ensures
        exists|j: int| #[trigger]
            cut_out(s, 0, j, set) && text_given(after, r) == Some(s.take(j)) && (j > 0 ==> !goes(
                s[j - 1],
                set,
            )),
{
    lemma_edges(s, set);
    let j = crate::types::str_search::right_edge(s, set);
    assert forall|k: int| j <= k < s.len() implies goes(#[trigger] s[k], set) by {
        lemma_goes(s[k], set);
    }
    if j > 0 {
        lemma_goes(s[j - 1], set);
    }
    lemma_text_answer(before, mid, after, args, r, rstripped(s, set));
    assert(cut_out(s, 0, j, set));
}

/// `s.strip(c)` is `s.lstrip(c).rstrip(c)`.
pub proof fn lemma_strip_both(
    before: VM,
    m1: VM,
    v1: VM,
    m2: VM,
    v2: VM,
    m3: VM,
    v3: VM,
    s: Seq<char>,
    t: Seq<char>,
    args: ArgValues,
    set: Option<Seq<char>>,
    whole: RunResult<Value>,
    left: RunResult<Value>,
    right: RunResult<Value>,
)
    requires
        before.wf(),
        strips(before, args, set),
        str_called(before, m1, v1, s, StaticStrings::Strip, args, whole),
        str_called(before, m2, v2, s, StaticStrings::Lstrip, args, left),
        text_given(v2, left) == Some(t),
        str_called(before, m3, v3, t, StaticStrings::Rstrip, args, right),
        whole is Ok,
        right is Ok,
    ensures
        text_given(v1, whole) == text_given(v3, right),
{
    lemma_text_answer(before, m1, v1, args, whole, stripped(s, set));
    lemma_text_answer(before, m2, v2, args, left, lstripped(s, set));
    lemma_text_answer(before, m3, v3, args, right, rstripped(t, set));
}

/// `startswith` with a text says whether the text starts with it.
pub proof fn lemma_startswith(
    before: VM,
    mid: VM,
    after: VM,
    s: Seq<char>,
    args: ArgValues,
    t: Seq<char>,
    r: RunResult<Value>,
)
    requires
        args.just(1),
        before.text_of(args.pos@[0]) == Some(t),
        str_called(before, mid, after, s, StaticStrings::Startswith, args, r),
    ensures
        r == Ok::<Value, RunError>(Value::Bool(t.len() <= s.len() && s.take(t.len() as int) == t)),
{
    lemma_whole(s);
    let all = seq![t];
    assert(all[0] == t);
    if t.len() <= s.len() && s.take(t.len() as int) == t {
        assert(t.is_prefix_of(s));
        assert(all[0].is_prefix_of(between(s, 0, s.len() as int)));
    }
    assert(t.is_prefix_of(s) ==> s.take(t.len() as int) =~= t);
}

/// `endswith` with a text says whether the text ends with it.
pub proof fn lemma_endswith(
    before: VM,
    mid: VM,
    after: VM,
    s: Seq<char>,
    args: ArgValues,
    t: Seq<char>,
    r: RunResult<Value>,
)
    requires
        args.just(1),
        before.text_of(args.pos@[0]) == Some(t),
        str_called(before, mid, after, s, StaticStrings::Endswith, args, r),
    ensures
        r == Ok::<Value, RunError>(Value::Bool(t.len() <= s.len() && s.skip(s.len() - t.len()) == t)),
{
    lemma_whole(s);
    let all = seq![t];
    assert(all[0] == t);
    if t.len() <= s.len() && s.skip(s.len() - t.len()) == t {
        assert(t =~= s.subrange(s.len() - t.len(), s.len() as int));
        assert(t.is_suffix_of(s));
        assert(all[0].is_suffix_of(between(s, 0, s.len() as int)));
    }
    assert(t.is_suffix_of(s) ==> s.skip(s.len() - t.len()) =~= t);
}

/// The part from the start to the end is the whole.
pub proof fn lemma_whole(s: Seq<char>)
    ensures
        between(s, 0, s.len() as int) == s,
{
    assert(between(s, 0, s.len() as int) =~= s);
}

/// `startswith` and `endswith` with a tuple of texts hold where they hold with one of
/// them.
pub proof fn lemma_affix_tuple(
    before: VM,
    mid: VM,
    after: VM,
    s: Seq<char>,
    args: ArgValues,
    vs: Seq<Value>,
    k: int,
    t: Seq<char>,
    starts: bool,
    r: RunResult<Value>,
)
    requires
        args.just(1),
        crate::laws::results::tuple_items(before, args.pos@[0]) == Some(vs),
        0 <= k < vs.len(),
        before.text_of(vs[k]) == Some(t),
        str_called(
            before,
            mid,
            after,
            s,
            if starts {
                StaticStrings::Startswith
            } else {
                StaticStrings::Endswith
            },
            args,
            r,
        ),
        r is Ok,
        t.len() <= s.len(),
        starts ==> s.take(t.len() as int) == t,
        !starts ==> s.skip(s.len() - t.len()) == t,
    ensures
        r == Ok::<Value, RunError>(Value::Bool(true)),
{
    lemma_whole(s);
    lemma_all_texts(before, vs, k);
    let all = crate::types::str_args::all_texts(before, vs)->0;
    assert(all[k] == t);
    if starts {
        assert(t.is_prefix_of(s));
        assert(all[k].is_prefix_of(between(s, 0, s.len() as int)));
    } else {
        assert(t =~= s.subrange(s.len() - t.len(), s.len() as int));
        assert(t.is_suffix_of(s));
        assert(all[k].is_suffix_of(between(s, 0, s.len() as int)));
    }
}

/// The texts of values that are all strings are theirs.
pub proof fn lemma_all_texts(vm: VM, vs: Seq<Value>, k: int)
    requires
        0 <= k < vs.len(),
    ensures
        crate::types::str_args::all_texts(vm, vs) matches Some(ts) ==> ts.len() == vs.len()
            && vm.text_of(vs[k]) == Some(ts[k]),
    decreases vs.len(),
{
    if vs.len() == 1 {
        assert(crate::types::str_args::all_texts(vm, vs.drop_last()) == Some(
            Seq::<Seq<char>>::empty(),
        ));
    } else if k == vs.len() - 1 {
        lemma_all_texts(vm, vs.drop_last(), 0);
    } else {
        lemma_all_texts(vm, vs.drop_last(), k);
    }
}

/// `removeprefix` gives what follows the prefix, or the text where it does not start
/// with it.
pub proof fn lemma_removeprefix(
    before: VM,
    mid: VM,
    after: VM,
    s: Seq<char>,
    args: ArgValues,
    t: Seq<char>,
    r: RunResult<Value>,
)
    requires
        before.wf(),
        args.just(1),
        before.text_of(args.pos@[0]) == Some(t),
        str_called(before, mid, after, s, StaticStrings::Removeprefix, args, r),
        r is Ok,
    ensures
        text_given(after, r) matches Some(u) && (t + u == s || (u == s && !(t.len() <= s.len()
            && s.take(t.len() as int) == t))),
{
    let u = if t.is_prefix_of(s) {
        s.skip(t.len() as int)
    } else {
        s
    };
    lemma_text_answer(before, mid, after, args, r, u);
    if t.is_prefix_of(s) {
        assert(t + u =~= s);
    }
}

/// `removesuffix` gives what stands before the suffix, or the text where it does not
/// end with it.
pub proof fn lemma_removesuffix(
    before: VM,
    mid: VM,
    after: VM,
    s: Seq<char>,
    args: ArgValues,
    t: Seq<char>,
    r: RunResult<Value>,
)
    requires
        before.wf(),
        args.just(1),
        before.text_of(args.pos@[0]) == Some(t),
        str_called(before, mid, after, s, StaticStrings::Removesuffix, args, r),
        r is Ok,
    ensures
        text_given(after, r) matches Some(u) && (u + t == s || (u == s && !(t.len() <= s.len()
            && s.skip(s.len() - t.len()) == t))),
{
    let u = if t.is_suffix_of(s) {
        s.take(s.len() - t.len())
    } else {
        s
    };
    lemma_text_answer(before, mid, after, args, r, u);
    if t.is_suffix_of(s) {
        assert(u + t =~= s);
    } else if t.len() <= s.len() && s.skip(s.len() - t.len()) == t {
        assert(t =~= s.subrange(s.len() - t.len(), s.len() as int));
    }
}

/// Whether a text is only this character, so many times.
pub open spec fn fills(t: Seq<char>, c: char, n: int) -> bool {
    t.len() == n && forall|i: int| 0 <= i < t.len() ==> #[trigger] t[i] == c
}

/// Whether the arguments are a width and a fill character, a space where none is
/// given.
pub open spec fn pads(vm: VM, args: ArgValues, width: int, fill: char) -> bool {
    &&& args.kwargs@.len() == 0
    &&& args.pos@.len() >= 1
    &&& args.pos@[0] matches Value::Int(n) && n == width
    &&& args.pos@.len() == 1 ==> fill == ' '
    &&& args.pos@.len() == 2 ==> vm.text_of(args.pos@[1]) == Some(seq![fill])
    &&& args.pos@.len() <= 2
}

/// `ljust` puts the fill characters that the width asks for after the text.
pub proof fn lemma_ljust(
    before: VM,
    mid: VM,
    after: VM,
    s: Seq<char>,
    args: ArgValues,
    width: int,
    fill: char,
    r: RunResult<Value>,
)
    requires
        before.wf(),
        pads(before, args, width, fill),
        width <= usize::MAX,
        str_called(before, mid, after, s, StaticStrings::Ljust, args, r),
        r is Ok,
    ensures
        text_given(after, r) matches Some(t) && if width <= s.len() {
            t == s
        } else {
            t.len() == width && t.take(s.len() as int) == s && fills(
                t.skip(s.len() as int),
                fill,
                width - s.len(),
            )
        },
{
    let w = crate::types::str_args::as_size(width);
    let t = crate::types::str_format::left_justified(s, w, fill);
    lemma_text_answer(before, mid, after, args, r, t);
    if width > s.len() {
        assert(t.take(s.len() as int) =~= s);
    }
}

/// `rjust` puts the fill characters that the width asks for before the text.
pub proof fn lemma_rjust(
    before: VM,
    mid: VM,
    after: VM,
    s: Seq<char>,
    args: ArgValues,
    width: int,
    fill: char,
    r: RunResult<Value>,
)
    requires
        before.wf(),
        pads(before, args, width, fill),
        width <= usize::MAX,
        str_called(before, mid, after, s, StaticStrings::Rjust, args, r),
        r is Ok,
    ensures
        text_given(after, r) matches Some(t) && if width <= s.len() {
            t == s
        } else {
            t.len() == width && t.skip(width - s.len()) == s && fills(
                t.take(width - s.len()),
                fill,
                width - s.len(),
            )
        },
{
    let w = crate::types::str_args::as_size(width);
    let t = crate::types::str_format::right_justified(s, w, fill);
    lemma_text_answer(before, mid, after, args, r, t);
    if width > s.len() {
        assert(t.skip(width - s.len()) =~= s);
    }
}

/// `center` puts the fill characters that the width asks for around the text, one
/// more after it where their number is odd.
pub proof fn lemma_center(
    before: VM,
    mid: VM,
    after: VM,
    s: Seq<char>,
    args: ArgValues,
    width: int,
    fill: char,
    r: RunResult<Value>,
)
    requires
        before.wf(),
        pads(before, args, width, fill),
        width <= usize::MAX,
        str_called(before, mid, after, s, StaticStrings::Center, args, r),
        r is Ok,
    ensures
        text_given(after, r) matches Some(t) && if width <= s.len() {
            t == s
        } else {
            let left = (width - s.len()) / 2;
            let right = width - s.len() - left;
            &&& t.len() == width
            &&& left <= right <= left + 1
            &&& fills(t.take(left), fill, left)
            &&& t.subrange(left, left + s.len()) == s
            &&& fills(t.skip(width - right), fill, right)
        },
{
    let w = crate::types::str_args::as_size(width);
    let t = crate::types::str_format::centered(s, w, fill);
    lemma_text_answer(before, mid, after, args, r, t);
    if width > s.len() {
        let pad = width - s.len();
        let left = pad / 2;
        let right = pad - left;
        assert(t.subrange(left, left + s.len()) =~= s);
        assert(fills(t.take(left), fill, left));
        assert(fills(t.skip(width - right), fill, right));
    }
}

/// `zfill` puts zeros before the text, after its sign where it has one.
pub proof fn lemma_zfill(
    before: VM,
    mid: VM,
    after: VM,
    s: Seq<char>,
    args: ArgValues,
    width: int,
    r: RunResult<Value>,
)
    requires
        before.wf(),
        args.just(1),
        args.pos@[0] matches Value::Int(n) && n == width,
        width <= usize::MAX,
        str_called(before, mid, after, s, StaticStrings::Zfill, args, r),
        r is Ok,
    ensures
        text_given(after, r) matches Some(t) && ({
            let sign = if s.len() > 0 && (s[0] == '+' || s[0] == '-') {
                1int
            } else {
                0
            };
            if width <= s.len() {
                t == s
            } else {
                &&& t.len() == width
                &&& t.take(sign) == s.take(sign)
                &&& fills(t.subrange(sign, sign + width - s.len()), '0', width - s.len())
                &&& t.skip(sign + width - s.len()) == s.skip(sign)
            }
        }),
{
    let w = crate::types::str_args::as_size(width);
    let t = crate::types::str_format::zero_filled(s, w);
    lemma_text_answer(before, mid, after, args, r, t);
    if width > s.len() {
        let sign = if s.len() > 0 && (s[0] == '+' || s[0] == '-') {
            1int
        } else {
            0
        };
        assert(t.take(sign) =~= s.take(sign));
        assert(t.skip(sign + width - s.len()) =~= s.skip(sign));
    }
}

} // verus!
