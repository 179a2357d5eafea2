//! How calls of the methods of strings relate to each other.

use vstd::prelude::*;

use crate::args::{raises, ArgValues};
use crate::exception::{ExcType, RunError, RunResult};
use crate::intern::{Interns, StaticStrings};
use crate::laws::items::slice_edge;
use crate::laws::str_parts::{glued, lemma_glued, texts_listed_same};
use crate::laws::strings::{
    lemma_text_answer, lemma_texts_answer, str_called, text_given, texts_listed,
};
use crate::types::str_args::{all_texts, split_args};
use crate::types::str_methods::{between, letters, str_method_outcome};
use crate::types::str_search::join_with;
use crate::value::Value;
use crate::vm::VM;

verus! {

/// Where `find` gives a place, `index` with the same arguments gives it too, and where
/// it gives -1, `index` is a `ValueError`; the same holds of `rfind` and `rindex`.
pub proof fn lemma_index_is_find(
    before: VM,
    s: Seq<char>,
    args: ArgValues,
    from_right: bool,
    m1: VM,
    v1: VM,
    found: RunResult<Value>,
    m2: VM,
    v2: VM,
    index: RunResult<Value>,
)
    requires
        str_called(
            before,
            m1,
            v1,
            s,
            if from_right {
                StaticStrings::Rfind
            } else {
                StaticStrings::Find
            },
            args,
            found,
        ),
        str_called(
            before,
            m2,
            v2,
            s,
            if from_right {
                StaticStrings::Rindex
            } else {
                StaticStrings::Index
            },
            args,
            index,
        ),
        found is Ok,
    ensures
        found == Ok::<Value, RunError>(Value::Int((-1) as i64)) ==> raises(
            index,
            (ExcType::ValueError, "substring not found"@),
        ),
        found != Ok::<Value, RunError>(Value::Int((-1) as i64)) ==> index == found,
{
    lemma_names_only(before, s, args);
    crate::laws::str_ends::lemma_whole(s);
    let a = crate::types::str_args::search_args(before, "str.find"@, s.len() as int, args);
    if a is Ok {
        let (sub, start, end) = a->Ok_0;
        lemma_bounds(before, args, s.len() as int);
        crate::types::str_search::lemma_first_match(between(s, start, end), sub, 0);
        crate::types::str_search::lemma_last_match(
            between(s, start, end),
            sub,
            between(s, start, end).len() - sub.len(),
        );
    }
}

/// The bounds of a search lie in the text.
proof fn lemma_bounds(vm: VM, args: ArgValues, len: int)
    requires
        len >= 0,
    ensures
        crate::types::str_args::bounds_args(vm, args.pos@, len) matches Ok(b) ==> 0 <= b.0 <= len
            && 0 <= b.1 <= len,
{
}

/// The name of a method only matters for its errors.
proof fn lemma_names_only(vm: VM, s: Seq<char>, args: ArgValues)
    ensures
        ({
            let n = s.len() as int;
            let f = crate::types::str_args::search_args(vm, "str.find"@, n, args);
            let i = crate::types::str_args::search_args(vm, "str.index"@, n, args);
            let rf = crate::types::str_args::search_args(vm, "str.rfind"@, n, args);
            let ri = crate::types::str_args::search_args(vm, "str.rindex"@, n, args);
            &&& f is Ok ==> i == f && rf == f && ri == f
            &&& rf is Ok ==> i == rf && f == rf && ri == rf
        }),
{
}

/// `count` between bounds counts in the part between them.
pub proof fn lemma_count_between(
    before: VM,
    s: Seq<char>,
    a: i64,
    b: i64,
    args: ArgValues,
    alone: ArgValues,
    m1: VM,
    v1: VM,
    r: RunResult<Value>,
    m2: VM,
    v2: VM,
    part: RunResult<Value>,
)
    requires
        args.just(3),
        alone.just(1),
        alone.pos@[0] == args.pos@[0],
        args.pos@[1] == Value::Int(a),
        args.pos@[2] == Value::Int(b),
        slice_edge(a as int, s.len() as int, true) <= slice_edge(b as int, s.len() as int, true),
        str_called(before, m1, v1, s, StaticStrings::Count, args, r),
        str_called(
            before,
            m2,
            v2,
            s.subrange(
                slice_edge(a as int, s.len() as int, true),
                slice_edge(b as int, s.len() as int, true),
            ),
            StaticStrings::Count,
            alone,
            part,
        ),
        r is Ok,
    ensures
        r == part,
{
    let from = slice_edge(a as int, s.len() as int, true);
    let to = slice_edge(b as int, s.len() as int, true);
    let t = s.subrange(from, to);
    assert(between(s, from, to) =~= t);
    crate::laws::str_ends::lemma_whole(t);
}

/// `find` from a place on finds what `find` from that place to the end of the text
/// finds.
pub proof fn lemma_find_from(
    before: VM,
    s: Seq<char>,
    a: i64,
    args: ArgValues,
    both: ArgValues,
    m1: VM,
    v1: VM,
    r: RunResult<Value>,
    m2: VM,
    v2: VM,
    q: RunResult<Value>,
)
    requires
        args.just(2),
        both.just(3),
        both.pos@[0] == args.pos@[0],
        args.pos@[1] == Value::Int(a),
        both.pos@[1] == Value::Int(a),
        both.pos@[2] == Value::PyNone || (both.pos@[2] matches Value::Int(n) && n == s.len()),
        str_called(before, m1, v1, s, StaticStrings::Find, args, r),
        str_called(before, m2, v2, s, StaticStrings::Find, both, q),
        r is Ok,
    ensures
        r == q,
{
}

/// Whether an argument is given by this name and nothing else is.
pub open spec fn named(args: ArgValues, name: Seq<char>, v: Value, interns: Interns) -> bool {
    args.kwargs@.len() == 1 && args.kwargs@[0].0.text(interns) == name && args.kwargs@[0].1 == v
}

proof fn lemma_named(args: ArgValues, name: Seq<char>, v: Value, interns: Interns, i: int)
    requires
        named(args, name, v, interns),
        i >= args.pos@.len(),
    ensures
        args.argument(i, name, interns) == Some(v),
{
    let names = crate::args::kwarg_names(args.kwargs@, interns);
    assert(names[0] == name);
}

/// `maxsplit` may be given by its name: `split` and `rsplit` then give the same.
pub proof fn lemma_maxsplit_named(
    before: VM,
    s: Seq<char>,
    sep: Seq<char>,
    from_right: bool,
    args: ArgValues,
    plain: ArgValues,
    m1: VM,
    v1: VM,
    r: RunResult<Value>,
    m2: VM,
    v2: VM,
    q: RunResult<Value>,
    pieces: Seq<Seq<char>>,
)
    requires
        before.wf(),
        plain.just(2),
        args.pos@.len() == 1,
        args.pos@[0] == plain.pos@[0],
        before.text_of(plain.pos@[0]) == Some(sep),
        sep.len() > 0,
        named(args, "maxsplit"@, plain.pos@[1], before.interns),
        str_called(
            before,
            m1,
            v1,
            s,
            if from_right {
                StaticStrings::Rsplit
            } else {
                StaticStrings::Split
            },
            args,
            r,
        ),
        str_called(
            before,
            m2,
            v2,
            s,
            if from_right {
                StaticStrings::Rsplit
            } else {
                StaticStrings::Split
            },
            plain,
            q,
        ),
        texts_listed(v2, q, pieces),
        r is Ok,
    ensures
        texts_listed(v1, r, pieces),
{
    reveal_with_fuel(crate::args::kwargs_error, 2);
    reveal_with_fuel(crate::args::place_of, 3);
    reveal_strlit("sep");
    reveal_strlit("maxsplit");
    let interns = before.interns;
    let names = crate::args::kwarg_names(args.kwargs@, interns);
    lemma_named(args, "maxsplit"@, plain.pos@[1], interns, 1);
    assert(names.last() == "maxsplit"@);
    assert("sep"@.len() == 3 && "maxsplit"@.len() == 8);
    assert(names.drop_last() =~= Seq::empty());
    let name = if from_right {
        "rsplit"@
    } else {
        "split"@
    };
    assert(split_args(before, name, args) == split_args(before, name, plain));
    let o = str_method_outcome(
        before,
        s,
        if from_right {
            StaticStrings::Rsplit
        } else {
            StaticStrings::Split
        },
        plain,
    );
    match o {
        crate::outcome::Outcome::Texts(all) => {
            lemma_texts_answer(before, m2, v2, plain, q, all);
            texts_listed_same(v2, q, pieces, all);
            lemma_texts_answer(before, m1, v1, args, r, all);
        },
        _ => {},
    }
}

/// `startswith` and `endswith` with a tuple of texts only hold where they hold with one
/// of them.
pub proof fn lemma_affix_tuple_only(
    before: VM,
    mid: VM,
    after: VM,
    s: Seq<char>,
    args: ArgValues,
    vs: Seq<Value>,
    starts: bool,
    r: RunResult<Value>,
)
    requires
        args.just(1),
        crate::laws::results::tuple_items(before, args.pos@[0]) == Some(vs),
        str_called(
            before,
            mid,
            after,
            s,
            if starts {
                StaticStrings::Startswith
            } else {
                StaticStrings::Endswith
            },
            args,
            r,
        ),
        r == Ok::<Value, RunError>(Value::Bool(true)),
    ensures
        exists|k: int, t: Seq<char>|
            {
                &&& 0 <= k < vs.len()
                &&& before.text_of(#[trigger] vs[k]) == Some(t)
                &&& t.len() <= s.len()
                &&& starts ==> s.take(t.len() as int) == t
                &&& !starts ==> #[trigger] s.skip(s.len() - t.len()) == t
            },
{
    crate::laws::str_ends::lemma_whole(s);
    let all = all_texts(before, vs)->0;
    let whole = between(s, 0, s.len() as int);
    let k = if starts {
        choose|i: int| 0 <= i < all.len() && (#[trigger] all[i]).is_prefix_of(whole)
    } else {
        choose|i: int| 0 <= i < all.len() && (#[trigger] all[i]).is_suffix_of(whole)
    };
    let t = all[k];
    lemma_text_count(before, vs);
    crate::laws::str_ends::lemma_all_texts(before, vs, k);
    if starts {
        assert(s.take(t.len() as int) =~= t);
    } else {
        assert(s.skip(s.len() - t.len()) =~= t);
    }
    assert(before.text_of(vs[k]) == Some(t));
    let tail = s.skip(s.len() - t.len());
}

proof fn lemma_text_count(vm: VM, vs: Seq<Value>)
    ensures
        all_texts(vm, vs) matches Some(ts) ==> ts.len() == vs.len(),
    decreases vs.len(),
{
    if vs.len() > 0 {
        lemma_text_count(vm, vs.drop_last());
    }
}

/// `join` of a text gives its characters with the text between each two.
pub proof fn lemma_join_text(
    before: VM,
    mid: VM,
    after: VM,
    s: Seq<char>,
    t: Seq<char>,
    args: ArgValues,
    r: RunResult<Value>,
)
    requires
        before.wf(),
        args.just(1),
        before.text_of(args.pos@[0]) == Some(t),
        str_called(before, mid, after, s, StaticStrings::Join, args, r),
        r is Ok,
    ensures
        text_given(after, r) == Some(glued(Seq::new(t.len(), |i: int| seq![t[i]]), s)),
{
    let all = Seq::new(t.len(), |i: int| seq![t[i]]);
    assert(letters(t) =~= all);
    lemma_glued(all, s);
    lemma_text_answer(before, mid, after, args, r, join_with(all, s));
}

/// The methods that take no arguments refuse them.
pub proof fn lemma_no_arguments(
    before: VM,
    mid: VM,
    after: VM,
    s: Seq<char>,
    method: StaticStrings,
    args: ArgValues,
    r: RunResult<Value>,
)
    requires
        args.total() > 0,
        method is Lower || method is Upper || method is Capitalize || method is Title
            || method is Swapcase || method is Casefold || method is Isalpha || method is Isdigit
            || method is Isalnum || method is Isnumeric || method is Isspace || method is Islower
            || method is Isupper || method is Isascii || method is Isdecimal
            || method is Isidentifier || method is Istitle,
        str_called(before, mid, after, s, method, args, r),
    ensures
        r is Err,
{
}

} // verus!
