//! What the methods of strings find, split, join and replace.

use vstd::prelude::*;

use crate::args::{raises, ArgValues};
use crate::exception::{ExcType, RunError, RunResult};
use crate::intern::StaticStrings;
use crate::laws::items::slice_edge;
use crate::laws::str_ends::lemma_whole;
use crate::laws::strings::{
    lemma_texts_answer, lemma_tuple_answer, str_called, texts_in_tuple, texts_listed,
};
use crate::types::str_methods::between;
use crate::types::str_search::{
    count_matches, first_match, last_match, lemma_first_match, lemma_last_match, matches_at,
    one_less, partitioned, rpartitioned, split_pieces,
};
use crate::value::Value;
use crate::vm::VM;

verus! {

/// Whether a text stands at a place of another.
pub open spec fn stands(s: Seq<char>, sub: Seq<char>, i: int) -> bool {
    0 <= i && i + sub.len() <= s.len() && forall|k: int|
        0 <= k < sub.len() ==> s[i + k] == #[trigger] sub[k]
}

/// A text stands at a place where it matches.
pub proof fn lemma_stands(s: Seq<char>, sub: Seq<char>, i: int)
    ensures
        stands(s, sub, i) == matches_at(s, sub, i),
{
    if matches_at(s, sub, i) {
        assert forall|k: int| 0 <= k < sub.len() implies s[i + k] == #[trigger] sub[k] by {
            assert(s.subrange(i, i + sub.len())[k] == sub[k]);
        }
    }
    if stands(s, sub, i) {
        assert forall|k: int| 0 <= k < sub.len() implies s.subrange(i, i + sub.len())[k]
            == sub[k] by {
            assert(s[i + k] == sub[k]);
        }
        assert(s.subrange(i, i + sub.len()) =~= sub);
    }
}

/// Whether a text stands nowhere in another.
pub open spec fn absent(s: Seq<char>, sub: Seq<char>) -> bool {
    forall|i: int| !#[trigger] stands(s, sub, i)
}

/// What a first or last match is.
proof fn lemma_found(s: Seq<char>, sub: Seq<char>)
    ensures
        match first_match(s, sub, 0) {
            Some(p) => stands(s, sub, p) && forall|q: int| q < p ==> !#[trigger] stands(s, sub, q),
            None => absent(s, sub),
        },
        match last_match(s, sub, s.len() - sub.len()) {
            Some(p) => stands(s, sub, p) && forall|q: int| p < q ==> !#[trigger] stands(s, sub, q),
            None => absent(s, sub),
        },
{
    lemma_first_match(s, sub, 0);
    lemma_last_match(s, sub, s.len() - sub.len());
    assert forall|i: int| #[trigger] stands(s, sub, i) == matches_at(s, sub, i) by {
        lemma_stands(s, sub, i);
    }
}

/// `find` gives the first place where a text stands and -1 where there is none;
/// `index` gives the same place and a `ValueError` where there is none.
pub proof fn lemma_find(
    before: VM,
    mid: VM,
    after: VM,
    s: Seq<char>,
    args: ArgValues,
    sub: Seq<char>,
    r: RunResult<Value>,
    required: bool,
)
    requires
        args.just(1),
        before.text_of(args.pos@[0]) == Some(sub),
        s.len() <= i64::MAX,
        str_called(
            before,
            mid,
            after,
            s,
            if required {
                StaticStrings::Index
            } else {
                StaticStrings::Find
            },
            args,
            r,
        ),
    ensures
        absent(s, sub) ==> if required {
            raises(r, (ExcType::ValueError, "substring not found"@))
        } else {
            r == Ok::<Value, RunError>(Value::Int((-1) as i64))
        },
        !absent(s, sub) ==> (r matches Ok(Value::Int(p)) && stands(s, sub, p as int) && forall|q: int|
            q < p ==> !#[trigger] stands(s, sub, q)),
{
    lemma_whole(s);
    lemma_found(s, sub);
}

/// `rfind` gives the last place where a text stands and -1 where there is none;
/// `rindex` gives the same place and a `ValueError` where there is none.
pub proof fn lemma_rfind(
    before: VM,
    mid: VM,
    after: VM,
    s: Seq<char>,
    args: ArgValues,
    sub: Seq<char>,
    r: RunResult<Value>,
    required: bool,
)
    requires
        args.just(1),
        before.text_of(args.pos@[0]) == Some(sub),
        s.len() <= i64::MAX,
        str_called(
            before,
            mid,
            after,
            s,
            if required {
                StaticStrings::Rindex
            } else {
                StaticStrings::Rfind
            },
            args,
            r,
        ),
    ensures
        absent(s, sub) ==> if required {
            raises(r, (ExcType::ValueError, "substring not found"@))
        } else {
            r == Ok::<Value, RunError>(Value::Int((-1) as i64))
        },
        !absent(s, sub) ==> (r matches Ok(Value::Int(p)) && stands(s, sub, p as int) && forall|q: int|
            p < q ==> !#[trigger] stands(s, sub, q)),
{
    lemma_whole(s);
    lemma_found(s, sub);
}

/// With a start and an end, which count from the end when negative, `find` gives the
/// first place between them and `rfind` the last one; -1 where there is none.
pub proof fn lemma_find_between(
    before: VM,
    mid: VM,
    after: VM,
    s: Seq<char>,
    args: ArgValues,
    sub: Seq<char>,
    a: i64,
    b: i64,
    r: RunResult<Value>,
    from_right: bool,
)
    requires
        args.just(3),
        before.text_of(args.pos@[0]) == Some(sub),
        args.pos@[1] == Value::Int(a),
        args.pos@[2] == Value::Int(b),
        s.len() <= i64::MAX,
        slice_edge(a as int, s.len() as int, true) <= slice_edge(b as int, s.len() as int, true),
        str_called(
            before,
            mid,
            after,
            s,
            if from_right {
                StaticStrings::Rfind
            } else {
                StaticStrings::Find
            },
            args,
            r,
        ),
    ensures
        ({
            let from = slice_edge(a as int, s.len() as int, true);
            let to = slice_edge(b as int, s.len() as int, true);
            r matches Ok(Value::Int(p)) && if p == -1 {
                forall|q: int| from <= q && q + sub.len() <= to ==> !#[trigger] stands(s, sub, q)
            } else {
                &&& from <= p && p + sub.len() <= to && stands(s, sub, p as int)
                &&& forall|q: int|
                    from <= q && q + sub.len() <= to && (if from_right {
                        p < q
                    } else {
                        q < p
                    }) ==> !#[trigger] stands(s, sub, q)
            }
        }),
{
    let from = slice_edge(a as int, s.len() as int, true);
    let to = slice_edge(b as int, s.len() as int, true);
    let part = between(s, from, to);
    assert(part =~= s.subrange(from, to));
    lemma_found(part, sub);
    assert forall|q: int| from <= q && q + sub.len() <= to implies #[trigger] stands(s, sub, q)
        == stands(part, sub, q - from) by {
        if stands(s, sub, q) {
            assert forall|k: int| 0 <= k < sub.len() implies part[q - from + k] == #[trigger] sub[k] by {
                assert(s[q + k] == sub[k]);
            }
        }
        if stands(part, sub, q - from) {
            assert forall|k: int| 0 <= k < sub.len() implies s[q + k] == #[trigger] sub[k] by {
                assert(part[q - from + k] == sub[k]);
            }
        }
    }
    match first_match(part, sub, 0) {
        Some(p) => {
            assert(stands(part, sub, p));
            assert(stands(s, sub, from + p));
        },
        None => {},
    }
    match last_match(part, sub, part.len() - sub.len()) {
        Some(p) => {
            assert(stands(part, sub, p));
            assert(stands(s, sub, from + p));
        },
        None => {},
    }
}

/// The texts one after the other, with another between each two of them.
pub open spec fn glued(pieces: Seq<Seq<char>>, sep: Seq<char>) -> Seq<char>
    decreases pieces.len(),
{
    if pieces.len() == 0 {
        Seq::empty()
    } else if pieces.len() == 1 {
        pieces[0]
    } else {
        glued(pieces.drop_last(), sep) + sep + pieces.last()
    }
}

/// The texts put together from the left are the same.
pub proof fn lemma_glued(pieces: Seq<Seq<char>>, sep: Seq<char>)
    ensures
        glued(pieces, sep) == crate::types::str_search::join_with(pieces, sep),
    decreases pieces.len(),
{
    if pieces.len() > 0 {
        lemma_glued(pieces.drop_last(), sep);
        crate::types::str_search::lemma_join_push(pieces.drop_last(), pieces.last(), sep);
        assert(pieces.drop_last().push(pieces.last()) =~= pieces);
    }
}

/// Whether the arguments of `split` or `rsplit` are a separator and perhaps how often
/// to split.
pub open spec fn splits(vm: VM, args: ArgValues, sep: Seq<char>, max: Option<i64>) -> bool {
    &&& args.kwargs@.len() == 0
    &&& args.pos@.len() >= 1
    &&& vm.text_of(args.pos@[0]) == Some(sep)
    &&& match max {
        Some(n) => args.pos@.len() == 2 && args.pos@[1] == Value::Int(n),
        None => args.pos@.len() == 1,
    }
}

/// Whether splitting may go on after so many splits: without a limit, with a negative
/// one, and before it is reached.
pub open spec fn may_split(max: Option<i64>, done: int) -> bool {
    max is None || max->0 < 0 || done < max->0
}

proof fn lemma_pieces(s: Seq<char>, sep: Seq<char>, from: int, max: Option<nat>)
    requires
        sep.len() > 0,
        0 <= from <= s.len(),
    ensures
        ({
            let pieces = split_pieces(s, sep, from, max);
            &&& pieces.len() >= 1
            &&& glued(pieces, sep) == s.skip(from)
            &&& forall|i: int|
                0 <= i < pieces.len() - 1 ==> first_at_end(#[trigger] pieces[i], sep)
            &&& max is Some ==> pieces.len() <= max->0 + 1
            &&& max is None || pieces.len() <= max->0 ==> absent(pieces.last(), sep)
        }),
    decreases s.len() - from,
{
    crate::types::str_search::lemma_split_then_join(s, sep, from, max);
    let pieces = split_pieces(s, sep, from, max);
    lemma_glued(pieces, sep);
    lemma_first_match(s, sep, from);
    if max != Some(0nat) {
        match first_match(s, sep, from) {
            Some(i) => {
                lemma_pieces(s, sep, i + sep.len(), one_less(max));
                let rest = split_pieces(s, sep, i + sep.len(), one_less(max));
                assert(pieces == seq![s.subrange(from, i)] + rest);
                assert(pieces.last() == rest.last());
                lemma_first_at_end(s, sep, from, i);
                assert forall|k: int| 0 <= k < pieces.len() - 1 implies first_at_end(
                    #[trigger] pieces[k],
                    sep,
                ) by {
                    if k > 0 {
                        assert(pieces[k] == rest[k - 1]);
                    }
                }
            },
            None => {
                assert(pieces == seq![s.skip(from)]);
                assert forall|k: int| !#[trigger] stands(s.skip(from), sep, k) by {
                    if stands(s.skip(from), sep, k) {
                        assert forall|j: int| 0 <= j < sep.len() implies s[from + k + j]
                            == #[trigger] sep[j] by {
                            assert(s.skip(from)[k + j] == sep[j]);
                        }
                        lemma_stands(s, sep, from + k);
                        assert(matches_at(s, sep, from + k));
                    }
                }
            },
        }
    }
}

/// Whether a separator after a text stands in the two together first at the end.
pub open spec fn first_at_end(piece: Seq<char>, sep: Seq<char>) -> bool {
    forall|k: int| k < piece.len() ==> !#[trigger] stands(piece + sep, sep, k)
}

/// Whether a separator before a text stands in the two together last at the start.
pub open spec fn last_at_start(piece: Seq<char>, sep: Seq<char>) -> bool {
    forall|k: int| 0 < k ==> !#[trigger] stands(sep + piece, sep, k)
}

proof fn lemma_first_at_end(s: Seq<char>, sep: Seq<char>, from: int, i: int)
    requires
        0 <= from <= i,
        matches_at(s, sep, i),
        forall|j: int| from <= j < i ==> !#[trigger] matches_at(s, sep, j),
    ensures
        first_at_end(s.subrange(from, i), sep),
{
    let piece = s.subrange(from, i);
    lemma_stands(s, sep, i);
    assert forall|k: int| k < piece.len() implies !#[trigger] stands(piece + sep, sep, k) by {
        if stands(piece + sep, sep, k) {
            assert forall|j: int| 0 <= j < sep.len() implies s[from + k + j] == #[trigger] sep[j] by {
                assert((piece + sep)[k + j] == sep[j]);
                if k + j >= piece.len() {
                    assert(s[i + (k + j - piece.len())] == sep[k + j - piece.len()]);
                }
            }
            lemma_stands(s, sep, from + k);
            assert(matches_at(s, sep, from + k));
        }
    }
}

/// `split` with a separator: the pieces with the separator between them are the
/// text, each one but the last goes up to the first separator after it, and the last
/// one holds none unless the limit was reached.
pub proof fn lemma_split(
    before: VM,
    mid: VM,
    after: VM,
    s: Seq<char>,
    args: ArgValues,
    sep: Seq<char>,
    max: Option<i64>,
    r: RunResult<Value>,
)
    requires
        before.wf(),
        splits(before, args, sep, max),
        max is Some ==> max->0 <= usize::MAX,
        sep.len() > 0,
        str_called(before, mid, after, s, StaticStrings::Split, args, r),
        r is Ok,
    ensures
        exists|pieces: Seq<Seq<char>>| #[trigger]
            texts_listed(after, r, pieces) && {
                &&& pieces.len() >= 1
                &&& glued(pieces, sep) == s
                &&& forall|i: int|
                    0 <= i < pieces.len() - 1 ==> first_at_end(#[trigger] pieces[i], sep)
                &&& forall|k: int| 0 <= k < pieces.len() - 1 ==> #[trigger] may_split(max, k)
                &&& may_split(max, pieces.len() - 1) ==> absent(pieces.last(), sep)
            },
{
    let limit = match max {
        Some(n) => crate::types::str_methods::limit_from(n as int),
        None => None,
    };
    reveal_with_fuel(crate::args::kwargs_error, 1);
    let pieces = split_pieces(s, sep, 0, limit);
    assert(s.skip(0) =~= s);
    lemma_pieces(s, sep, 0, limit);
    lemma_texts_answer(before, mid, after, args, r, pieces);
}

/// The same for `rsplit`, counted from the right: each piece but the first starts
/// after the last separator before it.
pub proof fn lemma_rsplit(
    before: VM,
    mid: VM,
    after: VM,
    s: Seq<char>,
    args: ArgValues,
    sep: Seq<char>,
    max: Option<i64>,
    r: RunResult<Value>,
)
    requires
        before.wf(),
        splits(before, args, sep, max),
        max is Some ==> max->0 <= usize::MAX,
        sep.len() > 0,
        str_called(before, mid, after, s, StaticStrings::Rsplit, args, r),
        r is Ok,
    ensures
        exists|pieces: Seq<Seq<char>>| #[trigger]
            texts_listed(after, r, pieces) && {
                &&& pieces.len() >= 1
                &&& glued(pieces, sep) == s
                &&& forall|i: int|
                    0 < i < pieces.len() ==> last_at_start(#[trigger] pieces[i], sep)
                &&& forall|k: int| 0 <= k < pieces.len() - 1 ==> #[trigger] may_split(max, k)
                &&& may_split(max, pieces.len() - 1) ==> absent(pieces[0], sep)
            },
{
    let limit = match max {
        Some(n) => crate::types::str_methods::limit_from(n as int),
        None => None,
    };
    reveal_with_fuel(crate::args::kwargs_error, 1);
    let pieces = crate::types::str_search::rsplit_pieces(s, sep, s.len() as int, limit);
    assert(s.take(s.len() as int) =~= s);
    lemma_rpieces(s, sep, s.len() as int, limit);
    lemma_texts_answer(before, mid, after, args, r, pieces);
}

proof fn lemma_last_at_start(s: Seq<char>, sep: Seq<char>, i: int, to: int)
    requires
        matches_at(s, sep, i),
        i + sep.len() <= to <= s.len(),
        forall|j: int| i < j <= to - sep.len() ==> !#[trigger] matches_at(s, sep, j),
    ensures
        last_at_start(s.subrange(i + sep.len(), to), sep),
{
    let piece = s.subrange(i + sep.len(), to);
    lemma_stands(s, sep, i);
    assert forall|k: int| 0 < k implies !#[trigger] stands(sep + piece, sep, k) by {
        if stands(sep + piece, sep, k) {
            assert forall|j: int| 0 <= j < sep.len() implies s[i + k + j] == #[trigger] sep[j] by {
                assert((sep + piece)[k + j] == sep[j]);
                if k + j < sep.len() {
                    assert(s[i + (k + j)] == sep[k + j]);
                }
            }
            lemma_stands(s, sep, i + k);
            assert(matches_at(s, sep, i + k));
        }
    }
}

proof fn lemma_rpieces(s: Seq<char>, sep: Seq<char>, to: int, max: Option<nat>)
    requires
        sep.len() > 0,
        0 <= to <= s.len(),
    ensures
        ({
            let pieces = crate::types::str_search::rsplit_pieces(s, sep, to, max);
            &&& pieces.len() >= 1
            &&& glued(pieces, sep) == s.take(to)
            &&& forall|i: int| 0 < i < pieces.len() ==> last_at_start(#[trigger] pieces[i], sep)
            &&& max is Some ==> pieces.len() <= max->0 + 1
            &&& max is None || pieces.len() <= max->0 ==> absent(pieces[0], sep)
        }),
    decreases to,
{
    crate::types::str_search::lemma_rsplit_then_join(s, sep, to, max);
    let pieces = crate::types::str_search::rsplit_pieces(s, sep, to, max);
    lemma_glued(pieces, sep);
    lemma_last_match(s, sep, to - sep.len());
    if max != Some(0nat) {
        match last_match(s, sep, to - sep.len()) {
            Some(i) => {
                lemma_rpieces(s, sep, i, one_less(max));
                let rest = crate::types::str_search::rsplit_pieces(s, sep, i, one_less(max));
                assert(pieces == rest.push(s.subrange(i + sep.len(), to)));
                lemma_last_at_start(s, sep, i, to);
                assert(pieces[0] == rest[0]);
            },
            None => {
                assert(pieces == seq![s.take(to)]);
                assert forall|k: int| !#[trigger] stands(s.take(to), sep, k) by {
                    if stands(s.take(to), sep, k) {
                        assert forall|j: int| 0 <= j < sep.len() implies s[k + j]
                            == #[trigger] sep[j] by {
                            assert(s.take(to)[k + j] == sep[j]);
                        }
                        lemma_stands(s, sep, k);
                        assert(matches_at(s, sep, k));
                    }
                }
            },
        }
    }
}

/// `count` says how often a text that is not empty stands in another without
/// overlaps: once less than the pieces that `split` gives.
pub proof fn lemma_count(
    before: VM,
    m1: VM,
    v1: VM,
    m2: VM,
    v2: VM,
    s: Seq<char>,
    args: ArgValues,
    sub: Seq<char>,
    pieces: Seq<Seq<char>>,
    r: RunResult<Value>,
    parts: RunResult<Value>,
)
    requires
        before.wf(),
        args.just(1),
        before.text_of(args.pos@[0]) == Some(sub),
        sub.len() > 0,
        s.len() <= i64::MAX,
        str_called(before, m1, v1, s, StaticStrings::Count, args, r),
        str_called(before, m2, v2, s, StaticStrings::Split, args, parts),
        texts_listed(v2, parts, pieces),
    ensures
        r == Ok::<Value, RunError>(Value::Int((pieces.len() - 1) as i64)),
        pieces.len() - 1 <= s.len(),
{
    reveal_with_fuel(crate::args::kwargs_error, 1);
    lemma_whole(s);
    lemma_texts_answer(before, m2, v2, args, parts, split_pieces(s, sub, 0, None));
    lemma_counted(s, sub, 0);
}

proof fn lemma_counted(s: Seq<char>, sub: Seq<char>, from: int)
    requires
        sub.len() > 0,
        0 <= from <= s.len(),
    ensures
        split_pieces(s, sub, from, None).len() == count_matches(s, sub, from) + 1,
        count_matches(s, sub, from) <= s.len() - from,
    decreases s.len() - from,
{
    lemma_first_match(s, sub, from);
    match first_match(s, sub, from) {
        Some(i) => {
            lemma_counted(s, sub, i + sub.len());
        },
        None => {},
    }
}

/// An empty text stands before every character and at the end.
pub proof fn lemma_count_empty(
    before: VM,
    mid: VM,
    after: VM,
    s: Seq<char>,
    args: ArgValues,
    r: RunResult<Value>,
)
    requires
        args.just(1),
        before.text_of(args.pos@[0]) == Some(Seq::<char>::empty()),
        s.len() < i64::MAX,
        str_called(before, mid, after, s, StaticStrings::Count, args, r),
    ensures
        r == Ok::<Value, RunError>(Value::Int((s.len() + 1) as i64)),
{
    lemma_whole(s);
}

/// A list has only one sequence of texts.
pub proof fn texts_listed_same(
    after: VM,
    r: RunResult<Value>,
    a: Seq<Seq<char>>,
    b: Seq<Seq<char>>,
)
    requires
        texts_listed(after, r, a),
        texts_listed(after, r, b),
    ensures
        a == b,
{
    let vs = crate::laws::results::list_items(after, r->Ok_0)->0;
    assert forall|i: int| 0 <= i < a.len() implies a[i] == b[i] by {
        assert(after.text_of(vs[i]) == Some(a[i]));
    }
    assert(a =~= b);
}

/// Whether a result is a tuple of three texts.
pub open spec fn parted(
    after: VM,
    r: RunResult<Value>,
    a: Seq<char>,
    b: Seq<char>,
    c: Seq<char>,
) -> bool {
    texts_in_tuple(after, r, seq![a, b, c])
}

/// `partition` gives what is before the first separator, the separator and what is
/// after it; without a separator the text and two empty ones.
pub proof fn lemma_partition(
    before: VM,
    mid: VM,
    after: VM,
    s: Seq<char>,
    args: ArgValues,
    sep: Seq<char>,
    r: RunResult<Value>,
)
    requires
        before.wf(),
        args.just(1),
        before.text_of(args.pos@[0]) == Some(sep),
        sep.len() > 0,
        str_called(before, mid, after, s, StaticStrings::Partition, args, r),
        r is Ok,
    ensures
        absent(s, sep) ==> parted(after, r, s, Seq::empty(), Seq::empty()),
        !absent(s, sep) ==> exists|a: Seq<char>, b: Seq<char>| #[trigger]
            parted(after, r, a, sep, b) && a + sep + b == s && forall|q: int|
                q < a.len() ==> !#[trigger] stands(s, sep, q),
{
    let p = partitioned(s, sep);
    lemma_tuple_answer(before, mid, after, args, r, seq![p.0, p.1, p.2]);
    crate::types::str_search::lemma_partition_concat(s, sep);
    lemma_found(s, sep);
    if !absent(s, sep) {
        assert(parted(after, r, p.0, sep, p.2));
    }
}

/// `rpartition` gives what is before the last separator, the separator and what is
/// after it; without a separator two empty texts and the text.
pub proof fn lemma_rpartition(
    before: VM,
    mid: VM,
    after: VM,
    s: Seq<char>,
    args: ArgValues,
    sep: Seq<char>,
    r: RunResult<Value>,
)
    requires
        before.wf(),
        args.just(1),
        before.text_of(args.pos@[0]) == Some(sep),
        sep.len() > 0,
        str_called(before, mid, after, s, StaticStrings::Rpartition, args, r),
        r is Ok,
    ensures
        absent(s, sep) ==> parted(after, r, Seq::empty(), Seq::empty(), s),
        !absent(s, sep) ==> exists|a: Seq<char>, b: Seq<char>| #[trigger]
            parted(after, r, a, sep, b) && a + sep + b == s && forall|q: int|
                a.len() < q ==> !#[trigger] stands(s, sep, q),
{
    let p = rpartitioned(s, sep);
    lemma_tuple_answer(before, mid, after, args, r, seq![p.0, p.1, p.2]);
    crate::types::str_search::lemma_partition_concat(s, sep);
    lemma_found(s, sep);
    if !absent(s, sep) {
        assert(parted(after, r, p.0, sep, p.2));
    }
}

} // verus!
