//! Searching, stripping and splitting texts.

use vstd::prelude::*;

use crate::text::{push_range, sub_chars, texts};
use crate::types::str_chars::whitespace;

verus! {

/// Whether `needle` stands at position `i` of `hay`.
pub open spec fn matches_at(hay: Seq<char>, needle: Seq<char>, i: int) -> bool {
    0 <= i && i + needle.len() <= hay.len() && hay.subrange(i, i + needle.len()) == needle
}

/// The first position from `from` on at which `needle` stands.
pub open spec fn first_match(hay: Seq<char>, needle: Seq<char>, from: int) -> Option<int>
    decreases hay.len() + 1 - from,
{
    if from + needle.len() > hay.len() {
        None
    } else if matches_at(hay, needle, from) {
        Some(from)
    } else {
        first_match(hay, needle, from + 1)
    }
}

/// The last position up to `upto` at which `needle` stands.
pub open spec fn last_match(hay: Seq<char>, needle: Seq<char>, upto: int) -> Option<int>
    decreases upto + 1,
{
    if upto < 0 {
        None
    } else if matches_at(hay, needle, upto) {
        Some(upto)
    } else {
        last_match(hay, needle, upto - 1)
    }
}

/// A first match is a match, and there is none before it.
pub proof fn lemma_first_match(hay: Seq<char>, needle: Seq<char>, from: int)
    requires
        0 <= from,
    ensures
        match first_match(hay, needle, from) {
            Some(i) => from <= i && matches_at(hay, needle, i) && forall|j: int|
                from <= j < i ==> !#[trigger] matches_at(hay, needle, j),
            None => forall|j: int| from <= j ==> !#[trigger] matches_at(hay, needle, j),
        },
    decreases hay.len() + 1 - from,
{
    if from + needle.len() <= hay.len() && !matches_at(hay, needle, from) {
        lemma_first_match(hay, needle, from + 1);
    }
}

/// A last match is a match, and there is none after it.
pub proof fn lemma_last_match(hay: Seq<char>, needle: Seq<char>, upto: int)
    ensures
        match last_match(hay, needle, upto) {
            Some(i) => 0 <= i <= upto && matches_at(hay, needle, i) && forall|j: int|
                i < j <= upto ==> !#[trigger] matches_at(hay, needle, j),
            None => forall|j: int| 0 <= j <= upto ==> !#[trigger] matches_at(hay, needle, j),
        },
    decreases upto + 1,
{
    if upto >= 0 && !matches_at(hay, needle, upto) {
        lemma_last_match(hay, needle, upto - 1);
    }
}

/// Whether `needle` stands at position `i`.
pub fn stands_at(hay: &[char], needle: &[char], i: usize) -> (r: bool)
    requires
        i + needle@.len() <= hay@.len(),
    ensures
        r == matches_at(hay@, needle@, i as int),
{
    let n: usize = hay.len();
    for k in 0..needle.len()
        invariant
            n == hay@.len(),
            i + needle@.len() <= hay@.len(),
            forall|j: int| 0 <= j < k ==> hay@[i + j] == needle@[j],
    {
        if hay[i + k] != needle[k] {
            proof {
                assert(hay@.subrange(i as int, i + needle@.len())[k as int] != needle@[k as int]);
            }
            return false;
        }
    }
    assert(hay@.subrange(i as int, i + needle@.len()) =~= needle@);
    true
}

/// The first position from `from` on at which `needle` stands.
pub fn find_from(hay: &[char], needle: &[char], from: usize) -> (r: Option<usize>)
    requires
        from <= hay@.len(),
    ensures
        match (r, first_match(hay@, needle@, from as int)) {
            (Some(i), Some(k)) => i == k && from <= i && i + needle@.len() <= hay@.len(),
            (None, None) => true,
            _ => false,
        },
{
    if needle.len() > hay.len() {
        return None;
    }
    let last: usize = hay.len() - needle.len();
    let mut i: usize = from;
    while i <= last
        invariant
            from <= i <= hay@.len(),
            last == hay@.len() - needle@.len(),
            first_match(hay@, needle@, from as int) == first_match(hay@, needle@, i as int),
        decreases hay@.len() + 1 - i,
    {
        if stands_at(hay, needle, i) {
            return Some(i);
        }
        if i == last {
            assert(first_match(hay@, needle@, i + 1) is None);
            return None;
        }
        i = i + 1;
    }
    None
}

/// The last position at which `needle` stands within the first `to` characters.
pub fn rfind_to(hay: &[char], needle: &[char], to: usize) -> (r: Option<usize>)
    requires
        to <= hay@.len(),
    ensures
        match (r, last_match(hay@, needle@, to - needle@.len())) {
            (Some(i), Some(k)) => i == k && i + needle@.len() <= to,
            (None, None) => true,
            _ => false,
        },
{
    if needle.len() > to {
        return None;
    }
    let mut i: usize = to - needle.len();
    loop
        invariant
            to <= hay@.len(),
            i + needle@.len() <= to,
            last_match(hay@, needle@, to - needle@.len()) == last_match(hay@, needle@, i as int),
        decreases i,
    {
        if stands_at(hay, needle, i) {
            return Some(i);
        }
        if i == 0 {
            assert(last_match(hay@, needle@, -1) is None);
            return None;
        }
        i = i - 1;
    }
}

/// How often `needle` stands in `hay` from `from` on, without overlaps.
pub open spec fn count_matches(hay: Seq<char>, needle: Seq<char>, from: int) -> nat
    decreases hay.len() - from,
    when 0 <= from
{
    proof {
        lemma_first_match(hay, needle, from);
    }
    if needle.len() == 0 {
        0
    } else {
        match first_match(hay, needle, from) {
            Some(i) => 1 + count_matches(hay, needle, i + needle.len()),
            None => 0,
        }
    }
}

/// The occurrences of `needle`; an empty one stands before every character and at the end.
pub open spec fn occurrences(hay: Seq<char>, needle: Seq<char>) -> nat {
    if needle.len() == 0 {
        hay.len() + 1
    } else {
        count_matches(hay, needle, 0)
    }
}

/// Counts the occurrences of `needle` without overlaps.
pub fn count_in(hay: &[char], needle: &[char]) -> (r: u128)
    ensures
        r == occurrences(hay@, needle@),
{
    if needle.len() == 0 {
        return hay.len() as u128 + 1;
    }
    let size: usize = hay.len();
    let mut count: u128 = 0;
    let mut from: usize = 0;
    loop
        invariant
            needle@.len() > 0,
            size == hay@.len(),
            from <= hay@.len(),
            count <= from,
            count + count_matches(hay@, needle@, from as int) == count_matches(hay@, needle@, 0),
        decreases hay@.len() - from,
    {
        match find_from(hay, needle, from) {
            Some(i) => {
                count = count + 1;
                from = i + needle.len();
            },
            None => {
                return count;
            },
        }
    }
}

/// Whether a character is stripped: one of the set, or white space without a set.
pub open spec fn strippable(c: char, set: Option<Seq<char>>) -> bool {
    match set {
        Some(chars) => chars.contains(c),
        None => whitespace(c),
    }
}

/// Where the characters to strip at the start end.
pub open spec fn left_edge(s: Seq<char>, set: Option<Seq<char>>) -> int
    decreases s.len(),
{
    if s.len() == 0 || !strippable(s[0], set) {
        0
    } else {
        1 + left_edge(s.skip(1), set)
    }
}

/// Where the characters to strip at the end begin.
pub open spec fn right_edge(s: Seq<char>, set: Option<Seq<char>>) -> int
    decreases s.len(),
{
    if s.len() == 0 || !strippable(s.last(), set) {
        s.len() as int
    } else {
        right_edge(s.drop_last(), set)
    }
}

/// The text without what is stripped at the start.
pub open spec fn lstripped(s: Seq<char>, set: Option<Seq<char>>) -> Seq<char> {
    s.skip(left_edge(s, set))
}

/// The text without what is stripped at the end.
pub open spec fn rstripped(s: Seq<char>, set: Option<Seq<char>>) -> Seq<char> {
    s.take(right_edge(s, set))
}

/// The edges lie in the text; what is before or after them is stripped, and
/// what stands at them is not.
pub proof fn lemma_edges(s: Seq<char>, set: Option<Seq<char>>)
    ensures
        0 <= left_edge(s, set) <= s.len(),
        0 <= right_edge(s, set) <= s.len(),
        forall|i: int| 0 <= i < left_edge(s, set) ==> strippable(#[trigger] s[i], set),
        forall|i: int| right_edge(s, set) <= i < s.len() ==> strippable(#[trigger] s[i], set),
        left_edge(s, set) < s.len() ==> !strippable(s[left_edge(s, set)], set),
        right_edge(s, set) > 0 ==> !strippable(s[right_edge(s, set) - 1], set),
    decreases s.len(),
{
    if s.len() > 0 {
        if strippable(s[0], set) {
            lemma_edges(s.skip(1), set);
            assert forall|i: int| 0 <= i < left_edge(s, set) implies strippable(
                #[trigger] s[i],
                set,
            ) by {
                if i > 0 {
                    assert(s[i] == s.skip(1)[i - 1]);
                }
            }
        }
        if strippable(s.last(), set) {
            lemma_edges(s.drop_last(), set);
            assert forall|i: int| right_edge(s, set) <= i < s.len() implies strippable(
                #[trigger] s[i],
                set,
            ) by {
                if i < s.len() - 1 {
                    assert(s[i] == s.drop_last()[i]);
                }
            }
        }
    }
}

/// The left edge is the first place that is not stripped.
proof fn lemma_left_edge_unique(s: Seq<char>, set: Option<Seq<char>>, k: int)
    requires
        0 <= k <= s.len(),
        forall|i: int| 0 <= i < k ==> strippable(#[trigger] s[i], set),
        k < s.len() ==> !strippable(s[k], set),
    ensures
        left_edge(s, set) == k,
{
    lemma_edges(s, set);
}

/// The right edge is after the last place that is not stripped.
proof fn lemma_right_edge_unique(s: Seq<char>, set: Option<Seq<char>>, k: int)
    requires
        0 <= k <= s.len(),
        forall|i: int| k <= i < s.len() ==> strippable(#[trigger] s[i], set),
        k > 0 ==> !strippable(s[k - 1], set),
    ensures
        right_edge(s, set) == k,
{
    lemma_edges(s, set);
}

/// The set to strip, as the contracts see it.
pub open spec fn set_text(set: Option<&Vec<char>>) -> Option<Seq<char>> {
    match set {
        Some(chars) => Some(chars@),
        None => None,
    }
}

/// Whether a character is stripped.
fn is_strippable(c: char, set: Option<&Vec<char>>) -> (r: bool)
    ensures
        r == strippable(c, set_text(set)),
{
    match set {
        Some(chars) => crate::text::has_char(chars, c),
        None => c.is_whitespace(),
    }
}

/// Where the characters to strip at the start end, looking from `from` on.
pub fn skip_left(chars: &[char], set: Option<&Vec<char>>, from: usize) -> (r: usize)
    requires
        from <= chars@.len(),
    ensures
        from <= r <= chars@.len(),
        r == from + left_edge(chars@.skip(from as int), set_text(set)),
{
    let mut i: usize = from;
    while i < chars.len() && is_strippable(chars[i], set)
        invariant
            from <= i <= chars@.len(),
            forall|j: int| from <= j < i ==> strippable(#[trigger] chars@[j], set_text(set)),
        decreases chars@.len() - i,
    {
        i = i + 1;
    }
    proof {
        let tail = chars@.skip(from as int);
        assert forall|j: int| 0 <= j < i - from implies strippable(
            #[trigger] tail[j],
            set_text(set),
        ) by {
            assert(tail[j] == chars@[from + j]);
        }
        lemma_left_edge_unique(tail, set_text(set), i - from);
    }
    i
}

/// Where the characters to strip at the end begin, within the first `to` characters.
pub fn skip_right(chars: &[char], set: Option<&Vec<char>>, to: usize) -> (r: usize)
    requires
        to <= chars@.len(),
    ensures
        r <= to,
        r == right_edge(chars@.take(to as int), set_text(set)),
{
    let mut i: usize = to;
    while i > 0 && is_strippable(chars[i - 1], set)
        invariant
            i <= to <= chars@.len(),
            forall|j: int| i <= j < to ==> strippable(#[trigger] chars@[j], set_text(set)),
        decreases i,
    {
        i = i - 1;
    }
    proof {
        let head = chars@.take(to as int);
        assert forall|j: int| i <= j < head.len() implies strippable(
            #[trigger] head[j],
            set_text(set),
        ) by {
            assert(head[j] == chars@[j]);
        }
        lemma_right_edge_unique(head, set_text(set), i as int);
    }
    i
}

/// The text without what is stripped at both ends.
pub open spec fn stripped(s: Seq<char>, set: Option<Seq<char>>) -> Seq<char> {
    rstripped(lstripped(s, set), set)
}

/// Strips both ends.
pub fn strip_chars(chars: &[char], set: Option<&Vec<char>>) -> (r: Vec<char>)
    ensures
        r@ == stripped(chars@, set_text(set)),
{
    let left = lstrip_chars(chars, set);
    rstrip_chars(&left, set)
}

/// Strips the start.
pub fn lstrip_chars(chars: &[char], set: Option<&Vec<char>>) -> (r: Vec<char>)
    ensures
        r@ == lstripped(chars@, set_text(set)),
{
    let i: usize = skip_left(chars, set, 0);
    assert(chars@.skip(0) =~= chars@);
    let r = sub_chars(chars, i, chars.len());
    assert(r@ =~= chars@.skip(i as int));
    r
}

/// Strips the end.
pub fn rstrip_chars(chars: &[char], set: Option<&Vec<char>>) -> (r: Vec<char>)
    ensures
        r@ == rstripped(chars@, set_text(set)),
{
    let i: usize = skip_right(chars, set, chars.len());
    assert(chars@.take(chars@.len() as int) =~= chars@);
    let r = sub_chars(chars, 0, i);
    assert(r@ =~= chars@.take(i as int));
    r
}

/// Stripping again what is already stripped changes nothing.
pub proof fn lemma_strip_idempotent(s: Seq<char>, set: Option<Seq<char>>)
    ensures
        stripped(stripped(s, set), set) == stripped(s, set),
{
    let l = lstripped(s, set);
    let t = rstripped(l, set);
    lemma_edges(s, set);
    lemma_edges(l, set);
    lemma_edges(t, set);
    if t.len() > 0 {
        assert(l[0] == s[left_edge(s, set)]);
        assert(t[0] == l[0]);
        assert(left_edge(t, set) == 0);
        assert(t.skip(0) =~= t);
        assert(t.last() == l[right_edge(l, set) - 1]);
        assert(right_edge(t, set) == t.len());
        assert(t.take(t.len() as int) =~= t);
    } else {
        assert(lstripped(t, set) =~= t);
        assert(rstripped(t, set) =~= t);
    }
}

/// Whether `s` starts with `prefix`.
pub fn starts_with(s: &[char], prefix: &[char]) -> (r: bool)
    ensures
        r == prefix@.is_prefix_of(s@),
{
    if prefix.len() > s.len() {
        return false;
    }
    proof {
        assert(matches_at(s@, prefix@, 0) <==> prefix@.is_prefix_of(s@));
    }
    stands_at(s, prefix, 0)
}

/// Whether `s` ends with `suffix`.
pub fn ends_with(s: &[char], suffix: &[char]) -> (r: bool)
    ensures
        r == suffix@.is_suffix_of(s@),
{
    if suffix.len() > s.len() {
        return false;
    }
    proof {
        assert(matches_at(s@, suffix@, s@.len() - suffix@.len()) <==> suffix@.is_suffix_of(s@));
    }
    stands_at(s, suffix, s.len() - suffix.len())
}

/// How many more splits there may be; `None` is no limit.
pub open spec fn one_less(max: Option<nat>) -> Option<nat> {
    match max {
        Some(n) => Some((n - 1) as nat),
        None => None,
    }
}

/// The pieces between separators from `from` on, with at most `max` splits.
pub open spec fn split_pieces(hay: Seq<char>, sep: Seq<char>, from: int, max: Option<nat>) -> Seq<
    Seq<char>,
>
    decreases hay.len() - from,
    when 0 <= from && sep.len() > 0
{
    proof {
        lemma_first_match(hay, sep, from);
    }
    if max == Some(0nat) {
        seq![hay.skip(from)]
    } else {
        match first_match(hay, sep, from) {
            Some(i) => seq![hay.subrange(from, i)] + split_pieces(
                hay,
                sep,
                i + sep.len(),
                one_less(max),
            ),
            None => seq![hay.skip(from)],
        }
    }
}

/// The pieces between separators within the first `to` characters, with at
/// most `max` splits, counted from the right.
pub open spec fn rsplit_pieces(hay: Seq<char>, sep: Seq<char>, to: int, max: Option<nat>) -> Seq<
    Seq<char>,
>
    decreases to,
    when 0 <= to <= hay.len() && sep.len() > 0
{
    proof {
        lemma_last_match(hay, sep, to - sep.len());
    }
    if max == Some(0nat) {
        seq![hay.take(to)]
    } else {
        match last_match(hay, sep, to - sep.len()) {
            Some(i) => rsplit_pieces(hay, sep, i, one_less(max)).push(
                hay.subrange(i + sep.len(), to),
            ),
            None => seq![hay.take(to)],
        }
    }
}

/// A limit on splits as the contracts see it.
pub open spec fn limit_of(max: Option<usize>) -> Option<nat> {
    match max {
        Some(n) => Some(n as nat),
        None => None,
    }
}

/// Splits at a separator.
pub fn split_sep(hay: &[char], sep: &[char], max: Option<usize>) -> (r: Vec<Vec<char>>)
    requires
        sep@.len() > 0,
    ensures
        texts(r@) == split_pieces(hay@, sep@, 0, limit_of(max)),
{
    let mut out: Vec<Vec<char>> = Vec::new();
    let mut from: usize = 0;
    let mut left: Option<usize> = max;
    let size: usize = hay.len();
    proof {
        assert(texts(out@) =~= Seq::empty());
        assert(Seq::<Seq<char>>::empty() + split_pieces(hay@, sep@, 0, limit_of(max))
            =~= split_pieces(hay@, sep@, 0, limit_of(max)));
    }
    loop
        invariant
            sep@.len() > 0,
            size == hay@.len(),
            from <= hay@.len(),
            texts(out@) + split_pieces(hay@, sep@, from as int, limit_of(left)) == split_pieces(
                hay@,
                sep@,
                0,
                limit_of(max),
            ),
        decreases hay@.len() - from,
    {
        let found: Option<usize> = match left {
            Some(0) => None,
            _ => find_from(hay, sep, from),
        };
        match found {
            Some(i) => {
                let piece = sub_chars(hay, from, i);
                let ghost before = texts(out@);
                let ghost limit = limit_of(left);
                out.push(piece);
                left = match left {
                    Some(n) => Some(n - 1),
                    None => None,
                };
                proof {
                    assert(limit_of(left) == one_less(limit));
                    assert(texts(out@) =~= before.push(piece@));
                    let tail = split_pieces(hay@, sep@, i + sep@.len(), one_less(limit));
                    assert(before + (seq![piece@] + tail) =~= before.push(piece@) + tail);
                }
                from = i + sep.len();
            },
            None => {
                let piece = sub_chars(hay, from, hay.len());
                let ghost before = texts(out@);
                out.push(piece);
                proof {
                    assert(piece@ =~= hay@.skip(from as int));
                    assert(texts(out@) =~= before + seq![piece@]);
                }
                return out;
            },
        }
    }
}

/// The sequence with the order of its items turned around.
proof fn lemma_reverse_push(a: Seq<Seq<char>>, x: Seq<char>)
    ensures
        a.push(x).reverse() == seq![x] + a.reverse(),
{
    assert(a.push(x).reverse() =~= seq![x] + a.reverse());
}

/// Turns the order of pieces around.
fn reversed(pieces: Vec<Vec<char>>) -> (r: Vec<Vec<char>>)
    ensures
        texts(r@) == texts(pieces@).reverse(),
{
    let mut source = pieces;
    let mut out: Vec<Vec<char>> = Vec::new();
    let ghost all = texts(pieces@);
    while source.len() > 0
        invariant
            all == texts(pieces@),
            source@.len() <= pieces@.len(),
            texts(source@) == all.take(source@.len() as int),
            texts(out@) == all.skip(source@.len() as int).reverse(),
        decreases source@.len(),
    {
        let ghost n = source@.len() as int;
        let ghost src = source@;
        let piece = source.pop().unwrap();
        let ghost before = texts(out@);
        out.push(piece);
        proof {
            assert(texts(src)[n - 1] == piece@);
            assert(all[n - 1] == piece@);
            assert(texts(source@) =~= all.take(n - 1));
            assert(texts(out@) =~= before.push(piece@));
            assert(all.skip(n - 1).reverse() =~= all.skip(n).reverse().push(piece@));
        }
    }
    assert(all.skip(0) =~= all);
    out
}

/// Splits at a separator, counting the splits from the right.
pub fn rsplit_sep(hay: &[char], sep: &[char], max: Option<usize>) -> (r: Vec<Vec<char>>)
    requires
        sep@.len() > 0,
    ensures
        texts(r@) == rsplit_pieces(hay@, sep@, hay@.len() as int, limit_of(max)),
{
    let mut out: Vec<Vec<char>> = Vec::new();
    let mut to: usize = hay.len();
    let mut left: Option<usize> = max;
    let ghost whole = rsplit_pieces(hay@, sep@, hay@.len() as int, limit_of(max));
    proof {
        assert(texts(out@).reverse() =~= Seq::empty());
        assert(whole + Seq::<Seq<char>>::empty() =~= whole);
    }
    loop
        invariant
            sep@.len() > 0,
            to <= hay@.len(),
            whole == rsplit_pieces(hay@, sep@, hay@.len() as int, limit_of(max)),
            rsplit_pieces(hay@, sep@, to as int, limit_of(left)) + texts(out@).reverse() == whole,
        decreases to,
    {
        let found: Option<usize> = match left {
            Some(0) => None,
            _ => rfind_to(hay, sep, to),
        };
        match found {
            Some(i) => {
                let piece = sub_chars(hay, i + sep.len(), to);
                let ghost before = texts(out@);
                let ghost limit = limit_of(left);
                out.push(piece);
                left = match left {
                    Some(n) => Some(n - 1),
                    None => None,
                };
                proof {
                    assert(limit_of(left) == one_less(limit));
                    assert(texts(out@) =~= before.push(piece@));
                    lemma_reverse_push(before, piece@);
                    let head = rsplit_pieces(hay@, sep@, i as int, one_less(limit));
                    assert(head.push(piece@) + before.reverse() =~= head + (seq![piece@]
                        + before.reverse()));
                }
                to = i;
            },
            None => {
                let piece = sub_chars(hay, 0, to);
                let ghost before = texts(out@);
                out.push(piece);
                proof {
                    assert(piece@ =~= hay@.take(to as int));
                    assert(texts(out@) =~= before.push(piece@));
                    lemma_reverse_push(before, piece@);
                }
                return reversed(out);
            },
        }
    }
}

/// The words of a text that does not start with white space, with at most `max` splits.
pub open spec fn words_from(s: Seq<char>, max: Option<nat>) -> Seq<Seq<char>>
    decreases s.len(),
{
    let end = word_end(s);
    proof {
        lemma_word_end(s);
        lemma_edges(s, None);
        lemma_edges(s.skip(end), None);
    }
    if s.len() == 0 {
        Seq::empty()
    } else if max == Some(0nat) || end == s.len() {
        seq![s]
    } else if end == 0 {
        words_from(lstripped(s, None), max)
    } else {
        seq![s.take(end)] + words_from(lstripped(s.skip(end), None), one_less(max))
    }
}

/// Where the first word ends: the first white space, or the length.
pub open spec fn word_end(s: Seq<char>) -> int
    decreases s.len(),
{
    if s.len() == 0 || whitespace(s[0]) {
        0
    } else {
        1 + word_end(s.skip(1))
    }
}

/// A word ends within the text, at white space or at the end.
pub proof fn lemma_word_end(s: Seq<char>)
    ensures
        0 <= word_end(s) <= s.len(),
        word_end(s) < s.len() ==> whitespace(s[word_end(s)]),
        forall|i: int| 0 <= i < word_end(s) ==> !whitespace(#[trigger] s[i]),
        s.len() > 0 && whitespace(s[0]) ==> left_edge(s, None) > 0,
    decreases s.len(),
{
    if s.len() > 0 {
        lemma_edges(s.skip(1), None);
        if !whitespace(s[0]) {
            lemma_word_end(s.skip(1));
            assert forall|i: int| 0 <= i < word_end(s) implies !whitespace(#[trigger] s[i]) by {
                if i > 0 {
                    assert(s[i] == s.skip(1)[i - 1]);
                }
            }
        }
    }
}

/// The words of a text, with at most `max` splits; white space before the
/// first word is dropped.
pub open spec fn words(s: Seq<char>, max: Option<nat>) -> Seq<Seq<char>> {
    words_from(lstripped(s, None), max)
}

/// Splits at white space.
pub fn split_whitespace_n(chars: &[char], max: Option<usize>) -> (r: Vec<Vec<char>>)
    ensures
        texts(r@) == words(chars@, limit_of(max)),
{
    let mut out: Vec<Vec<char>> = Vec::new();
    let mut left: Option<usize> = max;
    let mut from: usize = skip_left(chars, None, 0);
    let ghost whole = words(chars@, limit_of(max));
    proof {
        assert(chars@.skip(0) =~= chars@);
        assert(texts(out@) =~= Seq::empty());
        assert(Seq::<Seq<char>>::empty() + whole =~= whole);
        lemma_edges(chars@, None);
    }
    loop
        invariant
            from <= chars@.len(),
            whole == words(chars@, limit_of(max)),
            from < chars@.len() ==> !whitespace(chars@[from as int]),
            texts(out@) + words_from(chars@.skip(from as int), limit_of(left)) == whole,
        decreases chars@.len() - from,
    {
        let ghost tail = chars@.skip(from as int);
        if from == chars.len() {
            assert(texts(out@) + Seq::<Seq<char>>::empty() =~= texts(out@));
            return out;
        }
        let mut end: usize = from;
        while end < chars.len() && !chars[end].is_whitespace()
            invariant
                from <= end <= chars@.len(),
                forall|j: int| from <= j < end ==> !whitespace(#[trigger] chars@[j]),
            decreases chars@.len() - end,
        {
            end = end + 1;
        }
        proof {
            lemma_word_end(tail);
            let k = word_end(tail);
            if k < end - from {
                assert(tail[k] == chars@[from + k]);
            }
            if k > end - from {
                assert(tail[end - from] == chars@[end as int]);
            }
            assert(word_end(tail) == end - from);
            assert(tail[0] == chars@[from as int]);
        }
        let stop: bool = match left {
            Some(0) => true,
            _ => end == chars.len(),
        };
        if stop {
            let piece = sub_chars(chars, from, chars.len());
            let ghost before = texts(out@);
            out.push(piece);
            proof {
                assert(piece@ =~= tail);
                assert(texts(out@) =~= before + seq![tail]);
            }
            return out;
        }
        let piece = sub_chars(chars, from, end);
        let ghost before = texts(out@);
        let ghost limit = limit_of(left);
        out.push(piece);
        left = match left {
            Some(n) => Some(n - 1),
            None => None,
        };
        let next: usize = skip_left(chars, None, end);
        proof {
            assert(limit_of(left) == one_less(limit));
            assert(piece@ =~= tail.take(end - from));
            assert(tail.skip(end - from) =~= chars@.skip(end as int));
            lemma_edges(chars@.skip(end as int), None);
            assert(lstripped(chars@.skip(end as int), None) =~= chars@.skip(next as int));
            assert(texts(out@) =~= before.push(piece@));
            let rest = words_from(chars@.skip(next as int), one_less(limit));
            assert(before + (seq![piece@] + rest) =~= before.push(piece@) + rest);
            if next < chars@.len() {
                assert(chars@.skip(end as int)[next - end] == chars@[next as int]);
            }
            assert(whitespace(chars@[end as int]));
            assert(chars@.skip(end as int)[0] == chars@[end as int]);
        }
        from = next;
    }
}

/// Where the last word starts: after the last white space, or at the start.
pub open spec fn word_start(s: Seq<char>) -> int
    decreases s.len(),
{
    if s.len() == 0 || whitespace(s.last()) {
        s.len() as int
    } else {
        word_start(s.drop_last())
    }
}

/// A word starts within the text, after white space or at the start.
pub proof fn lemma_word_start(s: Seq<char>)
    ensures
        0 <= word_start(s) <= s.len(),
        word_start(s) > 0 ==> whitespace(s[word_start(s) - 1]),
        forall|i: int| word_start(s) <= i < s.len() ==> !whitespace(#[trigger] s[i]),
    decreases s.len(),
{
    if s.len() > 0 && !whitespace(s.last()) {
        lemma_word_start(s.drop_last());
        assert forall|i: int| word_start(s) <= i < s.len() implies !whitespace(
            #[trigger] s[i],
        ) by {
            if i < s.len() - 1 {
                assert(s[i] == s.drop_last()[i]);
            }
        }
    }
}

/// The words of a text that does not end with white space, with at most `max`
/// splits, counted from the right.
pub open spec fn words_to(s: Seq<char>, max: Option<nat>) -> Seq<Seq<char>>
    decreases s.len(),
{
    let start = word_start(s);
    proof {
        lemma_word_start(s);
        lemma_edges(s.take(start - 1), None);
    }
    if s.len() == 0 {
        Seq::empty()
    } else if max == Some(0nat) || start == 0 {
        seq![s]
    } else {
        words_to(rstripped(s.take(start - 1), None), one_less(max)).push(s.skip(start))
    }
}

/// The words of a text, with at most `max` splits counted from the right;
/// white space after the last word is dropped.
pub open spec fn rwords(s: Seq<char>, max: Option<nat>) -> Seq<Seq<char>> {
    words_to(rstripped(s, None), max)
}

/// Splits at white space, counting the splits from the right.
pub fn rsplit_whitespace_n(chars: &[char], max: Option<usize>) -> (r: Vec<Vec<char>>)
    ensures
        texts(r@) == rwords(chars@, limit_of(max)),
{
    let mut out: Vec<Vec<char>> = Vec::new();
    let mut left: Option<usize> = max;
    let mut to: usize = skip_right(chars, None, chars.len());
    let ghost whole = rwords(chars@, limit_of(max));
    proof {
        assert(chars@.take(chars@.len() as int) =~= chars@);
        assert(texts(out@).reverse() =~= Seq::empty());
        assert(whole + Seq::<Seq<char>>::empty() =~= whole);
    }
    loop
        invariant
            to <= chars@.len(),
            whole == rwords(chars@, limit_of(max)),
            words_to(chars@.take(to as int), limit_of(left)) + texts(out@).reverse() == whole,
        decreases to,
    {
        let ghost head = chars@.take(to as int);
        if to == 0 {
            assert(Seq::<Seq<char>>::empty() + texts(out@).reverse() =~= texts(out@).reverse());
            return reversed(out);
        }
        let mut start: usize = to;
        while start > 0 && !chars[start - 1].is_whitespace()
            invariant
                start <= to <= chars@.len(),
                forall|j: int| start <= j < to ==> !whitespace(#[trigger] chars@[j]),
            decreases start,
        {
            start = start - 1;
        }
        proof {
            lemma_word_start(head);
            let k = word_start(head);
            if k < start {
                assert(head[start - 1] == chars@[start - 1]);
            }
            if k > start {
                assert(head[k - 1] == chars@[k - 1]);
            }
            assert(word_start(head) == start);
        }
        let stop: bool = match left {
            Some(0) => true,
            _ => start == 0,
        };
        if stop {
            let piece = sub_chars(chars, 0, to);
            let ghost before = texts(out@);
            out.push(piece);
            proof {
                assert(piece@ =~= head);
                assert(texts(out@) =~= before.push(piece@));
                lemma_reverse_push(before, piece@);
            }
            return reversed(out);
        }
        let piece = sub_chars(chars, start, to);
        let ghost before = texts(out@);
        let ghost limit = limit_of(left);
        out.push(piece);
        left = match left {
            Some(n) => Some(n - 1),
            None => None,
        };
        let next: usize = skip_right(chars, None, start - 1);
        proof {
            assert(limit_of(left) == one_less(limit));
            assert(piece@ =~= head.skip(start as int));
            assert(head.take(start - 1) =~= chars@.take(start - 1));
            assert(rstripped(chars@.take(start - 1), None) =~= chars@.take(next as int));
            assert(texts(out@) =~= before.push(piece@));
            lemma_reverse_push(before, piece@);
            let rest = words_to(chars@.take(next as int), one_less(limit));
            assert(rest.push(piece@) + before.reverse() =~= rest + (seq![piece@]
                + before.reverse()));
        }
        to = next;
    }
}

/// Whether a character ends a line.
pub open spec fn line_break(c: char) -> bool {
    c == '\n' || c == '\r'
}

/// Where the line that starts at `from` ends, without its line break.
pub open spec fn line_end(s: Seq<char>, from: int) -> int
    decreases s.len() - from,
{
    if from >= s.len() || line_break(s[from]) {
        from
    } else {
        line_end(s, from + 1)
    }
}

/// Where the line after one that ends at `end` starts; `\r\n` is one break.
pub open spec fn next_line(s: Seq<char>, end: int) -> int {
    if end >= s.len() {
        s.len() as int
    } else if s[end] == '\r' && end + 1 < s.len() && s[end + 1] == '\n' {
        end + 2
    } else {
        end + 1
    }
}

/// A line ends at or after its start, within the text.
pub proof fn lemma_line_end(s: Seq<char>, from: int)
    requires
        0 <= from <= s.len(),
    ensures
        from <= line_end(s, from) <= s.len(),
        line_end(s, from) < s.len() ==> line_break(s[line_end(s, from)]),
        from < s.len() ==> next_line(s, line_end(s, from)) > from,
    decreases s.len() - from,
{
    if from < s.len() && !line_break(s[from]) {
        lemma_line_end(s, from + 1);
    }
}

/// The lines from `from` on, with or without their line breaks.
pub open spec fn lines_from(s: Seq<char>, from: int, keepends: bool) -> Seq<Seq<char>>
    decreases s.len() - from,
    when 0 <= from <= s.len()
{
    proof {
        lemma_line_end(s, from);
    }
    if from >= s.len() {
        Seq::empty()
    } else {
        let end = line_end(s, from);
        let next = next_line(s, end);
        seq![
            s.subrange(
                from,
                if keepends {
                    next
                } else {
                    end
                },
            ),
        ] + lines_from(s, next, keepends)
    }
}

/// Splits at line breaks.
pub fn split_lines(chars: &[char], keepends: bool) -> (r: Vec<Vec<char>>)
    ensures
        texts(r@) == lines_from(chars@, 0, keepends),
{
    let mut lines: Vec<Vec<char>> = Vec::new();
    let mut start: usize = 0;
    proof {
        assert(texts(lines@) =~= Seq::empty());
        assert(Seq::<Seq<char>>::empty() + lines_from(chars@, 0, keepends) =~= lines_from(
            chars@,
            0,
            keepends,
        ));
    }
    while start < chars.len()
        invariant
            start <= chars@.len(),
            texts(lines@) + lines_from(chars@, start as int, keepends) == lines_from(
                chars@,
                0,
                keepends,
            ),
        decreases chars@.len() - start,
    {
        let mut end: usize = start;
        while end < chars.len() && chars[end] != '\n' && chars[end] != '\r'
            invariant
                start <= end <= chars@.len(),
                line_end(chars@, start as int) == line_end(chars@, end as int),
            decreases chars@.len() - end,
        {
            end = end + 1;
        }
        let next: usize = if end >= chars.len() {
            chars.len()
        } else if chars[end] == '\r' && end + 1 < chars.len() && chars[end + 1] == '\n' {
            end + 2
        } else {
            end + 1
        };
        let line = if keepends {
            sub_chars(chars, start, next)
        } else {
            sub_chars(chars, start, end)
        };
        let ghost before = texts(lines@);
        lines.push(line);
        proof {
            assert(texts(lines@) =~= before.push(line@));
            let rest = lines_from(chars@, next as int, keepends);
            assert(before + (seq![line@] + rest) =~= before.push(line@) + rest);
        }
        start = next;
    }
    proof {
        assert(texts(lines@) + Seq::<Seq<char>>::empty() =~= texts(lines@));
    }
    lines
}

/// The pieces put together.
pub open spec fn concat_all(pieces: Seq<Seq<char>>) -> Seq<char>
    decreases pieces.len(),
{
    if pieces.len() == 0 {
        Seq::empty()
    } else {
        pieces[0] + concat_all(pieces.skip(1))
    }
}

/// The lines of a text with their line breaks, put together, are the text.
pub proof fn lemma_lines_concat(s: Seq<char>, from: int)
    requires
        0 <= from <= s.len(),
    ensures
        concat_all(lines_from(s, from, true)) == s.skip(from),
    decreases s.len() - from,
{
    if from < s.len() {
        lemma_line_end(s, from);
        let next = next_line(s, line_end(s, from));
        lemma_lines_concat(s, next);
        let pieces = lines_from(s, from, true);
        assert(pieces.skip(1) =~= lines_from(s, next, true));
        assert(s.subrange(from, next) + s.skip(next) =~= s.skip(from));
    } else {
        assert(s.skip(from) =~= Seq::empty());
    }
}

/// The pieces put together with the separator between them.
pub open spec fn join_with(pieces: Seq<Seq<char>>, sep: Seq<char>) -> Seq<char>
    decreases pieces.len(),
{
    if pieces.len() == 0 {
        Seq::empty()
    } else if pieces.len() == 1 {
        pieces[0]
    } else {
        pieces[0] + sep + join_with(pieces.skip(1), sep)
    }
}

/// Joining what splitting gives, with the same separator, gives the text back.
pub proof fn lemma_split_then_join(hay: Seq<char>, sep: Seq<char>, from: int, max: Option<nat>)
    requires
        0 <= from <= hay.len(),
        sep.len() > 0,
    ensures
        join_with(split_pieces(hay, sep, from, max), sep) == hay.skip(from),
        split_pieces(hay, sep, from, max).len() >= 1,
    decreases hay.len() - from,
{
    lemma_first_match(hay, sep, from);
    let pieces = split_pieces(hay, sep, from, max);
    if max != Some(0nat) && first_match(hay, sep, from) is Some {
        let i = first_match(hay, sep, from)->0;
        lemma_split_then_join(hay, sep, i + sep.len(), one_less(max));
        assert(pieces.skip(1) =~= split_pieces(hay, sep, i + sep.len(), one_less(max)));
        assert(hay.subrange(i, i + sep.len()) == sep);
        assert(hay.skip(from) =~= hay.subrange(from, i) + sep + hay.skip(i + sep.len()));
    } else {
        assert(pieces =~= seq![hay.skip(from)]);
    }
}

/// One more piece at the end of what is joined.
pub proof fn lemma_join_push(pieces: Seq<Seq<char>>, piece: Seq<char>, sep: Seq<char>)
    ensures
        join_with(pieces.push(piece), sep) == if pieces.len() == 0 {
            piece
        } else {
            join_with(pieces, sep) + sep + piece
        },
    decreases pieces.len(),
{
    if pieces.len() == 0 {
    } else if pieces.len() == 1 {
        reveal_with_fuel(join_with, 3);
        assert(pieces.push(piece).skip(1) =~= seq![piece]);
    } else {
        lemma_join_push(pieces.skip(1), piece, sep);
        assert(pieces.push(piece).skip(1) =~= pieces.skip(1).push(piece));
        assert(pieces[0] + sep + (join_with(pieces.skip(1), sep) + sep + piece) =~= pieces[0] + sep
            + join_with(pieces.skip(1), sep) + sep + piece);
    }
}

/// Joining what splitting from the right gives, with the same separator, gives the
/// text back.
pub proof fn lemma_rsplit_then_join(hay: Seq<char>, sep: Seq<char>, to: int, max: Option<nat>)
    requires
        0 <= to <= hay.len(),
        sep.len() > 0,
    ensures
        join_with(rsplit_pieces(hay, sep, to, max), sep) == hay.take(to),
        rsplit_pieces(hay, sep, to, max).len() >= 1,
    decreases to,
{
    lemma_last_match(hay, sep, to - sep.len());
    let pieces = rsplit_pieces(hay, sep, to, max);
    if max != Some(0nat) && last_match(hay, sep, to - sep.len()) is Some {
        let i = last_match(hay, sep, to - sep.len())->0;
        let before = rsplit_pieces(hay, sep, i, one_less(max));
        lemma_rsplit_then_join(hay, sep, i, one_less(max));
        lemma_join_push(before, hay.subrange(i + sep.len(), to), sep);
        assert(hay.subrange(i, i + sep.len()) == sep);
        assert(hay.take(to) =~= hay.take(i) + sep + hay.subrange(i + sep.len(), to));
    } else {
        assert(pieces =~= seq![hay.take(to)]);
    }
}

/// The text with up to `max` occurrences of `old` from `from` on replaced.
pub open spec fn replaced_from(
    s: Seq<char>,
    old_text: Seq<char>,
    new_text: Seq<char>,
    from: int,
    max: Option<nat>,
) -> Seq<char>
    decreases s.len() - from,
    when 0 <= from <= s.len()
{
    proof {
        lemma_first_match(s, old_text, from);
    }
    if max == Some(0nat) {
        s.skip(from)
    } else if old_text.len() == 0 {
        if from >= s.len() {
            new_text
        } else {
            new_text + seq![s[from]] + replaced_from(
                s,
                old_text,
                new_text,
                from + 1,
                one_less(max),
            )
        }
    } else {
        match first_match(s, old_text, from) {
            Some(i) => s.subrange(from, i) + new_text + replaced_from(
                s,
                old_text,
                new_text,
                i + old_text.len(),
                one_less(max),
            ),
            None => s.skip(from),
        }
    }
}

/// Replaces up to `max` occurrences.
pub fn replace_chars(
    s: &[char],
    old_text: &[char],
    new_text: &[char],
    max: Option<usize>,
) -> (r: Vec<char>)
    ensures
        r@ == replaced_from(s@, old_text@, new_text@, 0, limit_of(max)),
{
    let mut out: Vec<char> = Vec::new();
    let mut from: usize = 0;
    let mut left: Option<usize> = max;
    let size: usize = s.len();
    let ghost whole = replaced_from(s@, old_text@, new_text@, 0, limit_of(max));
    proof {
        assert(Seq::<char>::empty() + whole =~= whole);
    }
    loop
        invariant
            size == s@.len(),
            from <= s@.len(),
            whole == replaced_from(s@, old_text@, new_text@, 0, limit_of(max)),
            out@ + replaced_from(s@, old_text@, new_text@, from as int, limit_of(left)) == whole,
        decreases s@.len() - from,
    {
        let ghost limit = limit_of(left);
        let ghost before = out@;
        let exhausted: bool = match left {
            Some(0) => true,
            _ => false,
        };
        let found: Option<usize> = if exhausted {
            None
        } else {
            find_from(s, old_text, from)
        };
        match found {
            None => {
                push_range(&mut out, s, from, s.len());
                proof {
                    lemma_first_match(s@, old_text@, from as int);
                    if !exhausted && old_text@.len() == 0 {
                        assert(s@.subrange(from as int, from as int) =~= old_text@);
                        assert(matches_at(s@, old_text@, from as int));
                    }
                    assert(s@.subrange(from as int, s@.len() as int) =~= s@.skip(from as int));
                }
                return out;
            },
            Some(i) => {
                proof {
                    if old_text@.len() == 0 {
                        assert(s@.subrange(from as int, from as int) =~= old_text@);
                        assert(matches_at(s@, old_text@, from as int));
                    }
                }
                push_range(&mut out, s, from, i);
                push_range(&mut out, new_text, 0, new_text.len());
                proof {
                    assert(new_text@.subrange(0, new_text@.len() as int) =~= new_text@);
                }
                left = match left {
                    Some(n) => Some(n - 1),
                    None => None,
                };
                assert(limit_of(left) == one_less(limit));
                if old_text.len() == 0 {
                    assert(i == from);
                    if from == s.len() {
                        assert(out@ =~= before + new_text@);
                        return out;
                    }
                    out.push(s[from]);
                    from = from + 1;
                    proof {
                        let rest = replaced_from(
                            s@,
                            old_text@,
                            new_text@,
                            from as int,
                            one_less(limit),
                        );
                        assert(out@ + rest =~= before + (new_text@ + seq![s@[from - 1]] + rest));
                    }
                } else {
                    let ghost start = from;
                    from = i + old_text.len();
                    proof {
                        let rest = replaced_from(
                            s@,
                            old_text@,
                            new_text@,
                            from as int,
                            one_less(limit),
                        );
                        assert(out@ + rest =~= before + (s@.subrange(start as int, i as int)
                            + new_text@ + rest));
                    }
                }
            },
        }
    }
}

/// The part before a separator, the separator, and the part after it.
pub open spec fn partitioned(s: Seq<char>, sep: Seq<char>) -> (Seq<char>, Seq<char>, Seq<char>) {
    match first_match(s, sep, 0) {
        Some(i) => (s.take(i), sep, s.skip(i + sep.len())),
        None => (s, Seq::empty(), Seq::empty()),
    }
}

/// The same at the last occurrence of the separator.
pub open spec fn rpartitioned(s: Seq<char>, sep: Seq<char>) -> (Seq<char>, Seq<char>, Seq<char>) {
    match last_match(s, sep, s.len() - sep.len()) {
        Some(i) => (s.take(i), sep, s.skip(i + sep.len())),
        None => (Seq::empty(), Seq::empty(), s),
    }
}

/// The three parts put together are the text.
pub proof fn lemma_partition_concat(s: Seq<char>, sep: Seq<char>)
    ensures
        ({
            let p = partitioned(s, sep);
            p.0 + p.1 + p.2 == s
        }),
        ({
            let p = rpartitioned(s, sep);
            p.0 + p.1 + p.2 == s
        }),
{
    lemma_first_match(s, sep, 0);
    lemma_last_match(s, sep, s.len() - sep.len());
    let p = partitioned(s, sep);
    assert(p.0 + p.1 + p.2 =~= s) by {
        match first_match(s, sep, 0) {
            Some(i) => {
                assert(s.subrange(i, i + sep.len()) == sep);
                assert(s.take(i) + s.subrange(i, i + sep.len()) + s.skip(i + sep.len()) =~= s);
            },
            None => {},
        }
    }
    let q = rpartitioned(s, sep);
    assert(q.0 + q.1 + q.2 =~= s) by {
        match last_match(s, sep, s.len() - sep.len()) {
            Some(i) => {
                assert(s.subrange(i, i + sep.len()) == sep);
                assert(s.take(i) + s.subrange(i, i + sep.len()) + s.skip(i + sep.len()) =~= s);
            },
            None => {},
        }
    }
}

/// Splits at the first occurrence of the separator.
pub fn partition_chars(s: &[char], sep: &[char]) -> (r: (Vec<char>, Vec<char>, Vec<char>))
    ensures
        (r.0@, r.1@, r.2@) == partitioned(s@, sep@),
{
    let size: usize = s.len();
    match find_from(s, sep, 0) {
        Some(i) => {
            let before = sub_chars(s, 0, i);
            let middle = sub_chars(sep, 0, sep.len());
            let after = sub_chars(s, i + sep.len(), size);
            proof {
                assert(before@ =~= s@.take(i as int));
                assert(middle@ =~= sep@);
                assert(after@ =~= s@.skip(i + sep@.len()));
            }
            (before, middle, after)
        },
        None => {
            let whole = sub_chars(s, 0, s.len());
            assert(whole@ =~= s@);
            (whole, Vec::new(), Vec::new())
        },
    }
}

/// Splits at the last occurrence of the separator.
pub fn rpartition_chars(s: &[char], sep: &[char]) -> (r: (Vec<char>, Vec<char>, Vec<char>))
    ensures
        (r.0@, r.1@, r.2@) == rpartitioned(s@, sep@),
{
    let size: usize = s.len();
    match rfind_to(s, sep, size) {
        Some(i) => {
            let before = sub_chars(s, 0, i);
            let middle = sub_chars(sep, 0, sep.len());
            let after = sub_chars(s, i + sep.len(), size);
            proof {
                assert(before@ =~= s@.take(i as int));
                assert(middle@ =~= sep@);
                assert(after@ =~= s@.skip(i + sep@.len()));
            }
            (before, middle, after)
        },
        None => {
            let whole = sub_chars(s, 0, s.len());
            assert(whole@ =~= s@);
            (Vec::new(), Vec::new(), whole)
        },
    }
}

} // verus!
