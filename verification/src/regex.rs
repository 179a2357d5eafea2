//! The regular expression engine: what `fancy_regex` finds, by byte offsets.

use fancy_regex::Regex;
use vstd::prelude::*;

use crate::regex_bounds::{modest, short_references};

verus! {

/// The first and the last byte offset of something that was found.
pub type Span = (usize, usize);

/// The groups of a match, the whole match first; a group that took no part is missing.
pub type Groups = Vec<Option<Span>>;

/// A match and the replacement for it.
pub type Replacement = (usize, usize, String);

/// Whether two characters stand side by side, the second one at a place.
pub open spec fn pair_at(pattern: Seq<char>, a: char, b: char, i: int) -> bool {
    0 < i < pattern.len() && pattern[i - 1] == a && pattern[i] == b
}

/// Whether two characters stand side by side somewhere.
pub open spec fn has_pair(pattern: Seq<char>, a: char, b: char) -> bool {
    exists|i: int| #[trigger] pair_at(pattern, a, b, i)
}

/// Whether a group that is open at a place, `depth` deep, may still be open at a later
/// one. It is not where as many brackets were closed; an escaped character is none.
/// Where a class, a comment or a name starts, which may hold brackets that mean
/// nothing, the group counts as open.
pub open spec fn still_open(pattern: Seq<char>, from: int, to: int, depth: nat) -> bool
    decreases to - from,
{
    if from >= to || from < 0 || from >= pattern.len() {
        true
    } else {
        let c = pattern[from];
        if c == '\\' {
            from + 2 >= to || still_open(pattern, from + 2, to, depth)
        } else if c == '[' || c == '#' || c == '<' || c == '\'' {
            true
        } else if c == '(' {
            still_open(pattern, from + 1, to, depth + 1)
        } else if c == ')' {
            depth > 1 && still_open(pattern, from + 1, to, (depth - 1) as nat)
        } else {
            still_open(pattern, from + 1, to, depth)
        }
    }
}

/// Whether `\K` at one place stands in the lookbehind that starts at another.
pub open spec fn keeps_out_at(pattern: Seq<char>, i: int, j: int) -> bool {
    &&& i < j
    &&& pair_at(pattern, '<', '=', i)
    &&& pair_at(pattern, '\\', 'K', j)
    &&& still_open(pattern, i + 1, j - 1, 1)
}

/// Whether `\K` stands in a lookbehind.
pub open spec fn keeps_out_late(pattern: Seq<char>) -> bool {
    exists|i: int, j: int| #[trigger] keeps_out_at(pattern, i, j)
}

/// Whether a group may be used at another place than where it stands.
pub open spec fn calls_groups(pattern: Seq<char>) -> bool {
    has_pair(pattern, '\\', 'g') || has_pair(pattern, 'P', '>')
}

/// Whether searching a text for all matches comes to an end. The search goes on
/// from the end of a match, so a match that starts before that place and ends there
/// is found for ever; only `\K` inside a lookbehind makes one. It stands there, or in
/// a group that the lookbehind calls with `\g` or `(?P>`.
pub open spec fn settles(pattern: Seq<char>) -> bool {
    !keeps_out_late(pattern) && !(has_pair(pattern, '<', '=') && has_pair(pattern, '\\', 'K')
        && calls_groups(pattern))
}

/// The groups of a first match.
pub open spec fn first_of(r: Result<Option<Groups>, String>) -> Result<
    Option<Seq<Option<Span>>>,
    Seq<char>,
> {
    match r {
        Ok(Some(groups)) => Ok(Some(groups@)),
        Ok(None) => Ok(None),
        Err(e) => Err(e@),
    }
}

/// The groups of all matches.
pub open spec fn all_of(found: Seq<Result<Groups, String>>) -> Seq<
    Result<Seq<Option<Span>>, Seq<char>>,
> {
    found.map_values(
        |r: Result<Groups, String>|
            match r {
                Ok(groups) => Ok(groups@),
                Err(e) => Err(e@),
            },
    )
}

/// The places of all matches.
pub open spec fn spans_of(found: Seq<Result<Span, String>>) -> Seq<Result<Span, Seq<char>>> {
    found.map_values(
        |r: Result<Span, String>|
            match r {
                Ok(span) => Ok(span),
                Err(e) => Err(e@),
            },
    )
}

/// All matches with their replacements.
pub open spec fn replacements_of(found: Seq<Result<Replacement, String>>) -> Seq<
    Result<(usize, usize, Seq<char>), Seq<char>>,
> {
    found.map_values(
        |r: Result<Replacement, String>|
            match r {
                Ok(one) => Ok((one.0, one.1, one.2@)),
                Err(e) => Err(e@),
            },
    )
}

/// The pieces of a split text.
pub open spec fn pieces_of(r: Result<Vec<String>, String>) -> Result<Seq<Seq<char>>, Seq<char>> {
    match r {
        Ok(pieces) => Ok(pieces@.map_values(|s: String| s@)),
        Err(e) => Err(e@),
    }
}

/// Whether a text is letters of flags in a group of their own, or nothing.
pub open spec fn is_flag_group(front: Seq<char>) -> bool {
    front.len() == 0 || (front.len() >= 4 && front.take(2) == "(?"@ && front.last() == ')' && forall|
        i: int,
    |
        2 <= i < front.len() - 1 ==> (#[trigger] front[i] == 'i' || front[i] == 'm' || front[i]
            == 's'))
}

/// Whether a pattern is another one, which compiles by itself and does not move the
/// start of a match with `\K`, held to the start of the text; flags may stand in front.
pub open spec fn held_to_start(
    pattern: Seq<char>,
    front: Seq<char>,
    inner: Seq<char>,
    tail: Seq<char>,
) -> bool {
    &&& pattern == front + ("\\A(?:"@ + inner + tail)
    &&& is_flag_group(front)
    &&& regex_fault(front + inner) is None
    &&& !has_pair(inner, '\\', 'K')
}

/// Whether a match, if there is one, begins at the start of the text.
pub open spec fn begins_at_start(found: Result<Option<Seq<Option<Span>>>, Seq<char>>) -> bool {
    found matches Ok(Some(groups)) ==> groups.len() > 0 && (groups[0] matches Some(span) && span.0
        == 0)
}

/// Whether a match, if there is one, ends at the end of the text.
pub open spec fn ends_at_end(
    found: Result<Option<Seq<Option<Span>>>, Seq<char>>,
    text: Seq<char>,
) -> bool {
    found matches Ok(Some(groups)) ==> groups.len() > 0 && (groups[0] matches Some(span) && span.1
        == vstd::utf8::encode_utf8(text).len())
}

/// Whether the first of what was found is the first match.
pub open spec fn starts_with_first(
    first: Result<Option<Seq<Option<Span>>>, Seq<char>>,
    all: Seq<Result<Seq<Option<Span>>, Seq<char>>>,
) -> bool {
    match first {
        Ok(None) => all.len() == 0,
        Ok(Some(groups)) => all.len() > 0 && all[0] == Ok::<Seq<Option<Span>>, Seq<char>>(groups),
        Err(e) => all.len() > 0 && all[0] == Err::<Seq<Option<Span>>, Seq<char>>(e),
    }
}

/// How many pieces there are of a text with so many matches: one more than the
/// matches, and no more than the limit.
pub open spec fn piece_count(matches: nat, limit: Option<usize>) -> nat {
    match limit {
        Some(n) => if n <= matches {
            n as nat
        } else {
            matches + 1
        },
        None => matches + 1,
    }
}

/// Whether replacements are for the matches, each in the place of the whole match.
pub open spec fn replace_matches(
    found: Seq<Result<(usize, usize, Seq<char>), Seq<char>>>,
    all: Seq<Result<Seq<Option<Span>>, Seq<char>>>,
) -> bool {
    &&& found.len() == all.len()
    &&& forall|i: int|
        0 <= i < found.len() ==> (match (#[trigger] found[i], all[i]) {
            (Ok((start, end, _)), Ok(groups)) => groups.len() > 0 && groups[0] == Some((start, end)),
            (Err(e), Err(f)) => e == f,
            _ => false,
        })
}

/// Whether every replacement is the template itself.
pub open spec fn replace_by(
    found: Seq<Result<(usize, usize, Seq<char>), Seq<char>>>,
    template: Seq<char>,
) -> bool {
    forall|i: int| 0 <= i < found.len() ==> (#[trigger] found[i] matches Ok(one) ==> one.2 == template)
}

/// Why a pattern does not compile.
pub uninterp spec fn regex_fault(pattern: Seq<char>) -> Option<Seq<char>>;

/// How many groups a pattern has, the whole match among them.
pub uninterp spec fn regex_groups(pattern: Seq<char>) -> usize;

/// The groups of the first match in a text.
pub uninterp spec fn regex_first(pattern: Seq<char>, text: Seq<char>) -> Result<
    Option<Seq<Option<(usize, usize)>>>,
    Seq<char>,
>;

/// The groups of each match in a text, up to the first error.
pub uninterp spec fn regex_all(pattern: Seq<char>, text: Seq<char>) -> Seq<
    Result<Seq<Option<(usize, usize)>>, Seq<char>>,
>;

/// The place of each match in a text, up to the first error.
pub uninterp spec fn regex_finds(pattern: Seq<char>, text: Seq<char>) -> Seq<
    Result<(usize, usize), Seq<char>>,
>;

/// The place of each match in a text and the replacement that a template gives for
/// it, up to the first error.
pub uninterp spec fn regex_replacements(
    pattern: Seq<char>,
    text: Seq<char>,
    template: Seq<char>,
) -> Seq<Result<(usize, usize, Seq<char>), Seq<char>>>;

/// The pieces of a text between the matches.
pub uninterp spec fn regex_split(pattern: Seq<char>, text: Seq<char>) -> Result<
    Seq<Seq<char>>,
    Seq<char>,
>;

/// The pieces of a text between the matches, the rest being the last one.
pub uninterp spec fn regex_splitn(pattern: Seq<char>, text: Seq<char>, limit: usize) -> Result<
    Seq<Seq<char>>,
    Seq<char>,
>;

/// `fancy_regex::Regex::new`: nothing if the pattern compiles, otherwise what
/// the error says. The result depends on the pattern alone, as long as its numbers
/// fit into a machine integer of any width.
#[verifier::external_body]
pub(crate) fn fault(pattern: &str) -> (r: Option<String>)
    requires
        modest(pattern@),
    ensures
        (match r {
            Some(e) => Some(e@),
            None => None,
        }) == regex_fault(pattern@),
{
    Regex::new(pattern).err().map(|e| e.to_string())
}

/// `fancy_regex::Regex::captures_len`: how many groups the pattern has, the
/// whole match among them. The result depends on the pattern alone.
#[verifier::external_body]
pub(crate) fn groups(pattern: &str) -> (r: usize)
    requires
        modest(pattern@),
        regex_fault(pattern@) is None,
    ensures
        r == regex_groups(pattern@),
{
    Regex::new(pattern).unwrap().captures_len()
}

/// `fancy_regex::Regex::captures`: the byte offsets of the groups of the first
/// match, nothing without a match, or what the error says. The result depends
/// on the pattern and the text alone. `\A` only matches at the start of the text and
/// `\z` only at its end, so a match of what stands between them reaches from the one
/// to the other.
#[verifier::external_body]
pub(crate) fn first(pattern: &str, text: &str) -> (r: Result<Option<Groups>, String>)
    requires
        modest(pattern@),
        regex_fault(pattern@) is None,
    ensures
        first_of(r) == regex_first(pattern@, text@),
        forall|front: Seq<char>, inner: Seq<char>| #[trigger]
            held_to_start(pattern@, front, inner, ")"@) ==> begins_at_start(first_of(r)),
        forall|front: Seq<char>, inner: Seq<char>| #[trigger]
            held_to_start(pattern@, front, inner, ")\\z"@) ==> begins_at_start(first_of(r))
                && ends_at_end(first_of(r), text@),
{
    let found = Regex::new(pattern).unwrap().captures(text);
    found
        .map(|c| c.map(|c| c.iter().map(|g| g.map(|m| (m.start(), m.end()))).collect()))
        .map_err(|e| e.to_string())
}

/// `fancy_regex::Regex::captures_iter`: the byte offsets of the groups of each
/// match in order, and what the error says where one ends the search. The result
/// depends on the pattern and the text alone. The first one is what `captures` gives.
#[verifier::external_body]
pub(crate) fn all(pattern: &str, text: &str) -> (r: Vec<Result<Groups, String>>)
    requires
        modest(pattern@),
        regex_fault(pattern@) is None,
        settles(pattern@),
    ensures
        all_of(r@) == regex_all(pattern@, text@),
        starts_with_first(regex_first(pattern@, text@), all_of(r@)),
{
    let regex = Regex::new(pattern).unwrap();
    let found = regex.captures_iter(text);
    found
        .map(|c| c.map(|c| c.iter().map(|g| g.map(|m| (m.start(), m.end()))).collect()))
        .map(|c: Result<Groups, fancy_regex::Error>| c.map_err(|e| e.to_string()))
        .collect()
}

/// `fancy_regex::Regex::find_iter`: the byte offsets of each match in order, and
/// what the error says where one ends the search. The result depends on the
/// pattern and the text alone.
#[verifier::external_body]
pub(crate) fn finds(pattern: &str, text: &str) -> (r: Vec<Result<Span, String>>)
    requires
        modest(pattern@),
        regex_fault(pattern@) is None,
        settles(pattern@),
    ensures
        spans_of(r@) == regex_finds(pattern@, text@),
{
    let regex = Regex::new(pattern).unwrap();
    let found = regex.find_iter(text);
    found.map(|m| m.map(|m| (m.start(), m.end())).map_err(|e| e.to_string())).collect()
}

/// `fancy_regex::Captures::expand`, for each match that `captures_iter` gives: its
/// byte offsets and the template with its groups put in, and what the error says
/// where one ends the search. The result depends on the arguments alone. There is one
/// for each match, in its place, and a template without `$` is put in as it is.
#[verifier::external_body]
pub(crate) fn replacements(pattern: &str, text: &str, template: &str) -> (r: Vec<
    Result<Replacement, String>,
>)
    requires
        modest(pattern@),
        regex_fault(pattern@) is None,
        settles(pattern@),
        short_references(template@),
    ensures
        replacements_of(r@) == regex_replacements(pattern@, text@, template@),
        replace_matches(replacements_of(r@), regex_all(pattern@, text@)),
        !template@.contains('$') ==> replace_by(replacements_of(r@), template@),
{
    let regex = Regex::new(pattern).unwrap();
    let expanded = |c: fancy_regex::Captures<'_, str>| {
        let mut out = String::new();
        c.expand(template, &mut out);
        let whole = c.get(0).unwrap();
        (whole.start(), whole.end(), out)
    };
    let found = regex.captures_iter(text);
    found.map(|c| c.map(expanded).map_err(|e| e.to_string())).collect()
}

/// `fancy_regex::Regex::split`: the pieces of the text between the matches, or
/// what the error says. The result depends on the pattern and the text alone. There
/// is one more than the matches that `find_iter` gives.
#[verifier::external_body]
pub(crate) fn split(pattern: &str, text: &str) -> (r: Result<Vec<String>, String>)
    requires
        modest(pattern@),
        regex_fault(pattern@) is None,
        settles(pattern@),
    ensures
        pieces_of(r) == regex_split(pattern@, text@),
        pieces_of(r) matches Ok(pieces) ==> pieces.len() == piece_count(
            regex_finds(pattern@, text@).len(),
            None,
        ),
{
    let regex = Regex::new(pattern).unwrap();
    let pieces = regex.split(text);
    pieces.map(|p| p.map(|p| p.to_owned()).map_err(|e| e.to_string())).collect()
}

/// `fancy_regex::Regex::splitn`: at most so many pieces of the text between the
/// matches, the last one being the rest, or what the error says. The result
/// depends on the arguments alone. There is one more than the matches that `find_iter`
/// gives, as far as the limit goes.
#[verifier::external_body]
pub(crate) fn splitn(pattern: &str, text: &str, limit: usize) -> (r: Result<Vec<String>, String>)
    requires
        modest(pattern@),
        regex_fault(pattern@) is None,
        settles(pattern@),
    ensures
        pieces_of(r) == regex_splitn(pattern@, text@, limit),
        pieces_of(r) matches Ok(pieces) ==> pieces.len() == piece_count(
            regex_finds(pattern@, text@).len(),
            Some(limit),
        ),
{
    let regex = Regex::new(pattern).unwrap();
    let pieces = regex.splitn(text, limit);
    pieces.map(|p| p.map(|p| p.to_owned()).map_err(|e| e.to_string())).collect()
}

} // verus!
