//! The methods of Python `str`.

use vstd::prelude::*;

use crate::args::{no_args_error, raises, ArgValues, Raised};
use crate::decimal::{nat_digits, push_nat};
use crate::exception::{ExcType, RunError, RunResult};
use crate::heap::{data_ok, HeapData, HeapId};
use crate::intern::{StaticStrings, StringId};
use crate::outcome::{answers, raise, realised, Answer, Outcome};
use crate::text::{byte_len, chars_of, push_range, push_str, same_chars, string_of, sub_chars, texts};
use crate::types::bytes::sub_bytes;
use crate::types::py_type::Type;
use crate::types::str_args::{
    affix_args, as_size, int_arg, justify_args, keepends_arg, lemma_argument_ok, one_text_arg,
    parse_expandtabs_args, parse_justify_args, parse_one_text, parse_prefix_suffix_args,
    parse_replace_args, parse_search_args, parse_split_args, parse_splitlines_args,
    parse_strip_arg, replace_args, saturated_size, search_args, split_args, strip_arg, tabsize_arg,
};
use crate::types::str_chars::{
    alphabetic, alphanumeric, capitalized, case_swapped, folded, is_ascii_text, is_identifier_text,
    is_lower_text, is_title_text, is_upper_text, lower_text, nonempty_all, numeric, other_digit,
    str_capitalize, str_casefold, str_isalnum, str_isalpha, str_isascii, str_isdecimal, str_isdigit,
    str_isidentifier, str_islower, str_isnumeric, str_isspace, str_istitle, str_isupper,
    str_swapcase, str_title, text_lower, text_upper, titled, unicode_decimal, upper_text,
    whitespace,
};
use crate::types::str_format::{
    center, centered, expand_tabs, left_justified, ljust, padded_size, right_justified, rjust,
    size_padded, tabs_expanded, utf8_size, zero_filled, zfill,
};
use crate::types::str_search::{
    count_in, ends_with, find_from, first_match, join_with, last_match, lemma_join_push, limit_of,
    lines_from, lstrip_chars, lstripped, occurrences, partition_chars, partitioned, replace_chars,
    replaced_from, rfind_to, rpartition_chars, rpartitioned, rsplit_pieces, rsplit_sep,
    rsplit_whitespace_n, rstrip_chars, rstripped, rwords, split_lines, split_pieces, split_sep,
    split_whitespace_n, starts_with, strip_chars, stripped, words,
};
use crate::value::Value;
use crate::vm::VM;

verus! {

/// The part of a text between two indices; empty where they cross.
pub open spec fn between(s: Seq<char>, start: int, end: int) -> Seq<char> {
    if start >= end {
        Seq::empty()
    } else {
        s.subrange(start, end)
    }
}

/// The part of a text between two indices.
fn slice_string(chars: &[char], start: usize, end: usize) -> (r: Vec<char>)
    requires
        end <= chars@.len(),
    ensures
        r@ == between(chars@, start as int, end as int),
{
    if start >= end {
        Vec::new()
    } else {
        sub_chars(chars, start, end)
    }
}

/// A count as a machine integer.
pub open spec fn capped(n: int) -> int {
    if n > i64::MAX {
        i64::MAX as int
    } else {
        n
    }
}

fn cap(n: u128) -> (r: i64)
    ensures
        r == capped(n as int),
{
    if n > i64::MAX as u128 {
        i64::MAX
    } else {
        n as i64
    }
}

/// Where a text is found between two indices, counted from the start of the whole.
pub open spec fn found_at(
    s: Seq<char>,
    sub: Seq<char>,
    start: int,
    end: int,
    from_right: bool,
) -> Option<int> {
    let part = between(s, start, end);
    let place = if from_right {
        last_match(part, sub, part.len() - sub.len())
    } else {
        first_match(part, sub, 0)
    };
    match place {
        Some(p) => Some(capped(start + p)),
        None => None,
    }
}

fn locate(chars: &[char], sub: &[char], start: usize, end: usize, from_right: bool) -> (r: Option<
    i64,
>)
    requires
        end <= chars@.len(),
    ensures
        match (r, found_at(chars@, sub@, start as int, end as int, from_right)) {
            (Some(i), Some(k)) => i == k,
            (None, None) => true,
            _ => false,
        },
{
    let part = slice_string(chars, start, end);
    let place: Option<usize> = if from_right {
        rfind_to(&part, sub, part.len())
    } else {
        find_from(&part, sub, 0)
    };
    match place {
        Some(p) => Some(cap(start as u128 + p as u128)),
        None => None,
    }
}

/// `str.find` and `str.rfind`: the place, or -1.
pub open spec fn place_outcome(
    vm: VM,
    name: Seq<char>,
    s: Seq<char>,
    args: ArgValues,
    from_right: bool,
) -> Outcome {
    match search_args(vm, name, s.len() as int, args) {
        Err(e) => raise(e),
        Ok((sub, start, end)) => Outcome::Number(
            match found_at(s, sub, start, end, from_right) {
                Some(p) => p,
                None => -1,
            },
        ),
    }
}

/// `str.index` and `str.rindex`: the place, or a `ValueError`.
pub open spec fn required_place_outcome(
    vm: VM,
    name: Seq<char>,
    s: Seq<char>,
    args: ArgValues,
    from_right: bool,
) -> Outcome {
    match search_args(vm, name, s.len() as int, args) {
        Err(e) => raise(e),
        Ok((sub, start, end)) => match found_at(s, sub, start, end, from_right) {
            Some(p) => Outcome::Number(p),
            None => Outcome::Raise(ExcType::ValueError, "substring not found"@),
        },
    }
}

/// `str.find`.
pub open spec fn find_outcome(vm: VM, s: Seq<char>, args: ArgValues) -> Outcome {
    place_outcome(vm, "str.find"@, s, args, false)
}

/// `str.rfind`.
pub open spec fn rfind_outcome(vm: VM, s: Seq<char>, args: ArgValues) -> Outcome {
    place_outcome(vm, "str.rfind"@, s, args, true)
}

/// `str.index`.
pub open spec fn index_outcome(vm: VM, s: Seq<char>, args: ArgValues) -> Outcome {
    required_place_outcome(vm, "str.index"@, s, args, false)
}

/// `str.rindex`.
pub open spec fn rindex_outcome(vm: VM, s: Seq<char>, args: ArgValues) -> Outcome {
    required_place_outcome(vm, "str.rindex"@, s, args, true)
}

fn find_place(name: &str, s: &str, args: &ArgValues, vm: &VM, from_right: bool) -> (r: RunResult<
    Answer,
>)
    requires
        args.ok(vm.entries().len(), vm.interns),
    ensures
        answers(r, place_outcome(*vm, name@, s@, *args, from_right)),
{
    let chars = chars_of(s);
    match parse_search_args(name, chars.len(), args, vm) {
        Err(e) => Err(e),
        Ok((sub, start, end)) => match locate(&chars, &sub, start, end, from_right) {
            Some(p) => Ok(Answer::Number(p)),
            None => Ok(Answer::Number(-1)),
        },
    }
}

fn require_place(name: &str, s: &str, args: &ArgValues, vm: &VM, from_right: bool) -> (r: RunResult<
    Answer,
>)
    requires
        args.ok(vm.entries().len(), vm.interns),
    ensures
        answers(r, required_place_outcome(*vm, name@, s@, *args, from_right)),
{
    let chars = chars_of(s);
    match parse_search_args(name, chars.len(), args, vm) {
        Err(e) => Err(e),
        Ok((sub, start, end)) => match locate(&chars, &sub, start, end, from_right) {
            Some(p) => Ok(Answer::Number(p)),
            None => Err(RunError::new(ExcType::ValueError, "substring not found")),
        },
    }
}

/// `str.find(sub, start?, end?)`: the lowest place, or -1.
fn str_find(s: &str, args: &ArgValues, vm: &VM) -> (r: RunResult<Answer>)
    requires
        args.ok(vm.entries().len(), vm.interns),
    ensures
        answers(r, find_outcome(*vm, s@, *args)),
{
    find_place("str.find", s, args, vm, false)
}

/// `str.rfind(sub, start?, end?)`: the highest place, or -1.
fn str_rfind(s: &str, args: &ArgValues, vm: &VM) -> (r: RunResult<Answer>)
    requires
        args.ok(vm.entries().len(), vm.interns),
    ensures
        answers(r, rfind_outcome(*vm, s@, *args)),
{
    find_place("str.rfind", s, args, vm, true)
}

/// `str.index(sub, start?, end?)`: the lowest place, or a `ValueError`.
fn str_index(s: &str, args: &ArgValues, vm: &VM) -> (r: RunResult<Answer>)
    requires
        args.ok(vm.entries().len(), vm.interns),
    ensures
        answers(r, index_outcome(*vm, s@, *args)),
{
    require_place("str.index", s, args, vm, false)
}

/// `str.rindex(sub, start?, end?)`: the highest place, or a `ValueError`.
fn str_rindex(s: &str, args: &ArgValues, vm: &VM) -> (r: RunResult<Answer>)
    requires
        args.ok(vm.entries().len(), vm.interns),
    ensures
        answers(r, rindex_outcome(*vm, s@, *args)),
{
    require_place("str.rindex", s, args, vm, true)
}

/// `str.count`.
pub open spec fn count_outcome(vm: VM, s: Seq<char>, args: ArgValues) -> Outcome {
    match search_args(vm, "str.count"@, s.len() as int, args) {
        Err(e) => raise(e),
        Ok((sub, start, end)) => Outcome::Number(
            capped(occurrences(between(s, start, end), sub) as int),
        ),
    }
}

/// `str.count(sub, start?, end?)`: the occurrences that do not overlap.
fn str_count(s: &str, args: &ArgValues, vm: &VM) -> (r: RunResult<Answer>)
    requires
        args.ok(vm.entries().len(), vm.interns),
    ensures
        answers(r, count_outcome(*vm, s@, *args)),
{
    let chars = chars_of(s);
    match parse_search_args("str.count", chars.len(), args, vm) {
        Err(e) => Err(e),
        Ok((sub, start, end)) => {
            let part = slice_string(&chars, start, end);
            Ok(Answer::Number(cap(count_in(&part, &sub))))
        },
    }
}

/// `str.startswith`.
pub open spec fn startswith_outcome(vm: VM, s: Seq<char>, args: ArgValues) -> Outcome {
    match affix_args(vm, "str.startswith"@, s.len() as int, args) {
        Err(e) => raise(e),
        Ok((all, start, end)) => Outcome::Flag(
            exists|i: int|
                0 <= i < all.len() && (#[trigger] all[i]).is_prefix_of(between(s, start, end)),
        ),
    }
}

/// `str.endswith`.
pub open spec fn endswith_outcome(vm: VM, s: Seq<char>, args: ArgValues) -> Outcome {
    match affix_args(vm, "str.endswith"@, s.len() as int, args) {
        Err(e) => raise(e),
        Ok((all, start, end)) => Outcome::Flag(
            exists|i: int|
                0 <= i < all.len() && (#[trigger] all[i]).is_suffix_of(between(s, start, end)),
        ),
    }
}

/// `str.startswith(prefix, start?, end?)`; the prefix may be a tuple of them.
fn str_startswith(s: &str, args: &ArgValues, vm: &VM) -> (r: RunResult<Answer>)
    requires
        vm.wf(),
        args.ok(vm.entries().len(), vm.interns),
    ensures
        answers(r, startswith_outcome(*vm, s@, *args)),
{
    let chars = chars_of(s);
    match parse_prefix_suffix_args("str.startswith", chars.len(), args, vm) {
        Err(e) => Err(e),
        Ok((all, start, end)) => {
            let part = slice_string(&chars, start, end);
            let mut found = false;
            for i in 0..all.len()
                invariant
                    found == exists|j: int|
                        0 <= j < i && (#[trigger] texts(all@)[j]).is_prefix_of(part@),
            {
                assert(texts(all@)[i as int] == all@[i as int]@);
                if starts_with(&part, &all[i]) {
                    assert(texts(all@)[i as int].is_prefix_of(part@));
                    found = true;
                }
            }
            Ok(Answer::Flag(found))
        },
    }
}

/// `str.endswith(suffix, start?, end?)`; the suffix may be a tuple of them.
fn str_endswith(s: &str, args: &ArgValues, vm: &VM) -> (r: RunResult<Answer>)
    requires
        vm.wf(),
        args.ok(vm.entries().len(), vm.interns),
    ensures
        answers(r, endswith_outcome(*vm, s@, *args)),
{
    let chars = chars_of(s);
    match parse_prefix_suffix_args("str.endswith", chars.len(), args, vm) {
        Err(e) => Err(e),
        Ok((all, start, end)) => {
            let part = slice_string(&chars, start, end);
            let mut found = false;
            for i in 0..all.len()
                invariant
                    found == exists|j: int|
                        0 <= j < i && (#[trigger] texts(all@)[j]).is_suffix_of(part@),
            {
                assert(texts(all@)[i as int] == all@[i as int]@);
                if ends_with(&part, &all[i]) {
                    assert(texts(all@)[i as int].is_suffix_of(part@));
                    found = true;
                }
            }
            Ok(Answer::Flag(found))
        },
    }
}

/// `str.strip`.
pub open spec fn strip_outcome(vm: VM, s: Seq<char>, args: ArgValues) -> Outcome {
    match strip_arg(vm, "str.strip"@, args) {
        Err(e) => raise(e),
        Ok(set) => Outcome::Text(stripped(s, set)),
    }
}

/// `str.strip(chars?)`: white space, or the given characters, taken away at both ends.
fn str_strip(s: &str, args: &ArgValues, vm: &VM) -> (r: RunResult<Answer>)
    requires
        args.ok(vm.entries().len(), vm.interns),
    ensures
        answers(r, strip_outcome(*vm, s@, *args)),
{
    let chars = chars_of(s);
    match parse_strip_arg("str.strip", args, vm) {
        Err(e) => Err(e),
        Ok(Some(set)) => Ok(Answer::Text(strip_chars(&chars, Some(&set)))),
        Ok(None) => Ok(Answer::Text(strip_chars(&chars, None))),
    }
}

/// `str.lstrip`.
pub open spec fn lstrip_outcome(vm: VM, s: Seq<char>, args: ArgValues) -> Outcome {
    match strip_arg(vm, "str.lstrip"@, args) {
        Err(e) => raise(e),
        Ok(set) => Outcome::Text(lstripped(s, set)),
    }
}

/// `str.lstrip(chars?)`: white space, or the given characters, taken away at the start.
fn str_lstrip(s: &str, args: &ArgValues, vm: &VM) -> (r: RunResult<Answer>)
    requires
        args.ok(vm.entries().len(), vm.interns),
    ensures
        answers(r, lstrip_outcome(*vm, s@, *args)),
{
    let chars = chars_of(s);
    match parse_strip_arg("str.lstrip", args, vm) {
        Err(e) => Err(e),
        Ok(Some(set)) => Ok(Answer::Text(lstrip_chars(&chars, Some(&set)))),
        Ok(None) => Ok(Answer::Text(lstrip_chars(&chars, None))),
    }
}

/// `str.rstrip`.
pub open spec fn rstrip_outcome(vm: VM, s: Seq<char>, args: ArgValues) -> Outcome {
    match strip_arg(vm, "str.rstrip"@, args) {
        Err(e) => raise(e),
        Ok(set) => Outcome::Text(rstripped(s, set)),
    }
}

/// `str.rstrip(chars?)`: white space, or the given characters, taken away at the end.
fn str_rstrip(s: &str, args: &ArgValues, vm: &VM) -> (r: RunResult<Answer>)
    requires
        args.ok(vm.entries().len(), vm.interns),
    ensures
        answers(r, rstrip_outcome(*vm, s@, *args)),
{
    let chars = chars_of(s);
    match parse_strip_arg("str.rstrip", args, vm) {
        Err(e) => Err(e),
        Ok(Some(set)) => Ok(Answer::Text(rstrip_chars(&chars, Some(&set)))),
        Ok(None) => Ok(Answer::Text(rstrip_chars(&chars, None))),
    }
}

/// `str.removeprefix`.
pub open spec fn removeprefix_outcome(vm: VM, s: Seq<char>, args: ArgValues) -> Outcome {
    match one_text_arg(vm, "str.removeprefix"@, args) {
        Err(e) => raise(e),
        Ok(prefix) => Outcome::Text(
            if prefix.is_prefix_of(s) {
                s.skip(prefix.len() as int)
            } else {
                s
            },
        ),
    }
}

/// `str.removesuffix`.
pub open spec fn removesuffix_outcome(vm: VM, s: Seq<char>, args: ArgValues) -> Outcome {
    match one_text_arg(vm, "str.removesuffix"@, args) {
        Err(e) => raise(e),
        Ok(suffix) => Outcome::Text(
            if suffix.is_suffix_of(s) {
                s.take(s.len() - suffix.len())
            } else {
                s
            },
        ),
    }
}

/// `str.removeprefix(prefix)`: the text without the prefix, if it has it.
fn str_removeprefix(s: &str, args: &ArgValues, vm: &VM) -> (r: RunResult<Answer>)
    requires
        args.ok(vm.entries().len(), vm.interns),
    ensures
        answers(r, removeprefix_outcome(*vm, s@, *args)),
{
    let prefix = match parse_one_text("str.removeprefix", args, vm) {
        Ok(prefix) => prefix,
        Err(e) => {
            return Err(e);
        },
    };
    let chars = chars_of(s);
    if starts_with(&chars, &prefix) {
        let rest = sub_chars(&chars, prefix.len(), chars.len());
        assert(rest@ =~= s@.skip(prefix@.len() as int));
        Ok(Answer::Text(rest))
    } else {
        Ok(Answer::Text(chars))
    }
}

/// `str.removesuffix(suffix)`: the text without the suffix, if it has it.
fn str_removesuffix(s: &str, args: &ArgValues, vm: &VM) -> (r: RunResult<Answer>)
    requires
        args.ok(vm.entries().len(), vm.interns),
    ensures
        answers(r, removesuffix_outcome(*vm, s@, *args)),
{
    let suffix = match parse_one_text("str.removesuffix", args, vm) {
        Ok(suffix) => suffix,
        Err(e) => {
            return Err(e);
        },
    };
    let chars = chars_of(s);
    if ends_with(&chars, &suffix) {
        let rest = sub_chars(&chars, 0, chars.len() - suffix.len());
        assert(rest@ =~= s@.take(s@.len() - suffix@.len()));
        Ok(Answer::Text(rest))
    } else {
        Ok(Answer::Text(chars))
    }
}

/// A number of splits or replacements; negative ones are no limit.
pub open spec fn limit_from(n: int) -> Option<nat> {
    if n < 0 {
        None
    } else {
        Some(as_size(n) as nat)
    }
}

fn limit_arg(n: i64) -> (r: Option<usize>)
    ensures
        limit_of(r) == limit_from(n as int),
{
    if n < 0 {
        None
    } else {
        Some(saturated_size(n))
    }
}

/// `str.split`.
pub open spec fn split_outcome(vm: VM, s: Seq<char>, args: ArgValues) -> Outcome {
    match split_args(vm, "split"@, args) {
        Err(e) => raise(e),
        Ok((Some(sep), max)) => if sep.len() == 0 {
            Outcome::Raise(ExcType::ValueError, "empty separator"@)
        } else {
            Outcome::Texts(split_pieces(s, sep, 0, limit_from(max)))
        },
        Ok((None, max)) => Outcome::Texts(words(s, limit_from(max))),
    }
}

/// `str.rsplit`; without a limit the words are the same from either side.
pub open spec fn rsplit_outcome(vm: VM, s: Seq<char>, args: ArgValues) -> Outcome {
    match split_args(vm, "rsplit"@, args) {
        Err(e) => raise(e),
        Ok((Some(sep), max)) => if sep.len() == 0 {
            Outcome::Raise(ExcType::ValueError, "empty separator"@)
        } else {
            Outcome::Texts(rsplit_pieces(s, sep, s.len() as int, limit_from(max)))
        },
        Ok((None, max)) => Outcome::Texts(
            if max < 0 {
                words(s, None)
            } else {
                rwords(s, limit_from(max))
            },
        ),
    }
}

/// `str.split(sep?, maxsplit?)`.
fn str_split(s: &str, args: &ArgValues, vm: &VM) -> (r: RunResult<Answer>)
    requires
        args.ok(vm.entries().len(), vm.interns),
    ensures
        answers(r, split_outcome(*vm, s@, *args)),
{
    let (sep, maxsplit) = match parse_split_args("split", args, vm) {
        Ok(parsed) => parsed,
        Err(e) => {
            return Err(e);
        },
    };
    let chars = chars_of(s);
    match sep {
        Some(sep) => {
            if sep.len() == 0 {
                return Err(RunError::new(ExcType::ValueError, "empty separator"));
            }
            Ok(Answer::Texts(split_sep(&chars, &sep, limit_arg(maxsplit))))
        },
        None => Ok(Answer::Texts(split_whitespace_n(&chars, limit_arg(maxsplit)))),
    }
}

/// `str.rsplit(sep?, maxsplit?)`.
fn str_rsplit(s: &str, args: &ArgValues, vm: &VM) -> (r: RunResult<Answer>)
    requires
        args.ok(vm.entries().len(), vm.interns),
    ensures
        answers(r, rsplit_outcome(*vm, s@, *args)),
{
    let (sep, maxsplit) = match parse_split_args("rsplit", args, vm) {
        Ok(parsed) => parsed,
        Err(e) => {
            return Err(e);
        },
    };
    let chars = chars_of(s);
    match sep {
        Some(sep) => {
            if sep.len() == 0 {
                return Err(RunError::new(ExcType::ValueError, "empty separator"));
            }
            Ok(Answer::Texts(rsplit_sep(&chars, &sep, limit_arg(maxsplit))))
        },
        None => if maxsplit < 0 {
            Ok(Answer::Texts(split_whitespace_n(&chars, None)))
        } else {
            Ok(Answer::Texts(rsplit_whitespace_n(&chars, limit_arg(maxsplit))))
        },
    }
}

/// `str.splitlines`.
pub open spec fn splitlines_outcome(vm: VM, s: Seq<char>, args: ArgValues) -> Outcome {
    match keepends_arg(vm, args) {
        Err(e) => raise(e),
        Ok(keepends) => Outcome::Texts(lines_from(s, 0, keepends)),
    }
}

/// `str.splitlines(keepends?)`.
fn str_splitlines(s: &str, args: &ArgValues, vm: &VM) -> (r: RunResult<Answer>)
    requires
        vm.wf(),
        args.ok(vm.entries().len(), vm.interns),
    ensures
        answers(r, splitlines_outcome(*vm, s@, *args)),
{
    match parse_splitlines_args(args, vm) {
        Err(e) => Err(e),
        Ok(keepends) => Ok(Answer::Texts(split_lines(&chars_of(s), keepends))),
    }
}

/// The outcome where a result would be larger than the limit.
pub open spec fn too_large() -> Outcome {
    Outcome::Raise(ExcType::MemoryError, "memory limit exceeded"@)
}

/// An upper bound for the bytes of a replaced text: as many replacements as
/// there can be, each as much larger as the new text is.
pub open spec fn replace_bound(text: int, old_text: int, new_text: int, count: int) -> int {
    let most = if old_text == 0 {
        text + 1
    } else {
        text / old_text
    };
    let times = if count < 0 || count > most {
        most
    } else {
        count
    };
    if new_text > old_text {
        text + times * (new_text - old_text)
    } else {
        text
    }
}

fn bound_replaced(text: usize, old_text: usize, new_text: usize, count: i64) -> (r: u128)
    ensures
        r == replace_bound(text as int, old_text as int, new_text as int, count as int),
{
    let most: u128 = if old_text == 0 {
        text as u128 + 1
    } else {
        (text / old_text) as u128
    };
    let times: u128 = if count < 0 || count as u128 > most {
        most
    } else {
        count as u128
    };
    proof {
        if old_text > 0 {
            assert(text / old_text <= text) by (nonlinear_arith)
                requires
                    old_text > 0,
            ;
        }
    }
    if new_text > old_text {
        let growth: u128 = (new_text - old_text) as u128;
        proof {
            assert(times * growth <= 0x1_0000_0000_0000_0000 * 0xffff_ffff_ffff_ffff)
                by (nonlinear_arith)
                requires
                    0 <= times <= 0x1_0000_0000_0000_0000,
                    0 <= growth <= 0xffff_ffff_ffff_ffff,
            ;
        }
        text as u128 + times * growth
    } else {
        text as u128
    }
}

/// `str.replace`.
pub open spec fn replace_outcome(vm: VM, s: Seq<char>, args: ArgValues) -> Outcome {
    match replace_args(vm, args) {
        Err(e) => raise(e),
        Ok((old_text, new_text, count)) => {
            let bound = replace_bound(
                vstd::utf8::encode_utf8(s).len() as int,
                vstd::utf8::encode_utf8(old_text).len() as int,
                vstd::utf8::encode_utf8(new_text).len() as int,
                count,
            );
            if bound > vm.heap.max_bytes {
                too_large()
            } else {
                Outcome::Text(replaced_from(s, old_text, new_text, 0, limit_from(count)))
            }
        },
    }
}

/// `str.replace(old, new, count?)`.
fn str_replace(s: &str, args: &ArgValues, vm: &VM) -> (r: RunResult<Answer>)
    requires
        args.ok(vm.entries().len(), vm.interns),
    ensures
        answers(r, replace_outcome(*vm, s@, *args)),
{
    let (old_text, new_text, count) = match parse_replace_args(args, vm) {
        Ok(parsed) => parsed,
        Err(e) => {
            return Err(e);
        },
    };
    let bound: u128 = bound_replaced(
        byte_len(s),
        byte_len(string_of(&old_text).as_str()),
        byte_len(string_of(&new_text).as_str()),
        count,
    );
    match vm.check_size(bound) {
        Err(e) => Err(e),
        Ok(_) => Ok(
            Answer::Text(replace_chars(&chars_of(s), &old_text, &new_text, limit_arg(count))),
        ),
    }
}

/// `str.partition`.
pub open spec fn partition_outcome(vm: VM, s: Seq<char>, args: ArgValues) -> Outcome {
    match one_text_arg(vm, "str.partition"@, args) {
        Err(e) => raise(e),
        Ok(sep) => if sep.len() == 0 {
            Outcome::Raise(ExcType::ValueError, "empty separator"@)
        } else {
            let parts = partitioned(s, sep);
            Outcome::TupleOfTexts(seq![parts.0, parts.1, parts.2])
        },
    }
}

/// `str.partition(sep)`: what is before the first separator, the separator, and the rest.
fn str_partition(s: &str, args: &ArgValues, vm: &VM) -> (r: RunResult<Answer>)
    requires
        args.ok(vm.entries().len(), vm.interns),
    ensures
        answers(r, partition_outcome(*vm, s@, *args)),
{
    let sep = match parse_one_text("str.partition", args, vm) {
        Ok(sep) => sep,
        Err(e) => {
            return Err(e);
        },
    };
    if sep.len() == 0 {
        return Err(RunError::new(ExcType::ValueError, "empty separator"));
    }
    let chars = chars_of(s);
    let (before, middle, after) = partition_chars(&chars, &sep);
    let mut parts: Vec<Vec<char>> = Vec::new();
    parts.push(before);
    parts.push(middle);
    parts.push(after);
    assert(texts(parts@) =~= seq![before@, middle@, after@]);
    Ok(Answer::TupleOfTexts(parts))
}

/// `str.rpartition`.
pub open spec fn rpartition_outcome(vm: VM, s: Seq<char>, args: ArgValues) -> Outcome {
    match one_text_arg(vm, "str.rpartition"@, args) {
        Err(e) => raise(e),
        Ok(sep) => if sep.len() == 0 {
            Outcome::Raise(ExcType::ValueError, "empty separator"@)
        } else {
            let parts = rpartitioned(s, sep);
            Outcome::TupleOfTexts(seq![parts.0, parts.1, parts.2])
        },
    }
}

/// `str.rpartition(sep)`: what is before the last separator, the separator, and the rest.
fn str_rpartition(s: &str, args: &ArgValues, vm: &VM) -> (r: RunResult<Answer>)
    requires
        args.ok(vm.entries().len(), vm.interns),
    ensures
        answers(r, rpartition_outcome(*vm, s@, *args)),
{
    let sep = match parse_one_text("str.rpartition", args, vm) {
        Ok(sep) => sep,
        Err(e) => {
            return Err(e);
        },
    };
    if sep.len() == 0 {
        return Err(RunError::new(ExcType::ValueError, "empty separator"));
    }
    let chars = chars_of(s);
    let (before, middle, after) = rpartition_chars(&chars, &sep);
    let mut parts: Vec<Vec<char>> = Vec::new();
    parts.push(before);
    parts.push(middle);
    parts.push(after);
    assert(texts(parts@) =~= seq![before@, middle@, after@]);
    Ok(Answer::TupleOfTexts(parts))
}

/// `str.center`.
pub open spec fn center_outcome(vm: VM, s: Seq<char>, args: ArgValues) -> Outcome {
    match justify_args(vm, "str.center"@, args) {
        Err(e) => raise(e),
        Ok((width, fill)) => if padded_size(s, width, fill) > vm.heap.max_bytes {
            too_large()
        } else {
            Outcome::Text(centered(s, width, fill))
        },
    }
}

/// `str.center(width, fillchar?)`.
fn str_center(s: &str, args: &ArgValues, vm: &VM) -> (r: RunResult<Answer>)
    requires
        args.ok(vm.entries().len(), vm.interns),
    ensures
        answers(r, center_outcome(*vm, s@, *args)),
{
    match parse_justify_args("str.center", args, vm) {
        Err(e) => Err(e),
        Ok((width, fill)) => match vm.check_size(size_padded(s, width, fill)) {
            Ok(_) => Ok(Answer::Text(center(s, width, fill))),
            Err(e) => Err(e),
        },
    }
}

/// `str.ljust`.
pub open spec fn ljust_outcome(vm: VM, s: Seq<char>, args: ArgValues) -> Outcome {
    match justify_args(vm, "str.ljust"@, args) {
        Err(e) => raise(e),
        Ok((width, fill)) => if padded_size(s, width, fill) > vm.heap.max_bytes {
            too_large()
        } else {
            Outcome::Text(left_justified(s, width, fill))
        },
    }
}

/// `str.ljust(width, fillchar?)`.
fn str_ljust(s: &str, args: &ArgValues, vm: &VM) -> (r: RunResult<Answer>)
    requires
        args.ok(vm.entries().len(), vm.interns),
    ensures
        answers(r, ljust_outcome(*vm, s@, *args)),
{
    match parse_justify_args("str.ljust", args, vm) {
        Err(e) => Err(e),
        Ok((width, fill)) => match vm.check_size(size_padded(s, width, fill)) {
            Ok(_) => Ok(Answer::Text(ljust(s, width, fill))),
            Err(e) => Err(e),
        },
    }
}

/// `str.rjust`.
pub open spec fn rjust_outcome(vm: VM, s: Seq<char>, args: ArgValues) -> Outcome {
    match justify_args(vm, "str.rjust"@, args) {
        Err(e) => raise(e),
        Ok((width, fill)) => if padded_size(s, width, fill) > vm.heap.max_bytes {
            too_large()
        } else {
            Outcome::Text(right_justified(s, width, fill))
        },
    }
}

/// `str.rjust(width, fillchar?)`.
fn str_rjust(s: &str, args: &ArgValues, vm: &VM) -> (r: RunResult<Answer>)
    requires
        args.ok(vm.entries().len(), vm.interns),
    ensures
        answers(r, rjust_outcome(*vm, s@, *args)),
{
    match parse_justify_args("str.rjust", args, vm) {
        Err(e) => Err(e),
        Ok((width, fill)) => match vm.check_size(size_padded(s, width, fill)) {
            Ok(_) => Ok(Answer::Text(rjust(s, width, fill))),
            Err(e) => Err(e),
        },
    }
}

/// `str.zfill`.
pub open spec fn zfill_outcome(vm: VM, s: Seq<char>, args: ArgValues) -> Outcome {
    if !args.just(1) {
        raise(crate::args::one_arg_error("str.zfill"@, args.total()))
    } else {
        match int_arg(vm, args.pos@[0]) {
            Err(e) => raise(e),
            Ok(n) => if padded_size(s, as_size(n), '0') > vm.heap.max_bytes {
                too_large()
            } else {
                Outcome::Text(zero_filled(s, as_size(n)))
            },
        }
    }
}

/// `str.zfill(width)`.
fn str_zfill(s: &str, args: &ArgValues, vm: &VM) -> (r: RunResult<Answer>)
    requires
        args.ok(vm.entries().len(), vm.interns),
    ensures
        answers(r, zfill_outcome(*vm, s@, *args)),
{
    let width: usize = match args.get_one_arg("str.zfill") {
        Err(e) => {
            return Err(e);
        },
        Ok(v) => match crate::types::str_args::extract_int_arg(v, vm) {
            Ok(n) => saturated_size(n),
            Err(e) => {
                return Err(e);
            },
        },
    };
    match vm.check_size(size_padded(s, width, '0')) {
        Ok(_) => Ok(Answer::Text(zfill(s, width))),
        Err(e) => Err(e),
    }
}

/// `str.expandtabs`.
pub open spec fn expandtabs_outcome(vm: VM, s: Seq<char>, args: ArgValues) -> Outcome {
    match tabsize_arg(vm, args) {
        Err(e) => raise(e),
        Ok(tabsize) => if utf8_size(tabs_expanded(s, tabsize)) > vm.heap.max_bytes {
            too_large()
        } else {
            Outcome::Text(tabs_expanded(s, tabsize))
        },
    }
}

/// `str.expandtabs(tabsize=8)`.
fn str_expandtabs(s: &str, args: &ArgValues, vm: &VM) -> (r: RunResult<Answer>)
    requires
        args.ok(vm.entries().len(), vm.interns),
    ensures
        answers(r, expandtabs_outcome(*vm, s@, *args)),
{
    match parse_expandtabs_args(args, vm) {
        Err(e) => Err(e),
        Ok(tabsize) => match expand_tabs(s, tabsize, vm.heap.max_bytes) {
            Some(out) => Ok(Answer::Text(out)),
            None => Err(RunError::new(ExcType::MemoryError, "memory limit exceeded")),
        },
    }
}

/// A named argument that has to be a string if it is given.
pub open spec fn named_text(
    vm: VM,
    function: Seq<char>,
    name: Seq<char>,
    v: Option<Value>,
    default: Seq<char>,
) -> Result<Seq<char>, Raised> {
    match v {
        None => Ok(default),
        Some(v) => match vm.text_of(v) {
            Some(t) => Ok(t),
            None => Err(
                (
                    ExcType::TypeError,
                    function + "() argument '"@ + name + "' must be str, not "@ + vm.type_of(
                        v,
                    ).arg_text(),
                ),
            ),
        },
    }
}

fn extract_named_text(
    function: &str,
    name: &str,
    v: Option<&Value>,
    default: &str,
    vm: &VM,
) -> (r: RunResult<Vec<char>>)
    requires
        v matches Some(v) ==> vm.ok(*v),
    ensures
        crate::types::str_args::text_is(
            r,
            named_text(
                *vm,
                function@,
                name@,
                match v {
                    Some(v) => Some(*v),
                    None => None,
                },
                default@,
            ),
        ),
{
    match v {
        None => Ok(chars_of(default)),
        Some(v) => match v.text(vm) {
            Some(t) => Ok(chars_of(t)),
            None => {
                let mut out: Vec<char> = Vec::new();
                push_str(&mut out, function);
                push_str(&mut out, "() argument '");
                push_str(&mut out, name);
                push_str(&mut out, "' must be str, not ");
                push_str(&mut out, v.py_type(vm).cpython_arg_name());
                assert(out@ =~= function@ + "() argument '"@ + name@ + "' must be str, not "@
                    + vm.type_of(*v).arg_text());
                Err(RunError::new_msg(ExcType::TypeError, string_of(&out)))
            },
        },
    }
}

/// A character with an ASCII capital made small.
pub open spec fn ascii_lower(c: char) -> char {
    if 'A' <= c <= 'Z' {
        ((c as u32 + 32) as u32) as char
    } else {
        c
    }
}

/// A text with ASCII capitals made small.
pub open spec fn ascii_lowered(s: Seq<char>) -> Seq<char> {
    s.map_values(|c: char| ascii_lower(c))
}

fn to_ascii_lowercase(chars: &[char]) -> (r: Vec<char>)
    ensures
        r@ == ascii_lowered(chars@),
{
    let mut out: Vec<char> = Vec::new();
    for i in 0..chars.len()
        invariant
            out@ == ascii_lowered(chars@.take(i as int)),
    {
        let c = lower_ascii_char(chars[i]);
        out.push(c);
        assert(out@ =~= ascii_lowered(chars@.take(i + 1)));
    }
    assert(chars@.take(chars@.len() as int) =~= chars@);
    out
}

fn lower_ascii_char(c: char) -> (r: char)
    ensures
        r == ascii_lower(c),
{
    if 'A' <= c && c <= 'Z' {
        let code: u8 = c as u8;
        (code + 32) as char
    } else {
        c
    }
}

/// Whether an encoding is UTF-8.
pub open spec fn is_utf8_name(encoding: Seq<char>) -> bool {
    ascii_lowered(encoding) == "utf-8"@ || ascii_lowered(encoding) == "utf8"@
}

/// Whether an error handler is known; UTF-8 never needs it.
pub open spec fn is_error_handler(name: Seq<char>) -> bool {
    name == "strict"@ || name == "ignore"@ || name == "replace"@ || name == "backslashreplace"@
}

/// `str.encode`.
pub open spec fn encode_outcome(vm: VM, s: Seq<char>, args: ArgValues) -> Outcome {
    match args.binding_error("encode"@, seq!["encoding"@, "errors"@], 0, vm.interns) {
        Some(e) => raise(e),
        None => match (
            named_text(
                vm,
                "encode"@,
                "encoding"@,
                args.argument(0, "encoding"@, vm.interns),
                "utf-8"@,
            ),
            named_text(
                vm,
                "encode"@,
                "errors"@,
                args.argument(1, "errors"@, vm.interns),
                "strict"@,
            ),
        ) {
            (Err(e), _) => raise(e),
            (_, Err(e)) => raise(e),
            (Ok(encoding), Ok(errors)) => if !is_utf8_name(encoding) {
                Outcome::Raise(ExcType::LookupError, "unknown encoding: "@ + encoding)
            } else if !is_error_handler(errors) {
                Outcome::Raise(
                    ExcType::LookupError,
                    "unknown error handler name '"@ + errors + "'"@,
                )
            } else {
                Outcome::Raw(vstd::utf8::encode_utf8(s))
            },
        },
    }
}

/// `str.encode(encoding='utf-8', errors='strict')`: the UTF-8 bytes.
fn str_encode(s: &str, args: &ArgValues, vm: &VM) -> (r: RunResult<Answer>)
    requires
        args.ok(vm.entries().len(), vm.interns),
    ensures
        answers(r, encode_outcome(*vm, s@, *args)),
{
    let params: [&'static str; 2] = ["encoding", "errors"];
    proof {
        assert(crate::args::param_texts(params@) =~= seq!["encoding"@, "errors"@]);
        lemma_argument_ok(*args, 0, "encoding"@, vm.entries().len(), vm.interns);
        lemma_argument_ok(*args, 1, "errors"@, vm.entries().len(), vm.interns);
    }
    match args.check_binding("encode", &params, 0, &vm.interns) {
        Ok(_) => {},
        Err(e) => {
            return Err(e);
        },
    }
    let encoding = match extract_named_text(
        "encode",
        "encoding",
        args.get_argument(0, "encoding", &vm.interns),
        "utf-8",
        vm,
    ) {
        Ok(t) => t,
        Err(e) => {
            return Err(e);
        },
    };
    let errors = match extract_named_text(
        "encode",
        "errors",
        args.get_argument(1, "errors", &vm.interns),
        "strict",
        vm,
    ) {
        Ok(t) => t,
        Err(e) => {
            return Err(e);
        },
    };
    let lower = to_ascii_lowercase(&encoding);
    if !same_chars(&lower, &chars_of("utf-8")) && !same_chars(&lower, &chars_of("utf8")) {
        let mut out = chars_of("unknown encoding: ");
        push_range(&mut out, &encoding, 0, encoding.len());
        assert(out@ =~= "unknown encoding: "@ + encoding@);
        return Err(RunError::new_msg(ExcType::LookupError, string_of(&out)));
    }
    if !same_chars(&errors, &chars_of("strict")) && !same_chars(&errors, &chars_of("ignore"))
        && !same_chars(&errors, &chars_of("replace")) && !same_chars(
        &errors,
        &chars_of("backslashreplace"),
    ) {
        let mut out = chars_of("unknown error handler name '");
        push_range(&mut out, &errors, 0, errors.len());
        push_str(&mut out, "'");
        assert(out@ =~= "unknown error handler name '"@ + errors@ + "'"@);
        return Err(RunError::new_msg(ExcType::LookupError, string_of(&out)));
    }
    let bytes = s.as_bytes();
    let copy = sub_bytes(bytes, 0, bytes.len());
    assert(copy@ =~= vstd::utf8::encode_utf8(s@));
    Ok(Answer::Raw(copy))
}

/// What iterating over a value gives to `str.join`.
pub enum Joined {
    /// Values that are looked at one by one.
    Values(Seq<Value>),
    /// The characters of a text.
    Letters(Seq<char>),
    /// Objects of a type that is no string; there may be none.
    Others(Type, bool),
}

/// The entries of the dictionary at `id`.
pub open spec fn dict_entries(vm: VM, id: HeapId) -> Seq<(Value, Value)> {
    match vm.heap.data(id) {
        HeapData::Dict(dict) => dict.entries@,
        _ => Seq::empty(),
    }
}

/// The first parts of pairs.
pub open spec fn firsts(pairs: Seq<(Value, Value)>) -> Seq<Value> {
    pairs.map_values(|p: (Value, Value)| p.0)
}

/// The second parts of pairs.
pub open spec fn seconds(pairs: Seq<(Value, Value)>) -> Seq<Value> {
    pairs.map_values(|p: (Value, Value)| p.1)
}

/// What iterating over a value gives, if it can be iterated over.
pub open spec fn iterated(vm: VM, v: Value) -> Option<Joined> {
    match vm.text_of(v) {
        Some(t) => Some(Joined::Letters(t)),
        None => match vm.bytes_of(v) {
            Some(b) => Some(Joined::Others(Type::Int, b.len() > 0)),
            None => match vm.data_of(v) {
                Some(HeapData::List(list)) => Some(Joined::Values(list.items@)),
                Some(HeapData::Tuple(tuple)) => Some(Joined::Values(tuple.items@)),
                Some(HeapData::NamedTuple(tuple)) => Some(Joined::Values(tuple.items@)),
                Some(HeapData::Dict(dict)) => Some(Joined::Values(firsts(dict.entries@))),
                Some(HeapData::SetData(set)) => Some(Joined::Values(set.items@)),
                Some(HeapData::FrozenSet(set)) => Some(Joined::Values(set.items@)),
                Some(HeapData::DictKeysView(view)) => Some(
                    Joined::Values(firsts(dict_entries(vm, view.dict_id))),
                ),
                Some(HeapData::DictValuesView(view)) => Some(
                    Joined::Values(seconds(dict_entries(vm, view.dict_id))),
                ),
                Some(HeapData::DictItemsView(view)) => Some(
                    Joined::Others(Type::Tuple, dict_entries(vm, view.dict_id).len() > 0),
                ),
                Some(HeapData::Range(range)) => Some(
                    Joined::Others(
                        Type::Int,
                        if range.step > 0 {
                            range.start < range.stop
                        } else {
                            range.start > range.stop
                        },
                    ),
                ),
                _ => None,
            },
        },
    }
}

/// The error for an item that is no string.
pub open spec fn join_item_error(index: nat, t: Type) -> Raised {
    (
        ExcType::TypeError,
        "sequence item "@ + nat_digits(index) + ": expected str instance, "@ + t.text()
            + " found"@,
    )
}

fn join_item(index: usize, t: Type) -> (r: RunError)
    ensures
        r.says(ExcType::TypeError, join_item_error(index as nat, t).1),
{
    let mut out = chars_of("sequence item ");
    push_nat(&mut out, index as u64);
    push_str(&mut out, ": expected str instance, ");
    push_str(&mut out, t.as_str());
    push_str(&mut out, " found");
    assert(out@ =~= join_item_error(index as nat, t).1);
    RunError::new_msg(ExcType::TypeError, string_of(&out))
}

/// The texts of the values before the first that is no string, and that one's place.
pub open spec fn leading_texts(vm: VM, vs: Seq<Value>, from: int) -> Seq<Seq<char>>
    decreases vs.len() - from,
{
    if from >= vs.len() {
        Seq::empty()
    } else {
        match vm.text_of(vs[from]) {
            None => Seq::empty(),
            Some(t) => seq![t] + leading_texts(vm, vs, from + 1),
        }
    }
}

/// `str.join` of values.
pub open spec fn join_values(vm: VM, sep: Seq<char>, vs: Seq<Value>) -> Outcome {
    let ts = leading_texts(vm, vs, 0);
    if ts.len() < vs.len() {
        raise(join_item_error(ts.len(), vm.type_of(vs[ts.len() as int])))
    } else {
        Outcome::Text(join_with(ts, sep))
    }
}

/// Each character as a text of its own.
pub open spec fn letters(s: Seq<char>) -> Seq<Seq<char>> {
    s.map_values(|c: char| seq![c])
}

/// `str.join`.
pub open spec fn join_outcome(vm: VM, s: Seq<char>, args: ArgValues) -> Outcome {
    if !args.just(1) {
        raise(crate::args::one_arg_error("str.join"@, args.total()))
    } else {
        match iterated(vm, args.pos@[0]) {
            None => Outcome::Raise(ExcType::TypeError, "can only join an iterable"@),
            Some(Joined::Letters(t)) => Outcome::Text(join_with(letters(t), s)),
            Some(Joined::Values(vs)) => join_values(vm, s, vs),
            Some(Joined::Others(t, some)) => if some {
                raise(join_item_error(0, t))
            } else {
                Outcome::Text(Seq::empty())
            },
        }
    }
}

/// Texts of values: those of a prefix that are all strings, then the rest.
proof fn lemma_leading_texts(vm: VM, vs: Seq<Value>, got: Seq<Seq<char>>, k: int)
    requires
        0 <= k <= vs.len(),
        got.len() == k,
        forall|i: int| 0 <= i < k ==> vm.text_of(vs[i]) == Some(#[trigger] got[i]),
    ensures
        leading_texts(vm, vs, 0) == got + leading_texts(vm, vs, k),
    decreases k,
{
    if k == 0 {
        assert(got + leading_texts(vm, vs, 0) =~= leading_texts(vm, vs, 0));
    } else {
        lemma_leading_texts(vm, vs, got.drop_last(), k - 1);
        let rest = leading_texts(vm, vs, k);
        assert(got.drop_last() + (seq![got.last()] + rest) =~= got + rest);
        assert(vm.text_of(vs[k - 1]) == Some(got[k - 1]));
    }
}

fn join_texts(sep: &[char], items: &[Value], vm: &VM) -> (r: RunResult<Answer>)
    requires
        vm.all_ok(items@),
    ensures
        answers(r, join_values(*vm, sep@, items@)),
{
    let mut out: Vec<char> = Vec::new();
    let ghost mut got: Seq<Seq<char>> = Seq::empty();
    for i in 0..items.len()
        invariant
            vm.all_ok(items@),
            got.len() == i,
            forall|j: int| 0 <= j < i ==> vm.text_of(items@[j]) == Some(#[trigger] got[j]),
            out@ == join_with(got, sep@),
    {
        match items[i].text(vm) {
            Some(t) => {
                let ghost before = out@;
                if i > 0 {
                    push_range(&mut out, sep, 0, sep.len());
                    assert(out@ =~= before + sep@);
                }
                push_str(&mut out, t);
                proof {
                    lemma_join_push(got, t@, sep@);
                    if i == 0 {
                        assert(out@ =~= t@);
                    }
                    got = got.push(t@);
                }
            },
            None => {
                proof {
                    lemma_leading_texts(*vm, items@, got, i as int);
                    assert(got + Seq::<Seq<char>>::empty() =~= got);
                }
                return Err(join_item(i, items[i].py_type(vm)));
            },
        }
    }
    proof {
        lemma_leading_texts(*vm, items@, got, items@.len() as int);
        assert(got + Seq::<Seq<char>>::empty() =~= got);
    }
    Ok(Answer::Text(out))
}

fn join_letters(sep: &[char], text: &[char]) -> (r: Vec<char>)
    ensures
        r@ == join_with(letters(text@), sep@),
{
    let mut out: Vec<char> = Vec::new();
    assert(letters(text@.take(0)) =~= Seq::empty());
    for i in 0..text.len()
        invariant
            out@ == join_with(letters(text@.take(i as int)), sep@),
    {
        let ghost before = out@;
        if i > 0 {
            push_range(&mut out, sep, 0, sep.len());
            assert(out@ =~= before + sep@);
        }
        out.push(text[i]);
        proof {
            lemma_join_push(letters(text@.take(i as int)), seq![text@[i as int]], sep@);
            assert(letters(text@.take(i + 1)) =~= letters(text@.take(i as int)).push(
                seq![text@[i as int]],
            ));
            assert(out@ =~= join_with(letters(text@.take(i + 1)), sep@));
        }
    }
    assert(text@.take(text@.len() as int) =~= text@);
    out
}

/// The keys or the values of pairs; references are not counted.
pub(crate) fn column(pairs: &[(Value, Value)], keys: bool) -> (r: Vec<Value>)
    ensures
        r@ == if keys {
            firsts(pairs@)
        } else {
            seconds(pairs@)
        },
{
    let mut out: Vec<Value> = Vec::new();
    for i in 0..pairs.len()
        invariant
            out@ == if keys {
                firsts(pairs@.take(i as int))
            } else {
                seconds(pairs@.take(i as int))
            },
    {
        if keys {
            out.push(pairs[i].0.alias());
            assert(out@ =~= firsts(pairs@.take(i + 1)));
        } else {
            out.push(pairs[i].1.alias());
            assert(out@ =~= seconds(pairs@.take(i + 1)));
        }
    }
    assert(pairs@.take(pairs@.len() as int) =~= pairs@);
    out
}

/// The entries of the dictionary at `id`.
pub(crate) fn dict_at(vm: &VM, id: HeapId) -> (r: Option<&Vec<(Value, Value)>>)
    requires
        id.0 < vm.entries().len(),
    ensures
        match r {
            Some(pairs) => pairs@ == dict_entries(*vm, id) && vm.heap.data(id) is Dict,
            None => dict_entries(*vm, id).len() == 0 && !(vm.heap.data(id) is Dict),
        },
{
    match vm.heap.get(id) {
        HeapData::Dict(dict) => Some(&dict.entries),
        _ => None,
    }
}

/// Values of a dictionary exist.
pub proof fn lemma_pairs_ok(vm: VM, id: HeapId)
    requires
        vm.wf(),
        id.0 < vm.entries().len(),
    ensures
        vm.all_ok(firsts(dict_entries(vm, id))),
        vm.all_ok(seconds(dict_entries(vm, id))),
{
    assert(data_ok(vm.heap.entries@[id.0 as int].data, vm.heap.entries@.len(), vm.interns));
    let pairs = dict_entries(vm, id);
    assert forall|i: int| 0 <= i < pairs.len() implies vm.ok(#[trigger] firsts(pairs)[i]) && vm.ok(
        seconds(pairs)[i],
    ) by {
        assert(pairs[i].0 == firsts(pairs)[i]);
    }
    assert forall|i: int| 0 <= i < seconds(pairs).len() implies vm.ok(
        #[trigger] seconds(pairs)[i],
    ) by {
        assert(vm.ok(firsts(pairs)[i]));
    }
}

fn join_pairs(sep: &[char], id: HeapId, keys: bool, vm: &VM) -> (r: RunResult<Answer>)
    requires
        vm.wf(),
        id.0 < vm.entries().len(),
    ensures
        answers(
            r,
            join_values(
                *vm,
                sep@,
                if keys {
                    firsts(dict_entries(*vm, id))
                } else {
                    seconds(dict_entries(*vm, id))
                },
            ),
        ),
{
    proof {
        lemma_pairs_ok(*vm, id);
    }
    match dict_at(vm, id) {
        Some(pairs) => join_texts(sep, &column(pairs, keys), vm),
        None => {
            let none: Vec<Value> = Vec::new();
            proof {
                assert(none@ =~= firsts(dict_entries(*vm, id)));
                assert(none@ =~= seconds(dict_entries(*vm, id)));
            }
            join_texts(sep, &none, vm)
        },
    }
}

fn join_others(t: Type, some: bool) -> (r: RunResult<Answer>)
    ensures
        answers(
            r,
            if some {
                raise(join_item_error(0, t))
            } else {
                Outcome::Text(Seq::empty())
            },
        ),
{
    if some {
        Err(join_item(0, t))
    } else {
        let none: Vec<char> = Vec::new();
        assert(none@ =~= Seq::empty());
        Ok(Answer::Text(none))
    }
}

/// `str.join(iterable)`: the strings with this one between them.
fn str_join(s: &str, args: &ArgValues, vm: &VM) -> (r: RunResult<Answer>)
    requires
        vm.wf(),
        args.ok(vm.entries().len(), vm.interns),
    ensures
        answers(r, join_outcome(*vm, s@, *args)),
{
    let iterable = match args.get_one_arg("str.join") {
        Ok(v) => v,
        Err(e) => {
            return Err(e);
        },
    };
    let sep = chars_of(s);
    match iterable.text(vm) {
        Some(t) => {
            return Ok(Answer::Text(join_letters(&sep, &chars_of(t))));
        },
        None => {},
    }
    match iterable.raw_bytes(vm) {
        Some(b) => {
            return join_others(Type::Int, b.len() > 0);
        },
        None => {},
    }
    match iterable {
        Value::Ref(id) => {
            proof {
                assert(data_ok(
                    vm.heap.entries@[id.0 as int].data,
                    vm.heap.entries@.len(),
                    vm.interns,
                ));
            }
            match vm.heap.get(*id) {
                HeapData::List(list) => join_texts(&sep, list.as_slice(), vm),
                HeapData::Tuple(tuple) => join_texts(&sep, tuple.as_slice(), vm),
                HeapData::NamedTuple(tuple) => join_texts(&sep, tuple.items.as_slice(), vm),
                HeapData::Dict(_) => join_pairs(&sep, *id, true, vm),
                HeapData::SetData(set) => join_texts(&sep, set.items.as_slice(), vm),
                HeapData::FrozenSet(set) => join_texts(&sep, set.items.as_slice(), vm),
                HeapData::DictKeysView(view) => join_pairs(&sep, view.dict_id, true, vm),
                HeapData::DictValuesView(view) => join_pairs(&sep, view.dict_id, false, vm),
                HeapData::DictItemsView(view) => {
                    let some = match dict_at(vm, view.dict_id) {
                        Some(pairs) => pairs.len() > 0,
                        None => false,
                    };
                    join_others(Type::Tuple, some)
                },
                HeapData::Range(range) => {
                    let some = if range.step > 0 {
                        range.start < range.stop
                    } else {
                        range.start > range.stop
                    };
                    join_others(Type::Int, some)
                },
                _ => Err(RunError::new(ExcType::TypeError, "can only join an iterable")),
            }
        },
        _ => Err(RunError::new(ExcType::TypeError, "can only join an iterable")),
    }
}

/// A method without arguments.
pub open spec fn zero_args(args: ArgValues, name: Seq<char>, o: Outcome) -> Outcome {
    if args.total() == 0 {
        o
    } else {
        raise(no_args_error(name, args.total()))
    }
}

/// The error for an attribute that does not exist.
pub open spec fn no_attribute(t: Seq<char>, name: Seq<char>) -> Raised {
    (ExcType::AttributeError, "'"@ + t + "' object has no attribute '"@ + name + "'"@)
}

/// The error for an attribute that does not exist.
pub fn attribute_error(t: &str, name: &str) -> (r: RunError)
    ensures
        r.says(ExcType::AttributeError, no_attribute(t@, name@).1),
{
    let mut out = chars_of("'");
    push_str(&mut out, t);
    push_str(&mut out, "' object has no attribute '");
    push_str(&mut out, name);
    push_str(&mut out, "'");
    assert(out@ =~= no_attribute(t@, name@).1);
    RunError::new_msg(ExcType::AttributeError, string_of(&out))
}

/// What a method call on a string comes to.
pub open spec fn str_method_outcome(
    vm: VM,
    s: Seq<char>,
    method: StaticStrings,
    args: ArgValues,
) -> Outcome {
    match method {
        StaticStrings::Lower => zero_args(args, "str.lower"@, Outcome::Text(lower_text(s))),
        StaticStrings::Upper => zero_args(args, "str.upper"@, Outcome::Text(upper_text(s))),
        StaticStrings::Capitalize => zero_args(args, "str.capitalize"@, Outcome::Text(capitalized(s))),
        StaticStrings::Title => zero_args(args, "str.title"@, Outcome::Text(titled(s))),
        StaticStrings::Swapcase => zero_args(args, "str.swapcase"@, Outcome::Text(case_swapped(s))),
        StaticStrings::Casefold => zero_args(args, "str.casefold"@, Outcome::Text(folded(s))),
        StaticStrings::Isalpha => zero_args(args, "str.isalpha"@, Outcome::Flag(nonempty_all(s, |c: char| alphabetic(c)))),
        StaticStrings::Isdigit => zero_args(args, "str.isdigit"@, Outcome::Flag(nonempty_all(s, |c: char| unicode_decimal(c) || other_digit(c)))),
        StaticStrings::Isalnum => zero_args(args, "str.isalnum"@, Outcome::Flag(nonempty_all(s, |c: char| alphanumeric(c)))),
        StaticStrings::Isnumeric => zero_args(args, "str.isnumeric"@, Outcome::Flag(nonempty_all(s, |c: char| numeric(c)))),
        StaticStrings::Isspace => zero_args(args, "str.isspace"@, Outcome::Flag(nonempty_all(s, |c: char| whitespace(c)))),
        StaticStrings::Islower => zero_args(args, "str.islower"@, Outcome::Flag(is_lower_text(s))),
        StaticStrings::Isupper => zero_args(args, "str.isupper"@, Outcome::Flag(is_upper_text(s))),
        StaticStrings::Isascii => zero_args(args, "str.isascii"@, Outcome::Flag(is_ascii_text(s))),
        StaticStrings::Isdecimal => zero_args(args, "str.isdecimal"@, Outcome::Flag(nonempty_all(s, |c: char| unicode_decimal(c)))),
        StaticStrings::Isidentifier => zero_args(args, "str.isidentifier"@, Outcome::Flag(is_identifier_text(s))),
        StaticStrings::Istitle => zero_args(args, "str.istitle"@, Outcome::Flag(is_title_text(s))),
        StaticStrings::Find => find_outcome(vm, s, args),
        StaticStrings::Rfind => rfind_outcome(vm, s, args),
        StaticStrings::Index => index_outcome(vm, s, args),
        StaticStrings::Rindex => rindex_outcome(vm, s, args),
        StaticStrings::Count => count_outcome(vm, s, args),
        StaticStrings::Startswith => startswith_outcome(vm, s, args),
        StaticStrings::Endswith => endswith_outcome(vm, s, args),
        StaticStrings::Strip => strip_outcome(vm, s, args),
        StaticStrings::Lstrip => lstrip_outcome(vm, s, args),
        StaticStrings::Rstrip => rstrip_outcome(vm, s, args),
        StaticStrings::Removeprefix => removeprefix_outcome(vm, s, args),
        StaticStrings::Removesuffix => removesuffix_outcome(vm, s, args),
        StaticStrings::Split => split_outcome(vm, s, args),
        StaticStrings::Rsplit => rsplit_outcome(vm, s, args),
        StaticStrings::Splitlines => splitlines_outcome(vm, s, args),
        StaticStrings::Partition => partition_outcome(vm, s, args),
        StaticStrings::Rpartition => rpartition_outcome(vm, s, args),
        StaticStrings::Replace => replace_outcome(vm, s, args),
        StaticStrings::Center => center_outcome(vm, s, args),
        StaticStrings::Ljust => ljust_outcome(vm, s, args),
        StaticStrings::Rjust => rjust_outcome(vm, s, args),
        StaticStrings::Zfill => zfill_outcome(vm, s, args),
        StaticStrings::Expandtabs => expandtabs_outcome(vm, s, args),
        StaticStrings::Encode => encode_outcome(vm, s, args),
        StaticStrings::Join => join_outcome(vm, s, args),
        _ => raise(no_attribute("str"@, method.text())),
    }
}

/// What a method call on a string comes to.
fn str_method(s: &str, method: StaticStrings, args: &ArgValues, vm: &VM) -> (r: RunResult<Answer>)
    requires
        vm.wf(),
        args.ok(vm.entries().len(), vm.interns),
    ensures
        answers(r, str_method_outcome(*vm, s@, method, *args)),
{
    match method {
        StaticStrings::Lower => match args.check_zero_args("str.lower") {
            Ok(_) => Ok(Answer::Text(chars_of(text_lower(s).as_str()))),
            Err(e) => Err(e),
        },
        StaticStrings::Upper => match args.check_zero_args("str.upper") {
            Ok(_) => Ok(Answer::Text(chars_of(text_upper(s).as_str()))),
            Err(e) => Err(e),
        },
        StaticStrings::Capitalize => match args.check_zero_args("str.capitalize") {
            Ok(_) => Ok(Answer::Text(str_capitalize(s))),
            Err(e) => Err(e),
        },
        StaticStrings::Title => match args.check_zero_args("str.title") {
            Ok(_) => Ok(Answer::Text(str_title(s))),
            Err(e) => Err(e),
        },
        StaticStrings::Swapcase => match args.check_zero_args("str.swapcase") {
            Ok(_) => Ok(Answer::Text(str_swapcase(s))),
            Err(e) => Err(e),
        },
        StaticStrings::Casefold => match args.check_zero_args("str.casefold") {
            Ok(_) => Ok(Answer::Text(str_casefold(s))),
            Err(e) => Err(e),
        },
        StaticStrings::Isalpha => match args.check_zero_args("str.isalpha") {
            Ok(_) => Ok(Answer::Flag(str_isalpha(s))),
            Err(e) => Err(e),
        },
        StaticStrings::Isdigit => match args.check_zero_args("str.isdigit") {
            Ok(_) => Ok(Answer::Flag(str_isdigit(s))),
            Err(e) => Err(e),
        },
        StaticStrings::Isalnum => match args.check_zero_args("str.isalnum") {
            Ok(_) => Ok(Answer::Flag(str_isalnum(s))),
            Err(e) => Err(e),
        },
        StaticStrings::Isnumeric => match args.check_zero_args("str.isnumeric") {
            Ok(_) => Ok(Answer::Flag(str_isnumeric(s))),
            Err(e) => Err(e),
        },
        StaticStrings::Isspace => match args.check_zero_args("str.isspace") {
            Ok(_) => Ok(Answer::Flag(str_isspace(s))),
            Err(e) => Err(e),
        },
        StaticStrings::Islower => match args.check_zero_args("str.islower") {
            Ok(_) => Ok(Answer::Flag(str_islower(s))),
            Err(e) => Err(e),
        },
        StaticStrings::Isupper => match args.check_zero_args("str.isupper") {
            Ok(_) => Ok(Answer::Flag(str_isupper(s))),
            Err(e) => Err(e),
        },
        StaticStrings::Isascii => match args.check_zero_args("str.isascii") {
            Ok(_) => Ok(Answer::Flag(str_isascii(s))),
            Err(e) => Err(e),
        },
        StaticStrings::Isdecimal => match args.check_zero_args("str.isdecimal") {
            Ok(_) => Ok(Answer::Flag(str_isdecimal(s))),
            Err(e) => Err(e),
        },
        StaticStrings::Isidentifier => match args.check_zero_args("str.isidentifier") {
            Ok(_) => Ok(Answer::Flag(str_isidentifier(s))),
            Err(e) => Err(e),
        },
        StaticStrings::Istitle => match args.check_zero_args("str.istitle") {
            Ok(_) => Ok(Answer::Flag(str_istitle(s))),
            Err(e) => Err(e),
        },
        StaticStrings::Find => str_find(s, args, vm),
        StaticStrings::Rfind => str_rfind(s, args, vm),
        StaticStrings::Index => str_index(s, args, vm),
        StaticStrings::Rindex => str_rindex(s, args, vm),
        StaticStrings::Count => str_count(s, args, vm),
        StaticStrings::Startswith => str_startswith(s, args, vm),
        StaticStrings::Endswith => str_endswith(s, args, vm),
        StaticStrings::Strip => str_strip(s, args, vm),
        StaticStrings::Lstrip => str_lstrip(s, args, vm),
        StaticStrings::Rstrip => str_rstrip(s, args, vm),
        StaticStrings::Removeprefix => str_removeprefix(s, args, vm),
        StaticStrings::Removesuffix => str_removesuffix(s, args, vm),
        StaticStrings::Split => str_split(s, args, vm),
        StaticStrings::Rsplit => str_rsplit(s, args, vm),
        StaticStrings::Splitlines => str_splitlines(s, args, vm),
        StaticStrings::Partition => str_partition(s, args, vm),
        StaticStrings::Rpartition => str_rpartition(s, args, vm),
        StaticStrings::Replace => str_replace(s, args, vm),
        StaticStrings::Center => str_center(s, args, vm),
        StaticStrings::Ljust => str_ljust(s, args, vm),
        StaticStrings::Rjust => str_rjust(s, args, vm),
        StaticStrings::Zfill => str_zfill(s, args, vm),
        StaticStrings::Expandtabs => str_expandtabs(s, args, vm),
        StaticStrings::Encode => str_encode(s, args, vm),
        StaticStrings::Join => str_join(s, args, vm),
        _ => Err(attribute_error("str", method.as_str())),
    }
}

/// Calls a method of a string.
pub fn call_str_method_impl(
    s: &str,
    method: StaticStrings,
    args: ArgValues,
    vm: &mut VM,
) -> (r: RunResult<Value>)
    requires
        old(vm).wf(),
        args.ok(old(vm).entries().len(), old(vm).interns),
    ensures
        final(vm).wf(),
        r matches Ok(v) ==> final(vm).ok(v),
        exists|mid: VM| #[trigger]
            args.consumed(mid, *final(vm)) && realised(
                *old(vm),
                mid,
                r,
                str_method_outcome(*old(vm), s@, method, args),
            ),
{
    let ghost given = args;
    let r = str_call(s, method, &args, vm);
    let ghost mid = *vm;
    args.release(vm);
    assert(given.consumed(mid, *vm));
    r
}

/// The same without taking the arguments.
fn str_call(
    s: &str,
    method: StaticStrings,
    args: &ArgValues,
    vm: &mut VM,
) -> (r: RunResult<Value>)
    requires
        old(vm).wf(),
        args.ok(old(vm).entries().len(), old(vm).interns),
    ensures
        final(vm).wf(),
        r matches Ok(v) ==> final(vm).ok(v),
        realised(*old(vm), *final(vm), r, str_method_outcome(*old(vm), s@, method, *args)),
{
    let ghost outcome = str_method_outcome(*old(vm), s@, method, *args);
    match str_method(s, method, args, vm) {
        Ok(answer) => {
            let r = answer.realise(vm);
            assert(realised(*old(vm), *vm, r, outcome));
            r
        },
        Err(e) => Err(e),
    }
}

/// Calls a method of a string by its interned name.
pub fn call_str_method(s: &str, method_id: StringId, args: ArgValues, vm: &mut VM) -> (r: RunResult<
    Value,
>)
    requires
        old(vm).wf(),
        method_id.0 < old(vm).interns.strings@.len(),
        args.ok(old(vm).entries().len(), old(vm).interns),
    ensures
        final(vm).wf(),
        r matches Ok(v) ==> final(vm).ok(v),
        exists|mid: VM|
            {
                &&& #[trigger] args.consumed(mid, *final(vm))
                &&& forall|method: StaticStrings|
                    method_id == #[trigger] method.spec_id() ==> realised(
                        *old(vm),
                        mid,
                        r,
                        str_method_outcome(*old(vm), s@, method, args),
                    )
                &&& (forall|method: StaticStrings| method_id != #[trigger] method.spec_id())
                    ==> raises(r, no_attribute("str"@, old(vm).interns.str_at(method_id))) && mid
                    == *old(vm)
            },
{
    let ghost given = args;
    let r = str_call_by_name(s, method_id, &args, vm);
    let ghost mid = *vm;
    args.release(vm);
    assert(given.consumed(mid, *vm));
    r
}

/// The same without taking the arguments.
fn str_call_by_name(s: &str, method_id: StringId, args: &ArgValues, vm: &mut VM) -> (r: RunResult<
    Value,
>)
    requires
        old(vm).wf(),
        method_id.0 < old(vm).interns.strings@.len(),
        args.ok(old(vm).entries().len(), old(vm).interns),
    ensures
        final(vm).wf(),
        r matches Ok(v) ==> final(vm).ok(v),
        forall|method: StaticStrings|
            method_id == #[trigger] method.spec_id() ==> realised(
                *old(vm),
                *final(vm),
                r,
                str_method_outcome(*old(vm), s@, method, *args),
            ),
        (forall|method: StaticStrings| method_id != #[trigger] method.spec_id()) ==> raises(
            r,
            no_attribute("str"@, old(vm).interns.str_at(method_id)),
        ) && *final(vm) == *old(vm),
{
    match StaticStrings::from_string_id(method_id) {
        Some(method) => {
            let r = str_call(s, method, args, vm);
            proof {
                assert forall|other: StaticStrings|
                    method_id == #[trigger] other.spec_id() implies realised(
                    *old(vm),
                    *vm,
                    r,
                    str_method_outcome(*old(vm), s@, other, *args),
                ) by {
                    crate::intern::lemma_position_injective(method, other);
                }
            }
            r
        },
        None => Err(attribute_error("str", vm.interns.get_str(method_id))),
    }
}

} // verus!
