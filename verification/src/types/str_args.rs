//! Arguments of string methods.

use vstd::prelude::*;

use crate::args::{
    at_least, at_least_error, at_most, at_most_error, no_kwargs_error, one_arg_error, raises,
    ArgValues, Raised,
};
use crate::exception::{ExcType, RunError, RunResult};
use crate::heap::HeapData;
use crate::text::{chars_of, texts};
use crate::types::slice::{normal_index, normalize_sequence_index};
use crate::value::Value;
use crate::vm::VM;

verus! {

/// Whether a text result is what is said of it.
pub open spec fn text_is(r: RunResult<Vec<char>>, e: Result<Seq<char>, Raised>) -> bool {
    match e {
        Ok(t) => r matches Ok(s) && s@ == t,
        Err(err) => raises(r, err),
    }
}

/// Whether a number result is what is said of it.
pub open spec fn int_is(r: RunResult<i64>, e: Result<int, Raised>) -> bool {
    match e {
        Ok(n) => r matches Ok(i) && i == n,
        Err(err) => raises(r, err),
    }
}

/// A string argument.
pub open spec fn text_arg(vm: VM, v: Value) -> Result<Seq<char>, Raised> {
    match vm.text_of(v) {
        Some(t) => Ok(t),
        None => Err((ExcType::TypeError, "expected str"@)),
    }
}

/// An integer argument: a machine integer, or a long one that fits into one.
pub open spec fn int_arg(vm: VM, v: Value) -> Result<int, Raised> {
    match v {
        Value::Int(i) => Ok(i as int),
        Value::Ref(id) => match vm.heap.data(id) {
            HeapData::LongInt(li) => if i64::MIN <= li@ <= i64::MAX {
                Ok(li@)
            } else {
                Err((ExcType::TypeError, "integer too large"@))
            },
            _ => Err((ExcType::TypeError, "expected int"@)),
        },
        _ => Err((ExcType::TypeError, "expected int"@)),
    }
}

/// Extracts a string argument.
pub fn extract_string_arg(value: &Value, vm: &VM) -> (r: RunResult<Vec<char>>)
    requires
        vm.ok(*value),
    ensures
        text_is(r, text_arg(*vm, *value)),
{
    match value.text(vm) {
        Some(s) => Ok(chars_of(s)),
        None => Err(RunError::new(ExcType::TypeError, "expected str")),
    }
}

/// Extracts an integer argument.
pub fn extract_int_arg(value: &Value, vm: &VM) -> (r: RunResult<i64>)
    requires
        vm.ok(*value),
    ensures
        int_is(r, int_arg(*vm, *value)),
{
    match value {
        Value::Int(i) => Ok(*i),
        Value::Ref(id) => match vm.heap.get(*id) {
            HeapData::LongInt(li) => match li.to_i64() {
                Some(i) => Ok(i),
                None => Err(RunError::new(ExcType::TypeError, "integer too large")),
            },
            _ => Err(RunError::new(ExcType::TypeError, "expected int")),
        },
        _ => Err(RunError::new(ExcType::TypeError, "expected int")),
    }
}

/// An index argument: `None` is the default, and negative ones count from the end.
pub open spec fn index_arg(vm: VM, v: Value, default: int, len: int) -> Result<int, Raised> {
    if v is PyNone {
        Ok(default)
    } else {
        match int_arg(vm, v) {
            Ok(n) => Ok(normal_index(n, len, 0, len)),
            Err(e) => Err(e),
        }
    }
}

/// Extracts an index argument.
pub fn optional_index(value: &Value, default: usize, str_len: usize, vm: &VM) -> (r: RunResult<
    usize,
>)
    requires
        vm.ok(*value),
        default <= str_len,
    ensures
        match index_arg(*vm, *value, default as int, str_len as int) {
            Ok(n) => r matches Ok(i) && i == n && i <= str_len,
            Err(e) => raises(r, e),
        },
{
    match value {
        Value::PyNone => Ok(default),
        _ => match extract_int_arg(value, vm) {
            Ok(i) => Ok(normalize_sequence_index(i, str_len)),
            Err(e) => Err(e),
        },
    }
}

/// The bounds of a search: the second and third argument, as indices.
pub open spec fn bounds_args(vm: VM, pos: Seq<Value>, len: int) -> Result<(int, int), Raised> {
    if pos.len() < 2 {
        Ok((0, len))
    } else {
        match index_arg(vm, pos[1], 0, len) {
            Err(e) => Err(e),
            Ok(start) => if pos.len() < 3 {
                Ok((start, len))
            } else {
                match index_arg(vm, pos[2], len, len) {
                    Err(e) => Err(e),
                    Ok(end) => Ok((start, end)),
                }
            },
        }
    }
}

/// Extracts the bounds of a search.
fn extract_bounds(pos: &[Value], str_len: usize, vm: &VM) -> (r: RunResult<(usize, usize)>)
    requires
        vm.all_ok(pos@),
    ensures
        match bounds_args(*vm, pos@, str_len as int) {
            Ok((a, b)) => r matches Ok((start, end)) && start == a && end == b && start <= str_len
                && end <= str_len,
            Err(e) => raises(r, e),
        },
{
    if pos.len() < 2 {
        return Ok((0, str_len));
    }
    let start: usize = match optional_index(&pos[1], 0, str_len, vm) {
        Ok(start) => start,
        Err(e) => {
            return Err(e);
        },
    };
    if pos.len() < 3 {
        return Ok((start, str_len));
    }
    match optional_index(&pos[2], str_len, str_len, vm) {
        Ok(end) => Ok((start, end)),
        Err(e) => Err(e),
    }
}

/// The error for a call with the wrong number of positional arguments.
pub open spec fn count_error(args: ArgValues, name: Seq<char>, most: nat) -> Option<Raised> {
    if args.kwargs@.len() > 0 {
        Some(no_kwargs_error(name))
    } else if args.pos@.len() == 0 {
        Some(at_least_error(name, 1, 0))
    } else if args.pos@.len() > most {
        Some(at_most_error(name, most, args.pos@.len()))
    } else {
        None
    }
}

/// The positional arguments of a call with at least one and at most `most`.
pub(crate) fn positional_args<'a>(args: &'a ArgValues, name: &str, most: usize) -> (r: RunResult<
    &'a [Value],
>)
    ensures
        match count_error(*args, name@, most as nat) {
            Some(e) => raises(r, e),
            None => r matches Ok(pos) && pos@ == args.pos@,
        },
{
    let pos = match args.into_pos_only(name) {
        Ok(pos) => pos,
        Err(e) => {
            return Err(e);
        },
    };
    if pos.len() == 0 {
        Err(at_least(name, 1, 0))
    } else if pos.len() > most {
        Err(at_most(name, most, pos.len()))
    } else {
        Ok(pos)
    }
}

/// The text to search for and the bounds of the search.
pub open spec fn search_args(vm: VM, name: Seq<char>, len: int, args: ArgValues) -> Result<
    (Seq<char>, int, int),
    Raised,
> {
    match count_error(args, name, 3) {
        Some(e) => Err(e),
        None => match text_arg(vm, args.pos@[0]) {
            Err(e) => Err(e),
            Ok(sub) => match bounds_args(vm, args.pos@, len) {
                Err(e) => Err(e),
                Ok((start, end)) => Ok((sub, start, end)),
            },
        },
    }
}

/// Parses the arguments of the search methods.
pub(crate) fn parse_search_args(name: &str, str_len: usize, args: &ArgValues, vm: &VM) -> (r: RunResult<
    (Vec<char>, usize, usize),
>)
    requires
        args.ok(vm.entries().len(), vm.interns),
    ensures
        match search_args(*vm, name@, str_len as int, *args) {
            Ok((t, a, b)) => r matches Ok((sub, start, end)) && sub@ == t && start == a && end == b
                && start <= str_len && end <= str_len,
            Err(e) => raises(r, e),
        },
{
    let pos = match positional_args(args, name, 3) {
        Ok(pos) => pos,
        Err(e) => {
            return Err(e);
        },
    };
    let sub = match extract_string_arg(&pos[0], vm) {
        Ok(sub) => sub,
        Err(e) => {
            return Err(e);
        },
    };
    match extract_bounds(pos, str_len, vm) {
        Ok((start, end)) => Ok((sub, start, end)),
        Err(e) => Err(e),
    }
}

/// The texts of values that are all strings.
pub open spec fn all_texts(vm: VM, vs: Seq<Value>) -> Option<Seq<Seq<char>>>
    decreases vs.len(),
{
    if vs.len() == 0 {
        Some(Seq::empty())
    } else {
        match (all_texts(vm, vs.drop_last()), vm.text_of(vs.last())) {
            (Some(ts), Some(t)) => Some(ts.push(t)),
            _ => None,
        }
    }
}

/// A string argument, or a tuple of them.
pub open spec fn texts_arg(vm: VM, v: Value) -> Result<Seq<Seq<char>>, Raised> {
    let found = match vm.text_of(v) {
        Some(t) => Some(seq![t]),
        None => match vm.data_of(v) {
            Some(HeapData::Tuple(tuple)) => all_texts(vm, tuple.items@),
            _ => None,
        },
    };
    match found {
        Some(ts) => Ok(ts),
        None => Err((ExcType::TypeError, "expected str or tuple of str"@)),
    }
}

/// If some value is no string, not all are.
proof fn lemma_not_all_texts(vm: VM, vs: Seq<Value>, k: int)
    requires
        0 <= k < vs.len(),
        vm.text_of(vs[k]) is None,
    ensures
        all_texts(vm, vs) is None,
    decreases vs.len(),
{
    if k < vs.len() - 1 {
        lemma_not_all_texts(vm, vs.drop_last(), k);
    }
}

/// Extracts a string argument, or a tuple of them.
pub fn extract_str_or_tuple_of_str(value: &Value, vm: &VM) -> (r: RunResult<Vec<Vec<char>>>)
    requires
        vm.wf(),
        vm.ok(*value),
    ensures
        match texts_arg(*vm, *value) {
            Ok(ts) => r matches Ok(v) && texts(v@) == ts,
            Err(e) => raises(r, e),
        },
{
    let mut strings: Vec<Vec<char>> = Vec::new();
    match value.text(vm) {
        Some(s) => {
            strings.push(chars_of(s));
            assert(texts(strings@) =~= seq![s@]);
            return Ok(strings);
        },
        None => {},
    }
    match value {
        Value::Ref(id) => match vm.heap.get(*id) {
            HeapData::Tuple(tuple) => {
                let items = tuple.as_slice();
                proof {
                    assert(crate::heap::data_ok(
                        vm.heap.entries@[id.0 as int].data,
                        vm.heap.entries@.len(),
                        vm.interns,
                    ));
                    assert(texts(strings@) =~= Seq::empty());
                    assert(items@.take(0) =~= Seq::empty());
                }
                for i in 0..items.len()
                    invariant
                        vm.all_ok(items@),
                        all_texts(*vm, items@.take(i as int)) == Some(texts(strings@)),
                        vm.text_of(*value) is None,
                        vm.data_of(*value) == Some(HeapData::Tuple(*tuple)),
                        tuple.items@ == items@,
                {
                    assert(items@.take(i + 1).drop_last() =~= items@.take(i as int));
                    match items[i].text(vm) {
                        Some(s) => {
                            let ghost before = texts(strings@);
                            strings.push(chars_of(s));
                            assert(texts(strings@) =~= before.push(s@));
                        },
                        None => {
                            proof {
                                lemma_not_all_texts(*vm, items@, i as int);
                            }
                            return Err(
                                RunError::new(ExcType::TypeError, "expected str or tuple of str"),
                            );
                        },
                    }
                }
                assert(items@.take(items@.len() as int) =~= items@);
                Ok(strings)
            },
            _ => Err(RunError::new(ExcType::TypeError, "expected str or tuple of str")),
        },
        _ => Err(RunError::new(ExcType::TypeError, "expected str or tuple of str")),
    }
}

/// The prefixes or suffixes to look for, and the bounds.
pub open spec fn affix_args(vm: VM, name: Seq<char>, len: int, args: ArgValues) -> Result<
    (Seq<Seq<char>>, int, int),
    Raised,
> {
    match count_error(args, name, 3) {
        Some(e) => Err(e),
        None => match texts_arg(vm, args.pos@[0]) {
            Err(e) => Err(e),
            Ok(all) => match bounds_args(vm, args.pos@, len) {
                Err(e) => Err(e),
                Ok((start, end)) => Ok((all, start, end)),
            },
        },
    }
}

/// Parses the arguments of `startswith` and `endswith`.
pub(crate) fn parse_prefix_suffix_args(
    name: &str,
    str_len: usize,
    args: &ArgValues,
    vm: &VM,
) -> (r: RunResult<(Vec<Vec<char>>, usize, usize)>)
    requires
        vm.wf(),
        args.ok(vm.entries().len(), vm.interns),
    ensures
        match affix_args(*vm, name@, str_len as int, *args) {
            Ok((ts, a, b)) => r matches Ok((all, start, end)) && texts(all@) == ts && start == a
                && end == b && start <= str_len && end <= str_len,
            Err(e) => raises(r, e),
        },
{
    let pos = match positional_args(args, name, 3) {
        Ok(pos) => pos,
        Err(e) => {
            return Err(e);
        },
    };
    let all = match extract_str_or_tuple_of_str(&pos[0], vm) {
        Ok(all) => all,
        Err(e) => {
            return Err(e);
        },
    };
    match extract_bounds(pos, str_len, vm) {
        Ok((start, end)) => Ok((all, start, end)),
        Err(e) => Err(e),
    }
}

/// The characters to strip, if they are given.
pub open spec fn strip_arg(vm: VM, name: Seq<char>, args: ArgValues) -> Result<
    Option<Seq<char>>,
    Raised,
> {
    if args.just(0) {
        Ok(None)
    } else if args.just(1) {
        if args.pos@[0] is PyNone {
            Ok(None)
        } else {
            match text_arg(vm, args.pos@[0]) {
                Ok(t) => Ok(Some(t)),
                Err(e) => Err(e),
            }
        }
    } else {
        Err(at_most_error(name, 1, args.total()))
    }
}

/// Parses the argument of the strip methods.
pub(crate) fn parse_strip_arg(name: &str, args: &ArgValues, vm: &VM) -> (r: RunResult<Option<Vec<char>>>)
    requires
        args.ok(vm.entries().len(), vm.interns),
    ensures
        match strip_arg(*vm, name@, *args) {
            Ok(Some(t)) => r matches Ok(Some(s)) && s@ == t,
            Ok(None) => r matches Ok(None),
            Err(e) => raises(r, e),
        },
{
    match args.get_zero_one_arg(name) {
        Err(e) => Err(e),
        Ok(None) => Ok(None),
        Ok(Some(v)) => match v {
            Value::PyNone => Ok(None),
            _ => match extract_string_arg(v, vm) {
                Ok(s) => Ok(Some(s)),
                Err(e) => Err(e),
            },
        },
    }
}

/// The only argument, a string.
pub open spec fn one_text_arg(vm: VM, name: Seq<char>, args: ArgValues) -> Result<Seq<char>, Raised> {
    if args.just(1) {
        text_arg(vm, args.pos@[0])
    } else {
        Err(one_arg_error(name, args.total()))
    }
}

/// Parses the only argument, a string.
pub(crate) fn parse_one_text(name: &str, args: &ArgValues, vm: &VM) -> (r: RunResult<Vec<char>>)
    requires
        args.ok(vm.entries().len(), vm.interns),
    ensures
        text_is(r, one_text_arg(*vm, name@, *args)),
{
    match args.get_one_arg(name) {
        Ok(v) => extract_string_arg(v, vm),
        Err(e) => Err(e),
    }
}

/// An integer as a size: negative ones count as zero, and those too large for
/// the machine as the largest one.
pub open spec fn as_size(n: int) -> int {
    if n < 0 {
        0
    } else if n > usize::MAX {
        usize::MAX as int
    } else {
        n
    }
}

/// An integer as a size.
pub fn saturated_size(n: i64) -> (r: usize)
    ensures
        r == as_size(n as int),
{
    if n < 0 {
        0
    } else if n as u64 > usize::MAX as u64 {
        usize::MAX
    } else {
        n as usize
    }
}

/// The width and the fill character of the justify methods.
pub open spec fn justify_args(vm: VM, name: Seq<char>, args: ArgValues) -> Result<
    (int, char),
    Raised,
> {
    match count_error(args, name, 2) {
        Some(e) => Err(e),
        None => match int_arg(vm, args.pos@[0]) {
            Err(e) => Err(e),
            Ok(w) => if args.pos@.len() < 2 {
                Ok((as_size(w), ' '))
            } else {
                match text_arg(vm, args.pos@[1]) {
                    Err(e) => Err(e),
                    Ok(fill) => if fill.len() == 1 {
                        Ok((as_size(w), fill[0]))
                    } else {
                        Err(
                            (
                                ExcType::TypeError,
                                "The fill character must be exactly one character long"@,
                            ),
                        )
                    },
                }
            },
        },
    }
}

/// Parses the arguments of the justify methods.
pub(crate) fn parse_justify_args(name: &str, args: &ArgValues, vm: &VM) -> (r: RunResult<(usize, char)>)
    requires
        args.ok(vm.entries().len(), vm.interns),
    ensures
        match justify_args(*vm, name@, *args) {
            Ok((w, f)) => r matches Ok((width, fill)) && width == w && fill == f,
            Err(e) => raises(r, e),
        },
{
    let pos = match positional_args(args, name, 2) {
        Ok(pos) => pos,
        Err(e) => {
            return Err(e);
        },
    };
    let width: usize = match extract_int_arg(&pos[0], vm) {
        Ok(w) => saturated_size(w),
        Err(e) => {
            return Err(e);
        },
    };
    if pos.len() < 2 {
        return Ok((width, ' '));
    }
    let fill = match extract_string_arg(&pos[1], vm) {
        Ok(fill) => fill,
        Err(e) => {
            return Err(e);
        },
    };
    if fill.len() != 1 {
        return Err(
            RunError::new(
                ExcType::TypeError,
                "The fill character must be exactly one character long",
            ),
        );
    }
    Ok((width, fill[0]))
}

/// The arguments of `split` and `rsplit`: the separator, if one is given, and
/// the number of splits, or -1.
pub open spec fn split_args(vm: VM, name: Seq<char>, args: ArgValues) -> Result<
    (Option<Seq<char>>, int),
    Raised,
> {
    let params = seq!["sep"@, "maxsplit"@];
    match args.binding_error(name, params, 0, vm.interns) {
        Some(e) => Err(e),
        None => {
            let sep = match args.argument(0, "sep"@, vm.interns) {
                None => Ok(None),
                Some(v) => if v is PyNone {
                    Ok(None)
                } else {
                    match text_arg(vm, v) {
                        Ok(t) => Ok(Some(t)),
                        Err(e) => Err(e),
                    }
                },
            };
            match sep {
                Err(e) => Err(e),
                Ok(sep) => match args.argument(1, "maxsplit"@, vm.interns) {
                    None => Ok((sep, -1)),
                    Some(v) => match int_arg(vm, v) {
                        Ok(n) => Ok((sep, n)),
                        Err(e) => Err(e),
                    },
                },
            }
        },
    }
}

/// An argument that is given exists.
pub proof fn lemma_argument_ok(
    args: ArgValues,
    i: int,
    name: Seq<char>,
    entries: nat,
    interns: crate::intern::Interns,
)
    requires
        args.ok(entries, interns),
        0 <= i,
    ensures
        args.argument(i, name, interns) matches Some(v) ==> crate::value::value_ok(
            v,
            entries,
            interns,
        ),
{
    if i >= args.pos@.len() {
        let names = crate::args::kwarg_names(args.kwargs@, interns);
        lemma_place_of(names, name, 0);
    }
}

/// A place is at or after where the search starts.
proof fn lemma_place_of(names: Seq<Seq<char>>, name: Seq<char>, from: int)
    requires
        0 <= from <= names.len(),
    ensures
        from <= crate::args::place_of(names, name, from) <= names.len(),
    decreases names.len() - from,
{
    if from < names.len() && names[from] != name {
        lemma_place_of(names, name, from + 1);
    }
}

/// Parses the arguments of `split` and `rsplit`.
pub(crate) fn parse_split_args(name: &str, args: &ArgValues, vm: &VM) -> (r: RunResult<
    (Option<Vec<char>>, i64),
>)
    requires
        args.ok(vm.entries().len(), vm.interns),
    ensures
        match split_args(*vm, name@, *args) {
            Ok((Some(t), n)) => r matches Ok((Some(sep), max)) && sep@ == t && max == n,
            Ok((None, n)) => r matches Ok((None, max)) && max == n,
            Err(e) => raises(r, e),
        },
{
    let params: [&'static str; 2] = ["sep", "maxsplit"];
    proof {
        assert(crate::args::param_texts(params@) =~= seq!["sep"@, "maxsplit"@]);
        lemma_argument_ok(*args, 0, "sep"@, vm.entries().len(), vm.interns);
        lemma_argument_ok(*args, 1, "maxsplit"@, vm.entries().len(), vm.interns);
    }
    match args.check_binding(name, &params, 0, &vm.interns) {
        Ok(_) => {},
        Err(e) => {
            return Err(e);
        },
    }
    coerce_split_args(
        args.get_argument(0, "sep", &vm.interns),
        args.get_argument(1, "maxsplit", &vm.interns),
        vm,
    )
}

/// The separator and the number of splits from what is given for them.
fn coerce_split_args(sep: Option<&Value>, maxsplit: Option<&Value>, vm: &VM) -> (r: RunResult<
    (Option<Vec<char>>, i64),
>)
    requires
        sep matches Some(v) ==> vm.ok(*v),
        maxsplit matches Some(v) ==> vm.ok(*v),
    ensures
        ({
            let text = match sep {
                None => Ok(None),
                Some(v) => if *v is PyNone {
                    Ok(None)
                } else {
                    match text_arg(*vm, *v) {
                        Ok(t) => Ok(Some(t)),
                        Err(e) => Err(e),
                    }
                },
            };
            let max = match maxsplit {
                None => Ok(-1int),
                Some(v) => int_arg(*vm, *v),
            };
            match (text, max) {
                (Err(e), _) => raises(r, e),
                (Ok(_), Err(e)) => raises(r, e),
                (Ok(Some(t)), Ok(n)) => r matches Ok((Some(s), m)) && s@ == t && m == n,
                (Ok(None), Ok(n)) => r matches Ok((None, m)) && m == n,
            }
        }),
{
    let text: Option<Vec<char>> = match sep {
        None => None,
        Some(v) => match v {
            Value::PyNone => None,
            _ => match extract_string_arg(v, vm) {
                Ok(t) => Some(t),
                Err(e) => {
                    return Err(e);
                },
            },
        },
    };
    let max: i64 = match maxsplit {
        None => -1,
        Some(v) => match extract_int_arg(v, vm) {
            Ok(n) => n,
            Err(e) => {
                return Err(e);
            },
        },
    };
    Ok((text, max))
}

/// The argument of `splitlines`: whether line breaks are kept.
pub open spec fn keepends_arg(vm: VM, args: ArgValues) -> Result<bool, Raised> {
    match args.binding_error("splitlines"@, seq!["keepends"@], 0, vm.interns) {
        Some(e) => Err(e),
        None => Ok(
            match args.argument(0, "keepends"@, vm.interns) {
                None => false,
                Some(v) => vm.truth_of(v),
            },
        ),
    }
}

/// Parses the argument of `splitlines`.
pub(crate) fn parse_splitlines_args(args: &ArgValues, vm: &VM) -> (r: RunResult<bool>)
    requires
        vm.wf(),
        args.ok(vm.entries().len(), vm.interns),
    ensures
        match keepends_arg(*vm, *args) {
            Ok(b) => r matches Ok(k) && k == b,
            Err(e) => raises(r, e),
        },
{
    let params: [&'static str; 1] = ["keepends"];
    proof {
        assert(crate::args::param_texts(params@) =~= seq!["keepends"@]);
        lemma_argument_ok(*args, 0, "keepends"@, vm.entries().len(), vm.interns);
    }
    match args.check_binding("splitlines", &params, 0, &vm.interns) {
        Ok(_) => {},
        Err(e) => {
            return Err(e);
        },
    }
    match args.get_argument(0, "keepends", &vm.interns) {
        None => Ok(false),
        Some(v) => Ok(v.py_bool(vm)),
    }
}

/// The arguments of `replace`: what to replace, by what, and how often.
pub open spec fn replace_args(vm: VM, args: ArgValues) -> Result<
    (Seq<char>, Seq<char>, int),
    Raised,
> {
    match args.binding_error("replace"@, seq!["old"@, "new"@, "count"@], 2, vm.interns) {
        Some(e) => Err(e),
        None => match (text_arg(vm, args.pos@[0]), text_arg(vm, args.pos@[1])) {
            (Err(e), _) => Err(e),
            (_, Err(e)) => Err(e),
            (Ok(a), Ok(b)) => match args.argument(2, "count"@, vm.interns) {
                None => Ok((a, b, -1)),
                Some(v) => match int_arg(vm, v) {
                    Ok(n) => Ok((a, b, n)),
                    Err(e) => Err(e),
                },
            },
        },
    }
}

/// Parses the arguments of `replace`.
pub(crate) fn parse_replace_args(args: &ArgValues, vm: &VM) -> (r: RunResult<(Vec<char>, Vec<char>, i64)>)
    requires
        args.ok(vm.entries().len(), vm.interns),
    ensures
        match replace_args(*vm, *args) {
            Ok((a, b, n)) => r matches Ok((old_text, new_text, count)) && old_text@ == a
                && new_text@ == b && count == n,
            Err(e) => raises(r, e),
        },
{
    let params: [&'static str; 3] = ["old", "new", "count"];
    proof {
        assert(crate::args::param_texts(params@) =~= seq!["old"@, "new"@, "count"@]);
        lemma_argument_ok(*args, 2, "count"@, vm.entries().len(), vm.interns);
    }
    match args.check_binding("replace", &params, 2, &vm.interns) {
        Ok(_) => {},
        Err(e) => {
            return Err(e);
        },
    }
    let old_text = match extract_string_arg(&args.pos[0], vm) {
        Ok(t) => t,
        Err(e) => {
            return Err(e);
        },
    };
    let new_text = match extract_string_arg(&args.pos[1], vm) {
        Ok(t) => t,
        Err(e) => {
            return Err(e);
        },
    };
    let count: i64 = match args.get_argument(2, "count", &vm.interns) {
        None => -1,
        Some(v) => match extract_int_arg(v, vm) {
            Ok(n) => n,
            Err(e) => {
                return Err(e);
            },
        },
    };
    Ok((old_text, new_text, count))
}

/// The argument of `expandtabs`: the distance of tab stops.
pub open spec fn tabsize_arg(vm: VM, args: ArgValues) -> Result<int, Raised> {
    match args.binding_error("expandtabs"@, seq!["tabsize"@], 0, vm.interns) {
        Some(e) => Err(e),
        None => match args.argument(0, "tabsize"@, vm.interns) {
            None => Ok(8),
            Some(v) => match int_arg(vm, v) {
                Ok(n) => Ok(as_size(n)),
                Err(e) => Err(e),
            },
        },
    }
}

/// Parses the argument of `expandtabs`.
pub(crate) fn parse_expandtabs_args(args: &ArgValues, vm: &VM) -> (r: RunResult<usize>)
    requires
        args.ok(vm.entries().len(), vm.interns),
    ensures
        match tabsize_arg(*vm, *args) {
            Ok(n) => r matches Ok(t) && t == n,
            Err(e) => raises(r, e),
        },
{
    let params: [&'static str; 1] = ["tabsize"];
    proof {
        assert(crate::args::param_texts(params@) =~= seq!["tabsize"@]);
        lemma_argument_ok(*args, 0, "tabsize"@, vm.entries().len(), vm.interns);
    }
    match args.check_binding("expandtabs", &params, 0, &vm.interns) {
        Ok(_) => {},
        Err(e) => {
            return Err(e);
        },
    }
    match args.get_argument(0, "tabsize", &vm.interns) {
        None => Ok(8),
        Some(v) => match extract_int_arg(v, vm) {
            Ok(n) => Ok(saturated_size(n)),
            Err(e) => Err(e),
        },
    }
}

} // verus!
