//! Methods of compiled regular expressions.

use vstd::prelude::*;

use crate::arg_binding::Signature;
use crate::args::{one_arg_error, param_texts, raises, ArgValues, Raised};
use crate::exception::{ExcType, RunError, RunResult};
use crate::heap::with_ref;
use crate::intern::StaticStrings;
use crate::regex::{
    has_pair, replace_by, replace_matches, starts_with_first, regex_all, regex_finds, regex_first, regex_groups, regex_replacements, regex_split,
    regex_splitn, settles,
};
use crate::regex_bounds::tamed;
use crate::types::py_type::Type;
use crate::types::re_ops::{
    before_fault, chosen, fault_of, findall_done, first_match_done, match_from_start, match_to_end,
    matches_done, pieces_counted, pieces_listed, substituted, text_made,
};
use crate::types::re_pattern::{at_both_ends, at_start, full_pattern, RePattern};
use crate::types::re_template::engine_template;
use crate::types::str_args::lemma_argument_ok;
use crate::types::str_methods::{attribute_error, no_attribute};
use crate::value::{EitherStr, Value};
use crate::value_item::quoted_error;
use crate::vm::VM;

verus! {

/// The text that an argument has to be.
pub open spec fn string_arg(vm: VM, v: Value) -> Result<Seq<char>, Raised> {
    match vm.text_of(v) {
        Some(text) => Ok(text),
        None => Err((ExcType::TypeError, "expected string, not "@ + vm.type_of(v).text())),
    }
}

/// The text of a string.
pub fn value_to_str<'a>(v: &'a Value, vm: &'a VM) -> (r: RunResult<&'a str>)
    requires
        vm.wf(),
        vm.ok(*v),
    ensures
        match string_arg(*vm, *v) {
            Ok(text) => r matches Ok(s) && s@ == text,
            Err(e) => raises(r, e),
        },
{
    match v.text(vm) {
        Some(s) => Ok(s),
        None => {
            let e = quoted_error("expected string, not ", v.py_type(vm), "");
            proof {
                reveal_strlit("");
                assert("expected string, not "@ + vm.type_of(*v).text() + ""@
                    =~= "expected string, not "@ + vm.type_of(*v).text());
            }
            Err(e)
        },
    }
}

/// The most of a number and a bound.
pub open spec fn at_most(n: int, bound: int) -> int {
    if n < bound {
        n
    } else {
        bound
    }
}

/// How often `split` splits: everywhere without a positive number.
pub open spec fn split_limit(vm: VM, v: Option<Value>) -> Result<int, Raised> {
    match v {
        None => Ok(0),
        Some(Value::Int(n)) => Ok(
            if n <= 0 {
                0
            } else {
                at_most(n as int, usize::MAX - 1)
            },
        ),
        Some(Value::Bool(b)) => Ok(
            if b {
                1
            } else {
                0
            },
        ),
        Some(other) => Err(
            (ExcType::TypeError, "expected int for maxsplit, not "@ + vm.type_of(other).text()),
        ),
    }
}

/// How often `split` splits.
pub fn extract_maxsplit(v: Option<&Value>, vm: &VM) -> (r: RunResult<usize>)
    requires
        vm.wf(),
        v matches Some(x) ==> vm.ok(*x),
    ensures
        match split_limit(
            *vm,
            match v {
                Some(x) => Some(*x),
                None => None,
            },
        ) {
            Ok(n) => r matches Ok(k) && k == n && k < usize::MAX,
            Err(e) => raises(r, e),
        },
{
    match v {
        None => Ok(0),
        Some(Value::Int(n)) => {
            if *n <= 0 {
                Ok(0)
            } else if (*n as u64) < usize::MAX as u64 - 1 {
                Ok(*n as usize)
            } else {
                Ok(usize::MAX - 1)
            }
        },
        Some(Value::Bool(b)) => Ok(
            if *b {
                1
            } else {
                0
            },
        ),
        Some(other) => {
            let e = quoted_error("expected int for maxsplit, not ", other.py_type(vm), "");
            proof {
                reveal_strlit("");
                assert("expected int for maxsplit, not "@ + vm.type_of(*other).text() + ""@
                    =~= "expected int for maxsplit, not "@ + vm.type_of(*other).text());
            }
            Err(e)
        },
    }
}

/// How often `sub` replaces.
pub enum SubCount {
    /// So often, or everywhere for zero.
    Times(int),
    /// Not at all.
    Never,
    Bad(Raised),
}

/// How often `sub` replaces: not at all for a negative number.
pub open spec fn sub_count(vm: VM, v: Option<Value>) -> SubCount {
    match v {
        None => SubCount::Times(0),
        Some(Value::Int(n)) => if n < 0 {
            SubCount::Never
        } else {
            SubCount::Times(at_most(n as int, usize::MAX as int))
        },
        Some(Value::Bool(b)) => SubCount::Times(
            if b {
                1
            } else {
                0
            },
        ),
        Some(other) => SubCount::Bad(
            (ExcType::TypeError, "expected int for count, not "@ + vm.type_of(other).text()),
        ),
    }
}

/// How `sub` takes its arguments.
pub open spec fn sub_signature() -> Signature {
    Signature { label: "sub()", subject: "sub()", required: 2, max_positional: 3 }
}

/// The parameters of `sub`.
pub open spec fn sub_params() -> Seq<Seq<char>> {
    seq!["repl"@, "string"@, "count"@]
}

/// How `split` takes its arguments.
pub open spec fn split_signature() -> Signature {
    Signature { label: "split()", subject: "split()", required: 1, max_positional: 2 }
}

/// The parameters of `split`.
pub open spec fn split_params() -> Seq<Seq<char>> {
    seq!["string"@, "maxsplit"@]
}

/// The error for a replacement that is no string.
pub open spec fn callable_error() -> Raised {
    (ExcType::TypeError, "callable replacement is not yet supported in re.sub()"@)
}

/// Whether a result is what `pattern.sub(repl, string, count)` gives.
pub open spec fn sub_done(
    before: VM,
    after: VM,
    r: RunResult<Value>,
    pattern: RePattern,
    args: ArgValues,
) -> bool {
    match args.signature_error(sub_signature(), sub_params(), before.interns) {
        Some(e) => raises(r, e) && after == before,
        None => {
            let repl = args.argument(0, "repl"@, before.interns)->0;
            let string = args.argument(1, "string"@, before.interns)->0;
            match sub_count(before, args.argument(2, "count"@, before.interns)) {
                SubCount::Bad(e) => raises(r, e) && after == before,
                SubCount::Never => match string_arg(before, string) {
                    Err(e) => raises(r, e) && after == before,
                    Ok(_) => {
                        &&& r == Ok::<Value, RunError>(string)
                        &&& after.same_setting(before)
                        &&& after.entries() == with_ref(before.entries(), string)
                    },
                },
                SubCount::Times(n) => match (before.text_of(repl), string_arg(before, string)) {
                    (None, _) => raises(r, callable_error()) && after == before,
                    (_, Err(e)) => raises(r, e) && after == before,
                    (Some(template), Ok(text)) => text_made(
                        before,
                        after,
                        r,
                        substituted(
                            text,
                            chosen(
                                regex_replacements(
                                    pattern.engine_text(),
                                    text,
                                    tamed(engine_template(template)),
                                ),
                                n as usize,
                            ),
                            before.heap.max_bytes as int,
                            0,
                            0,
                            Seq::empty(),
                        ),
                    ) && replace_matches(
                        regex_replacements(
                            pattern.engine_text(),
                            text,
                            tamed(engine_template(template)),
                        ),
                        regex_all(pattern.engine_text(), text),
                    ) && (!tamed(engine_template(template)).contains('$') ==> replace_by(
                        regex_replacements(
                            pattern.engine_text(),
                            text,
                            tamed(engine_template(template)),
                        ),
                        tamed(engine_template(template)),
                    )),
                },
            }
        },
    }
}

/// Whether a result is what `pattern.split(string, maxsplit)` gives.
pub open spec fn split_done(
    before: VM,
    after: VM,
    r: RunResult<Value>,
    pattern: RePattern,
    args: ArgValues,
) -> bool {
    match args.signature_error(split_signature(), split_params(), before.interns) {
        Some(e) => raises(r, e) && after == before,
        None => {
            let string = args.argument(0, "string"@, before.interns)->0;
            match split_limit(before, args.argument(1, "maxsplit"@, before.interns)) {
                Err(e) => raises(r, e) && after == before,
                Ok(n) => match string_arg(before, string) {
                    Err(e) => raises(r, e) && after == before,
                    Ok(text) => pieces_listed(
                        before,
                        after,
                        r,
                        if n == 0 {
                            regex_split(pattern.engine_text(), text)
                        } else {
                            regex_splitn(pattern.engine_text(), text, (n + 1) as usize)
                        },
                    ) && pieces_counted(pattern.engine_text(), text, n as usize),
                },
            }
        },
    }
}

/// `pattern.sub(repl, string, count=0)`.
fn call_pattern_sub(pattern: &RePattern, args: &ArgValues, vm: &mut VM) -> (r: RunResult<Value>)
    requires
        old(vm).wf(),
        settles(pattern.text()),
        args.ok(old(vm).entries().len(), old(vm).interns),
    ensures
        final(vm).wf(),
        r matches Ok(v) ==> final(vm).ok(v),
        sub_done(*old(vm), *final(vm), r, *pattern, *args),
{
    let params: [&'static str; 3] = ["repl", "string", "count"];
    let signature = Signature {
        label: "sub()",
        subject: "sub()",
        required: 2,
        max_positional: 3,
    };
    proof {
        assert(param_texts(params@) =~= sub_params());
        lemma_argument_ok(*args, 0, "repl"@, vm.entries().len(), vm.interns);
        lemma_argument_ok(*args, 1, "string"@, vm.entries().len(), vm.interns);
        lemma_argument_ok(*args, 2, "count"@, vm.entries().len(), vm.interns);
        reveal_with_fuel(ArgValues::first_missing, 3);
    }
    match args.check_signature(&signature, &params, &vm.interns) {
        Ok(_) => {},
        Err(e) => {
            return Err(e);
        },
    }
    let (repl, string) = match (
        args.get_argument(0, "repl", &vm.interns),
        args.get_argument(1, "string", &vm.interns),
    ) {
        (Some(repl), Some(string)) => (repl, string),
        _ => {
            return Err(RunError::new(ExcType::TypeError, "sub() needs two arguments"));
        },
    };
    let count: usize = match args.get_argument(2, "count", &vm.interns) {
        None => 0,
        Some(Value::Int(n)) => {
            if *n < 0 {
                match value_to_str(string, vm) {
                    Ok(_) => {},
                    Err(e) => {
                        return Err(e);
                    },
                }
                return Ok(vm.clone_value(string));
            }
            if (*n as u64) < usize::MAX as u64 {
                *n as usize
            } else {
                usize::MAX
            }
        },
        Some(Value::Bool(b)) => if *b {
            1
        } else {
            0
        },
        Some(other) => {
            let e = quoted_error("expected int for count, not ", other.py_type(vm), "");
            proof {
                reveal_strlit("");
                assert("expected int for count, not "@ + vm.type_of(*other).text() + ""@
                    =~= "expected int for count, not "@ + vm.type_of(*other).text());
            }
            return Err(e);
        },
    };
    let template = match repl.text(vm) {
        Some(t) => t.to_owned(),
        None => {
            return Err(
                RunError::new(
                    ExcType::TypeError,
                    "callable replacement is not yet supported in re.sub()",
                ),
            );
        },
    };
    let text = match value_to_str(string, vm) {
        Ok(t) => t.to_owned(),
        Err(e) => {
            return Err(e);
        },
    };
    pattern.sub(template.as_str(), text.as_str(), count, vm)
}

/// `pattern.split(string, maxsplit=0)`.
fn call_pattern_split(pattern: &RePattern, args: &ArgValues, vm: &mut VM) -> (r: RunResult<Value>)
    requires
        old(vm).wf(),
        settles(pattern.text()),
        args.ok(old(vm).entries().len(), old(vm).interns),
    ensures
        final(vm).wf(),
        r matches Ok(v) ==> final(vm).ok(v),
        split_done(*old(vm), *final(vm), r, *pattern, *args),
{
    let params: [&'static str; 2] = ["string", "maxsplit"];
    let signature = Signature {
        label: "split()",
        subject: "split()",
        required: 1,
        max_positional: 2,
    };
    proof {
        assert(param_texts(params@) =~= split_params());
        lemma_argument_ok(*args, 0, "string"@, vm.entries().len(), vm.interns);
        lemma_argument_ok(*args, 1, "maxsplit"@, vm.entries().len(), vm.interns);
        reveal_with_fuel(ArgValues::first_missing, 2);
    }
    match args.check_signature(&signature, &params, &vm.interns) {
        Ok(_) => {},
        Err(e) => {
            return Err(e);
        },
    }
    let string = match args.get_argument(0, "string", &vm.interns) {
        Some(v) => v,
        None => {
            return Err(RunError::new(ExcType::TypeError, "split() needs an argument"));
        },
    };
    let limit: usize = match extract_maxsplit(
        args.get_argument(1, "maxsplit", &vm.interns),
        vm,
    ) {
        Ok(n) => n,
        Err(e) => {
            return Err(e);
        },
    };
    let text = match value_to_str(string, vm) {
        Ok(t) => t.to_owned(),
        Err(e) => {
            return Err(e);
        },
    };
    pattern.split(text.as_str(), limit, vm)
}

/// The only argument, which has to be a string.
pub open spec fn only_text(vm: VM, name: Seq<char>, args: ArgValues) -> Result<Seq<char>, Raised> {
    if !args.just(1) {
        Err(one_arg_error(name, args.total()))
    } else {
        string_arg(vm, args.pos@[0])
    }
}

fn one_text(name: &str, args: &ArgValues, vm: &VM) -> (r: RunResult<String>)
    requires
        vm.wf(),
        args.ok(vm.entries().len(), vm.interns),
    ensures
        match only_text(*vm, name@, *args) {
            Ok(text) => r matches Ok(s) && s@ == text,
            Err(e) => raises(r, e),
        },
{
    match args.get_one_arg(name) {
        Err(e) => Err(e),
        Ok(v) => match value_to_str(v, vm) {
            Ok(s) => Ok(s.to_owned()),
            Err(e) => Err(e),
        },
    }
}

/// Whether a result is what a method that looks for one match gives.
pub open spec fn first_call_done(
    before: VM,
    after: VM,
    r: RunResult<Value>,
    engine_text: Seq<char>,
    pattern: RePattern,
    name: Seq<char>,
    args: ArgValues,
) -> bool {
    match only_text(before, name, args) {
        Err(e) => raises(r, e) && after == before,
        Ok(text) => first_match_done(
            before,
            after,
            r,
            regex_first(engine_text, text),
            pattern.text(),
            text,
        ),
    }
}

/// Whether a method looks for all matches.
pub open spec fn looks_on(attr: EitherStr) -> bool {
    match attr.well_known() {
        Some(StaticStrings::Findall) | Some(StaticStrings::Finditer) | Some(StaticStrings::Sub)
        | Some(StaticStrings::Split) => true,
        _ => false,
    }
}

/// Whether a result is what a method of a pattern gives.
pub open spec fn pattern_call_done(
    before: VM,
    after: VM,
    r: RunResult<Value>,
    pattern: RePattern,
    attr: EitherStr,
    args: ArgValues,
) -> bool {
    match attr.well_known() {
        Some(StaticStrings::Search) => first_call_done(
            before,
            after,
            r,
            pattern.engine_text(),
            pattern,
            "Pattern.search"@,
            args,
        ),
        Some(StaticStrings::Match) => first_call_done(
            before,
            after,
            r,
            full_pattern(at_start(pattern.text()), pattern.bits()),
            pattern,
            "Pattern.match"@,
            args,
        ) && (!has_pair(pattern.text(), '\\', 'K') ==> match_from_start(after, r)),
        Some(StaticStrings::Fullmatch) => first_call_done(
            before,
            after,
            r,
            full_pattern(at_both_ends(pattern.text()), pattern.bits()),
            pattern,
            "Pattern.fullmatch"@,
            args,
        ) && (!has_pair(pattern.text(), '\\', 'K') ==> match_from_start(after, r) && (only_text(
            before,
            "Pattern.fullmatch"@,
            args,
        ) matches Ok(text) ==> match_to_end(after, r, text))),
        Some(StaticStrings::Findall) => match only_text(before, "Pattern.findall"@, args) {
            Err(e) => raises(r, e) && after == before,
            Ok(text) => findall_done(
                before,
                after,
                r,
                regex_groups(pattern.engine_text()),
                regex_finds(pattern.engine_text(), text),
                regex_all(pattern.engine_text(), text),
                text,
            ) && (regex_groups(pattern.engine_text()) > 1 ==> starts_with_first(
                regex_first(pattern.engine_text(), text),
                regex_all(pattern.engine_text(), text),
            )),
        },
        Some(StaticStrings::Finditer) => match only_text(before, "Pattern.finditer"@, args) {
            Err(e) => raises(r, e) && after == before,
            Ok(text) => matches_done(
                before,
                after,
                r,
                pattern.text(),
                text,
                before_fault(regex_all(pattern.engine_text(), text)),
                fault_of(regex_all(pattern.engine_text(), text)),
            ) && starts_with_first(
                regex_first(pattern.engine_text(), text),
                regex_all(pattern.engine_text(), text),
            ),
        },
        Some(StaticStrings::Sub) => sub_done(before, after, r, pattern, args),
        Some(StaticStrings::Split) => split_done(before, after, r, pattern, args),
        _ => after == before && raises(
            r,
            no_attribute(Type::RePattern.text(), attr.text(before.interns)),
        ),
    }
}

impl RePattern {
    /// Calls a method of the pattern.
    pub fn py_call_attr(&self, attr: &EitherStr, args: ArgValues, vm: &mut VM) -> (r: RunResult<
        Value,
    >)
        requires
            old(vm).wf(),
            looks_on(*attr) ==> settles(self.text()),
            attr.ok(old(vm).interns),
            args.ok(old(vm).entries().len(), old(vm).interns),
        ensures
            final(vm).wf(),
            r matches Ok(v) ==> final(vm).ok(v),
            exists|mid: VM| #[trigger]
                args.consumed(mid, *final(vm)) && pattern_call_done(
                    *old(vm),
                    mid,
                    r,
                    *self,
                    *attr,
                    args,
                ),
    {
        let ghost given = args;
        let r = self.call_attr(attr, &args, vm);
        let ghost mid = *vm;
        args.release(vm);
        assert(given.consumed(mid, *vm));
        r
    }

    /// The same without taking the arguments.
    fn call_attr(&self, attr: &EitherStr, args: &ArgValues, vm: &mut VM) -> (r: RunResult<
        Value,
    >)
        requires
            old(vm).wf(),
            looks_on(*attr) ==> settles(self.text()),
            attr.ok(old(vm).interns),
            args.ok(old(vm).entries().len(), old(vm).interns),
        ensures
            final(vm).wf(),
            final(vm).same_setting(*old(vm)),
            final(vm).entries().len() >= old(vm).entries().len(),
            r matches Ok(v) ==> final(vm).ok(v),
            pattern_call_done(*old(vm), *final(vm), r, *self, *attr, *args),
    {
        match attr.static_string() {
            Some(StaticStrings::Search) => match one_text("Pattern.search", args, vm) {
                Err(e) => Err(e),
                Ok(text) => self.search(text.as_str(), vm),
            },
            Some(StaticStrings::Match) => match one_text("Pattern.match", args, vm) {
                Err(e) => Err(e),
                Ok(text) => self.match_start(text.as_str(), vm),
            },
            Some(StaticStrings::Fullmatch) => match one_text("Pattern.fullmatch", args, vm) {
                Err(e) => Err(e),
                Ok(text) => self.fullmatch(text.as_str(), vm),
            },
            Some(StaticStrings::Findall) => match one_text("Pattern.findall", args, vm) {
                Err(e) => Err(e),
                Ok(text) => self.findall(text.as_str(), vm),
            },
            Some(StaticStrings::Finditer) => match one_text("Pattern.finditer", args, vm) {
                Err(e) => Err(e),
                Ok(text) => self.finditer(text.as_str(), vm),
            },
            Some(StaticStrings::Sub) => call_pattern_sub(self, args, vm),
            Some(StaticStrings::Split) => call_pattern_split(self, args, vm),
            _ => Err(attribute_error(Type::RePattern.as_str(), attr.as_str(&vm.interns))),
        }
    }
}

} // verus!
