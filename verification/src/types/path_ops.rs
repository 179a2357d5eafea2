//! Paths as objects: construction, attributes and methods.

use vstd::prelude::*;

use crate::args::{no_args_error, no_kwargs_error, one_arg_error, raises, ArgValues, Raised};
use crate::call::{CallResult, OsFunctionCall};
use crate::exception::{ExcType, RunError, RunResult};
use crate::heap::{with_ref, HeapData, HeapId, EMPTY_TUPLE};
use crate::intern::{StaticStrings, StringId};
use crate::outcome::{
    allocate_string_list, allocate_string_tuple, realised, Outcome,
};
use crate::text::{chars_of, push_str, same_text, string_of, texts};
use crate::types::datetime_methods::returned;
use crate::types::file_ops::as_value;
use crate::types::path::{
    joined, name_of, normalized, parent_of, parts_of, renamed, restemmed, resuffixed, stem_of,
    strings, suffix_of, suffixes_of, rooted, Path,
};
use crate::types::path_host::{asks_host, host_args, is_path_os_method, path_args, HostArgs};
use crate::types::str::{allocate_string, string_result};
use crate::types::str_methods::{attribute_error, no_attribute};
use crate::value::{EitherStr, Value};
use crate::value_div::path_part;
use crate::value_item::given_item;
use crate::vm::VM;

verus! {

/// The error for a path segment that is neither a string nor a path.
pub open spec fn bad_segment(vm: VM, v: Value) -> Raised {
    (ExcType::TypeError, "expected str or Path, got "@ + vm.type_of(v).text())
}

/// The text of a path segment.
pub open spec fn segment(vm: VM, v: Value) -> Result<Seq<char>, Raised> {
    match path_part(vm, v) {
        Some(text) => Ok(text),
        None => Err(bad_segment(vm, v)),
    }
}

/// The text of a path segment.
pub(crate) fn extract_path_string<'a>(val: &'a Value, vm: &'a VM) -> (r: RunResult<&'a str>)
    requires
        vm.ok(*val),
    ensures
        match segment(*vm, *val) {
            Ok(text) => r matches Ok(s) && s@ == text,
            Err(e) => raises(r, e),
        },
{
    match val {
        Value::InternString(id) => {
            return Ok(vm.interns.get_str(*id));
        },
        Value::Ref(id) => match vm.heap.get(*id) {
            HeapData::Str(s) => {
                return Ok(s.as_str());
            },
            HeapData::Path(p) => {
                return Ok(p.as_str());
            },
            _ => {},
        },
        _ => {},
    }
    let mut out = chars_of("expected str or Path, got ");
    push_str(&mut out, val.py_type(vm).as_str());
    assert(out@ =~= bad_segment(*vm, *val).1);
    Err(RunError::new_msg(ExcType::TypeError, string_of(&out)))
}

/// A normal path joined with the segments from `i` on.
pub open spec fn joined_from(vm: VM, path: Seq<char>, parts: Seq<Value>, i: int) -> Result<
    Seq<char>,
    Raised,
>
    decreases parts.len() - i,
{
    if i >= parts.len() {
        Ok(path)
    } else {
        match segment(vm, parts[i]) {
            Err(e) => Err(e),
            Ok(text) => joined_from(vm, normalized(joined(path, text)), parts, i + 1),
        }
    }
}

/// Joins a path with segments.
fn fold_joinpath(path: &Path, parts: &[Value], vm: &VM) -> (r: RunResult<Path>)
    requires
        vm.all_ok(parts@),
    ensures
        match joined_from(*vm, path@, parts@, 0) {
            Ok(text) => r matches Ok(p) && p@ == text,
            Err(e) => raises(r, e),
        },
{
    let mut current = path.duplicate();
    for i in 0..parts.len()
        invariant
            vm.all_ok(parts@),
            joined_from(*vm, path@, parts@, 0) == joined_from(*vm, current@, parts@, i as int),
    {
        assert(vm.ok(parts@[i as int]));
        match extract_path_string(&parts[i], vm) {
            Err(e) => {
                return Err(e);
            },
            Ok(text) => {
                current = Path::new(current.joinpath(text));
            },
        }
    }
    Ok(current)
}

/// The path that a call of `Path` makes.
pub open spec fn path_of_args(vm: VM, args: ArgValues) -> Result<Seq<char>, Raised> {
    if args.kwargs@.len() > 0 {
        Err(no_kwargs_error("Path"@))
    } else if args.pos@.len() == 0 {
        Ok(normalized("."@))
    } else {
        match segment(vm, args.pos@[0]) {
            Err(e) => Err(e),
            Ok(text) => joined_from(vm, normalized(text), args.pos@, 1),
        }
    }
}

/// Whether a result is a new path with this text, or the heap is full.
pub open spec fn held_path(before: VM, after: VM, r: RunResult<Value>, text: Seq<char>) -> bool {
    exists|path: Path|
        #![trigger crate::outcome::object_result(before, after, r, HeapData::Path(path))]
        path@ == text && crate::outcome::object_result(before, after, r, HeapData::Path(path))
}

/// Whether a result is a new path, or the error that is said to come.
pub open spec fn path_made(
    before: VM,
    after: VM,
    r: RunResult<Value>,
    o: Result<Seq<char>, Raised>,
) -> bool {
    match o {
        Err(e) => raises(r, e) && after == before,
        Ok(text) => held_path(before, after, r, text),
    }
}

fn hold_path(path: Path, vm: &mut VM) -> (r: RunResult<Value>)
    requires
        old(vm).wf(),
    ensures
        final(vm).wf(),
        r matches Ok(v) ==> final(vm).ok(v),
        held_path(*old(vm), *final(vm), r, path@),
{
    let ghost made = path;
    let r = crate::outcome::allocate_object(HeapData::Path(path), vm);
    assert(crate::outcome::object_result(*old(vm), *vm, r, HeapData::Path(made)));
    r
}

proof fn lemma_joined_after_first(vm: VM, path: Seq<char>, parts: Seq<Value>, i: int)
    requires
        1 <= i <= parts.len(),
    ensures
        joined_from(vm, path, parts, i) == joined_from(vm, path, parts.skip(1), i - 1),
    decreases parts.len() - i,
{
    if i < parts.len() {
        assert(parts.skip(1)[i - 1] == parts[i]);
        match segment(vm, parts[i]) {
            Ok(text) => {
                lemma_joined_after_first(vm, normalized(joined(path, text)), parts, i + 1);
            },
            Err(_) => {},
        }
    }
}

impl Path {
    /// `Path(*segments)`: the segments joined; without segments the current
    /// directory.
    pub fn init(vm: &mut VM, args: ArgValues) -> (r: RunResult<Value>)
        requires
            old(vm).wf(),
            args.ok(old(vm).entries().len(), old(vm).interns),
        ensures
            final(vm).wf(),
            r matches Ok(v) ==> final(vm).ok(v),
            exists|mid: VM| #[trigger]
                args.consumed(mid, *final(vm)) && path_made(
                    *old(vm),
                    mid,
                    r,
                    path_of_args(*old(vm), args),
                ),
    {
        let ghost given = args;
        let r = Self::init_from(vm, &args);
        let ghost mid = *vm;
        args.release(vm);
        assert(given.consumed(mid, *vm));
        r
    }

    /// The same without taking the arguments.
    fn init_from(vm: &mut VM, args: &ArgValues) -> (r: RunResult<Value>)
        requires
            old(vm).wf(),
            args.ok(old(vm).entries().len(), old(vm).interns),
        ensures
            final(vm).wf(),
            r matches Ok(v) ==> final(vm).ok(v),
            path_made(*old(vm), *final(vm), r, path_of_args(*old(vm), *args)),
    {
        let pos = match args.into_pos_only("Path") {
            Err(e) => {
                return Err(e);
            },
            Ok(pos) => pos,
        };
        if pos.len() == 0 {
            return hold_path(Path::new(".".to_owned()), vm);
        }
        assert(vm.ok(pos@[0]));
        let base = match extract_path_string(&pos[0], vm) {
            Err(e) => {
                return Err(e);
            },
            Ok(text) => Path::new(text.to_owned()),
        };
        let rest = vstd::slice::slice_subrange(pos, 1, pos.len());
        proof {
            assert(rest@ =~= pos@.skip(1));
            lemma_joined_after_first(*vm, base@, pos@, 1);
            assert forall|i: int| 0 <= i < rest@.len() implies vm.ok(#[trigger] rest@[i]) by {
                assert(rest@[i] == pos@[i + 1]);
            }
        }
        match fold_joinpath(&base, rest, vm) {
            Err(e) => Err(e),
            Ok(path) => hold_path(path, vm),
        }
    }
}

/// What an attribute of a path is, by its name.
pub enum PathAttr {
    Text(Seq<char>),
    Made(Seq<char>),
    List(Seq<Seq<char>>),
    Parts(Seq<Seq<char>>),
    Missing,
}

/// What an attribute of a path is, by its name. The parent of a path without one is
/// the path itself.
pub open spec fn path_attr(p: Seq<char>, attr: Seq<char>) -> PathAttr {
    if attr == "name"@ {
        PathAttr::Text(name_of(p))
    } else if attr == "parent"@ {
        PathAttr::Made(
            match parent_of(p) {
                Some(parent) => normalized(parent),
                None => normalized(p),
            },
        )
    } else if attr == "stem"@ {
        PathAttr::Text(stem_of(p))
    } else if attr == "suffix"@ {
        PathAttr::Text(suffix_of(p))
    } else if attr == "suffixes"@ {
        PathAttr::List(suffixes_of(p))
    } else if attr == "parts"@ {
        PathAttr::Parts(parts_of(p))
    } else {
        PathAttr::Missing
    }
}

/// Whether a result is a tuple of strings; the empty tuple is shared.
pub open spec fn parts_result(before: VM, after: VM, r: RunResult<Value>, all: Seq<Seq<char>>) -> bool {
    let empty = Value::Ref(HeapId(EMPTY_TUPLE));
    if all.len() == 0 {
        &&& r == Ok::<Value, RunError>(empty)
        &&& after.same_setting(before)
        &&& after.entries() == with_ref(before.entries(), empty)
    } else {
        realised(before, after, r, Outcome::TupleOfTexts(all))
    }
}

/// Whether a result is what an attribute of a path is said to be.
pub open spec fn attr_read(before: VM, after: VM, r: RunResult<Value>, o: PathAttr) -> bool {
    match o {
        PathAttr::Missing => false,
        PathAttr::Text(text) => string_result(before, after, r, text),
        PathAttr::Made(text) => held_path(before, after, r, text),
        PathAttr::List(all) => realised(before, after, r, Outcome::Texts(all)),
        PathAttr::Parts(all) => parts_result(before, after, r, all),
    }
}

/// Whether reading an attribute of a path did what is said of it.
pub open spec fn path_attr_done(
    before: VM,
    after: VM,
    r: RunResult<CallResult>,
    attr: Seq<char>,
    o: PathAttr,
) -> bool {
    match o {
        PathAttr::Missing => raises(r, no_attribute("PosixPath"@, attr)) && after == before,
        _ => as_value(r) matches Some(v) && attr_read(before, after, v, o),
    }
}

/// Chars of each text.
fn pieces_of(all: &Vec<String>) -> (r: Vec<Vec<char>>)
    ensures
        texts(r@) == strings(all@),
{
    let mut out: Vec<Vec<char>> = Vec::new();
    for i in 0..all.len()
        invariant
            out@.len() == i,
            forall|j: int| 0 <= j < i ==> (#[trigger] out@[j])@ == all@[j]@,
    {
        out.push(chars_of(all[i].as_str()));
    }
    assert(texts(out@) =~= strings(all@));
    out
}

fn parts_tuple(path: &Path, vm: &mut VM) -> (r: RunResult<Value>)
    requires
        old(vm).wf(),
    ensures
        final(vm).wf(),
        r matches Ok(v) ==> final(vm).ok(v),
        parts_result(*old(vm), *final(vm), r, parts_of(path@)),
{
    let all = path.parts();
    if all.len() == 0 {
        return Ok(vm.get_empty_tuple());
    }
    allocate_string_tuple(&pieces_of(&all), vm)
}

impl Path {
    /// The attribute of a path with a well-known name: nothing when it is not one of
    /// a path's attributes.
    pub fn getattr_by_static(&self, ss: StaticStrings, vm: &mut VM) -> (r: RunResult<Option<Value>>)
        requires
            old(vm).wf(),
        ensures
            final(vm).wf(),
            r matches Ok(Some(v)) ==> final(vm).ok(v),
            match path_attr(self@, ss.text()) {
                PathAttr::Missing => *final(vm) == *old(vm) && r == Ok::<Option<Value>, RunError>(
                    None,
                ),
                o => given_item(r) matches Some(v) && attr_read(*old(vm), *final(vm), v, o),
            },
    {
        let r = read_attr(self, ss.as_str(), vm);
        match r {
            None => Ok(None),
            Some(Ok(v)) => Ok(Some(v)),
            Some(Err(e)) => Err(e),
        }
    }
}

/// The attribute of a path with a name, if there is one.
fn read_attr(path: &Path, attr: &str, vm: &mut VM) -> (r: Option<RunResult<Value>>)
    requires
        old(vm).wf(),
    ensures
        final(vm).wf(),
        r matches Some(Ok(v)) ==> final(vm).ok(v),
        match path_attr(path@, attr@) {
            PathAttr::Missing => r is None && *final(vm) == *old(vm),
            o => r matches Some(v) && attr_read(*old(vm), *final(vm), v, o),
        },
{
    if same_text(attr, "name") {
        Some(allocate_string(path.name().to_owned(), vm))
    } else if same_text(attr, "parent") {
        let text = match path.parent() {
            Some(parent) => parent.to_owned(),
            None => path.as_str().to_owned(),
        };
        Some(hold_path(Path::new(text), vm))
    } else if same_text(attr, "stem") {
        Some(allocate_string(path.stem().to_owned(), vm))
    } else if same_text(attr, "suffix") {
        Some(allocate_string(path.suffix().to_owned(), vm))
    } else if same_text(attr, "suffixes") {
        Some(allocate_string_list(&pieces_of(&path.suffixes()), vm))
    } else if same_text(attr, "parts") {
        Some(parts_tuple(path, vm))
    } else {
        None
    }
}

/// Reads an attribute of a path.
pub fn py_getattr(path: &Path, attr: &EitherStr, vm: &mut VM) -> (r: RunResult<CallResult>)
    requires
        old(vm).wf(),
        attr.ok(old(vm).interns),
    ensures
        final(vm).wf(),
        r matches Ok(CallResult::Value(v)) ==> final(vm).ok(v),
        path_attr_done(
            *old(vm),
            *final(vm),
            r,
            attr.text(old(vm).interns),
            path_attr(path@, attr.text(old(vm).interns)),
        ),
{
    let name = attr.as_str(&vm.interns).to_owned();
    match read_attr(path, name.as_str(), vm) {
        Some(v) => returned(v),
        None => Err(attribute_error("PosixPath", name.as_str())),
    }
}

/// What a method of a path comes to.
pub enum PathCall {
    Flag(bool),
    Text(Seq<char>),
    Made(Seq<char>),
    Raise(Raised),
    /// The host looks at the file system.
    Host(StringId, HostArgs),
    /// `open` is called with the path as its first argument.
    Open,
}

/// The path that a method with one text argument makes.
pub open spec fn changed_path(
    vm: VM,
    name: Seq<char>,
    args: ArgValues,
    change: spec_fn(Seq<char>) -> Result<Seq<char>, Seq<char>>,
) -> PathCall {
    if !args.just(1) {
        PathCall::Raise(one_arg_error(name, args.total()))
    } else {
        match segment(vm, args.pos@[0]) {
            Err(e) => PathCall::Raise(e),
            Ok(text) => match change(text) {
                Ok(made) => PathCall::Made(normalized(made)),
                Err(message) => PathCall::Raise((ExcType::ValueError, message)),
            },
        }
    }
}

/// A text, unless there are arguments.
pub open spec fn text_of_path(p: Seq<char>, name: Seq<char>, args: ArgValues) -> PathCall {
    if args.total() > 0 {
        PathCall::Raise(no_args_error(name, args.total()))
    } else {
        PathCall::Text(p)
    }
}

/// What a method of a path comes to.
pub open spec fn path_call(vm: VM, p: Seq<char>, attr: EitherStr, args: ArgValues) -> PathCall {
    let name = attr.text(vm.interns);
    match attr {
        EitherStr::Heap(_) => PathCall::Raise(no_attribute("PosixPath"@, name)),
        EitherStr::Interned(id) => if asks_host(name) {
            match host_args(vm, name, args) {
                Ok(given) => PathCall::Host(id, given),
                Err(e) => PathCall::Raise(e),
            }
        } else {
            match attr.well_known() {
                Some(StaticStrings::IsAbsolute) => if args.total() > 0 {
                    PathCall::Raise(no_args_error("is_absolute"@, args.total()))
                } else {
                    PathCall::Flag(rooted(p))
                },
                Some(StaticStrings::Joinpath) => if args.kwargs@.len() > 0 {
                    PathCall::Raise(no_kwargs_error("joinpath"@))
                } else {
                    match joined_from(vm, p, args.pos@, 0) {
                        Ok(text) => PathCall::Made(text),
                        Err(e) => PathCall::Raise(e),
                    }
                },
                Some(StaticStrings::WithName) => changed_path(
                    vm,
                    "with_name"@,
                    args,
                    |t: Seq<char>| renamed(p, t),
                ),
                Some(StaticStrings::WithStem) => changed_path(
                    vm,
                    "with_stem"@,
                    args,
                    |t: Seq<char>| restemmed(p, t),
                ),
                Some(StaticStrings::WithSuffix) => changed_path(
                    vm,
                    "with_suffix"@,
                    args,
                    |t: Seq<char>| resuffixed(p, t),
                ),
                Some(StaticStrings::AsPosix) => text_of_path(p, "as_posix"@, args),
                Some(StaticStrings::Fspath) => text_of_path(p, "__fspath__"@, args),
                Some(StaticStrings::Open) => PathCall::Open,
                _ => PathCall::Raise(no_attribute("PosixPath"@, name)),
            }
        },
    }
}

/// Whether arguments are others with a value in front.
pub open spec fn prepended(args: ArgValues, v: Value, longer: ArgValues) -> bool {
    longer.pos@ == seq![v] + args.pos@ && longer.kwargs@ == args.kwargs@
}

/// Whether a method of a path did what is said of it.
pub open spec fn path_call_done(
    before: VM,
    after: VM,
    r: RunResult<CallResult>,
    id: HeapId,
    p: Seq<char>,
    args: ArgValues,
    o: PathCall,
) -> bool {
    match o {
        PathCall::Raise(e) => raises(r, e) && after == before,
        PathCall::Flag(b) => after == before && r == Ok::<CallResult, RunError>(
            CallResult::Value(Value::Bool(b)),
        ),
        PathCall::Text(text) => as_value(r) matches Some(v) && string_result(
            before,
            after,
            v,
            text,
        ),
        PathCall::Made(text) => as_value(r) matches Some(v) && held_path(before, after, v, text),
        PathCall::Host(name, given) => {
            &&& r matches Ok(CallResult::OsCall(OsFunctionCall::PathMethod { path, method, args }))
            &&& path@ == p
            &&& method == name
            &&& args.content() == given
            &&& after == before
        },
        PathCall::Open => {
            &&& r matches Ok(CallResult::External(EitherStr::Interned(name), longer))
            &&& name == StaticStrings::Open.spec_id()
            &&& prepended(args, Value::Ref(id), longer)
            &&& after.same_setting(before)
            &&& after.entries() == with_ref(before.entries(), Value::Ref(id))
        },
    }
}

impl ArgValues {
    /// The arguments with a value in front.
    pub fn prepend(self, v: Value) -> (r: ArgValues)
        ensures
            prepended(self, v, r),
    {
        let mut pos: Vec<Value> = vec![v];
        let mut rest = self.pos;
        pos.append(&mut rest);
        assert(pos@ =~= seq![v] + self.pos@);
        ArgValues { pos, kwargs: self.kwargs }
    }
}

fn finish_changed(changed: Result<String, String>, vm: &mut VM) -> (r: RunResult<CallResult>)
    requires
        old(vm).wf(),
    ensures
        final(vm).wf(),
        r matches Ok(CallResult::Value(v)) ==> final(vm).ok(v),
        match changed {
            Ok(text) => as_value(r) matches Some(v) && held_path(
                *old(vm),
                *final(vm),
                v,
                normalized(text@),
            ),
            Err(message) => raises(r, (ExcType::ValueError, message@)) && *final(vm) == *old(vm),
        },
{
    match changed {
        Ok(text) => returned(hold_path(Path::new(text), vm)),
        Err(message) => Err(RunError::new_msg(ExcType::ValueError, message)),
    }
}

fn segment_arg(args: &ArgValues, name: &str, vm: &VM) -> (r: RunResult<String>)
    requires
        args.ok(vm.entries().len(), vm.interns),
    ensures
        !args.just(1) ==> raises(r, one_arg_error(name@, args.total())),
        args.just(1) ==> match segment(*vm, args.pos@[0]) {
            Ok(text) => r matches Ok(s) && s@ == text,
            Err(e) => raises(r, e),
        },
{
    match args.get_one_arg(name) {
        Err(e) => Err(e),
        Ok(v) => match extract_path_string(v, vm) {
            Err(e) => Err(e),
            Ok(text) => Ok(text.to_owned()),
        },
    }
}

/// Calls a method of a path. What asks about the file system goes to the host, and
/// so does `open`, with the arguments behind the path; the rest is computed here.
pub fn py_call_attr(
    self_id: HeapId,
    path: &Path,
    vm: &mut VM,
    attr: &EitherStr,
    args: ArgValues,
) -> (r: RunResult<CallResult>)
    requires
        old(vm).wf(),
        self_id.0 < old(vm).entries().len(),
        attr.ok(old(vm).interns),
        args.ok(old(vm).entries().len(), old(vm).interns),
    ensures
        final(vm).wf(),
        r matches Ok(CallResult::Value(v)) ==> final(vm).ok(v),
        ({
            let o = path_call(*old(vm), path@, *attr, args);
            if o is Open {
                path_call_done(*old(vm), *final(vm), r, self_id, path@, args, o)
            } else {
                exists|mid: VM| #[trigger]
                    args.consumed(mid, *final(vm)) && path_call_done(
                        *old(vm),
                        mid,
                        r,
                        self_id,
                        path@,
                        args,
                        o,
                    )
            }
        }),
{
    let opens: bool = match attr {
        EitherStr::Heap(_) => false,
        EitherStr::Interned(_) => match attr.static_string() {
            Some(StaticStrings::Open) => !is_path_os_method(attr.as_str(&vm.interns)),
            _ => false,
        },
    };
    if opens {
        let this = vm.clone_value(&Value::Ref(self_id));
        let name = EitherStr::Interned(StaticStrings::Open.id());
        return Ok(CallResult::External(name, args.prepend(this)));
    }
    let ghost given = args;
    let r = call_attr(self_id, path, vm, attr, &args);
    let ghost mid = *vm;
    args.release(vm);
    assert(given.consumed(mid, *vm));
    r
}

/// The same without taking the arguments, for all but `open`.
fn call_attr(
    self_id: HeapId,
    path: &Path,
    vm: &mut VM,
    attr: &EitherStr,
    args: &ArgValues,
) -> (r: RunResult<CallResult>)
    requires
        old(vm).wf(),
        self_id.0 < old(vm).entries().len(),
        attr.ok(old(vm).interns),
        args.ok(old(vm).entries().len(), old(vm).interns),
        !(path_call(*old(vm), path@, *attr, *args) is Open),
    ensures
        final(vm).wf(),
        r matches Ok(CallResult::Value(v)) ==> final(vm).ok(v),
        path_call_done(
            *old(vm),
            *final(vm),
            r,
            self_id,
            path@,
            *args,
            path_call(*old(vm), path@, *attr, *args),
        ),
{
    let name = attr.as_str(&vm.interns).to_owned();
    let id = match attr {
        EitherStr::Heap(_) => {
            return Err(attribute_error("PosixPath", name.as_str()));
        },
        EitherStr::Interned(id) => *id,
    };
    if is_path_os_method(name.as_str()) {
        return match path_args(name.as_str(), args, vm) {
            Err(e) => Err(e),
            Ok(given) => Ok(
                CallResult::OsCall(
                    OsFunctionCall::PathMethod {
                        path: path.as_str().to_owned(),
                        method: id,
                        args: given,
                    },
                ),
            ),
        };
    }
    match attr.static_string() {
        Some(StaticStrings::IsAbsolute) => match args.check_zero_args("is_absolute") {
            Err(e) => Err(e),
            Ok(_) => Ok(CallResult::Value(Value::Bool(path.is_absolute()))),
        },
        Some(StaticStrings::Joinpath) => match args.into_pos_only("joinpath") {
            Err(e) => Err(e),
            Ok(pos) => match fold_joinpath(path, pos, vm) {
                Err(e) => Err(e),
                Ok(made) => returned(hold_path(made, vm)),
            },
        },
        Some(StaticStrings::WithName) => match segment_arg(args, "with_name", vm) {
            Err(e) => Err(e),
            Ok(text) => finish_changed(path.with_name(text.as_str()), vm),
        },
        Some(StaticStrings::WithStem) => match segment_arg(args, "with_stem", vm) {
            Err(e) => Err(e),
            Ok(text) => finish_changed(path.with_stem(text.as_str()), vm),
        },
        Some(StaticStrings::WithSuffix) => match segment_arg(args, "with_suffix", vm) {
            Err(e) => Err(e),
            Ok(text) => finish_changed(path.with_suffix(text.as_str()), vm),
        },
        Some(StaticStrings::AsPosix) => match args.check_zero_args("as_posix") {
            Err(e) => Err(e),
            Ok(_) => returned(allocate_string(path.as_posix().to_owned(), vm)),
        },
        Some(StaticStrings::Fspath) => match args.check_zero_args("__fspath__") {
            Err(e) => Err(e),
            Ok(_) => returned(allocate_string(path.as_posix().to_owned(), vm)),
        },
        _ => Err(attribute_error("PosixPath", name.as_str())),
    }
}

} // verus!
