//! What paths ask the host, and what context managers do.

use vstd::prelude::*;

use crate::args::ArgValues;
use crate::call::{CallResult, OsFunctionCall, PathArgs};
use crate::exception::{RunError, RunResult};
use crate::heap::{HeapData, HeapId};
use crate::intern::{StaticStrings, StringId};
use crate::types::path_ops::{path_call, path_call_done};
use crate::value::{EitherStr, Value};
use crate::value_with::{entered, left};
use crate::vm::VM;

verus! {

/// What the host is asked about a path, if that is what a call comes to.
pub open spec fn asked(r: RunResult<CallResult>, p: Seq<char>, key: StringId) -> Option<PathArgs> {
    match r {
        Ok(CallResult::OsCall(OsFunctionCall::PathMethod { path, method, args })) => if path@ == p
            && method == key {
            Some(args)
        } else {
            None
        },
        _ => None,
    }
}

proof fn lemma_names_apart()
    ensures
        forall|name: Seq<char>| #[trigger]
            asks_plainly(name) ==> name != "mkdir"@ && name != "rename"@ && name != "write_text"@
                && name != "write_bytes"@,
        "write_text"@ != "mkdir"@,
        "write_bytes"@ != "mkdir"@,
        "write_bytes"@ != "write_text"@,
        "rename"@ != "mkdir"@,
        "rename"@ != "write_text"@,
        "rename"@ != "write_bytes"@,
        "parents"@ != "exist_ok"@,
{
    reveal_strlit("mkdir");
    reveal_strlit("rename");
    reveal_strlit("write_text");
    reveal_strlit("write_bytes");
    reveal_strlit("exists");
    reveal_strlit("is_file");
    reveal_strlit("is_dir");
    reveal_strlit("is_symlink");
    reveal_strlit("read_text");
    reveal_strlit("read_bytes");
    reveal_strlit("unlink");
    reveal_strlit("rmdir");
    reveal_strlit("iterdir");
    reveal_strlit("stat");
    reveal_strlit("resolve");
    reveal_strlit("absolute");
    reveal_strlit("parents");
    reveal_strlit("exist_ok");
    assert("mkdir"@.len() == 5 && "rename"@.len() == 6 && "write_text"@.len() == 10
        && "write_bytes"@.len() == 11);
    assert("parents"@.len() == 7 && "exist_ok"@.len() == 8);
    assert("mkdir"@[0] == 'm' && "rmdir"@[0] == 'r');
    assert("rename"@[0] == 'r' && "exists"@[0] == 'e' && "is_dir"@[0] == 'i' && "unlink"@[0] == 'u');
    assert("write_text"@[0] == 'w' && "is_symlink"@[0] == 'i' && "read_bytes"@[0] == 'r');
}

/// Whether a name is that of a question about a path without anything else in it.
pub open spec fn asks_plainly(name: Seq<char>) -> bool {
    name == "exists"@ || name == "is_file"@ || name == "is_dir"@ || name == "is_symlink"@ || name
        == "read_text"@ || name == "read_bytes"@ || name == "unlink"@ || name == "rmdir"@ || name
        == "iterdir"@ || name == "stat"@ || name == "resolve"@ || name == "absolute"@
}

/// What a path asks the host: the questions that need nothing else are asked as they
/// are, `write_text` and `write_bytes` hand over what is to be written, `rename` the new
/// path, as a text or a path; nothing changes before the host answers.
pub proof fn lemma_path_asks(
    before: VM,
    after: VM,
    id: HeapId,
    p: Seq<char>,
    key: StringId,
    args: ArgValues,
    r: RunResult<CallResult>,
)
    requires
        path_call_done(
            before,
            after,
            r,
            id,
            p,
            args,
            path_call(before, p, EitherStr::Interned(key), args),
        ),
    ensures
        ({
            let name = before.interns.strings@[key.0 as int]@;
            let v = args.pos@[0];
            &&& asks_plainly(name) ==> after == before && if args.total() == 0 {
                asked(r, p, key) == Some(PathArgs::Nothing)
            } else {
                r is Err
            }
            &&& name == "write_text"@ && args.just(1) ==> after == before && match before.text_of(
                v,
            ) {
                Some(t) => asked(r, p, key) matches Some(PathArgs::Text(text)) && text@ == t,
                None => r is Err,
            }
            &&& name == "write_bytes"@ && args.just(1) ==> after == before && match before.bytes_of(
                v,
            ) {
                Some(b) => asked(r, p, key) matches Some(PathArgs::Data(data)) && data@ == b,
                None => r is Err,
            }
            &&& name == "rename"@ && args.just(1) ==> match (before.text_of(v), before.data_of(v)) {
                (Some(t), _) => asked(r, p, key) matches Some(PathArgs::Target(text)) && text@ == t,
                (None, Some(HeapData::Path(other))) => asked(r, p, key) matches Some(
                    PathArgs::Target(text),
                ) && text@ == other@,
                _ => r is Err,
            }
        }),
{
    lemma_names_apart();
}

/// `mkdir` asks the host with two flags that are given by name, each false where it is
/// not given.
pub proof fn lemma_mkdir(
    before: VM,
    after: VM,
    id: HeapId,
    p: Seq<char>,
    key: StringId,
    args: ArgValues,
    r: RunResult<CallResult>,
)
    requires
        path_call_done(
            before,
            after,
            r,
            id,
            p,
            args,
            path_call(before, p, EitherStr::Interned(key), args),
        ),
        before.interns.strings@[key.0 as int]@ == "mkdir"@,
        r is Ok,
        args.pos@.len() == 0,
        args.kwargs@.len() <= 1,
    ensures
        asked(r, p, key) matches Some(PathArgs::MakeDir { parents, exist_ok }) && if args.kwargs@.len()
            == 0 {
            !parents && !exist_ok
        } else {
            let (name, v) = args.kwargs@[0];
            &&& name.text(before.interns) == "parents"@ ==> parents == before.truth_of(v)
                && !exist_ok
            &&& name.text(before.interns) == "exist_ok"@ ==> exist_ok == before.truth_of(v)
                && !parents
        },
{
    lemma_names_apart();
    reveal_with_fuel(crate::args::place_of, 3);
}

/// `open` of a path is left to the host: it gets the path and then the arguments as they
/// are.
pub proof fn lemma_path_open(
    before: VM,
    after: VM,
    id: HeapId,
    p: Seq<char>,
    attr: EitherStr,
    args: ArgValues,
    i: int,
    r: RunResult<CallResult>,
)
    requires
        attr.well_known() == Some(StaticStrings::Open),
        !crate::types::path_host::asks_host(attr.text(before.interns)),
        path_call_done(before, after, r, id, p, args, path_call(before, p, attr, args)),
        0 <= i < args.pos@.len(),
    ensures
        r matches Ok(CallResult::External(_, longer)) && longer.pos@.len() == args.pos@.len() + 1
            && longer.pos@.first() == Value::Ref(id) && longer.pos@[i + 1] == args.pos@[i]
            && longer.kwargs@ == args.kwargs@,
{
}

/// A context manager gives its value, or itself where it has none, and swallows an
/// exception only where it is made to; it raises what it is made to raise.
pub proof fn lemma_with_manager(
    before: VM,
    mid: VM,
    end: VM,
    after: VM,
    v: Value,
    exc: Option<HeapId>,
    r: RunResult<CallResult>,
    s: RunResult<CallResult>,
)
    requires
        before.data_of(v) matches Some(HeapData::TestContextManager(_)),
        end.data_of(v) matches Some(HeapData::TestContextManager(_)),
        entered(before, mid, r, v),
        left(end, after, s, v, exc),
    ensures
        ({
            let manager = before.data_of(v)->0->TestContextManager_0;
            match manager.raise_on_enter {
                Some(message) => r matches Err(e) && e.says(
                    crate::exception::ExcType::ValueError,
                    message@,
                ),
                None => r == Ok::<CallResult, RunError>(
                    CallResult::Value(
                        match manager.enter_value {
                            Some(n) => Value::Int(n),
                            None => v,
                        },
                    ),
                ),
            }
        }),
        ({
            let manager = end.data_of(v)->0->TestContextManager_0;
            match manager.raise_on_exit {
                Some(message) => s matches Err(e) && e.says(
                    crate::exception::ExcType::ValueError,
                    message@,
                ),
                None => s matches Ok(CallResult::Value(done)) && (done == Value::Bool(true) <==> exc
                    is Some && manager.suppress) && (done == Value::Bool(true) || done is PyNone),
            }
        }),
        after == end,
{
}

/// What is neither a file nor a context manager does not start a `with` block.
pub proof fn lemma_with_nothing(
    before: VM,
    after: VM,
    v: Value,
    r: RunResult<CallResult>,
)
    requires
        !(before.data_of(v) matches Some(HeapData::TestContextManager(_))),
        !(before.data_of(v) matches Some(HeapData::OpenFile(_))),
        entered(before, after, r, v),
    ensures
        r is Err && after == before,
{
}

} // verus!
