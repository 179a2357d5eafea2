//! The methods of paths that the host performs, and their arguments.

use vstd::prelude::*;

use crate::arg_binding::Signature;
use crate::args::{no_args_error, one_arg_error, param_texts, raises, ArgValues, Raised};
use crate::call::PathArgs;
use crate::exception::{ExcType, RunResult};
use crate::text::same_text;
use crate::types::path_ops::{extract_path_string, segment};
use crate::types::str_args::lemma_argument_ok;
use crate::value::Value;
use crate::value_item::{copy_bytes, quoted_error};
use crate::vm::VM;

verus! {

/// Whether a method of a path asks the host about the file system.
pub open spec fn asks_host(name: Seq<char>) -> bool {
    takes_nothing(name) || name == "write_text"@ || name == "write_bytes"@ || name == "mkdir"@
        || name == "rename"@
}

/// Whether a method of a path that asks the host takes no argument.
pub open spec fn takes_nothing(name: Seq<char>) -> bool {
    name == "exists"@ || name == "is_file"@ || name == "is_dir"@ || name == "is_symlink"@ || name
        == "read_text"@ || name == "read_bytes"@ || name == "unlink"@ || name == "rmdir"@ || name
        == "iterdir"@ || name == "stat"@ || name == "resolve"@ || name == "absolute"@
}

/// The arguments that a method of a path hands to the host.
pub enum HostArgs {
    Nothing,
    Text(Seq<char>),
    Data(Seq<u8>),
    Target(Seq<char>),
    MakeDir(bool, bool),
}

impl PathArgs {
    /// The arguments as texts, bytes and flags.
    pub open spec fn content(self) -> HostArgs {
        match self {
            PathArgs::Nothing => HostArgs::Nothing,
            PathArgs::Text(text) => HostArgs::Text(text@),
            PathArgs::Data(data) => HostArgs::Data(data@),
            PathArgs::Target(text) => HostArgs::Target(text@),
            PathArgs::MakeDir { parents, exist_ok } => HostArgs::MakeDir(parents, exist_ok),
        }
    }
}

/// How `mkdir` takes its arguments.
pub open spec fn mkdir_signature() -> Signature {
    Signature { label: "mkdir()", subject: "mkdir()", required: 0, max_positional: 0 }
}

/// The parameters of `mkdir`.
pub open spec fn mkdir_params() -> Seq<Seq<char>> {
    seq!["parents"@, "exist_ok"@]
}

/// Whether an optional flag is set.
pub open spec fn flag_set(vm: VM, v: Option<Value>) -> bool {
    match v {
        Some(v) => vm.truth_of(v),
        None => false,
    }
}

/// The arguments of a method that asks the host, or the error for those that do not
/// fit: the texts and the bytes to write have to be just that, the target is a path
/// or a string, and `mkdir` takes its flags by name.
pub open spec fn host_args(vm: VM, name: Seq<char>, args: ArgValues) -> Result<HostArgs, Raised> {
    if name == "mkdir"@ {
        match args.signature_error(mkdir_signature(), mkdir_params(), vm.interns) {
            Some(e) => Err(e),
            None => Ok(
                HostArgs::MakeDir(
                    flag_set(vm, args.argument(0, "parents"@, vm.interns)),
                    flag_set(vm, args.argument(1, "exist_ok"@, vm.interns)),
                ),
            ),
        }
    } else if name == "write_text"@ || name == "write_bytes"@ || name == "rename"@ {
        if !args.just(1) {
            Err(one_arg_error(name, args.total()))
        } else {
            let v = args.pos@[0];
            if name == "write_text"@ {
                match vm.text_of(v) {
                    Some(text) => Ok(HostArgs::Text(text)),
                    None => Err(
                        (ExcType::TypeError, "data must be str, not "@ + vm.type_of(v).text()),
                    ),
                }
            } else if name == "write_bytes"@ {
                match vm.bytes_of(v) {
                    Some(data) => Ok(HostArgs::Data(data)),
                    None => Err(
                        (
                            ExcType::TypeError,
                            "memoryview: a bytes-like object is required, not '"@ + vm.type_of(
                                v,
                            ).text() + "'"@,
                        ),
                    ),
                }
            } else {
                match segment(vm, v) {
                    Ok(text) => Ok(HostArgs::Target(text)),
                    Err(e) => Err(e),
                }
            }
        }
    } else if args.total() > 0 {
        Err(no_args_error(name, args.total()))
    } else {
        Ok(HostArgs::Nothing)
    }
}

/// Whether a result holds the arguments, or is the error.
pub open spec fn host_args_done(r: RunResult<PathArgs>, made: Result<HostArgs, Raised>) -> bool {
    match made {
        Ok(content) => r matches Ok(args) && args.content() == content,
        Err(e) => raises(r, e),
    }
}

/// Whether a method of a path asks the host about the file system.
pub fn is_path_os_method(name: &str) -> (r: bool)
    ensures
        r == asks_host(name@),
{
    same_text(name, "exists") || same_text(name, "is_file") || same_text(name, "is_dir")
        || same_text(name, "is_symlink") || same_text(name, "read_text") || same_text(
        name,
        "read_bytes",
    ) || same_text(name, "write_text") || same_text(name, "write_bytes") || same_text(name, "mkdir")
        || same_text(name, "unlink") || same_text(name, "rmdir") || same_text(name, "iterdir")
        || same_text(name, "stat") || same_text(name, "rename") || same_text(name, "resolve")
        || same_text(name, "absolute")
}

fn is_set(v: Option<&Value>, vm: &VM) -> (r: bool)
    requires
        vm.wf(),
        v matches Some(v) ==> vm.ok(*v),
    ensures
        r == (v matches Some(v) && vm.truth_of(*v)),
{
    match v {
        Some(v) => v.py_bool(vm),
        None => false,
    }
}

fn mkdir_args(args: &ArgValues, vm: &VM) -> (r: RunResult<PathArgs>)
    requires
        vm.wf(),
        args.ok(vm.entries().len(), vm.interns),
    ensures
        host_args_done(r, host_args(*vm, "mkdir"@, *args)),
{
    let params: [&'static str; 2] = ["parents", "exist_ok"];
    let signature = Signature {
        label: "mkdir()",
        subject: "mkdir()",
        required: 0,
        max_positional: 0,
    };
    proof {
        assert(param_texts(params@) =~= mkdir_params());
        lemma_argument_ok(*args, 0, "parents"@, vm.entries().len(), vm.interns);
        lemma_argument_ok(*args, 1, "exist_ok"@, vm.entries().len(), vm.interns);
    }
    match args.check_signature(&signature, &params, &vm.interns) {
        Err(e) => Err(e),
        Ok(_) => {
            let parents: bool = is_set(args.get_argument(0, "parents", &vm.interns), vm);
            let exist_ok: bool = is_set(args.get_argument(1, "exist_ok", &vm.interns), vm);
            Ok(PathArgs::MakeDir { parents, exist_ok })
        },
    }
}

/// The arguments that a method of a path hands to the host.
pub(crate) fn path_args(name: &str, args: &ArgValues, vm: &VM) -> (r: RunResult<PathArgs>)
    requires
        vm.wf(),
        args.ok(vm.entries().len(), vm.interns),
    ensures
        host_args_done(r, host_args(*vm, name@, *args)),
{
    if same_text(name, "mkdir") {
        return mkdir_args(args, vm);
    }
    let writes_text: bool = same_text(name, "write_text");
    let writes_bytes: bool = same_text(name, "write_bytes");
    if !(writes_text || writes_bytes || same_text(name, "rename")) {
        return match args.check_zero_args(name) {
            Ok(_) => Ok(PathArgs::Nothing),
            Err(e) => Err(e),
        };
    }
    let v = match args.get_one_arg(name) {
        Ok(v) => v,
        Err(e) => {
            return Err(e);
        },
    };
    if writes_text {
        match v.text(vm) {
            Some(text) => Ok(PathArgs::Text(text.to_owned())),
            None => {
                proof {
                    reveal_strlit("");
                    assert("data must be str, not "@ + vm.type_of(*v).text() + ""@
                        =~= "data must be str, not "@ + vm.type_of(*v).text());
                }
                Err(quoted_error("data must be str, not ", v.py_type(vm), ""))
            },
        }
    } else if writes_bytes {
        match v.raw_bytes(vm) {
            Some(data) => Ok(PathArgs::Data(copy_bytes(data))),
            None => Err(
                quoted_error(
                    "memoryview: a bytes-like object is required, not '",
                    v.py_type(vm),
                    "'",
                ),
            ),
        }
    } else {
        match extract_path_string(v, vm) {
            Ok(text) => Ok(PathArgs::Target(text.to_owned())),
            Err(e) => Err(e),
        }
    }
}

} // verus!
