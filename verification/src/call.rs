//! What a call comes to: a value, or something that the host has to do.

use vstd::prelude::*;

use crate::args::ArgValues;
use crate::float::FloatTask;
use crate::heap::HeapId;
use crate::intern::StringId;
use crate::value::{EitherStr, Value};

verus! {

/// A call that the host performs on the file system.
#[derive(Debug)]
pub enum OsFunctionCall {
    ReadText(String),
    ReadBytes(String),
    WriteText { path: String, data: String },
    AppendText { path: String, data: String },
    WriteBytes { path: String, bytes: Vec<u8> },
    AppendBytes { path: String, bytes: Vec<u8> },
    /// A method of a path that asks about the file system.
    PathMethod { path: String, method: StringId, args: PathArgs },
    /// The current time at an offset from UTC, or the local time without one.
    Now { offset_seconds: Option<i32>, timezone_name: Option<String> },
    /// The current date.
    Today,
}

/// The arguments of a method of a path that the host performs.
#[derive(Debug)]
pub enum PathArgs {
    Nothing,
    /// The text to write.
    Text(String),
    /// The bytes to write.
    Data(Vec<u8>),
    /// The path to move to.
    Target(String),
    /// Whether missing parents are made, and whether the directory may be there.
    MakeDir { parents: bool, exist_ok: bool },
}

/// What a call comes to.
#[derive(Debug)]
pub enum CallResult {
    /// The call is done.
    Value(Value),
    /// The host performs a call and hands its result back.
    OsCall(OsFunctionCall),
    /// The host reads a file, and its content goes to a file object.
    OsCallStoreBuffer { call: OsFunctionCall, file_id: HeapId },
    /// The result of rounding arithmetic that the host performs.
    Float(FloatTask),
    /// The host calls one of its functions.
    External(EitherStr, ArgValues),
    /// The host calls a method of one of its objects.
    MethodCall(EitherStr, ArgValues),
}

/// What a call of a method comes to.
#[derive(Debug)]
pub enum AttrCallResult {
    Value(Value),
    OsCall(OsFunctionCall),
    ExternalCall(StringId, ArgValues),
}

impl AttrCallResult {
    /// The same as the result of a call.
    pub fn into_call_result(self) -> (r: CallResult)
        ensures
            r == (match self {
                AttrCallResult::Value(v) => CallResult::Value(v),
                AttrCallResult::OsCall(call) => CallResult::OsCall(call),
                AttrCallResult::ExternalCall(id, args) => CallResult::External(
                    EitherStr::Interned(id),
                    args,
                ),
            }),
    {
        match self {
            AttrCallResult::Value(v) => CallResult::Value(v),
            AttrCallResult::OsCall(call) => CallResult::OsCall(call),
            AttrCallResult::ExternalCall(id, args) => CallResult::External(
                EitherStr::Interned(id),
                args,
            ),
        }
    }
}

} // verus!
