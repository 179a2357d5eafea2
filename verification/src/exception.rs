//! Python exceptions as the library raises them.

use vstd::prelude::*;

verus! {

/// The exception classes that the library raises.
#[derive(Clone, Copy, Debug, PartialEq, Eq, Structural)]
pub enum ExcType {
    AttributeError,
    FrozenInstanceError,
    IndexError,
    LookupError,
    MemoryError,
    OSError,
    OverflowError,
    PatternError,
    RecursionError,
    RuntimeError,
    TypeError,
    UnsupportedOperation,
    ValueError,
    ZeroDivisionError,
}

/// A raised exception: its class and its message.
#[derive(Debug)]
pub struct RunError {
    pub exc_type: ExcType,
    pub message: String,
}

/// Result of an operation that may raise.
pub type RunResult<T> = Result<T, RunError>;

impl RunError {
    /// Whether this is an exception of class `exc_type` with the text `message`.
    pub open spec fn says(self, exc_type: ExcType, message: Seq<char>) -> bool {
        self.exc_type == exc_type && self.message@ == message
    }

    /// An exception with a fixed message.
    pub fn new(exc_type: ExcType, message: &str) -> (r: RunError)
        ensures
            r.says(exc_type, message@),
    {
        RunError { exc_type, message: message.to_owned() }
    }

    /// An exception whose message was put together by the caller.
    pub fn new_msg(exc_type: ExcType, message: String) -> (r: RunError)
        ensures
            r.says(exc_type, message@),
    {
        RunError { exc_type, message }
    }
}

} // verus!
