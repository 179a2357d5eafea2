//! A context manager whose behaviour is set field by field.

use vstd::prelude::*;

use crate::exception::{ExcType, RunError, RunResult};
use crate::heap::HeapId;
use crate::value::Value;

verus! {

/// A context manager for exercising `with` blocks.
#[derive(Debug)]
pub struct TestContextManager {
    /// What `__enter__` returns; without it the manager itself.
    pub enter_value: Option<i64>,
    /// Whether `__exit__` swallows an exception.
    pub suppress: bool,
    /// The message that `__enter__` raises, if any.
    pub raise_on_enter: Option<String>,
    /// The message that `__exit__` raises, if any.
    pub raise_on_exit: Option<String>,
}

impl TestContextManager {
    /// A manager that lets everything pass.
    pub fn new() -> (r: TestContextManager)
        ensures
            r.enter_value is None,
            !r.suppress,
            r.raise_on_enter is None,
            r.raise_on_exit is None,
    {
        TestContextManager {
            enter_value: None,
            suppress: false,
            raise_on_enter: None,
            raise_on_exit: None,
        }
    }

    /// What `__enter__` gives; the caller counts the reference to the manager
    /// itself when that is what it is.
    pub fn py_enter(&self, self_id: HeapId) -> (r: RunResult<Value>)
        ensures
            match (self.raise_on_enter, r) {
                (Some(message), Err(e)) => e.says(ExcType::ValueError, message@),
                (None, Ok(value)) => value == (match self.enter_value {
                    Some(n) => Value::Int(n),
                    None => Value::Ref(self_id),
                }),
                _ => false,
            },
    {
        match &self.raise_on_enter {
            Some(message) => Err(RunError::new(ExcType::ValueError, message.as_str())),
            None => match self.enter_value {
                Some(n) => Ok(Value::Int(n)),
                None => Ok(Value::Ref(self_id)),
            },
        }
    }

    /// What `__exit__` gives: `True` swallows the exception.
    pub fn py_exit(&self, exc: Option<HeapId>) -> (r: RunResult<Value>)
        ensures
            match (self.raise_on_exit, r) {
                (Some(message), Err(e)) => e.says(ExcType::ValueError, message@),
                (None, Ok(value)) => value == (if exc is Some && self.suppress {
                    Value::Bool(true)
                } else {
                    Value::PyNone
                }),
                _ => false,
            },
    {
        match &self.raise_on_exit {
            Some(message) => Err(RunError::new(ExcType::ValueError, message.as_str())),
            None => {
                if exc.is_some() && self.suppress {
                    Ok(Value::Bool(true))
                } else {
                    Ok(Value::PyNone)
                }
            },
        }
    }
}

impl Default for TestContextManager {
    fn default() -> (r: TestContextManager)
        ensures
            r.enter_value is None,
            !r.suppress,
            r.raise_on_enter is None,
            r.raise_on_exit is None,
    {
        TestContextManager::new()
    }
}

} // verus!
