//! Context managers: entering and leaving `with` blocks.

use vstd::prelude::*;

use crate::args::raises;
use crate::call::CallResult;
use crate::exception::{ExcType, RunError, RunResult};
use crate::heap::{with_ref, HeapData, HeapId};
use crate::types::file::OpenFile;
use crate::types::file_buffer::file_set;
use crate::types::file_ops::{closed_error, with_entries};
use crate::types::str_methods::{attribute_error, no_attribute};
use crate::types::test_cm::TestContextManager;
use crate::value::Value;
use crate::vm::VM;

verus! {

/// The error for a value that cannot be entered or left.
pub open spec fn no_protocol(vm: VM, v: Value, name: Seq<char>) -> (ExcType, Seq<char>) {
    no_attribute(vm.type_of(v).text(), name)
}

/// Whether a file was entered: it gives itself, unless it is closed.
pub open spec fn file_entered(
    before: VM,
    after: VM,
    r: RunResult<CallResult>,
    file: OpenFile,
    v: Value,
) -> bool {
    if file.closed {
        raises(r, closed_error()) && after == before
    } else {
        r == Ok::<CallResult, RunError>(CallResult::Value(v)) && with_entries(
            before,
            after,
            with_ref(before.entries(), v),
        )
    }
}

/// Whether a manager was entered: it raises, or gives its value or itself.
pub open spec fn manager_entered(
    before: VM,
    after: VM,
    r: RunResult<CallResult>,
    manager: TestContextManager,
    v: Value,
) -> bool {
    match (manager.raise_on_enter, manager.enter_value) {
        (Some(message), _) => raises(r, (ExcType::ValueError, message@)) && after == before,
        (None, Some(n)) => after == before && r == Ok::<CallResult, RunError>(
            CallResult::Value(Value::Int(n)),
        ),
        (None, None) => r == Ok::<CallResult, RunError>(CallResult::Value(v)) && with_entries(
            before,
            after,
            with_ref(before.entries(), v),
        ),
    }
}

/// Whether entering a `with` block did what it should.
pub open spec fn entered(before: VM, after: VM, r: RunResult<CallResult>, v: Value) -> bool {
    match before.data_of(v) {
        Some(HeapData::OpenFile(file)) => file_entered(before, after, r, file, v),
        Some(HeapData::TestContextManager(manager)) => manager_entered(
            before,
            after,
            r,
            manager,
            v,
        ),
        _ => raises(r, no_protocol(before, v, "__enter__"@)) && after == before,
    }
}

/// Whether a manager was left: it raises, swallows an exception, or lets it pass.
pub open spec fn manager_left(
    r: RunResult<CallResult>,
    manager: TestContextManager,
    exc: Option<HeapId>,
) -> bool {
    match manager.raise_on_exit {
        Some(message) => raises(r, (ExcType::ValueError, message@)),
        None => r == Ok::<CallResult, RunError>(
            CallResult::Value(
                if exc is Some && manager.suppress {
                    Value::Bool(true)
                } else {
                    Value::PyNone
                },
            ),
        ),
    }
}

/// Whether leaving a `with` block did what it should; `exc` is the exception
/// that is under way.
pub open spec fn left(
    before: VM,
    after: VM,
    r: RunResult<CallResult>,
    v: Value,
    exc: Option<HeapId>,
) -> bool {
    match before.data_of(v) {
        Some(HeapData::OpenFile(file)) => {
            &&& r == Ok::<CallResult, RunError>(CallResult::Value(Value::PyNone))
            &&& file_set(before, after, v->Ref_0, (OpenFile { closed: true, ..file }))
        },
        Some(HeapData::TestContextManager(manager)) => after == before && manager_left(
            r,
            manager,
            exc,
        ),
        _ => raises(r, no_protocol(before, v, "__exit__"@)) && after == before,
    }
}

/// What a heap entry is to a `with` block.
enum Role {
    File,
    /// Gives this, counted once more if it is the manager itself.
    Gives(RunResult<Value>),
    Neither,
}

impl Value {
    /// Enters a `with` block.
    pub fn py_enter(&self, vm: &mut VM) -> (r: RunResult<CallResult>)
        requires
            old(vm).wf(),
            old(vm).ok(*self),
        ensures
            final(vm).wf(),
            r matches Ok(CallResult::Value(v)) ==> final(vm).ok(v),
            entered(*old(vm), *final(vm), r, *self),
    {
        if let Value::Ref(id) = self {
            let role = match vm.heap.get(*id) {
                HeapData::OpenFile(_) => Role::File,
                HeapData::TestContextManager(manager) => Role::Gives(manager.py_enter(*id)),
                _ => Role::Neither,
            };
            match role {
                Role::File => {
                    return crate::types::file_ops::py_enter(*id, vm);
                },
                Role::Gives(Ok(Value::Ref(id))) => {
                    return Ok(CallResult::Value(vm.clone_value(&Value::Ref(id))));
                },
                Role::Gives(Ok(v)) => {
                    return Ok(CallResult::Value(v));
                },
                Role::Gives(Err(e)) => {
                    return Err(e);
                },
                Role::Neither => {},
            }
        }
        Err(attribute_error(self.py_type(vm).as_str(), "__enter__"))
    }

    /// Leaves a `with` block.
    pub fn py_exit(&self, exc: Option<HeapId>, vm: &mut VM) -> (r: RunResult<CallResult>)
        requires
            old(vm).wf(),
            old(vm).ok(*self),
        ensures
            final(vm).wf(),
            r matches Ok(CallResult::Value(v)) ==> final(vm).ok(v),
            left(*old(vm), *final(vm), r, *self, exc),
    {
        if let Value::Ref(id) = self {
            let role = match vm.heap.get(*id) {
                HeapData::OpenFile(_) => Role::File,
                HeapData::TestContextManager(manager) => Role::Gives(manager.py_exit(exc)),
                _ => Role::Neither,
            };
            match role {
                Role::File => {
                    return crate::types::file_ops::py_exit(*id, vm);
                },
                Role::Gives(Ok(v)) => {
                    return Ok(CallResult::Value(v));
                },
                Role::Gives(Err(e)) => {
                    return Err(e);
                },
                Role::Neither => {},
            }
        }
        Err(attribute_error(self.py_type(vm).as_str(), "__exit__"))
    }
}

} // verus!
