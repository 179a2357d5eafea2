//! Slices as objects: construction and attributes.

use vstd::prelude::*;

use crate::args::{
    at_least, at_least_error, at_most, at_most_error, no_kwargs_error, raises, ArgValues, Raised,
};
use crate::exception::{ExcType, RunError, RunResult};
use crate::heap::HeapData;
use crate::outcome::{allocate_object, object_result};
use crate::text::same_text;
use crate::types::slice::Slice;
use crate::value::{EitherStr, Value};
use crate::value_eq::told;
use crate::vm::VM;

verus! {

/// The error for a slice of something else than integers.
pub open spec fn bad_bound() -> Raised {
    (ExcType::TypeError, "slice indices must be integers or None or have an __index__ method"@)
}

/// The bound of a slice that a value stands for.
pub open spec fn bound_of(v: Value) -> Result<Option<i64>, Raised> {
    match v {
        Value::PyNone => Ok(None),
        Value::Int(n) => Ok(Some(n)),
        Value::Bool(b) => Ok(
            Some(
                if b {
                    1
                } else {
                    0
                },
            ),
        ),
        _ => Err(bad_bound()),
    }
}

/// The bound of a slice that a value stands for; `None` stands for the default.
pub fn value_to_option_i64(value: &Value) -> (r: RunResult<Option<i64>>)
    ensures
        told(r, bound_of(*value)),
{
    match value {
        Value::PyNone => Ok(None),
        Value::Int(n) => Ok(Some(*n)),
        Value::Bool(b) => Ok(
            Some(
                if *b {
                    1
                } else {
                    0
                },
            ),
        ),
        _ => Err(
            RunError::new(
                ExcType::TypeError,
                "slice indices must be integers or None or have an __index__ method",
            ),
        ),
    }
}

/// A bound of a slice as a value.
pub open spec fn bound_value(bound: Option<i64>) -> Value {
    match bound {
        Some(n) => Value::Int(n),
        None => Value::PyNone,
    }
}

/// A bound of a slice as a value.
pub fn option_i64_to_value(opt: Option<i64>) -> (r: Value)
    ensures
        r == bound_value(opt),
{
    match opt {
        Some(n) => Value::Int(n),
        None => Value::PyNone,
    }
}

/// A bound that is made a value is read back as it was.
pub proof fn lemma_bound_round_trip(bound: Option<i64>)
    ensures
        bound_of(bound_value(bound)) == Ok::<Option<i64>, Raised>(bound),
{
}

/// The bounds of the values from `i` on, after those that are read already.
pub open spec fn bounds_from(vs: Seq<Value>, i: int, read: Seq<Option<i64>>) -> Result<
    Seq<Option<i64>>,
    Raised,
>
    decreases vs.len() - i,
{
    if i >= vs.len() {
        Ok(read)
    } else {
        match bound_of(vs[i]) {
            Err(e) => Err(e),
            Ok(b) => bounds_from(vs, i + 1, read.push(b)),
        }
    }
}

/// The slice that a call of `slice` makes.
pub open spec fn slice_of_args(args: ArgValues) -> Result<Slice, Raised> {
    let pos = args.pos@;
    if args.kwargs@.len() > 0 {
        Err(no_kwargs_error("slice"@))
    } else if pos.len() == 0 {
        Err(at_least_error("slice"@, 1, 0))
    } else if pos.len() > 3 {
        Err(at_most_error("slice"@, 3, pos.len()))
    } else {
        match bounds_from(pos, 0, Seq::empty()) {
            Err(e) => Err(e),
            Ok(b) => if b.len() == 1 {
                Ok(Slice { start: None, stop: b[0], step: None })
            } else if b.len() == 2 {
                Ok(Slice { start: b[0], stop: b[1], step: None })
            } else {
                Ok(Slice { start: b[0], stop: b[1], step: b[2] })
            },
        }
    }
}

impl Slice {
    /// `slice(stop)`, `slice(start, stop)` or `slice(start, stop, step)`.
    pub fn init(vm: &mut VM, args: ArgValues) -> (r: RunResult<Value>)
        requires
            old(vm).wf(),
            args.ok(old(vm).entries().len(), old(vm).interns),
        ensures
            final(vm).wf(),
            r matches Ok(v) ==> final(vm).ok(v),
            exists|mid: VM| #[trigger]
                args.consumed(mid, *final(vm)) && (match slice_of_args(args) {
                    Err(e) => raises(r, e) && mid == *old(vm),
                    Ok(slice) => object_result(*old(vm), mid, r, HeapData::Slice(slice)),
                }),
    {
        let ghost given = args;
        let r = Self::init_from(vm, &args);
        let ghost mid = *vm;
        args.release(vm);
        assert(given.consumed(mid, *vm));
        r
    }

    /// The same without taking the arguments.
    fn init_from(vm: &mut VM, args: &ArgValues) -> (r: RunResult<Value>)
        requires
            old(vm).wf(),
        ensures
            final(vm).wf(),
            r matches Ok(v) ==> final(vm).ok(v),
            match slice_of_args(*args) {
                Err(e) => raises(r, e) && *final(vm) == *old(vm),
                Ok(slice) => object_result(*old(vm), *final(vm), r, HeapData::Slice(slice)),
            },
    {
        let pos = match args.into_pos_only("slice") {
            Err(e) => {
                return Err(e);
            },
            Ok(pos) => pos,
        };
        if pos.len() == 0 {
            return Err(at_least("slice", 1, 0));
        }
        if pos.len() > 3 {
            return Err(at_most("slice", 3, pos.len()));
        }
        let mut bounds: Vec<Option<i64>> = Vec::new();
        assert(bounds@ =~= Seq::<Option<i64>>::empty());
        for i in 0..pos.len()
            invariant
                pos@ == args.pos@,
                args.kwargs@.len() == 0,
                1 <= pos@.len() <= 3,
                *vm == *old(vm),
                vm.wf(),
                bounds@.len() == i,
                bounds_from(pos@, 0, Seq::empty()) == bounds_from(pos@, i as int, bounds@),
        {
            match value_to_option_i64(&pos[i]) {
                Err(e) => {
                    return Err(e);
                },
                Ok(b) => bounds.push(b),
            }
        }
        let slice = if bounds.len() == 1 {
            Slice::new(None, bounds[0], None)
        } else if bounds.len() == 2 {
            Slice::new(bounds[0], bounds[1], None)
        } else {
            Slice::new(bounds[0], bounds[1], bounds[2])
        };
        allocate_object(HeapData::Slice(slice), vm)
    }

    /// The attribute with a name, if there is one.
    pub open spec fn attr(self, name: Seq<char>) -> Option<Value> {
        if name == "start"@ {
            Some(bound_value(self.start))
        } else if name == "stop"@ {
            Some(bound_value(self.stop))
        } else if name == "step"@ {
            Some(bound_value(self.step))
        } else {
            None
        }
    }

    /// Reads an attribute: nothing when there is none with this name.
    pub fn py_getattr(&self, attr: &EitherStr, vm: &VM) -> (r: Option<Value>)
        requires
            attr.ok(vm.interns),
        ensures
            r == self.attr(attr.text(vm.interns)),
    {
        let name = attr.as_str(&vm.interns);
        if same_text(name, "start") {
            Some(option_i64_to_value(self.start))
        } else if same_text(name, "stop") {
            Some(option_i64_to_value(self.stop))
        } else if same_text(name, "step") {
            Some(option_i64_to_value(self.step))
        } else {
            None
        }
    }
}

} // verus!
