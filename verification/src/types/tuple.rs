//! Python `tuple`.

use vstd::prelude::*;

use crate::heap::HeapId;
use crate::types::tuple_vec::TupleVec;
use crate::value::{any_ref, lemma_no_refs, push_value_refs, values_refs, Value};

verus! {

/// A tuple. The flag says whether any item is a reference, so that counting
/// can skip tuples that hold none.
#[derive(Debug)]
pub struct Tuple {
    pub items: TupleVec,
    pub contains_refs: bool,
}

/// Whether any of the values is a reference.
pub fn has_refs(items: &[Value]) -> (r: bool)
    ensures
        r == any_ref(items@),
{
    for i in 0..items.len()
        invariant
            forall|j: int| 0 <= j < i ==> !(#[trigger] items@[j] is Ref),
    {
        match &items[i] {
            Value::Ref(_) => {
                assert(items@[i as int] is Ref);
                return true;
            },
            _ => {},
        }
    }
    false
}

impl Tuple {
    /// Whether the flag says the truth about the items.
    pub open spec fn wf(self) -> bool {
        self.contains_refs == any_ref(self.items@)
    }

    /// A tuple of the given items.
    pub fn new(items: TupleVec) -> (r: Tuple)
        ensures
            r.wf(),
            r.items == items,
    {
        let contains_refs = has_refs(items.as_slice());
        Tuple { items, contains_refs }
    }

    /// The items.
    pub fn as_slice(&self) -> (r: &[Value])
        ensures
            r@ == self.items@,
    {
        self.items.as_slice()
    }

    /// Whether any item is a reference.
    pub fn contains_refs(&self) -> (r: bool)
        ensures
            r == self.contains_refs,
    {
        self.contains_refs
    }

    /// Puts the heap entries of the items on the stack.
    pub fn py_dec_ref_ids(&self, stack: &mut Vec<HeapId>)
        requires
            self.wf(),
        ensures
            final(stack)@ == old(stack)@ + values_refs(self.items@),
    {
        if !self.contains_refs {
            proof {
                lemma_no_refs(self.items@);
                assert(stack@ =~= old(stack)@ + values_refs(self.items@));
            }
            return;
        }
        push_value_refs(self.items.as_slice(), stack);
    }
}

} // verus!
