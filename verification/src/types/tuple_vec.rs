//! Storage for tuple items, inline for small tuples.

use smallvec::SmallVec;
use vstd::prelude::*;

use crate::value::Value;

verus! {

/// The items of a tuple in a `smallvec::SmallVec`, which holds up to three of
/// them without an allocation of its own.
#[verifier::external_body]
#[derive(Debug)]
pub struct TupleVec {
    items: SmallVec<[Value; 3]>,
}

/// The items that the storage holds, in order.
pub uninterp spec fn tuple_vec_items(v: TupleVec) -> Seq<Value>;

impl View for TupleVec {
    type V = Seq<Value>;

    open spec fn view(&self) -> Seq<Value> {
        tuple_vec_items(*self)
    }
}

impl TupleVec {
    /// `SmallVec::new`: no items.
    #[verifier::external_body]
    pub(crate) fn new() -> (r: TupleVec)
        ensures
            tuple_vec_items(r) == Seq::<Value>::empty(),
    {
        TupleVec { items: SmallVec::new() }
    }

    /// `SmallVec::from_vec`: the items of a vector, in the same order.
    #[verifier::external_body]
    pub(crate) fn from_vec(items: Vec<Value>) -> (r: TupleVec)
        ensures
            tuple_vec_items(r) == items@,
    {
        TupleVec { items: SmallVec::from_vec(items) }
    }

    /// `SmallVec::as_slice`: the items in order.
    #[verifier::external_body]
    pub(crate) fn as_slice(&self) -> (r: &[Value])
        ensures
            r@ == tuple_vec_items(*self),
    {
        self.items.as_slice()
    }
}

} // verus!
