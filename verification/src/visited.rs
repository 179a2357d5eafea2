//! Sets of heap indices, for finding objects that contain themselves.

use ahash::AHashSet;
use vstd::prelude::*;

verus! {

/// The hasher state of `ahash`.
#[verifier::external_type_specification]
#[verifier::external_body]
pub struct ExRandomState(ahash::RandomState);

/// The hash set of `ahash`.
#[verifier::external_type_specification]
#[verifier::external_body]
#[verifier::reject_recursive_types(T)]
#[verifier::reject_recursive_types(S)]
pub struct ExAHashSet<T, S>(ahash::AHashSet<T, S>);

/// What a set holds.
pub uninterp spec fn visited_ids(set: AHashSet<usize>) -> Set<usize>;

/// `AHashSet::new` gives a set that holds nothing.
#[verifier::external_body]
pub(crate) fn no_ids() -> (r: AHashSet<usize>)
    ensures
        visited_ids(r) == Set::<usize>::empty(),
{
    AHashSet::new()
}

/// `contains` of `AHashSet` tells whether the set holds an index.
#[verifier::external_body]
pub(crate) fn has_id(set: &AHashSet<usize>, id: usize) -> (r: bool)
    ensures
        r == visited_ids(*set).contains(id),
{
    set.contains(&id)
}

/// `insert` of `AHashSet` adds an index to the set.
#[verifier::external_body]
pub(crate) fn insert_id(set: &mut AHashSet<usize>, id: usize)
    ensures
        visited_ids(*final(set)) == visited_ids(*old(set)).insert(id),
{
    set.insert(id);
}

/// `remove` of `AHashSet` takes an index out of the set.
#[verifier::external_body]
pub(crate) fn remove_id(set: &mut AHashSet<usize>, id: usize)
    ensures
        visited_ids(*final(set)) == visited_ids(*old(set)).remove(id),
{
    set.remove(&id);
}

} // verus!
