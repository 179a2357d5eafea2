//! Live views of dictionaries.

use vstd::prelude::*;

use crate::heap::HeapId;

verus! {

/// What `dict.keys()` returns: a live view of a dictionary's keys.
#[derive(Clone, Copy, Debug, PartialEq, Eq, Structural)]
pub struct DictKeysView {
    pub dict_id: HeapId,
}

impl DictKeysView {
    /// A view of the dictionary at `dict_id`.
    pub fn new(dict_id: HeapId) -> (r: DictKeysView)
        ensures
            r.dict_id == dict_id,
    {
        DictKeysView { dict_id }
    }

    /// The heap entry of the dictionary.
    pub fn dict_id(self) -> (r: HeapId)
        ensures
            r == self.dict_id,
    {
        self.dict_id
    }
}

/// What `dict.items()` returns: a live view of a dictionary's items.
#[derive(Clone, Copy, Debug, PartialEq, Eq, Structural)]
pub struct DictItemsView {
    pub dict_id: HeapId,
}

impl DictItemsView {
    /// A view of the dictionary at `dict_id`.
    pub fn new(dict_id: HeapId) -> (r: DictItemsView)
        ensures
            r.dict_id == dict_id,
    {
        DictItemsView { dict_id }
    }

    /// The heap entry of the dictionary.
    pub fn dict_id(self) -> (r: HeapId)
        ensures
            r == self.dict_id,
    {
        self.dict_id
    }
}

/// What `dict.values()` returns: a live view of a dictionary's values.
#[derive(Clone, Copy, Debug, PartialEq, Eq, Structural)]
pub struct DictValuesView {
    pub dict_id: HeapId,
}

impl DictValuesView {
    /// A view of the dictionary at `dict_id`.
    pub fn new(dict_id: HeapId) -> (r: DictValuesView)
        ensures
            r.dict_id == dict_id,
    {
        DictValuesView { dict_id }
    }

    /// The heap entry of the dictionary.
    pub fn dict_id(self) -> (r: HeapId)
        ensures
            r == self.dict_id,
    {
        self.dict_id
    }
}

} // verus!
