//! How much memory objects are counted with.

use vstd::layout::size_of;
use vstd::prelude::*;
use vstd::utf8::encode_utf8;

use crate::intern::StringId;
use crate::text::byte_len;
use crate::types::date::Date;
use crate::types::datetime::DateTime;
use crate::types::dict_view::{DictItemsView, DictKeysView, DictValuesView};
use crate::types::file::OpenFile;
use crate::types::namedtuple::NamedTuple;
use crate::types::re_pattern::RePattern;
use crate::types::slice::Slice;
use crate::types::str::Str;
use crate::types::test_cm::TestContextManager;
use crate::types::timezone::TimeZone;
use crate::types::tuple::Tuple;
use crate::value::{EitherStr, Value};

verus! {

/// A size, or the largest one that a machine integer holds.
pub open spec fn capped(n: nat) -> usize {
    if n > usize::MAX {
        usize::MAX
    } else {
        n as usize
    }
}

/// The bytes of an optional text.
pub open spec fn optional_bytes(text: Option<String>) -> nat {
    match text {
        Some(text) => encode_utf8(text@).len(),
        None => 0,
    }
}

/// The size of so many slots.
fn slots(n: usize, unit: usize) -> (r: usize)
    ensures
        r == capped((n * unit) as nat),
{
    assert(n * unit >= 0) by (nonlinear_arith);
    match n.checked_mul(unit) {
        Some(size) => size,
        None => usize::MAX,
    }
}

/// The bytes of an optional text.
fn bytes_of(text: &Option<String>) -> (r: usize)
    ensures
        r == optional_bytes(*text),
{
    match text {
        Some(text) => byte_len(text.as_str()),
        None => 0,
    }
}

impl Date {
    /// The memory that the date takes.
    pub fn py_estimate_size(&self) -> (r: usize)
        ensures
            r == size_of::<Date>(),
    {
        std::mem::size_of::<Date>()
    }
}

impl DateTime {
    /// The memory that the datetime and the name of its timezone take.
    pub fn py_estimate_size(&self) -> (r: usize)
        ensures
            r == capped(size_of::<DateTime>() + optional_bytes(self.timezone_name)),
    {
        std::mem::size_of::<DateTime>().saturating_add(bytes_of(&self.timezone_name))
    }
}

impl DictKeysView {
    /// The memory that the view takes; the dictionary counts for itself.
    pub fn py_estimate_size(&self) -> (r: usize)
        ensures
            r == size_of::<DictKeysView>(),
    {
        std::mem::size_of::<DictKeysView>()
    }
}

impl DictItemsView {
    /// The memory that the view takes; the dictionary counts for itself.
    pub fn py_estimate_size(&self) -> (r: usize)
        ensures
            r == size_of::<DictItemsView>(),
    {
        std::mem::size_of::<DictItemsView>()
    }
}

impl DictValuesView {
    /// The memory that the view takes; the dictionary counts for itself.
    pub fn py_estimate_size(&self) -> (r: usize)
        ensures
            r == size_of::<DictValuesView>(),
    {
        std::mem::size_of::<DictValuesView>()
    }
}

impl OpenFile {
    /// The memory that the file and its path take; the content counts for itself.
    pub fn py_estimate_size(&self) -> (r: usize)
        ensures
            r == capped(size_of::<OpenFile>() + encode_utf8(self.path@).len()),
    {
        std::mem::size_of::<OpenFile>().saturating_add(byte_len(self.path.as_str()))
    }
}

/// The memory of a tuple with so many names and items, whose type name takes so many
/// bytes.
pub open spec fn tuple_size(name: nat, names: nat, items: nat) -> usize {
    capped(
        size_of::<NamedTuple>() + name + names * size_of::<StringId>() + items * size_of::<Value>(),
    )
}

/// The memory of a tuple with so many names and items, whose type name takes so many
/// bytes.
pub fn named_tuple_size(name: usize, names: usize, items: usize) -> (r: usize)
    ensures
        r == tuple_size(name as nat, names as nat, items as nat),
{
    let names: usize = slots(names, std::mem::size_of::<StringId>());
    let items: usize = slots(items, std::mem::size_of::<Value>());
    std::mem::size_of::<NamedTuple>().saturating_add(name).saturating_add(names).saturating_add(
        items,
    )
}

impl NamedTuple {
    /// The memory that the tuple with its names and items takes. A type name that
    /// is not interned counts with what its string has allocated, which is left to
    /// the allocator.
    pub fn py_estimate_size(&self) -> (r: usize)
        ensures
            match self.name {
                EitherStr::Interned(_) => r == tuple_size(
                    0,
                    self.field_names@.len(),
                    self.items@.len(),
                ),
                EitherStr::Heap(text) => exists|c: usize|
                    encode_utf8(text@).len() <= c <= isize::MAX && r == #[trigger] tuple_size(
                        c as nat,
                        self.field_names@.len(),
                        self.items@.len(),
                    ),
            },
    {
        named_tuple_size(self.name.py_estimate_size(), self.field_names.len(), self.items.len())
    }
}

impl RePattern {
    /// The memory that the pattern and its text take.
    pub fn py_estimate_size(&self) -> (r: usize)
        ensures
            r == capped(size_of::<RePattern>() + encode_utf8(self.text()).len()),
    {
        std::mem::size_of::<RePattern>().saturating_add(byte_len(self.pattern()))
    }
}

impl Slice {
    /// The memory that the slice takes.
    pub fn py_estimate_size(&self) -> (r: usize)
        ensures
            r == size_of::<Slice>(),
    {
        std::mem::size_of::<Slice>()
    }
}

impl Str {
    /// The memory that the string takes.
    pub fn py_estimate_size(&self) -> (r: usize)
        ensures
            r == capped(size_of::<Str>() + encode_utf8(self@).len()),
    {
        std::mem::size_of::<Str>().saturating_add(byte_len(self.as_str()))
    }
}

impl TestContextManager {
    /// The memory that the manager and its messages take.
    pub fn py_estimate_size(&self) -> (r: usize)
        ensures
            r == capped(
                size_of::<TestContextManager>() + optional_bytes(self.raise_on_enter)
                    + optional_bytes(self.raise_on_exit),
            ),
    {
        std::mem::size_of::<TestContextManager>().saturating_add(
            bytes_of(&self.raise_on_enter),
        ).saturating_add(bytes_of(&self.raise_on_exit))
    }
}

impl TimeZone {
    /// The memory that the timezone and its name take.
    pub fn py_estimate_size(&self) -> (r: usize)
        ensures
            r == capped(size_of::<TimeZone>() + optional_bytes(self.name)),
    {
        std::mem::size_of::<TimeZone>().saturating_add(bytes_of(&self.name))
    }
}

impl Tuple {
    /// The memory that the tuple and its items take.
    pub fn py_estimate_size(&self) -> (r: usize)
        ensures
            r == capped(size_of::<Tuple>() + self.items@.len() * size_of::<Value>()),
    {
        std::mem::size_of::<Tuple>().saturating_add(
            slots(self.as_slice().len(), std::mem::size_of::<Value>()),
        )
    }
}

} // verus!
