//! The plain containers that other types are built on: lists, dictionaries,
//! sets and ranges.

use vstd::prelude::*;

use crate::value::Value;

verus! {

/// A list.
#[derive(Debug)]
pub struct List {
    pub items: Vec<Value>,
}

impl List {
    /// A list of the given items.
    pub fn new(items: Vec<Value>) -> (r: List)
        ensures
            r.items == items,
    {
        List { items }
    }

    /// The items.
    pub fn as_slice(&self) -> (r: &[Value])
        ensures
            r@ == self.items@,
    {
        self.items.as_slice()
    }
}

/// A dictionary: its entries in the order of insertion.
#[derive(Debug)]
pub struct Dict {
    pub entries: Vec<(Value, Value)>,
}

impl Dict {
    /// The keys, in order.
    pub open spec fn keys(self) -> Seq<Value> {
        self.entries@.map_values(|e: (Value, Value)| e.0)
    }

    /// The values, in order.
    pub open spec fn values(self) -> Seq<Value> {
        self.entries@.map_values(|e: (Value, Value)| e.1)
    }

    /// An empty dictionary.
    pub fn new() -> (r: Dict)
        ensures
            r.entries@.len() == 0,
    {
        Dict { entries: Vec::new() }
    }

    /// The number of entries.
    pub fn len(&self) -> (r: usize)
        ensures
            r == self.entries@.len(),
    {
        self.entries.len()
    }
}

/// The members of a set or frozen set.
#[derive(Debug)]
pub struct SetStorage {
    pub items: Vec<Value>,
}

/// A `range` object; its step is not zero.
#[derive(Clone, Copy, Debug, PartialEq, Eq, Structural)]
pub struct Range {
    pub start: i64,
    pub stop: i64,
    pub step: i64,
}

impl Range {
    /// Whether the range counts to `n`.
    pub open spec fn has(self, n: int) -> bool {
        if self.step > 0 {
            self.start <= n < self.stop && (n - self.start) % (self.step as int) == 0
        } else {
            self.stop < n <= self.start && (self.start - n) % (-self.step as int) == 0
        }
    }

    /// Whether the range counts to `n`.
    pub fn contains(&self, n: i64) -> (r: bool)
        requires
            self.step != 0,
        ensures
            r == self.has(n as int),
    {
        if self.step > 0 {
            if n < self.start || n >= self.stop {
                return false;
            }
            let distance: i128 = n as i128 - self.start as i128;
            distance % (self.step as i128) == 0
        } else {
            if n > self.start || n <= self.stop {
                return false;
            }
            let distance: i128 = self.start as i128 - n as i128;
            let stride: i128 = -(self.step as i128);
            distance % stride == 0
        }
    }
}

impl Range {
    /// How many numbers the range counts.
    pub open spec fn count(self) -> int {
        if self.step > 0 {
            if self.stop > self.start {
                (self.stop - self.start - 1) / (self.step as int) + 1
            } else {
                0
            }
        } else if self.start > self.stop {
            (self.start - self.stop - 1) / (-self.step as int) + 1
        } else {
            0
        }
    }

    /// Whether two ranges count the same numbers in the same order.
    pub open spec fn same(self, other: Range) -> bool {
        &&& self.count() == other.count()
        &&& self.count() == 0 || (self.start == other.start && (self.count() == 1 || self.step
            == other.step))
    }

    /// How many numbers the range counts.
    pub fn len(&self) -> (r: i128)
        requires
            self.step != 0,
        ensures
            r == self.count(),
    {
        if self.step > 0 {
            if self.stop > self.start {
                (self.stop as i128 - self.start as i128 - 1) / (self.step as i128) + 1
            } else {
                0
            }
        } else if self.start > self.stop {
            (self.start as i128 - self.stop as i128 - 1) / (-(self.step as i128)) + 1
        } else {
            0
        }
    }

    /// Whether two ranges count the same numbers in the same order.
    pub fn equals(&self, other: &Range) -> (r: bool)
        requires
            self.step != 0,
            other.step != 0,
        ensures
            r == self.same(*other),
    {
        let n: i128 = self.len();
        if n != other.len() {
            return false;
        }
        n == 0 || (self.start == other.start && (n == 1 || self.step == other.step))
    }
}

} // verus!
