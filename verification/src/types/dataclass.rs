//! Instances of dataclasses.

use vstd::prelude::*;

use crate::heap::entries_ok;
use crate::intern::Interns;
use crate::text::same_text;
use crate::types::containers::Dict;
use crate::value::{EitherStr, Value};
use crate::vm::VM;

verus! {

/// An instance of a dataclass of the host.
#[derive(Debug)]
pub struct Dataclass {
    pub name: EitherStr,
    pub type_id: u64,
    pub field_names: Vec<String>,
    pub attrs: Dict,
    pub frozen: bool,
}

impl Dataclass {
    /// An instance with the given attributes.
    pub fn new(
        name: EitherStr,
        type_id: u64,
        field_names: Vec<String>,
        attrs: Dict,
        frozen: bool,
    ) -> (r: Dataclass)
        ensures
            r == (Dataclass { name, type_id, field_names, attrs, frozen }),
    {
        Dataclass { name, type_id, field_names, attrs, frozen }
    }

    /// The class name.
    pub fn name<'a>(&'a self, interns: &'a Interns) -> (r: &'a str)
        requires
            self.name.ok(*interns),
        ensures
            r@ == self.name.text(*interns),
    {
        self.name.as_str(interns)
    }

    /// The identity of the class on the host.
    pub fn type_id(&self) -> (r: u64)
        ensures
            r == self.type_id,
    {
        self.type_id
    }

    /// The declared fields in order.
    pub fn field_names(&self) -> (r: &Vec<String>)
        ensures
            *r == self.field_names,
    {
        &self.field_names
    }

    /// The attributes.
    pub fn attrs(&self) -> (r: &Dict)
        ensures
            *r == self.attrs,
    {
        &self.attrs
    }

    /// The attributes, to be changed.
    pub fn attrs_mut(&mut self) -> (r: &mut Dict)
        ensures
            *r == old(self).attrs,
            *final(self) == (Dataclass { attrs: *final(r), ..*old(self) }),
    {
        &mut self.attrs
    }

    /// Whether attributes cannot be assigned.
    pub fn is_frozen(&self) -> (r: bool)
        ensures
            r == self.frozen,
    {
        self.frozen
    }
}

/// The first place from `i` on of an entry whose key is the given text, or the
/// length.
pub open spec fn named_place(vm: VM, entries: Seq<(Value, Value)>, name: Seq<char>, i: int) -> int
    decreases entries.len() - i,
{
    if i >= entries.len() || vm.text_of(entries[i].0) == Some(name) {
        i
    } else {
        named_place(vm, entries, name, i + 1)
    }
}

/// The value of the entry whose key is the given text.
pub open spec fn named_entry(vm: VM, entries: Seq<(Value, Value)>, name: Seq<char>) -> Option<Value> {
    let i = named_place(vm, entries, name, 0);
    if i < entries.len() {
        Some(entries[i].1)
    } else {
        None
    }
}

/// The place found is not before the place where the search began.
pub proof fn lemma_named_place(vm: VM, entries: Seq<(Value, Value)>, name: Seq<char>, i: int)
    requires
        i <= entries.len(),
    ensures
        i <= named_place(vm, entries, name, i) <= entries.len(),
    decreases entries.len() - i,
{
    if i < entries.len() {
        lemma_named_place(vm, entries, name, i + 1);
    }
}

/// The first place of an entry whose key is the given text, or the length.
pub(crate) fn find_named(entries: &[(Value, Value)], name: &str, vm: &VM) -> (r: usize)
    requires
        entries_ok(entries@, vm.entries().len(), vm.interns),
    ensures
        r == named_place(*vm, entries@, name@, 0),
        r <= entries@.len(),
{
    for i in 0..entries.len()
        invariant
            entries_ok(entries@, vm.entries().len(), vm.interns),
            named_place(*vm, entries@, name@, 0) == named_place(*vm, entries@, name@, i as int),
    {
        assert(vm.ok(entries@[i as int].0));
        match entries[i].0.text(vm) {
            Some(text) => {
                if same_text(text, name) {
                    return i;
                }
            },
            None => {},
        }
    }
    entries.len()
}

impl Dict {
    /// The value of the entry whose key is the given text.
    pub fn get_by_str<'a>(&'a self, name: &str, vm: &VM) -> (r: Option<&'a Value>)
        requires
            entries_ok(self.entries@, vm.entries().len(), vm.interns),
        ensures
            match (r, named_entry(*vm, self.entries@, name@)) {
                (Some(v), Some(expected)) => *v == expected && vm.ok(*v),
                (None, None) => true,
                _ => false,
            },
    {
        let i: usize = find_named(&self.entries, name, vm);
        proof {
            lemma_named_place(*vm, self.entries@, name@, 0);
        }
        if i < self.entries.len() {
            assert(vm.ok(self.entries@[i as int].1));
            Some(&self.entries[i].1)
        } else {
            None
        }
    }
}

} // verus!
