//! Named tuples.

use vstd::prelude::*;

use crate::heap::HeapId;
use crate::intern::Interns;
use crate::text::same_text;
use crate::types::tuple::has_refs;
use crate::value::{any_ref, lemma_no_refs, push_value_refs, values_refs, EitherStr, Value};

verus! {

/// A tuple whose items also have names.
#[derive(Debug)]
pub struct NamedTuple {
    pub name: EitherStr,
    pub field_names: Vec<EitherStr>,
    pub items: Vec<Value>,
    pub contains_refs: bool,
}

/// The position of the first field with this name among the first `n`, if any.
pub open spec fn field_position(fields: Seq<EitherStr>, name: Seq<char>, interns: Interns, n: int) -> Option<int>
    decreases n,
{
    if n <= 0 {
        None
    } else {
        match field_position(fields, name, interns, n - 1) {
            Some(i) => Some(i),
            None => if fields[n - 1].text(interns) == name {
                Some(n - 1)
            } else {
                None
            },
        }
    }
}

/// A field that was found stays the first one when more fields are looked at.
proof fn lemma_field_found(fields: Seq<EitherStr>, name: Seq<char>, interns: Interns, n: int, m: int)
    requires
        0 <= n <= m,
    ensures
        field_position(fields, name, interns, n) is Some ==> field_position(
            fields,
            name,
            interns,
            m,
        ) == field_position(fields, name, interns, n),
    decreases m - n,
{
    if n < m {
        lemma_field_found(fields, name, interns, n, m - 1);
    }
}

impl NamedTuple {
    /// Whether every item has a name, the names exist, and the flag says the
    /// truth about the items.
    pub open spec fn wf(self, interns: Interns) -> bool {
        &&& self.field_names@.len() == self.items@.len()
        &&& self.contains_refs == any_ref(self.items@)
        &&& self.name.ok(interns)
        &&& forall|i: int|
            0 <= i < self.field_names@.len() ==> (#[trigger] self.field_names@[i]).ok(interns)
    }

    /// Where the field with this name is, if there is one.
    pub open spec fn position(self, name: Seq<char>, interns: Interns) -> Option<int> {
        field_position(self.field_names@, name, interns, self.field_names@.len() as int)
    }

    /// A named tuple; there must be as many names as items.
    pub fn new(name: EitherStr, field_names: Vec<EitherStr>, items: Vec<Value>) -> (r: NamedTuple)
        requires
            field_names@.len() == items@.len(),
        ensures
            r.name == name,
            r.field_names == field_names,
            r.items == items,
            r.contains_refs == any_ref(items@),
    {
        let contains_refs = has_refs(&items);
        NamedTuple { name, field_names, items, contains_refs }
    }

    /// The type name.
    pub fn name<'a>(&'a self, interns: &'a Interns) -> (r: &'a str)
        requires
            self.name.ok(*interns),
        ensures
            r@ == self.name.text(*interns),
    {
        self.name.as_str(interns)
    }

    /// The field names.
    pub fn field_names(&self) -> (r: &Vec<EitherStr>)
        ensures
            *r == self.field_names,
    {
        &self.field_names
    }

    /// The items.
    pub fn as_vec(&self) -> (r: &Vec<Value>)
        ensures
            *r == self.items,
    {
        &self.items
    }

    /// The number of items.
    pub fn len(&self) -> (r: usize)
        ensures
            r == self.items@.len(),
    {
        self.items.len()
    }

    /// Whether any item is a reference.
    pub fn contains_refs(&self) -> (r: bool)
        ensures
            r == self.contains_refs,
    {
        self.contains_refs
    }

    /// The item of the first field with this name.
    pub fn get_by_name(&self, name: &str, interns: &Interns) -> (r: Option<&Value>)
        requires
            self.wf(*interns),
        ensures
            match (r, self.position(name@, *interns)) {
                (Some(value), Some(i)) => 0 <= i < self.items@.len() && *value == self.items@[i],
                (None, None) => true,
                _ => false,
            },
    {
        for i in 0..self.field_names.len()
            invariant
                self.wf(*interns),
                field_position(self.field_names@, name@, *interns, i as int) is None,
        {
            proof {
                lemma_field_found(
                    self.field_names@,
                    name@,
                    *interns,
                    i + 1,
                    self.field_names@.len() as int,
                );
            }
            if same_text(self.field_names[i].as_str(interns), name) {
                return Some(&self.items[i]);
            }
        }
        None
    }

    /// The item at an index that counts from the end when negative.
    pub fn get_by_index(&self, index: i64) -> (r: Option<&Value>)
        ensures
            match r {
                Some(value) => {
                    let place = if index < 0 { index + self.items@.len() } else { index as int };
                    0 <= place < self.items@.len() && *value == self.items@[place]
                },
                None => {
                    let place = if index < 0 { index + self.items@.len() } else { index as int };
                    !(0 <= place < self.items@.len())
                },
            },
    {
        let len: i128 = self.items.len() as i128;
        let place: i128 = if index < 0 {
            index as i128 + len
        } else {
            index as i128
        };
        if place < 0 || place >= len {
            None
        } else {
            Some(&self.items[place as usize])
        }
    }

    /// Puts the heap entries of the items on the stack.
    pub fn py_dec_ref_ids(&self, stack: &mut Vec<HeapId>)
        requires
            self.contains_refs == any_ref(self.items@),
        ensures
            final(stack)@ == old(stack)@ + values_refs(self.items@),
    {
        if !self.contains_refs {
            proof {
                lemma_no_refs(self.items@);
                assert(stack@ =~= old(stack)@ + values_refs(self.items@));
            }
            return;
        }
        push_value_refs(&self.items, stack);
    }
}

} // verus!
