//! Python values.

use vstd::prelude::*;
use vstd::std_specs::convert::FromSpecImpl;

use crate::heap::HeapId;
use crate::intern::{
    lemma_names_differ, BytesId, FunctionId, Interns, LongIntId, StaticStrings, StringId,
};
use crate::text::same_text;
use crate::types::py_type::Type;

verus! {

/// A 64-bit IEEE 754 number by its bits.
#[derive(Clone, Copy, Debug, PartialEq, Eq, Structural)]
pub struct FloatBits(pub u64);

/// A builtin function, exception class or type.
#[derive(Clone, Copy, Debug, PartialEq, Eq, Structural)]
pub enum Builtins {
    Function(u16),
    Exception(u16),
    Type(Type),
}

/// A function of a module.
#[derive(Clone, Copy, Debug, PartialEq, Eq, Structural)]
pub struct ModuleFunctions(pub u16);

/// A property whose value the host computes.
#[derive(Clone, Copy, Debug, PartialEq, Eq, Structural)]
pub struct Property(pub u16);

/// A special object that only exists, such as `sys.stdout` or `typing.Any`.
#[derive(Clone, Copy, Debug, PartialEq, Eq, Structural)]
pub struct Marker(pub StaticStrings);

/// A Python value. Small values are held inline; the others live in the heap.
///
/// There is no `Clone`: a reference is copied by `clone_with_heap`, which
/// counts it.
#[derive(Debug, PartialEq, Eq, Structural)]
pub enum Value {
    Undefined,
    Ellipsis,
    PyNone,
    Bool(bool),
    Int(i64),
    Float(FloatBits),
    InternString(StringId),
    InternBytes(BytesId),
    InternLongInt(LongIntId),
    Builtin(Builtins),
    ModuleFunction(ModuleFunctions),
    DefFunction(FunctionId),
    ExtFunction(StringId),
    Marker(Marker),
    Property(Property),
    Ref(HeapId),
}

/// Whether everything that a value refers to exists.
pub open spec fn value_ok(v: Value, entries: nat, interns: Interns) -> bool {
    match v {
        Value::Ref(id) => id.0 < entries,
        Value::InternString(id) => id.0 < interns.strings@.len(),
        Value::ExtFunction(id) => id.0 < interns.strings@.len(),
        Value::InternBytes(id) => id.0 < interns.bytes@.len(),
        Value::InternLongInt(id) => id.0 < interns.long_ints@.len(),
        _ => true,
    }
}

/// Whether everything that the values refer to exists.
pub open spec fn values_ok(vs: Seq<Value>, entries: nat, interns: Interns) -> bool {
    forall|i: int| 0 <= i < vs.len() ==> value_ok(#[trigger] vs[i], entries, interns)
}

impl Value {
    /// The heap entry that the value refers to, if any.
    pub fn ref_id(&self) -> (r: Option<HeapId>)
        ensures
            match r {
                Some(id) => *self == Value::Ref(id),
                None => !(*self is Ref),
            },
    {
        match self {
            Value::Ref(id) => Some(*id),
            _ => None,
        }
    }

    /// Copies a value that is not a reference.
    pub fn clone_immediate(&self) -> (r: Value)
        requires
            !(*self is Ref),
        ensures
            r == *self,
    {
        self.alias()
    }

    /// A second handle on the same value; references are not counted.
    pub(crate) fn alias(&self) -> (r: Value)
        ensures
            r == *self,
    {
        match self {
            Value::Undefined => Value::Undefined,
            Value::Ellipsis => Value::Ellipsis,
            Value::PyNone => Value::PyNone,
            Value::Bool(b) => Value::Bool(*b),
            Value::Int(v) => Value::Int(*v),
            Value::Float(v) => Value::Float(*v),
            Value::InternString(s) => Value::InternString(*s),
            Value::InternBytes(b) => Value::InternBytes(*b),
            Value::InternLongInt(n) => Value::InternLongInt(*n),
            Value::Builtin(b) => Value::Builtin(*b),
            Value::ModuleFunction(f) => Value::ModuleFunction(*f),
            Value::DefFunction(f) => Value::DefFunction(*f),
            Value::ExtFunction(f) => Value::ExtFunction(*f),
            Value::Marker(m) => Value::Marker(*m),
            Value::Property(p) => Value::Property(*p),
            Value::Ref(id) => Value::Ref(*id),
        }
    }

    /// Puts the heap entry that the value refers to, if any, on the stack.
    pub fn py_dec_ref_ids(&self, stack: &mut Vec<HeapId>)
        ensures
            final(stack)@ == old(stack)@ + value_refs(*self),
    {
        match self {
            Value::Ref(id) => {
                stack.push(*id);
                assert(stack@ =~= old(stack)@ + value_refs(*self));
            },
            _ => {
                assert(stack@ =~= old(stack)@ + value_refs(*self));
            },
        }
    }
}

/// The heap entry that a value refers to, as a sequence of at most one.
pub open spec fn value_refs(v: Value) -> Seq<HeapId> {
    match v {
        Value::Ref(id) => seq![id],
        _ => Seq::empty(),
    }
}

/// The heap entries that values refer to, in order.
pub open spec fn values_refs(vs: Seq<Value>) -> Seq<HeapId>
    decreases vs.len(),
{
    if vs.len() == 0 {
        Seq::empty()
    } else {
        values_refs(vs.drop_last()) + value_refs(vs.last())
    }
}

/// Puts the heap entries that the values refer to on the stack.
pub fn push_value_refs(items: &[Value], stack: &mut Vec<HeapId>)
    ensures
        final(stack)@ == old(stack)@ + values_refs(items@),
{
    for i in 0..items.len()
        invariant
            stack@ == old(stack)@ + values_refs(items@.take(i as int)),
    {
        let ghost before = stack@;
        items[i].py_dec_ref_ids(stack);
        proof {
            assert(items@.take(i + 1).drop_last() =~= items@.take(i as int));
            assert(stack@ =~= old(stack)@ + values_refs(items@.take(i + 1)));
        }
    }
    assert(items@.take(items@.len() as int) =~= items@);
}

/// Whether any of the values is a reference.
pub open spec fn any_ref(vs: Seq<Value>) -> bool {
    exists|i: int| 0 <= i < vs.len() && #[trigger] vs[i] is Ref
}

/// Values without references have no heap entries.
pub proof fn lemma_no_refs(vs: Seq<Value>)
    requires
        !any_ref(vs),
    ensures
        values_refs(vs) == Seq::<HeapId>::empty(),
    decreases vs.len(),
{
    if vs.len() > 0 {
        assert(!(vs[vs.len() - 1] is Ref));
        assert(!any_ref(vs.drop_last())) by {
            if any_ref(vs.drop_last()) {
                let k = choose|k: int| 0 <= k < vs.drop_last().len() && #[trigger] vs.drop_last()[k] is Ref;
                assert(vs[k] is Ref);
            }
        }
        lemma_no_refs(vs.drop_last());
    }
}

/// A name that is either interned or held as a string.
#[derive(Debug)]
pub enum EitherStr {
    Interned(StringId),
    Heap(String),
}

impl From<StringId> for EitherStr {
    fn from(id: StringId) -> (r: EitherStr) {
        EitherStr::Interned(id)
    }
}

impl FromSpecImpl<StringId> for EitherStr {
    open spec fn obeys_from_spec() -> bool {
        true
    }

    open spec fn from_spec(id: StringId) -> EitherStr {
        EitherStr::Interned(id)
    }
}

impl From<StaticStrings> for EitherStr {
    fn from(s: StaticStrings) -> (r: EitherStr) {
        EitherStr::Interned(s.id())
    }
}

impl FromSpecImpl<StaticStrings> for EitherStr {
    open spec fn obeys_from_spec() -> bool {
        true
    }

    open spec fn from_spec(s: StaticStrings) -> EitherStr {
        EitherStr::Interned(s.spec_id())
    }
}

impl From<String> for EitherStr {
    fn from(s: String) -> (r: EitherStr) {
        EitherStr::Heap(s)
    }
}

impl FromSpecImpl<String> for EitherStr {
    open spec fn obeys_from_spec() -> bool {
        true
    }

    open spec fn from_spec(s: String) -> EitherStr {
        EitherStr::Heap(s)
    }
}

impl From<bool> for Value {
    fn from(b: bool) -> (r: Value) {
        Value::Bool(b)
    }
}

impl FromSpecImpl<bool> for Value {
    open spec fn obeys_from_spec() -> bool {
        true
    }

    open spec fn from_spec(b: bool) -> Value {
        Value::Bool(b)
    }
}

impl EitherStr {
    /// Whether the interned name exists.
    pub open spec fn ok(self, interns: Interns) -> bool {
        match self {
            EitherStr::Interned(id) => id.0 < interns.strings@.len(),
            EitherStr::Heap(_) => true,
        }
    }

    /// The text of the name.
    pub open spec fn text(self, interns: Interns) -> Seq<char> {
        match self {
            EitherStr::Interned(id) => interns.str_at(id),
            EitherStr::Heap(s) => s@,
        }
    }

    /// A copy of the name.
    pub fn duplicate(&self) -> (r: EitherStr)
        ensures
            r == *self,
    {
        match self {
            EitherStr::Interned(id) => EitherStr::Interned(*id),
            EitherStr::Heap(s) => EitherStr::Heap(s.clone()),
        }
    }

    /// The text of the name.
    pub fn as_str<'a>(&'a self, interns: &'a Interns) -> (r: &'a str)
        requires
            self.ok(*interns),
        ensures
            r@ == self.text(*interns),
    {
        match self {
            EitherStr::Interned(id) => interns.get_str(*id),
            EitherStr::Heap(s) => s.as_str(),
        }
    }

    /// Whether this is the interned name `target`: the same entry, or the same text.
    pub fn matches(&self, target: StringId, interns: &Interns) -> (r: bool)
        requires
            target.0 < interns.strings@.len(),
        ensures
            r == (match *self {
                EitherStr::Interned(id) => id == target,
                EitherStr::Heap(s) => s@ == interns.str_at(target),
            }),
    {
        match self {
            EitherStr::Interned(id) => *id == target,
            EitherStr::Heap(s) => same_text(s.as_str(), interns.get_str(target)),
        }
    }

    /// The interned string, if the name is interned.
    pub fn string_id(&self) -> (r: Option<StringId>)
        ensures
            r == (match *self {
                EitherStr::Interned(id) => Some(id),
                EitherStr::Heap(_) => None,
            }),
    {
        match self {
            EitherStr::Interned(id) => Some(*id),
            EitherStr::Heap(_) => None,
        }
    }

    /// The well-known name, if the name is interned and one of them.
    pub open spec fn well_known(self) -> Option<StaticStrings> {
        match self {
            EitherStr::Interned(id) => if exists|name: StaticStrings|
                #[trigger] name.spec_id() == id {
                Some(choose|name: StaticStrings| #[trigger] name.spec_id() == id)
            } else {
                None
            },
            EitherStr::Heap(_) => None,
        }
    }

    /// The well-known name, if the name is interned and one of them.
    pub fn static_string(&self) -> (r: Option<StaticStrings>)
        ensures
            match r {
                Some(name) => *self == EitherStr::Interned(name.spec_id()),
                None => forall|name: StaticStrings|
                    *self != EitherStr::Interned(#[trigger] name.spec_id()),
            },
            r == self.well_known(),
    {
        proof {
            lemma_names_differ();
        }
        match self {
            EitherStr::Interned(id) => StaticStrings::from_string_id(*id),
            EitherStr::Heap(_) => None,
        }
    }

    /// The text as a string of its own.
    pub fn into_string(self, interns: &Interns) -> (r: String)
        requires
            self.ok(*interns),
        ensures
            r@ == self.text(*interns),
    {
        match self {
            EitherStr::Interned(id) => interns.get_str(id).to_owned(),
            EitherStr::Heap(s) => s,
        }
    }

    /// The memory that the name itself takes: nothing when it is interned, and
    /// what its string has allocated otherwise.
    pub fn py_estimate_size(&self) -> (r: usize)
        ensures
            *self is Interned ==> r == 0,
            *self is Heap ==> vstd::utf8::encode_utf8(self->Heap_0@).len() <= r <= isize::MAX,
    {
        match self {
            EitherStr::Interned(_) => 0,
            EitherStr::Heap(s) => s.capacity(),
        }
    }
}

/// `String::capacity` is at least the length in bytes, and no allocation is larger
/// than `isize::MAX`; how much more than the length is left to the allocator.
pub assume_specification[ String::capacity ](s: &String) -> (r: usize)
    ensures
        vstd::utf8::encode_utf8(s@).len() <= r <= isize::MAX,
;

/// A bitwise operation.
#[derive(Clone, Copy, Debug, PartialEq, Eq, Structural)]
pub enum BitwiseOp {
    And,
    Or,
    Xor,
    LShift,
    RShift,
}

impl BitwiseOp {
    /// The operator symbol.
    pub open spec fn symbol(self) -> Seq<char> {
        match self {
            BitwiseOp::And => "&"@,
            BitwiseOp::Or => "|"@,
            BitwiseOp::Xor => "^"@,
            BitwiseOp::LShift => "<<"@,
            BitwiseOp::RShift => ">>"@,
        }
    }

    /// The operator symbol.
    pub fn as_str(self) -> (r: &'static str)
        ensures
            r@ == self.symbol(),
    {
        match self {
            BitwiseOp::And => "&",
            BitwiseOp::Or => "|",
            BitwiseOp::Xor => "^",
            BitwiseOp::LShift => "<<",
            BitwiseOp::RShift => ">>",
        }
    }
}

impl Marker {
    /// The type of the special object.
    pub open spec fn type_of(self) -> Type {
        match self.0 {
            StaticStrings::Stdout | StaticStrings::Stderr => Type::TextIOWrapper,
            StaticStrings::UnionType => Type::Type,
            _ => Type::SpecialForm,
        }
    }

    /// The type of the special object.
    pub fn py_type(self) -> (r: Type)
        ensures
            r == self.type_of(),
    {
        match self.0 {
            StaticStrings::Stdout | StaticStrings::Stderr => Type::TextIOWrapper,
            StaticStrings::UnionType => Type::Type,
            _ => Type::SpecialForm,
        }
    }

    /// The `repr` of the special object.
    pub open spec fn shown(self) -> Seq<char> {
        match self.0 {
            StaticStrings::Stdout => "<stdout>"@,
            StaticStrings::Stderr => "<stderr>"@,
            StaticStrings::UnionType => "<class 'typing.Union'>"@,
            name => "typing."@ + name.text(),
        }
    }

    /// Writes the `repr` of the special object.
    pub fn py_repr_fmt(self, out: &mut Vec<char>)
        ensures
            final(out)@ == old(out)@ + self.shown(),
    {
        match self.0 {
            StaticStrings::Stdout => crate::text::push_str(out, "<stdout>"),
            StaticStrings::Stderr => crate::text::push_str(out, "<stderr>"),
            StaticStrings::UnionType => crate::text::push_str(out, "<class 'typing.Union'>"),
            name => {
                crate::text::push_str(out, "typing.");
                crate::text::push_str(out, name.as_str());
                assert(out@ =~= old(out)@ + self.shown());
            },
        }
    }
}

} // verus!
