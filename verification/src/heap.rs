//! The arena that heap values live in.

use vstd::prelude::*;

use crate::intern::{Interns, StringId};
use crate::types::bytes::Bytes;
use crate::types::containers::{Dict, List, Range, SetStorage};
use crate::types::dataclass::Dataclass;
use crate::types::date::Date;
use crate::types::datetime::DateTime;
use crate::types::dict_view::{DictItemsView, DictKeysView, DictValuesView};
use crate::types::file::OpenFile;
use crate::types::long_int::LongInt;
use crate::types::namedtuple::NamedTuple;
use crate::types::path::Path;
use crate::types::py_type::Type;
use crate::types::re_match::ReMatch;
use crate::types::re_pattern::RePattern;
use crate::types::slice::Slice;
use crate::types::str::Str;
use crate::types::test_cm::TestContextManager;
use crate::types::timedelta::TimeDelta;
use crate::types::timezone::{offset_in_range, TimeZone};
use crate::types::tuple::Tuple;
use crate::value::{value_ok, value_refs, values_ok, values_refs, Value};

verus! {

/// Index of a heap entry.
#[derive(Clone, Copy, Debug, PartialEq, Eq, Structural)]
pub struct HeapId(pub usize);

impl HeapId {
    /// The position in the arena.
    pub fn index(self) -> (r: usize)
        ensures
            r == self.0,
    {
        self.0
    }
}

/// What a heap entry holds.
#[derive(Debug)]
pub enum HeapData {
    Str(Str),
    Bytes(Bytes),
    LongInt(LongInt),
    List(List),
    Tuple(Tuple),
    NamedTuple(NamedTuple),
    Dict(Dict),
    SetData(SetStorage),
    FrozenSet(SetStorage),
    Range(Range),
    Slice(Slice),
    Path(Path),
    Date(Date),
    DateTime(DateTime),
    TimeDelta(TimeDelta),
    TimeZone(TimeZone),
    OpenFile(OpenFile),
    RePattern(RePattern),
    ReMatch(ReMatch),
    Dataclass(Dataclass),
    DictKeysView(DictKeysView),
    DictItemsView(DictItemsView),
    DictValuesView(DictValuesView),
    TestContextManager(TestContextManager),
    ExtFunction(String),
    Module(StringId),
}

/// A heap entry and the number of references to it.
#[derive(Debug)]
pub struct HeapEntry {
    pub data: HeapData,
    pub refs: u64,
}

/// Whether the entries of a dictionary refer to what exists.
pub open spec fn entries_ok(pairs: Seq<(Value, Value)>, entries: nat, interns: Interns) -> bool {
    forall|i: int|
        0 <= i < pairs.len() ==> value_ok((#[trigger] pairs[i]).0, entries, interns) && value_ok(
            pairs[i].1,
            entries,
            interns,
        )
}

/// Whether an optional reference exists.
pub open spec fn id_ok(id: Option<HeapId>, entries: nat) -> bool {
    match id {
        Some(id) => id.0 < entries,
        None => true,
    }
}

/// Whether an entry is well-formed and refers only to what exists.
pub open spec fn data_ok(data: HeapData, entries: nat, interns: Interns) -> bool {
    match data {
        HeapData::List(list) => values_ok(list.items@, entries, interns),
        HeapData::Tuple(tuple) => tuple.wf() && values_ok(tuple.items@, entries, interns),
        HeapData::NamedTuple(tuple) => tuple.wf(interns) && values_ok(
            tuple.items@,
            entries,
            interns,
        ),
        HeapData::Dict(dict) => entries_ok(dict.entries@, entries, interns),
        HeapData::SetData(set) => values_ok(set.items@, entries, interns),
        HeapData::FrozenSet(set) => values_ok(set.items@, entries, interns),
        HeapData::Range(range) => range.step != 0,
        HeapData::Date(date) => date.wf(),
        HeapData::DateTime(datetime) => datetime.wf() && id_ok(datetime.tzinfo_ref, entries),
        HeapData::TimeDelta(delta) => delta.wf(),
        HeapData::TimeZone(tz) => offset_in_range(tz.offset_seconds as int),
        HeapData::OpenFile(file) => id_ok(file.buffer, entries),
        HeapData::Dataclass(instance) => instance.name.ok(interns) && entries_ok(
            instance.attrs.entries@,
            entries,
            interns,
        ),
        HeapData::DictKeysView(view) => view.dict_id.0 < entries,
        HeapData::DictItemsView(view) => view.dict_id.0 < entries,
        HeapData::DictValuesView(view) => view.dict_id.0 < entries,
        HeapData::Module(name) => name.0 < interns.strings@.len(),
        _ => true,
    }
}

/// What is well-formed stays so when the arena grows.
pub proof fn lemma_data_ok_grows(data: HeapData, small: nat, large: nat, interns: Interns)
    requires
        small <= large,
        data_ok(data, small, interns),
    ensures
        data_ok(data, large, interns),
{
}

/// The pairs of a dictionary as one sequence of values.
pub open spec fn pair_refs(pairs: Seq<(Value, Value)>) -> Seq<HeapId>
    decreases pairs.len(),
{
    if pairs.len() == 0 {
        Seq::empty()
    } else {
        pair_refs(pairs.drop_last()) + value_refs(pairs.last().0) + value_refs(pairs.last().1)
    }
}

/// An optional reference as a sequence of at most one.
pub open spec fn id_refs(id: Option<HeapId>) -> Seq<HeapId> {
    match id {
        Some(id) => seq![id],
        None => Seq::empty(),
    }
}

/// The entries that an entry refers to.
pub open spec fn data_refs(data: HeapData) -> Seq<HeapId> {
    match data {
        HeapData::List(list) => values_refs(list.items@),
        HeapData::Tuple(tuple) => values_refs(tuple.items@),
        HeapData::NamedTuple(tuple) => values_refs(tuple.items@),
        HeapData::Dict(dict) => pair_refs(dict.entries@),
        HeapData::SetData(set) => values_refs(set.items@),
        HeapData::FrozenSet(set) => values_refs(set.items@),
        HeapData::DateTime(datetime) => id_refs(datetime.tzinfo_ref),
        HeapData::OpenFile(file) => id_refs(file.buffer),
        HeapData::Dataclass(instance) => pair_refs(instance.attrs.entries@),
        HeapData::DictKeysView(view) => seq![view.dict_id],
        HeapData::DictItemsView(view) => seq![view.dict_id],
        HeapData::DictValuesView(view) => seq![view.dict_id],
        _ => Seq::empty(),
    }
}

impl HeapData {
    /// The type of the entry.
    pub open spec fn type_of(self) -> Type {
        match self {
            HeapData::Str(_) => Type::Str,
            HeapData::Bytes(_) => Type::Bytes,
            HeapData::LongInt(_) => Type::Int,
            HeapData::List(_) => Type::List,
            HeapData::Tuple(_) => Type::Tuple,
            HeapData::NamedTuple(_) => Type::NamedTuple,
            HeapData::Dict(_) => Type::Dict,
            HeapData::SetData(_) => Type::SetType,
            HeapData::FrozenSet(_) => Type::FrozenSet,
            HeapData::Range(_) => Type::Range,
            HeapData::Slice(_) => Type::Slice,
            HeapData::Path(_) => Type::Path,
            HeapData::Date(_) => Type::Date,
            HeapData::DateTime(_) => Type::DateTime,
            HeapData::TimeDelta(_) => Type::TimeDelta,
            HeapData::TimeZone(_) => Type::TimeZone,
            HeapData::OpenFile(file) => file.mode.object_type(),
            HeapData::RePattern(_) => Type::RePattern,
            HeapData::ReMatch(_) => Type::ReMatch,
            HeapData::Dataclass(_) => Type::Dataclass,
            HeapData::DictKeysView(_) => Type::DictKeys,
            HeapData::DictItemsView(_) => Type::DictItems,
            HeapData::DictValuesView(_) => Type::DictValues,
            HeapData::TestContextManager(_) => Type::TestContextManager,
            HeapData::ExtFunction(_) => Type::Function,
            HeapData::Module(_) => Type::Module,
        }
    }

    /// The type of the entry.
    pub fn py_type(&self) -> (r: Type)
        ensures
            r == self.type_of(),
    {
        match self {
            HeapData::Str(_) => Type::Str,
            HeapData::Bytes(_) => Type::Bytes,
            HeapData::LongInt(_) => Type::Int,
            HeapData::List(_) => Type::List,
            HeapData::Tuple(_) => Type::Tuple,
            HeapData::NamedTuple(_) => Type::NamedTuple,
            HeapData::Dict(_) => Type::Dict,
            HeapData::SetData(_) => Type::SetType,
            HeapData::FrozenSet(_) => Type::FrozenSet,
            HeapData::Range(_) => Type::Range,
            HeapData::Slice(_) => Type::Slice,
            HeapData::Path(_) => Type::Path,
            HeapData::Date(_) => Type::Date,
            HeapData::DateTime(_) => Type::DateTime,
            HeapData::TimeDelta(_) => Type::TimeDelta,
            HeapData::TimeZone(_) => Type::TimeZone,
            HeapData::OpenFile(file) => file.file_type(),
            HeapData::RePattern(_) => Type::RePattern,
            HeapData::ReMatch(_) => Type::ReMatch,
            HeapData::Dataclass(_) => Type::Dataclass,
            HeapData::DictKeysView(_) => Type::DictKeys,
            HeapData::DictItemsView(_) => Type::DictItems,
            HeapData::DictValuesView(_) => Type::DictValues,
            HeapData::TestContextManager(_) => Type::TestContextManager,
            HeapData::ExtFunction(_) => Type::Function,
            HeapData::Module(_) => Type::Module,
        }
    }

    /// Puts the entries that this entry refers to on the stack.
    pub fn py_dec_ref_ids(&self, stack: &mut Vec<HeapId>)
        requires
            self matches HeapData::Tuple(tuple) ==> tuple.wf(),
            self matches HeapData::NamedTuple(tuple) ==> tuple.contains_refs
                == crate::value::any_ref(tuple.items@),
        ensures
            final(stack)@ == old(stack)@ + data_refs(*self),
    {
        match self {
            HeapData::List(list) => crate::value::push_value_refs(&list.items, stack),
            HeapData::Tuple(tuple) => tuple.py_dec_ref_ids(stack),
            HeapData::NamedTuple(tuple) => tuple.py_dec_ref_ids(stack),
            HeapData::Dict(dict) => push_pair_refs(&dict.entries, stack),
            HeapData::SetData(set) => crate::value::push_value_refs(&set.items, stack),
            HeapData::FrozenSet(set) => crate::value::push_value_refs(&set.items, stack),
            HeapData::DateTime(datetime) => push_id(datetime.tzinfo_ref, stack),
            HeapData::OpenFile(file) => file.py_dec_ref_ids(stack),
            HeapData::Dataclass(instance) => push_pair_refs(&instance.attrs.entries, stack),
            HeapData::DictKeysView(view) => push_id(Some(view.dict_id), stack),
            HeapData::DictItemsView(view) => push_id(Some(view.dict_id), stack),
            HeapData::DictValuesView(view) => push_id(Some(view.dict_id), stack),
            _ => {
                assert(stack@ =~= old(stack)@ + data_refs(*self));
            },
        }
    }
}

fn push_id(id: Option<HeapId>, stack: &mut Vec<HeapId>)
    ensures
        final(stack)@ == old(stack)@ + id_refs(id),
{
    match id {
        Some(id) => {
            stack.push(id);
            assert(stack@ =~= old(stack)@ + seq![id]);
        },
        None => {
            assert(stack@ =~= old(stack)@ + Seq::<HeapId>::empty());
        },
    }
}

fn push_pair_refs(pairs: &Vec<(Value, Value)>, stack: &mut Vec<HeapId>)
    ensures
        final(stack)@ == old(stack)@ + pair_refs(pairs@),
{
    for i in 0..pairs.len()
        invariant
            stack@ == old(stack)@ + pair_refs(pairs@.take(i as int)),
    {
        pairs[i].0.py_dec_ref_ids(stack);
        pairs[i].1.py_dec_ref_ids(stack);
        proof {
            assert(pairs@.take(i + 1).drop_last() =~= pairs@.take(i as int));
            assert(stack@ =~= old(stack)@ + pair_refs(pairs@.take(i + 1)));
        }
    }
    assert(pairs@.take(pairs@.len() as int) =~= pairs@);
}

/// One more reference; a count at its limit stays there for good.
pub open spec fn incremented(refs: u64) -> u64 {
    if refs == u64::MAX {
        refs
    } else {
        (refs + 1) as u64
    }
}

/// One reference less; a count at its limit stays there for good.
pub open spec fn decremented(refs: u64) -> u64 {
    if refs == u64::MAX || refs == 0 {
        refs
    } else {
        (refs - 1) as u64
    }
}

/// The entries after one more reference to what the value refers to.
pub open spec fn with_ref(entries: Seq<HeapEntry>, v: Value) -> Seq<HeapEntry> {
    match v {
        Value::Ref(id) => if id.0 < entries.len() {
            entries.update(
                id.0 as int,
                HeapEntry {
                    data: entries[id.0 as int].data,
                    refs: incremented(entries[id.0 as int].refs),
                },
            )
        } else {
            entries
        },
        _ => entries,
    }
}

/// The entries after one more reference to what each value refers to.
pub open spec fn with_refs(entries: Seq<HeapEntry>, vs: Seq<Value>) -> Seq<HeapEntry>
    decreases vs.len(),
{
    if vs.len() == 0 {
        entries
    } else {
        with_ref(with_refs(entries, vs.drop_last()), vs.last())
    }
}

/// Counting references changes no data.
pub proof fn lemma_with_refs_data(entries: Seq<HeapEntry>, vs: Seq<Value>)
    ensures
        with_refs(entries, vs).len() == entries.len(),
        forall|i: int|
            0 <= i < entries.len() ==> (#[trigger] with_refs(entries, vs)[i]).data
                == entries[i].data,
    decreases vs.len(),
{
    if vs.len() > 0 {
        lemma_with_refs_data(entries, vs.drop_last());
    }
}

/// The entries after one reference less to an entry.
pub open spec fn without_ref(entries: Seq<HeapEntry>, id: HeapId) -> Seq<HeapEntry> {
    entries.update(
        id.0 as int,
        HeapEntry {
            data: entries[id.0 as int].data,
            refs: decremented(entries[id.0 as int].refs),
        },
    )
}

/// The arena: its entries and the limits that are set for it.
#[derive(Debug)]
pub struct Heap {
    pub entries: Vec<HeapEntry>,
    /// How many entries there may be.
    pub max_entries: usize,
    /// How large a single result may be, in bytes.
    pub max_bytes: usize,
    /// How deeply operations may recurse into containers.
    pub max_depth: usize,
}

/// The entry of the empty tuple, which is shared.
pub const EMPTY_TUPLE: usize = 0;

/// The entry of the UTC timezone, which is shared.
pub const UTC_TIMEZONE: usize = 1;

impl Heap {
    /// How many more entries there may be.
    pub open spec fn room(self) -> int {
        self.max_entries - self.entries@.len()
    }

    /// What an entry holds.
    pub open spec fn data(self, id: HeapId) -> HeapData {
        self.entries@[id.0 as int].data
    }

    /// Whether the limits are the same as those of another arena.
    pub open spec fn same_limits(self, other: Heap) -> bool {
        &&& self.max_entries == other.max_entries
        &&& self.max_bytes == other.max_bytes
        &&& self.max_depth == other.max_depth
    }

    /// Whether the shared entries are in place and every entry is well-formed.
    pub open spec fn wf(self, interns: Interns) -> bool {
        &&& self.entries@.len() >= 2
        &&& self.data(HeapId(EMPTY_TUPLE)) matches HeapData::Tuple(tuple) && tuple.items@.len() == 0
        &&& self.data(HeapId(UTC_TIMEZONE)) matches HeapData::TimeZone(tz) && tz.offset_seconds == 0
            && tz.name is None
        &&& forall|i: int|
            0 <= i < self.entries@.len() ==> data_ok(
                (#[trigger] self.entries@[i]).data,
                self.entries@.len(),
                interns,
            )
    }

    /// What an entry holds.
    pub fn get(&self, id: HeapId) -> (r: &HeapData)
        requires
            id.0 < self.entries@.len(),
        ensures
            *r == self.data(id),
    {
        &self.entries[id.0].data
    }

    /// The number of references to an entry.
    pub fn refs(&self, id: HeapId) -> (r: u64)
        requires
            id.0 < self.entries@.len(),
        ensures
            r == self.entries@[id.0 as int].refs,
    {
        self.entries[id.0].refs
    }

    /// Counts one more reference to an entry.
    pub fn inc_ref(&mut self, id: HeapId)
        requires
            id.0 < old(self).entries@.len(),
        ensures
            final(self).same_limits(*old(self)),
            final(self).entries@ == with_ref(old(self).entries@, Value::Ref(id)),
    {
        let refs: u64 = self.entries[id.0].refs;
        let more: u64 = if refs == u64::MAX {
            refs
        } else {
            refs + 1
        };
        self.entries[id.0].refs = more;
        assert(self.entries@ =~= with_ref(old(self).entries@, Value::Ref(id)));
    }
}

} // verus!
