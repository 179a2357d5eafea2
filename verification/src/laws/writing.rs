//! What `repr` and `str` write, what values hash to, and what their types are called.

use vstd::prelude::*;

use crate::args::Raised;
use crate::call::CallResult;
use crate::decimal::{digit_char, int_digits, nat_digits};
use crate::exception::{RunError, RunResult};
use crate::heap::HeapData;
use crate::laws::equality::entries_at;
use crate::laws::results::{list_items, tuple_items};
use crate::types::file_mode::{parsed_mode, FileMode};
use crate::types::str_literal::{denoted, lemma_repr_denotes};
use crate::types::str_repr::repr_text;
use crate::value::Value;
use crate::value_eq::told;
use crate::value_hash::{is_key, HashValue};
use crate::value_repr::{glyphs, inline_repr, repr_items, separated, Glyph};
use crate::value_with::{entered, left};
use crate::vm::VM;

verus! {

/// Whether what was written is this text.
pub open spec fn spells(out: Seq<Glyph>, t: Seq<char>) -> bool {
    &&& out.len() == t.len()
    &&& forall|i: int| 0 <= i < out.len() ==> #[trigger] out[i] == Glyph::Code(t[i] as u32)
}

/// Whether writing gave these glyphs, or the error that is said to come.
pub open spec fn written(r: RunResult<Vec<Glyph>>, e: Result<Seq<Glyph>, Raised>) -> bool {
    match e {
        Ok(text) => r matches Ok(out) && out@ == text,
        Err(x) => crate::args::raises(r, x),
    }
}

/// The glyphs of a text spell it.
pub proof fn lemma_spells(t: Seq<char>)
    ensures
        spells(glyphs(t), t),
    decreases t.len(),
{
    if t.len() > 0 {
        lemma_spells(t.drop_last());
        assert forall|i: int| 0 <= i < glyphs(t).len() implies #[trigger] glyphs(t)[i]
            == Glyph::Code(t[i] as u32) by {
            if i < t.len() - 1 {
                assert(glyphs(t)[i] == glyphs(t.drop_last())[i]);
                assert(t.drop_last()[i] == t[i]);
            }
        }
    }
}

/// The number that decimal digits write.
pub open spec fn digits_value(t: Seq<char>) -> int
    decreases t.len(),
{
    if t.len() == 0 {
        0
    } else {
        10 * digits_value(t.drop_last()) + (t.last() as int - '0' as int)
    }
}

/// Whether a text is decimal digits only.
pub open spec fn all_digits(t: Seq<char>) -> bool {
    forall|i: int| 0 <= i < t.len() ==> '0' <= #[trigger] t[i] <= '9'
}

/// Whether a text writes an integer: a minus sign where it is negative, and then its
/// digits without zeros in front.
pub open spec fn writes_integer(t: Seq<char>, n: int) -> bool {
    let body = if n < 0 {
        t.skip(1)
    } else {
        t
    };
    &&& n < 0 ==> t.len() > 0 && t[0] == '-'
    &&& body.len() > 0 && all_digits(body)
    &&& body.len() > 1 ==> body[0] != '0'
    &&& digits_value(body) == (if n < 0 {
        -n
    } else {
        n
    })
}

proof fn lemma_nat_digits(n: nat)
    ensures
        nat_digits(n).len() > 0,
        all_digits(nat_digits(n)),
        digits_value(nat_digits(n)) == n,
        n > 0 ==> nat_digits(n)[0] != '0',
    decreases n,
{
    let t = nat_digits(n);
    if n < 10 {
        assert(t.drop_last() =~= Seq::empty());
        assert(digits_value(t.drop_last()) == 0);
        assert(t.last() == digit_char(n as int));
    } else {
        lemma_nat_digits(n / 10);
        let head = nat_digits(n / 10);
        assert(t.drop_last() =~= head);
        assert(t.last() == digit_char((n % 10) as int));
        assert forall|i: int| 0 <= i < t.len() implies '0' <= #[trigger] t[i] <= '9' by {
            if i < head.len() {
                assert(t[i] == head[i]);
            }
        }
        assert(t[0] == head[0]);
    }
}

/// The digits of an integer write it.
pub proof fn lemma_int_digits(n: int)
    ensures
        writes_integer(int_digits(n), n),
{
    if n < 0 {
        lemma_nat_digits((-n) as nat);
        assert(int_digits(n).skip(1) =~= nat_digits((-n) as nat));
    } else {
        lemma_nat_digits(n as nat);
        if n == 0 {
            assert(nat_digits(0).len() == 1);
        }
    }
}

/// `repr` and `str` of an integer write it in decimal digits.
pub proof fn lemma_integer_written(
    vm: VM,
    v: Value,
    n: int,
    r: RunResult<Vec<Glyph>>,
    s: RunResult<Vec<Glyph>>,
)
    requires
        v is Int || v is Ref,
        vm.integer_of(v) == Some(n),
        written(r, vm.value_repr(v)),
        written(s, vm.value_str(v)),
        r is Ok,
        s is Ok,
    ensures
        exists|t: Seq<char>| #[trigger]
            writes_integer(t, n) && spells(r->Ok_0@, t) && spells(s->Ok_0@, t),
{
    let t = int_digits(n);
    lemma_int_digits(n);
    lemma_spells(t);
    assert(Seq::<Glyph>::empty() + glyphs(t) =~= glyphs(t));
}

/// `str` of a text is the text, and `repr` of it a literal that denotes it.
pub proof fn lemma_text_written(
    vm: VM,
    v: Value,
    text: Seq<char>,
    r: RunResult<Vec<Glyph>>,
    s: RunResult<Vec<Glyph>>,
)
    requires
        vm.text_of(v) == Some(text),
        written(r, vm.value_repr(v)),
        written(s, vm.value_str(v)),
    ensures
        s is Ok && spells(s->Ok_0@, text),
        r is Ok && exists|t: Seq<char>| #[trigger]
            spells(r->Ok_0@, t) && denoted(t) == Some(text),
{
    lemma_spells(text);
    let t = repr_text(text);
    lemma_spells(t);
    lemma_repr_denotes(text);
    assert(Seq::<Glyph>::empty() + glyphs(t) =~= glyphs(t));
    assert(r is Ok && spells(r->Ok_0@, t));
}

/// Truth values and `None` are written by their names.
pub proof fn lemma_names_written(vm: VM, v: Value, r: RunResult<Vec<Glyph>>)
    requires
        written(r, vm.value_repr(v)),
    ensures
        v == Value::Bool(true) ==> r is Ok && spells(r->Ok_0@, "True"@),
        v == Value::Bool(false) ==> r is Ok && spells(r->Ok_0@, "False"@),
        v == Value::PyNone ==> r is Ok && spells(r->Ok_0@, "None"@),
{
    lemma_spells("True"@);
    lemma_spells("False"@);
    lemma_spells("None"@);
    assert(Seq::<Glyph>::empty() + glyphs("True"@) =~= glyphs("True"@));
    assert(Seq::<Glyph>::empty() + glyphs("False"@) =~= glyphs("False"@));
    assert(Seq::<Glyph>::empty() + glyphs("None"@) =~= glyphs("None"@));
}

/// The glyphs of values one after the other, with a comma and a space between each
/// two.
pub open spec fn comma_listed(parts: Seq<Seq<Glyph>>) -> Seq<Glyph>
    decreases parts.len(),
{
    if parts.len() == 0 {
        Seq::empty()
    } else if parts.len() == 1 {
        parts[0]
    } else {
        comma_listed(parts.drop_last()) + glyphs(", "@) + parts.last()
    }
}

/// Whether values outside the heap are written like this.
pub open spec fn written_as(vm: VM, xs: Seq<Value>, parts: Seq<Seq<Glyph>>) -> bool {
    &&& xs.len() == parts.len()
    &&& forall|i: int|
        0 <= i < xs.len() ==> !(#[trigger] xs[i] is Ref) && vm.value_repr(xs[i]) == Ok::<
            Seq<Glyph>,
            Raised,
        >(parts[i])
}

/// The items of a sequence are written one after the other.
pub proof fn lemma_items_written(
    vm: VM,
    xs: Seq<Value>,
    parts: Seq<Seq<Glyph>>,
    i: int,
    open: Seq<Glyph>,
    seen: Set<usize>,
    fuel: nat,
)
    requires
        written_as(vm, xs, parts),
        0 <= i <= xs.len(),
    ensures
        repr_items(vm, xs, i, open + comma_listed(parts.take(i)), seen, fuel) == Ok::<
            Seq<Glyph>,
            Raised,
        >(open + comma_listed(parts)),
    decreases xs.len() - i,
{
    if i < xs.len() {
        let out = open + comma_listed(parts.take(i));
        assert(!(xs[i] is Ref) && vm.value_repr(xs[i]) == Ok::<Seq<Glyph>, Raised>(parts[i]));
        assert(Seq::<Glyph>::empty() + inline_repr(vm, xs[i])->Ok_0 =~= inline_repr(
            vm,
            xs[i],
        )->Ok_0);
        assert(inline_repr(vm, xs[i]) == Ok::<Seq<Glyph>, Raised>(parts[i]));
        assert(crate::value_repr::repr_value(vm, xs[i], separated(out, i), seen, fuel) == Ok::<
            Seq<Glyph>,
            Raised,
        >(separated(out, i) + parts[i]));
        assert(parts.take(i + 1).drop_last() =~= parts.take(i));
        assert(parts.take(i + 1).last() == parts[i]);
        if i == 0 {
            assert(parts.take(0) =~= Seq::empty());
            assert(out + parts[0] =~= open + comma_listed(parts.take(1)));
        } else {
            assert(separated(out, i) + parts[i] =~= open + comma_listed(parts.take(i + 1)));
        }
        lemma_items_written(vm, xs, parts, i + 1, open, seen, fuel);
    } else {
        assert(parts.take(i) =~= parts);
    }
}

/// A list of values outside the heap is written in brackets, and a tuple in
/// parentheses, with a comma after a single item.
pub proof fn lemma_sequence_written(
    vm: VM,
    v: Value,
    xs: Seq<Value>,
    parts: Seq<Seq<Glyph>>,
    r: RunResult<Vec<Glyph>>,
)
    requires
        list_items(vm, v) == Some(xs) || tuple_items(vm, v) == Some(xs),
        vm.heap.max_depth > 0,
        written_as(vm, xs, parts),
        written(r, vm.value_repr(v)),
    ensures
        list_items(vm, v) is Some ==> r is Ok && r->Ok_0@ == glyphs("["@) + comma_listed(parts)
            + glyphs("]"@),
        tuple_items(vm, v) is Some && xs.len() != 1 ==> r is Ok && r->Ok_0@ == glyphs("("@)
            + comma_listed(parts) + glyphs(")"@),
        tuple_items(vm, v) is Some && xs.len() == 1 ==> r is Ok && r->Ok_0@ == glyphs("("@)
            + comma_listed(parts) + glyphs(",)"@),
{
    let fuel = (vm.heap.max_depth - 1) as nat;
    let seen = Set::<usize>::empty().insert(v->Ref_0.0);
    let none = Seq::<Glyph>::empty();
    assert(parts.take(0) =~= Seq::empty());
    lemma_items_written(vm, xs, parts, 0, glyphs("["@), seen, fuel);
    lemma_items_written(vm, xs, parts, 0, glyphs("("@), seen, fuel);
    assert(none + glyphs("["@) =~= glyphs("["@));
    assert(none + glyphs("("@) =~= glyphs("("@));
    assert(glyphs("["@) + comma_listed(parts.take(0)) =~= glyphs("["@));
    assert(glyphs("("@) + comma_listed(parts.take(0)) =~= glyphs("("@));
}

/// A date is written with its year, month and day in this order, each in decimal
/// digits, and `str` writes it so that they can be read from the digits.
pub proof fn lemma_date_written(
    vm: VM,
    v: Value,
    r: RunResult<Vec<Glyph>>,
    s: RunResult<Vec<Glyph>>,
)
    requires
        vm.wf(),
        vm.ok(v),
        crate::laws::dates::date_at(vm, v) is Some,
        written(r, vm.value_repr(v)),
        written(s, vm.value_str(v)),
    ensures
        ({
            let date = crate::laws::dates::date_at(vm, v)->0;
            &&& r is Ok && exists|y: Seq<char>, m: Seq<char>, d: Seq<char>|
                {
                    &&& #[trigger] writes_integer(y, date.year as int)
                    &&& #[trigger] writes_integer(m, date.month as int)
                    &&& #[trigger] writes_integer(d, date.day as int)
                    &&& spells(
                        r->Ok_0@,
                        "datetime.date("@ + y + ", "@ + m + ", "@ + d + ")"@,
                    )
                }
            &&& s is Ok && exists|t: Seq<char>| #[trigger]
                spells(s->Ok_0@, t) && crate::calendar::written_date(vstd::utf8::encode_utf8(t))
                    == Some((date.year as int, date.month as int, date.day as int))
        }),
{
    let date = crate::laws::dates::date_at(vm, v)->0;
    crate::value_add::lemma_entry_ok(vm, v->Ref_0);
    let y = int_digits(date.year as int);
    let m = int_digits(date.month as int);
    let d = int_digits(date.day as int);
    lemma_int_digits(date.year as int);
    lemma_int_digits(date.month as int);
    lemma_int_digits(date.day as int);
    let t = crate::types::date::date_repr(date);
    lemma_spells(t);
    assert(Seq::<Glyph>::empty() + glyphs(t) =~= glyphs(t));
    let iso = crate::types::date::iso_text(
        date.year as nat,
        date.month as nat,
        date.day as nat,
    );
    lemma_spells(iso);
    crate::types::date::lemma_written_date(date);
    assert(s is Ok && spells(s->Ok_0@, iso));
}

/// Keys that are equal have the same hash, as far as they have one.
pub proof fn lemma_equal_hash(
    vm: VM,
    a: Value,
    b: Value,
    same: RunResult<bool>,
    r: RunResult<Option<HashValue>>,
    s: RunResult<Option<HashValue>>,
)
    requires
        is_key(vm, a, vm.heap.max_depth as nat),
        is_key(vm, b, vm.heap.max_depth as nat),
        told(same, vm.values_equal(a, b)),
        hashed(vm, a, r),
        hashed(vm, b, s),
        same == Ok::<bool, RunError>(true),
        r matches Ok(Some(_)),
        s matches Ok(Some(_)),
    ensures
        r == s,
{
    crate::value_hash::lemma_equal_keys_hash_alike(vm, a, b);
}

/// Whether a result is the hash of a value.
pub open spec fn hashed(vm: VM, v: Value, r: RunResult<Option<HashValue>>) -> bool {
    told(
        r,
        match vm.value_hash(v) {
            Ok(Some(h)) => Ok(Some(HashValue(h))),
            Ok(None) => Ok(None),
            Err(e) => Err(e),
        },
    )
}

/// Lists, dictionaries and sets have no hash; a small integer that is not negative, and
/// a truth value as the integer that it counts as, is its own.
pub proof fn lemma_hashes(vm: VM, v: Value, r: RunResult<Option<HashValue>>)
    requires
        hashed(vm, v, r),
    ensures
        list_items(vm, v) is Some || entries_at(vm, v) is Some || (vm.data_of(v) matches Some(
            HeapData::SetData(_),
        )) ==> r == Ok::<Option<HashValue>, RunError>(None),
        v is Int || v is Bool ==> vm.integer_of(v)->0 >= 0 ==> r == Ok::<
            Option<HashValue>,
            RunError,
        >(Some(HashValue(vm.integer_of(v)->0 as u64))),
{
}

/// The types of values by their names.
pub proof fn lemma_type_names(vm: VM, v: Value, t: crate::types::py_type::Type)
    requires
        t == vm.type_of(v),
    ensures
        v is Int ==> t.text() == "int"@,
        v is Bool ==> t.text() == "bool"@,
        v is Float ==> t.text() == "float"@,
        v is PyNone ==> t.text() == "NoneType"@,
        vm.text_of(v) is Some ==> t.text() == "str"@,
        vm.bytes_of(v) is Some ==> t.text() == "bytes"@,
        list_items(vm, v) is Some ==> t.text() == "list"@,
        tuple_items(vm, v) is Some ==> t.text() == "tuple"@,
        entries_at(vm, v) is Some ==> t.text() == "dict"@,
        v is Ref && vm.integer_of(v) is Some ==> t.text() == "int"@,
        crate::laws::dates::date_at(vm, v) is Some ==> t.text() == "datetime.date"@,
        crate::laws::dates::datetime_at(vm, v) is Some ==> t.text() == "datetime.datetime"@,
        crate::laws::dates::duration_at(vm, v) is Some ==> t.text() == "datetime.timedelta"@,
{
}

/// A file gives itself when it is entered, unless it is closed, and is closed when it
/// is left.
pub proof fn lemma_with_file(
    before: VM,
    mid: VM,
    end: VM,
    after: VM,
    v: Value,
    exc: Option<crate::heap::HeapId>,
    r: RunResult<CallResult>,
    s: RunResult<CallResult>,
)
    requires
        before.ok(v),
        end.ok(v),
        before.data_of(v) matches Some(HeapData::OpenFile(_)),
        end.data_of(v) matches Some(HeapData::OpenFile(_)),
        entered(before, mid, r, v),
        left(end, after, s, v, exc),
    ensures
        before.data_of(v)->0->OpenFile_0.closed ==> r is Err,
        !before.data_of(v)->0->OpenFile_0.closed ==> r == Ok::<CallResult, RunError>(
            CallResult::Value(v),
        ),
        s == Ok::<CallResult, RunError>(CallResult::Value(Value::PyNone)),
        after.data_of(v) matches Some(HeapData::OpenFile(file)) && file.closed,
{
}

/// A mode that is accepted has one of `r`, `w` and `a` at most: with `w` or `a` the
/// file is written and not read, otherwise read and not written; `a` appends, `w`
/// empties, and `b` makes it binary.
pub proof fn lemma_modes(mode: Seq<char>, m: FileMode)
    requires
        parsed_mode(mode) == Ok::<FileMode, Seq<char>>(m),
    ensures
        m.binary() == mode.contains('b'),
        m.can_write() == (mode.contains('w') || mode.contains('a')),
        m.can_read() == !m.can_write(),
        mode.contains('w') ==> m.truncates(),
        mode.contains('a') && !mode.contains('w') ==> m.appends(),
        !(mode.contains('b') && mode.contains('t')),
{
}

} // verus!
