//! How named tuples, instances, views, matches and files are written, and how templates
//! of replacements are read.

use vstd::prelude::*;

use crate::args::Raised;
use crate::decimal::int_digits;
use crate::exception::RunResult;
use crate::heap::HeapData;
use crate::laws::writing::{
    comma_listed, lemma_int_digits, lemma_items_written, lemma_spells, spells, writes_integer,
    written, written_as,
};
use crate::laws::written_forms::lemma_inline;
use crate::text::lemma_first_pos;
use crate::types::dataclass::named_entry;
use crate::types::re_match::{match_repr, whole_span};
use crate::types::re_template::engine_template;
use crate::types::str_literal::{denoted, lemma_repr_denotes};
use crate::types::str_methods::{dict_entries, firsts, seconds};
use crate::types::str_repr::repr_text;
use crate::utf8::{byte_offset, lemma_place_of_offset, text_between};
use crate::value::Value;
use crate::value_repr::{
    file_repr, glyphs, instance_fields, repr_fields, separated, tuple_fields, Glyph,
};
use crate::vm::VM;

verus! {

/// Whether fields whose values are outside the heap are written like this.
pub open spec fn fields_written(
    vm: VM,
    fields: Seq<(Seq<char>, Option<Value>)>,
    parts: Seq<Seq<Glyph>>,
) -> bool {
    &&& fields.len() == parts.len()
    &&& forall|i: int|
        0 <= i < fields.len() ==> field_written(vm, #[trigger] fields[i].0, fields[i].1, parts[i])
}

/// Whether a field is written like this: its name, an equals sign and its value, or a
/// question mark where it has none.
pub open spec fn field_written(vm: VM, name: Seq<char>, v: Option<Value>, part: Seq<Glyph>) -> bool {
    match v {
        Some(v) => {
            &&& !(v is Ref)
            &&& vm.value_repr(v) matches Ok(shown)
            &&& part == glyphs(name) + glyphs("="@) + shown
        },
        None => part == glyphs(name) + glyphs("="@) + glyphs("<?>"@),
    }
}

proof fn lemma_fields_written(
    vm: VM,
    fields: Seq<(Seq<char>, Option<Value>)>,
    parts: Seq<Seq<Glyph>>,
    i: int,
    open: Seq<Glyph>,
    seen: Set<usize>,
    fuel: nat,
)
    requires
        fields_written(vm, fields, parts),
        0 <= i <= fields.len(),
    ensures
        repr_fields(vm, fields, i, open + comma_listed(parts.take(i)), seen, fuel) == Ok::<
            Seq<Glyph>,
            Raised,
        >(open + comma_listed(parts)),
    decreases fields.len() - i,
{
    if i < fields.len() {
        let out = open + comma_listed(parts.take(i));
        assert(field_written(vm, fields[i].0, fields[i].1, parts[i]));
        let start = separated(out, i);
        let named = start + glyphs(fields[i].0) + glyphs("="@);
        match fields[i].1 {
            Some(v) => {
                lemma_inline(vm, v, named, seen, fuel);
                assert(named + vm.value_repr(v)->Ok_0 =~= start + parts[i]);
            },
            None => {
                assert(named + glyphs("<?>"@) =~= start + parts[i]);
            },
        }
        assert(parts.take(i + 1).drop_last() =~= parts.take(i));
        assert(parts.take(i + 1).last() == parts[i]);
        if i == 0 {
            assert(parts.take(0) =~= Seq::empty());
            assert(start + parts[0] =~= open + comma_listed(parts.take(1)));
        } else {
            assert(start + parts[i] =~= open + comma_listed(parts.take(i + 1)));
        }
        lemma_fields_written(vm, fields, parts, i + 1, open, seen, fuel);
    } else {
        assert(parts.take(i) =~= parts);
    }
}

/// A named tuple is written with its name and, in brackets, its fields in their order.
pub proof fn lemma_named_tuple_written(
    vm: VM,
    v: Value,
    parts: Seq<Seq<Glyph>>,
    r: RunResult<Vec<Glyph>>,
)
    requires
        vm.data_of(v) matches Some(HeapData::NamedTuple(_)),
        vm.heap.max_depth > 0,
        ({
            let t = vm.data_of(v)->0->NamedTuple_0;
            &&& parts.len() == t.items@.len()
            &&& forall|i: int|
                0 <= i < parts.len() ==> field_written(
                    vm,
                    t.field_names@[i].text(vm.interns),
                    Some(t.items@[i]),
                    #[trigger] parts[i],
                )
        }),
        written(r, vm.value_repr(v)),
    ensures
        r is Ok && r->Ok_0@ == glyphs(vm.data_of(v)->0->NamedTuple_0.name.text(vm.interns))
            + glyphs("("@) + comma_listed(parts) + glyphs(")"@),
{
    let t = vm.data_of(v)->0->NamedTuple_0;
    let seen = Set::<usize>::empty().insert(v->Ref_0.0);
    let name = glyphs(t.name.text(vm.interns));
    let fields = tuple_fields(vm, t);
    assert forall|i: int| 0 <= i < fields.len() implies field_written(
        vm,
        #[trigger] fields[i].0,
        fields[i].1,
        parts[i],
    ) by {}
    let open = name + glyphs("("@);
    lemma_fields_written(vm, fields, parts, 0, open, seen, (vm.heap.max_depth - 1) as nat);
    assert(parts.take(0) =~= Seq::empty());
    assert(Seq::<Glyph>::empty() + name =~= name);
    assert(open + comma_listed(parts.take(0)) =~= open);
}

/// An instance is written with the name of its class and, in brackets, its declared
/// fields in their order.
pub proof fn lemma_instance_written(
    vm: VM,
    v: Value,
    parts: Seq<Seq<Glyph>>,
    r: RunResult<Vec<Glyph>>,
)
    requires
        vm.data_of(v) matches Some(HeapData::Dataclass(_)),
        vm.heap.max_depth > 0,
        ({
            let d = vm.data_of(v)->0->Dataclass_0;
            &&& parts.len() == d.field_names@.len()
            &&& forall|i: int|
                0 <= i < parts.len() ==> field_written(
                    vm,
                    d.field_names@[i]@,
                    named_entry(vm, d.attrs.entries@, d.field_names@[i]@),
                    #[trigger] parts[i],
                )
        }),
        written(r, vm.value_repr(v)),
    ensures
        r is Ok && r->Ok_0@ == glyphs(vm.data_of(v)->0->Dataclass_0.name.text(vm.interns)) + glyphs(
            "("@,
        ) + comma_listed(parts) + glyphs(")"@),
{
    let d = vm.data_of(v)->0->Dataclass_0;
    let seen = Set::<usize>::empty().insert(v->Ref_0.0);
    let name = glyphs(d.name.text(vm.interns));
    let fields = instance_fields(vm, d);
    assert forall|i: int| 0 <= i < fields.len() implies field_written(
        vm,
        #[trigger] fields[i].0,
        fields[i].1,
        parts[i],
    ) by {}
    let open = name + glyphs("("@);
    lemma_fields_written(vm, fields, parts, 0, open, seen, (vm.heap.max_depth - 1) as nat);
    assert(parts.take(0) =~= Seq::empty());
    assert(Seq::<Glyph>::empty() + name =~= name);
    assert(open + comma_listed(parts.take(0)) =~= open);
}

/// The views of the keys and of the values of a dictionary are written with their name
/// and, in square brackets, what they show in the order of the entries.
pub proof fn lemma_view_written(
    vm: VM,
    v: Value,
    entries: Seq<(Value, Value)>,
    shown: Seq<Value>,
    parts: Seq<Seq<Glyph>>,
    keys: bool,
    r: RunResult<Vec<Glyph>>,
)
    requires
        if keys {
            vm.data_of(v) matches Some(HeapData::DictKeysView(view)) && dict_entries(
                vm,
                view.dict_id,
            ) == entries
        } else {
            vm.data_of(v) matches Some(HeapData::DictValuesView(view)) && dict_entries(
                vm,
                view.dict_id,
            ) == entries
        },
        shown.len() == entries.len(),
        forall|i: int|
            0 <= i < shown.len() ==> #[trigger] shown[i] == if keys {
                entries[i].0
            } else {
                entries[i].1
            },
        written_as(vm, shown, parts),
        vm.heap.max_depth > 0,
        written(r, vm.value_repr(v)),
    ensures
        r is Ok && r->Ok_0@ == glyphs(
            if keys {
                "dict_keys(["@
            } else {
                "dict_values(["@
            },
        ) + comma_listed(parts) + glyphs("])"@),
{
    let open = glyphs(
        if keys {
            "dict_keys(["@
        } else {
            "dict_values(["@
        },
    );
    let seen = Set::<usize>::empty().insert(v->Ref_0.0);
    if keys {
        assert(firsts(entries) =~= shown);
    } else {
        assert(seconds(entries) =~= shown);
    }
    lemma_items_written(vm, shown, parts, 0, open, seen, (vm.heap.max_depth - 1) as nat);
    assert(parts.take(0) =~= Seq::empty());
    assert(Seq::<Glyph>::empty() + open =~= open);
    assert(open + comma_listed(parts.take(0)) =~= open);
}

/// A match is written with the places where it starts and ends, counted in characters,
/// and the text between them: where the text is `a`, then `m`, then `z`, and the match
/// covers the bytes of `m`, it starts after the characters of `a` and ends after those
/// of `m`.
pub proof fn lemma_match_written(
    vm: VM,
    v: Value,
    a: Seq<char>,
    m: Seq<char>,
    z: Seq<char>,
    r: RunResult<Vec<Glyph>>,
)
    requires
        vm.data_of(v) matches Some(HeapData::ReMatch(_)),
        ({
            let found = vm.data_of(v)->0->ReMatch_0;
            &&& found.text@ == a + m + z
            &&& found.groups@.len() > 0
            &&& found.groups@[0] matches Some(span)
            &&& span.0 == byte_offset(found.text@, a.len() as int)
            &&& span.1 == byte_offset(found.text@, (a.len() + m.len()) as int)
        }),
        written(r, vm.value_repr(v)),
    ensures
        r is Ok && exists|t: Seq<char>| #[trigger]
            denoted(t) == Some(m) && spells(
                r->Ok_0@,
                "<re.Match object; span=("@ + int_digits(a.len() as int) + ", "@ + int_digits(
                    (a.len() + m.len()) as int,
                ) + "), match="@ + t + ">"@,
            ),
        writes_integer(int_digits(a.len() as int), a.len() as int),
        writes_integer(int_digits((a.len() + m.len()) as int), (a.len() + m.len()) as int),
{
    let found = vm.data_of(v)->0->ReMatch_0;
    let s = found.text@;
    let span = found.groups@[0]->0;
    lemma_place_of_offset(s, a.len() as int);
    lemma_place_of_offset(s, (a.len() + m.len()) as int);
    assert(text_between(s, span.0 as int, span.1 as int) =~= m);
    lemma_repr_denotes(m);
    lemma_int_digits(a.len() as int);
    lemma_int_digits((a.len() + m.len()) as int);
    let text = match_repr(s, whole_span(found.groups@));
    lemma_spells(text);
    assert(Seq::<Glyph>::empty() + glyphs(text) =~= glyphs(text));
}

/// A file is written with the name of its type, its path and its mode.
pub proof fn lemma_file_written(vm: VM, v: Value, r: RunResult<Vec<Glyph>>)
    requires
        vm.data_of(v) matches Some(HeapData::OpenFile(_)),
        written(r, vm.value_repr(v)),
    ensures
        ({
            let file = vm.data_of(v)->0->OpenFile_0;
            r is Ok && exists|p: Seq<char>, m: Seq<char>| #[trigger]
                denoted(p) == Some(file.path@) && #[trigger] denoted(m) == Some(file.mode.text())
                    && spells(
                    r->Ok_0@,
                    "<"@ + file.mode.object_type().text() + " name="@ + p + " mode="@ + m + ">"@,
                )
        }),
{
    let file = vm.data_of(v)->0->OpenFile_0;
    let text = file_repr(file);
    lemma_spells(text);
    lemma_repr_denotes(file.path@);
    lemma_repr_denotes(file.mode.text());
    let p = repr_text(file.path@);
    let m = repr_text(file.mode.text());
    assert(denoted(p) == Some(file.path@) && denoted(m) == Some(file.mode.text()));
    assert(Seq::<Glyph>::empty() + glyphs(text) =~= glyphs(text));
}

/// Whether a text has no backslash and no dollar sign.
pub open spec fn plain(s: Seq<char>) -> bool {
    forall|i: int| 0 <= i < s.len() ==> #[trigger] s[i] != '\\' && s[i] != '$'
}

proof fn lemma_after_plain(a: Seq<char>, s: Seq<char>)
    requires
        plain(a),
    ensures
        engine_template(a + s) == a + engine_template(s),
    decreases a.len(),
{
    if a.len() > 0 {
        let rest = a.skip(1);
        assert(a[0] != '\\' && a[0] != '$');
        assert forall|i: int| 0 <= i < rest.len() implies #[trigger] rest[i] != '\\' && rest[i]
            != '$' by {
            assert(rest[i] == a[i + 1]);
        }
        lemma_after_plain(rest, s);
        assert((a + s).skip(1) =~= rest + s);
        assert(engine_template(a + s) =~= a + engine_template(s));
    } else {
        assert(a + s =~= s);
        assert(a + engine_template(s) =~= engine_template(s));
    }
}

/// How a template is handed to the engine, from its first dollar sign or backslash on,
/// which stands after a plain text `a`: a dollar sign is doubled, as the engine reads it,
/// two backslashes are one, a numbered group is put after a dollar sign, and a named one
/// in braces; the rest follows by the same rules.
pub proof fn lemma_template(a: Seq<char>, digit: char, name: Seq<char>, rest: Seq<char>)
    requires
        plain(a),
        '0' <= digit <= '9',
        !name.contains('>'),
    ensures
        engine_template(a) == a,
        engine_template(a + (seq!['$'] + rest)) == a + (seq!['$', '$'] + engine_template(rest)),
        engine_template(a + (seq!['\\', '\\'] + rest)) == a + (seq!['\\'] + engine_template(rest)),
        engine_template(a + (seq!['\\', digit] + rest)) == a + (seq!['$', digit] + engine_template(
            rest,
        )),
        engine_template(a + (seq!['\\', 'g', '<'] + name + seq!['>'] + rest)) == a + (seq!['$', '{']
            + name + seq!['}'] + engine_template(rest)),
{
    lemma_after_plain(a, Seq::empty());
    assert(a + Seq::<char>::empty() =~= a);
    lemma_after_plain(a, seq!['$'] + rest);
    lemma_after_plain(a, seq!['\\', '\\'] + rest);
    lemma_after_plain(a, seq!['\\', digit] + rest);
    let named = seq!['\\', 'g', '<'] + name + seq!['>'] + rest;
    lemma_after_plain(a, named);
    reveal_strlit("$$");
    reveal_strlit("${");
    reveal_strlit("}");
    assert("$$"@ =~= seq!['$', '$']);
    assert("${"@ =~= seq!['$', '{']);
    assert("}"@ =~= seq!['}']);
    assert((seq!['$'] + rest).skip(1) =~= rest);
    assert((seq!['\\', '\\'] + rest).skip(2) =~= rest);
    assert((seq!['\\', digit] + rest).skip(2) =~= rest);
    let tail = named.skip(3);
    lemma_first_pos(tail, '>');
    assert(tail =~= name + seq!['>'] + rest);
    let end = name.len() as int;
    assert(tail[end] == '>');
    assert(tail.contains('>'));
    let found = crate::text::first_pos(tail, '>');
    if found < end {
        assert(name[found] == '>');
        assert(name.contains('>'));
    }
    assert(found == end);
    assert(tail.take(end) =~= name);
    assert(named.skip(end + 4) =~= rest);
}

} // verus!
