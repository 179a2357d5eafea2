//! How dictionaries, durations, slices and ranges are written, and what `str` makes.

use vstd::prelude::*;

use crate::args::{ArgValues, Raised};
use crate::decimal::int_digits;
use crate::exception::{RunError, RunResult};
use crate::heap::HeapData;
use crate::laws::dates::duration_at;
use crate::laws::equality::entries_at;
use crate::laws::results::{lemma_consumed, lemma_positional_fit, lemma_string_given};
use crate::laws::writing::{
    comma_listed, lemma_int_digits, lemma_spells, spells, writes_integer, written, written_as,
};
use crate::types::containers::Range;
use crate::types::slice::Slice;
use crate::value::Value;
use crate::value_repr::{
    glyphs, inline_repr, repr_pairs, repr_value, separated, str_init_done, str_signature, Glyph,
    StrMade,
};
use crate::vm::VM;

verus! {

/// Whether entries of values outside the heap are written like this: the key, a colon
/// and a space, and the value.
pub open spec fn entries_written(
    vm: VM,
    xs: Seq<(Value, Value)>,
    parts: Seq<Seq<Glyph>>,
) -> bool {
    &&& xs.len() == parts.len()
    &&& forall|i: int| 0 <= i < xs.len() ==> entry_written(vm, #[trigger] xs[i], parts[i])
}

/// Whether one entry is written like this.
pub open spec fn entry_written(vm: VM, e: (Value, Value), part: Seq<Glyph>) -> bool {
    &&& !(e.0 is Ref) && !(e.1 is Ref)
    &&& vm.value_repr(e.0) matches Ok(k)
    &&& vm.value_repr(e.1) matches Ok(v)
    &&& part == k + glyphs(": "@) + v
}

pub(crate) proof fn lemma_inline(vm: VM, v: Value, out: Seq<Glyph>, seen: Set<usize>, fuel: nat)
    requires
        !(v is Ref),
        vm.value_repr(v) is Ok,
    ensures
        repr_value(vm, v, out, seen, fuel) == Ok::<Seq<Glyph>, Raised>(out + vm.value_repr(v)->Ok_0),
{
    assert(Seq::<Glyph>::empty() + inline_repr(vm, v)->Ok_0 =~= inline_repr(vm, v)->Ok_0);
}

proof fn lemma_pairs_written(
    vm: VM,
    xs: Seq<(Value, Value)>,
    parts: Seq<Seq<Glyph>>,
    i: int,
    open: Seq<Glyph>,
    seen: Set<usize>,
    fuel: nat,
)
    requires
        entries_written(vm, xs, parts),
        0 <= i <= xs.len(),
    ensures
        repr_pairs(vm, xs, false, i, open + comma_listed(parts.take(i)), seen, fuel) == Ok::<
            Seq<Glyph>,
            Raised,
        >(open + comma_listed(parts)),
    decreases xs.len() - i,
{
    if i < xs.len() {
        let out = open + comma_listed(parts.take(i));
        assert(entry_written(vm, xs[i], parts[i]));
        let k = vm.value_repr(xs[i].0)->Ok_0;
        let v = vm.value_repr(xs[i].1)->Ok_0;
        let start = separated(out, i);
        lemma_inline(vm, xs[i].0, start, seen, fuel);
        lemma_inline(vm, xs[i].1, start + k + glyphs(": "@), seen, fuel);
        assert(start + k + glyphs(": "@) + v =~= start + parts[i]);
        assert(parts.take(i + 1).drop_last() =~= parts.take(i));
        assert(parts.take(i + 1).last() == parts[i]);
        if i == 0 {
            assert(parts.take(0) =~= Seq::empty());
            assert(start + parts[0] =~= open + comma_listed(parts.take(1)));
        } else {
            assert(start + parts[i] =~= open + comma_listed(parts.take(i + 1)));
        }
        lemma_pairs_written(vm, xs, parts, i + 1, open, seen, fuel);
    } else {
        assert(parts.take(i) =~= parts);
    }
}

/// A dictionary of values outside the heap is written in braces, its entries in their
/// order.
pub proof fn lemma_dict_written(
    vm: VM,
    v: Value,
    xs: Seq<(Value, Value)>,
    parts: Seq<Seq<Glyph>>,
    r: RunResult<Vec<Glyph>>,
)
    requires
        entries_at(vm, v) == Some(xs),
        vm.heap.max_depth > 0,
        entries_written(vm, xs, parts),
        written(r, vm.value_repr(v)),
    ensures
        r is Ok && r->Ok_0@ == glyphs("{"@) + comma_listed(parts) + glyphs("}"@),
{
    let seen = Set::<usize>::empty().insert(v->Ref_0.0);
    assert(parts.take(0) =~= Seq::empty());
    lemma_pairs_written(vm, xs, parts, 0, glyphs("{"@), seen, (vm.heap.max_depth - 1) as nat);
    assert(Seq::<Glyph>::empty() + glyphs("{"@) =~= glyphs("{"@));
    assert(glyphs("{"@) + comma_listed(parts.take(0)) =~= glyphs("{"@));
}

/// A duration is written with those of its days, seconds and microseconds that are not
/// zero, each by its name; one of no time is written with a zero.
pub proof fn lemma_duration_written(
    vm: VM,
    v: Value,
    r: RunResult<Vec<Glyph>>,
    d: Seq<char>,
    s: Seq<char>,
    m: Seq<char>,
)
    requires
        duration_at(vm, v) is Some,
        written(r, vm.value_repr(v)),
        d == int_digits(duration_at(vm, v)->0.days as int),
        s == int_digits(duration_at(vm, v)->0.seconds as int),
        m == int_digits(duration_at(vm, v)->0.microseconds as int),
    ensures
        ({
            let t = duration_at(vm, v)->0;
            let open = "datetime.timedelta("@;
            &&& r is Ok
            &&& writes_integer(d, t.days as int) && writes_integer(s, t.seconds as int)
                && writes_integer(m, t.microseconds as int)
            &&& t.days == 0 && t.seconds == 0 && t.microseconds == 0 ==> spells(
                r->Ok_0@,
                "datetime.timedelta(0)"@,
            )
            &&& t.days != 0 && t.seconds == 0 && t.microseconds == 0 ==> spells(
                r->Ok_0@,
                open + ("days="@ + d) + ")"@,
            )
            &&& t.days == 0 && t.seconds != 0 && t.microseconds == 0 ==> spells(
                r->Ok_0@,
                open + ("seconds="@ + s) + ")"@,
            )
            &&& t.days == 0 && t.seconds == 0 && t.microseconds != 0 ==> spells(
                r->Ok_0@,
                open + ("microseconds="@ + m) + ")"@,
            )
            &&& t.days != 0 && t.seconds != 0 && t.microseconds != 0 ==> spells(
                r->Ok_0@,
                open + ("days="@ + d + ", "@ + "seconds="@ + s + ", "@ + "microseconds="@ + m)
                    + ")"@,
            )
        }),
{
    let t = duration_at(vm, v)->0;
    lemma_int_digits(t.days as int);
    lemma_int_digits(t.seconds as int);
    lemma_int_digits(t.microseconds as int);
    let text = crate::types::timedelta::delta_repr(
        t.days as int,
        t.seconds as int,
        t.microseconds as int,
    );
    lemma_spells(text);
    assert(Seq::<Glyph>::empty() + glyphs(text) =~= glyphs(text));
    let open = "datetime.timedelta("@;
    let none = Seq::<char>::empty();
    assert(none + "seconds="@ + s =~= "seconds="@ + s);
    assert(none + "microseconds="@ + m =~= "microseconds="@ + m);
    if t.days != 0 && t.seconds != 0 && t.microseconds != 0 {
        assert(text =~= open + ("days="@ + d + ", "@ + "seconds="@ + s + ", "@ + "microseconds="@
            + m) + ")"@);
    }
}

/// A part of a slice as it is written.
pub open spec fn part_text(part: Option<i64>) -> Seq<char> {
    if part is Some {
        int_digits(part->0 as int)
    } else {
        "None"@
    }
}

/// A slice is written with its three parts in their order, and a range with its start
/// and stop, and its step where that is not one.
pub proof fn lemma_slice_and_range_written(vm: VM, v: Value, r: RunResult<Vec<Glyph>>)
    requires
        written(r, vm.value_repr(v)),
    ensures
        vm.data_of(v) matches Some(HeapData::Slice(s)) ==> r is Ok && spells(
            r->Ok_0@,
            "slice("@ + part_text(s.start) + ", "@ + part_text(s.stop) + ", "@ + part_text(s.step)
                + ")"@,
        ),
        vm.data_of(v) matches Some(HeapData::Range(s)) ==> r is Ok && spells(
            r->Ok_0@,
            "range("@ + part_text(Some(s.start)) + ", "@ + part_text(Some(s.stop)) + (if s.step
                == 1 {
                Seq::empty()
            } else {
                ", "@ + part_text(Some(s.step))
            }) + ")"@,
        ),
        forall|n: i64| writes_integer(#[trigger] part_text(Some(n)), n as int),
{
    assert forall|n: i64| writes_integer(#[trigger] part_text(Some(n)), n as int) by {
        lemma_int_digits(n as int);
    }
    match vm.data_of(v) {
        Some(HeapData::Slice(s)) => {
            let text = crate::value_repr::slice_repr(s);
            lemma_spells(text);
            assert(Seq::<Glyph>::empty() + glyphs(text) =~= glyphs(text));
        },
        Some(HeapData::Range(s)) => {
            let text = crate::value_repr::range_repr(s);
            lemma_spells(text);
            assert(Seq::<Glyph>::empty() + glyphs(text) =~= glyphs(text));
            assert(text =~= "range("@ + part_text(Some(s.start)) + ", "@ + part_text(Some(s.stop))
                + (if s.step == 1 {
                Seq::empty()
            } else {
                ", "@ + part_text(Some(s.step))
            }) + ")"@);
        },
        _ => {},
    }
}

/// Texts that are written alike are the same.
proof fn lemma_glyphs_injective(a: Seq<char>, b: Seq<char>)
    requires
        glyphs(a) == glyphs(b),
    ensures
        a == b,
{
    lemma_spells(a);
    lemma_spells(b);
    assert forall|i: int| 0 <= i < a.len() implies a[i] == b[i] by {
        assert(glyphs(a)[i] == Glyph::Code(a[i] as u32));
        assert(glyphs(b)[i] == Glyph::Code(b[i] as u32));
        lemma_code_injective(a[i], b[i]);
    }
    assert(a =~= b);
}

proof fn lemma_code_injective(c: char, d: char)
    requires
        c as u32 == d as u32,
    ensures
        c == d,
{
}

/// `str` of a text is that text, and of an integer the integer in decimal digits.
pub proof fn lemma_str_made(
    before: VM,
    mid: VM,
    after: VM,
    args: ArgValues,
    r: RunResult<StrMade>,
)
    requires
        before.wf(),
        args.just(1),
        args.consumed(mid, after),
        str_init_done(before, mid, r, args),
        r is Ok,
    ensures
        before.text_of(args.pos@[0]) matches Some(text) ==> (r->Ok_0 matches StrMade::Value(w)
            && after.text_of(w) == Some(text)),
        args.pos@[0] matches Value::Int(n) ==> (r->Ok_0 matches StrMade::Value(w)
            && after.text_of(w) matches Some(t) && writes_integer(t, n as int)),
{
    lemma_positional_fit(args, str_signature(), seq!["object"@], before.interns);
    lemma_consumed(args, mid, after);
    let v = args.pos@[0];
    let text = if before.text_of(v) is Some {
        before.text_of(v)->0
    } else if v is Int {
        int_digits(v->Int_0 as int)
    } else {
        Seq::empty()
    };
    if before.text_of(v) is Some || v is Int {
        if v is Int {
            lemma_int_digits(v->Int_0 as int);
        }
        assert(Seq::<Glyph>::empty() + glyphs(text) =~= glyphs(text));
        assert(before.value_str(v) == Ok::<Seq<Glyph>, Raised>(glyphs(text)));
        let (s, x) = choose|s: Seq<char>, x: RunResult<Value>|
            {
                &&& glyphs(s) == glyphs(text)
                &&& #[trigger] crate::types::str::string_result(before, mid, x, s)
                &&& match x {
                    Ok(v) => r == Ok::<StrMade, RunError>(StrMade::Value(v)),
                    Err(e) => r == Err::<StrMade, RunError>(e),
                }
            };
        lemma_glyphs_injective(s, text);
        lemma_string_given(before, mid, x, s);
    }
}

/// Sets and frozen sets of values outside the heap are written with their members in
/// braces, a frozen one inside its name; empty ones by their names.
pub proof fn lemma_set_written(
    vm: VM,
    v: Value,
    xs: Seq<Value>,
    parts: Seq<Seq<Glyph>>,
    r: RunResult<Vec<Glyph>>,
)
    requires
        crate::laws::equality::members_at(vm, v) == Some(xs),
        vm.heap.max_depth > 0,
        written_as(vm, xs, parts),
        written(r, vm.value_repr(v)),
    ensures
        ({
            let frozen = vm.data_of(v)->0 is FrozenSet;
            &&& r is Ok
            &&& xs.len() > 0 && !frozen ==> r->Ok_0@ == glyphs("{"@) + comma_listed(parts) + glyphs(
                "}"@,
            )
            &&& xs.len() > 0 && frozen ==> r->Ok_0@ == glyphs("frozenset({"@) + comma_listed(parts)
                + glyphs("})"@)
            &&& xs.len() == 0 && !frozen ==> spells(r->Ok_0@, "set()"@)
            &&& xs.len() == 0 && frozen ==> spells(r->Ok_0@, "frozenset()"@)
        }),
{
    let seen = Set::<usize>::empty().insert(v->Ref_0.0);
    let fuel = (vm.heap.max_depth - 1) as nat;
    let none = Seq::<Glyph>::empty();
    assert(parts.take(0) =~= Seq::empty());
    crate::laws::writing::lemma_items_written(vm, xs, parts, 0, glyphs("{"@), seen, fuel);
    crate::laws::writing::lemma_items_written(vm, xs, parts, 0, glyphs("frozenset({"@), seen, fuel);
    lemma_spells("set()"@);
    lemma_spells("frozenset()"@);
    assert(none + glyphs("set()"@) =~= glyphs("set()"@));
    assert(none + glyphs("frozenset()"@) =~= glyphs("frozenset()"@));
    assert(none + glyphs("{"@) =~= glyphs("{"@));
    assert(none + glyphs("frozenset({"@) =~= glyphs("frozenset({"@));
    assert(glyphs("{"@) + comma_listed(parts.take(0)) =~= glyphs("{"@));
    assert(glyphs("frozenset({"@) + comma_listed(parts.take(0)) =~= glyphs("frozenset({"@));
}

/// A naive datetime is written with its fields in their order, from the year on: the
/// seconds only where they or the microseconds are not zero, and these only where they
/// are not; and `str` writes it so that the fields can be read from the text.
pub proof fn lemma_datetime_written(
    vm: VM,
    v: Value,
    r: RunResult<Vec<Glyph>>,
    s: RunResult<Vec<Glyph>>,
)
    requires
        vm.wf(),
        vm.ok(v),
        crate::laws::dates::datetime_at(vm, v) matches Some(dt) && dt.offset_seconds is None
            && !dt.naive.in_leap_second() && dt.naive.nano % 1_000 == 0,
        written(r, vm.value_repr(v)),
        written(s, vm.value_str(v)),
    ensures
        ({
            let n = crate::laws::dates::datetime_at(vm, v)->0.naive;
            let micros = n.nano as int / 1_000;
            let start = "datetime.datetime("@ + part_text(Some(n.year as i64)) + ", "@ + part_text(
                Some(n.month as i64),
            ) + ", "@ + part_text(Some(n.day as i64)) + ", "@ + part_text(Some(n.hour as i64))
                + ", "@ + part_text(Some(n.minute as i64));
            let second = ", "@ + part_text(Some(n.second as i64));
            &&& r is Ok
            &&& n.second == 0 && micros == 0 ==> spells(r->Ok_0@, start + ")"@)
            &&& n.second != 0 && micros == 0 ==> spells(r->Ok_0@, start + second + ")"@)
            &&& micros != 0 ==> spells(
                r->Ok_0@,
                start + second + (", "@ + part_text(Some(micros as i64))) + ")"@,
            )
            &&& s is Ok && exists|t: Seq<char>| #[trigger]
                spells(s->Ok_0@, t) && crate::calendar::written_moment(
                    vstd::utf8::encode_utf8(t),
                ) == Some(
                    (
                        n.year as int,
                        n.month as int,
                        n.day as int,
                        n.hour as int,
                        n.minute as int,
                        n.second as int,
                        micros,
                        None::<int>,
                    ),
                )
        }),
{
    let dt = crate::laws::dates::datetime_at(vm, v)->0;
    let n = dt.naive;
    crate::value_add::lemma_entry_ok(vm, v->Ref_0);
    let text = crate::types::datetime::datetime_repr(dt);
    lemma_spells(text);
    assert(Seq::<Glyph>::empty() + glyphs(text) =~= glyphs(text));
    let micros = n.nano as int / 1_000;
    let start = "datetime.datetime("@ + part_text(Some(n.year as i64)) + ", "@ + part_text(
        Some(n.month as i64),
    ) + ", "@ + part_text(Some(n.day as i64)) + ", "@ + part_text(Some(n.hour as i64)) + ", "@
        + part_text(Some(n.minute as i64));
    let second = ", "@ + part_text(Some(n.second as i64));
    if micros != 0 {
        assert(text =~= start + second + (", "@ + part_text(Some(micros as i64))) + ")"@);
    } else if n.second != 0 {
        assert(text =~= start + second + ")"@);
    }
    let iso = crate::types::datetime::moment_text(dt, ' ');
    lemma_spells(iso);
    crate::types::iso_text::lemma_written_moment(dt, ' ');
    assert(s is Ok && spells(s->Ok_0@, iso));
}

/// A timezone is called by its name, or `UTC` with its offset, which is left out where
/// it is zero.
pub proof fn lemma_timezone_written(
    vm: VM,
    v: Value,
    tz: crate::types::timezone::TimeZone,
    s: RunResult<Vec<Glyph>>,
)
    requires
        vm.data_of(v) == Some(HeapData::TimeZone(tz)),
        written(s, vm.value_str(v)),
    ensures
        s is Ok,
        tz.name matches Some(name) ==> spells(s->Ok_0@, name@),
        tz.name is None && tz.offset_seconds == 0 ==> spells(s->Ok_0@, "UTC"@),
        tz.name is None && tz.offset_seconds > 0 ==> s->Ok_0@.len() >= 4 && s->Ok_0@[3]
            == Glyph::Code('+' as u32),
        tz.name is None && tz.offset_seconds < 0 ==> s->Ok_0@.len() >= 4 && s->Ok_0@[3]
            == Glyph::Code('-' as u32),
{
    let text = crate::types::timezone::timezone_str(
        tz.offset_seconds as int,
        crate::types::timezone::name_text(tz.name),
    );
    lemma_spells(text);
    reveal_strlit("UTC");
    reveal_strlit("+");
    reveal_strlit("-");
    if tz.name is None && tz.offset_seconds != 0 {
        let hms = crate::types::timezone::offset_hms(tz.offset_seconds as int);
        assert(text == "UTC"@ + hms);
        assert(hms[0] == (if tz.offset_seconds > 0 {
            '+'
        } else {
            '-'
        }));
        assert(text[3] == hms[0]);
    }
}

/// A pattern is written as a call of `re.compile` with a literal that denotes it, and a
/// path with its text in quotes.
pub proof fn lemma_pattern_and_path_written(vm: VM, v: Value, r: RunResult<Vec<Glyph>>)
    requires
        written(r, vm.value_repr(v)),
    ensures
        vm.data_of(v) matches Some(HeapData::RePattern(p)) ==> p.bits() == 0 ==> r is Ok && exists|
            t: Seq<char>,
        | #[trigger]
            crate::types::str_literal::denoted(t) == Some(p.text()) && spells(
                r->Ok_0@,
                "re.compile("@ + t + ")"@,
            ),
        vm.data_of(v) matches Some(HeapData::Path(p)) ==> r is Ok && spells(
            r->Ok_0@,
            "PosixPath('"@ + p@ + "')"@,
        ),
{
    match vm.data_of(v) {
        Some(HeapData::RePattern(p)) => {
            let text = crate::types::re_pattern::pattern_repr(p.text(), p.bits());
            lemma_spells(text);
            assert(Seq::<Glyph>::empty() + glyphs(text) =~= glyphs(text));
            crate::types::str_literal::lemma_repr_denotes(p.text());
        },
        Some(HeapData::Path(p)) => {
            let text = "PosixPath('"@ + p@ + "')"@;
            lemma_spells(text);
            assert(Seq::<Glyph>::empty() + glyphs(text) =~= glyphs(text));
        },
        _ => {},
    }
}

/// Whether bytes are printable and none is a quote or a backslash.
pub open spec fn plain_bytes(b: Seq<u8>) -> bool {
    forall|i: int|
        0 <= i < b.len() ==> 32 <= #[trigger] b[i] < 127 && b[i] != 39 && b[i] != 92
}

proof fn lemma_plain_bytes(b: Seq<u8>)
    requires
        plain_bytes(b),
    ensures
        crate::value_repr::shown_bytes(b, '\'') == Seq::new(b.len(), |i: int| b[i] as char),
    decreases b.len(),
{
    if b.len() > 0 {
        let head = b.drop_last();
        assert forall|i: int| 0 <= i < head.len() implies 32 <= #[trigger] head[i] < 127 && head[i]
            != 39 && head[i] != 92 by {
            assert(head[i] == b[i]);
        }
        lemma_plain_bytes(head);
        let x = b[b.len() - 1];
        assert(32 <= x < 127 && x != 39 && x != 92);
        assert(crate::value_repr::shown_bytes(b, '\'') =~= Seq::new(
            b.len(),
            |i: int| b[i] as char,
        ));
    } else {
        assert(crate::value_repr::shown_bytes(b, '\'') =~= Seq::new(
            b.len(),
            |i: int| b[i] as char,
        ));
    }
}

/// Printable bytes without quotes and backslashes are written as their characters, in
/// quotes behind a `b`.
pub proof fn lemma_bytes_written(vm: VM, v: Value, b: Seq<u8>, r: RunResult<Vec<Glyph>>)
    requires
        vm.bytes_of(v) == Some(b),
        plain_bytes(b),
        written(r, vm.value_repr(v)),
    ensures
        r is Ok && spells(
            r->Ok_0@,
            seq!['b', '\''] + Seq::new(b.len(), |i: int| b[i] as char) + seq!['\''],
        ),
{
    lemma_plain_bytes(b);
    assert(!b.contains(39u8)) by {
        if b.contains(39u8) {
            let i = choose|i: int| 0 <= i < b.len() && b[i] == 39u8;
            assert(b[i] != 39);
        }
    }
    let text = crate::value_repr::bytes_repr(b);
    lemma_spells(text);
    assert(Seq::<Glyph>::empty() + glyphs(text) =~= glyphs(text));
}

} // verus!
