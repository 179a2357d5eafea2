//! `repr` and `str` of values.
//!
//! What is written is a sequence of glyphs: characters, and the few objects whose
//! text only the host knows.

use ahash::AHashSet;
use vstd::prelude::*;
use vstd::utf8::{char_is_scalar, is_scalar};

use crate::arg_binding::Signature;
use crate::args::{param_texts, raises, ArgValues, Raised};
use crate::bigint::{bit_length, magnitude};
use crate::decimal::{int_digits, push_int};
use crate::exception::{ExcType, RunError, RunResult};
use crate::heap::{HeapData, HeapId};
use crate::intern::{FunctionId, StaticStrings};
use crate::text::{chars_of, push_str, string_of};
use crate::types::containers::Range;
use crate::types::dataclass::{named_entry, Dataclass};
use crate::types::date::{date_repr, iso_text, isoformat};
use crate::types::datetime::{datetime_repr, format_isoformat, moment_text};
use crate::types::file::OpenFile;
use crate::types::long_int::{
    check_bits_str_digits_limit, scaled_bits, too_large_for_str, INT_MAX_STR_DIGITS,
};
use crate::types::namedtuple::NamedTuple;
use crate::types::re_match::{match_repr, whole_span};
use crate::types::re_pattern::pattern_repr;
use crate::types::slice::Slice;
use crate::types::str::{allocate_string, string_result, Str};
use crate::types::str_args::lemma_argument_ok;
use crate::types::str_methods::{dict_entries, firsts, seconds};
use crate::types::str_repr::{hex_digits, repr_text, string_repr_fmt, StringRepr};
use crate::types::timedelta::delta_repr;
use crate::types::timezone::{name_text, timezone_repr, timezone_str};
use crate::value::{Builtins, FloatBits, ModuleFunctions, Property, Value};
use crate::value_add::lemma_entry_ok;
use crate::value_eq::{
    keys_of, lemma_firsts_ok, lemma_seconds_ok, pairs_ok, too_deep, values_of, viewed,
};
use crate::visited::{has_id, insert_id, no_ids, remove_id, visited_ids};
use crate::vm::VM;

verus! {

/// One piece of a written value.
#[derive(Clone, Copy, Debug, PartialEq, Eq, Structural)]
pub enum Glyph {
    /// A character, by its code point.
    Code(u32),
    Float(FloatBits),
    Builtin(Builtins),
    ModuleFunction(ModuleFunctions),
    DefFunction(FunctionId),
    Property(Property),
}

/// A text as glyphs.
pub open spec fn glyphs(s: Seq<char>) -> Seq<Glyph>
    decreases s.len(),
{
    if s.len() == 0 {
        Seq::empty()
    } else {
        glyphs(s.drop_last()).push(Glyph::Code(s.last() as u32))
    }
}

/// How a byte is written between the given quotes.
pub open spec fn shown_byte(b: u8, quote: char) -> Seq<char> {
    if b == 9 {
        "\\t"@
    } else if b == 10 {
        "\\n"@
    } else if b == 13 {
        "\\r"@
    } else if b == 92 || b == quote as u8 {
        seq!['\\', b as char]
    } else if 32 <= b < 127 {
        seq![b as char]
    } else {
        "\\x"@ + hex_digits(b as int, 2)
    }
}

/// How bytes are written between the given quotes.
pub open spec fn shown_bytes(b: Seq<u8>, quote: char) -> Seq<char>
    decreases b.len(),
{
    if b.len() == 0 {
        Seq::empty()
    } else {
        shown_bytes(b.drop_last(), quote) + shown_byte(b.last(), quote)
    }
}

/// The quote for bytes: double quotes when only single ones occur in them.
pub open spec fn byte_quote(b: Seq<u8>) -> char {
    if b.contains(39u8) && !b.contains(34u8) {
        '"'
    } else {
        '\''
    }
}

/// The `repr` of bytes.
pub open spec fn bytes_repr(b: Seq<u8>) -> Seq<char> {
    let quote = byte_quote(b);
    seq!['b', quote] + shown_bytes(b, quote) + seq![quote]
}

/// An integer or `None`.
pub open spec fn optional_int(n: Option<i64>) -> Seq<char> {
    match n {
        Some(n) => int_digits(n as int),
        None => "None"@,
    }
}

/// The `repr` of a slice.
pub open spec fn slice_repr(s: Slice) -> Seq<char> {
    "slice("@ + optional_int(s.start) + ", "@ + optional_int(s.stop) + ", "@ + optional_int(s.step)
        + ")"@
}

/// The `repr` of a range.
pub open spec fn range_repr(r: Range) -> Seq<char> {
    let ends = "range("@ + int_digits(r.start as int) + ", "@ + int_digits(r.stop as int);
    if r.step == 1 {
        ends + ")"@
    } else {
        ends + ", "@ + int_digits(r.step as int) + ")"@
    }
}

/// The `repr` of a file.
pub open spec fn file_repr(file: OpenFile) -> Seq<char> {
    "<"@ + file.mode.object_type().text() + " name="@ + repr_text(file.path@) + " mode="@
        + repr_text(file.mode.text()) + ">"@
}

/// The `repr` of a function of the host.
pub open spec fn ext_repr(name: Seq<char>) -> Seq<char> {
    "<function '"@ + name + "' external>"@
}

/// A name in quotes, if there is one.
pub open spec fn quoted_name(name: Option<Seq<char>>) -> Option<Seq<char>> {
    match name {
        Some(s) => Some(repr_text(s)),
        None => None,
    }
}

/// The error for an integer that is too long to write.
pub open spec fn digits_error() -> Raised {
    (ExcType::ValueError, too_large_for_str())
}

/// The `repr` of a heap entry that holds no values.
pub open spec fn plain_repr(vm: VM, d: HeapData) -> Result<Seq<char>, Raised> {
    match d {
        HeapData::Str(s) => Ok(repr_text(s@)),
        HeapData::Bytes(b) => Ok(bytes_repr(b@)),
        HeapData::LongInt(li) => if magnitude(li@) < vstd::arithmetic::power::pow(10, 4300) {
            Ok(int_digits(li@))
        } else {
            Err(digits_error())
        },
        HeapData::Range(range) => Ok(range_repr(range)),
        HeapData::Slice(slice) => Ok(slice_repr(slice)),
        HeapData::Path(path) => Ok("PosixPath('"@ + path@ + "')"@),
        HeapData::Date(date) => Ok(date_repr(date)),
        HeapData::DateTime(moment) => Ok(datetime_repr(moment)),
        HeapData::TimeDelta(delta) => Ok(
            delta_repr(delta.days as int, delta.seconds as int, delta.microseconds as int),
        ),
        HeapData::TimeZone(tz) => Ok(
            timezone_repr(tz.offset_seconds as int, quoted_name(name_text(tz.name))),
        ),
        HeapData::OpenFile(file) => Ok(file_repr(file)),
        HeapData::RePattern(pattern) => Ok(pattern_repr(pattern.text(), pattern.bits())),
        HeapData::ReMatch(m) => Ok(match_repr(m.text@, whole_span(m.groups@))),
        HeapData::TestContextManager(_) => Ok("<_test_cm>"@),
        HeapData::ExtFunction(name) => Ok(ext_repr(name@)),
        HeapData::Module(name) => Ok("<module '"@ + vm.interns.str_at(name) + "'>"@),
        _ => Ok(Seq::empty()),
    }
}

/// The `repr` of a value that is not in the heap.
pub open spec fn inline_repr(vm: VM, v: Value) -> Result<Seq<Glyph>, Raised> {
    match v {
        Value::Undefined => Ok(glyphs("Undefined"@)),
        Value::Ellipsis => Ok(glyphs("Ellipsis"@)),
        Value::PyNone => Ok(glyphs("None"@)),
        Value::Bool(b) => Ok(
            glyphs(
                if b {
                    "True"@
                } else {
                    "False"@
                },
            ),
        ),
        Value::Int(n) => Ok(glyphs(int_digits(n as int))),
        Value::Float(f) => Ok(seq![Glyph::Float(f)]),
        Value::InternLongInt(id) => {
            let n = vm.interns.long_int_at(id);
            if scaled_bits(bit_length(magnitude(n)) as int) / 100_000 + 1 <= INT_MAX_STR_DIGITS {
                Ok(glyphs(int_digits(n)))
            } else {
                Err(digits_error())
            }
        },
        Value::InternString(id) => Ok(glyphs(repr_text(vm.interns.str_at(id)))),
        Value::InternBytes(id) => Ok(glyphs(bytes_repr(vm.interns.bytes_at(id)))),
        Value::Builtin(b) => Ok(seq![Glyph::Builtin(b)]),
        Value::ModuleFunction(m) => Ok(seq![Glyph::ModuleFunction(m)]),
        Value::DefFunction(f) => Ok(seq![Glyph::DefFunction(f)]),
        Value::ExtFunction(id) => Ok(glyphs(ext_repr(vm.interns.str_at(id)))),
        Value::Marker(m) => Ok(glyphs(m.shown())),
        Value::Property(p) => Ok(seq![Glyph::Property(p)]),
        Value::Ref(_) => Ok(Seq::empty()),
    }
}

/// What stands for an object that is being written already.
pub open spec fn placeholder(d: HeapData) -> Seq<char> {
    match d {
        HeapData::List(_) => "[...]"@,
        HeapData::Tuple(_) => "(...)"@,
        HeapData::Dict(_) => "{...}"@,
        _ => "..."@,
    }
}

/// What is written, and then an end.
pub open spec fn ended(r: Result<Seq<Glyph>, Raised>, end: Seq<char>) -> Result<Seq<Glyph>, Raised> {
    match r {
        Ok(out) => Ok(out + glyphs(end)),
        Err(e) => Err(e),
    }
}

/// The fields of a named tuple with their names.
pub open spec fn tuple_fields(vm: VM, t: NamedTuple) -> Seq<(Seq<char>, Option<Value>)> {
    Seq::new(
        t.items@.len(),
        |i: int| (t.field_names@[i].text(vm.interns), Some(t.items@[i])),
    )
}

/// The declared fields of an instance with their names.
pub open spec fn instance_fields(vm: VM, d: Dataclass) -> Seq<(Seq<char>, Option<Value>)> {
    Seq::new(
        d.field_names@.len(),
        |i: int| (d.field_names@[i]@, named_entry(vm, d.attrs.entries@, d.field_names@[i]@)),
    )
}

/// What is written after the `repr` of a heap entry. `seen` holds the objects that
/// are being written; `fuel` is how many levels of containers are left.
pub open spec fn repr_data(vm: VM, d: HeapData, out: Seq<Glyph>, seen: Set<usize>, fuel: nat) -> Result<
    Seq<Glyph>,
    Raised,
>
    decreases fuel, 0nat, 0nat,
{
    match d {
        HeapData::List(list) => if fuel == 0 {
            Ok(out + glyphs("..."@))
        } else {
            let open = out + glyphs("["@);
            ended(repr_items(vm, list.items@, 0, open, seen, (fuel - 1) as nat), "]"@)
        },
        HeapData::Tuple(tuple) => if fuel == 0 {
            Ok(out + glyphs("..."@))
        } else {
            let open = out + glyphs("("@);
            ended(
                repr_items(vm, tuple.items@, 0, open, seen, (fuel - 1) as nat),
                if tuple.items@.len() == 1 {
                    ",)"@
                } else {
                    ")"@
                },
            )
        },
        HeapData::SetData(set) => if set.items@.len() == 0 {
            Ok(out + glyphs("set()"@))
        } else if fuel == 0 {
            Ok(out + glyphs("..."@))
        } else {
            let open = out + glyphs("{"@);
            ended(repr_items(vm, set.items@, 0, open, seen, (fuel - 1) as nat), "}"@)
        },
        HeapData::FrozenSet(set) => if set.items@.len() == 0 {
            Ok(out + glyphs("frozenset()"@))
        } else if fuel == 0 {
            Ok(out + glyphs("..."@))
        } else {
            let open = out + glyphs("frozenset({"@);
            ended(repr_items(vm, set.items@, 0, open, seen, (fuel - 1) as nat), "})"@)
        },
        HeapData::Dict(dict) => if fuel == 0 {
            Ok(out + glyphs("..."@))
        } else {
            let open = out + glyphs("{"@);
            ended(
                repr_pairs(vm, dict.entries@, false, 0, open, seen, (fuel - 1) as nat),
                "}"@,
            )
        },
        HeapData::NamedTuple(tuple) => if fuel == 0 {
            Ok(out + glyphs("..."@))
        } else {
            let open = out + glyphs(tuple.name.text(vm.interns)) + glyphs("("@);
            ended(
                repr_fields(vm, tuple_fields(vm, tuple), 0, open, seen, (fuel - 1) as nat),
                ")"@,
            )
        },
        HeapData::Dataclass(instance) => if fuel == 0 {
            Ok(out + glyphs("..."@))
        } else {
            let open = out + glyphs(instance.name.text(vm.interns)) + glyphs("("@);
            ended(
                repr_fields(vm, instance_fields(vm, instance), 0, open, seen, (fuel - 1) as nat),
                ")"@,
            )
        },
        HeapData::DictKeysView(view) => if fuel == 0 {
            Err(too_deep())
        } else {
            let open = out + glyphs("dict_keys(["@);
            let keys = firsts(dict_entries(vm, view.dict_id));
            ended(repr_items(vm, keys, 0, open, seen, (fuel - 1) as nat), "])"@)
        },
        HeapData::DictItemsView(view) => if fuel == 0 {
            Err(too_deep())
        } else {
            let open = out + glyphs("dict_items(["@);
            let pairs = dict_entries(vm, view.dict_id);
            ended(repr_pairs(vm, pairs, true, 0, open, seen, (fuel - 1) as nat), "])"@)
        },
        HeapData::DictValuesView(view) => if fuel == 0 {
            Err(too_deep())
        } else {
            let open = out + glyphs("dict_values(["@);
            let values = seconds(dict_entries(vm, view.dict_id));
            ended(repr_items(vm, values, 0, open, seen, (fuel - 1) as nat), "])"@)
        },
        _ => match plain_repr(vm, d) {
            Ok(text) => Ok(out + glyphs(text)),
            Err(e) => Err(e),
        },
    }
}

/// What is written after the `repr` of a value.
pub open spec fn repr_value(vm: VM, v: Value, out: Seq<Glyph>, seen: Set<usize>, fuel: nat) -> Result<
    Seq<Glyph>,
    Raised,
>
    decreases fuel, 1nat, 0nat,
{
    match v {
        Value::Ref(id) => if seen.contains(id.0) {
            Ok(out + glyphs(placeholder(vm.heap.data(id))))
        } else {
            repr_data(vm, vm.heap.data(id), out, seen.insert(id.0), fuel)
        },
        _ => match inline_repr(vm, v) {
            Ok(text) => Ok(out + text),
            Err(e) => Err(e),
        },
    }
}

/// What is written, and a comma if it is not the first of its kind.
pub open spec fn separated(out: Seq<Glyph>, i: int) -> Seq<Glyph> {
    if i > 0 {
        out + glyphs(", "@)
    } else {
        out
    }
}

/// What is written after the items from `i` on.
pub open spec fn repr_items(
    vm: VM,
    xs: Seq<Value>,
    i: int,
    out: Seq<Glyph>,
    seen: Set<usize>,
    fuel: nat,
) -> Result<Seq<Glyph>, Raised>
    decreases fuel, 2nat, xs.len() - i,
{
    if i >= xs.len() {
        Ok(out)
    } else {
        match repr_value(vm, xs[i], separated(out, i), seen, fuel) {
            Err(e) => Err(e),
            Ok(more) => repr_items(vm, xs, i + 1, more, seen, fuel),
        }
    }
}

/// What is written after the entries from `i` on: as pairs in brackets, or with a
/// colon between key and value.
pub open spec fn repr_pairs(
    vm: VM,
    xs: Seq<(Value, Value)>,
    bracketed: bool,
    i: int,
    out: Seq<Glyph>,
    seen: Set<usize>,
    fuel: nat,
) -> Result<Seq<Glyph>, Raised>
    decreases fuel, 2nat, xs.len() - i,
{
    if i >= xs.len() {
        Ok(out)
    } else {
        let open = if bracketed {
            separated(out, i) + glyphs("("@)
        } else {
            separated(out, i)
        };
        match repr_value(vm, xs[i].0, open, seen, fuel) {
            Err(e) => Err(e),
            Ok(key) => {
                let middle = key + glyphs(
                    if bracketed {
                        ", "@
                    } else {
                        ": "@
                    },
                );
                match repr_value(vm, xs[i].1, middle, seen, fuel) {
                    Err(e) => Err(e),
                    Ok(value) => {
                        let more = if bracketed {
                            value + glyphs(")"@)
                        } else {
                            value
                        };
                        repr_pairs(vm, xs, bracketed, i + 1, more, seen, fuel)
                    },
                }
            },
        }
    }
}

/// What is written after the fields from `i` on.
pub open spec fn repr_fields(
    vm: VM,
    fields: Seq<(Seq<char>, Option<Value>)>,
    i: int,
    out: Seq<Glyph>,
    seen: Set<usize>,
    fuel: nat,
) -> Result<Seq<Glyph>, Raised>
    decreases fuel, 2nat, fields.len() - i,
{
    if i >= fields.len() {
        Ok(out)
    } else {
        let named = separated(out, i) + glyphs(fields[i].0) + glyphs("="@);
        match fields[i].1 {
            None => repr_fields(vm, fields, i + 1, named + glyphs("<?>"@), seen, fuel),
            Some(v) => match repr_value(vm, v, named, seen, fuel) {
                Err(e) => Err(e),
                Ok(more) => repr_fields(vm, fields, i + 1, more, seen, fuel),
            },
        }
    }
}

impl VM {
    /// The `repr` of a value.
    pub open spec fn value_repr(self, v: Value) -> Result<Seq<Glyph>, Raised> {
        repr_value(self, v, Seq::empty(), Set::empty(), self.heap.max_depth as nat)
    }
}

/// Whether a writer did what is said of it.
pub open spec fn wrote(r: RunResult<()>, out: Seq<Glyph>, e: Result<Seq<Glyph>, Raised>) -> bool {
    match e {
        Ok(expected) => r is Ok && out == expected,
        Err(x) => raises(r, x),
    }
}

fn write_text(out: &mut Vec<Glyph>, s: &str)
    ensures
        final(out)@ == old(out)@ + glyphs(s@),
{
    let chars = chars_of(s);
    write_chars(out, &chars);
}

fn write_chars(out: &mut Vec<Glyph>, chars: &[char])
    ensures
        final(out)@ == old(out)@ + glyphs(chars@),
{
    assert(out@ =~= old(out)@ + glyphs(chars@.take(0)));
    for i in 0..chars.len()
        invariant
            out@ == old(out)@ + glyphs(chars@.take(i as int)),
    {
        out.push(Glyph::Code(chars[i] as u32));
        proof {
            assert(chars@.take(i + 1).drop_last() =~= chars@.take(i as int));
            assert(out@ =~= old(out)@ + glyphs(chars@.take(i + 1)));
        }
    }
    assert(chars@.take(chars@.len() as int) =~= chars@);
}

fn push_shown_byte(b: u8, quote: char, out: &mut Vec<char>)
    requires
        quote == '\'' || quote == '"',
    ensures
        final(out)@ == old(out)@ + shown_byte(b, quote),
{
    proof {
        reveal_with_fuel(hex_digits, 3);
    }
    if b == 9 {
        push_str(out, "\\t");
    } else if b == 10 {
        push_str(out, "\\n");
    } else if b == 13 {
        push_str(out, "\\r");
    } else if b == 92 || b == quote as u8 {
        out.push('\\');
        out.push(b as char);
    } else if 32 <= b && b < 127 {
        out.push(b as char);
    } else {
        push_str(out, "\\x");
        crate::types::str_repr::push_hex(out, b as u32, 2);
    }
    assert(out@ =~= old(out)@ + shown_byte(b, quote));
}

fn has_byte(b: &[u8], x: u8) -> (r: bool)
    ensures
        r == b@.contains(x),
{
    for i in 0..b.len()
        invariant
            forall|j: int| 0 <= j < i ==> b@[j] != x,
    {
        if b[i] == x {
            return true;
        }
    }
    false
}

/// Writes the `repr` of bytes.
pub fn bytes_repr_fmt(b: &[u8], out: &mut Vec<char>)
    ensures
        final(out)@ == old(out)@ + bytes_repr(b@),
{
    let quote: char = if has_byte(b, 39) && !has_byte(b, 34) {
        '"'
    } else {
        '\''
    };
    out.push('b');
    out.push(quote);
    let ghost start = out@;
    assert(b@.take(0) =~= Seq::<u8>::empty());
    assert(start + shown_bytes(b@.take(0), quote) =~= start);
    for i in 0..b.len()
        invariant
            quote == '\'' || quote == '"',
            out@ == start + shown_bytes(b@.take(i as int), quote),
    {
        push_shown_byte(b[i], quote, out);
        assert(b@.take(i + 1).drop_last() =~= b@.take(i as int));
        assert(out@ =~= start + shown_bytes(b@.take(i + 1), quote));
    }
    out.push(quote);
    assert(b@.take(b@.len() as int) =~= b@);
    assert(out@ =~= old(out)@ + bytes_repr(b@));
}

/// Writes an integer or `None`.
pub fn format_option_i64(out: &mut Vec<char>, value: Option<i64>)
    ensures
        final(out)@ == old(out)@ + optional_int(value),
{
    match value {
        Some(n) => push_int(out, n),
        None => push_str(out, "None"),
    }
}

fn slice_text(slice: &Slice) -> (r: Vec<char>)
    ensures
        r@ == slice_repr(*slice),
{
    let mut out: Vec<char> = Vec::new();
    push_str(&mut out, "slice(");
    format_option_i64(&mut out, slice.start);
    push_str(&mut out, ", ");
    format_option_i64(&mut out, slice.stop);
    push_str(&mut out, ", ");
    format_option_i64(&mut out, slice.step);
    push_str(&mut out, ")");
    assert(out@ =~= slice_repr(*slice));
    out
}

fn range_text(range: &Range) -> (r: Vec<char>)
    ensures
        r@ == range_repr(*range),
{
    let mut out: Vec<char> = Vec::new();
    push_str(&mut out, "range(");
    push_int(&mut out, range.start);
    push_str(&mut out, ", ");
    push_int(&mut out, range.stop);
    if range.step != 1 {
        push_str(&mut out, ", ");
        push_int(&mut out, range.step);
    }
    push_str(&mut out, ")");
    assert(out@ =~= range_repr(*range));
    out
}

fn file_text(file: &OpenFile) -> (r: Vec<char>)
    ensures
        r@ == file_repr(*file),
{
    let mut out: Vec<char> = Vec::new();
    push_str(&mut out, "<");
    push_str(&mut out, file.file_type().as_str());
    push_str(&mut out, " name=");
    string_repr_fmt(file.path(), &mut out);
    push_str(&mut out, " mode=");
    string_repr_fmt(file.mode(), &mut out);
    push_str(&mut out, ">");
    assert(out@ =~= file_repr(*file));
    out
}

fn enclosed(before: &str, text: &str, after: &str) -> (r: Vec<char>)
    ensures
        r@ == before@ + text@ + after@,
{
    let mut out: Vec<char> = Vec::new();
    push_str(&mut out, before);
    push_str(&mut out, text);
    push_str(&mut out, after);
    assert(out@ =~= before@ + text@ + after@);
    out
}

/// The `repr` of a heap entry that holds no values.
fn plain_text(d: &HeapData, vm: &VM) -> (r: RunResult<Vec<char>>)
    requires
        vm.wf(),
        crate::heap::data_ok(*d, vm.entries().len(), vm.interns),
    ensures
        match plain_repr(*vm, *d) {
            Ok(text) => r matches Ok(out) && out@ == text,
            Err(e) => raises(r, e),
        },
{
    match d {
        HeapData::Str(s) => {
            let mut out: Vec<char> = Vec::new();
            string_repr_fmt(s.as_str(), &mut out);
            assert(out@ =~= repr_text(s@));
            Ok(out)
        },
        HeapData::Bytes(b) => {
            let mut out: Vec<char> = Vec::new();
            bytes_repr_fmt(b.as_slice(), &mut out);
            assert(out@ =~= bytes_repr(b@));
            Ok(out)
        },
        HeapData::LongInt(li) => match li.check_str_digits_limit() {
            Ok(_) => Ok(chars_of(li.to_text().as_str())),
            Err(e) => Err(e),
        },
        HeapData::Range(range) => Ok(range_text(range)),
        HeapData::Slice(slice) => Ok(slice_text(slice)),
        HeapData::Path(path) => Ok(enclosed("PosixPath('", path.as_str(), "')")),
        HeapData::Date(date) => Ok(
            chars_of(crate::types::date::repr(*date).as_str()),
        ),
        HeapData::DateTime(moment) => Ok(
            chars_of(crate::types::datetime::repr(moment).as_str()),
        ),
        HeapData::TimeDelta(delta) => Ok(
            chars_of(crate::types::timedelta::format_repr(delta).as_str()),
        ),
        HeapData::TimeZone(tz) => {
            let quoted = match &tz.name {
                Some(name) => StringRepr(name.as_str()).to_text(),
                None => String::new(),
            };
            Ok(chars_of(tz.repr(quoted.as_str()).as_str()))
        },
        HeapData::OpenFile(file) => Ok(file_text(file)),
        HeapData::RePattern(pattern) => {
            let mut out: Vec<char> = Vec::new();
            pattern.py_repr_fmt(&mut out);
            assert(out@ =~= pattern_repr(pattern.text(), pattern.bits()));
            Ok(out)
        },
        HeapData::ReMatch(m) => {
            let mut out: Vec<char> = Vec::new();
            m.py_repr_fmt(&mut out);
            assert(out@ =~= match_repr(m.text@, whole_span(m.groups@)));
            Ok(out)
        },
        HeapData::TestContextManager(_) => Ok(chars_of("<_test_cm>")),
        HeapData::ExtFunction(name) => Ok(enclosed("<function '", name.as_str(), "' external>")),
        HeapData::Module(name) => Ok(enclosed("<module '", vm.interns.get_str(*name), "'>")),
        _ => {
            let out: Vec<char> = Vec::new();
            assert(out@ =~= Seq::<char>::empty());
            Ok(out)
        },
    }
}

fn write_glyph(out: &mut Vec<Glyph>, g: Glyph)
    ensures
        final(out)@ == old(out)@ + seq![g],
{
    out.push(g);
    assert(out@ =~= old(out)@ + seq![g]);
}

/// Writes a value that is not in the heap.
fn write_inline(v: &Value, out: &mut Vec<Glyph>, vm: &VM) -> (r: RunResult<()>)
    requires
        vm.wf(),
        vm.ok(*v),
        !(*v is Ref),
    ensures
        wrote(
            r,
            final(out)@,
            match inline_repr(*vm, *v) {
                Ok(text) => Ok(old(out)@ + text),
                Err(e) => Err(e),
            },
        ),
{
    match v {
        Value::Undefined => write_text(out, "Undefined"),
        Value::Ellipsis => write_text(out, "Ellipsis"),
        Value::PyNone => write_text(out, "None"),
        Value::Bool(b) => if *b {
            write_text(out, "True")
        } else {
            write_text(out, "False")
        },
        Value::Int(n) => {
            let mut text: Vec<char> = Vec::new();
            push_int(&mut text, *n);
            assert(text@ =~= int_digits(*n as int));
            write_chars(out, &text);
        },
        Value::Float(f) => write_glyph(out, Glyph::Float(*f)),
        Value::InternLongInt(id) => {
            let li = vm.interns.get_long_int(*id);
            match check_bits_str_digits_limit(li.bits()) {
                Err(e) => {
                    return Err(e);
                },
                Ok(_) => {},
            }
            write_text(out, li.to_text().as_str());
        },
        Value::InternString(id) => {
            let mut text: Vec<char> = Vec::new();
            string_repr_fmt(vm.interns.get_str(*id), &mut text);
            assert(text@ =~= repr_text(vm.interns.str_at(*id)));
            write_chars(out, &text);
        },
        Value::InternBytes(id) => {
            let mut text: Vec<char> = Vec::new();
            bytes_repr_fmt(vm.interns.get_bytes(*id), &mut text);
            assert(text@ =~= bytes_repr(vm.interns.bytes_at(*id)));
            write_chars(out, &text);
        },
        Value::Builtin(b) => write_glyph(out, Glyph::Builtin(*b)),
        Value::ModuleFunction(m) => write_glyph(out, Glyph::ModuleFunction(*m)),
        Value::DefFunction(f) => write_glyph(out, Glyph::DefFunction(*f)),
        Value::ExtFunction(id) => {
            let text = enclosed("<function '", vm.interns.get_str(*id), "' external>");
            write_chars(out, &text);
        },
        Value::Marker(m) => {
            let mut text: Vec<char> = Vec::new();
            m.py_repr_fmt(&mut text);
            assert(text@ =~= m.shown());
            write_chars(out, &text);
        },
        Value::Property(p) => write_glyph(out, Glyph::Property(*p)),
        Value::Ref(_) => {},
    }
    Ok(())
}

fn write_placeholder(d: &HeapData, out: &mut Vec<Glyph>)
    ensures
        final(out)@ == old(out)@ + glyphs(placeholder(*d)),
{
    match d {
        HeapData::List(_) => write_text(out, "[...]"),
        HeapData::Tuple(_) => write_text(out, "(...)"),
        HeapData::Dict(_) => write_text(out, "{...}"),
        _ => write_text(out, "..."),
    }
}

/// Writes items one level down, between two texts.
fn write_items(
    xs: &[Value],
    open: &str,
    close: &str,
    out: &mut Vec<Glyph>,
    seen: &mut AHashSet<usize>,
    depth: usize,
    vm: &VM,
) -> (r: RunResult<()>)
    requires
        vm.wf(),
        vm.all_ok(xs@),
        depth > 0,
    ensures
        visited_ids(*final(seen)) == visited_ids(*old(seen)),
        wrote(
            r,
            final(out)@,
            ended(
                repr_items(
                    *vm,
                    xs@,
                    0,
                    old(out)@ + glyphs(open@),
                    visited_ids(*old(seen)),
                    (depth - 1) as nat,
                ),
                close@,
            ),
        ),
    decreases depth, 0nat,
{
    write_text(out, open);
    let ghost start = out@;
    let ghost ids = visited_ids(*seen);
    let ghost fuel = (depth - 1) as nat;
    for i in 0..xs.len()
        invariant
            vm.wf(),
            vm.all_ok(xs@),
            depth > 0,
            fuel == depth - 1,
            start == old(out)@ + glyphs(open@),
            ids == visited_ids(*old(seen)),
            visited_ids(*seen) == ids,
            repr_items(*vm, xs@, 0, start, ids, fuel) == repr_items(
                *vm,
                xs@,
                i as int,
                out@,
                ids,
                fuel,
            ),
    {
        if i > 0 {
            write_text(out, ", ");
        }
        assert(vm.ok(xs@[i as int]));
        match write_value(&xs[i], out, seen, depth - 1, vm) {
            Err(e) => {
                return Err(e);
            },
            Ok(_) => {},
        }
    }
    write_text(out, close);
    Ok(())
}

/// Writes entries one level down, between two texts.
fn write_pairs(
    xs: &[(Value, Value)],
    bracketed: bool,
    open: &str,
    close: &str,
    out: &mut Vec<Glyph>,
    seen: &mut AHashSet<usize>,
    depth: usize,
    vm: &VM,
) -> (r: RunResult<()>)
    requires
        vm.wf(),
        pairs_ok(*vm, xs@),
        depth > 0,
    ensures
        visited_ids(*final(seen)) == visited_ids(*old(seen)),
        wrote(
            r,
            final(out)@,
            ended(
                repr_pairs(
                    *vm,
                    xs@,
                    bracketed,
                    0,
                    old(out)@ + glyphs(open@),
                    visited_ids(*old(seen)),
                    (depth - 1) as nat,
                ),
                close@,
            ),
        ),
    decreases depth, 0nat,
{
    write_text(out, open);
    let ghost start = out@;
    let ghost ids = visited_ids(*seen);
    let ghost fuel = (depth - 1) as nat;
    for i in 0..xs.len()
        invariant
            vm.wf(),
            pairs_ok(*vm, xs@),
            depth > 0,
            fuel == depth - 1,
            start == old(out)@ + glyphs(open@),
            ids == visited_ids(*old(seen)),
            visited_ids(*seen) == ids,
            repr_pairs(*vm, xs@, bracketed, 0, start, ids, fuel) == repr_pairs(
                *vm,
                xs@,
                bracketed,
                i as int,
                out@,
                ids,
                fuel,
            ),
    {
        if i > 0 {
            write_text(out, ", ");
        }
        if bracketed {
            write_text(out, "(");
        }
        assert(vm.ok(xs@[i as int].0) && vm.ok(xs@[i as int].1));
        match write_value(&xs[i].0, out, seen, depth - 1, vm) {
            Err(e) => {
                return Err(e);
            },
            Ok(_) => {},
        }
        if bracketed {
            write_text(out, ", ");
        } else {
            write_text(out, ": ");
        }
        match write_value(&xs[i].1, out, seen, depth - 1, vm) {
            Err(e) => {
                return Err(e);
            },
            Ok(_) => {},
        }
        if bracketed {
            write_text(out, ")");
        }
    }
    write_text(out, close);
    Ok(())
}

/// The fields that an executable list of fields stands for.
spec fn field_views(fields: Seq<(String, Option<Value>)>) -> Seq<(Seq<char>, Option<Value>)> {
    fields.map_values(|f: (String, Option<Value>)| (f.0@, f.1))
}

/// Whether the values of the fields exist.
spec fn fields_ok(vm: VM, fields: Seq<(String, Option<Value>)>) -> bool {
    forall|i: int|
        0 <= i < fields.len() ==> ((#[trigger] fields[i]).1 matches Some(v) ==> vm.ok(v))
}

/// Writes a name and then fields in brackets, one level down.
fn write_fields(
    name: &str,
    fields: &[(String, Option<Value>)],
    out: &mut Vec<Glyph>,
    seen: &mut AHashSet<usize>,
    depth: usize,
    vm: &VM,
) -> (r: RunResult<()>)
    requires
        vm.wf(),
        fields_ok(*vm, fields@),
        depth > 0,
    ensures
        visited_ids(*final(seen)) == visited_ids(*old(seen)),
        wrote(
            r,
            final(out)@,
            ended(
                repr_fields(
                    *vm,
                    field_views(fields@),
                    0,
                    old(out)@ + glyphs(name@) + glyphs("("@),
                    visited_ids(*old(seen)),
                    (depth - 1) as nat,
                ),
                ")"@,
            ),
        ),
    decreases depth, 0nat,
{
    write_text(out, name);
    write_text(out, "(");
    let ghost start = out@;
    let ghost ids = visited_ids(*seen);
    let ghost fuel = (depth - 1) as nat;
    let ghost views = field_views(fields@);
    for i in 0..fields.len()
        invariant
            vm.wf(),
            fields_ok(*vm, fields@),
            depth > 0,
            fuel == depth - 1,
            views == field_views(fields@),
            start == old(out)@ + glyphs(name@) + glyphs("("@),
            ids == visited_ids(*old(seen)),
            visited_ids(*seen) == ids,
            repr_fields(*vm, views, 0, start, ids, fuel) == repr_fields(
                *vm,
                views,
                i as int,
                out@,
                ids,
                fuel,
            ),
    {
        assert(views[i as int] == (fields@[i as int].0@, fields@[i as int].1));
        if i > 0 {
            write_text(out, ", ");
        }
        write_text(out, fields[i].0.as_str());
        write_text(out, "=");
        match &fields[i].1 {
            None => write_text(out, "<?>"),
            Some(v) => match write_value(v, out, seen, depth - 1, vm) {
                Err(e) => {
                    return Err(e);
                },
                Ok(_) => {},
            },
        }
    }
    write_text(out, ")");
    Ok(())
}

fn named_tuple_fields(t: &NamedTuple, vm: &VM) -> (r: Vec<(String, Option<Value>)>)
    requires
        t.wf(vm.interns),
        vm.all_ok(t.items@),
    ensures
        field_views(r@) == tuple_fields(*vm, *t),
        fields_ok(*vm, r@),
{
    let mut out: Vec<(String, Option<Value>)> = Vec::new();
    for i in 0..t.items.len()
        invariant
            t.wf(vm.interns),
            vm.all_ok(t.items@),
            out@.len() == i,
            fields_ok(*vm, out@),
            forall|j: int|
                0 <= j < i ==> (#[trigger] out@[j]).0@ == t.field_names@[j].text(vm.interns)
                    && out@[j].1 == Some(t.items@[j]),
    {
        assert(vm.ok(t.items@[i as int]));
        let name = t.field_names[i].as_str(&vm.interns).to_owned();
        out.push((name, Some(t.items[i].alias())));
    }
    assert(field_views(out@) =~= tuple_fields(*vm, *t));
    out
}

fn declared_fields(d: &Dataclass, vm: &VM) -> (r: Vec<(String, Option<Value>)>)
    requires
        crate::heap::entries_ok(d.attrs.entries@, vm.entries().len(), vm.interns),
    ensures
        field_views(r@) == instance_fields(*vm, *d),
        fields_ok(*vm, r@),
{
    let mut out: Vec<(String, Option<Value>)> = Vec::new();
    for i in 0..d.field_names.len()
        invariant
            crate::heap::entries_ok(d.attrs.entries@, vm.entries().len(), vm.interns),
            out@.len() == i,
            fields_ok(*vm, out@),
            forall|j: int|
                0 <= j < i ==> (#[trigger] out@[j]).0@ == d.field_names@[j]@ && out@[j].1
                    == named_entry(*vm, d.attrs.entries@, d.field_names@[j]@),
    {
        let name = d.field_names[i].clone();
        let value = match d.attrs.get_by_str(name.as_str(), vm) {
            Some(v) => Some(v.alias()),
            None => None,
        };
        out.push((name, value));
    }
    assert(field_views(out@) =~= instance_fields(*vm, *d));
    out
}

/// Writes a heap entry.
fn write_entry(
    id: HeapId,
    out: &mut Vec<Glyph>,
    seen: &mut AHashSet<usize>,
    depth: usize,
    vm: &VM,
) -> (r: RunResult<()>)
    requires
        vm.wf(),
        id.0 < vm.entries().len(),
    ensures
        visited_ids(*final(seen)) == visited_ids(*old(seen)),
        wrote(
            r,
            final(out)@,
            repr_data(
                *vm,
                vm.heap.data(id),
                old(out)@,
                visited_ids(*old(seen)),
                depth as nat,
            ),
        ),
    decreases depth, 1nat,
{
    proof {
        lemma_entry_ok(*vm, id);
    }
    let data = vm.heap.get(id);
    match data {
        HeapData::SetData(set) => {
            if set.items.len() == 0 {
                write_text(out, "set()");
                return Ok(());
            }
        },
        HeapData::FrozenSet(set) => {
            if set.items.len() == 0 {
                write_text(out, "frozenset()");
                return Ok(());
            }
        },
        _ => {},
    }
    if depth == 0 {
        match data {
            HeapData::List(_)
            | HeapData::Tuple(_)
            | HeapData::SetData(_)
            | HeapData::FrozenSet(_)
            | HeapData::Dict(_)
            | HeapData::NamedTuple(_)
            | HeapData::Dataclass(_) => {
                write_text(out, "...");
                return Ok(());
            },
            HeapData::DictKeysView(_)
            | HeapData::DictItemsView(_)
            | HeapData::DictValuesView(_) => {
                return Err(VM::recursion_error());
            },
            _ => {},
        }
    }
    match data {
        HeapData::List(list) => write_items(list.as_slice(), "[", "]", out, seen, depth, vm),
        HeapData::Tuple(tuple) => {
            let items = tuple.as_slice();
            let close = if items.len() == 1 {
                ",)"
            } else {
                ")"
            };
            write_items(items, "(", close, out, seen, depth, vm)
        },
        HeapData::SetData(set) => write_items(
            set.items.as_slice(),
            "{",
            "}",
            out,
            seen,
            depth,
            vm,
        ),
        HeapData::FrozenSet(set) => write_items(
            set.items.as_slice(),
            "frozenset({",
            "})",
            out,
            seen,
            depth,
            vm,
        ),
        HeapData::Dict(dict) => write_pairs(
            dict.entries.as_slice(),
            false,
            "{",
            "}",
            out,
            seen,
            depth,
            vm,
        ),
        HeapData::NamedTuple(tuple) => {
            let fields = named_tuple_fields(tuple, vm);
            write_fields(tuple.name(&vm.interns), &fields, out, seen, depth, vm)
        },
        HeapData::Dataclass(instance) => {
            let fields = declared_fields(instance, vm);
            write_fields(instance.name(&vm.interns), &fields, out, seen, depth, vm)
        },
        HeapData::DictKeysView(view) => {
            let pairs = viewed(vm, view.dict_id);
            proof {
                lemma_firsts_ok(*vm, pairs@);
            }
            write_items(&keys_of(pairs), "dict_keys([", "])", out, seen, depth, vm)
        },
        HeapData::DictItemsView(view) => write_pairs(
            viewed(vm, view.dict_id),
            true,
            "dict_items([",
            "])",
            out,
            seen,
            depth,
            vm,
        ),
        HeapData::DictValuesView(view) => {
            let pairs = viewed(vm, view.dict_id);
            proof {
                lemma_seconds_ok(*vm, pairs@);
            }
            write_items(&values_of(pairs), "dict_values([", "])", out, seen, depth, vm)
        },
        _ => match plain_text(data, vm) {
            Err(e) => Err(e),
            Ok(text) => {
                write_chars(out, &text);
                Ok(())
            },
        },
    }
}

/// Writes a value.
fn write_value(
    v: &Value,
    out: &mut Vec<Glyph>,
    seen: &mut AHashSet<usize>,
    depth: usize,
    vm: &VM,
) -> (r: RunResult<()>)
    requires
        vm.wf(),
        vm.ok(*v),
    ensures
        visited_ids(*final(seen)) == visited_ids(*old(seen)),
        wrote(
            r,
            final(out)@,
            repr_value(*vm, *v, old(out)@, visited_ids(*old(seen)), depth as nat),
        ),
    decreases depth, 2nat,
{
    match v {
        Value::Ref(id) => {
            if has_id(seen, id.0) {
                write_placeholder(vm.heap.get(*id), out);
                Ok(())
            } else {
                insert_id(seen, id.0);
                let result = write_entry(*id, out, seen, depth, vm);
                remove_id(seen, id.0);
                assert(visited_ids(*seen) =~= visited_ids(*old(seen)));
                result
            }
        },
        _ => write_inline(v, out, vm),
    }
}

impl Value {
    /// `repr(self)`.
    pub fn py_repr(&self, vm: &VM) -> (r: RunResult<Vec<Glyph>>)
        requires
            vm.wf(),
            vm.ok(*self),
        ensures
            match vm.value_repr(*self) {
                Ok(text) => r matches Ok(out) && out@ == text,
                Err(e) => raises(r, e),
            },
    {
        let mut out: Vec<Glyph> = Vec::new();
        let mut seen = no_ids();
        assert(out@ =~= Seq::<Glyph>::empty());
        match write_value(self, &mut out, &mut seen, vm.heap.max_depth, vm) {
            Ok(_) => Ok(out),
            Err(e) => Err(e),
        }
    }
}

/// The `str` of a heap entry where it is not its `repr`.
pub open spec fn own_str(d: HeapData) -> Option<Seq<char>> {
    match d {
        HeapData::Str(s) => Some(s@),
        HeapData::Date(date) => Some(
            iso_text(date.year as nat, date.month as nat, date.day as nat),
        ),
        HeapData::DateTime(moment) => Some(moment_text(moment, ' ')),
        HeapData::TimeZone(tz) => Some(
            timezone_str(tz.offset_seconds as int, name_text(tz.name)),
        ),
        _ => None,
    }
}

impl VM {
    /// The `str` of a value where it is not its `repr`.
    pub open spec fn own_text(self, v: Value) -> Option<Seq<char>> {
        match v {
            Value::InternString(id) => Some(self.interns.str_at(id)),
            Value::Ref(id) => own_str(self.heap.data(id)),
            _ => None,
        }
    }

    /// The `str` of a value.
    pub open spec fn value_str(self, v: Value) -> Result<Seq<Glyph>, Raised> {
        match self.own_text(v) {
            Some(text) => Ok(glyphs(text)),
            None => self.value_repr(v),
        }
    }
}

fn str_of_entry(d: &HeapData) -> (r: Option<Vec<char>>)
    requires
        d matches HeapData::Date(date) ==> date.wf(),
        d matches HeapData::DateTime(moment) ==> moment.wf(),
    ensures
        match (r, own_str(*d)) {
            (Some(text), Some(expected)) => text@ == expected,
            (None, None) => true,
            _ => false,
        },
{
    match d {
        HeapData::Str(s) => Some(chars_of(s.as_str())),
        HeapData::Date(date) => Some(chars_of(isoformat(*date).as_str())),
        HeapData::DateTime(moment) => Some(chars_of(format_isoformat(moment, ' ').as_str())),
        HeapData::TimeZone(tz) => Some(chars_of(tz.py_str().as_str())),
        _ => None,
    }
}

impl Value {
    /// `str(self)`.
    pub fn py_str(&self, vm: &VM) -> (r: RunResult<Vec<Glyph>>)
        requires
            vm.wf(),
            vm.ok(*self),
        ensures
            match vm.value_str(*self) {
                Ok(text) => r matches Ok(out) && out@ == text,
                Err(e) => raises(r, e),
            },
    {
        let text = match self {
            Value::InternString(id) => Some(chars_of(vm.interns.get_str(*id))),
            Value::Ref(id) => {
                proof {
                    lemma_entry_ok(*vm, *id);
                }
                str_of_entry(vm.heap.get(*id))
            },
            _ => None,
        };
        match text {
            Some(chars) => {
                let mut out: Vec<Glyph> = Vec::new();
                write_chars(&mut out, &chars);
                assert(out@ =~= glyphs(chars@));
                Ok(out)
            },
            None => self.py_repr(vm),
        }
    }
}

/// `char::from_u32` gives the character with a code point, if there is one.
#[verifier::external_body]
pub(crate) fn char_of_code(code: u32) -> (r: Option<char>)
    ensures
        match r {
            Some(c) => c as u32 == code,
            None => !is_scalar(code),
        },
{
    char::from_u32(code)
}

proof fn lemma_glyph_at(s: Seq<char>, i: int)
    requires
        0 <= i < s.len(),
    ensures
        glyphs(s).len() == s.len(),
        glyphs(s)[i] == Glyph::Code(s[i] as u32),
    decreases s.len(),
{
    lemma_glyphs_len(s.drop_last());
    if i < s.len() - 1 {
        lemma_glyph_at(s.drop_last(), i);
    }
}

proof fn lemma_glyphs_len(s: Seq<char>)
    ensures
        glyphs(s).len() == s.len(),
    decreases s.len(),
{
    if s.len() > 0 {
        lemma_glyphs_len(s.drop_last());
    }
}

/// The text that glyphs spell, if they are all characters.
pub fn spelled(out: &[Glyph]) -> (r: Option<String>)
    ensures
        match r {
            Some(text) => glyphs(text@) == out@,
            None => forall|s: Seq<char>| #[trigger] glyphs(s) != out@,
        },
{
    let mut chars: Vec<char> = Vec::new();
    assert(glyphs(chars@) =~= out@.take(0));
    for i in 0..out.len()
        invariant
            chars@.len() == i,
            glyphs(chars@) == out@.take(i as int),
    {
        let found = match out[i] {
            Glyph::Code(code) => char_of_code(code),
            _ => None,
        };
        match found {
            Some(c) => {
                let ghost before = chars@;
                chars.push(c);
                proof {
                    assert(chars@.drop_last() =~= before);
                    assert(glyphs(chars@) =~= out@.take(i + 1));
                }
            },
            None => {
                proof {
                    assert forall|s: Seq<char>| #[trigger] glyphs(s) != out@ by {
                        if glyphs(s) == out@ {
                            lemma_glyphs_len(s);
                            lemma_glyph_at(s, i as int);
                            char_is_scalar(s[i as int]);
                        }
                    }
                }
                return None;
            },
        }
    }
    assert(out@.take(out@.len() as int) =~= out@);
    Some(string_of(&chars))
}

/// What `str()` makes: a string, or what the host has to complete.
#[derive(Debug)]
pub enum StrMade {
    Value(Value),
    Written(Vec<Glyph>),
}

/// The parameters of `str`.
pub open spec fn str_signature() -> Signature {
    Signature { label: "str()", subject: "str()", required: 0, max_positional: 1 }
}

/// Whether `str(object)` did what it should.
pub open spec fn str_init_done(before: VM, after: VM, r: RunResult<StrMade>, args: ArgValues) -> bool {
    match args.signature_error(str_signature(), seq!["object"@], before.interns) {
        Some(e) => raises(r, e) && after == before,
        None => match args.argument(0, "object"@, before.interns) {
            None => after == before && r == Ok::<StrMade, RunError>(
                StrMade::Value(Value::InternString(StaticStrings::EmptyString.spec_id())),
            ),
            Some(v) => match before.value_str(v) {
                Err(e) => raises(r, e) && after == before,
                Ok(text) => (exists|s: Seq<char>, x: RunResult<Value>|
                    {
                        &&& glyphs(s) == text
                        &&& #[trigger] string_result(before, after, x, s)
                        &&& match x {
                            Ok(v) => r == Ok::<StrMade, RunError>(StrMade::Value(v)),
                            Err(e) => r == Err::<StrMade, RunError>(e),
                        }
                    }) || {
                    &&& forall|s: Seq<char>| #[trigger] glyphs(s) != text
                    &&& r matches Ok(StrMade::Written(out)) && out@ == text
                    &&& after == before
                },
            },
        },
    }
}

impl Str {
    /// `str(object)`; without an argument the empty string.
    pub fn init(vm: &mut VM, args: ArgValues) -> (r: RunResult<StrMade>)
        requires
            old(vm).wf(),
            args.ok(old(vm).entries().len(), old(vm).interns),
        ensures
            final(vm).wf(),
            r matches Ok(StrMade::Value(v)) ==> final(vm).ok(v),
            exists|mid: VM| #[trigger]
                args.consumed(mid, *final(vm)) && str_init_done(*old(vm), mid, r, args),
    {
        let ghost given = args;
        let r = Self::init_from(vm, &args);
        let ghost mid = *vm;
        args.release(vm);
        assert(given.consumed(mid, *vm));
        r
    }

    /// The same without taking the arguments.
    fn init_from(vm: &mut VM, args: &ArgValues) -> (r: RunResult<StrMade>)
        requires
            old(vm).wf(),
            args.ok(old(vm).entries().len(), old(vm).interns),
        ensures
            final(vm).wf(),
            r matches Ok(StrMade::Value(v)) ==> final(vm).ok(v),
            str_init_done(*old(vm), *final(vm), r, *args),
    {
        let params: [&'static str; 1] = ["object"];
        let signature = Signature {
            label: "str()",
            subject: "str()",
            required: 0,
            max_positional: 1,
        };
        proof {
            assert(param_texts(params@) =~= seq!["object"@]);
            lemma_argument_ok(*args, 0, "object"@, vm.entries().len(), vm.interns);
        }
        match args.check_signature(&signature, &params, &vm.interns) {
            Ok(_) => {},
            Err(e) => {
                return Err(e);
            },
        }
        let object = match args.get_argument(0, "object", &vm.interns) {
            None => {
                return Ok(StrMade::Value(Value::InternString(StaticStrings::EmptyString.id())));
            },
            Some(v) => v,
        };
        let out = match object.py_str(vm) {
            Err(e) => {
                return Err(e);
            },
            Ok(out) => out,
        };
        match spelled(&out) {
            None => Ok(StrMade::Written(out)),
            Some(text) => {
                let ghost s = text@;
                let x = allocate_string(text, vm);
                assert(string_result(*old(vm), *vm, x, s));
                match x {
                    Ok(v) => Ok(StrMade::Value(v)),
                    Err(e) => Err(e),
                }
            },
        }
    }
}

/// An object that is being written is not entered again, however it is reached:
/// a placeholder stands for it.
pub proof fn lemma_no_reentry(vm: VM, id: HeapId, out: Seq<Glyph>, seen: Set<usize>, fuel: nat)
    requires
        seen.contains(id.0),
    ensures
        repr_value(vm, Value::Ref(id), out, seen, fuel) == Ok::<Seq<Glyph>, Raised>(
            out + glyphs(placeholder(vm.heap.data(id))),
        ),
{
}

/// A list whose only item is itself is written as `[[...]]`.
pub proof fn lemma_self_containing_list(vm: VM, id: HeapId)
    requires
        vm.heap.data(id) matches HeapData::List(list) && list.items@ == seq![Value::Ref(id)],
        vm.heap.max_depth > 0,
    ensures
        vm.value_repr(Value::Ref(id)) == Ok::<Seq<Glyph>, Raised>(
            glyphs("["@) + glyphs("[...]"@) + glyphs("]"@),
        ),
{
    let fuel = (vm.heap.max_depth - 1) as nat;
    let seen = Set::<usize>::empty().insert(id.0);
    let xs = seq![Value::Ref(id)];
    let open = Seq::<Glyph>::empty() + glyphs("["@);
    assert(open =~= glyphs("["@));
    lemma_no_reentry(vm, id, open, seen, fuel);
    assert(separated(open, 0) == open);
    assert(repr_items(vm, xs, 1, open + glyphs("[...]"@), seen, fuel) == Ok::<Seq<Glyph>, Raised>(
        open + glyphs("[...]"@),
    ));
    assert(repr_items(vm, xs, 0, open, seen, fuel) == Ok::<Seq<Glyph>, Raised>(
        open + glyphs("[...]"@),
    ));
}

} // verus!
