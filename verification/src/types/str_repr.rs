//! The `repr` of strings.

use unicode_general_category::get_general_category;
use vstd::prelude::*;

use crate::text::{chars_of, has_char, push_str, same_text, string_of};

verus! {

/// The two letters of a character's Unicode general category.
pub uninterp spec fn general_category(c: char) -> Seq<char>;

/// `unicode_general_category::get_general_category`, as the abbreviation that
/// `GeneralCategory::abbreviation` gives of it.
#[verifier::external_body]
pub(crate) fn category_of(c: char) -> (r: &'static str)
    ensures
        r@ == general_category(c),
{
    get_general_category(c).abbreviation()
}

/// Whether a character of the given category is written as a number: control,
/// format, surrogate, private and unassigned code points and separators, but
/// not the space.
pub open spec fn escaped_category(c: char, category: Seq<char>) -> bool {
    c != ' ' && (category == "Cc"@ || category == "Cf"@ || category == "Cs"@ || category == "Co"@
        || category == "Cn"@ || category == "Zl"@ || category == "Zp"@ || category == "Zs"@)
}

/// Whether a character of the given category is written as a number.
pub fn category_needs_escape(c: char, category: &str) -> (r: bool)
    ensures
        r == escaped_category(c, category@),
{
    c != ' ' && (same_text(category, "Cc") || same_text(category, "Cf") || same_text(category, "Cs")
        || same_text(category, "Co") || same_text(category, "Cn") || same_text(category, "Zl")
        || same_text(category, "Zp") || same_text(category, "Zs"))
}

/// Whether a character is written as a number.
pub fn repr_needs_escape(c: char) -> (r: bool)
    ensures
        r == escaped_category(c, general_category(c)),
{
    category_needs_escape(c, category_of(c))
}

/// The character of a hexadecimal digit.
pub open spec fn hex_digit(d: int) -> char {
    if d < 10 {
        (48 + d) as char
    } else {
        (87 + d) as char
    }
}

/// The last `width` hexadecimal digits of `n`.
pub open spec fn hex_digits(n: int, width: nat) -> Seq<char>
    decreases width,
{
    if width == 0 {
        Seq::empty()
    } else {
        hex_digits(n / 16, (width - 1) as nat).push(hex_digit(n % 16))
    }
}

/// The escape of a character by its number, as short as it can be.
pub open spec fn numeric_escape(c: char) -> Seq<char> {
    let cp = c as int;
    if cp <= 0xFF {
        "\\x"@ + hex_digits(cp, 2)
    } else if cp <= 0xFFFF {
        "\\u"@ + hex_digits(cp, 4)
    } else {
        "\\U"@ + hex_digits(cp, 8)
    }
}

/// A character of the given category within a `repr`.
pub open spec fn shown_as(c: char, quote: char, category: Seq<char>) -> Seq<char> {
    if c == '\\' {
        "\\\\"@
    } else if c == '\n' {
        "\\n"@
    } else if c == '\t' {
        "\\t"@
    } else if c == '\r' {
        "\\r"@
    } else if c == quote {
        seq!['\\', quote]
    } else if escaped_category(c, category) {
        numeric_escape(c)
    } else {
        seq![c]
    }
}

/// The characters of a text within a `repr`.
pub open spec fn shown_chars(s: Seq<char>, quote: char) -> Seq<char>
    decreases s.len(),
{
    if s.len() == 0 {
        Seq::empty()
    } else {
        shown_chars(s.drop_last(), quote) + shown_as(s.last(), quote, general_category(s.last()))
    }
}

/// The quote around a `repr`: double where that spares escaping single ones.
pub open spec fn quote_for(s: Seq<char>) -> char {
    if s.contains('\'') && !s.contains('"') {
        '"'
    } else {
        '\''
    }
}

/// The `repr` of a text.
pub open spec fn repr_text(s: Seq<char>) -> Seq<char> {
    seq![quote_for(s)] + shown_chars(s, quote_for(s)) + seq![quote_for(s)]
}

pub(crate) fn push_hex(out: &mut Vec<char>, n: u32, width: u32)
    ensures
        final(out)@ == old(out)@ + hex_digits(n as int, width as nat),
    decreases width,
{
    if width == 0 {
        assert(out@ =~= old(out)@ + hex_digits(n as int, 0));
        return;
    }
    push_hex(out, n / 16, width - 1);
    let d: u8 = (n % 16) as u8;
    let c: char = if d < 10 {
        (48 + d) as char
    } else {
        (87 + d) as char
    };
    out.push(c);
    assert(out@ =~= old(out)@ + hex_digits(n as int, width as nat));
}

/// Writes the escape of a character by its number.
pub fn write_char_escape(c: char, out: &mut Vec<char>)
    ensures
        final(out)@ == old(out)@ + numeric_escape(c),
{
    let cp: u32 = c as u32;
    if cp <= 0xFF {
        push_str(out, "\\x");
        push_hex(out, cp, 2);
    } else if cp <= 0xFFFF {
        push_str(out, "\\u");
        push_hex(out, cp, 4);
    } else {
        push_str(out, "\\U");
        push_hex(out, cp, 8);
    }
    assert(out@ =~= old(out)@ + numeric_escape(c));
}

/// Writes a character of the given category as it stands within a `repr`.
pub fn write_shown_char(c: char, quote: char, category: &str, out: &mut Vec<char>)
    ensures
        final(out)@ == old(out)@ + shown_as(c, quote, category@),
{
    if c == '\\' {
        push_str(out, "\\\\");
    } else if c == '\n' {
        push_str(out, "\\n");
    } else if c == '\t' {
        push_str(out, "\\t");
    } else if c == '\r' {
        push_str(out, "\\r");
    } else if c == quote {
        out.push('\\');
        out.push(quote);
        assert(out@ =~= old(out)@ + seq!['\\', quote]);
    } else if category_needs_escape(c, category) {
        write_char_escape(c, out);
    } else {
        out.push(c);
        assert(out@ =~= old(out)@ + seq![c]);
    }
}

/// Writes the `repr` of a string.
pub fn string_repr_fmt(s: &str, f: &mut Vec<char>)
    ensures
        final(f)@ == old(f)@ + repr_text(s@),
{
    let chars = chars_of(s);
    let quote: char = if has_char(&chars, '\'') && !has_char(&chars, '"') {
        '"'
    } else {
        '\''
    };
    f.push(quote);
    let ghost start = f@;
    assert(s@.take(0) =~= Seq::empty());
    assert(start + shown_chars(s@.take(0), quote) =~= start);
    for i in 0..chars.len()
        invariant
            chars@ == s@,
            f@ == start + shown_chars(s@.take(i as int), quote),
    {
        let c = chars[i];
        write_shown_char(c, quote, category_of(c), f);
        proof {
            assert(s@.take(i + 1).drop_last() =~= s@.take(i as int));
            assert(f@ =~= start + shown_chars(s@.take(i + 1), quote));
        }
    }
    f.push(quote);
    proof {
        assert(s@.take(s@.len() as int) =~= s@);
        assert(f@ =~= old(f)@ + repr_text(s@));
    }
}

/// A string to be shown as its `repr`.
#[derive(Debug)]
pub struct StringRepr<'a>(pub &'a str);

impl<'a> StringRepr<'a> {
    /// The `repr`.
    pub fn to_text(&self) -> (r: String)
        ensures
            r@ == repr_text(self.0@),
    {
        let mut out: Vec<char> = Vec::new();
        string_repr_fmt(self.0, &mut out);
        assert(out@ =~= repr_text(self.0@));
        string_of(&out)
    }
}

} // verus!
