//! String literals, and what the `repr` of a text denotes.

use vstd::prelude::*;

use crate::types::str_repr::{
    general_category, hex_digit, hex_digits, numeric_escape, quote_for, repr_text, shown_as,
    shown_chars,
};

verus! {

/// The value of a hexadecimal digit.
pub open spec fn hex_digit_value(c: char) -> Option<int> {
    if '0' <= c <= '9' {
        Some(c as int - '0' as int)
    } else if 'a' <= c <= 'f' {
        Some(c as int - 'a' as int + 10)
    } else if 'A' <= c <= 'F' {
        Some(c as int - 'A' as int + 10)
    } else {
        None
    }
}

/// The number that hexadecimal digits write.
pub open spec fn hex_value(digits: Seq<char>) -> Option<int>
    decreases digits.len(),
{
    if digits.len() == 0 {
        Some(0)
    } else {
        match (hex_value(digits.drop_last()), hex_digit_value(digits.last())) {
            (Some(n), Some(d)) => Some(n * 16 + d),
            _ => None,
        }
    }
}

/// Whether a number is the code of a character.
pub open spec fn is_code(n: int) -> bool {
    0 <= n <= 0xD7FF || 0xE000 <= n <= 0x10FFFF
}

/// How many hexadecimal digits follow the letter of an escape.
pub open spec fn escape_width(c: char) -> Option<int> {
    if c == 'x' {
        Some(2)
    } else if c == 'u' {
        Some(4)
    } else if c == 'U' {
        Some(8)
    } else {
        None
    }
}

/// The character that a letter or a sign behind a backslash stands for.
pub open spec fn simple_escape(c: char) -> Option<char> {
    if c == 'n' {
        Some('\n')
    } else if c == 't' {
        Some('\t')
    } else if c == 'r' {
        Some('\r')
    } else if c == '\\' || c == '\'' || c == '"' {
        Some(c)
    } else {
        None
    }
}

/// The first character of a literal and what is left behind it; nothing where the
/// literal ends too early or is none.
pub open spec fn first_denoted(body: Seq<char>, quote: char) -> Option<(char, Seq<char>)> {
    if body.len() == 0 || body[0] == quote || body[0] == '\n' {
        None
    } else if body[0] != '\\' {
        Some((body[0], body.skip(1)))
    } else if body.len() < 2 {
        None
    } else {
        match (simple_escape(body[1]), escape_width(body[1])) {
            (Some(c), _) => Some((c, body.skip(2))),
            (None, None) => None,
            (None, Some(width)) => if body.len() < 2 + width {
                None
            } else {
                match hex_value(body.subrange(2, 2 + width)) {
                    Some(n) => if is_code(n) {
                        Some((n as char, body.skip(2 + width)))
                    } else {
                        None
                    },
                    None => None,
                }
            },
        }
    }
}

/// The text that stands between the quotes of a literal.
pub open spec fn denoted_body(body: Seq<char>, quote: char) -> Option<Seq<char>>
    decreases body.len(),
{
    if body.len() == 0 {
        Some(Seq::empty())
    } else {
        match first_denoted(body, quote) {
            Some((c, rest)) => if rest.len() < body.len() {
                match denoted_body(rest, quote) {
                    Some(text) => Some(seq![c] + text),
                    None => None,
                }
            } else {
                None
            },
            None => None,
        }
    }
}

/// The text that a string literal denotes, if it is one.
pub open spec fn denoted(literal: Seq<char>) -> Option<Seq<char>> {
    let n = literal.len();
    if n >= 2 && (literal[0] == '\'' || literal[0] == '"') && literal[n - 1] == literal[0] {
        denoted_body(literal.subrange(1, n - 1), literal[0])
    } else {
        None
    }
}

/// Powers of sixteen.
pub open spec fn sixteens(width: nat) -> int
    decreases width,
{
    if width == 0 {
        1
    } else {
        16 * sixteens((width - 1) as nat)
    }
}

/// The digits of a number write that number.
proof fn lemma_hex(n: int, width: nat)
    requires
        0 <= n < sixteens(width),
    ensures
        hex_digits(n, width).len() == width,
        hex_value(hex_digits(n, width)) == Some(n),
    decreases width,
{
    if width > 0 {
        let less = (width - 1) as nat;
        lemma_hex(n / 16, less);
        let digits = hex_digits(n, width);
        let d = n % 16;
        assert(digits.drop_last() =~= hex_digits(n / 16, less));
        assert(digits.last() == hex_digit(d));
        if d < 10 {
            assert(hex_digit(d) as int == 48 + d);
        } else {
            assert(hex_digit(d) as int == 87 + d);
        }
        assert(hex_digit_value(hex_digit(d)) == Some(d));
    }
}

/// A character that is written by its number is read back.
proof fn lemma_numeric_escape(c: char, rest: Seq<char>, quote: char)
    requires
        quote == '\'' || quote == '"',
    ensures
        first_denoted(numeric_escape(c) + rest, quote) == Some((c, rest)),
        numeric_escape(c).len() > 0,
{
    reveal_strlit("\\x");
    reveal_strlit("\\u");
    reveal_strlit("\\U");
    reveal_with_fuel(sixteens, 9);
    let cp = c as int;
    let width: int = if cp <= 0xFF {
        2
    } else if cp <= 0xFFFF {
        4
    } else {
        8
    };
    lemma_hex(cp, width as nat);
    let digits = hex_digits(cp, width as nat);
    let body = numeric_escape(c) + rest;
    assert(body.subrange(2, 2 + width) =~= digits);
    assert(body.skip(2 + width) =~= rest);
    assert(is_code(cp));
    assert((cp as char) == c);
}

/// A character as it stands within a `repr` is read back.
proof fn lemma_shown_char(c: char, quote: char, category: Seq<char>, rest: Seq<char>)
    requires
        quote == '\'' || quote == '"',
    ensures
        first_denoted(shown_as(c, quote, category) + rest, quote) == Some((c, rest)),
        shown_as(c, quote, category).len() > 0,
{
    reveal_strlit("\\\\");
    reveal_strlit("\\n");
    reveal_strlit("\\t");
    reveal_strlit("\\r");
    let shown = shown_as(c, quote, category);
    let body = shown + rest;
    lemma_numeric_escape(c, rest, quote);
    if shown.len() == 1 {
        assert(body.skip(1) =~= rest);
    } else if shown.len() == 2 {
        assert(body.skip(2) =~= rest);
    }
}

/// What is shown of a text starts with what is shown of its first character.
proof fn lemma_shown_first(s: Seq<char>, quote: char)
    requires
        s.len() > 0,
    ensures
        shown_chars(s, quote) == shown_as(s[0], quote, general_category(s[0])) + shown_chars(
            s.skip(1),
            quote,
        ),
    decreases s.len(),
{
    if s.len() == 1 {
        assert(s.drop_last() =~= Seq::empty());
        assert(s.skip(1) =~= Seq::empty());
        assert(shown_chars(s, quote) =~= shown_as(s[0], quote, general_category(s[0]))
            + shown_chars(s.skip(1), quote));
    } else {
        lemma_shown_first(s.drop_last(), quote);
        assert(s.drop_last().skip(1) =~= s.skip(1).drop_last());
        assert(shown_chars(s, quote) =~= shown_as(s[0], quote, general_category(s[0]))
            + shown_chars(s.skip(1), quote));
    }
}

proof fn lemma_shown_denotes(s: Seq<char>, quote: char)
    requires
        quote == '\'' || quote == '"',
    ensures
        denoted_body(shown_chars(s, quote), quote) == Some(s),
    decreases s.len(),
{
    if s.len() > 0 {
        let rest = shown_chars(s.skip(1), quote);
        lemma_shown_first(s, quote);
        lemma_shown_char(s[0], quote, general_category(s[0]), rest);
        lemma_shown_denotes(s.skip(1), quote);
        assert(seq![s[0]] + s.skip(1) =~= s);
    }
}

/// The `repr` of a text, read as a literal, denotes the text.
pub proof fn lemma_repr_denotes(s: Seq<char>)
    ensures
        denoted(repr_text(s)) == Some(s),
{
    let quote = quote_for(s);
    let shown = shown_chars(s, quote);
    lemma_shown_denotes(s, quote);
    assert(repr_text(s).subrange(1, repr_text(s).len() - 1) =~= shown);
}

/// Texts that have one `repr` are the same.
pub proof fn lemma_repr_injective(a: Seq<char>, b: Seq<char>)
    requires
        repr_text(a) == repr_text(b),
    ensures
        a == b,
{
    lemma_repr_denotes(a);
    lemma_repr_denotes(b);
}

} // verus!
