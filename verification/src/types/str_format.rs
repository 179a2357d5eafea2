//! Padding, tabs and joining.

use vstd::prelude::*;

use crate::text::{byte_len, chars_of, push_range};

verus! {

/// `n` times the same character.
pub open spec fn repeated(c: char, n: int) -> Seq<char> {
    Seq::new(n as nat, |i: int| c)
}

/// The text in the middle of `width` characters; an odd fill character goes right.
pub open spec fn centered(s: Seq<char>, width: int, fill: char) -> Seq<char> {
    if width <= s.len() {
        s
    } else {
        let pad = width - s.len();
        repeated(fill, pad / 2) + s + repeated(fill, pad - pad / 2)
    }
}

/// The text at the left of `width` characters.
pub open spec fn left_justified(s: Seq<char>, width: int, fill: char) -> Seq<char> {
    if width <= s.len() {
        s
    } else {
        s + repeated(fill, width - s.len())
    }
}

/// The text at the right of `width` characters.
pub open spec fn right_justified(s: Seq<char>, width: int, fill: char) -> Seq<char> {
    if width <= s.len() {
        s
    } else {
        repeated(fill, width - s.len()) + s
    }
}

/// The text filled with zeros, after its sign if it has one.
pub open spec fn zero_filled(s: Seq<char>, width: int) -> Seq<char> {
    if width <= s.len() {
        s
    } else if s.len() > 0 && (s[0] == '+' || s[0] == '-') {
        seq![s[0]] + repeated('0', width - s.len()) + s.skip(1)
    } else {
        repeated('0', width - s.len()) + s
    }
}

/// The bytes that a character takes in UTF-8.
pub open spec fn utf8_width(c: char) -> int {
    let cp = c as int;
    if cp < 0x80 {
        1
    } else if cp < 0x800 {
        2
    } else if cp < 0x10000 {
        3
    } else {
        4
    }
}

/// The bytes that a padded text takes: those of the text, and the fill.
pub open spec fn padded_size(s: Seq<char>, width: int, fill: char) -> int {
    if width <= s.len() {
        0
    } else {
        vstd::utf8::encode_utf8(s).len() + (width - s.len()) * utf8_width(fill)
    }
}

/// The bytes that a character takes in UTF-8.
pub fn width_of(c: char) -> (r: u8)
    ensures
        r == utf8_width(c),
{
    let cp: u32 = c as u32;
    if cp < 0x80 {
        1
    } else if cp < 0x800 {
        2
    } else if cp < 0x10000 {
        3
    } else {
        4
    }
}

fn push_repeated(out: &mut Vec<char>, c: char, n: usize)
    ensures
        final(out)@ == old(out)@ + repeated(c, n as int),
{
    assert(out@ =~= old(out)@ + repeated(c, 0));
    for i in 0..n
        invariant
            out@ == old(out)@ + repeated(c, i as int),
    {
        out.push(c);
        assert(out@ =~= old(out)@ + repeated(c, i + 1));
    }
}

/// The bytes that a padded text takes.
pub fn size_padded(s: &str, width: usize, fill: char) -> (r: u128)
    ensures
        r == padded_size(s@, width as int, fill),
{
    let chars = chars_of(s);
    let len: usize = chars.len();
    if width <= len {
        return 0;
    }
    let pad: u128 = (width - len) as u128;
    let each: u128 = width_of(fill) as u128;
    let fills: u128 = if each == 1 {
        pad
    } else if each == 2 {
        pad + pad
    } else if each == 3 {
        pad + pad + pad
    } else {
        pad + pad + pad + pad
    };
    proof {
        assert(fills == pad * each) by (nonlinear_arith)
            requires
                each == 1 ==> fills == pad,
                each == 2 ==> fills == pad + pad,
                each == 3 ==> fills == pad + pad + pad,
                each == 4 ==> fills == pad + pad + pad + pad,
                1 <= each <= 4,
        ;
    }
    byte_len(s) as u128 + fills
}

/// The text in the middle of `width` characters.
pub fn center(s: &str, width: usize, fill: char) -> (r: Vec<char>)
    ensures
        r@ == centered(s@, width as int, fill),
{
    let chars = chars_of(s);
    let len: usize = chars.len();
    if width <= len {
        return chars;
    }
    let pad: usize = width - len;
    let left: usize = pad / 2;
    let mut out: Vec<char> = Vec::new();
    push_repeated(&mut out, fill, left);
    push_range(&mut out, &chars, 0, len);
    push_repeated(&mut out, fill, pad - left);
    proof {
        assert(chars@.subrange(0, len as int) =~= s@);
        assert(out@ =~= centered(s@, width as int, fill));
    }
    out
}

/// The text at the left of `width` characters.
pub fn ljust(s: &str, width: usize, fill: char) -> (r: Vec<char>)
    ensures
        r@ == left_justified(s@, width as int, fill),
{
    let mut out = chars_of(s);
    let len: usize = out.len();
    if width > len {
        push_repeated(&mut out, fill, width - len);
    }
    out
}

/// The text at the right of `width` characters.
pub fn rjust(s: &str, width: usize, fill: char) -> (r: Vec<char>)
    ensures
        r@ == right_justified(s@, width as int, fill),
{
    let chars = chars_of(s);
    let len: usize = chars.len();
    if width <= len {
        return chars;
    }
    let mut out: Vec<char> = Vec::new();
    push_repeated(&mut out, fill, width - len);
    push_range(&mut out, &chars, 0, len);
    proof {
        assert(chars@.subrange(0, len as int) =~= s@);
        assert(out@ =~= right_justified(s@, width as int, fill));
    }
    out
}

/// The text filled with zeros, after its sign if it has one.
pub fn zfill(s: &str, width: usize) -> (r: Vec<char>)
    ensures
        r@ == zero_filled(s@, width as int),
{
    let chars = chars_of(s);
    let len: usize = chars.len();
    if width <= len {
        return chars;
    }
    let pad: usize = width - len;
    let mut out: Vec<char> = Vec::new();
    if len > 0 && (chars[0] == '+' || chars[0] == '-') {
        out.push(chars[0]);
        push_repeated(&mut out, '0', pad);
        push_range(&mut out, &chars, 1, len);
        assert(out@ =~= zero_filled(s@, width as int));
    } else {
        push_repeated(&mut out, '0', pad);
        push_range(&mut out, &chars, 0, len);
        assert(out@ =~= zero_filled(s@, width as int));
    }
    out
}

/// The column after a text, where a tab goes to the next multiple of `tabsize`
/// and a line break to the start.
pub open spec fn column_after(s: Seq<char>, tabsize: int) -> int
    decreases s.len(),
{
    if s.len() == 0 {
        0
    } else {
        let column = column_after(s.drop_last(), tabsize);
        if s.last() == '\t' {
            if tabsize > 0 {
                column + (tabsize - column % tabsize)
            } else {
                column
            }
        } else if s.last() == '\n' || s.last() == '\r' {
            0
        } else {
            column + 1
        }
    }
}

/// The text with spaces in place of its tabs.
pub open spec fn tabs_expanded(s: Seq<char>, tabsize: int) -> Seq<char>
    decreases s.len(),
{
    if s.len() == 0 {
        s
    } else {
        let before = tabs_expanded(s.drop_last(), tabsize);
        if s.last() == '\t' {
            if tabsize > 0 {
                before + repeated(
                    ' ',
                    tabsize - column_after(s.drop_last(), tabsize) % tabsize,
                )
            } else {
                before
            }
        } else {
            before.push(s.last())
        }
    }
}

/// The bytes that a text takes in UTF-8, character by character.
pub open spec fn utf8_size(s: Seq<char>) -> int
    decreases s.len(),
{
    if s.len() == 0 {
        0
    } else {
        utf8_size(s.drop_last()) + utf8_width(s.last())
    }
}

/// A text takes at least as many bytes as it has characters, and a part of it
/// at most as many as the whole.
pub proof fn lemma_utf8_size(s: Seq<char>, k: int)
    requires
        0 <= k <= s.len(),
    ensures
        utf8_size(s.take(k)) <= utf8_size(s),
        k <= utf8_size(s.take(k)),
    decreases s.len(),
{
    if k == s.len() {
        assert(s.take(k) =~= s);
        if k > 0 {
            lemma_utf8_size(s.drop_last(), k - 1);
            assert(s.drop_last().take(k - 1) =~= s.drop_last());
        }
    } else {
        lemma_utf8_size(s.drop_last(), k);
        assert(s.drop_last().take(k) =~= s.take(k));
    }
}

/// The size of a text that is put together from two.
pub proof fn lemma_utf8_size_concat(a: Seq<char>, b: Seq<char>)
    ensures
        utf8_size(a + b) == utf8_size(a) + utf8_size(b),
    decreases b.len(),
{
    if b.len() == 0 {
        assert(a + b =~= a);
    } else {
        lemma_utf8_size_concat(a, b.drop_last());
        assert((a + b).drop_last() =~= a + b.drop_last());
    }
}

/// The size of spaces.
proof fn lemma_spaces_size(n: nat)
    ensures
        utf8_size(repeated(' ', n as int)) == n,
    decreases n,
{
    if n > 0 {
        lemma_spaces_size((n - 1) as nat);
        assert(repeated(' ', n as int).drop_last() =~= repeated(' ', n - 1));
    }
}

/// Expanding a longer text takes at least as many bytes.
proof fn lemma_expanded_grows(s: Seq<char>, k: int, tabsize: int)
    requires
        0 <= k <= s.len(),
        tabsize >= 0,
    ensures
        utf8_size(tabs_expanded(s.take(k), tabsize)) <= utf8_size(tabs_expanded(s, tabsize)),
        column_after(s, tabsize) >= 0,
        column_after(s, tabsize) <= tabs_expanded(s, tabsize).len(),
    decreases s.len(),
{
    if s.len() > 0 {
        let last = s.len() - 1;
        lemma_expanded_grows(s.drop_last(), if k < s.len() { k } else { last }, tabsize);
        let before = tabs_expanded(s.drop_last(), tabsize);
        let after = tabs_expanded(s, tabsize);
        assert(after.take(before.len() as int) =~= before);
        lemma_utf8_size(after, before.len() as int);
        if k < s.len() {
            assert(s.drop_last().take(k) =~= s.take(k));
        } else {
            assert(s.take(k) =~= s);
        }
    } else {
        assert(s.take(k) =~= s);
    }
}

/// Expands tabs; `None` when the result would take more than `limit` bytes.
pub fn expand_tabs(s: &str, tabsize: usize, limit: usize) -> (r: Option<Vec<char>>)
    ensures
        match r {
            Some(out) => {
                &&& out@ == tabs_expanded(s@, tabsize as int)
                &&& utf8_size(out@) <= limit
            },
            None => utf8_size(tabs_expanded(s@, tabsize as int)) > limit,
        },
{
    let chars = chars_of(s);
    let mut out: Vec<char> = Vec::new();
    let mut column: usize = 0;
    let mut bytes: usize = 0;
    assert(s@.take(0) =~= Seq::empty());
    for i in 0..chars.len()
        invariant
            chars@ == s@,
            out@ == tabs_expanded(s@.take(i as int), tabsize as int),
            column == column_after(s@.take(i as int), tabsize as int),
            bytes == utf8_size(out@),
            bytes <= limit,
    {
        let c = chars[i];
        let ghost before = out@;
        let ghost all = tabs_expanded(s@, tabsize as int);
        proof {
            assert(s@.take(i + 1).drop_last() =~= s@.take(i as int));
            lemma_expanded_grows(s@, i + 1, tabsize as int);
            lemma_expanded_grows(s@.take(i as int), 0, tabsize as int);
            lemma_utf8_size(out@, out@.len() as int);
            assert(out@.take(out@.len() as int) =~= out@);
        }
        if c == '\t' {
            if tabsize > 0 {
                let spaces: usize = tabsize - (column % tabsize);
                proof {
                    lemma_utf8_size_concat(before, repeated(' ', spaces as int));
                    lemma_spaces_size(spaces as nat);
                }
                if spaces > limit - bytes {
                    return None;
                }
                push_repeated(&mut out, ' ', spaces);
                column = column + spaces;
                bytes = bytes + spaces;
            }
        } else {
            let width: usize = width_of(c) as usize;
            assert(before.push(c).drop_last() =~= before);
            if width > limit - bytes {
                return None;
            }
            out.push(c);
            bytes = bytes + width;
            if c == '\n' || c == '\r' {
                column = 0;
            } else {
                column = column + 1;
            }
        }
    }
    assert(s@.take(chars@.len() as int) =~= s@);
    Some(out)
}

} // verus!
