//! Replacement templates: Python's back references as the engine writes them.

use vstd::prelude::*;

use crate::text::{
    chars_of, find_char, first_pos, has_char, lemma_first_pos, push_range, push_str, string_of,
};

verus! {

/// Whether a character is an ASCII digit.
pub open spec fn is_digit(c: char) -> bool {
    '0' <= c <= '9'
}

/// The reference that starts with `\g`: how many characters it takes, and what
/// stands for it. A name in angle brackets becomes one in braces; without a
/// closing bracket the rest of the text is taken as it is, and without an opening
/// one only the two characters are.
pub open spec fn named_reference(s: Seq<char>) -> (int, Seq<char>) {
    if s.len() > 2 && s[2] == '<' {
        let name = s.skip(3);
        let end = first_pos(name, '>');
        if end < name.len() {
            (end + 4, "${"@ + name.take(end) + "}"@)
        } else {
            (s.len() as int, s)
        }
    } else {
        (2, "\\g"@)
    }
}

/// The first piece of a template: how many characters it takes, and what stands
/// for it. A numbered reference `\1` becomes `$1`, two backslashes become one, any
/// other backslash stands for itself, and `$` is doubled.
pub open spec fn first_piece(s: Seq<char>) -> (int, Seq<char>) {
    if s[0] == '$' {
        (1, "$$"@)
    } else if s[0] != '\\' || s.len() == 1 {
        (1, seq![s[0]])
    } else if is_digit(s[1]) {
        (2, seq!['$', s[1]])
    } else if s[1] == 'g' {
        named_reference(s)
    } else if s[1] == '\\' {
        (2, seq!['\\'])
    } else {
        (1, seq!['\\'])
    }
}

/// A piece takes at least one character, and not more than there are.
proof fn lemma_piece(s: Seq<char>)
    requires
        s.len() > 0,
    ensures
        1 <= first_piece(s).0 <= s.len(),
{
    if s.len() > 2 {
        lemma_first_pos(s.skip(3), '>');
    }
}

/// A replacement template as the engine writes it.
pub open spec fn engine_template(s: Seq<char>) -> Seq<char>
    decreases s.len(),
{
    if s.len() == 0 || first_piece(s).0 <= 0 {
        Seq::empty()
    } else {
        first_piece(s).1 + engine_template(s.skip(first_piece(s).0))
    }
}

/// A template without backslashes and dollars stands for itself.
pub proof fn lemma_plain_template(s: Seq<char>)
    requires
        !s.contains('\\'),
        !s.contains('$'),
    ensures
        engine_template(s) == s,
    decreases s.len(),
{
    if s.len() > 0 {
        let rest = s.skip(1);
        assert(s.contains(s[0]));
        assert forall|c: char| rest.contains(c) implies s.contains(c) by {
            let i = choose|i: int| 0 <= i < rest.len() && rest[i] == c;
            assert(s[i + 1] == c);
        }
        lemma_plain_template(rest);
        assert(engine_template(s) =~= s);
    }
}

/// Writes the reference that starts with `\g` at a place; gives the place after it.
fn translate_g_backref(chars: &[char], at: usize, out: &mut Vec<char>) -> (r: usize)
    requires
        at + 2 <= chars@.len(),
        chars@[at as int] == '\\',
        chars@[at + 1] == 'g',
    ensures
        r == at + named_reference(chars@.skip(at as int)).0,
        final(out)@ == old(out)@ + named_reference(chars@.skip(at as int)).1,
{
    let ghost s = chars@.skip(at as int);
    if chars.len() - at <= 2 || chars[at + 2] != '<' {
        push_str(out, "\\g");
        return at + 2;
    }
    let end: usize = find_char(chars, '>', at + 3);
    let ghost name = s.skip(3);
    assert(name =~= chars@.skip(at + 3));
    if end < chars.len() {
        push_str(out, "${");
        push_range(out, chars, at + 3, end);
        push_str(out, "}");
        assert(name.take(end - at - 3) =~= chars@.subrange(at + 3, end as int));
        assert(out@ =~= old(out)@ + ("${"@ + name.take(end - at - 3) + "}"@));
        end + 1
    } else {
        push_range(out, chars, at, chars.len());
        assert(chars@.subrange(at as int, chars@.len() as int) =~= s);
        chars.len()
    }
}

/// Writes the piece at a place; gives the place after it.
fn translate_piece(chars: &[char], at: usize, out: &mut Vec<char>) -> (r: usize)
    requires
        at < chars@.len(),
    ensures
        r == at + first_piece(chars@.skip(at as int)).0,
        final(out)@ == old(out)@ + first_piece(chars@.skip(at as int)).1,
{
    let c = chars[at];
    if c == '$' {
        push_str(out, "$$");
        return at + 1;
    }
    if c != '\\' || chars.len() - at == 1 {
        out.push(c);
        assert(out@ =~= old(out)@ + seq![c]);
        return at + 1;
    }
    let d = chars[at + 1];
    if d >= '0' && d <= '9' {
        out.push('$');
        out.push(d);
        assert(out@ =~= old(out)@ + seq!['$', d]);
        return at + 2;
    }
    if d == 'g' {
        return translate_g_backref(chars, at, out);
    }
    out.push('\\');
    assert(out@ =~= old(out)@ + seq!['\\']);
    if d == '\\' {
        at + 2
    } else {
        at + 1
    }
}

/// A replacement template as the engine writes it.
pub fn translate_replacement(repl: &str) -> (r: String)
    ensures
        r@ == engine_template(repl@),
{
    let chars = chars_of(repl);
    if !has_char(&chars, '\\') && !has_char(&chars, '$') {
        proof {
            lemma_plain_template(repl@);
        }
        return repl.to_owned();
    }
    let mut out: Vec<char> = Vec::new();
    let mut at: usize = 0;
    assert(chars@.skip(0) =~= chars@);
    assert(out@ + engine_template(chars@) =~= engine_template(chars@));
    while at < chars.len()
        invariant
            at <= chars@.len(),
            chars@ == repl@,
            out@ + engine_template(chars@.skip(at as int)) == engine_template(chars@),
        decreases chars@.len() - at,
    {
        let ghost s = chars@.skip(at as int);
        let ghost before = out@;
        proof {
            lemma_piece(s);
        }
        at = translate_piece(&chars, at, &mut out);
        proof {
            let p = first_piece(s);
            assert(s.skip(p.0) =~= chars@.skip(at as int));
            assert(out@ + engine_template(s.skip(p.0)) =~= before + (p.1 + engine_template(
                s.skip(p.0),
            )));
        }
    }
    assert(chars@.skip(at as int) =~= Seq::empty());
    assert(out@ =~= engine_template(chars@));
    string_of(&out)
}

} // verus!
