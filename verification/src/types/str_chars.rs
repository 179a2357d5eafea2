//! Classification of characters, and the tests of strings built on it.

use vstd::prelude::*;

use crate::text::{chars_of, push_range, same_text};
use crate::types::str_repr::{category_of, general_category};

verus! {

/// Whether `char::is_alphabetic` holds of a character.
pub uninterp spec fn alphabetic(c: char) -> bool;

/// `char::is_alphabetic`: the Unicode property `Alphabetic`.
pub assume_specification[ char::is_alphabetic ](c: char) -> (r: bool)
    ensures
        r == alphabetic(c),
;

/// Whether `char::is_numeric` holds of a character.
pub uninterp spec fn numeric(c: char) -> bool;

/// `char::is_numeric`: a number of Unicode.
pub assume_specification[ char::is_numeric ](c: char) -> (r: bool)
    ensures
        r == numeric(c),
;

/// Whether a character is a letter or a number.
pub open spec fn alphanumeric(c: char) -> bool {
    alphabetic(c) || numeric(c)
}

/// `char::is_alphanumeric`: what is alphabetic or numeric.
pub assume_specification[ char::is_alphanumeric ](c: char) -> (r: bool)
    ensures
        r == (alphabetic(c) || numeric(c)),
;

/// Whether `char::is_whitespace` holds of a character.
pub uninterp spec fn whitespace(c: char) -> bool;

/// `char::is_whitespace`: the Unicode property `White_Space`.
pub assume_specification[ char::is_whitespace ](c: char) -> (r: bool)
    ensures
        r == whitespace(c),
;

/// Whether `char::is_lowercase` holds of a character.
pub uninterp spec fn lowercase(c: char) -> bool;

/// `char::is_lowercase`: the Unicode property `Lowercase`.
pub assume_specification[ char::is_lowercase ](c: char) -> (r: bool)
    ensures
        r == lowercase(c),
;

/// Whether `char::is_uppercase` holds of a character.
pub uninterp spec fn uppercase(c: char) -> bool;

/// `char::is_uppercase`: the Unicode property `Uppercase`.
pub assume_specification[ char::is_uppercase ](c: char) -> (r: bool)
    ensures
        r == uppercase(c),
;

/// The lower-case form of a character, which may be several characters.
pub uninterp spec fn lower_form(c: char) -> Seq<char>;

/// `char::to_lowercase`, collected.
#[verifier::external_body]
pub(crate) fn char_lower(c: char) -> (r: Vec<char>)
    ensures
        r@ == lower_form(c),
{
    c.to_lowercase().collect()
}

/// The upper-case form of a character, which may be several characters.
pub uninterp spec fn upper_form(c: char) -> Seq<char>;

/// `char::to_uppercase`, collected.
#[verifier::external_body]
pub(crate) fn char_upper(c: char) -> (r: Vec<char>)
    ensures
        r@ == upper_form(c),
{
    c.to_uppercase().collect()
}

/// The lower-case form of a text, which depends on the places of its characters.
pub uninterp spec fn lower_text(s: Seq<char>) -> Seq<char>;

/// `str::to_lowercase`.
#[verifier::external_body]
pub(crate) fn text_lower(s: &str) -> (r: String)
    ensures
        r@ == lower_text(s@),
{
    s.to_lowercase()
}

/// The upper-case form of a text.
pub uninterp spec fn upper_text(s: Seq<char>) -> Seq<char>;

/// `str::to_uppercase`.
#[verifier::external_body]
pub(crate) fn text_upper(s: &str) -> (r: String)
    ensures
        r@ == upper_text(s@),
{
    s.to_uppercase()
}

/// The characters of a text, each in its lower-case form.
pub open spec fn lower_each(s: Seq<char>) -> Seq<char>
    decreases s.len(),
{
    if s.len() == 0 {
        Seq::empty()
    } else {
        lower_each(s.drop_last()) + lower_form(s.last())
    }
}

/// The characters of a text, each in its upper-case form.
pub open spec fn upper_each(s: Seq<char>) -> Seq<char>
    decreases s.len(),
{
    if s.len() == 0 {
        Seq::empty()
    } else {
        upper_each(s.drop_last()) + upper_form(s.last())
    }
}

/// Whether a character is a letter of the Cherokee script, whose upper-case letters
/// are the older ones.
pub open spec fn cherokee(c: char) -> bool {
    let cp = c as int;
    ||| 0x13A0 <= cp <= 0x13F5
    ||| 0x13F8 <= cp <= 0x13FD
    ||| 0xAB70 <= cp <= 0xABBF
}

/// What a character is folded to, so that characters that differ in case only come
/// to the same: the lower-case form of the upper-case form of its lower-case form.
/// Cherokee letters are folded to upper case, and the dotless i to itself.
pub open spec fn fold_form(c: char) -> Seq<char> {
    if c as int == 0x131 {
        seq![c]
    } else if cherokee(c) {
        upper_form(c)
    } else {
        lower_each(upper_each(lower_form(c)))
    }
}

/// A text for comparing without regard to case: each character folded.
pub open spec fn folded(s: Seq<char>) -> Seq<char>
    decreases s.len(),
{
    if s.len() == 0 {
        Seq::empty()
    } else {
        folded(s.drop_last()) + fold_form(s.last())
    }
}

fn lower_chars(chars: &[char]) -> (r: Vec<char>)
    ensures
        r@ == lower_each(chars@),
{
    let mut out: Vec<char> = Vec::new();
    for i in 0..chars.len()
        invariant
            out@ == lower_each(chars@.take(i as int)),
    {
        let mut form = char_lower(chars[i]);
        out.append(&mut form);
        assert(chars@.take(i + 1).drop_last() =~= chars@.take(i as int));
    }
    assert(chars@.take(chars@.len() as int) =~= chars@);
    out
}

fn upper_chars(chars: &[char]) -> (r: Vec<char>)
    ensures
        r@ == upper_each(chars@),
{
    let mut out: Vec<char> = Vec::new();
    for i in 0..chars.len()
        invariant
            out@ == upper_each(chars@.take(i as int)),
    {
        let mut form = char_upper(chars[i]);
        out.append(&mut form);
        assert(chars@.take(i + 1).drop_last() =~= chars@.take(i as int));
    }
    assert(chars@.take(chars@.len() as int) =~= chars@);
    out
}

fn fold_char(c: char) -> (r: Vec<char>)
    ensures
        r@ == fold_form(c),
{
    let cp: u32 = c as u32;
    if cp == 0x131 {
        let out: Vec<char> = vec![c];
        assert(out@ =~= seq![c]);
        out
    } else if (0x13A0 <= cp && cp <= 0x13F5) || (0x13F8 <= cp && cp <= 0x13FD) || (0xAB70 <= cp
        && cp <= 0xABBF) {
        char_upper(c)
    } else {
        lower_chars(&upper_chars(&char_lower(c)))
    }
}

/// `str.casefold()`: the text for comparing without regard to case.
pub fn str_casefold(s: &str) -> (r: Vec<char>)
    ensures
        r@ == folded(s@),
{
    let chars = chars_of(s);
    let mut out: Vec<char> = Vec::new();
    for i in 0..chars.len()
        invariant
            out@ == folded(chars@.take(i as int)),
    {
        let mut form = fold_char(chars[i]);
        out.append(&mut form);
        assert(chars@.take(i + 1).drop_last() =~= chars@.take(i as int));
    }
    assert(chars@.take(chars@.len() as int) =~= chars@);
    out
}

/// Whether a general category is that of decimal digits.
pub open spec fn decimal_category(category: Seq<char>) -> bool {
    category == "Nd"@
}

/// Whether a character is a decimal digit of some script (Unicode category Nd).
pub open spec fn unicode_decimal(c: char) -> bool {
    decimal_category(general_category(c))
}

/// Whether a character has the Unicode property `Numeric_Type=Digit` without being a
/// decimal digit: superscripts, subscripts, circled, parenthesized and dotted digits,
/// and the digits of scripts that do not write numbers by place.
pub open spec fn other_digit(c: char) -> bool {
    let cp = c as int;
    ||| 0x00B2 <= cp <= 0x00B3
    ||| cp == 0x00B9
    ||| 0x1369 <= cp <= 0x1371
    ||| cp == 0x19DA
    ||| cp == 0x2070
    ||| 0x2074 <= cp <= 0x2079
    ||| 0x2080 <= cp <= 0x2089
    ||| 0x2460 <= cp <= 0x2468
    ||| 0x2474 <= cp <= 0x247C
    ||| 0x2488 <= cp <= 0x2490
    ||| cp == 0x24EA
    ||| 0x24F5 <= cp <= 0x24FD
    ||| cp == 0x24FF
    ||| 0x2776 <= cp <= 0x277E
    ||| 0x2780 <= cp <= 0x2788
    ||| 0x278A <= cp <= 0x2792
    ||| 0x10A40 <= cp <= 0x10A43
    ||| 0x10E60 <= cp <= 0x10E68
    ||| 0x11052 <= cp <= 0x1105A
    ||| 0x1F100 <= cp <= 0x1F10A
}

/// Whether a character of the given category is a decimal digit.
pub fn category_is_decimal(category: &str) -> (r: bool)
    ensures
        r == decimal_category(category@),
{
    same_text(category, "Nd")
}

/// Checks whether a character is a decimal digit of some script.
pub fn is_unicode_decimal(c: char) -> (r: bool)
    ensures
        r == unicode_decimal(c),
{
    category_is_decimal(category_of(c))
}

/// Whether a character of the given category is a digit in the sense of
/// `str.isdigit`.
pub open spec fn digit_of_category(c: char, category: Seq<char>) -> bool {
    decimal_category(category) || other_digit(c)
}

/// Whether a character of the given category is a digit in the sense of
/// `str.isdigit`.
pub fn category_is_digit(c: char, category: &str) -> (r: bool)
    ensures
        r == digit_of_category(c, category@),
{
    if category_is_decimal(category) {
        return true;
    }
    let cp: u32 = c as u32;
    (0x00B2 <= cp && cp <= 0x00B3)
        || cp == 0x00B9
        || (0x1369 <= cp && cp <= 0x1371)
        || cp == 0x19DA
        || cp == 0x2070
        || (0x2074 <= cp && cp <= 0x2079)
        || (0x2080 <= cp && cp <= 0x2089)
        || (0x2460 <= cp && cp <= 0x2468)
        || (0x2474 <= cp && cp <= 0x247C)
        || (0x2488 <= cp && cp <= 0x2490)
        || cp == 0x24EA
        || (0x24F5 <= cp && cp <= 0x24FD)
        || cp == 0x24FF
        || (0x2776 <= cp && cp <= 0x277E)
        || (0x2780 <= cp && cp <= 0x2788)
        || (0x278A <= cp && cp <= 0x2792)
        || (0x10A40 <= cp && cp <= 0x10A43)
        || (0x10E60 <= cp && cp <= 0x10E68)
        || (0x11052 <= cp && cp <= 0x1105A)
        || (0x1F100 <= cp && cp <= 0x1F10A)
}

/// Checks whether a character is a digit in the sense of `str.isdigit`.
pub fn is_unicode_digit(c: char) -> (r: bool)
    ensures
        r == (unicode_decimal(c) || other_digit(c)),
{
    category_is_digit(c, category_of(c))
}

/// Whether a text is not empty and the predicate holds of all its characters.
pub open spec fn nonempty_all(s: Seq<char>, pred: spec_fn(char) -> bool) -> bool {
    s.len() > 0 && forall|i: int| 0 <= i < s.len() ==> pred(#[trigger] s[i])
}

/// `str.isalpha()`: at least one character, and all are letters.
pub fn str_isalpha(s: &str) -> (r: bool)
    ensures
        r == nonempty_all(s@, |c: char| alphabetic(c)),
{
    let chars = chars_of(s);
    if chars.len() == 0 {
        return false;
    }
    for i in 0..chars.len()
        invariant
            chars@ == s@,
            forall|j: int| 0 <= j < i ==> ({
                let c = #[trigger] chars@[j];
                alphabetic(c)
            }),
    {
        let c = chars[i];
        if !c.is_alphabetic() {
            assert(!({
                let c = s@[i as int];
                alphabetic(c)
            }));
            return false;
        }
    }
    true
}

/// `str.isdigit()`: at least one character, and all are digits.
pub fn str_isdigit(s: &str) -> (r: bool)
    ensures
        r == nonempty_all(s@, |c: char| unicode_decimal(c) || other_digit(c)),
{
    let chars = chars_of(s);
    if chars.len() == 0 {
        return false;
    }
    for i in 0..chars.len()
        invariant
            chars@ == s@,
            forall|j: int| 0 <= j < i ==> ({
                let c = #[trigger] chars@[j];
                unicode_decimal(c) || other_digit(c)
            }),
    {
        let c = chars[i];
        if !is_unicode_digit(c) {
            assert(!({
                let c = s@[i as int];
                unicode_decimal(c) || other_digit(c)
            }));
            return false;
        }
    }
    true
}

/// `str.isalnum()`: at least one character, and all are letters or numbers.
pub fn str_isalnum(s: &str) -> (r: bool)
    ensures
        r == nonempty_all(s@, |c: char| alphanumeric(c)),
{
    let chars = chars_of(s);
    if chars.len() == 0 {
        return false;
    }
    for i in 0..chars.len()
        invariant
            chars@ == s@,
            forall|j: int| 0 <= j < i ==> ({
                let c = #[trigger] chars@[j];
                alphanumeric(c)
            }),
    {
        let c = chars[i];
        if !c.is_alphanumeric() {
            assert(!({
                let c = s@[i as int];
                alphanumeric(c)
            }));
            return false;
        }
    }
    true
}

/// `str.isnumeric()`: at least one character, and all are numbers.
pub fn str_isnumeric(s: &str) -> (r: bool)
    ensures
        r == nonempty_all(s@, |c: char| numeric(c)),
{
    let chars = chars_of(s);
    if chars.len() == 0 {
        return false;
    }
    for i in 0..chars.len()
        invariant
            chars@ == s@,
            forall|j: int| 0 <= j < i ==> ({
                let c = #[trigger] chars@[j];
                numeric(c)
            }),
    {
        let c = chars[i];
        if !c.is_numeric() {
            assert(!({
                let c = s@[i as int];
                numeric(c)
            }));
            return false;
        }
    }
    true
}

/// `str.isspace()`: at least one character, and all are white space.
pub fn str_isspace(s: &str) -> (r: bool)
    ensures
        r == nonempty_all(s@, |c: char| whitespace(c)),
{
    let chars = chars_of(s);
    if chars.len() == 0 {
        return false;
    }
    for i in 0..chars.len()
        invariant
            chars@ == s@,
            forall|j: int| 0 <= j < i ==> ({
                let c = #[trigger] chars@[j];
                whitespace(c)
            }),
    {
        let c = chars[i];
        if !c.is_whitespace() {
            assert(!({
                let c = s@[i as int];
                whitespace(c)
            }));
            return false;
        }
    }
    true
}

/// `str.isdecimal()`: at least one character, and all are decimal digits.
pub fn str_isdecimal(s: &str) -> (r: bool)
    ensures
        r == nonempty_all(s@, |c: char| unicode_decimal(c)),
{
    let chars = chars_of(s);
    if chars.len() == 0 {
        return false;
    }
    for i in 0..chars.len()
        invariant
            chars@ == s@,
            forall|j: int| 0 <= j < i ==> ({
                let c = #[trigger] chars@[j];
                unicode_decimal(c)
            }),
    {
        let c = chars[i];
        if !is_unicode_decimal(c) {
            assert(!({
                let c = s@[i as int];
                unicode_decimal(c)
            }));
            return false;
        }
    }
    true
}

/// Whether some character is lowercase and none is uppercase.
pub open spec fn is_lower_text(s: Seq<char>) -> bool {
    &&& exists|i: int| 0 <= i < s.len() && lowercase(#[trigger] s[i])
    &&& forall|i: int| 0 <= i < s.len() ==> !uppercase(#[trigger] s[i])
}

/// Whether some character is uppercase and none is lowercase.
pub open spec fn is_upper_text(s: Seq<char>) -> bool {
    &&& exists|i: int| 0 <= i < s.len() && uppercase(#[trigger] s[i])
    &&& forall|i: int| 0 <= i < s.len() ==> !lowercase(#[trigger] s[i])
}

/// Whether a text is a letter or an underscore, then letters, numbers and underscores.
pub open spec fn is_identifier_text(s: Seq<char>) -> bool {
    &&& s.len() > 0
    &&& alphabetic(s[0]) || s[0] == '_'
    &&& forall|i: int| 1 <= i < s.len() ==> alphanumeric(#[trigger] s[i]) || s[i] == '_'
}

/// `str.islower()`: at least one lowercase character, and none that is uppercase.
pub fn str_islower(s: &str) -> (r: bool)
    ensures
        r == is_lower_text(s@),
{
    let chars = chars_of(s);
    let mut has_cased = false;
    for i in 0..chars.len()
        invariant
            chars@ == s@,
            forall|j: int| 0 <= j < i ==> !uppercase(#[trigger] s@[j]),
            has_cased <==> exists|j: int| 0 <= j < i && lowercase(#[trigger] s@[j]),
    {
        let c = chars[i];
        if c.is_uppercase() {
            assert(uppercase(s@[i as int]));
            return false;
        }
        if c.is_lowercase() {
            assert(lowercase(s@[i as int]));
            has_cased = true;
        }
    }
    has_cased
}

/// `str.isupper()`: at least one uppercase character, and none that is lowercase.
pub fn str_isupper(s: &str) -> (r: bool)
    ensures
        r == is_upper_text(s@),
{
    let chars = chars_of(s);
    let mut has_cased = false;
    for i in 0..chars.len()
        invariant
            chars@ == s@,
            forall|j: int| 0 <= j < i ==> !lowercase(#[trigger] s@[j]),
            has_cased <==> exists|j: int| 0 <= j < i && uppercase(#[trigger] s@[j]),
    {
        let c = chars[i];
        if c.is_lowercase() {
            assert(lowercase(s@[i as int]));
            return false;
        }
        if c.is_uppercase() {
            assert(uppercase(s@[i as int]));
            has_cased = true;
        }
    }
    has_cased
}

/// `str.isidentifier()`: a letter or an underscore, then letters, numbers and underscores.
pub fn str_isidentifier(s: &str) -> (r: bool)
    ensures
        r == is_identifier_text(s@),
{
    let chars = chars_of(s);
    if chars.len() == 0 {
        return false;
    }
    if !is_xid_start(chars[0]) && chars[0] != '_' {
        return false;
    }
    let mut i: usize = 1;
    while i < chars.len()
        invariant
            chars@ == s@,
            1 <= i <= chars@.len(),
            forall|j: int| 1 <= j < i ==> alphanumeric(#[trigger] s@[j]) || s@[j] == '_',
        decreases chars@.len() - i,
    {
        if !is_xid_continue(chars[i]) {
            assert(!(alphanumeric(s@[i as int]) || s@[i as int] == '_'));
            return false;
        }
        i = i + 1;
    }
    true
}

/// Whether a character may start an identifier.
fn is_xid_start(c: char) -> (r: bool)
    ensures
        r == alphabetic(c),
{
    c.is_alphabetic()
}

/// Whether a character may continue an identifier.
fn is_xid_continue(c: char) -> (r: bool)
    ensures
        r == (alphanumeric(c) || c == '_'),
{
    c.is_alphanumeric() || c == '_'
}

/// Whether a character has case.
pub open spec fn cased(c: char) -> bool {
    uppercase(c) || lowercase(c)
}

/// Whether the character at `i` may stand where it stands in a title: upper
/// case after what has no case, lower case after what has.
pub open spec fn title_ok(s: Seq<char>, i: int) -> bool {
    let after_cased = i > 0 && cased(s[i - 1]);
    if uppercase(s[i]) {
        !after_cased
    } else if lowercase(s[i]) {
        after_cased
    } else {
        true
    }
}

/// Whether some character has case and all stand as in a title.
pub open spec fn is_title_text(s: Seq<char>) -> bool {
    &&& exists|i: int| 0 <= i < s.len() && cased(#[trigger] s[i])
    &&& forall|i: int| 0 <= i < s.len() ==> #[trigger] title_ok(s, i)
}

/// `str.istitle()`: some character has case, and all stand as in a title.
pub fn str_istitle(s: &str) -> (r: bool)
    ensures
        r == is_title_text(s@),
{
    let chars = chars_of(s);
    let mut prev_cased = false;
    let mut has_cased = false;
    for i in 0..chars.len()
        invariant
            chars@ == s@,
            prev_cased == (i > 0 && cased(s@[i - 1])),
            has_cased <==> exists|j: int| 0 <= j < i && cased(#[trigger] s@[j]),
            forall|j: int| 0 <= j < i ==> #[trigger] title_ok(s@, j),
    {
        let c = chars[i];
        if c.is_uppercase() {
            if prev_cased {
                assert(!title_ok(s@, i as int));
                return false;
            }
            assert(cased(s@[i as int]));
            prev_cased = true;
            has_cased = true;
        } else if c.is_lowercase() {
            if !prev_cased {
                assert(!title_ok(s@, i as int));
                return false;
            }
            assert(cased(s@[i as int]));
            prev_cased = true;
            has_cased = true;
        } else {
            prev_cased = false;
        }
    }
    has_cased
}

/// Whether all characters are ASCII.
pub open spec fn is_ascii_text(s: Seq<char>) -> bool {
    forall|i: int| 0 <= i < s.len() ==> (#[trigger] s[i] as u32) < 128
}

/// `str.isascii()`: all characters are ASCII.
pub fn str_isascii(s: &str) -> (r: bool)
    ensures
        r == is_ascii_text(s@),
{
    let chars = chars_of(s);
    for i in 0..chars.len()
        invariant
            chars@ == s@,
            forall|j: int| 0 <= j < i ==> (#[trigger] chars@[j] as u32) < 128,
    {
        let c = chars[i];
        if c as u32 >= 128 {
            assert(!((s@[i as int] as u32) < 128));
            return false;
        }
    }
    true
}

/// Each character in its lower-case form.
pub open spec fn flat_lower(s: Seq<char>) -> Seq<char>
    decreases s.len(),
{
    if s.len() == 0 {
        Seq::empty()
    } else {
        flat_lower(s.drop_last()) + lower_form(s.last())
    }
}

/// The first character in upper case, the others in lower case.
pub open spec fn capitalized(s: Seq<char>) -> Seq<char> {
    if s.len() == 0 {
        s
    } else {
        upper_form(s[0]) + flat_lower(s.skip(1))
    }
}

/// Upper case after what is no letter, lower case after a letter.
pub open spec fn titled(s: Seq<char>) -> Seq<char>
    decreases s.len(),
{
    if s.len() == 0 {
        s
    } else {
        let i = s.len() - 1;
        titled(s.drop_last()) + (if i > 0 && alphabetic(s[i - 1]) {
            lower_form(s[i])
        } else {
            upper_form(s[i])
        })
    }
}

/// Upper case becomes lower case and lower case upper case.
pub open spec fn case_swapped(s: Seq<char>) -> Seq<char>
    decreases s.len(),
{
    if s.len() == 0 {
        s
    } else {
        let c = s.last();
        case_swapped(s.drop_last()) + (if uppercase(c) {
            lower_form(c)
        } else if lowercase(c) {
            upper_form(c)
        } else {
            seq![c]
        })
    }
}

/// `str.capitalize()`.
pub fn str_capitalize(s: &str) -> (r: Vec<char>)
    ensures
        r@ == capitalized(s@),
{
    let chars = chars_of(s);
    let mut out: Vec<char> = Vec::new();
    if chars.len() == 0 {
        assert(out@ =~= s@);
        return out;
    }
    let first = char_upper(chars[0]);
    push_range(&mut out, &first, 0, first.len());
    assert(out@ =~= upper_form(s@[0]));
    let mut i: usize = 1;
    assert(s@.skip(1).take(0) =~= Seq::empty());
    while i < chars.len()
        invariant
            chars@ == s@,
            1 <= i <= chars@.len(),
            out@ == upper_form(s@[0]) + flat_lower(s@.skip(1).take(i - 1)),
        decreases chars@.len() - i,
    {
        let form = char_lower(chars[i]);
        push_range(&mut out, &form, 0, form.len());
        proof {
            assert(form@.subrange(0, form@.len() as int) =~= form@);
            assert(s@.skip(1).take(i as int).drop_last() =~= s@.skip(1).take(i - 1));
            assert(out@ =~= upper_form(s@[0]) + flat_lower(s@.skip(1).take(i as int)));
        }
        i = i + 1;
    }
    assert(s@.skip(1).take(chars@.len() - 1) =~= s@.skip(1));
    out
}

/// `str.title()`.
pub fn str_title(s: &str) -> (r: Vec<char>)
    ensures
        r@ == titled(s@),
{
    let chars = chars_of(s);
    let mut out: Vec<char> = Vec::new();
    let mut prev_is_cased = false;
    assert(s@.take(0) =~= Seq::empty());
    for i in 0..chars.len()
        invariant
            chars@ == s@,
            prev_is_cased == (i > 0 && alphabetic(s@[i - 1])),
            out@ == titled(s@.take(i as int)),
    {
        let c = chars[i];
        let form = if prev_is_cased {
            char_lower(c)
        } else {
            char_upper(c)
        };
        push_range(&mut out, &form, 0, form.len());
        proof {
            assert(form@.subrange(0, form@.len() as int) =~= form@);
            assert(s@.take(i + 1).drop_last() =~= s@.take(i as int));
        }
        prev_is_cased = c.is_alphabetic();
    }
    assert(s@.take(chars@.len() as int) =~= s@);
    out
}

/// `str.swapcase()`.
pub fn str_swapcase(s: &str) -> (r: Vec<char>)
    ensures
        r@ == case_swapped(s@),
{
    let chars = chars_of(s);
    let mut out: Vec<char> = Vec::new();
    assert(s@.take(0) =~= Seq::empty());
    for i in 0..chars.len()
        invariant
            chars@ == s@,
            out@ == case_swapped(s@.take(i as int)),
    {
        let c = chars[i];
        let ghost before = out@;
        if c.is_uppercase() {
            let form = char_lower(c);
            push_range(&mut out, &form, 0, form.len());
            assert(form@.subrange(0, form@.len() as int) =~= form@);
        } else if c.is_lowercase() {
            let form = char_upper(c);
            push_range(&mut out, &form, 0, form.len());
            assert(form@.subrange(0, form@.len() as int) =~= form@);
        } else {
            out.push(c);
            assert(out@ =~= before + seq![c]);
        }
        assert(s@.take(i + 1).drop_last() =~= s@.take(i as int));
    }
    assert(s@.take(chars@.len() as int) =~= s@);
    out
}

} // verus!
