//! What the methods of strings say of characters and make of their case.

use vstd::prelude::*;

use crate::args::ArgValues;
use crate::exception::{RunError, RunResult};
use crate::intern::StaticStrings;
use crate::laws::strings::{lemma_text_answer, str_called, text_given};
use crate::types::str_chars::{
    alphabetic, capitalized, case_swapped, flat_lower, fold_form, folded, lower_form, lower_text,
    lowercase, numeric, titled, unicode_decimal, upper_each, upper_form, upper_text, uppercase,
    whitespace,
};
use crate::value::Value;
use crate::vm::VM;

verus! {

/// Whether a result is this truth value.
pub open spec fn flags(r: RunResult<Value>, b: bool) -> bool {
    r == Ok::<Value, RunError>(Value::Bool(b))
}

/// The tests of all characters hold of a text exactly when it is not empty and they
/// hold of each of its characters.
pub proof fn lemma_tests_of_all(
    before: VM,
    mid: VM,
    after: VM,
    s: Seq<char>,
    method: StaticStrings,
    args: ArgValues,
    r: RunResult<Value>,
)
    requires
        args.just(0),
        str_called(before, mid, after, s, method, args, r),
    ensures
        method is Isalpha ==> flags(
            r,
            s.len() > 0 && forall|i: int| 0 <= i < s.len() ==> alphabetic(#[trigger] s[i]),
        ),
        method is Isalnum ==> flags(
            r,
            s.len() > 0 && forall|i: int|
                0 <= i < s.len() ==> alphabetic(#[trigger] s[i]) || numeric(s[i]),
        ),
        method is Isnumeric ==> flags(
            r,
            s.len() > 0 && forall|i: int| 0 <= i < s.len() ==> numeric(#[trigger] s[i]),
        ),
        method is Isspace ==> flags(
            r,
            s.len() > 0 && forall|i: int| 0 <= i < s.len() ==> whitespace(#[trigger] s[i]),
        ),
        method is Isdecimal ==> flags(
            r,
            s.len() > 0 && forall|i: int| 0 <= i < s.len() ==> unicode_decimal(#[trigger] s[i]),
        ),
        method is Isascii ==> flags(
            r,
            forall|i: int| 0 <= i < s.len() ==> (#[trigger] s[i] as u32) < 128,
        ),
{
}

/// What is decimal is digits, what is letters or numbers is both together, and an empty
/// text is neither.
pub proof fn lemma_tests_agree(
    before: VM,
    s: Seq<char>,
    args: ArgValues,
    m1: VM,
    v1: VM,
    decimal: RunResult<Value>,
    m2: VM,
    v2: VM,
    digit: RunResult<Value>,
    m3: VM,
    v3: VM,
    alpha: RunResult<Value>,
    m4: VM,
    v4: VM,
    alnum: RunResult<Value>,
)
    requires
        args.just(0),
        str_called(before, m1, v1, s, StaticStrings::Isdecimal, args, decimal),
        str_called(before, m2, v2, s, StaticStrings::Isdigit, args, digit),
        str_called(before, m3, v3, s, StaticStrings::Isalpha, args, alpha),
        str_called(before, m4, v4, s, StaticStrings::Isalnum, args, alnum),
    ensures
        flags(decimal, true) ==> flags(digit, true),
        flags(alpha, true) ==> flags(alnum, true),
        s.len() == 0 ==> flags(decimal, false) && flags(digit, false) && flags(alpha, false)
            && flags(alnum, false),
        s == seq!['\u{b2}'] ==> flags(digit, true),
{
    if s == seq!['\u{b2}'] {
        assert(s[0] == '\u{b2}');
    }
}

/// `islower` holds where some character is lower case and none upper case, `isupper`
/// the other way round; so never both.
pub proof fn lemma_case_tests(
    before: VM,
    s: Seq<char>,
    args: ArgValues,
    m1: VM,
    v1: VM,
    lower: RunResult<Value>,
    m2: VM,
    v2: VM,
    upper: RunResult<Value>,
    i: int,
)
    requires
        args.just(0),
        str_called(before, m1, v1, s, StaticStrings::Islower, args, lower),
        str_called(before, m2, v2, s, StaticStrings::Isupper, args, upper),
        0 <= i < s.len(),
    ensures
        lower is Ok && upper is Ok,
        flags(lower, true) ==> !uppercase(s[i]),
        flags(upper, true) ==> !lowercase(s[i]),
        lowercase(s[i]) && (forall|j: int| 0 <= j < s.len() ==> !uppercase(#[trigger] s[j]))
            ==> flags(lower, true),
        uppercase(s[i]) && (forall|j: int| 0 <= j < s.len() ==> !lowercase(#[trigger] s[j]))
            ==> flags(upper, true),
        !(flags(lower, true) && flags(upper, true)),
{
}

/// `isidentifier` holds of a letter or underscore, then letters, numbers and
/// underscores.
pub proof fn lemma_isidentifier(
    before: VM,
    mid: VM,
    after: VM,
    s: Seq<char>,
    args: ArgValues,
    r: RunResult<Value>,
)
    requires
        args.just(0),
        str_called(before, mid, after, s, StaticStrings::Isidentifier, args, r),
    ensures
        flags(
            r,
            s.len() > 0 && (alphabetic(s[0]) || s[0] == '_') && forall|i: int|
                0 < i < s.len() ==> alphabetic(#[trigger] s[i]) || numeric(s[i]) || s[i] == '_',
        ),
{
    let same = forall|i: int|
        0 < i < s.len() ==> alphabetic(#[trigger] s[i]) || numeric(s[i]) || s[i] == '_';
    let other = forall|i: int|
        1 <= i < s.len() ==> crate::types::str_chars::alphanumeric(#[trigger] s[i]) || s[i] == '_';
    assert(same == other);
}

/// `istitle` holds where some character has case, and each upper-case one stands after
/// one without case or at the start, and each lower-case one after one with case.
pub proof fn lemma_istitle(
    before: VM,
    mid: VM,
    after: VM,
    s: Seq<char>,
    args: ArgValues,
    i: int,
    r: RunResult<Value>,
)
    requires
        args.just(0),
        str_called(before, mid, after, s, StaticStrings::Istitle, args, r),
        0 <= i < s.len(),
    ensures
        r is Ok,
        flags(r, true) && uppercase(s[i]) ==> i == 0 || !(uppercase(s[i - 1]) || lowercase(
            s[i - 1],
        )),
        flags(r, true) && lowercase(s[i]) && !uppercase(s[i]) ==> i > 0 && (uppercase(s[i - 1])
            || lowercase(s[i - 1])),
{
    if flags(r, true) {
        assert(crate::types::str_chars::title_ok(s, i));
    }
}

/// Where `istitle` does not hold of a text with case, some character stands where it may
/// not.
pub proof fn lemma_istitle_fails(
    before: VM,
    mid: VM,
    after: VM,
    s: Seq<char>,
    args: ArgValues,
    c: int,
    r: RunResult<Value>,
)
    requires
        args.just(0),
        str_called(before, mid, after, s, StaticStrings::Istitle, args, r),
        0 <= c < s.len(),
        uppercase(s[c]) || lowercase(s[c]),
        flags(r, false),
    ensures
        exists|i: int|
            0 <= i < s.len() && if uppercase(#[trigger] s[i]) {
                i > 0 && (uppercase(s[i - 1]) || lowercase(s[i - 1]))
            } else {
                lowercase(s[i]) && (i == 0 || !(uppercase(s[i - 1]) || lowercase(s[i - 1])))
            },
{
    assert(crate::types::str_chars::cased(s[c]));
    let i = choose|i: int|
        0 <= i < s.len() && !#[trigger] crate::types::str_chars::title_ok(s, i);
    assert(0 <= i < s.len() && !crate::types::str_chars::title_ok(s, i));
    let ch = s[i];
}

/// `lower` and `upper` give the lower-case and the upper-case form of the text.
pub proof fn lemma_lower_and_upper(
    before: VM,
    s: Seq<char>,
    args: ArgValues,
    m1: VM,
    v1: VM,
    lower: RunResult<Value>,
    m2: VM,
    v2: VM,
    upper: RunResult<Value>,
)
    requires
        before.wf(),
        args.just(0),
        str_called(before, m1, v1, s, StaticStrings::Lower, args, lower),
        str_called(before, m2, v2, s, StaticStrings::Upper, args, upper),
        lower is Ok,
        upper is Ok,
    ensures
        text_given(v1, lower) == Some(lower_text(s)),
        text_given(v2, upper) == Some(upper_text(s)),
{
    lemma_text_answer(before, m1, v1, args, lower, lower_text(s));
    lemma_text_answer(before, m2, v2, args, upper, upper_text(s));
}

/// Whether both forms of each character are one character.
pub open spec fn simple_case(s: Seq<char>) -> bool {
    forall|i: int|
        0 <= i < s.len() ==> lower_form(#[trigger] s[i]).len() == 1 && upper_form(s[i]).len() == 1
}

proof fn lemma_flat_lower(s: Seq<char>)
    requires
        simple_case(s),
    ensures
        flat_lower(s).len() == s.len(),
        forall|i: int| 0 <= i < s.len() ==> flat_lower(s)[i] == lower_form(#[trigger] s[i])[0],
    decreases s.len(),
{
    if s.len() > 0 {
        assert forall|i: int| 0 <= i < s.drop_last().len() implies lower_form(
            #[trigger] s.drop_last()[i],
        ).len() == 1 && upper_form(s.drop_last()[i]).len() == 1 by {
            assert(s.drop_last()[i] == s[i]);
        }
        lemma_flat_lower(s.drop_last());
        assert forall|i: int| 0 <= i < s.len() implies flat_lower(s)[i] == lower_form(
            #[trigger] s[i],
        )[0] by {
            if i < s.len() - 1 {
                assert(s.drop_last()[i] == s[i]);
            }
        }
    }
}

/// `capitalize` makes the first character upper case and the others lower case, where
/// the forms of the characters are one character each.
pub proof fn lemma_capitalize(
    before: VM,
    mid: VM,
    after: VM,
    s: Seq<char>,
    args: ArgValues,
    r: RunResult<Value>,
)
    requires
        before.wf(),
        args.just(0),
        simple_case(s),
        str_called(before, mid, after, s, StaticStrings::Capitalize, args, r),
        r is Ok,
    ensures
        text_given(after, r) matches Some(t) && t.len() == s.len() && forall|i: int|
            0 <= i < s.len() ==> t[i] == (if i == 0 {
                upper_form(#[trigger] s[i])[0]
            } else {
                lower_form(s[i])[0]
            }),
{
    lemma_text_answer(before, mid, after, args, r, capitalized(s));
    if s.len() > 0 {
        let rest = s.skip(1);
        assert forall|i: int| 0 <= i < rest.len() implies lower_form(#[trigger] rest[i]).len() == 1
            && upper_form(rest[i]).len() == 1 by {
            assert(rest[i] == s[i + 1]);
        }
        lemma_flat_lower(rest);
        assert(upper_form(s[0]).len() == 1);
        let t = capitalized(s);
        assert forall|i: int| 0 <= i < s.len() implies t[i] == (if i == 0 {
            upper_form(#[trigger] s[i])[0]
        } else {
            lower_form(s[i])[0]
        }) by {
            if i > 0 {
                assert(rest[i - 1] == s[i]);
                assert(t[i] == flat_lower(rest)[i - 1]);
            }
        }
    }
}

proof fn lemma_titled(s: Seq<char>)
    requires
        simple_case(s),
    ensures
        titled(s).len() == s.len(),
        forall|i: int|
            0 <= i < s.len() ==> titled(s)[i] == (if i > 0 && alphabetic(s[i - 1]) {
                lower_form(#[trigger] s[i])[0]
            } else {
                upper_form(s[i])[0]
            }),
    decreases s.len(),
{
    if s.len() > 0 {
        let p = s.drop_last();
        assert forall|i: int| 0 <= i < p.len() implies lower_form(#[trigger] p[i]).len() == 1
            && upper_form(p[i]).len() == 1 by {
            assert(p[i] == s[i]);
        }
        lemma_titled(p);
        assert forall|i: int| 0 <= i < s.len() implies titled(s)[i] == (if i > 0 && alphabetic(
            s[i - 1],
        ) {
            lower_form(#[trigger] s[i])[0]
        } else {
            upper_form(s[i])[0]
        }) by {
            if i < p.len() {
                assert(p[i] == s[i]);
                if i > 0 {
                    assert(p[i - 1] == s[i - 1]);
                }
                assert(titled(s)[i] == titled(p)[i]);
            }
        }
    }
}

/// `title` makes a character lower case after a letter and upper case elsewhere, where
/// the forms of the characters are one character each.
pub proof fn lemma_title(
    before: VM,
    mid: VM,
    after: VM,
    s: Seq<char>,
    args: ArgValues,
    r: RunResult<Value>,
)
    requires
        before.wf(),
        args.just(0),
        simple_case(s),
        str_called(before, mid, after, s, StaticStrings::Title, args, r),
        r is Ok,
    ensures
        text_given(after, r) matches Some(t) && t.len() == s.len() && forall|i: int|
            0 <= i < s.len() ==> t[i] == (if i > 0 && alphabetic(s[i - 1]) {
                lower_form(#[trigger] s[i])[0]
            } else {
                upper_form(s[i])[0]
            }),
{
    lemma_titled(s);
    lemma_text_answer(before, mid, after, args, r, titled(s));
}

proof fn lemma_swapped(s: Seq<char>)
    requires
        simple_case(s),
    ensures
        case_swapped(s).len() == s.len(),
        forall|i: int|
            0 <= i < s.len() ==> case_swapped(s)[i] == (if uppercase(#[trigger] s[i]) {
                lower_form(s[i])[0]
            } else if lowercase(s[i]) {
                upper_form(s[i])[0]
            } else {
                s[i]
            }),
    decreases s.len(),
{
    if s.len() > 0 {
        let p = s.drop_last();
        assert forall|i: int| 0 <= i < p.len() implies lower_form(#[trigger] p[i]).len() == 1
            && upper_form(p[i]).len() == 1 by {
            assert(p[i] == s[i]);
        }
        lemma_swapped(p);
        assert forall|i: int| 0 <= i < s.len() implies case_swapped(s)[i] == (if uppercase(
            #[trigger] s[i],
        ) {
            lower_form(s[i])[0]
        } else if lowercase(s[i]) {
            upper_form(s[i])[0]
        } else {
            s[i]
        }) by {
            if i < p.len() {
                assert(p[i] == s[i]);
                assert(case_swapped(s)[i] == case_swapped(p)[i]);
            }
        }
    }
}

/// `swapcase` makes upper case lower and lower case upper and leaves other characters,
/// where the forms of the characters are one character each.
pub proof fn lemma_swapcase(
    before: VM,
    mid: VM,
    after: VM,
    s: Seq<char>,
    args: ArgValues,
    r: RunResult<Value>,
)
    requires
        before.wf(),
        args.just(0),
        simple_case(s),
        str_called(before, mid, after, s, StaticStrings::Swapcase, args, r),
        r is Ok,
    ensures
        text_given(after, r) matches Some(t) && t.len() == s.len() && forall|i: int|
            0 <= i < s.len() ==> t[i] == (if uppercase(#[trigger] s[i]) {
                lower_form(s[i])[0]
            } else if lowercase(s[i]) {
                upper_form(s[i])[0]
            } else {
                s[i]
            }),
{
    lemma_swapped(s);
    lemma_text_answer(before, mid, after, args, r, case_swapped(s));
}

/// `casefold` works character by character: texts are folded one after the other, and
/// two characters whose lower-case forms have the same upper-case form, neither of them
/// Cherokee or a dotless i, come to the same.
pub proof fn lemma_casefold(
    before: VM,
    s: Seq<char>,
    t: Seq<char>,
    c: char,
    d: char,
    args: ArgValues,
    m1: VM,
    v1: VM,
    one: RunResult<Value>,
    m2: VM,
    v2: VM,
    other: RunResult<Value>,
    m3: VM,
    v3: VM,
    both: RunResult<Value>,
)
    requires
        before.wf(),
        args.just(0),
        s == seq![c],
        str_called(before, m1, v1, s, StaticStrings::Casefold, args, one),
        str_called(before, m2, v2, t, StaticStrings::Casefold, args, other),
        str_called(before, m3, v3, t + seq![d], StaticStrings::Casefold, args, both),
        one is Ok,
        other is Ok,
        both is Ok,
        upper_each(lower_form(c)) == upper_each(lower_form(d)),
        !crate::types::str_chars::cherokee(c) && c as int != 0x131,
        !crate::types::str_chars::cherokee(d) && d as int != 0x131,
    ensures
        text_given(v1, one) matches Some(x) && text_given(v2, other) matches Some(y) && text_given(
            v3,
            both,
        ) == Some(y + x),
{
    lemma_text_answer(before, m1, v1, args, one, folded(s));
    lemma_text_answer(before, m2, v2, args, other, folded(t));
    lemma_text_answer(before, m3, v3, args, both, folded(t + seq![d]));
    assert((t + seq![d]).drop_last() =~= t);
    assert(s.drop_last() =~= Seq::empty());
    assert(s.last() == c);
    assert(folded(s.drop_last()) == Seq::<char>::empty());
    assert(folded(s) =~= fold_form(c));
    assert(fold_form(c) == fold_form(d));
}

} // verus!
