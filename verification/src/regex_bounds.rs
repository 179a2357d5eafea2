//! How large the numbers in a pattern may be, and the group numbers in a template.
//!
//! The engine multiplies the lower bounds of repetitions into the least size of
//! what they match, in a machine integer and without a test. A pattern for which
//! that product stays small on every machine is called modest.

use vstd::prelude::*;

use crate::regex::{calls_groups, has_pair, pair_at};
use crate::text::{chars_of, has_char, string_of};
use crate::types::str_chars::alphanumeric;

verus! {

/// One more than the largest size that is reckoned with on every machine.
pub const SIZE_LIMIT: u64 = 0x8000_0000;

/// Whether a character is an ASCII digit.
pub open spec fn decimal(c: char) -> bool {
    '0' <= c <= '9'
}

/// Whether a run of digits starts at a place.
pub open spec fn number_at(text: Seq<char>, i: int) -> bool {
    0 <= i < text.len() && decimal(text[i]) && (i == 0 || !decimal(text[i - 1]))
}

/// The end of the digits that stand from a place on.
pub open spec fn number_end(text: Seq<char>, i: int) -> int
    decreases text.len() - i,
{
    if 0 <= i < text.len() && decimal(text[i]) {
        number_end(text, i + 1)
    } else {
        i
    }
}

/// The number that the digits between two places write.
pub open spec fn number_value(text: Seq<char>, from: int, to: int) -> nat
    decreases to - from,
{
    if from < to {
        number_value(text, from, to - 1) * 10 + (text[to - 1] as int - '0' as int) as nat
    } else {
        0
    }
}

/// Whether a run of digits is short enough for a number on every machine.
pub open spec fn short_number(text: Seq<char>, i: int) -> bool {
    number_end(text, i) - i < 10
}

/// What a number multiplies a size with; sizes of nothing are left aside.
pub open spec fn multiple(text: Seq<char>, i: int) -> nat {
    let value = number_value(text, i, number_end(text, i));
    if value == 0 {
        1
    } else {
        value
    }
}

/// Whether a character may stand between the parts of a repetition in a pattern
/// that ignores spaces, or starts a comment there.
pub open spec fn filler(c: char) -> bool {
    c == ' ' || c == '\t' || c == '\r' || c == '\n' || c == '#' || c == '('
}

/// Whether the numbers of a repetition may stand apart from its brace or comma at
/// a place.
pub open spec fn loose_at(pattern: Seq<char>, i: int) -> bool {
    0 < i < pattern.len() && (pattern[i - 1] == '{' || pattern[i - 1] == ',') && filler(pattern[i])
}

/// Whether the numbers of a repetition may stand apart from its brace or comma.
pub open spec fn loose(pattern: Seq<char>) -> bool {
    pattern.contains('{') && exists|i: int| #[trigger] loose_at(pattern, i)
}

/// Whether the pattern refers to groups otherwise than by `\` and digits.
pub open spec fn refers(pattern: Seq<char>) -> bool {
    has_pair(pattern, '\\', 'k') || has_pair(pattern, 'P', '=') || has_pair(pattern, '?', '(')
        || calls_groups(pattern)
}

/// Whether the digits at a place may be read as a number.
pub open spec fn read_at(pattern: Seq<char>, i: int) -> bool {
    ||| refers(pattern)
    ||| loose(pattern)
    ||| i > 0 && (pattern[i - 1] == '{' || pattern[i - 1] == '\\')
    ||| i > 0 && pattern[i - 1] == ',' && pattern.contains('{')
}

/// Whether the number at a place may be the lower bound of a repetition.
pub open spec fn bound_at(pattern: Seq<char>, i: int) -> bool {
    number_at(pattern, i) && (loose(pattern) || (i > 0 && pattern[i - 1] == '{'))
}

/// Whether what stands before a brace matches at most one character: neither a
/// group, nor a repetition, nor a reference, nor anything that spaces or comments
/// may hide.
pub open spec fn single_before(pattern: Seq<char>, brace: int) -> bool {
    brace > 0 && {
        let c = pattern[brace - 1];
        !decimal(c) && !filler(c) && c != ')' && c != '}' && c != '*' && c != '+' && c != '?' && c
            != '>' && c != '\''
    }
}

/// Whether the bound at a place multiplies the size of a single character only.
pub open spec fn single_bound_at(pattern: Seq<char>, i: int) -> bool {
    bound_at(pattern, i) && !loose(pattern) && single_before(pattern, i - 1)
}

/// Whether a group is referred to at a place.
pub open spec fn reference_at(pattern: Seq<char>, i: int) -> bool {
    ||| pair_at(pattern, '\\', 'k', i)
    ||| pair_at(pattern, 'P', '=', i)
    ||| 0 < i < pattern.len() && pattern[i - 1] == '\\' && decimal(pattern[i])
}

/// Whether a bound at a place multiplies the size of more than one character.
pub open spec fn heavy_bound_at(pattern: Seq<char>, i: int) -> bool {
    bound_at(pattern, i) && !single_bound_at(pattern, i)
}

/// How many references stand behind the last closing bracket among the first
/// characters. No group is closed between them, so none of them repeats another.
pub open spec fn refs_since(pattern: Seq<char>, n: int) -> nat
    decreases n,
{
    if n <= 0 || pattern[n - 1] == ')' {
        0
    } else if reference_at(pattern, n - 1) {
        refs_since(pattern, n - 1) + 1
    } else {
        refs_since(pattern, n - 1)
    }
}

/// How much larger the first characters of a pattern can make a size: a repetition
/// as often as its lower bound says, and the references up to a closing bracket
/// each add what was there before.
pub open spec fn growth(pattern: Seq<char>, n: int) -> nat
    decreases n,
{
    if n <= 0 {
        1
    } else {
        let before = growth(pattern, n - 1);
        if heavy_bound_at(pattern, n - 1) {
            before * multiple(pattern, n - 1)
        } else if pattern[n - 1] == ')' {
            before * (refs_since(pattern, n - 1) + 1)
        } else {
            before
        }
    }
}

/// How many calls of groups stand among the first characters.
pub open spec fn call_count(pattern: Seq<char>, n: int) -> nat
    decreases n,
{
    if n <= 0 {
        0
    } else if pair_at(pattern, '\\', 'g', n - 1) || pair_at(pattern, 'P', '>', n - 1) {
        call_count(pattern, n - 1) + 1
    } else {
        call_count(pattern, n - 1)
    }
}

/// A number multiplied so many times.
pub open spec fn repeated(g: nat, k: nat) -> nat
    decreases k,
{
    if k == 0 {
        1
    } else {
        repeated(g, (k - 1) as nat) * g
    }
}

/// How much larger a whole pattern can make a size. A call adds what a group takes,
/// and may have the groups reckoned once more.
pub open spec fn whole_growth(pattern: Seq<char>) -> nat {
    let n = pattern.len() as int;
    let calls = call_count(pattern, n);
    repeated(growth(pattern, n) * (refs_since(pattern, n) + 1) * repeated(2, calls), calls + 1)
}

/// The largest bound among the first characters of a pattern that repeats a single
/// character.
pub open spec fn widest(pattern: Seq<char>, n: int) -> nat
    decreases n,
{
    if n <= 0 {
        1
    } else {
        let before = widest(pattern, n - 1);
        if single_bound_at(pattern, n - 1) && multiple(pattern, n - 1) > before {
            multiple(pattern, n - 1)
        } else {
            before
        }
    }
}

/// Whether the bound at a place makes more than one character larger.
pub open spec fn multiplies_at(pattern: Seq<char>, i: int) -> bool {
    heavy_bound_at(pattern, i) && multiple(pattern, i) > 1
}

/// Whether sizes are multiplied or added without a test: something larger than a
/// character is repeated, or there is a conditional.
pub open spec fn weighs(pattern: Seq<char>) -> bool {
    has_pair(pattern, '?', '(') || exists|i: int| #[trigger] multiplies_at(pattern, i)
}

/// Whether the numbers in a pattern are small enough for the sizes that the engine
/// reckons with: each number that it reads has few digits, and where sizes are
/// multiplied, the characters of the pattern, each as often as the repetitions ask
/// for, stay below the limit.
pub open spec fn modest(pattern: Seq<char>) -> bool {
    &&& forall|i: int| #[trigger]
        number_at(pattern, i) && read_at(pattern, i) ==> short_number(pattern, i)
    &&& weighs(pattern) ==> (pattern.len() + 1) * widest(pattern, pattern.len() as int)
        * whole_growth(pattern) < SIZE_LIMIT
}

/// How many dollars stand right before a place.
pub open spec fn dollars_before(template: Seq<char>, i: int) -> nat
    decreases i,
{
    if 0 < i <= template.len() && template[i - 1] == '$' {
        1 + dollars_before(template, i - 1)
    } else {
        0
    }
}

/// Whether a character can stand in the name of a group in a template.
pub open spec fn name_char(c: char) -> bool {
    alphanumeric(c) || c == '_'
}

/// Whether the template refers to a group by the number at a place: behind a dollar
/// that is not one of a pair, either in braces or as the whole of a name.
pub open spec fn group_number_at(template: Seq<char>, i: int) -> bool {
    let end = number_end(template, i);
    &&& number_at(template, i)
    &&& {
        ||| dollars_before(template, i) % 2 == 1 && (end >= template.len() || !name_char(
            template[end],
        ))
        ||| i > 0 && template[i - 1] == '{' && dollars_before(template, i - 1) % 2 == 1 && end
            < template.len() && template[end] == '}'
    }
}

/// Whether the number at a place has ten digits or more without its leading zeros.
pub open spec fn large_number(text: Seq<char>, i: int) -> bool {
    exists|k: int| i <= k && k + 10 <= number_end(text, i) && #[trigger] text[k] != '0'
}

/// Whether the template refers to a group by a number that no group has.
pub open spec fn large_reference_at(template: Seq<char>, i: int) -> bool {
    group_number_at(template, i) && large_number(template, i)
}

/// Whether the group numbers in a template are small enough for the engine.
pub open spec fn short_references(template: Seq<char>) -> bool {
    forall|i: int| !#[trigger] large_reference_at(template, i)
}

/// Whether a place lies in the number of a group that does not exist.
pub open spec fn veiled_at(template: Seq<char>, j: int) -> bool {
    exists|i: int| #[trigger] large_reference_at(template, i) && i <= j < number_end(template, i)
}

/// A template in which numbers of groups that cannot exist are names of none. Either
/// way nothing stands for the reference.
pub open spec fn tamed(template: Seq<char>) -> Seq<char> {
    Seq::new(
        template.len(),
        |j: int|
            if veiled_at(template, j) {
                '_'
            } else {
                template[j]
            },
    )
}

/// A size, or the limit where it is larger.
pub open spec fn limited(n: nat) -> nat {
    if n < SIZE_LIMIT {
        n
    } else {
        SIZE_LIMIT as nat
    }
}

/// The limit carries over to products.
proof fn lemma_limited(a: nat, b: nat)
    requires
        a >= 1,
        b >= 1,
    ensures
        limited(limited(a) * limited(b)) == limited(a * b),
        a * b >= 1,
{
    assert(a * b >= a && a * b >= b && a * b >= 1) by (nonlinear_arith)
        requires
            a >= 1,
            b >= 1,
    ;
    let (x, y) = (limited(a), limited(b));
    assert(x * y >= x && x * y >= y) by (nonlinear_arith)
        requires
            x >= 1,
            y >= 1,
    ;
}

/// The product of two sizes, at most the limit.
fn product(a: u64, b: u64) -> (r: u64)
    requires
        1 <= a <= SIZE_LIMIT,
        1 <= b <= SIZE_LIMIT,
    ensures
        r == limited((a * b) as nat),
        1 <= r <= SIZE_LIMIT,
{
    assert(1 <= a * b <= 0x8000_0000 * 0x8000_0000) by (nonlinear_arith)
        requires
            1 <= a <= 0x8000_0000,
            1 <= b <= 0x8000_0000,
    ;
    let all: u64 = a * b;
    if all < SIZE_LIMIT {
        all
    } else {
        SIZE_LIMIT
    }
}

/// Digits end at most where the text does.
proof fn lemma_end_in_text(text: Seq<char>, from: int)
    requires
        0 <= from <= text.len(),
    ensures
        from <= number_end(text, from) <= text.len(),
    decreases text.len() - from,
{
    if from < text.len() && decimal(text[from]) {
        lemma_end_in_text(text, from + 1);
    }
}

/// Digits from a place on end at the first character that is none.
proof fn lemma_number_end(text: Seq<char>, from: int, to: int)
    requires
        0 <= from <= to <= text.len(),
        forall|k: int| from <= k < to ==> decimal(#[trigger] text[k]),
    ensures
        number_end(text, from) == number_end(text, to),
        to <= number_end(text, from) <= text.len(),
    decreases to - from,
{
    if from < to {
        lemma_number_end(text, from + 1, to);
    } else {
        lemma_end_in_text(text, from);
    }
}

/// Whether the digits that stand from a place on are too many.
fn is_long_number(chars: &[char], i: usize) -> (r: bool)
    requires
        i < chars@.len(),
    ensures
        r == !short_number(chars@, i as int),
{
    let mut end: usize = i;
    while end < chars.len() && end - i < 10 && '0' <= chars[end] && chars[end] <= '9'
        invariant
            i <= end <= chars@.len(),
            end - i <= 10,
            forall|k: int| i <= k < end ==> decimal(#[trigger] chars@[k]),
        decreases chars@.len() - end,
    {
        end = end + 1;
    }
    proof {
        lemma_number_end(chars@, i as int, end as int);
    }
    end - i >= 10
}

/// What the number at a place multiplies a size with.
fn multiple_of(chars: &[char], i: usize) -> (r: u64)
    requires
        i < chars@.len(),
        short_number(chars@, i as int),
    ensures
        r == multiple(chars@, i as int),
        1 <= r < 1_000_000_000,
{
    let mut end: usize = i;
    let mut value: u64 = 0;
    let mut room: u64 = 1;
    let ghost last = number_end(chars@, i as int);
    proof {
        lemma_number_end(chars@, i as int, i as int);
    }
    while end < chars.len() && '0' <= chars[end] && chars[end] <= '9'
        invariant
            i <= end <= last <= chars@.len(),
            last == number_end(chars@, i as int),
            last == number_end(chars@, end as int),
            last - i < 10,
            forall|k: int| i <= k < end ==> decimal(#[trigger] chars@[k]),
            value == number_value(chars@, i as int, end as int),
            value < room,
            end - i == 0 ==> room == 1,
            end - i == 1 ==> room == 10,
            end - i == 2 ==> room == 100,
            end - i == 3 ==> room == 1_000,
            end - i == 4 ==> room == 10_000,
            end - i == 5 ==> room == 100_000,
            end - i == 6 ==> room == 1_000_000,
            end - i == 7 ==> room == 10_000_000,
            end - i == 8 ==> room == 100_000_000,
            end - i == 9 ==> room == 1_000_000_000,
            room <= 1_000_000_000,
        decreases chars@.len() - end,
    {
        proof {
            lemma_number_end(chars@, i as int, end + 1);
        }
        value = value * 10 + (chars[end] as u64 - '0' as u64);
        room = room * 10;
        end = end + 1;
    }
    if value == 0 {
        1
    } else {
        value
    }
}

/// Whether two characters stand side by side somewhere.
pub fn find_pair(chars: &[char], a: char, b: char) -> (r: bool)
    ensures
        r == has_pair(chars@, a, b),
{
    for i in 0..chars.len()
        invariant
            forall|k: int| k < i ==> !#[trigger] pair_at(chars@, a, b, k),
    {
        if i > 0 && chars[i - 1] == a && chars[i] == b {
            assert(pair_at(chars@, a, b, i as int));
            return true;
        }
    }
    false
}

fn is_filler(c: char) -> (r: bool)
    ensures
        r == filler(c),
{
    c == ' ' || c == '\t' || c == '\r' || c == '\n' || c == '#' || c == '('
}

fn is_loose(chars: &[char]) -> (r: bool)
    ensures
        r == loose(chars@),
{
    if !has_char(chars, '{') {
        return false;
    }
    for i in 1..chars.len()
        invariant
            chars@.contains('{'),
            forall|k: int| k < i ==> !#[trigger] loose_at(chars@, k),
    {
        if (chars[i - 1] == '{' || chars[i - 1] == ',') && is_filler(chars[i]) {
            assert(loose_at(chars@, i as int));
            return true;
        }
    }
    false
}

fn is_single_before(chars: &[char], brace: usize) -> (r: bool)
    requires
        brace <= chars@.len(),
    ensures
        r == single_before(chars@, brace as int),
{
    if brace == 0 {
        return false;
    }
    let c = chars[brace - 1];
    !('0' <= c && c <= '9') && !is_filler(c) && c != ')' && c != '}' && c != '*' && c != '+' && c
        != '?' && c != '>' && c != '\''
}

fn is_reference(chars: &[char], i: usize) -> (r: bool)
    requires
        i < chars@.len(),
    ensures
        r == reference_at(chars@, i as int),
{
    if i == 0 {
        return false;
    }
    let (before, c) = (chars[i - 1], chars[i]);
    (before == '\\' && (c == 'k' || ('0' <= c && c <= '9'))) || (before == 'P' && c == '=')
}

/// A number multiplied so many times, at most the limit.
fn power(g: u64, k: usize, Ghost(exact): Ghost<nat>) -> (r: u64)
    requires
        exact >= 1,
        1 <= g <= SIZE_LIMIT,
        g == limited(exact),
    ensures
        r == limited(repeated(exact, k as nat)),
        1 <= r <= SIZE_LIMIT,
        repeated(exact, k as nat) >= 1,
{
    let mut r: u64 = 1;
    for i in 0..k
        invariant
            exact >= 1,
            1 <= g <= SIZE_LIMIT,
            g == limited(exact),
            1 <= r <= SIZE_LIMIT,
            repeated(exact, i as nat) >= 1,
            r == limited(repeated(exact, i as nat)),
    {
        proof {
            lemma_limited(repeated(exact, i as nat), exact);
        }
        r = product(r, g);
    }
    r
}

/// One more than a count, at most the limit.
fn one_more(n: usize) -> (r: u64)
    ensures
        r == limited((n + 1) as nat),
        1 <= r <= SIZE_LIMIT,
{
    if (n as u64) < SIZE_LIMIT {
        n as u64 + 1
    } else {
        SIZE_LIMIT
    }
}

/// Whether the numbers in a pattern are small enough for the sizes that the engine
/// reckons with.
pub fn is_modest(pattern: &str) -> (r: bool)
    ensures
        r == modest(pattern@),
{
    let chars = chars_of(pattern);
    let ghost p = pattern@;
    let braces: bool = has_char(&chars, '{');
    let apart: bool = is_loose(&chars);
    let tests: bool = find_pair(&chars, '?', '(');
    let refer: bool = tests || find_pair(&chars, '\\', 'g') || find_pair(&chars, 'P', '>')
        || find_pair(&chars, '\\', 'k') || find_pair(&chars, 'P', '=');
    let mut multiplies: bool = false;
    let mut grown: u64 = 1;
    let mut wide: u64 = 1;
    let mut run: usize = 0;
    let mut calls: usize = 0;
    for i in 0..chars.len()
        invariant
            chars@ == p,
            p == pattern@,
            braces == p.contains('{'),
            apart == loose(p),
            refer == refers(p),
            forall|k: int|
                k < i && #[trigger] number_at(p, k) && read_at(p, k) ==> short_number(p, k),
            multiplies == exists|k: int| k < i && #[trigger] multiplies_at(p, k),
            growth(p, i as int) >= 1,
            widest(p, i as int) >= 1,
            1 <= grown <= SIZE_LIMIT,
            grown == limited(growth(p, i as int)),
            1 <= wide < 1_000_000_000,
            wide == widest(p, i as int),
            run <= i,
            run == refs_since(p, i as int),
            calls <= i,
            calls == call_count(p, i as int),
    {
        let c = chars[i];
        let digit: bool = '0' <= c && c <= '9' && (i == 0 || !('0' <= chars[i - 1] && chars[i - 1]
            <= '9'));
        assert(digit == number_at(p, i as int));
        let read: bool = digit && (refer || apart || (i > 0 && (chars[i - 1] == '{' || chars[i - 1]
            == '\\' || (chars[i - 1] == ',' && braces))));
        if read && is_long_number(&chars, i) {
            assert(number_at(p, i as int) && read_at(p, i as int));
            return false;
        }
        let bound: bool = digit && (apart || (i > 0 && chars[i - 1] == '{'));
        assert(bound == bound_at(p, i as int));
        let ghost seen = multiplies;
        if bound {
            let times: u64 = multiple_of(&chars, i);
            if !apart && is_single_before(&chars, i - 1) {
                if times > wide {
                    wide = times;
                }
            } else {
                proof {
                    lemma_limited(growth(p, i as int), times as nat);
                }
                grown = product(grown, times);
                if times > 1 {
                    multiplies = true;
                    assert(multiplies_at(p, i as int));
                }
            }
        }
        assert(multiplies == (seen || multiplies_at(p, i as int)));
        if c == ')' {
            proof {
                lemma_limited(growth(p, i as int), (run + 1) as nat);
            }
            grown = product(grown, one_more(run));
            run = 0;
        } else if is_reference(&chars, i) {
            run = run + 1;
        }
        if i > 0 && ((chars[i - 1] == '\\' && c == 'g') || (chars[i - 1] == 'P' && c == '>')) {
            calls = calls + 1;
        }
    }
    assert(multiplies == exists|k: int| #[trigger] multiplies_at(p, k));
    if !(tests || multiplies) {
        return true;
    }
    let ghost n = p.len() as int;
    let ghost g = growth(p, n);
    let ghost all = g * (refs_since(p, n) + 1);
    proof {
        lemma_limited(g, refs_since(p, n) + 1);
    }
    let once: u64 = product(grown, one_more(run));
    let doubled: u64 = power(2, calls, Ghost(2));
    proof {
        lemma_limited(all, repeated(2, calls as nat));
    }
    let step: u64 = product(once, doubled);
    let ghost exact = all * repeated(2, calls as nat);
    let most: u64 = product(power(step, calls, Ghost(exact)), step);
    proof {
        lemma_limited(repeated(exact, calls as nat), exact);
        assert(whole_growth(p) == repeated(exact, calls as nat) * exact);
        lemma_limited(p.len() + 1, widest(p, n));
        lemma_limited((p.len() + 1) * widest(p, n), whole_growth(p));
    }
    product(product(one_more(chars.len()), wide), most) < SIZE_LIMIT
}

/// Digits stand from the start of a number to its end, and none at the end.
proof fn lemma_number_digits(text: Seq<char>, i: int)
    requires
        0 <= i <= text.len(),
    ensures
        i <= number_end(text, i) <= text.len(),
        forall|k: int| i <= k < number_end(text, i) ==> decimal(#[trigger] text[k]),
        number_end(text, i) < text.len() ==> !decimal(text[number_end(text, i)]),
    decreases text.len() - i,
{
    if i < text.len() && decimal(text[i]) {
        lemma_number_digits(text, i + 1);
    }
}

/// Whether a place is veiled is the same for all digits of a number.
proof fn lemma_veiled_whole(t: Seq<char>, j: int)
    requires
        0 < j < t.len(),
        decimal(t[j]),
        decimal(t[j - 1]),
    ensures
        veiled_at(t, j) == veiled_at(t, j - 1),
{
    if veiled_at(t, j) {
        let i = choose|i: int| #[trigger] large_reference_at(t, i) && i <= j < number_end(t, i);
        assert(number_at(t, i));
        assert(i <= j - 1);
    }
    if veiled_at(t, j - 1) {
        let i = choose|i: int| #[trigger]
            large_reference_at(t, i) && i <= j - 1 < number_end(t, i);
        lemma_number_digits(t, i);
        if number_end(t, i) == j {
            assert(!decimal(t[j]));
        }
    }
}

/// Only digits are veiled.
proof fn lemma_veiled_digit(t: Seq<char>, j: int)
    requires
        veiled_at(t, j),
    ensures
        0 <= j < t.len(),
        decimal(t[j]),
{
    let i = choose|i: int| #[trigger] large_reference_at(t, i) && i <= j < number_end(t, i);
    lemma_number_digits(t, i);
}

/// Numbers that are not veiled end where they did.
proof fn lemma_tamed_end(t: Seq<char>, i: int)
    requires
        0 <= i <= t.len(),
        i < t.len() && decimal(t[i]) ==> !veiled_at(t, i),
    ensures
        number_end(tamed(t), i) == number_end(t, i),
    decreases t.len() - i,
{
    if i < t.len() && decimal(t[i]) {
        if i + 1 < t.len() && decimal(t[i + 1]) {
            lemma_veiled_whole(t, i + 1);
        }
        assert(tamed(t)[i] == t[i]);
        lemma_tamed_end(t, i + 1);
    } else if i < t.len() {
        if veiled_at(t, i) {
            lemma_veiled_digit(t, i);
        }
        assert(tamed(t)[i] == t[i]);
    }
}

/// Taming changes no dollars.
proof fn lemma_tamed_dollars(t: Seq<char>, i: int)
    requires
        0 <= i <= t.len(),
    ensures
        dollars_before(tamed(t), i) == dollars_before(t, i),
    decreases i,
{
    if i > 0 {
        if veiled_at(t, i - 1) {
            lemma_veiled_digit(t, i - 1);
        }
        lemma_tamed_dollars(t, i - 1);
    }
}

/// A tamed template refers to no group by a large number.
pub proof fn lemma_tamed(t: Seq<char>)
    ensures
        short_references(tamed(t)),
{
    let r = tamed(t);
    assert forall|i: int| !#[trigger] large_reference_at(r, i) by {
        if large_reference_at(r, i) {
            assert(decimal(r[i]));
            assert(!veiled_at(t, i) && r[i] == t[i]);
            if i > 0 {
                if decimal(t[i - 1]) {
                    lemma_veiled_whole(t, i);
                    assert(r[i - 1] == t[i - 1]);
                }
                if veiled_at(t, i - 1) {
                    lemma_veiled_digit(t, i - 1);
                }
                assert(r[i - 1] == t[i - 1]);
                lemma_tamed_dollars(t, i - 1);
            }
            assert(number_at(t, i));
            lemma_tamed_end(t, i);
            lemma_tamed_dollars(t, i);
            let end = number_end(t, i);
            lemma_number_digits(t, i);
            if end < t.len() {
                if veiled_at(t, end) {
                    lemma_veiled_digit(t, end);
                }
                assert(r[end] == t[end]);
            }
            assert(group_number_at(t, i));
            let k = choose|k: int|
                i <= k && k + 10 <= number_end(r, i) && #[trigger] r[k] != '0';
            lemma_not_veiled(t, i, k);
            assert(r[k] == t[k]);
            assert(large_number(t, i));
            assert(large_reference_at(t, i));
            assert(veiled_at(t, i));
        }
    }
}

/// All digits of a number are as little veiled as the first.
proof fn lemma_not_veiled(t: Seq<char>, i: int, k: int)
    requires
        number_at(t, i),
        !veiled_at(t, i),
        i <= k < number_end(t, i),
    ensures
        !veiled_at(t, k),
    decreases k - i,
{
    if i < k {
        lemma_number_digits(t, i);
        lemma_not_veiled(t, i, k - 1);
        lemma_veiled_whole(t, k);
    }
}

/// The end of the digits from a place on.
fn end_of_number(chars: &[char], i: usize) -> (r: usize)
    requires
        i <= chars@.len(),
    ensures
        r == number_end(chars@, i as int),
        i <= r <= chars@.len(),
{
    let mut end: usize = i;
    while end < chars.len() && '0' <= chars[end] && chars[end] <= '9'
        invariant
            i <= end <= chars@.len(),
            forall|k: int| i <= k < end ==> decimal(#[trigger] chars@[k]),
        decreases chars@.len() - end,
    {
        end = end + 1;
    }
    proof {
        lemma_number_end(chars@, i as int, end as int);
    }
    end
}

fn is_large(chars: &[char], i: usize, end: usize) -> (r: bool)
    requires
        i <= end <= chars@.len(),
        end == number_end(chars@, i as int),
    ensures
        r == large_number(chars@, i as int),
{
    let mut k: usize = i;
    while end - k >= 10
        invariant
            i <= k <= end <= chars@.len(),
            end == number_end(chars@, i as int),
            forall|m: int| i <= m < k ==> #[trigger] chars@[m] == '0',
        decreases end - k,
    {
        if chars[k] != '0' {
            return true;
        }
        k = k + 1;
    }
    false
}

/// A template in which numbers of groups that cannot exist are names of none.
pub fn tame_template(template: &str) -> (r: String)
    ensures
        r@ == tamed(template@),
        short_references(r@),
{
    let chars = chars_of(template);
    let ghost t = template@;
    let mut out: Vec<char> = Vec::new();
    let mut odd: bool = false;
    let mut odd_before: bool = false;
    let mut veil: usize = 0;
    for i in 0..chars.len()
        invariant
            chars@ == t,
            odd == (dollars_before(t, i as int) % 2 == 1),
            i > 0 ==> odd_before == (dollars_before(t, i - 1) % 2 == 1),
            veil <= t.len(),
            forall|j: int| i <= j < veil ==> #[trigger] veiled_at(t, j),
            forall|k: int|
                k < i && #[trigger] large_reference_at(t, k) ==> number_end(t, k) <= veil,
            out@ == tamed(t).take(i as int),
    {
        let c = chars[i];
        let digit: bool = '0' <= c && c <= '9' && (i == 0 || !('0' <= chars[i - 1] && chars[i - 1]
            <= '9'));
        assert(digit == number_at(t, i as int));
        if digit {
            let end: usize = end_of_number(&chars, i);
            let named: bool = odd && (end >= chars.len() || !(chars[end].is_alphanumeric()
                || chars[end] == '_'));
            let braced: bool = i > 0 && chars[i - 1] == '{' && odd_before && end < chars.len()
                && chars[end] == '}';
            assert((named || braced) == group_number_at(t, i as int));
            if (named || braced) && is_large(&chars, i, end) {
                assert(large_reference_at(t, i as int));
                if end > veil {
                    veil = end;
                }
                assert forall|j: int| i <= j < veil implies #[trigger] veiled_at(t, j) by {
                    if j < end {
                        assert(large_reference_at(t, i as int) && i <= j < number_end(
                            t,
                            i as int,
                        ));
                    }
                }
            }
        }
        proof {
            if veiled_at(t, i as int) {
                let k = choose|k: int| #[trigger]
                    large_reference_at(t, k) && k <= i < number_end(t, k);
                assert(number_end(t, k) <= veil);
            }
        }
        assert(veiled_at(t, i as int) == (i < veil));
        if i < veil {
            out.push('_');
        } else {
            out.push(c);
        }
        assert(out@ =~= tamed(t).take(i + 1));
        odd_before = odd;
        odd = c == '$' && !odd;
    }
    assert(out@ =~= tamed(t));
    proof {
        lemma_tamed(t);
    }
    string_of(&out)
}

} // verus!
