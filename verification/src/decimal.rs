//! Decimal digits of machine integers.

use vstd::prelude::*;

verus! {

/// The character of a decimal digit.
pub open spec fn digit_char(d: int) -> char {
    (48 + d) as char
}

/// The decimal digits of `n`, without leading zeros (`0` has one digit).
pub open spec fn nat_digits(n: nat) -> Seq<char>
    decreases n,
{
    if n < 10 {
        seq![digit_char(n as int)]
    } else {
        nat_digits(n / 10).push(digit_char((n % 10) as int))
    }
}

/// The decimal text of `n`, with a minus sign when it is negative.
pub open spec fn int_digits(n: int) -> Seq<char> {
    if n < 0 {
        seq!['-'] + nat_digits((-n) as nat)
    } else {
        nat_digits(n as nat)
    }
}

/// The digits of `n`, padded with zeros on the left to at least `width`.
pub open spec fn padded_digits(n: nat, width: nat) -> Seq<char> {
    let digits = nat_digits(n);
    if digits.len() >= width {
        digits
    } else {
        Seq::new((width - digits.len()) as nat, |i: int| '0') + digits
    }
}

/// The code of a digit.
pub proof fn lemma_digit_code(d: int)
    requires
        0 <= d <= 9,
    ensures
        digit_char(d) as u8 == 48 + d,
        '\0' <= digit_char(d) <= '\u{7f}',
{
}

/// Two digits of a number below a hundred.
pub proof fn lemma_two_digits(n: nat)
    requires
        n < 100,
    ensures
        padded_digits(n, 2) == seq![digit_char((n / 10) as int), digit_char((n % 10) as int)],
{
    reveal_with_fuel(nat_digits, 3);
    assert(padded_digits(n, 2) =~= seq![
        digit_char((n / 10) as int),
        digit_char((n % 10) as int),
    ]);
}

/// The last of several digits.
pub proof fn lemma_last_digit(n: nat, width: nat)
    requires
        width >= 1,
    ensures
        padded_digits(n, width + 1) == padded_digits(n / 10, width).push(
            digit_char((n % 10) as int),
        ),
{
    if n < 10 {
        assert(nat_digits(n) =~= seq![digit_char(n as int)]);
        assert(nat_digits(0) =~= seq![digit_char(0)]);
    }
    assert(padded_digits(n, width + 1) =~= padded_digits(n / 10, width).push(
        digit_char((n % 10) as int),
    ));
}

/// The last two of several digits.
pub proof fn lemma_last_two_digits(n: nat, width: nat)
    requires
        width >= 1,
    ensures
        padded_digits(n, width + 2) == padded_digits(n / 100, width) + padded_digits(n % 100, 2),
{
    lemma_last_digit(n, width + 1);
    lemma_last_digit(n / 10, width);
    lemma_two_digits(n % 100);
    assert(n / 10 / 10 == n / 100);
    assert(n % 100 / 10 == n / 10 % 10 && n % 100 % 10 == n % 10);
    assert(padded_digits(n, width + 2) =~= padded_digits(n / 100, width) + padded_digits(
        n % 100,
        2,
    ));
}

fn digit_to_char(d: u8) -> (c: char)
    requires
        d < 10,
    ensures
        c == digit_char(d as int),
{
    (48 + d) as char
}

/// Appends the decimal digits of `n` to `out`.
pub fn push_nat(out: &mut Vec<char>, n: u64)
    ensures
        final(out)@ == old(out)@ + nat_digits(n as nat),
    decreases n,
{
    if n >= 10 {
        push_nat(out, n / 10);
    }
    out.push(digit_to_char((n % 10) as u8));
    proof {
        if n < 10 {
            assert(out@ =~= old(out)@ + nat_digits(n as nat));
        } else {
            assert(out@ =~= old(out)@ + nat_digits(n as nat));
        }
    }
}

/// Appends the decimal text of `n` to `out`.
pub fn push_int(out: &mut Vec<char>, n: i64)
    ensures
        final(out)@ == old(out)@ + int_digits(n as int),
{
    if n < 0 {
        out.push('-');
        let magnitude: u64 = (-(n as i128)) as u64;
        push_nat(out, magnitude);
        assert(out@ =~= old(out)@ + int_digits(n as int));
    } else {
        push_nat(out, n as u64);
    }
}

/// Appends the decimal digits of a wide `n` to `out`.
fn push_wide_nat(out: &mut Vec<char>, n: u128)
    ensures
        final(out)@ == old(out)@ + nat_digits(n as nat),
    decreases n,
{
    if n >= 10 {
        push_wide_nat(out, n / 10);
    }
    out.push(digit_to_char((n % 10) as u8));
    assert(out@ =~= old(out)@ + nat_digits(n as nat));
}

/// Appends the decimal text of a wide `n` to `out`.
pub fn push_wide_int(out: &mut Vec<char>, n: i128)
    requires
        n > i128::MIN,
    ensures
        final(out)@ == old(out)@ + int_digits(n as int),
{
    if n < 0 {
        out.push('-');
        push_wide_nat(out, (-n) as u128);
        assert(out@ =~= old(out)@ + int_digits(n as int));
    } else {
        push_wide_nat(out, n as u128);
    }
}

/// Appends the digits of `n`, padded with zeros on the left to `width`.
pub fn push_padded(out: &mut Vec<char>, n: u64, width: usize)
    ensures
        final(out)@ == old(out)@ + padded_digits(n as nat, width as nat),
{
    let mut digits: Vec<char> = Vec::new();
    push_nat(&mut digits, n);
    assert(digits@ =~= nat_digits(n as nat));
    let mut count: usize = digits.len();
    let ghost before = out@;
    let ghost missing = (width - digits@.len()) as int;
    while count < width
        invariant
            digits@.len() <= count,
            count <= width || count == digits@.len(),
            missing == width - digits@.len(),
            before == old(out)@,
            out@ == before + Seq::new((count - digits@.len()) as nat, |i: int| '0'),
        decreases width - count,
    {
        out.push('0');
        count = count + 1;
        assert(out@ =~= before + Seq::new((count - digits@.len()) as nat, |i: int| '0'));
    }
    let ghost zeros = out@;
    for i in 0..digits.len()
        invariant
            out@ == zeros + digits@.take(i as int),
    {
        out.push(digits[i]);
    }
    proof {
        assert(digits@.take(digits@.len() as int) =~= digits@);
        assert(out@ =~= old(out)@ + padded_digits(n as nat, width as nat));
    }
}

} // verus!
