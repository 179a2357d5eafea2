//! What the bits of a 64-bit IEEE 754 number say about its value.
//!
//! Numbers are compared here exactly, by integer arithmetic on their bits. What
//! rounds is described as a task and left to the host's arithmetic.

use vstd::arithmetic::power2::{lemma_pow2_adds, lemma_pow2_pos, lemma_pow2_strictly_increases, pow2};
use vstd::prelude::*;

use crate::bigint::{bit_length, magnitude};
use crate::order::{int_order, Order};
use crate::types::long_int::LongInt;
use crate::value::FloatBits;

verus! {

/// What a number is: not a number, infinite, or finite, in units of two to the
/// power of -1074, of which every finite one is a multiple.
pub enum FloatValue {
    NotANumber,
    Infinite { negative: bool },
    Finite(int),
}

/// The units in one.
pub open spec fn unit_scale() -> int {
    pow2(1074) as int
}

/// The number of values that the fraction of a number can have.
pub const FRACTIONS: u64 = 0x10_0000_0000_0000;

/// The number of values that the exponent of a number can have.
pub const EXPONENTS: u64 = 0x800;

/// The bit of the sign.
pub const SIGN: u64 = 0x8000_0000_0000_0000;

impl FloatBits {
    /// Whether the sign is negative.
    pub open spec fn negative(self) -> bool {
        self.0 >= SIGN
    }

    /// The exponent field.
    pub open spec fn exponent(self) -> int {
        (self.0 as int / FRACTIONS as int) % (EXPONENTS as int)
    }

    /// The fraction field.
    pub open spec fn fraction(self) -> int {
        self.0 as int % FRACTIONS as int
    }

    /// The magnitude of a finite number, in units.
    pub open spec fn units(self) -> int {
        if self.exponent() == 0 {
            self.fraction()
        } else {
            (FRACTIONS + self.fraction()) * pow2((self.exponent() - 1) as nat)
        }
    }

    /// What the number is.
    pub open spec fn value(self) -> FloatValue {
        if self.exponent() == EXPONENTS - 1 {
            if self.fraction() == 0 {
                FloatValue::Infinite { negative: self.negative() }
            } else {
                FloatValue::NotANumber
            }
        } else if self.negative() {
            FloatValue::Finite(-self.units())
        } else {
            FloatValue::Finite(self.units())
        }
    }

    fn parts(self) -> (r: (bool, u64, u64))
        ensures
            r.0 == self.negative(),
            r.1 == self.exponent(),
            r.2 == self.fraction(),
            r.1 < EXPONENTS,
            r.2 < FRACTIONS,
    {
        (self.0 >= SIGN, (self.0 / FRACTIONS) % EXPONENTS, self.0 % FRACTIONS)
    }

    /// Whether the number is zero, of either sign.
    pub fn is_zero(self) -> (r: bool)
        ensures
            r == (self.value() == FloatValue::Finite(0)),
    {
        let (_, exponent, fraction) = self.parts();
        proof {
            if self.exponent() > 0 {
                let p = pow2((self.exponent() - 1) as nat);
                lemma_pow2_pos((self.exponent() - 1) as nat);
                assert((FRACTIONS + self.fraction()) * p > 0) by (nonlinear_arith)
                    requires
                        p > 0,
                        FRACTIONS + self.fraction() > 0,
                ;
            }
        }
        exponent == 0 && fraction == 0
    }

    /// Whether the number is less than zero.
    pub fn is_below_zero(self) -> (r: bool)
        ensures
            r == (match self.value() {
                FloatValue::NotANumber => false,
                FloatValue::Infinite { negative } => negative,
                FloatValue::Finite(n) => n < 0,
            }),
    {
        let (negative, exponent, fraction) = self.parts();
        proof {
            if self.exponent() > 0 {
                let p = pow2((self.exponent() - 1) as nat);
                lemma_pow2_pos((self.exponent() - 1) as nat);
                assert((FRACTIONS + self.fraction()) * p > 0) by (nonlinear_arith)
                    requires
                        p > 0,
                        FRACTIONS + self.fraction() > 0,
                ;
            }
        }
        if exponent == EXPONENTS - 1 {
            negative && fraction == 0
        } else {
            negative && (exponent > 0 || fraction > 0)
        }
    }
}

/// The order of two numbers; there is none when one is not a number.
pub open spec fn float_order(a: FloatValue, b: FloatValue) -> Option<Order> {
    match (a, b) {
        (FloatValue::NotANumber, _) => None,
        (_, FloatValue::NotANumber) => None,
        (FloatValue::Infinite { negative: m }, FloatValue::Infinite { negative: n }) => Some(
            if m == n {
                Order::Equal
            } else if m {
                Order::Less
            } else {
                Order::Greater
            },
        ),
        (FloatValue::Infinite { negative }, FloatValue::Finite(_)) => Some(
            if negative {
                Order::Less
            } else {
                Order::Greater
            },
        ),
        (FloatValue::Finite(_), FloatValue::Infinite { negative }) => Some(
            if negative {
                Order::Greater
            } else {
                Order::Less
            },
        ),
        (FloatValue::Finite(x), FloatValue::Finite(y)) => Some(int_order(x, y)),
    }
}

/// The order of an integer and a number.
pub open spec fn mixed_order(a: int, f: FloatValue) -> Option<Order> {
    float_order(FloatValue::Finite(a * unit_scale()), f)
}

/// A larger exponent means a larger magnitude, and so does a larger fraction.
proof fn lemma_units_monotone(e1: int, f1: int, e2: int, f2: int)
    requires
        0 <= e1 <= e2 < EXPONENTS,
        0 <= f1 < FRACTIONS,
        0 <= f2 < FRACTIONS,
        e1 < e2 || f1 < f2,
    ensures
        (if e1 == 0 {
            f1
        } else {
            (FRACTIONS + f1) * pow2((e1 - 1) as nat)
        }) < (if e2 == 0 {
            f2
        } else {
            (FRACTIONS + f2) * pow2((e2 - 1) as nat)
        }),
{
    if e2 > 0 {
        let p2 = pow2((e2 - 1) as nat);
        lemma_pow2_pos((e2 - 1) as nat);
        if e1 == 0 {
            assert((FRACTIONS + f2) * p2 >= FRACTIONS) by (nonlinear_arith)
                requires
                    p2 >= 1,
                    f2 >= 0,
            ;
        } else if e1 == e2 {
            assert((FRACTIONS + f1) * p2 < (FRACTIONS + f2) * p2) by (nonlinear_arith)
                requires
                    p2 >= 1,
                    f1 < f2,
            ;
        } else {
            let p1 = pow2((e1 - 1) as nat);
            lemma_pow2_pos((e1 - 1) as nat);
            lemma_pow2_adds(1, (e1 - 1) as nat);
            vstd::arithmetic::power2::lemma2_to64();
            if e1 < e2 - 1 {
                lemma_pow2_strictly_increases(e1 as nat, (e2 - 1) as nat);
            }
            assert((FRACTIONS + f1) * p1 < (FRACTIONS + f2) * p2) by (nonlinear_arith)
                requires
                    p1 >= 1,
                    p2 >= 2 * p1,
                    0 <= f1 < FRACTIONS,
                    0 <= f2,
            ;
        }
    }
}

/// Compares two numbers.
pub fn compare_floats(a: FloatBits, b: FloatBits) -> (r: Option<Order>)
    ensures
        r == float_order(a.value(), b.value()),
{
    let (neg_a, exp_a, frac_a) = a.parts();
    let (neg_b, exp_b, frac_b) = b.parts();
    let top: u64 = EXPONENTS - 1;
    if (exp_a == top && frac_a != 0) || (exp_b == top && frac_b != 0) {
        return None;
    }
    proof {
        if exp_a < exp_b || (exp_a == exp_b && frac_a < frac_b) {
            lemma_units_monotone(exp_a as int, frac_a as int, exp_b as int, frac_b as int);
        }
        if exp_b < exp_a || (exp_a == exp_b && frac_b < frac_a) {
            lemma_units_monotone(exp_b as int, frac_b as int, exp_a as int, frac_a as int);
        }
        if exp_a > 0 || frac_a > 0 {
            lemma_units_monotone(0, 0, exp_a as int, frac_a as int);
        }
        if exp_b > 0 || frac_b > 0 {
            lemma_units_monotone(0, 0, exp_b as int, frac_b as int);
        }
    }
    let magnitude: Order = if exp_a < exp_b {
        Order::Less
    } else if exp_a > exp_b {
        Order::Greater
    } else if frac_a < frac_b {
        Order::Less
    } else if frac_a > frac_b {
        Order::Greater
    } else {
        Order::Equal
    };
    let both_zero = exp_a == 0 && frac_a == 0 && exp_b == 0 && frac_b == 0;
    if both_zero {
        Some(Order::Equal)
    } else if neg_a && neg_b {
        Some(magnitude.reverse())
    } else if neg_a {
        Some(Order::Less)
    } else if neg_b {
        Some(Order::Greater)
    } else {
        Some(magnitude)
    }
}

/// A small magnitude, written with the number of its bits below one.
proof fn lemma_split_small(m: int, e: int)
    requires
        0 <= m < 2 * FRACTIONS,
        1 <= e < 1075,
    ensures
        (m * pow2((e - 1) as nat)) / unit_scale() == m / (pow2((1075 - e) as nat) as int),
        (m * pow2((e - 1) as nat)) % unit_scale() == 0 <==> m % (pow2((1075 - e) as nat) as int)
            == 0,
{
    let low = pow2((e - 1) as nat) as int;
    let s = pow2((1075 - e) as nat) as int;
    lemma_pow2_pos((e - 1) as nat);
    lemma_pow2_pos((1075 - e) as nat);
    lemma_pow2_adds((e - 1) as nat, (1075 - e) as nat);
    let q = m / s;
    let r = m % s;
    vstd::arithmetic::div_mod::lemma_fundamental_div_mod(m, s);
    assert(m * low == unit_scale() * q + r * low) by (nonlinear_arith)
        requires
            m == s * q + r,
            unit_scale() == low * s,
    ;
    assert(0 <= r * low < unit_scale()) by (nonlinear_arith)
        requires
            0 <= r < s,
            low > 0,
            unit_scale() == low * s,
    ;
    vstd::arithmetic::div_mod::lemma_fundamental_div_mod_converse(
        m * low,
        unit_scale(),
        q,
        r * low,
    );
    assert(r * low == 0 <==> r == 0) by (nonlinear_arith)
        requires
            low > 0,
    ;
}

/// A large magnitude is a whole number.
proof fn lemma_split_large(m: int, e: int)
    requires
        0 <= m,
        e >= 1075,
    ensures
        m * pow2((e - 1) as nat) == unit_scale() * (m * pow2((e - 1075) as nat)),
        (m * pow2((e - 1) as nat)) / unit_scale() == m * pow2((e - 1075) as nat),
        (m * pow2((e - 1) as nat)) % unit_scale() == 0,
{
    let high = pow2((e - 1075) as nat) as int;
    lemma_pow2_pos(1074);
    lemma_pow2_adds(1074, (e - 1075) as nat);
    let all = pow2((e - 1) as nat) as int;
    assert(m * all == unit_scale() * (m * high) && m * all == (m * high) * unit_scale())
        by (nonlinear_arith)
        requires
            all == unit_scale() * high,
    ;
    vstd::arithmetic::div_mod::lemma_fundamental_div_mod_converse(
        m * pow2((e - 1) as nat),
        unit_scale(),
        m * high,
        0,
    );
}

/// The number of bits of a number that is at most `pow2(k)`.
proof fn lemma_bit_length_bound(n: nat, k: nat)
    requires
        n <= pow2(k),
    ensures
        bit_length(n) <= k + 1,
    decreases k,
{
    vstd::arithmetic::power2::lemma2_to64();
    if n > 0 {
        if k == 0 {
            assert(n == 1);
            assert(bit_length(0) == 0);
        } else {
            lemma_pow2_adds(1, (k - 1) as nat);
            lemma_bit_length_bound(n / 2, (k - 1) as nat);
        }
    }
}

/// The bits that are cut off from a fraction: a power of two as a machine integer.
fn small_pow2(n: u64) -> (r: u64)
    requires
        n < 64,
    ensures
        r == pow2(n as nat),
{
    let mut out: u64 = 1;
    let mut i: u64 = 0;
    proof {
        vstd::arithmetic::power2::lemma2_to64();
    }
    while i < n
        invariant
            i <= n < 64,
            out == pow2(i as nat),
        decreases n - i,
    {
        proof {
            lemma_pow2_adds(1, i as nat);
            vstd::arithmetic::power2::lemma2_to64();
            if i + 1 < 63 {
                lemma_pow2_strictly_increases((i + 1) as nat, 63);
            }
            vstd::arithmetic::power2::lemma2_to64_rest();
        }
        out = out * 2;
        i = i + 1;
    }
    out
}

/// The integer part of the magnitude of a finite number, and whether there is a
/// fraction besides.
fn split_units(exponent: u64, fraction: u64) -> (r: (LongInt, bool))
    requires
        exponent < EXPONENTS - 1,
        fraction < FRACTIONS,
    ensures
        ({
            let units = if exponent == 0 {
                fraction as int
            } else {
                (FRACTIONS + fraction) * pow2((exponent - 1) as nat)
            };
            &&& r.0@ == units / unit_scale()
            &&& r.1 == (units % unit_scale() != 0)
        }),
{
    proof {
        lemma_pow2_pos(1074);
        vstd::arithmetic::power2::lemma2_to64();
        vstd::arithmetic::power2::lemma2_to64_rest();
    }
    if exponent == 0 {
        proof {
            lemma_pow2_strictly_increases(52, 1074);
            vstd::arithmetic::div_mod::lemma_basic_div(fraction as int, unit_scale());
            vstd::arithmetic::div_mod::lemma_small_mod(fraction as nat, pow2(1074));
        }
        return (LongInt::from_i64(0), fraction != 0);
    }
    let m: u64 = FRACTIONS + fraction;
    if exponent >= 1075 {
        proof {
            lemma_split_large(m as int, exponent as int);
            lemma_bit_length_bound(m as nat, 53);
        }
        let shift: u64 = exponent - 1075;
        let base = LongInt::from_i64(m as i64);
        (base.shl(shift), false)
    } else {
        let drop: u64 = 1075 - exponent;
        proof {
            lemma_split_small(m as int, exponent as int);
            lemma_pow2_pos(drop as nat);
        }
        if drop < 64 {
            let s: u64 = small_pow2(drop);
            let whole: u64 = m / s;
            proof {
                assert(whole <= m) by (nonlinear_arith)
                    requires
                        whole == m / s,
                        s > 0,
                ;
            }
            (LongInt::from_i64(whole as i64), m % s != 0)
        } else {
            proof {
                if drop > 64 {
                    lemma_pow2_strictly_increases(64, drop as nat);
                }
                vstd::arithmetic::div_mod::lemma_basic_div(m as int, pow2(drop as nat) as int);
                vstd::arithmetic::div_mod::lemma_small_mod(m as nat, pow2(drop as nat));
            }
            (LongInt::from_i64(0), true)
        }
    }
}

/// The integer parts decide, and then the fraction.
proof fn lemma_order_by_parts(b: int, negative: bool, units: int)
    requires
        units >= 0,
    ensures
        ({
            let n = if negative {
                -units
            } else {
                units
            };
            let whole = if negative {
                -(units / unit_scale())
            } else {
                units / unit_scale()
            };
            let rest = units % unit_scale() != 0;
            int_order(b * unit_scale(), n) == if b != whole {
                int_order(b, whole)
            } else if !rest {
                Order::Equal
            } else if negative {
                Order::Greater
            } else {
                Order::Less
            }
        }),
{
    let u = unit_scale();
    lemma_pow2_pos(1074);
    vstd::arithmetic::div_mod::lemma_fundamental_div_mod(units, u);
    let q = units / u;
    let r = units % u;
    assert(units == u * q + r);
    assert(0 <= r < u);
    let whole = if negative {
        -q
    } else {
        q
    };
    assert(b < whole ==> b * u + u <= whole * u) by (nonlinear_arith)
        requires
            u > 0,
    ;
    assert(b > whole ==> b * u >= whole * u + u) by (nonlinear_arith)
        requires
            u > 0,
    ;
    assert(whole * u == (if negative {
        -(u * q)
    } else {
        u * q
    })) by (nonlinear_arith)
        requires
            whole == (if negative {
                -q
            } else {
                q
            }),
    ;
}

/// Compares an integer of any size to a number.
pub fn compare_long_float(b: &LongInt, f: FloatBits) -> (r: Option<Order>)
    ensures
        r == mixed_order(b@, f.value()),
{
    let (negative, exponent, fraction) = f.parts();
    let top: u64 = EXPONENTS - 1;
    if exponent == top {
        if fraction != 0 {
            None
        } else if negative {
            Some(Order::Greater)
        } else {
            Some(Order::Less)
        }
    } else {
        proof {
            if exponent > 0 || fraction > 0 {
                lemma_units_monotone(0, 0, exponent as int, fraction as int);
            }
            lemma_order_by_parts(b@, f.negative(), f.units());
        }
        let (magnitude, rest) = split_units(exponent, fraction);
        let whole = if negative {
            magnitude.neg()
        } else {
            magnitude
        };
        match b.compare(&whole) {
            Order::Equal => if !rest {
                Some(Order::Equal)
            } else if negative {
                Some(Order::Greater)
            } else {
                Some(Order::Less)
            },
            order => Some(order),
        }
    }
}

/// Compares a machine integer to a number.
pub fn compare_int_float(a: i64, f: FloatBits) -> (r: Option<Order>)
    ensures
        r == mixed_order(a as int, f.value()),
{
    compare_long_float(&LongInt::from_i64(a), f)
}

/// The order of a machine integer and a number.
pub open spec fn int_float_order(a: i64, f: FloatBits) -> Option<Order> {
    mixed_order(a as int, f.value())
}

/// Compares an integer of any size to a number exactly: neither is rounded.
pub fn bigint_cmp_f64(b: &LongInt, f: FloatBits) -> (r: Option<Order>)
    ensures
        r == mixed_order(b@, f.value()),
{
    compare_long_float(b, f)
}

/// Compares a machine integer to a number exactly: neither is rounded.
pub fn i64_cmp_f64(a: i64, f: FloatBits) -> (r: Option<Order>)
    ensures
        r == int_float_order(a, f),
{
    compare_int_float(a, f)
}

/// The integer that a number is, if it is one.
pub open spec fn whole_number(f: FloatValue) -> Option<int> {
    match f {
        FloatValue::Finite(x) => if x % unit_scale() == 0 {
            Some(x / unit_scale())
        } else {
            None
        },
        _ => None,
    }
}

/// A number equals an integer exactly when it is that integer.
pub proof fn lemma_whole_number(f: FloatValue, n: int)
    ensures
        whole_number(f) == Some(n) <==> f == FloatValue::Finite(n * unit_scale()),
        mixed_order(n, f) == Some(Order::Equal) <==> whole_number(f) == Some(n),
{
    let u = unit_scale();
    lemma_pow2_pos(1074);
    assert(u * n == n * u) by (nonlinear_arith);
    match f {
        FloatValue::Finite(x) => {
            if x == n * u {
                vstd::arithmetic::div_mod::lemma_fundamental_div_mod_converse(x, u, n, 0);
            }
            vstd::arithmetic::div_mod::lemma_fundamental_div_mod(x, u);
        },
        _ => {},
    }
}

/// The integer that a number is, if it is one.
pub fn exact_long(f: FloatBits) -> (r: Option<LongInt>)
    ensures
        match (r, whole_number(f.value())) {
            (Some(n), Some(expected)) => n@ == expected,
            (None, None) => true,
            _ => false,
        },
{
    let (negative, exponent, fraction) = f.parts();
    if exponent == EXPONENTS - 1 {
        return None;
    }
    let ghost u = unit_scale();
    proof {
        lemma_pow2_pos(1074);
        if exponent > 0 || fraction > 0 {
            lemma_units_monotone(0, 0, exponent as int, fraction as int);
        }
    }
    let (magnitude, rest) = split_units(exponent, fraction);
    proof {
        let units = f.units();
        let q = units / u;
        let r = units % u;
        vstd::arithmetic::div_mod::lemma_fundamental_div_mod(units, u);
        if negative {
            if r == 0 {
                assert(-units == u * (-q)) by (nonlinear_arith)
                    requires
                        units == u * q,
                ;
                vstd::arithmetic::div_mod::lemma_fundamental_div_mod_converse(-units, u, -q, 0);
            } else {
                assert(-units == u * (-q - 1) + (u - r)) by (nonlinear_arith)
                    requires
                        units == u * q + r,
                ;
                vstd::arithmetic::div_mod::lemma_fundamental_div_mod_converse(
                    -units,
                    u,
                    -q - 1,
                    u - r,
                );
            }
        }
    }
    if rest {
        None
    } else if negative {
        Some(magnitude.neg())
    } else {
        Some(magnitude)
    }
}

/// The machine integer that a number is, if it is one.
pub fn exact_i64(f: FloatBits) -> (r: Option<i64>)
    ensures
        match r {
            Some(n) => f.value() == FloatValue::Finite(n * unit_scale()),
            None => forall|n: i64| f.value() != FloatValue::Finite(#[trigger] (n * unit_scale())),
        },
{
    proof {
        assert forall|n: i64|
            f.value() == FloatValue::Finite(#[trigger] (n * unit_scale())) implies whole_number(
            f.value(),
        ) == Some(n as int) by {
            lemma_whole_number(f.value(), n as int);
        }
    }
    match exact_long(f) {
        Some(whole) => {
            proof {
                lemma_whole_number(f.value(), whole@);
            }
            whole.to_i64()
        },
        None => None,
    }
}

/// Different bits are different numbers, but for zero and what is not a number.
pub proof fn lemma_bits_determined(f: FloatBits, g: FloatBits)
    requires
        f.value() == g.value(),
        f.value() != FloatValue::NotANumber,
        f.value() != FloatValue::Finite(0),
    ensures
        f == g,
{
    let (e1, f1, e2, f2) = (f.exponent(), f.fraction(), g.exponent(), g.fraction());
    let top = EXPONENTS - 1;
    if e1 < top {
        if e1 > 0 || f1 > 0 {
            lemma_units_monotone(0, 0, e1, f1);
        }
        if e2 > 0 || f2 > 0 {
            lemma_units_monotone(0, 0, e2, f2);
        }
        if e1 < e2 || (e1 == e2 && f1 < f2) {
            lemma_units_monotone(e1, f1, e2, f2);
        } else if e2 < e1 || (e1 == e2 && f2 < f1) {
            lemma_units_monotone(e2, f2, e1, f1);
        }
    }
    assert(e1 == e2 && f1 == f2 && f.negative() == g.negative());
}

/// An operand of rounding arithmetic.
#[derive(Debug)]
pub enum FloatOperand {
    Float(FloatBits),
    Int(i64),
    Long(LongInt),
}

/// A rounding operation.
#[derive(Clone, Copy, Debug, PartialEq, Eq, Structural)]
pub enum FloatOp {
    Add,
    Sub,
    Mul,
    Div,
    /// The quotient, rounded down.
    FloorDiv,
    /// Python's remainder: that of floor division, so it has the sign of the right
    /// operand, and a remainder of zero has it too.
    Rem,
    /// The power with an exponent that is an integer of 32 bits.
    Powi,
    Powf,
    /// The left operand and millionths of the right one.
    AddMillionths,
}

/// A rounding operation and its operands, for the host's arithmetic.
#[derive(Debug)]
pub struct FloatTask {
    pub op: FloatOp,
    pub left: FloatOperand,
    pub right: FloatOperand,
}

impl LongInt {
    /// Compares this integer to a number exactly: neither is rounded.
    pub fn partial_cmp_f64(&self, other: FloatBits) -> (r: Option<Order>)
        ensures
            r == mixed_order(self@, other.value()),
    {
        compare_long_float(self, other)
    }
}

} // verus!
