//! Powers of values.

use vstd::arithmetic::power::pow;
use vstd::prelude::*;

use crate::args::Raised;
use crate::arith::{computed, done, memory_error, raised, rounded, Arith, Computed, Operand};
use crate::bigint::{bit_length, magnitude};
use crate::exception::{ExcType, RunError, RunResult};
use crate::float::{FloatOp, FloatOperand, FloatValue};
use crate::heap::{HeapData, HeapId};
use crate::types::long_int::LongInt;
use crate::value::{FloatBits, Value};
use crate::value_int::{bigint_pow, fits_i64};
use crate::value_mul::{bool_int, check_bits, int_of_bool, too_many_bits};
use crate::vm::VM;

verus! {

/// The bits of the number one.
pub const ONE_BITS: u64 = 0x3FF0_0000_0000_0000;

/// The error for a power of zero with a negative exponent.
pub open spec fn zero_power() -> Raised {
    (ExcType::ZeroDivisionError, "zero to a negative power"@)
}

fn zero_negative_power() -> (r: RunError)
    ensures
        r.says(ExcType::ZeroDivisionError, "zero to a negative power"@),
{
    RunError::new(ExcType::ZeroDivisionError, "zero to a negative power")
}

/// Whether a power is too large for the limit on results; those of 0, 1 and -1
/// never are.
pub open spec fn too_large_power(vm: VM, base: int, exp: int) -> bool {
    let bits = bit_length(magnitude(base)) as int;
    bits > 1 && too_many_bits(vm, bits * exp)
}

/// A power, or the error when it is too large.
pub open spec fn long_power(vm: VM, base: int, exp: int) -> Computed {
    if too_large_power(vm, base, exp) {
        raised(memory_error())
    } else {
        Computed::Integer(pow(base, exp as nat))
    }
}

/// A power of machine integers whose exponent is a short one: what fits into a
/// machine integer needs no check.
pub open spec fn short_power(vm: VM, base: int, exp: int) -> Computed {
    if fits_i64(pow(base, exp as nat)) {
        Computed::Integer(pow(base, exp as nat))
    } else {
        long_power(vm, base, exp)
    }
}

/// A rounding power with an integer exponent.
pub open spec fn float_power(base: Operand, exp: i64) -> Computed {
    if i32::MIN <= exp <= i32::MAX {
        Computed::Rounded(FloatOp::Powi, base, Operand::Int(exp))
    } else {
        Computed::Rounded(FloatOp::Powf, base, Operand::Int(exp))
    }
}

/// Whether a number is less than zero.
pub open spec fn below_zero(f: FloatBits) -> bool {
    match f.value() {
        FloatValue::NotANumber => false,
        FloatValue::Infinite { negative } => negative,
        FloatValue::Finite(n) => n < 0,
    }
}

/// A power of an integer with a machine integer as exponent.
pub open spec fn int_power(vm: VM, base: i64, exp: i64) -> Computed {
    if base == 0 && exp < 0 {
        raised(zero_power())
    } else if exp < 0 {
        float_power(Operand::Int(base), exp)
    } else if exp <= u32::MAX {
        short_power(vm, base as int, exp as int)
    } else {
        long_power(vm, base as int, exp as int)
    }
}

/// A power of a machine integer with a long exponent.
pub open spec fn int_power_long(vm: VM, base: i64, exp: int) -> Computed {
    if base == 0 && exp < 0 {
        raised(zero_power())
    } else if exp < 0 {
        Computed::Rounded(FloatOp::Powf, Operand::Int(base), Operand::Long(exp))
    } else if -1 <= base <= 1 || exp == 0 {
        Computed::Integer(pow(base as int, exp as nat))
    } else if exp <= u32::MAX {
        short_power(vm, base as int, exp)
    } else {
        Computed::Raise(ExcType::OverflowError, "exponent too large"@)
    }
}

/// What `a ** b` comes to.
pub open spec fn power_of(vm: VM, a: Value, b: Value) -> Computed {
    match (a, b) {
        (Value::Int(x), Value::Int(y)) => int_power(vm, x, y),
        (Value::Ref(id), Value::Int(y)) => match vm.heap.data(id) {
            HeapData::LongInt(l) => if l@ == 0 && y < 0 {
                raised(zero_power())
            } else if y < 0 {
                float_power(Operand::Long(l@), y)
            } else {
                long_power(vm, l@, y as int)
            },
            _ => Computed::Unsupported,
        },
        (Value::Int(x), Value::Ref(id)) => match vm.heap.data(id) {
            HeapData::LongInt(l) => int_power_long(vm, x, l@),
            _ => Computed::Unsupported,
        },
        (Value::Float(x), Value::Float(y)) => if x.value() == FloatValue::Finite(0) && below_zero(
            y,
        ) {
            raised(zero_power())
        } else {
            Computed::Rounded(FloatOp::Powf, Operand::Float(x), Operand::Float(y))
        },
        (Value::Int(x), Value::Float(y)) => if x == 0 && below_zero(y) {
            raised(zero_power())
        } else {
            Computed::Rounded(FloatOp::Powf, Operand::Int(x), Operand::Float(y))
        },
        (Value::Float(x), Value::Int(y)) => if x.value() == FloatValue::Finite(0) && y < 0 {
            raised(zero_power())
        } else {
            float_power(Operand::Float(x), y)
        },
        (Value::Bool(x), Value::Int(y)) => if !x && y < 0 {
            raised(zero_power())
        } else if y < 0 {
            float_power(Operand::Int(bool_int(x)), y)
        } else {
            Computed::Integer(pow(bool_int(x) as int, y as nat))
        },
        (Value::Int(_), Value::Bool(y)) => Computed::Exact(
            if y {
                a
            } else {
                Value::Int(1)
            },
        ),
        (Value::Bool(x), Value::Float(y)) => if !x && below_zero(y) {
            raised(zero_power())
        } else {
            Computed::Rounded(FloatOp::Powf, Operand::Int(bool_int(x)), Operand::Float(y))
        },
        (Value::Float(_), Value::Bool(y)) => Computed::Exact(
            if y {
                a
            } else {
                Value::Float(FloatBits(ONE_BITS))
            },
        ),
        (Value::Bool(x), Value::Bool(y)) => Computed::Exact(
            Value::Int(
                if y {
                    bool_int(x)
                } else {
                    1
                },
            ),
        ),
        _ => Computed::Unsupported,
    }
}

/// Powers of 0, 1 and -1.
proof fn lemma_small_powers(n: nat)
    ensures
        pow(0, n) == (if n == 0 {
            1int
        } else {
            0
        }),
        pow(1, n) == 1,
        pow(-1, n) == (if n % 2 == 0 {
            1int
        } else {
            -1
        }),
    decreases n,
{
    reveal(pow);
    if n > 0 {
        lemma_small_powers((n - 1) as nat);
    }
}

/// A product of something out of range and a factor of at least two stays out.
proof fn lemma_grows(p: int, b: int)
    requires
        !fits_i64(p),
        b >= 2 || b <= -2,
    ensures
        !fits_i64(p * b),
{
    assert(p * b >= 0x1_0000_0000_0000_0000 || p * b <= -0x1_0000_0000_0000_0000) by (
        nonlinear_arith)
        requires
            p >= 0x8000_0000_0000_0000 || p <= -0x8000_0000_0000_0001,
            b >= 2 || b <= -2,
    ;
}

/// Once a power is out of range, the next ones are.
proof fn lemma_stays_out(base: int, k: nat, n: nat)
    requires
        k <= n,
        base >= 2 || base <= -2,
        !fits_i64(pow(base, k)),
    ensures
        !fits_i64(pow(base, n)),
    decreases n - k,
{
    if k < n {
        lemma_stays_out(base, k, (n - 1) as nat);
        reveal(pow);
        lemma_grows(pow(base, (n - 1) as nat), base);
        assert(pow(base, n) == base * pow(base, (n - 1) as nat));
        assert(base * pow(base, (n - 1) as nat) == pow(base, (n - 1) as nat) * base)
            by (nonlinear_arith);
    }
}

/// A power of machine integers, if it is one.
fn checked_pow(base: i64, exp: u32) -> (r: Option<i64>)
    ensures
        match r {
            Some(p) => p == pow(base as int, exp as nat),
            None => !fits_i64(pow(base as int, exp as nat)),
        },
{
    proof {
        lemma_small_powers(exp as nat);
    }
    if base == 0 {
        return Some(
            if exp == 0 {
                1
            } else {
                0
            },
        );
    }
    if base == 1 {
        return Some(1);
    }
    if base == -1 {
        return Some(
            if exp % 2 == 0 {
                1
            } else {
                -1
            },
        );
    }
    let mut p: i64 = 1;
    let mut k: u32 = 0;
    proof {
        vstd::arithmetic::power::lemma_pow0(base as int);
    }
    while k < exp
        invariant
            k <= exp,
            base >= 2 || base <= -2,
            p == pow(base as int, k as nat),
        decreases exp - k,
    {
        proof {
            reveal(pow);
            assert(pow(base as int, (k + 1) as nat) == base * pow(base as int, k as nat));
            assert(base * p == p * base) by (nonlinear_arith);
        }
        match p.checked_mul(base) {
            Some(next) => {
                p = next;
                k = k + 1;
            },
            None => {
                proof {
                    lemma_stays_out(base as int, (k + 1) as nat, exp as nat);
                }
                return None;
            },
        }
    }
    Some(p)
}

/// Checks the size of a power.
fn check_pow_size(vm: &VM, base_bits: u64, exp: u64, base: Ghost<int>) -> (r: RunResult<()>)
    requires
        base_bits == bit_length(magnitude(base@)),
    ensures
        if too_large_power(*vm, base@, exp as int) {
            crate::args::raises(r, memory_error())
        } else {
            r is Ok
        },
{
    if base_bits <= 1 {
        return Ok(());
    }
    assert(base_bits * exp <= 0xffff_ffff_ffff_ffff * 0xffff_ffff_ffff_ffff) by (nonlinear_arith)
        requires
            0 <= base_bits <= 0xffff_ffff_ffff_ffff,
            0 <= exp <= 0xffff_ffff_ffff_ffff,
    ;
    check_bits(vm, base_bits as u128 * exp as u128)
}

/// A power with an exponent that is not negative, checked before it is computed.
fn checked_long_pow(base: &LongInt, exp: u64, vm: &VM) -> (r: RunResult<LongInt>)
    ensures
        match long_power(*vm, base@, exp as int) {
            Computed::Integer(n) => r matches Ok(p) && p@ == n,
            Computed::Raise(t, m) => crate::args::raises(r, (t, m)),
            _ => false,
        },
{
    let bits: u64 = base.bits();
    let ghost wide = base@;
    match check_pow_size(vm, bits, exp, Ghost(wide)) {
        Err(e) => Err(e),
        Ok(_) => {
            if exp <= u32::MAX as u64 {
                proof {
                    if bits <= 1 {
                        assert(bits * exp <= exp) by (nonlinear_arith)
                            requires
                                0 <= bits <= 1,
                                0 <= exp,
                        ;
                    }
                }
                Ok(base.pow(exp as u32))
            } else {
                Ok(bigint_pow(base, exp))
            }
        },
    }
}

/// A rounding power with an integer exponent.
fn float_pow(base: FloatOperand, exp: i64) -> (r: RunResult<Arith>)
    ensures
        forall|vm: VM, p: Operand|
            crate::arith::operand_is(base, p) ==> #[trigger] computed(vm, vm, r, float_power(p, exp)),
        !(r matches Ok(Arith::Done(_))),
{
    if i32::MIN as i64 <= exp && exp <= i32::MAX as i64 {
        rounded(FloatOp::Powi, base, FloatOperand::Int(exp))
    } else {
        rounded(FloatOp::Powf, base, FloatOperand::Int(exp))
    }
}

/// A power of machine integers with a short exponent.
fn short_pow(base: i64, exp: u32, vm: &mut VM) -> (r: RunResult<Arith>)
    requires
        old(vm).wf(),
    ensures
        final(vm).wf(),
        r matches Ok(Arith::Done(v)) ==> final(vm).ok(v),
        computed(*old(vm), *final(vm), r, short_power(*old(vm), base as int, exp as int)),
{
    match checked_pow(base, exp) {
        Some(p) => Ok(Arith::Done(Value::Int(p))),
        None => match checked_long_pow(&LongInt::from_i64(base), exp as u64, vm) {
            Err(e) => Err(e),
            Ok(p) => done(p.into_value(vm)),
        },
    }
}

/// A power of machine integers.
fn pow_int(base: i64, exp: i64, vm: &mut VM) -> (r: RunResult<Arith>)
    requires
        old(vm).wf(),
    ensures
        final(vm).wf(),
        r matches Ok(Arith::Done(v)) ==> final(vm).ok(v),
        computed(*old(vm), *final(vm), r, int_power(*old(vm), base, exp)),
{
    if base == 0 && exp < 0 {
        return Err(zero_negative_power());
    }
    if exp < 0 {
        return float_pow(FloatOperand::Int(base), exp);
    }
    if exp <= u32::MAX as i64 {
        return short_pow(base, exp as u32, vm);
    }
    match checked_long_pow(&LongInt::from_i64(base), exp as u64, vm) {
        Err(e) => Err(e),
        Ok(p) => done(p.into_value(vm)),
    }
}

/// A power of a machine integer with a long exponent.
fn pow_int_long(base: i64, id: HeapId, vm: &mut VM) -> (r: RunResult<Arith>)
    requires
        old(vm).wf(),
        id.0 < old(vm).entries().len(),
    ensures
        final(vm).wf(),
        r matches Ok(Arith::Done(v)) ==> final(vm).ok(v),
        computed(
            *old(vm),
            *final(vm),
            r,
            match old(vm).heap.data(id) {
                HeapData::LongInt(l) => int_power_long(*old(vm), base, l@),
                _ => Computed::Unsupported,
            },
        ),
{
    let li = match vm.heap.get(id) {
        HeapData::LongInt(li) => li.duplicate(),
        _ => {
            return Ok(Arith::Unsupported);
        },
    };
    if li.is_negative() {
        if base == 0 {
            return Err(zero_negative_power());
        }
        return rounded(FloatOp::Powf, FloatOperand::Int(base), FloatOperand::Long(li));
    }
    proof {
        lemma_small_powers(li@ as nat);
        vstd::arithmetic::power::lemma_pow0(base as int);
    }
    if li.is_zero() {
        return Ok(Arith::Done(Value::Int(1)));
    }
    if base == 0 {
        return Ok(Arith::Done(Value::Int(0)));
    }
    if base == 1 {
        return Ok(Arith::Done(Value::Int(1)));
    }
    if base == -1 {
        let rest = li.mod_floor(&LongInt::from_i64(2));
        let even = rest.is_zero();
        return Ok(
            Arith::Done(
                Value::Int(
                    if even {
                        1
                    } else {
                        -1
                    },
                ),
            ),
        );
    }
    match li.to_u32() {
        Some(exp) => short_pow(base, exp, vm),
        None => Err(RunError::new(ExcType::OverflowError, "exponent too large")),
    }
}

impl Value {
    /// `self ** other`.
    pub fn py_pow(&self, other: &Value, vm: &mut VM) -> (r: RunResult<Arith>)
        requires
            old(vm).wf(),
            old(vm).ok(*self),
            old(vm).ok(*other),
        ensures
            final(vm).wf(),
            r matches Ok(Arith::Done(v)) ==> final(vm).ok(v),
            computed(*old(vm), *final(vm), r, power_of(*old(vm), *self, *other)),
    {
        match (self, other) {
            (Value::Int(base), Value::Int(exp)) => pow_int(*base, *exp, vm),
            (Value::Ref(id), Value::Int(exp)) => {
                let li = match vm.heap.get(*id) {
                    HeapData::LongInt(li) => li.duplicate(),
                    _ => {
                        return Ok(Arith::Unsupported);
                    },
                };
                if *exp < 0 {
                    if li.is_zero() {
                        return Err(zero_negative_power());
                    }
                    return float_pow(FloatOperand::Long(li), *exp);
                }
                match checked_long_pow(&li, *exp as u64, vm) {
                    Err(e) => Err(e),
                    Ok(p) => done(p.into_value(vm)),
                }
            },
            (Value::Int(base), Value::Ref(id)) => pow_int_long(*base, *id, vm),
            (Value::Float(base), Value::Float(exp)) => {
                if base.is_zero() && exp.is_below_zero() {
                    return Err(zero_negative_power());
                }
                rounded(FloatOp::Powf, FloatOperand::Float(*base), FloatOperand::Float(*exp))
            },
            (Value::Int(base), Value::Float(exp)) => {
                if *base == 0 && exp.is_below_zero() {
                    return Err(zero_negative_power());
                }
                rounded(FloatOp::Powf, FloatOperand::Int(*base), FloatOperand::Float(*exp))
            },
            (Value::Float(base), Value::Int(exp)) => {
                if base.is_zero() && *exp < 0 {
                    return Err(zero_negative_power());
                }
                float_pow(FloatOperand::Float(*base), *exp)
            },
            (Value::Bool(base), Value::Int(exp)) => {
                let b: i64 = int_of_bool(*base);
                if b == 0 && *exp < 0 {
                    return Err(zero_negative_power());
                }
                if *exp < 0 {
                    return float_pow(FloatOperand::Int(b), *exp);
                }
                proof {
                    lemma_small_powers(*exp as nat);
                }
                Ok(
                    Arith::Done(
                        Value::Int(
                            if *base || *exp == 0 {
                                1
                            } else {
                                0
                            },
                        ),
                    ),
                )
            },
            (Value::Int(base), Value::Bool(exp)) => Ok(
                Arith::Done(
                    Value::Int(
                        if *exp {
                            *base
                        } else {
                            1
                        },
                    ),
                ),
            ),
            (Value::Bool(base), Value::Float(exp)) => {
                if !*base && exp.is_below_zero() {
                    return Err(zero_negative_power());
                }
                rounded(
                    FloatOp::Powf,
                    FloatOperand::Int(int_of_bool(*base)),
                    FloatOperand::Float(*exp),
                )
            },
            (Value::Float(base), Value::Bool(exp)) => Ok(
                Arith::Done(
                    if *exp {
                        Value::Float(*base)
                    } else {
                        Value::Float(FloatBits(ONE_BITS))
                    },
                ),
            ),
            (Value::Bool(base), Value::Bool(exp)) => Ok(
                Arith::Done(
                    Value::Int(
                        if *exp {
                            int_of_bool(*base)
                        } else {
                            1
                        },
                    ),
                ),
            ),
            _ => Ok(Arith::Unsupported),
        }
    }
}

} // verus!
