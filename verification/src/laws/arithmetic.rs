//! Arithmetic with numbers, texts and sequences.

use vstd::arithmetic::power::pow;
use vstd::arithmetic::power2::pow2;
use vstd::prelude::*;

use crate::args::raises;
use crate::arith::{as_done, computed, repeated, Arith, Computed};
use crate::exception::{ExcType, RunError, RunResult};
use crate::float::{FloatOp, FloatOperand, FloatValue};
use crate::heap::{lemma_with_refs_data, HeapData};
use crate::laws::dates::{duration_at, lemma_duration_made, value_done};
use crate::laws::results::{
    lemma_bytes_given, lemma_int_given, lemma_list_given, lemma_string_given, lemma_tuple_given,
    list_items, tuple_items,
};
use crate::types::timedelta::TimeDelta;
use crate::value::{BitwiseOp, Value};
use crate::value_add::{difference_of, sum_of};
use crate::value_bits::{bits_are, bitwise_done};
use crate::value_div::{floor_quotient_of, quotient_of, remainder_of};
use crate::value_iadd::{iadd_done, InPlace};
use crate::value_mul::product_of;
use crate::value_pow::power_of;
use crate::vm::VM;

verus! {

/// The number of an integer, small or in the heap.
pub open spec fn whole(vm: VM, v: Value) -> Option<int> {
    match v {
        Value::Int(n) => Some(n as int),
        Value::Ref(_) => match vm.data_of(v) {
            Some(HeapData::LongInt(n)) => Some(n@),
            _ => None,
        },
        _ => None,
    }
}

/// The number of a result that is an integer.
pub open spec fn number_given(after: VM, r: RunResult<Arith>) -> Option<int> {
    match value_done(r) {
        Some(v) => whole(after, v),
        None => None,
    }
}

/// An integer result is the integer that it is said to be.
proof fn lemma_number(before: VM, after: VM, r: RunResult<Arith>, n: int)
    requires
        computed(before, after, r, Computed::Integer(n)),
        r is Ok,
    ensures
        number_given(after, r) == Some(n),
{
    lemma_int_given(before, after, as_done(r)->0, n);
}

/// The sum of integers is their sum, and their difference the first without the
/// second.
pub proof fn lemma_integer_sum_and_difference(
    before: VM,
    a: Value,
    b: Value,
    x: int,
    y: int,
    sum: VM,
    r: RunResult<Arith>,
    rest: VM,
    s: RunResult<Arith>,
)
    requires
        whole(before, a) == Some(x),
        whole(before, b) == Some(y),
        computed(before, sum, r, sum_of(before, a, b)),
        computed(before, rest, s, difference_of(before, a, b)),
        r is Ok,
        s is Ok,
    ensures
        number_given(sum, r) == Some(x + y),
        number_given(rest, s) == Some(x - y),
{
    lemma_number(before, sum, r, x + y);
    lemma_number(before, rest, s, x - y);
}

/// `(a + b) - b` is `a` for integers.
pub proof fn lemma_sum_undone(
    before: VM,
    mid: VM,
    after: VM,
    a: Value,
    b: Value,
    w: Value,
    x: int,
    y: int,
    r: RunResult<Arith>,
    s: RunResult<Arith>,
)
    requires
        whole(before, a) == Some(x),
        whole(before, b) == Some(y),
        whole(mid, b) == Some(y),
        computed(before, mid, r, sum_of(before, a, b)),
        r == Ok::<Arith, RunError>(Arith::Done(w)),
        computed(mid, after, s, difference_of(mid, w, b)),
        s is Ok,
    ensures
        number_given(after, s) == Some(x),
{
    lemma_number(before, mid, r, x + y);
    lemma_number(mid, after, s, x + y - y);
}

/// The product of integers is their product.
pub proof fn lemma_integer_product(
    before: VM,
    after: VM,
    a: Value,
    b: Value,
    x: int,
    y: int,
    r: RunResult<Arith>,
)
    requires
        whole(before, a) == Some(x),
        whole(before, b) == Some(y),
        computed(before, after, r, product_of(before, a, b)),
        r is Ok,
    ensures
        number_given(after, r) == Some(x * y),
{
    assert(x * y == y * x) by (nonlinear_arith);
    lemma_number(before, after, r, x * y);
}

/// `a // b` and `a % b` are the quotient and the remainder of integers: the quotient
/// times the divisor and the remainder make up the dividend, and the remainder is
/// between zero and the divisor. With a divisor of zero both are errors.
pub proof fn lemma_integer_division(
    before: VM,
    a: Value,
    b: Value,
    x: int,
    y: int,
    quotient: VM,
    r: RunResult<Arith>,
    remainder: VM,
    s: RunResult<Arith>,
)
    requires
        whole(before, a) == Some(x),
        whole(before, b) == Some(y),
        computed(before, quotient, r, floor_quotient_of(before, a, b)),
        computed(before, remainder, s, remainder_of(before, a, b)),
    ensures
        y == 0 ==> raises(r, (ExcType::ZeroDivisionError, "division by zero"@)) && raises(
            s,
            (ExcType::ZeroDivisionError, "division by zero"@),
        ),
        y != 0 && r is Ok && s is Ok ==> (number_given(quotient, r) matches Some(q)
            && number_given(remainder, s) matches Some(m) && x == q * y + m && (if y > 0 {
            0 <= m < y
        } else {
            y < m <= 0
        })),
{
    if y != 0 && r is Ok && s is Ok {
        let q = crate::bigint::floor_div(x, y);
        let m = crate::bigint::floor_mod(x, y);
        lemma_number(before, quotient, r, q);
        lemma_number(before, remainder, s, m);
        crate::value_div::lemma_quotient_and_remainder(before, a, b, q, m);
    }
}

/// A power of integers with an exponent that is not negative is the number so many
/// times multiplied with itself.
pub proof fn lemma_integer_power(
    before: VM,
    after: VM,
    a: Value,
    b: Value,
    x: int,
    y: int,
    r: RunResult<Arith>,
)
    requires
        whole(before, a) == Some(x),
        whole(before, b) == Some(y),
        a is Int || b is Int,
        y >= 0,
        computed(before, after, r, power_of(before, a, b)),
        r is Ok,
    ensures
        number_given(after, r) == Some(pow(x, y as nat)),
{
    lemma_number(before, after, r, pow(x, y as nat));
}

/// Whether an operand of rounding arithmetic is a value.
pub open spec fn operand_of(o: FloatOperand, v: Value) -> bool {
    match (o, v) {
        (FloatOperand::Float(f), Value::Float(g)) => f == g,
        (FloatOperand::Int(i), Value::Int(j)) => i == j,
        _ => false,
    }
}

/// Whether a result is rounding arithmetic with two values, in their order.
pub open spec fn asks_for(r: RunResult<Arith>, op: FloatOp, a: Value, b: Value) -> bool {
    r matches Ok(Arith::Float(task)) && task.op == op && operand_of(task.left, a) && operand_of(
        task.right,
        b,
    )
}

/// Arithmetic with floats is the rounding arithmetic of its operator with the
/// operands in their order.
pub proof fn lemma_float_tasks(
    vm: VM,
    a: Value,
    b: Value,
    sum: RunResult<Arith>,
    rest: RunResult<Arith>,
    product: RunResult<Arith>,
    v1: VM,
    v2: VM,
    v3: VM,
)
    requires
        a is Float || a is Int,
        b is Float || b is Int,
        a is Float || b is Float,
        computed(vm, v1, sum, sum_of(vm, a, b)),
        computed(vm, v2, rest, difference_of(vm, a, b)),
        computed(vm, v3, product, product_of(vm, a, b)),
    ensures
        asks_for(sum, FloatOp::Add, a, b),
        asks_for(rest, FloatOp::Sub, a, b),
        asks_for(product, FloatOp::Mul, a, b),
{
}

/// A power of small integers and floats is the rounding power of the operands in their
/// order where one of them is a float or the exponent is negative; nought has no power
/// with a negative exponent.
pub proof fn lemma_float_power(
    vm: VM,
    a: Value,
    b: Value,
    negative: bool,
    after: VM,
    r: RunResult<Arith>,
)
    requires
        a is Float || a is Int,
        b is Float || b is Int,
        match b {
            Value::Int(n) => negative == (n < 0),
            Value::Float(f) => match f.value() {
                FloatValue::NotANumber => !negative,
                FloatValue::Infinite { negative: below } => negative == below,
                FloatValue::Finite(n) => negative == (n < 0),
            },
            _ => true,
        },
        a is Float || b is Float || negative,
        computed(vm, after, r, power_of(vm, a, b)),
    ensures
        if is_nought(a) && negative {
            r is Err
        } else {
            asks_for(r, FloatOp::Powf, a, b) || (b is Int && asks_for(r, FloatOp::Powi, a, b))
        },
{
}

/// Whether a number is zero.
pub open spec fn is_nought(v: Value) -> bool {
    match v {
        Value::Int(n) => n == 0,
        Value::Float(f) => f.value() == FloatValue::Finite(0),
        _ => false,
    }
}

/// A quotient of small integers and floats is rounding division in the order of the
/// operands, and so are, with a float among them, the quotient rounded down and the
/// remainder; with a divisor of zero they are errors.
pub proof fn lemma_float_division(
    vm: VM,
    a: Value,
    b: Value,
    quotient: RunResult<Arith>,
    down: RunResult<Arith>,
    rest: RunResult<Arith>,
    v1: VM,
    v2: VM,
    v3: VM,
)
    requires
        a is Float || a is Int,
        b is Float || b is Int,
        computed(vm, v1, quotient, quotient_of(vm, a, b)),
        computed(vm, v2, down, floor_quotient_of(vm, a, b)),
        computed(vm, v3, rest, remainder_of(vm, a, b)),
    ensures
        is_nought(b) ==> {
            &&& raises(quotient, (ExcType::ZeroDivisionError, "division by zero"@))
            &&& raises(down, (ExcType::ZeroDivisionError, "division by zero"@))
            &&& raises(rest, (ExcType::ZeroDivisionError, "division by zero"@))
        },
        !is_nought(b) ==> asks_for(quotient, FloatOp::Div, a, b),
        !is_nought(b) && (a is Float || b is Float) ==> asks_for(down, FloatOp::FloorDiv, a, b)
            && asks_for(rest, FloatOp::Rem, a, b),
{
}

/// The sum of two texts is the one and then the other.
pub proof fn lemma_text_sum(
    before: VM,
    after: VM,
    a: Value,
    b: Value,
    s: Seq<char>,
    t: Seq<char>,
    r: RunResult<Arith>,
)
    requires
        before.wf(),
        before.text_of(a) == Some(s),
        before.text_of(b) == Some(t),
        computed(before, after, r, sum_of(before, a, b)),
        r is Ok,
    ensures
        value_done(r) matches Some(v) && after.text_of(v) matches Some(u) && u.len() == s.len()
            + t.len() && u.take(s.len() as int) == s && u.skip(s.len() as int) == t,
{
    lemma_string_given(before, after, as_done(r)->0, s + t);
    assert((s + t).take(s.len() as int) =~= s);
    assert((s + t).skip(s.len() as int) =~= t);
}

/// The sum of two runs of bytes is the one and then the other.
pub proof fn lemma_bytes_sum(
    before: VM,
    after: VM,
    a: Value,
    b: Value,
    s: Seq<u8>,
    t: Seq<u8>,
    r: RunResult<Arith>,
)
    requires
        before.bytes_of(a) == Some(s),
        before.bytes_of(b) == Some(t),
        computed(before, after, r, sum_of(before, a, b)),
        r is Ok,
    ensures
        value_done(r) matches Some(v) && after.bytes_of(v) matches Some(u) && u.len() == s.len()
            + t.len() && u.take(s.len() as int) == s && u.skip(s.len() as int) == t,
{
    lemma_bytes_given(before, after, as_done(r)->0, s + t);
    assert((s + t).take(s.len() as int) =~= s);
    assert((s + t).skip(s.len() as int) =~= t);
}

/// The sum of two tuples or two lists holds the items of the one and then those of
/// the other.
pub proof fn lemma_items_sum(
    before: VM,
    after: VM,
    a: Value,
    b: Value,
    xs: Seq<Value>,
    ys: Seq<Value>,
    r: RunResult<Arith>,
)
    requires
        before.wf(),
        (tuple_items(before, a) == Some(xs) && tuple_items(before, b) == Some(ys)) || (list_items(
            before,
            a,
        ) == Some(xs) && list_items(before, b) == Some(ys)),
        computed(before, after, r, sum_of(before, a, b)),
        r is Ok,
    ensures
        ({
            let items = if tuple_items(before, a) is Some {
                tuple_items(after, value_done(r)->0)
            } else {
                list_items(after, value_done(r)->0)
            };
            &&& value_done(r) is Some
            &&& items matches Some(zs)
            &&& zs.len() == xs.len() + ys.len()
            &&& zs.take(xs.len() as int) == xs
            &&& zs.skip(xs.len() as int) == ys
        }),
{
    assert((xs + ys).take(xs.len() as int) =~= xs);
    assert((xs + ys).skip(xs.len() as int) =~= ys);
    if tuple_items(before, a) is Some {
        lemma_tuple_given(before, after, as_done(r)->0, xs + ys);
    } else {
        lemma_list_given(before, after, as_done(r)->0, xs + ys);
    }
}

/// Whether a sequence is another one so many times.
pub open spec fn is_times<T>(s: Seq<T>, n: int, t: Seq<T>) -> bool {
    &&& t.len() == (if n < 0 {
        0
    } else {
        n
    }) * s.len()
    &&& forall|i: int| 0 <= i < t.len() ==> #[trigger] t[i] == s[i % s.len() as int]
}

proof fn lemma_times<T>(s: Seq<T>, n: nat)
    ensures
        is_times(s, n as int, repeated(s, n)),
    decreases n,
{
    let t = repeated(s, n);
    if n > 0 {
        let k = (n - 1) as nat;
        lemma_times(s, k);
        let before = repeated(s, k);
        assert(t == before + s);
        assert(n * s.len() == k * s.len() + s.len()) by (nonlinear_arith)
            requires
                k == n - 1,
        ;
        assert forall|i: int| 0 <= i < t.len() implies #[trigger] t[i] == s[i % s.len() as int] by {
            if i < before.len() {
                assert(t[i] == before[i]);
            } else {
                let j = i - before.len();
                assert(t[i] == s[j]);
                assert(before.len() == k * s.len());
                vstd::arithmetic::div_mod::lemma_fundamental_div_mod_converse(
                    i,
                    s.len() as int,
                    k as int,
                    j,
                );
            }
        }
    } else {
        assert(0 * s.len() == 0);
    }
}

/// A text times a small integer is the text so many times, and the empty one where
/// that is not positive; on either side.
pub proof fn lemma_text_times(
    before: VM,
    after: VM,
    a: Value,
    b: Value,
    s: Seq<char>,
    n: i64,
    r: RunResult<Arith>,
)
    requires
        before.wf(),
        (before.text_of(a) == Some(s) && b == Value::Int(n)) || (a == Value::Int(n)
            && before.text_of(b) == Some(s)),
        computed(before, after, r, product_of(before, a, b)),
        r is Ok,
    ensures
        value_done(r) matches Some(v) && after.text_of(v) matches Some(t) && is_times(
            s,
            n as int,
            t,
        ),
{
    let count = if n <= 0 {
        0
    } else {
        n as nat
    };
    lemma_times(s, count);
    assert(0 * s.len() == 0);
    lemma_string_given(before, after, as_done(r)->0, repeated(s, count));
}

/// Bytes times a small integer are the bytes so many times; on either side.
pub proof fn lemma_bytes_times(
    before: VM,
    after: VM,
    a: Value,
    b: Value,
    s: Seq<u8>,
    n: i64,
    r: RunResult<Arith>,
)
    requires
        (before.bytes_of(a) == Some(s) && b == Value::Int(n)) || (a == Value::Int(n)
            && before.bytes_of(b) == Some(s)),
        computed(before, after, r, product_of(before, a, b)),
        r is Ok,
    ensures
        value_done(r) matches Some(v) && after.bytes_of(v) matches Some(t) && is_times(
            s,
            n as int,
            t,
        ),
{
    let count = if n <= 0 {
        0
    } else {
        n as nat
    };
    lemma_times(s, count);
    assert(0 * s.len() == 0);
    lemma_bytes_given(before, after, as_done(r)->0, repeated(s, count));
}

/// A tuple or list times a small integer holds its items so many times; on either
/// side.
pub proof fn lemma_items_times(
    before: VM,
    after: VM,
    a: Value,
    b: Value,
    seq: Value,
    xs: Seq<Value>,
    n: i64,
    r: RunResult<Arith>,
)
    requires
        before.wf(),
        (seq == a && b == Value::Int(n)) || (a == Value::Int(n) && seq == b),
        tuple_items(before, seq) == Some(xs) || list_items(before, seq) == Some(xs),
        computed(before, after, r, product_of(before, a, b)),
        r is Ok,
    ensures
        ({
            let items = if tuple_items(before, seq) is Some {
                tuple_items(after, value_done(r)->0)
            } else {
                list_items(after, value_done(r)->0)
            };
            &&& value_done(r) is Some
            &&& items matches Some(ys)
            &&& is_times(xs, n as int, ys)
        }),
{
    let count = if n <= 0 {
        0
    } else {
        n as nat
    };
    lemma_times(xs, count);
    assert(0 * xs.len() == 0);
    if tuple_items(before, seq) is Some {
        lemma_tuple_given(before, after, as_done(r)->0, repeated(xs, count));
    } else {
        lemma_list_given(before, after, as_done(r)->0, repeated(xs, count));
    }
}

/// A duration times a small integer lasts so many times as long; on either side.
pub proof fn lemma_duration_times(
    before: VM,
    after: VM,
    a: Value,
    b: Value,
    delta: TimeDelta,
    n: i64,
    r: RunResult<Arith>,
)
    requires
        (duration_at(before, a) == Some(delta) && b == Value::Int(n)) || (a == Value::Int(n)
            && duration_at(before, b) == Some(delta)),
        computed(before, after, r, product_of(before, a, b)),
        r is Ok,
    ensures
        value_done(r) matches Some(v) && duration_at(after, v) matches Some(d) && d.total()
            == delta.total() * n,
{
    assert(crate::value_add::duration_of(delta.total() * n) == Computed::Duration(
        delta.total() * n,
    ));
    lemma_duration_made(before, after, r, delta.total() * n);
}

/// A duration divided by a small integer: with `//` the largest duration that fits so
/// often, and with `/` one at most half a microsecond away, the even one of two.
pub proof fn lemma_duration_divided(
    before: VM,
    a: Value,
    delta: TimeDelta,
    n: i64,
    v1: VM,
    down: RunResult<Arith>,
    v2: VM,
    near: RunResult<Arith>,
)
    requires
        duration_at(before, a) == Some(delta),
        delta.wf(),
        n != 0,
        computed(before, v1, down, floor_quotient_of(before, a, Value::Int(n))),
        computed(before, v2, near, quotient_of(before, a, Value::Int(n))),
        down is Ok,
        near is Ok,
    ensures
        value_done(down) matches Some(v) && duration_at(v1, v) matches Some(d) && (if n > 0 {
            d.total() * n <= delta.total() < d.total() * n + n
        } else {
            d.total() * n + n < delta.total() <= d.total() * n
        }),
        value_done(near) matches Some(v) && duration_at(v2, v) matches Some(d) && ({
            let rest = 2 * (delta.total() - d.total() * n);
            let size = if n < 0 {
                -(n as int)
            } else {
                n as int
            };
            &&& -size <= rest <= size
            &&& rest == size || rest == -size ==> d.total() % 2 == 0
        }),
{
    let q = crate::bigint::floor_div(delta.total(), n as int);
    crate::value_int::lemma_floor_divmod_identity(delta.total(), n as int);
    assert(crate::value_add::duration_of(q) == Computed::Duration(q));
    lemma_duration_made(before, v1, down, q);
    let p = crate::value_div::nearest_quotient(delta.total(), n as int);
    lemma_nearest(delta, n);
    assert(crate::value_add::duration_of(p) == Computed::Duration(p));
    lemma_duration_made(before, v2, near, p);
}

/// There is an integer nearest to a quotient.
proof fn lemma_nearest(delta: TimeDelta, n: i64)
    requires
        n != 0,
    ensures
        crate::types::timedelta::nearest_even(
            delta.total(),
            n as int,
            crate::value_div::nearest_quotient(delta.total(), n as int),
        ),
{
    let a = delta.total();
    let b = n as int;
    let q = crate::bigint::floor_div(a, b);
    crate::value_int::lemma_floor_divmod_identity(a, b);
    let size = if b < 0 {
        -b
    } else {
        b
    };
    let rest = a - q * b;
    let twice = 2 * (if rest < 0 {
        -rest
    } else {
        rest
    });
    assert((q + 1) * b == q * b + b) by (nonlinear_arith);
    let p = if twice < size || (twice == size && q % 2 == 0) {
        q
    } else {
        q + 1
    };
    assert(crate::types::timedelta::nearest_even(a, b, p));
}

/// The bit of an integer at a place, in two's complement.
pub open spec fn has_bit(n: int, i: nat) -> bool {
    (n / (pow2(i) as int)) % 2 == 1
}

/// `&`, `|` and `^` work bit by bit on the binary digits of integers, truth values
/// among them.
pub proof fn lemma_bit_by_bit(
    before: VM,
    after: VM,
    a: Value,
    b: Value,
    x: int,
    y: int,
    op: BitwiseOp,
    i: nat,
    r: RunResult<Value>,
)
    requires
        before.integer_of(a) == Some(x),
        before.integer_of(b) == Some(y),
        bitwise_done(before, after, r, op, a, b),
        r is Ok,
        op is And || op is Or || op is Xor,
    ensures
        after.integer_of(r->Ok_0) matches Some(n) && has_bit(n, i) == (match op {
            BitwiseOp::And => has_bit(x, i) && has_bit(y, i),
            BitwiseOp::Or => has_bit(x, i) || has_bit(y, i),
            _ => has_bit(x, i) != has_bit(y, i),
        }),
{
    let m = choose|m: int|
        #![trigger bits_are(op, x, y, m)]
        bits_are(op, x, y, m) && crate::value_int::int_result(before, after, r, m);
    lemma_int_given(before, after, r, m);
    assert(crate::bigint::bit_at(m, i) == has_bit(m, i));
    assert(crate::bigint::bit_at(x, i) == has_bit(x, i));
    assert(crate::bigint::bit_at(y, i) == has_bit(y, i));
}

/// A shift to the left multiplies by a power of two, and one to the right divides by
/// it and rounds down; a negative one is an error.
pub proof fn lemma_shifts(
    before: VM,
    after: VM,
    a: Value,
    b: Value,
    x: int,
    y: int,
    left: bool,
    r: RunResult<Value>,
)
    requires
        before.integer_of(a) == Some(x),
        before.integer_of(b) == Some(y),
        bitwise_done(
            before,
            after,
            r,
            if left {
                BitwiseOp::LShift
            } else {
                BitwiseOp::RShift
            },
            a,
            b,
        ),
    ensures
        y < 0 ==> raises(r, (ExcType::ValueError, "negative shift count"@)),
        y >= 0 && left && r is Ok ==> after.integer_of(r->Ok_0) == Some(x * pow2(y as nat)),
        0 <= y <= i64::MAX && !left && r is Ok ==> (after.integer_of(r->Ok_0) matches Some(n) && n
            * pow2(y as nat) <= x < (n + 1) * pow2(y as nat)),
{
    let op = if left {
        BitwiseOp::LShift
    } else {
        BitwiseOp::RShift
    };
    if y >= 0 && r is Ok {
        let m = choose|m: int|
            #![trigger bits_are(op, x, y, m)]
            bits_are(op, x, y, m) && crate::value_int::int_result(before, after, r, m);
        lemma_int_given(before, after, r, m);
        let p = pow2(y as nat) as int;
        vstd::arithmetic::power2::lemma_pow2_pos(y as nat);
        if !left && y <= i64::MAX {
            assert(m * p <= x < (m + 1) * p) by (nonlinear_arith)
                requires
                    m == x / p,
                    p > 0,
            ;
        }
    }
}

/// `a += b` gives a text or an integer what `a + b` gives.
pub proof fn lemma_add_in_place(
    before: VM,
    after: VM,
    a: Value,
    now: Value,
    b: Value,
    r: RunResult<InPlace>,
)
    requires
        before.wf(),
        iadd_done(before, after, r, a, now, b),
        r is Ok,
    ensures
        a is Int && b is Int ==> whole(after, now) == Some(a->Int_0 + b->Int_0),
        a is InternString && before.text_of(b) is Some ==> after.text_of(now) == Some(
            before.text_of(a)->0 + before.text_of(b)->0,
        ),
        a is InternBytes && before.bytes_of(b) is Some ==> after.bytes_of(now) == Some(
            before.bytes_of(a)->0 + before.bytes_of(b)->0,
        ),
{
    let done = Ok::<Value, RunError>(now);
    if a is Int && b is Int {
        lemma_int_given(before, after, done, a->Int_0 + b->Int_0);
    } else if a is InternString && before.text_of(b) is Some {
        lemma_string_given(before, after, done, before.text_of(a)->0 + before.text_of(b)->0);
    } else if a is InternBytes && before.bytes_of(b) is Some {
        lemma_bytes_given(before, after, done, before.bytes_of(a)->0 + before.bytes_of(b)->0);
    }
}

/// `a += b` of lists puts the items of `b` at the end of `a`, which stays the same
/// object, and leaves `b` as it is where it is another one.
pub proof fn lemma_list_extended(
    before: VM,
    after: VM,
    a: Value,
    now: Value,
    b: Value,
    xs: Seq<Value>,
    ys: Seq<Value>,
    r: RunResult<InPlace>,
)
    requires
        before.ok(a),
        before.ok(b),
        list_items(before, a) == Some(xs),
        list_items(before, b) == Some(ys),
        iadd_done(before, after, r, a, now, b),
    ensures
        r == Ok::<InPlace, RunError>(InPlace::Changed),
        now == a,
        list_items(after, a) == Some(xs + ys),
        a != b ==> list_items(after, b) == Some(ys),
{
    lemma_with_refs_data(before.entries(), ys);
}

/// Truth values count as 0 and 1 in products, quotients rounded down and powers with
/// small integers.
pub proof fn lemma_truth_arithmetic(
    before: VM,
    a: Value,
    b: Value,
    x: int,
    y: int,
    v1: VM,
    product: RunResult<Arith>,
    v2: VM,
    quotient: RunResult<Arith>,
    v3: VM,
    power: RunResult<Arith>,
)
    requires
        a is Bool || b is Bool,
        a is Bool || a is Int,
        b is Bool || b is Int,
        before.integer_of(a) == Some(x),
        before.integer_of(b) == Some(y),
        computed(before, v1, product, product_of(before, a, b)),
        computed(before, v2, quotient, floor_quotient_of(before, a, b)),
        computed(before, v3, power, power_of(before, a, b)),
    ensures
        product is Ok ==> number_given(v1, product) == Some(x * y),
        y == 0 ==> raises(quotient, (ExcType::ZeroDivisionError, "division by zero"@)),
        y == 1 && quotient is Ok ==> number_given(v2, quotient) == Some(x),
        y >= 0 && power is Ok ==> number_given(v3, power) == Some(pow(x, y as nat)),
{
    if product is Ok {
        assert(x * y == y * x) by (nonlinear_arith);
        lemma_number(before, v1, product, x * y);
    }
    if y == 1 && quotient is Ok {
        assert(crate::bigint::floor_div(x, 1) == x);
        if quotient != Ok::<Arith, RunError>(Arith::Done(a)) && !(b is Bool) {
            lemma_number(before, v2, quotient, x);
        }
    }
    if y >= 0 && power is Ok {
        vstd::arithmetic::power::lemma_pow0(x);
        vstd::arithmetic::power::lemma_pow1(x);
        if b is Int {
            lemma_number(before, v3, power, pow(x, y as nat));
        }
    }
}

} // verus!
