//! Python `datetime.timedelta`.

use vstd::prelude::*;

use crate::decimal::{int_digits, push_int, push_wide_int};
use crate::exception::{ExcType, RunError, RunResult};
use crate::text::{push_str, string_of};

verus! {

pub const SECONDS_PER_MINUTE: i64 = 60;

pub const SECONDS_PER_HOUR: i64 = 3_600;

pub const SECONDS_PER_DAY: i64 = 86_400;

pub const MICROSECONDS_PER_SECOND: i128 = 1_000_000;

pub const MICROSECONDS_PER_DAY: i128 = 86_400_000_000;

/// Largest magnitude of the days of a duration.
pub const MAX_DAYS: i32 = 999_999_999;

/// A duration in days, seconds and microseconds; only the days may be negative.
#[derive(Clone, Copy, Debug, PartialEq, Eq, Structural)]
pub struct TimeDelta {
    pub days: i32,
    pub seconds: i32,
    pub microseconds: i32,
}

impl TimeDelta {
    /// Whether the parts are in their ranges.
    pub open spec fn wf(self) -> bool {
        &&& -MAX_DAYS <= self.days <= MAX_DAYS
        &&& 0 <= self.seconds < SECONDS_PER_DAY
        &&& 0 <= self.microseconds < MICROSECONDS_PER_SECOND
    }

    /// The whole duration in microseconds.
    pub open spec fn total(self) -> int {
        self.days * MICROSECONDS_PER_DAY + self.seconds * MICROSECONDS_PER_SECOND
            + self.microseconds
    }
}

/// Whether a number of microseconds is a duration.
pub open spec fn duration_in_range(total: int) -> bool {
    -MAX_DAYS * MICROSECONDS_PER_DAY <= total < (MAX_DAYS + 1) * MICROSECONDS_PER_DAY
}

/// The text of the range error.
pub open spec fn days_error(total: int) -> Seq<char> {
    "days="@ + int_digits(total / (MICROSECONDS_PER_DAY as int))
        + "; must have magnitude <= 999999999"@
}

/// The whole duration in microseconds.
pub fn total_microseconds(delta: &TimeDelta) -> (r: i128)
    requires
        delta.wf(),
    ensures
        r == delta.total(),
{
    delta.days as i128 * MICROSECONDS_PER_DAY + delta.seconds as i128 * MICROSECONDS_PER_SECOND
        + delta.microseconds as i128
}

/// Quotient rounded toward negative infinity, for a positive divisor.
pub fn floor_div_pos(a: i128, b: i128) -> (r: i128)
    requires
        b > 0,
    ensures
        r == a as int / b as int,
{
    if a >= 0 {
        a / b
    } else {
        let before: i128 = -1 - a;
        proof {
            lemma_floor_of_negative(before as int, b as int);
        }
        -1 - before / b
    }
}

proof fn lemma_floor_of_negative(p: int, b: int)
    by (nonlinear_arith)
    requires
        b > 0,
        p >= 0,
    ensures
        (-1 - p) / b == -1 - p / b,
        0 <= p / b <= p,
{
}

/// Whether a result is the duration of so many microseconds, or the error for too
/// many days.
pub open spec fn duration_of(total: int, r: RunResult<TimeDelta>) -> bool {
    match r {
        Ok(delta) => duration_in_range(total) && delta.wf() && delta.total() == total,
        Err(e) => !duration_in_range(total) && e.says(ExcType::OverflowError, days_error(total)),
    }
}

/// Durations of the same length have the same parts.
pub proof fn lemma_duration_unique(a: TimeDelta, b: TimeDelta)
    requires
        a.wf(),
        b.wf(),
    ensures
        a.total() == b.total() <==> a == b,
{
}

/// The duration of a duration's microseconds is that duration.
pub proof fn lemma_duration_round_trip(delta: TimeDelta, r: RunResult<TimeDelta>)
    requires
        delta.wf(),
        duration_of(delta.total(), r),
    ensures
        r == Ok::<TimeDelta, RunError>(delta),
{
    lemma_duration_unique(delta, r->Ok_0);
}

/// The duration of `total` microseconds; an `OverflowError` when it has too many days.
pub fn from_total_microseconds(total: i128) -> (r: RunResult<TimeDelta>)
    ensures
        duration_of(total as int, r),
{
    let days: i128 = floor_div_pos(total, MICROSECONDS_PER_DAY);
    if days < -(MAX_DAYS as i128) || days > MAX_DAYS as i128 {
        let mut message: Vec<char> = Vec::new();
        push_str(&mut message, "days=");
        push_wide_int(&mut message, days);
        push_str(&mut message, "; must have magnitude <= 999999999");
        let text = string_of(&message);
        assert(text@ =~= days_error(total as int));
        return Err(RunError::new_msg(ExcType::OverflowError, text));
    }
    let rest: i128 = total - days * MICROSECONDS_PER_DAY;
    assert(0 <= rest < MICROSECONDS_PER_DAY);
    let seconds: i128 = rest / MICROSECONDS_PER_SECOND;
    let microseconds: i128 = rest % MICROSECONDS_PER_SECOND;
    Ok(TimeDelta { days: days as i32, seconds: seconds as i32, microseconds: microseconds as i32 })
}

/// The days, seconds and microseconds of a duration.
pub fn components(delta: &TimeDelta) -> (r: (i32, i32, i32))
    ensures
        r == (delta.days, delta.seconds, delta.microseconds),
{
    (delta.days, delta.seconds, delta.microseconds)
}

/// The duration in seconds, when it is a whole number of them.
pub fn exact_total_seconds(delta: &TimeDelta) -> (r: Option<i64>)
    requires
        delta.wf(),
    ensures
        match r {
            Some(s) => delta.microseconds == 0 && s * MICROSECONDS_PER_SECOND == delta.total(),
            None => delta.microseconds != 0,
        },
{
    if delta.microseconds != 0 {
        None
    } else {
        Some(delta.days as i64 * SECONDS_PER_DAY + delta.seconds as i64)
    }
}

/// Whether `q` is the integer nearest to `a / b`; of two equally near ones the even one.
pub open spec fn nearest_even(a: int, b: int, q: int) -> bool {
    let rest = 2 * (a - q * b);
    let size = if b < 0 { -b } else { b };
    &&& -size <= rest <= size
    &&& (rest == size || rest == -size) ==> q % 2 == 0
}

/// `total / divisor` rounded to the nearest integer, ties to even.
pub fn div_microseconds_round_ties_even(total: i128, divisor: i128) -> (r: i128)
    requires
        -0x4000_0000_0000_0000_0000_0000_0000_0000 < total < 0x4000_0000_0000_0000_0000_0000_0000_0000,
        -0x4000_0000_0000_0000_0000_0000_0000_0000 < divisor < 0x4000_0000_0000_0000_0000_0000_0000_0000,
        divisor != 0,
    ensures
        nearest_even(total as int, divisor as int, r as int),
        magnitude_le(r as int, total as int),
{
    let (a, b): (i128, i128) = if divisor < 0 {
        (-total, -divisor)
    } else {
        (total, divisor)
    };
    let q: i128 = floor_div_pos(a, b);
    proof {
        lemma_floor_bounds(a as int, b as int);
        assert(total * 1 == total);
    }
    assert(q * b <= a < q * b + b);
    let rest: i128 = a - q * b;
    let twice: i128 = 2 * rest;
    let up = twice > b || (twice == b && q % 2 != 0);
    let r: i128 = if up {
        q + 1
    } else {
        q
    };
    proof {
        assert((q + 1) * b == q * b + b) by (nonlinear_arith);
        assert(q as int % 2 != 0 ==> (q + 1) as int % 2 == 0);
        assert(nearest_even(a as int, b as int, r as int));
        assert(r * (-b) == -(r * b)) by (nonlinear_arith);
        lemma_quotient_small(a as int, b as int, q as int, r as int);
    }
    r
}

/// Whether the magnitude of `x` is at most that of `y`.
pub open spec fn magnitude_le(x: int, y: int) -> bool {
    (if x < 0 { -x } else { x }) <= (if y < 0 { -y } else { y })
}

proof fn lemma_floor_bounds(a: int, b: int)
    by (nonlinear_arith)
    requires
        b > 0,
    ensures
        (a / b) * b <= a < (a / b) * b + b,
        a >= 0 ==> 0 <= a / b <= a,
        a < 0 ==> a <= a / b < 0,
        (a / b) * b > a - b,
{
}

proof fn lemma_quotient_small(a: int, b: int, q: int, r: int)
    requires
        b > 0,
        q == a / b,
        r == q || r == q + 1,
        r == q + 1 ==> 2 * (a - q * b) >= b,
    ensures
        magnitude_le(r, a),
{
    lemma_floor_bounds(a, b);
    if r == q + 1 && a >= 0 {
        if b == 1 {
            assert(q * 1 == q);
            assert(a / 1 == a);
        } else {
            assert(q + 1 <= a) by (nonlinear_arith)
                requires
                    b >= 2,
                    q >= 0,
                    2 * (a - q * b) >= b,
            ;
        }
    }
}

/// The text of `datetime.timedelta(...)` for these parts.
pub open spec fn delta_repr(days: int, seconds: int, microseconds: int) -> Seq<char> {
    let d = if days != 0 {
        "days="@ + int_digits(days)
    } else {
        Seq::<char>::empty()
    };
    let ds = if seconds != 0 {
        (if days != 0 {
            d + ", "@
        } else {
            d
        }) + "seconds="@ + int_digits(seconds)
    } else {
        d
    };
    let dsm = if microseconds != 0 {
        (if days != 0 || seconds != 0 {
            ds + ", "@
        } else {
            ds
        }) + "microseconds="@ + int_digits(microseconds)
    } else {
        ds
    };
    if days == 0 && seconds == 0 && microseconds == 0 {
        "datetime.timedelta(0)"@
    } else {
        "datetime.timedelta("@ + dsm + ")"@
    }
}

/// The `repr()` of a duration; parts that are zero are left out.
pub fn format_repr(delta: &TimeDelta) -> (r: String)
    ensures
        r@ == delta_repr(delta.days as int, delta.seconds as int, delta.microseconds as int),
{
    if delta.days == 0 && delta.seconds == 0 && delta.microseconds == 0 {
        return "datetime.timedelta(0)".to_owned();
    }
    let mut body: Vec<char> = Vec::new();
    if delta.days != 0 {
        push_str(&mut body, "days=");
        push_int(&mut body, delta.days as i64);
    }
    let ghost d = body@;
    if delta.seconds != 0 {
        if delta.days != 0 {
            push_str(&mut body, ", ");
        }
        push_str(&mut body, "seconds=");
        push_int(&mut body, delta.seconds as i64);
    }
    let ghost ds = body@;
    if delta.microseconds != 0 {
        if delta.days != 0 || delta.seconds != 0 {
            push_str(&mut body, ", ");
        }
        push_str(&mut body, "microseconds=");
        push_int(&mut body, delta.microseconds as i64);
    }
    let ghost dsm = body@;
    let mut out: Vec<char> = Vec::new();
    push_str(&mut out, "datetime.timedelta(");
    let text = string_of(&body);
    push_str(&mut out, text.as_str());
    push_str(&mut out, ")");
    proof {
        if delta.days != 0 {
            assert(d =~= "days="@ + int_digits(delta.days as int));
        } else {
            assert(d =~= Seq::<char>::empty());
        }
        assert(out@ =~= "datetime.timedelta("@ + dsm + ")"@);
    }
    string_of(&out)
}

} // verus!
