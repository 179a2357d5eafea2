//! Python `datetime.date`.

use vstd::prelude::*;
use vstd::utf8::{encode_utf8, is_ascii_chars, is_ascii_chars_encode_utf8};

use crate::calendar::{
    civil_date_exists, date_format, date_from_days, days_before_year, days_from_monday,
    days_in_month, is_calendar_day, is_civil_date, is_pair, iso_date_fields,
    lemma_ordinal_in_year, lemma_ordinal_injective, lemma_years_ascend, num_days_from_ce, ordinal,
    pair, parse_iso_date_bytes, strftime_date, written_date,
};
use crate::decimal::{
    int_digits, lemma_digit_code, lemma_last_two_digits, lemma_two_digits, padded_digits, push_int,
    push_padded,
};
use crate::exception::{ExcType, RunError, RunResult};
use crate::text::{push_str, string_of};
use crate::types::timedelta::TimeDelta;

verus! {

/// The message for a date that Python's years do not reach.
pub const DATE_OUT_OF_RANGE: &'static str = "date value out of range";

/// A date; Python's years run from 1 to 9999.
#[derive(Clone, Copy, Debug, PartialEq, Eq, Structural)]
pub struct Date {
    pub year: i32,
    pub month: u32,
    pub day: u32,
}

impl Date {
    /// Whether the fields name a day of Python's calendar.
    pub open spec fn wf(self) -> bool {
        &&& is_civil_date(self.year as int, self.month as int, self.day as int)
        &&& 1 <= self.year <= 9999
    }

    /// The day number; 0001-01-01 is day 1.
    pub open spec fn day_number(self) -> int {
        ordinal(self.year as int, self.month as int, self.day as int)
    }
}

/// Whether a day number is one of Python's calendar.
pub open spec fn is_python_day(n: int) -> bool {
    1 <= n <= ordinal(9999, 12, 31)
}

/// The message for civil fields that name no date, if they do not.
pub open spec fn ymd_error(year: int, month: int, day: int) -> Option<Seq<char>> {
    if !(1 <= year <= 9999) {
        Some("year must be in 1..9999, not "@ + int_digits(year))
    } else if !(1 <= month <= 12) {
        Some("month must be in 1..12, not "@ + int_digits(month))
    } else if !(1 <= day <= days_in_month(year, month)) {
        Some(
            "day "@ + int_digits(day) + " must be in range 1.."@ + int_digits(
                days_in_month(year, month),
            ) + " for month "@ + int_digits(month) + " in year "@ + int_digits(year),
        )
    } else {
        None
    }
}

/// A message that ends in an integer.
fn message_with_int(prefix: &str, value: i32) -> (r: String)
    ensures
        r@ == prefix@ + int_digits(value as int),
{
    let mut out: Vec<char> = Vec::new();
    push_str(&mut out, prefix);
    push_int(&mut out, value as i64);
    assert(out@ =~= prefix@ + int_digits(value as int));
    string_of(&out)
}

/// Creates a date from civil components.
pub fn from_ymd(year: i32, month: i32, day: i32) -> (r: RunResult<Date>)
    ensures
        match r {
            Ok(date) => {
                &&& ymd_error(year as int, month as int, day as int) is None
                &&& date.wf()
                &&& date.year == year && date.month == month && date.day == day
            },
            Err(e) => {
                &&& ymd_error(year as int, month as int, day as int) is Some
                &&& e.says(
                    ExcType::ValueError,
                    ymd_error(year as int, month as int, day as int)->0,
                )
            },
        },
{
    if year < 1 || year > 9999 {
        return Err(
            RunError::new_msg(
                ExcType::ValueError,
                message_with_int("year must be in 1..9999, not ", year),
            ),
        );
    }
    if month < 1 || month > 12 {
        return Err(
            RunError::new_msg(
                ExcType::ValueError,
                message_with_int("month must be in 1..12, not ", month),
            ),
        );
    }
    if day < 0 || !civil_date_exists(year, month as u32, day as u32) {
        return Err(day_out_of_range_error(day, month, year));
    }
    Ok(Date { year, month: month as u32, day: day as u32 })
}

/// The error for a day that the month does not have.
fn day_out_of_range_error(day: i32, month: i32, year: i32) -> (r: RunError)
    requires
        1 <= year <= 9999,
        1 <= month <= 12,
    ensures
        r.says(
            ExcType::ValueError,
            "day "@ + int_digits(day as int) + " must be in range 1.."@ + int_digits(
                days_in_month(year as int, month as int),
            ) + " for month "@ + int_digits(month as int) + " in year "@ + int_digits(year as int),
        ),
{
    let max_day: u32 = max_day_for_month(year, month);
    let mut out: Vec<char> = Vec::new();
    push_str(&mut out, "day ");
    push_int(&mut out, day as i64);
    push_str(&mut out, " must be in range 1..");
    push_int(&mut out, max_day as i64);
    push_str(&mut out, " for month ");
    push_int(&mut out, month as i64);
    push_str(&mut out, " in year ");
    push_int(&mut out, year as i64);
    assert(out@ =~= "day "@ + int_digits(day as int) + " must be in range 1.."@ + int_digits(
        days_in_month(year as int, month as int),
    ) + " for month "@ + int_digits(month as int) + " in year "@ + int_digits(year as int));
    RunError::new_msg(ExcType::ValueError, string_of(&out))
}

/// The last day of a month; 31 for what is no month of the calendar.
pub fn max_day_for_month(year: i32, month: i32) -> (r: u32)
    ensures
        r == (if -262_143 <= year <= 262_142 && 1 <= month <= 12 {
            days_in_month(year as int, month as int)
        } else {
            31
        }),
{
    if month < 0 {
        return 31;
    }
    let mut d: u32 = 31;
    while d >= 28
        invariant
            27 <= d <= 31,
            month >= 0,
            forall|k: int|
                d < k <= 31 ==> !is_civil_date(year as int, month as int, k),
        decreases d,
    {
        if civil_date_exists(year, month as u32, d) {
            proof {
                if d < 31 {
                    assert(!is_civil_date(year as int, month as int, d + 1));
                }
            }
            return d;
        }
        d = d - 1;
    }
    proof {
        assert(!is_civil_date(year as int, month as int, 28));
    }
    31
}

/// The first and last days of Python's calendar are within `chrono`'s years.
proof fn lemma_python_days()
    ensures
        forall|n: int| is_python_day(n) ==> #[trigger] is_calendar_day(n),
        ordinal(1, 1, 1) == 1,
        days_before_year(1) == 0,
        days_before_year(10000) == ordinal(9999, 12, 31),
{
    lemma_years_ascend(-262_143, 1);
    lemma_ordinal_in_year(-262_143, 1, 1);
    lemma_years_ascend(10000, 262_142);
    lemma_ordinal_in_year(262_142, 12, 31);
    crate::calendar::lemma_year_length(9999);
    crate::calendar::lemma_year_length(-262_143);
    lemma_years_ascend(-262_142, 1);
}

/// A date is one of Python's exactly when its day number is.
pub proof fn lemma_python_range(year: int, month: int, day: int)
    requires
        is_civil_date(year, month, day),
    ensures
        1 <= year <= 9999 <==> is_python_day(ordinal(year, month, day)),
{
    lemma_python_days();
    lemma_ordinal_in_year(year, month, day);
    if year < 1 {
        lemma_years_ascend(year + 1, 1);
    } else if year > 9999 {
        lemma_years_ascend(10000, year);
    } else {
        lemma_years_ascend(1, year);
        lemma_years_ascend(year + 1, 10000);
    }
}

/// Whether a result is the date of a day number, or the error for one outside
/// Python's years.
pub open spec fn date_of_day(days: int, r: RunResult<Date>) -> bool {
    match r {
        Ok(date) => is_python_day(days) && date.wf() && date.day_number() == days,
        Err(e) => !is_python_day(days) && e.says(ExcType::OverflowError, DATE_OUT_OF_RANGE@),
    }
}

/// Creates a date from a day number.
pub fn from_ordinal(days: i32) -> (r: RunResult<Date>)
    ensures
        date_of_day(days as int, r),
{
    proof {
        lemma_python_days();
    }
    match date_from_days(days) {
        None => Err(RunError::new(ExcType::OverflowError, DATE_OUT_OF_RANGE)),
        Some((year, month, day)) => {
            proof {
                lemma_python_range(year as int, month as int, day as int);
            }
            if year < 1 || year > 9999 {
                Err(RunError::new(ExcType::OverflowError, DATE_OUT_OF_RANGE))
            } else {
                Ok(Date { year, month, day })
            }
        },
    }
}

/// The day number of a date.
pub fn to_ordinal(date: Date) -> (r: i32)
    requires
        date.wf(),
    ensures
        r == date.day_number(),
        is_python_day(r as int),
{
    proof {
        lemma_python_range(date.year as int, date.month as int, date.day as int);
    }
    num_days_from_ce(date.year, date.month, date.day)
}

/// The civil components of a date.
pub fn to_ymd(date: Date) -> (r: (i32, u32, u32))
    ensures
        r == (date.year, date.month, date.day),
{
    (date.year, date.month, date.day)
}

/// Dates with the same day number are the same.
pub proof fn lemma_same_day(a: Date, b: Date)
    requires
        a.wf(),
        b.wf(),
        a.day_number() == b.day_number(),
    ensures
        a == b,
{
    lemma_ordinal_injective(
        a.year as int,
        a.month as int,
        a.day as int,
        b.year as int,
        b.month as int,
        b.day as int,
    );
}

/// The date of a date's day number is that date.
pub proof fn lemma_ordinal_round_trip(date: Date, r: RunResult<Date>)
    requires
        date.wf(),
        date_of_day(date.day_number(), r),
    ensures
        r == Ok::<Date, RunError>(date),
{
    lemma_python_range(date.year as int, date.month as int, date.day as int);
    lemma_same_day(date, r->Ok_0);
}

/// Later dates have larger day numbers.
pub proof fn lemma_dates_ordered(a: Date, b: Date)
    requires
        a.wf(),
        b.wf(),
    ensures
        date_before(a, b) <==> a.day_number() < b.day_number(),
{
    lemma_ordinal_in_year(a.year as int, a.month as int, a.day as int);
    lemma_ordinal_in_year(b.year as int, b.month as int, b.day as int);
    if a.year < b.year {
        lemma_years_ascend(a.year + 1, b.year as int);
    } else if a.year > b.year {
        lemma_years_ascend(b.year + 1, a.year as int);
    } else if a.month < b.month {
        crate::calendar::lemma_months_ascend(a.year as int, a.month as int, b.month as int);
    } else if a.month > b.month {
        crate::calendar::lemma_months_ascend(a.year as int, b.month as int, a.month as int);
    }
}

/// Whether `a` comes before `b`, field by field.
pub open spec fn date_before(a: Date, b: Date) -> bool {
    a.year < b.year || (a.year == b.year && (a.month < b.month || (a.month == b.month && a.day
        < b.day)))
}

/// The date that the fields of an ISO text denote, if they are a date.
pub open spec fn iso_date(fields: Option<(u16, u8, u8)>) -> Option<(int, int, int)> {
    match fields {
        Some((year, month, day)) => if ymd_error(year as int, month as int, day as int) is None {
            Some((year as int, month as int, day as int))
        } else {
            None
        },
        None => None,
    }
}

/// Whether an optional date has the given fields.
pub open spec fn same_date(r: Option<Date>, expected: Option<(int, int, int)>) -> bool {
    match (r, expected) {
        (Some(date), Some((year, month, day))) => date.wf() && date.year == year && date.month
            == month && date.day == day,
        (None, None) => true,
        _ => false,
    }
}

/// The date of fields that were read from an ISO text.
pub fn date_from_iso_fields(fields: Option<(u16, u8, u8)>) -> (r: Option<Date>)
    ensures
        same_date(r, iso_date(fields)),
{
    match fields {
        None => None,
        Some((year, month, day)) => match from_ymd(year as i32, month as i32, day as i32) {
            Ok(date) => Some(date),
            Err(_) => None,
        },
    }
}

/// A text of ASCII characters is encoded character by character.
pub proof fn lemma_ascii_bytes(text: Seq<char>)
    requires
        forall|i: int| 0 <= i < text.len() ==> '\0' <= #[trigger] text[i] <= '\u{7f}',
    ensures
        encode_utf8(text).len() == text.len(),
        forall|i: int| 0 <= i < text.len() ==> #[trigger] encode_utf8(text)[i] == text[i] as u8,
{
    assert(is_ascii_chars(text));
    is_ascii_chars_encode_utf8(text);
    assert forall|i: int| 0 <= i < text.len() implies #[trigger] encode_utf8(text)[i]
        == text[i] as u8 by {
        assert(text[i] as u8 == encode_utf8(text)[i]);
    }
}

/// Two digits as bytes.
pub proof fn lemma_pair(b: Seq<u8>, text: Seq<char>, at: int, n: nat)
    requires
        n < 100,
        0 <= at,
        at + 2 <= text.len(),
        b.len() == text.len(),
        b[at] == text[at] as u8,
        b[at + 1] == text[at + 1] as u8,
        text[at] == padded_digits(n, 2)[0],
        text[at + 1] == padded_digits(n, 2)[1],
    ensures
        is_pair(b, at),
        pair(b, at) == n,
{
    lemma_two_digits(n);
    lemma_digit_code((n / 10) as int);
    lemma_digit_code((n % 10) as int);
}

/// Two digits are ASCII.
pub proof fn lemma_two_ascii(n: nat)
    requires
        n < 100,
    ensures
        padded_digits(n, 2).len() == 2,
        is_ascii_chars(padded_digits(n, 2)),
{
    lemma_two_digits(n);
    lemma_digit_code((n / 10) as int);
    lemma_digit_code((n % 10) as int);
}

/// The characters of a date.
pub proof fn lemma_date_chars(year: nat, month: nat, day: nat)
    requires
        year < 10_000,
        month < 100,
        day < 100,
    ensures
        ({
            let text = iso_text(year, month, day);
            &&& text.len() == 10
            &&& is_ascii_chars(text)
            &&& text[0] == padded_digits(year / 100, 2)[0]
            &&& text[1] == padded_digits(year / 100, 2)[1]
            &&& text[2] == padded_digits(year % 100, 2)[0]
            &&& text[3] == padded_digits(year % 100, 2)[1]
            &&& text[4] == '-'
            &&& text[5] == padded_digits(month, 2)[0]
            &&& text[6] == padded_digits(month, 2)[1]
            &&& text[7] == '-'
            &&& text[8] == padded_digits(day, 2)[0]
            &&& text[9] == padded_digits(day, 2)[1]
        }),
{
    let c = padded_digits(year / 100, 2);
    let y = padded_digits(year % 100, 2);
    let m = padded_digits(month, 2);
    let d = padded_digits(day, 2);
    lemma_last_two_digits(year, 2);
    lemma_two_ascii(year / 100);
    lemma_two_ascii(year % 100);
    lemma_two_ascii(month);
    lemma_two_ascii(day);
    reveal_strlit("-");
    let text = iso_text(year, month, day);
    assert forall|i: int| 0 <= i < text.len() implies '\0' <= #[trigger] text[i] <= '\u{7f}' by {
        if i < 2 {
            assert(text[i] == c[i]);
        } else if i < 4 {
            assert(text[i] == y[i - 2]);
        } else if 5 <= i < 7 {
            assert(text[i] == m[i - 5]);
        } else if 8 <= i {
            assert(text[i] == d[i - 8]);
        }
    }
}

/// A date that is written `YYYY-MM-DD` is read back.
pub proof fn lemma_written_date(date: Date)
    requires
        date.wf(),
    ensures
        written_date(
            encode_utf8(iso_text(date.year as nat, date.month as nat, date.day as nat)),
        ) == Some((date.year as int, date.month as int, date.day as int)),
{
    let year = date.year as nat;
    let text = iso_text(year, date.month as nat, date.day as nat);
    lemma_date_chars(year, date.month as nat, date.day as nat);
    lemma_ascii_bytes(text);
    let b = encode_utf8(text);
    lemma_pair(b, text, 0, year / 100);
    lemma_pair(b, text, 2, year % 100);
    lemma_pair(b, text, 5, date.month as nat);
    lemma_pair(b, text, 8, date.day as nat);
    assert(b[4] == text[4] as u8 && b[7] == text[7] as u8);
    assert(year == year / 100 * 100 + year % 100);
}

/// Parses an ISO 8601 date; what a date is written as is read as that date.
pub fn parse_iso_date(s: &str) -> (r: Option<Date>)
    ensures
        same_date(r, iso_date(iso_date_fields(encode_utf8(s@)))),
        forall|date: Date|
            date.wf() && s@ == #[trigger] iso_text(
                date.year as nat,
                date.month as nat,
                date.day as nat,
            ) ==> r == Some(date),
{
    let fields = parse_iso_date_bytes(s.as_bytes());
    proof {
        assert forall|date: Date|
            date.wf() && s@ == #[trigger] iso_text(
                date.year as nat,
                date.month as nat,
                date.day as nat,
            ) implies fields == Some((date.year as u16, date.month as u8, date.day as u8))
            && ymd_error(date.year as int, date.month as int, date.day as int) is None by {
            lemma_written_date(date);
        }
    }
    date_from_iso_fields(fields)
}

/// Whether a result is the date so many days later, which there is exactly within
/// Python's years.
pub open spec fn date_later(date: Date, days: int, r: Option<Date>) -> bool {
    match r {
        Some(sum) => sum.wf() && sum.day_number() == date.day_number() + days,
        None => !is_python_day(date.day_number() + days),
    }
}

/// The date `days` later, if it is one of Python's.
pub fn plus_days(date: Date, days: i64) -> (r: Option<Date>)
    requires
        date.wf(),
    ensures
        date_later(date, days as int, r),
{
    let start: i32 = to_ordinal(date);
    proof {
        lemma_last_day();
    }
    let wide: i128 = start as i128 + days as i128;
    if wide < i32::MIN as i128 || wide > i32::MAX as i128 {
        return None;
    }
    match from_ordinal(wide as i32) {
        Ok(sum) => Some(sum),
        Err(_) => None,
    }
}

/// The last day of Python's calendar has a small number.
pub proof fn lemma_last_day()
    ensures
        ordinal(9999, 12, 31) == 3_652_059,
{
    reveal_with_fuel(crate::calendar::days_before_month, 13);
}

/// The days from `b` to `a`.
pub fn days_between(a: Date, b: Date) -> (r: i64)
    requires
        a.wf(),
        b.wf(),
    ensures
        r == a.day_number() - b.day_number(),
{
    to_ordinal(a) as i64 - to_ordinal(b) as i64
}

/// Adding a duration to a date and taking it off again gives the date back.
pub proof fn lemma_plus_days_inverse(date: Date, days: int, sum: Date, back: Option<Date>)
    requires
        date.wf(),
        date_later(date, days, Some(sum)),
        date_later(sum, -days, back),
    ensures
        back == Some(date),
{
    lemma_python_range(date.year as int, date.month as int, date.day as int);
    lemma_same_day(date, back->0);
}

/// The text `YYYY-MM-DD`.
pub open spec fn iso_text(year: nat, month: nat, day: nat) -> Seq<char> {
    padded_digits(year, 4) + "-"@ + padded_digits(month, 2) + "-"@ + padded_digits(day, 2)
}

/// Appends the text `YYYY-MM-DD`.
pub fn push_iso(out: &mut Vec<char>, year: u64, month: u64, day: u64)
    ensures
        final(out)@ == old(out)@ + iso_text(year as nat, month as nat, day as nat),
{
    push_padded(out, year, 4);
    push_str(out, "-");
    push_padded(out, month, 2);
    push_str(out, "-");
    push_padded(out, day, 2);
    assert(out@ =~= old(out)@ + iso_text(year as nat, month as nat, day as nat));
}

/// `date.isoformat()` and `str(date)`.
pub fn isoformat(date: Date) -> (r: String)
    requires
        date.wf(),
    ensures
        r@ == iso_text(date.year as nat, date.month as nat, date.day as nat),
{
    let mut out: Vec<char> = Vec::new();
    push_iso(&mut out, date.year as u64, date.month as u64, date.day as u64);
    assert(out@ =~= iso_text(date.year as nat, date.month as nat, date.day as nat));
    string_of(&out)
}

/// The text `datetime.date(year, month, day)`.
pub open spec fn date_repr(date: Date) -> Seq<char> {
    "datetime.date("@ + int_digits(date.year as int) + ", "@ + int_digits(date.month as int)
        + ", "@ + int_digits(date.day as int) + ")"@
}

/// `repr(date)`.
pub fn repr(date: Date) -> (r: String)
    ensures
        r@ == date_repr(date),
{
    let mut out: Vec<char> = Vec::new();
    push_str(&mut out, "datetime.date(");
    push_int(&mut out, date.year as i64);
    push_str(&mut out, ", ");
    push_int(&mut out, date.month as i64);
    push_str(&mut out, ", ");
    push_int(&mut out, date.day as i64);
    push_str(&mut out, ")");
    assert(out@ =~= date_repr(date));
    string_of(&out)
}

/// `date.weekday()`: Monday is 0.
pub fn weekday(date: Date) -> (r: i64)
    requires
        date.wf(),
    ensures
        r == (date.day_number() - 1) % 7,
{
    days_from_monday(date.year, date.month, date.day) as i64
}

/// `date.isoweekday()`: Monday is 1.
pub fn isoweekday(date: Date) -> (r: i64)
    requires
        date.wf(),
    ensures
        r == (date.day_number() - 1) % 7 + 1,
{
    days_from_monday(date.year, date.month, date.day) as i64 + 1
}

/// The result of `strftime`, or the `ValueError` when nothing could be written.
pub fn strftime_result(written: Option<String>) -> (r: RunResult<String>)
    ensures
        match (written, r) {
            (Some(text), Ok(out)) => out@ == text@,
            (None, Err(e)) => e.says(ExcType::ValueError, "Invalid format string"@),
            _ => false,
        },
{
    match written {
        Some(text) => Ok(text),
        None => Err(invalid_strftime_error()),
    }
}

/// The error for a directive that cannot be rendered.
pub fn invalid_strftime_error() -> (r: RunError)
    ensures
        r.says(ExcType::ValueError, "Invalid format string"@),
{
    RunError::new(ExcType::ValueError, "Invalid format string")
}

/// `date.strftime(format)`.
pub fn format_date_strftime(date: Date, format: &str) -> (r: RunResult<String>)
    requires
        date.wf(),
    ensures
        match (date_format(date.year as int, date.month as int, date.day as int, format@), r) {
            (Some(text), Ok(out)) => out@ == text,
            (None, Err(e)) => e.says(ExcType::ValueError, "Invalid format string"@),
            _ => false,
        },
{
    strftime_result(strftime_date(date.year, date.month, date.day, format))
}

/// `date.replace(...)`: the given fields, the others kept.
pub fn replace(date: Date, year: Option<i32>, month: Option<i32>, day: Option<i32>) -> (r: RunResult<
    Date,
>)
    requires
        date.wf(),
    ensures
        ({
            let y = if year is Some { year->0 as int } else { date.year as int };
            let m = if month is Some { month->0 as int } else { date.month as int };
            let d = if day is Some { day->0 as int } else { date.day as int };
            match r {
                Ok(new) => ymd_error(y, m, d) is None && new.wf() && new.year == y && new.month
                    == m && new.day == d,
                Err(e) => ymd_error(y, m, d) is Some && e.says(
                    ExcType::ValueError,
                    ymd_error(y, m, d)->0,
                ),
            }
        }),
{
    let y: i32 = match year {
        Some(y) => y,
        None => date.year,
    };
    let m: i32 = match month {
        Some(m) => m,
        None => date.month as i32,
    };
    let d: i32 = match day {
        Some(d) => d,
        None => date.day as i32,
    };
    from_ymd(y, m, d)
}

/// The days that `date + delta` moves by; its seconds do not matter.
pub fn delta_days(delta: &TimeDelta) -> (r: i64)
    ensures
        r == delta.days,
{
    delta.days as i64
}

} // verus!
