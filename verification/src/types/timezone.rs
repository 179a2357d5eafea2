//! Python `datetime.timezone` for fixed offsets.

use vstd::prelude::*;

use crate::decimal::{int_digits, padded_digits, push_int, push_padded};
use crate::exception::{ExcType, RunError, RunResult};
use crate::text::{push_str, string_of};
use crate::types::timedelta::{
    delta_repr, format_repr, from_total_microseconds, MICROSECONDS_PER_SECOND, SECONDS_PER_HOUR,
    SECONDS_PER_MINUTE,
};

verus! {

/// Smallest offset of a timezone in seconds.
pub const MIN_TIMEZONE_OFFSET_SECONDS: i32 = -86_399;

/// Largest offset of a timezone in seconds.
pub const MAX_TIMEZONE_OFFSET_SECONDS: i32 = 86_399;

/// A timezone with a fixed offset from UTC and an optional name.
#[derive(Debug)]
pub struct TimeZone {
    pub offset_seconds: i32,
    pub name: Option<String>,
}

/// Whether an offset is shorter than a day.
pub open spec fn offset_in_range(seconds: int) -> bool {
    MIN_TIMEZONE_OFFSET_SECONDS <= seconds <= MAX_TIMEZONE_OFFSET_SECONDS
}

/// The text of an optional string.
pub open spec fn name_text(name: Option<String>) -> Option<Seq<char>> {
    match name {
        Some(text) => Some(text@),
        None => None,
    }
}

/// The message for an offset of a day or more.
pub open spec fn offset_range_error(shown: Seq<char>) -> Seq<char> {
    "offset must be a timedelta strictly between -timedelta(hours=24) and timedelta(hours=24), not "@
        + shown
}

impl TimeZone {
    /// Creates a timezone; its offset must be shorter than a day.
    pub fn new(offset_seconds: i32, name: Option<String>) -> (r: RunResult<TimeZone>)
        ensures
            match r {
                Ok(tz) => offset_in_range(offset_seconds as int) && tz.offset_seconds
                    == offset_seconds && tz.name == name,
                Err(e) => !offset_in_range(offset_seconds as int) && e.says(
                    ExcType::ValueError,
                    offset_range_error(
                        "datetime.timedelta(seconds="@ + int_digits(offset_seconds as int) + ")"@,
                    ),
                ),
            },
    {
        if offset_seconds < MIN_TIMEZONE_OFFSET_SECONDS || offset_seconds
            > MAX_TIMEZONE_OFFSET_SECONDS {
            let mut shown: Vec<char> = Vec::new();
            push_str(&mut shown, "datetime.timedelta(seconds=");
            push_int(&mut shown, offset_seconds as i64);
            push_str(&mut shown, ")");
            assert(shown@ =~= "datetime.timedelta(seconds="@ + int_digits(offset_seconds as int)
                + ")"@);
            let text = string_of(&shown);
            return Err(range_error(text.as_str()));
        }
        Ok(TimeZone { offset_seconds, name })
    }

    /// The UTC timezone.
    pub fn utc() -> (r: TimeZone)
        ensures
            r.offset_seconds == 0,
            r.name is None,
    {
        TimeZone { offset_seconds: 0, name: None }
    }

    /// A copy of this timezone.
    pub fn duplicate(&self) -> (r: TimeZone)
        ensures
            r == *self,
    {
        TimeZone { offset_seconds: self.offset_seconds, name: copy_name(&self.name) }
    }

    /// The offset as `+HH:MM`, with `:SS` when there are seconds.
    pub fn format_utc_offset(&self) -> (r: String)
        ensures
            r@ == offset_hms(self.offset_seconds as int),
    {
        format_offset_hms(self.offset_seconds)
    }

    /// `repr(tz)`.
    pub fn repr(&self, quoted_name: &str) -> (r: String)
        requires
            offset_in_range(self.offset_seconds as int),
        ensures
            r@ == timezone_repr(
                self.offset_seconds as int,
                if self.name is Some {
                    Some(quoted_name@)
                } else {
                    None
                },
            ),
    {
        if self.offset_seconds == 0 && self.name.is_none() {
            return "datetime.timezone.utc".to_owned();
        }
        let mut out: Vec<char> = Vec::new();
        push_str(&mut out, "datetime.timezone(");
        push_str(&mut out, format_offset_timedelta_repr(self.offset_seconds).as_str());
        if self.name.is_some() {
            push_str(&mut out, ", ");
            push_str(&mut out, quoted_name);
        }
        push_str(&mut out, ")");
        assert(out@ =~= timezone_repr(
            self.offset_seconds as int,
            if self.name is Some {
                Some(quoted_name@)
            } else {
                None
            },
        ));
        string_of(&out)
    }

    /// `str(tz)`: the name, or `UTC` with the offset.
    pub fn py_str(&self) -> (r: String)
        ensures
            r@ == timezone_str(self.offset_seconds as int, name_text(self.name)),
    {
        match &self.name {
            Some(name) => name.clone(),
            None => {
                if self.offset_seconds == 0 {
                    return "UTC".to_owned();
                }
                let mut out: Vec<char> = Vec::new();
                push_str(&mut out, "UTC");
                push_str(&mut out, self.format_utc_offset().as_str());
                assert(out@ =~= "UTC"@ + offset_hms(self.offset_seconds as int));
                string_of(&out)
            },
        }
    }

    /// Timezones are equal when their offsets are; names do not count.
    pub fn same_offset(&self, other: &TimeZone) -> (r: bool)
        ensures
            r == (self.offset_seconds == other.offset_seconds),
    {
        self.offset_seconds == other.offset_seconds
    }
}

/// A copy of an optional name.
pub fn copy_name(name: &Option<String>) -> (r: Option<String>)
    ensures
        r == *name,
{
    match name {
        Some(text) => Some(text.clone()),
        None => None,
    }
}

/// The error for an offset of a day or more.
pub fn range_error(shown: &str) -> (r: RunError)
    ensures
        r.says(ExcType::ValueError, offset_range_error(shown@)),
{
    let mut out: Vec<char> = Vec::new();
    push_str(
        &mut out,
        "offset must be a timedelta strictly between -timedelta(hours=24) and timedelta(hours=24), not ",
    );
    push_str(&mut out, shown);
    assert(out@ =~= offset_range_error(shown@));
    RunError::new_msg(ExcType::ValueError, string_of(&out))
}

/// The text of an offset: sign, hours, minutes, and seconds when there are any.
pub open spec fn offset_hms(seconds: int) -> Seq<char> {
    let size = (if seconds < 0 {
        -seconds
    } else {
        seconds
    }) as nat;
    let sign = if seconds >= 0 {
        "+"@
    } else {
        "-"@
    };
    let hm = sign + padded_digits(size / 3_600, 2) + ":"@ + padded_digits(size % 3_600 / 60, 2);
    if size % 60 == 0 {
        hm
    } else {
        hm + ":"@ + padded_digits(size % 60, 2)
    }
}

/// Formats an offset as `+HH:MM` or `+HH:MM:SS`.
pub fn format_offset_hms(offset_seconds: i32) -> (r: String)
    ensures
        r@ == offset_hms(offset_seconds as int),
{
    let size: i64 = if offset_seconds < 0 {
        -(offset_seconds as i64)
    } else {
        offset_seconds as i64
    };
    let hours: i64 = size / SECONDS_PER_HOUR;
    let minutes: i64 = (size % SECONDS_PER_HOUR) / SECONDS_PER_MINUTE;
    let seconds: i64 = size % SECONDS_PER_MINUTE;
    let mut out: Vec<char> = Vec::new();
    if offset_seconds >= 0 {
        push_str(&mut out, "+");
    } else {
        push_str(&mut out, "-");
    }
    push_padded(&mut out, hours as u64, 2);
    push_str(&mut out, ":");
    push_padded(&mut out, minutes as u64, 2);
    if seconds != 0 {
        push_str(&mut out, ":");
        push_padded(&mut out, seconds as u64, 2);
    }
    assert(out@ =~= offset_hms(offset_seconds as int));
    string_of(&out)
}

/// The duration parts of an offset.
pub open spec fn offset_delta_repr(seconds: int) -> Seq<char> {
    delta_repr(seconds / 86_400, seconds % 86_400, 0)
}

/// A duration of whole seconds has no microseconds.
proof fn lemma_whole_seconds(days: int, seconds: int, microseconds: int, total: int)
    requires
        days * 86_400_000_000 + seconds * 1_000_000 + microseconds == total * 1_000_000,
        0 <= microseconds < 1_000_000,
        0 <= seconds < 86_400,
    ensures
        microseconds == 0,
        days == total / 86_400,
        seconds == total % 86_400,
{
    let k = total - days * 86_400 - seconds;
    assert(microseconds == 1_000_000 * k);
    assert(k == 0);
}

/// The `datetime.timedelta(...)` form of an offset.
pub fn format_offset_timedelta_repr(offset_seconds: i32) -> (r: String)
    ensures
        r@ == offset_delta_repr(offset_seconds as int),
{
    let total: i128 = offset_seconds as i128 * MICROSECONDS_PER_SECOND;
    match from_total_microseconds(total) {
        Ok(delta) => {
            proof {
                lemma_whole_seconds(
                    delta.days as int,
                    delta.seconds as int,
                    delta.microseconds as int,
                    offset_seconds as int,
                );
            }
            format_repr(&delta)
        },
        Err(_) => {
            assert(false);
            String::new()
        },
    }
}

/// The `repr` of a timezone, given its quoted name.
pub open spec fn timezone_repr(offset: int, quoted_name: Option<Seq<char>>) -> Seq<char> {
    match quoted_name {
        None => if offset == 0 {
            "datetime.timezone.utc"@
        } else {
            "datetime.timezone("@ + offset_delta_repr(offset) + ")"@
        },
        Some(name) => "datetime.timezone("@ + offset_delta_repr(offset) + ", "@ + name + ")"@,
    }
}

/// The `str` of a timezone.
pub open spec fn timezone_str(offset: int, name: Option<Seq<char>>) -> Seq<char> {
    match name {
        Some(text) => text,
        None => if offset == 0 {
            "UTC"@
        } else {
            "UTC"@ + offset_hms(offset)
        },
    }
}

} // verus!
