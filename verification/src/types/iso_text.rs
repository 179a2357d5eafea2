//! What `isoformat` writes of a datetime is what `fromisoformat` reads.

use vstd::prelude::*;
use vstd::utf8::{encode_utf8, is_ascii_chars};

use crate::calendar::{written_clock, written_moment, written_offset, Naive};
use crate::decimal::{lemma_last_two_digits, padded_digits};
use crate::types::date::{
    iso_text, lemma_ascii_bytes, lemma_date_chars, lemma_pair, lemma_two_ascii, lemma_written_date,
    Date,
};
use crate::types::datetime::{moment_text, Civil, DateTime};
use crate::types::timezone::{offset_hms, offset_in_range};

verus! {

/// Whether a datetime is written in full: to the microsecond, outside a leap
/// second, with an offset of whole minutes.
pub open spec fn written_in_full(dt: DateTime) -> bool {
    &&& !dt.naive.in_leap_second()
    &&& dt.naive.nano % 1_000 == 0
    &&& dt.offset() % 60 == 0
}

/// The civil fields of a datetime.
pub open spec fn civil_of(dt: DateTime) -> Civil {
    Civil {
        year: dt.naive.year,
        month: dt.naive.month as i32,
        day: dt.naive.day as i32,
        hour: dt.naive.hour as i32,
        minute: dt.naive.minute as i32,
        second: dt.naive.second as i32,
        microsecond: (dt.naive.nano / 1_000) as i32,
    }
}

/// The text of a moment up to its second.
spec fn clock_text(n: Naive, sep: char) -> Seq<char> {
    iso_text(n.year as nat, n.month as nat, n.day as nat).push(sep) + padded_digits(
        n.hour as nat,
        2,
    ) + ":"@ + padded_digits(n.minute as nat, 2) + ":"@ + padded_digits(n.second as nat, 2)
}

/// The text of the fraction of a second.
spec fn fraction_text(n: Naive) -> Seq<char> {
    if n.nano / 1_000 != 0 {
        "."@ + padded_digits((n.nano / 1_000) as nat, 6)
    } else {
        Seq::empty()
    }
}

/// The text of the offset.
spec fn offset_text(dt: DateTime) -> Seq<char> {
    match dt.offset_seconds {
        Some(offset) => offset_hms(offset as int),
        None => Seq::empty(),
    }
}

/// The characters of a moment up to its second.
proof fn lemma_clock_chars(n: Naive, sep: char)
    requires
        0 <= n.year < 10_000,
        n.month < 100,
        n.day < 100,
        n.hour < 100,
        n.minute < 100,
        n.second < 100,
        '\0' <= sep <= '\u{7f}',
    ensures
        ({
            let text = clock_text(n, sep);
            &&& text.len() == 19
            &&& is_ascii_chars(text)
            &&& text.subrange(0, 10) == iso_text(n.year as nat, n.month as nat, n.day as nat)
            &&& text[10] == sep
            &&& text[11] == padded_digits(n.hour as nat, 2)[0]
            &&& text[12] == padded_digits(n.hour as nat, 2)[1]
            &&& text[13] == ':'
            &&& text[14] == padded_digits(n.minute as nat, 2)[0]
            &&& text[15] == padded_digits(n.minute as nat, 2)[1]
            &&& text[16] == ':'
            &&& text[17] == padded_digits(n.second as nat, 2)[0]
            &&& text[18] == padded_digits(n.second as nat, 2)[1]
        }),
{
    let date = iso_text(n.year as nat, n.month as nat, n.day as nat);
    let h = padded_digits(n.hour as nat, 2);
    let m = padded_digits(n.minute as nat, 2);
    let s = padded_digits(n.second as nat, 2);
    lemma_date_chars(n.year as nat, n.month as nat, n.day as nat);
    lemma_two_ascii(n.hour as nat);
    lemma_two_ascii(n.minute as nat);
    lemma_two_ascii(n.second as nat);
    reveal_strlit(":");
    let text = clock_text(n, sep);
    assert(text.subrange(0, 10) =~= date);
    assert forall|i: int| 0 <= i < text.len() implies '\0' <= #[trigger] text[i] <= '\u{7f}' by {
        if i < 10 {
            assert(text[i] == date[i]);
        } else if 11 <= i < 13 {
            assert(text[i] == h[i - 11]);
        } else if 14 <= i < 16 {
            assert(text[i] == m[i - 14]);
        } else if 17 <= i {
            assert(text[i] == s[i - 17]);
        }
    }
}

/// Six digits are three pairs.
proof fn lemma_six_digits(n: nat)
    ensures
        padded_digits(n, 6) == padded_digits(n / 10_000, 2) + padded_digits(n / 100 % 100, 2)
            + padded_digits(n % 100, 2),
{
    lemma_last_two_digits(n, 4);
    lemma_last_two_digits(n / 100, 2);
    assert(n / 100 / 100 == n / 10_000);
}

/// The characters of a fraction.
proof fn lemma_fraction_chars(n: Naive)
    requires
        0 < n.nano / 1_000 < 1_000_000,
    ensures
        ({
            let text = fraction_text(n);
            let micros = (n.nano / 1_000) as nat;
            &&& text.len() == 7
            &&& is_ascii_chars(text)
            &&& text[0] == '.'
            &&& text[1] == padded_digits(micros / 10_000, 2)[0]
            &&& text[2] == padded_digits(micros / 10_000, 2)[1]
            &&& text[3] == padded_digits(micros / 100 % 100, 2)[0]
            &&& text[4] == padded_digits(micros / 100 % 100, 2)[1]
            &&& text[5] == padded_digits(micros % 100, 2)[0]
            &&& text[6] == padded_digits(micros % 100, 2)[1]
        }),
{
    let micros = (n.nano / 1_000) as nat;
    let a = padded_digits(micros / 10_000, 2);
    let b = padded_digits(micros / 100 % 100, 2);
    let c = padded_digits(micros % 100, 2);
    lemma_six_digits(micros);
    lemma_two_ascii(micros / 10_000);
    lemma_two_ascii(micros / 100 % 100);
    lemma_two_ascii(micros % 100);
    reveal_strlit(".");
    let text = fraction_text(n);
    assert forall|i: int| 0 <= i < text.len() implies '\0' <= #[trigger] text[i] <= '\u{7f}' by {
        if 1 <= i < 3 {
            assert(text[i] == a[i - 1]);
        } else if 3 <= i < 5 {
            assert(text[i] == b[i - 3]);
        } else if 5 <= i {
            assert(text[i] == c[i - 5]);
        }
    }
}

/// The characters of an offset of whole minutes.
proof fn lemma_offset_chars(seconds: int)
    requires
        offset_in_range(seconds),
        seconds % 60 == 0,
    ensures
        ({
            let text = offset_hms(seconds);
            let size = (if seconds < 0 {
                -seconds
            } else {
                seconds
            }) as nat;
            &&& text.len() == 6
            &&& is_ascii_chars(text)
            &&& text[0] == if seconds < 0 {
                '-'
            } else {
                '+'
            }
            &&& text[1] == padded_digits(size / 3_600, 2)[0]
            &&& text[2] == padded_digits(size / 3_600, 2)[1]
            &&& text[3] == ':'
            &&& text[4] == padded_digits(size % 3_600 / 60, 2)[0]
            &&& text[5] == padded_digits(size % 3_600 / 60, 2)[1]
        }),
{
    let size = (if seconds < 0 {
        -seconds
    } else {
        seconds
    }) as nat;
    let h = padded_digits(size / 3_600, 2);
    let m = padded_digits(size % 3_600 / 60, 2);
    lemma_two_ascii(size / 3_600);
    lemma_two_ascii(size % 3_600 / 60);
    reveal_strlit("+");
    reveal_strlit("-");
    reveal_strlit(":");
    assert(size % 60 == 0);
    let text = offset_hms(seconds);
    assert forall|i: int| 0 <= i < text.len() implies '\0' <= #[trigger] text[i] <= '\u{7f}' by {
        if 1 <= i < 3 {
            assert(text[i] == h[i - 1]);
        } else if 4 <= i {
            assert(text[i] == m[i - 4]);
        }
    }
}

/// The offset at the end of a text is read back.
proof fn lemma_offset_read(b: Seq<u8>, text: Seq<char>, at: int, seconds: int)
    requires
        offset_in_range(seconds),
        seconds % 60 == 0,
        0 <= at,
        text.len() == at + 6,
        b.len() == text.len(),
        forall|i: int| 0 <= i < text.len() ==> #[trigger] b[i] == text[i] as u8,
        text.subrange(at, at + 6) == offset_hms(seconds),
    ensures
        written_offset(b, at) == Some(Some(seconds)),
{
    let part = offset_hms(seconds);
    let size = (if seconds < 0 {
        -seconds
    } else {
        seconds
    }) as nat;
    lemma_offset_chars(seconds);
    assert forall|i: int| 0 <= i < 6 implies #[trigger] part[i] == text[at + i] by {
        assert(text.subrange(at, at + 6)[i] == text[at + i]);
    }
    assert(part[0] == text[at] && part[1] == text[at + 1] && part[2] == text[at + 2] && part[3]
        == text[at + 3] && part[4] == text[at + 4] && part[5] == text[at + 5]);
    lemma_pair(b, text, at + 1, size / 3_600);
    lemma_pair(b, text, at + 4, size % 3_600 / 60);
    assert(b[at] == text[at] as u8 && b[at + 3] == text[at + 3] as u8);
    assert(size == size / 3_600 * 3_600 + size % 3_600 / 60 * 60);
}

/// The fields that a datetime is written with are read back.
pub proof fn lemma_written_moment(dt: DateTime, sep: char)
    requires
        dt.wf(),
        written_in_full(dt),
        sep == 'T' || sep == ' ',
    ensures
        written_moment(encode_utf8(moment_text(dt, sep))) == Some(
            (
                dt.naive.year as int,
                dt.naive.month as int,
                dt.naive.day as int,
                dt.naive.hour as int,
                dt.naive.minute as int,
                dt.naive.second as int,
                (dt.naive.nano / 1_000) as int,
                match dt.offset_seconds {
                    Some(offset) => Some(offset as int),
                    None => None,
                },
            ),
        ),
{
    let n = dt.naive;
    let clock = clock_text(n, sep);
    let fraction = fraction_text(n);
    let offset = offset_text(dt);
    let text = moment_text(dt, sep);
    assert(text =~= clock + fraction + offset);
    lemma_clock_chars(n, sep);
    if n.nano / 1_000 != 0 {
        lemma_fraction_chars(n);
    }
    match dt.offset_seconds {
        Some(seconds) => {
            lemma_offset_chars(seconds as int);
        },
        None => {},
    }
    assert forall|i: int| 0 <= i < text.len() implies '\0' <= #[trigger] text[i] <= '\u{7f}' by {
        if i < 19 {
            assert(text[i] == clock[i]);
        } else if i < 19 + fraction.len() {
            assert(text[i] == fraction[i - 19]);
        } else {
            assert(text[i] == offset[i - 19 - fraction.len()]);
        }
    }
    lemma_ascii_bytes(text);
    let b = encode_utf8(text);
    let date = Date { year: n.year, month: n.month, day: n.day };
    let date_text = iso_text(n.year as nat, n.month as nat, n.day as nat);
    assert(b.subrange(0, 10) == encode_utf8(date_text)) by {
        lemma_date_chars(n.year as nat, n.month as nat, n.day as nat);
        lemma_ascii_bytes(date_text);
        assert forall|i: int| 0 <= i < 10 implies b.subrange(0, 10)[i] == encode_utf8(date_text)[i] by {
            assert(clock.subrange(0, 10)[i] == clock[i]);
            assert(text[i] == clock[i]);
            assert(b[i] == text[i] as u8);
        }
        assert(b.subrange(0, 10) =~= encode_utf8(date_text));
    }
    lemma_written_date(date);
    assert forall|i: int| 10 <= i < 19 implies #[trigger] text[i] == clock[i] by {}
    lemma_pair(b, text, 11, n.hour as nat);
    lemma_pair(b, text, 14, n.minute as nat);
    lemma_pair(b, text, 17, n.second as nat);
    assert(b[10] == text[10] as u8 && b[13] == text[13] as u8 && b[16] == text[16] as u8);
    assert(written_clock(b) == Some((n.hour as int, n.minute as int, n.second as int)));
    let end: int = 19int + fraction.len();
    if n.nano / 1_000 != 0 {
        let micros = (n.nano / 1_000) as nat;
        assert forall|i: int| 19 <= i < 26 implies #[trigger] text[i] == fraction[i - 19] by {}
        lemma_pair(b, text, 20, micros / 10_000);
        lemma_pair(b, text, 22, micros / 100 % 100);
        lemma_pair(b, text, 24, micros % 100);
        assert(b[19] == text[19] as u8);
        assert(micros == micros / 10_000 * 10_000 + micros / 100 % 100 * 100 + micros % 100);
    } else {
        if dt.offset_seconds is Some {
            assert(text[19] == offset[0]);
            assert(b[19] == text[19] as u8);
        }
    }
    match dt.offset_seconds {
        Some(seconds) => {
            assert(text.subrange(end, end + 6) =~= offset);
            lemma_offset_read(b, text, end, seconds as int);
        },
        None => {},
    }
}

} // verus!
