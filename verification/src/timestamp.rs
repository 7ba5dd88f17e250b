//! Reading the timestamp that a line writes, in whichever of the known forms
//! it has. Dates and times of day are read by the `chrono` crate.

use crate::instant::Instant;
use crate::text::{byte_len, bytes_of, is_span, slice_of, span_ok, substr, trim, trimmed};
use chrono::Datelike;
use vstd::prelude::*;

verus! {

/// The instant that `NaiveDateTime::parse_from_str` reads in `text` under
/// `format`.
pub uninterp spec fn naive_reading(text: Seq<char>, format: Seq<char>) -> Option<Instant>;

/// The instant, in UTC, that `DateTime::parse_from_str` reads in `text` under
/// `format`.
pub uninterp spec fn zoned_reading(text: Seq<char>, format: Seq<char>) -> Option<Instant>;

/// The instant of a date and a time of day, where `chrono` takes them for
/// valid.
pub uninterp spec fn civil_instant(
    year: i32,
    month: u32,
    day: u32,
    hour: u32,
    minute: u32,
    second: u32,
    micro: u32,
) -> Option<Instant>;

/// `NaiveDateTime::parse_from_str`, and the instant as seconds
/// (`DateTime::timestamp`) and nanoseconds (`timestamp_subsec_nanos`). The
/// seconds are a count of days that fits in 32 bits, in seconds, plus the
/// seconds of a day.
#[verifier::external_body]
pub(crate) fn read_naive(text: &str, format: &str) -> (r: Option<Instant>)
    ensures
        r == naive_reading(text@, format@),
        r matches Some(t) ==> t.is_calendar(),
{
    chrono::NaiveDateTime::parse_from_str(text, format).ok().map(
        |d| Instant { secs: d.and_utc().timestamp(), nanos: d.and_utc().timestamp_subsec_nanos() },
    )
}

/// `DateTime::parse_from_str`, and the instant in UTC as seconds and
/// nanoseconds.
#[verifier::external_body]
pub(crate) fn read_zoned(text: &str, format: &str) -> (r: Option<Instant>)
    ensures
        r == zoned_reading(text@, format@),
        r matches Some(t) ==> t.is_calendar(),
{
    chrono::DateTime::parse_from_str(text, format).ok().map(
        |d| Instant { secs: d.timestamp(), nanos: d.timestamp_subsec_nanos() },
    )
}

/// `NaiveDate::from_ymd_opt` and `NaiveDate::and_hms_micro_opt`: the instant
/// of a date and a time of day, `None` where either is invalid.
#[verifier::external_body]
pub(crate) fn civil(
    year: i32,
    month: u32,
    day: u32,
    hour: u32,
    minute: u32,
    second: u32,
    micro: u32,
) -> (r: Option<Instant>)
    ensures
        r == civil_instant(year, month, day, hour, minute, second, micro),
        r matches Some(t) ==> t.is_calendar(),
{
    chrono::NaiveDate::from_ymd_opt(year, month, day).and_then(
        |d| d.and_hms_micro_opt(hour, minute, second, micro),
    ).map(
        |d| Instant { secs: d.and_utc().timestamp(), nanos: d.and_utc().timestamp_subsec_nanos() },
    )
}

/// `Local::now` and `Datelike::year`: the year of the local clock. Nothing is
/// known of it.
#[verifier::external_body]
pub(crate) fn current_year() -> i32 {
    chrono::Local::now().year()
}

/// The number of date-time formats that are tried.
pub const FORMAT_COUNT: usize = 12;

/// The date-time formats, in the order in which they are tried.
pub open spec fn format_of(index: int) -> Seq<char> {
    if index == 0 {
        "%Y-%m-%dT%H:%M:%S%.f%:z"@
    } else if index == 1 {
        "%Y-%m-%dT%H:%M:%S%.f%#z"@
    } else if index == 2 {
        "%Y-%m-%dT%H:%M:%S%:z"@
    } else if index == 3 {
        "%Y-%m-%dT%H:%M:%S%#z"@
    } else if index == 4 {
        "%Y-%m-%dT%H:%M:%SZ"@
    } else if index == 5 {
        "%Y-%m-%dT%H:%M:%S%.fZ"@
    } else if index == 6 {
        "%Y-%m-%dT%H:%M:%S%.f"@
    } else if index == 7 {
        "%Y-%m-%dT%H:%M:%S"@
    } else if index == 8 {
        "%Y-%m-%d %H:%M:%S%.f"@
    } else if index == 9 {
        "%Y-%m-%d %H:%M:%S,%f"@
    } else if index == 10 {
        "%Y-%m-%d %H:%M:%S"@
    } else {
        "%d/%b/%Y:%H:%M:%S %z"@
    }
}

/// Whether a format writes an offset from UTC.
pub open spec fn is_zoned(index: int) -> bool {
    0 <= index <= 3 || index == 11
}

/// The date-time format at `index`.
pub fn format_text(index: usize) -> (r: &'static str)
    requires
        index < FORMAT_COUNT,
    ensures
        r@ == format_of(index as int),
{
    if index == 0 {
        "%Y-%m-%dT%H:%M:%S%.f%:z"
    } else if index == 1 {
        "%Y-%m-%dT%H:%M:%S%.f%#z"
    } else if index == 2 {
        "%Y-%m-%dT%H:%M:%S%:z"
    } else if index == 3 {
        "%Y-%m-%dT%H:%M:%S%#z"
    } else if index == 4 {
        "%Y-%m-%dT%H:%M:%SZ"
    } else if index == 5 {
        "%Y-%m-%dT%H:%M:%S%.fZ"
    } else if index == 6 {
        "%Y-%m-%dT%H:%M:%S%.f"
    } else if index == 7 {
        "%Y-%m-%dT%H:%M:%S"
    } else if index == 8 {
        "%Y-%m-%d %H:%M:%S%.f"
    } else if index == 9 {
        "%Y-%m-%d %H:%M:%S,%f"
    } else if index == 10 {
        "%Y-%m-%d %H:%M:%S"
    } else {
        "%d/%b/%Y:%H:%M:%S %z"
    }
}

/// What the format at `index` reads in the whole of `text`.
pub open spec fn whole_reading(text: Seq<char>, index: int) -> Option<Instant> {
    if is_zoned(index) {
        zoned_reading(text, format_of(index))
    } else {
        naive_reading(text, format_of(index))
    }
}

/// The shortest head of a text that is tried under a format, in bytes.
pub open spec fn shortest_head(index: int) -> int {
    if is_zoned(index) {
        20
    } else {
        19
    }
}

/// The longest head of a text that is tried under a format, in bytes.
pub open spec fn longest_head(index: int) -> int {
    if is_zoned(index) {
        40
    } else {
        35
    }
}

/// What the format at `index` reads in the first `end` bytes of `text`;
/// nothing where that cuts a character.
pub open spec fn head_reading(text: Seq<char>, index: int, end: int) -> Option<Instant> {
    if is_span(text, 0, end) {
        whole_reading(slice_of(text, 0, end), index)
    } else {
        None
    }
}

/// What the format reads in the longest head of `text` of `low` to `high`
/// bytes in which it reads anything.
pub open spec fn longest_head_reading(text: Seq<char>, index: int, low: int, high: int) -> Option<
    Instant,
>
    decreases high - low + 1,
{
    if high < low {
        None
    } else {
        match head_reading(text, index, high) {
            Some(t) => Some(t),
            None => longest_head_reading(text, index, low, high - 1),
        }
    }
}

/// What the format at `index` reads in `text`: the whole text, else the
/// longest head of it within the tried lengths, so that what follows the
/// timestamp does no harm.
pub open spec fn format_reading(text: Seq<char>, index: int) -> Option<Instant> {
    match whole_reading(text, index) {
        Some(t) => Some(t),
        None => {
            let len = bytes_of(text).len() as int;
            let high = if len < longest_head(index) {
                len
            } else {
                longest_head(index)
            };
            longest_head_reading(text, index, shortest_head(index), high)
        },
    }
}

/// Reads `text` under the format at `index`.
pub fn read_whole(text: &str, index: usize) -> (r: Option<Instant>)
    requires
        index < FORMAT_COUNT,
    ensures
        r == whole_reading(text@, index as int),
        r matches Some(t) ==> t.is_calendar(),
{
    if index <= 3 || index == 11 {
        read_zoned(text, format_text(index))
    } else {
        read_naive(text, format_text(index))
    }
}

/// Reads `text` under the format at `index`: the whole of it, else its
/// longest head in which the format reads a timestamp.
pub fn try_parse_with_format(text: &str, index: usize) -> (r: Option<Instant>)
    requires
        index < FORMAT_COUNT,
    ensures
        r == format_reading(text@, index as int),
        r matches Some(t) ==> t.is_calendar(),
{
    match read_whole(text, index) {
        Some(t) => {
            return Some(t);
        },
        None => {},
    }
    let zoned = index <= 3 || index == 11;
    let low: usize = if zoned {
        20
    } else {
        19
    };
    let longest: usize = if zoned {
        40
    } else {
        35
    };
    let len = byte_len(text);
    let high: usize = if len < longest {
        len
    } else {
        longest
    };
    let mut end: usize = high;
    while end >= low
        invariant
            index < FORMAT_COUNT,
            low == shortest_head(index as int),
            low >= 19,
            end <= high,
            whole_reading(text@, index as int) is None,
            high as int == if bytes_of(text@).len() < longest_head(index as int) {
                bytes_of(text@).len() as int
            } else {
                longest_head(index as int)
            },
            longest_head_reading(text@, index as int, low as int, high as int)
                == longest_head_reading(text@, index as int, low as int, end as int),
        decreases end,
    {
        if span_ok(text, 0, end) {
            match read_whole(substr(text, 0, end), index) {
                Some(t) => {
                    return Some(t);
                },
                None => {},
            }
        }
        end -= 1;
    }
    None
}

/// Whether a byte is one of the digits `0` to `9`.
pub open spec fn is_digit_byte(b: u8) -> bool {
    48 <= b <= 57
}

/// Whether a byte is white space of ASCII.
pub open spec fn is_blank(b: u8) -> bool {
    b == 32 || 9 <= b <= 13
}

/// Whether the bytes are digits alone.
pub open spec fn all_digit_bytes(b: Seq<u8>) -> bool {
    forall|i: int| 0 <= i < b.len() ==> is_digit_byte(#[trigger] b[i])
}

/// The number that a run of digit bytes writes in base ten.
pub open spec fn digits_value(b: Seq<u8>) -> nat
    decreases b.len(),
{
    if b.len() == 0 {
        0
    } else {
        (10 * digits_value(b.drop_last()) + (b.last() - 48)) as nat
    }
}

/// The most digits that [`number_in`] reads.
pub const MAX_DIGITS: usize = 18;

/// The number that the bytes `from` to `to` write, where they are one to
/// eighteen digits.
pub open spec fn number_in(b: Seq<u8>, from: int, to: int) -> Option<u64> {
    if 0 <= from < to <= b.len() && to - from <= MAX_DIGITS && all_digit_bytes(b.subrange(from, to)) {
        Some(digits_value(b.subrange(from, to)) as u64)
    } else {
        None
    }
}

/// The `n`-th power of ten.
pub open spec fn power_of_ten(n: nat) -> nat
    decreases n,
{
    if n == 0 {
        1
    } else {
        10 * power_of_ten((n - 1) as nat)
    }
}

/// Reads the number that the bytes `from` to `to` write.
pub fn read_number(b: &[u8], from: usize, to: usize) -> (r: Option<u64>)
    ensures
        r == number_in(b@, from as int, to as int),
        r matches Some(n) ==> n < power_of_ten((to - from) as nat),
{
    if from >= to || to > b.len() || to - from > MAX_DIGITS {
        return None;
    }
    let mut value: u64 = 0;
    let mut i: usize = from;
    let ghost run = b@.subrange(from as int, to as int);
    assert(b@.subrange(from as int, from as int) =~= Seq::<u8>::empty());
    proof {
        lemma_power_18();
    }
    while i < to
        invariant
            from <= i <= to <= b.len(),
            to - from <= MAX_DIGITS,
            run == b@.subrange(from as int, to as int),
            all_digit_bytes(b@.subrange(from as int, i as int)),
            value as nat == digits_value(b@.subrange(from as int, i as int)),
            value < power_of_ten((i - from) as nat),
        decreases to - i,
    {
        let d = b[i];
        let ghost next = b@.subrange(from as int, i + 1);
        proof {
            assert(next.drop_last() =~= b@.subrange(from as int, i as int));
            assert(next.last() == d);
            assert(run[i - from] == d);
        }
        if d < 48 || d > 57 {
            assert(!is_digit_byte(run[i - from]));
            return None;
        }
        proof {
            assert forall|k: int| 0 <= k < next.len() implies is_digit_byte(#[trigger] next[k]) by {
                if k < i - from {
                    assert(next[k] == b@.subrange(from as int, i as int)[k]);
                }
            }
            lemma_power_grows((i - from) as nat, 17);
            lemma_power_18();
        }
        value = value * 10 + (d - 48) as u64;
        i += 1;
    }
    proof {
        assert(b@.subrange(from as int, to as int) =~= run);
    }
    Some(value)
}

/// The eighteenth power of ten.
pub proof fn lemma_power_18()
    ensures
        power_of_ten(17) == 100_000_000_000_000_000,
        power_of_ten(18) == 1_000_000_000_000_000_000,
{
    reveal_with_fuel(power_of_ten, 20);
}

/// The powers of ten grow.
pub proof fn lemma_power_grows(a: nat, b: nat)
    requires
        a <= b,
    ensures
        power_of_ten(a) <= power_of_ten(b),
        power_of_ten(a) >= 1,
    decreases b,
{
    if a < b {
        lemma_power_grows(a, (b - 1) as nat);
    } else if a > 0 {
        lemma_power_grows((a - 1) as nat, (b - 1) as nat);
    }
}

/// The digit at `at` where that lies before `to`, else zero.
pub open spec fn digit_or_zero(b: Seq<u8>, at: int, to: int) -> int {
    if 0 <= at < to && at < b.len() {
        b[at] - 48
    } else {
        0
    }
}

/// The number that the first `width` digits from `from` write, with zeros
/// for the digits that `to` cuts off.
pub open spec fn padded_value(b: Seq<u8>, from: int, to: int, width: nat) -> int
    decreases width,
{
    if width == 0 {
        0
    } else {
        10 * padded_value(b, from, to, (width - 1) as nat) + digit_or_zero(
            b,
            from + width - 1,
            to,
        )
    }
}

/// Reads the first `width` digits from `from`, with zeros for the digits
/// that `to` cuts off.
pub fn read_padded(b: &[u8], from: usize, to: usize, width: usize) -> (r: u32)
    requires
        from <= to <= b.len(),
        width <= 9,
        all_digit_bytes(b@.subrange(from as int, to as int)),
    ensures
        r == padded_value(b@, from as int, to as int, width as nat),
        r < power_of_ten(width as nat),
{
    let mut value: u32 = 0;
    let mut k: usize = 0;
    proof {
        reveal_with_fuel(power_of_ten, 11);
    }
    while k < width
        invariant
            k <= width <= 9,
            from <= to <= b.len(),
            all_digit_bytes(b@.subrange(from as int, to as int)),
            value == padded_value(b@, from as int, to as int, k as nat),
            value < power_of_ten(k as nat),
        decreases width - k,
    {
        let d: u32 = if k < to - from {
            assert(is_digit_byte(b@.subrange(from as int, to as int)[k as int]));
            (b[from + k] - 48) as u32
        } else {
            0
        };
        proof {
            lemma_power_grows((k + 1) as nat, 9);
            reveal_with_fuel(power_of_ten, 11);
        }
        value = value * 10 + d;
        k += 1;
    }
    value
}

/// The instant that a count of seconds or of milliseconds since the epoch
/// writes: thirteen or fourteen digits are milliseconds, ten digits seconds,
/// and ten digits, a point and more digits are seconds with their fraction.
pub open spec fn epoch_reading(b: Seq<u8>) -> Option<Instant> {
    match number_in(b, 0, b.len() as int) {
        Some(n) => if 1_000_000_000_000 <= n < 100_000_000_000_000 {
            Some(Instant { secs: (n / 1000) as i64, nanos: ((n % 1000) * 1_000_000) as u32 })
        } else if 1_000_000_000 <= n < 10_000_000_000 {
            Some(Instant { secs: n as i64, nanos: 0 })
        } else {
            None
        },
        None => match number_in(b, 0, 10) {
            Some(n) => if b.len() >= 11 && b[10] == 46 && n >= 1_000_000_000 && all_digit_bytes(
                b.subrange(11, b.len() as int),
            ) {
                Some(
                    Instant {
                        secs: n as i64,
                        nanos: padded_value(b, 11, b.len() as int, 9) as u32,
                    },
                )
            } else {
                None
            },
            None => None,
        },
    }
}

/// Whether the bytes from `from` to `to` are digits alone.
pub fn digits_only(b: &[u8], from: usize, to: usize) -> (r: bool)
    requires
        from <= to <= b.len(),
    ensures
        r == all_digit_bytes(b@.subrange(from as int, to as int)),
{
    let mut i: usize = from;
    let ghost run = b@.subrange(from as int, to as int);
    while i < to
        invariant
            from <= i <= to <= b.len(),
            run == b@.subrange(from as int, to as int),
            forall|k: int| 0 <= k < i - from ==> is_digit_byte(#[trigger] run[k]),
        decreases to - i,
    {
        if b[i] < 48 || b[i] > 57 {
            assert(!is_digit_byte(run[i - from]));
            return false;
        }
        i += 1;
    }
    true
}

/// Reads a count of seconds or of milliseconds since the epoch.
pub fn read_epoch(b: &[u8]) -> (r: Option<Instant>)
    ensures
        r == epoch_reading(b@),
        r matches Some(t) ==> t.is_calendar(),
{
    match read_number(b, 0, b.len()) {
        Some(n) => {
            if 1_000_000_000_000 <= n && n < 100_000_000_000_000 {
                Some(Instant { secs: (n / 1000) as i64, nanos: ((n % 1000) * 1_000_000) as u32 })
            } else if 1_000_000_000 <= n && n < 10_000_000_000 {
                Some(Instant { secs: n as i64, nanos: 0 })
            } else {
                None
            }
        },
        None => match read_number(b, 0, 10) {
            Some(n) => {
                proof {
                    reveal_with_fuel(power_of_ten, 11);
                }
                if b.len() >= 11 && b[10] == 46 && n >= 1_000_000_000 && digits_only(
                    b,
                    11,
                    b.len(),
                ) {
                    let nanos = read_padded(b, 11, b.len(), 9);
                    Some(Instant { secs: n as i64, nanos })
                } else {
                    None
                }
            },
            None => None,
        },
    }
}

/// The month that the first three bytes name, January being 1.
pub open spec fn month_of(b: Seq<u8>) -> Option<u32> {
    if b.len() < 3 {
        None
    } else {
        let name = b.subrange(0, 3);
        if name == bytes_of("Jan"@) {
            Some(1u32)
        } else if name == bytes_of("Feb"@) {
            Some(2u32)
        } else if name == bytes_of("Mar"@) {
            Some(3u32)
        } else if name == bytes_of("Apr"@) {
            Some(4u32)
        } else if name == bytes_of("May"@) {
            Some(5u32)
        } else if name == bytes_of("Jun"@) {
            Some(6u32)
        } else if name == bytes_of("Jul"@) {
            Some(7u32)
        } else if name == bytes_of("Aug"@) {
            Some(8u32)
        } else if name == bytes_of("Sep"@) {
            Some(9u32)
        } else if name == bytes_of("Oct"@) {
            Some(10u32)
        } else if name == bytes_of("Nov"@) {
            Some(11u32)
        } else if name == bytes_of("Dec"@) {
            Some(12u32)
        } else {
            None
        }
    }
}

/// Whether the first three bytes of `b` are those of `name`.
pub fn starts_with_name(b: &[u8], name: &str) -> (r: bool)
    requires
        b.len() >= 3,
    ensures
        r == (b@.subrange(0, 3) == bytes_of(name@)),
{
    let n = name.as_bytes();
    if n.len() != 3 {
        return false;
    }
    let r = b[0] == n[0] && b[1] == n[1] && b[2] == n[2];
    proof {
        if r {
            assert(b@.subrange(0, 3) =~= n@);
        } else {
            assert(b@.subrange(0, 3)[0] == b[0]);
            assert(b@.subrange(0, 3)[1] == b[1]);
            assert(b@.subrange(0, 3)[2] == b[2]);
        }
    }
    r
}

/// The month that the first three bytes name.
pub fn read_month(b: &[u8]) -> (r: Option<u32>)
    ensures
        r == month_of(b@),
{
    if b.len() < 3 {
        None
    } else if starts_with_name(b, "Jan") {
        Some(1)
    } else if starts_with_name(b, "Feb") {
        Some(2)
    } else if starts_with_name(b, "Mar") {
        Some(3)
    } else if starts_with_name(b, "Apr") {
        Some(4)
    } else if starts_with_name(b, "May") {
        Some(5)
    } else if starts_with_name(b, "Jun") {
        Some(6)
    } else if starts_with_name(b, "Jul") {
        Some(7)
    } else if starts_with_name(b, "Aug") {
        Some(8)
    } else if starts_with_name(b, "Sep") {
        Some(9)
    } else if starts_with_name(b, "Oct") {
        Some(10)
    } else if starts_with_name(b, "Nov") {
        Some(11)
    } else if starts_with_name(b, "Dec") {
        Some(12)
    } else {
        None
    }
}

/// The first place at or after `from` that holds no white space.
pub open spec fn after_blanks(b: Seq<u8>, from: int) -> int
    decreases b.len() - from,
{
    if 0 <= from < b.len() && is_blank(b[from]) {
        after_blanks(b, from + 1)
    } else {
        from
    }
}

/// The first place at or after `from` that holds a space; the length where
/// there is none.
pub open spec fn next_space(b: Seq<u8>, from: int) -> int
    decreases b.len() - from,
{
    if 0 <= from < b.len() && b[from] != 32 {
        next_space(b, from + 1)
    } else {
        from
    }
}

/// The first place at or after `from` that holds no white space.
pub fn skip_blanks(b: &[u8], from: usize) -> (r: usize)
    requires
        from <= b.len(),
    ensures
        r == after_blanks(b@, from as int),
        from <= r <= b.len(),
{
    let mut i: usize = from;
    while i < b.len() && (b[i] == 32 || (9 <= b[i] && b[i] <= 13))
        invariant
            from <= i <= b.len(),
            after_blanks(b@, from as int) == after_blanks(b@, i as int),
        decreases b.len() - i,
    {
        i += 1;
    }
    i
}

/// The first place at or after `from` that holds a space.
pub fn find_space(b: &[u8], from: usize) -> (r: usize)
    requires
        from <= b.len(),
    ensures
        r == next_space(b@, from as int),
        from <= r <= b.len(),
{
    let mut i: usize = from;
    while i < b.len() && b[i] != 32
        invariant
            from <= i <= b.len(),
            next_space(b@, from as int) == next_space(b@, i as int),
        decreases b.len() - i,
    {
        i += 1;
    }
    i
}

/// The hour, minute and second that eight bytes at `at` write as
/// `HH:MM:SS`; the two separators may be any byte.
pub open spec fn clock_at(b: Seq<u8>, at: int) -> Option<(u32, u32, u32)> {
    match (number_in(b, at, at + 2), number_in(b, at + 3, at + 5), number_in(b, at + 6, at + 8)) {
        (Some(h), Some(m), Some(s)) => Some((h as u32, m as u32, s as u32)),
        _ => None,
    }
}

/// Reads the hour, minute and second at `at`.
pub fn read_clock(b: &[u8], at: usize) -> (r: Option<(u32, u32, u32)>)
    requires
        at <= b.len(),
    ensures
        r == clock_at(b@, at as int),
{
    if b.len() - at < 8 {
        return None;
    }
    proof {
        reveal_with_fuel(power_of_ten, 3);
    }
    match (read_number(b, at, at + 2), read_number(b, at + 3, at + 5), read_number(b, at + 6, at + 8)) {
        (Some(h), Some(m), Some(s)) => Some((h as u32, m as u32, s as u32)),
        _ => None,
    }
}

/// The instant that a BSD syslog timestamp writes, `Mon D HH:MM:SS`, in the
/// given year.
pub open spec fn syslog_reading(b: Seq<u8>, year: i32) -> Option<Instant> {
    if b.len() < 15 {
        None
    } else {
        match month_of(b) {
            Some(month) => {
                let day_from = after_blanks(b, 3);
                let day_to = next_space(b, day_from);
                match number_in(b, day_from, day_to) {
                    Some(day) => if day_to < b.len() && day <= 0xffff_ffff {
                        match clock_at(b, after_blanks(b, day_to + 1)) {
                            Some(c) => civil_instant(year, month, day as u32, c.0, c.1, c.2, 0),
                            None => None,
                        }
                    } else {
                        None
                    },
                    None => None,
                }
            },
            None => None,
        }
    }
}

/// Reads a BSD syslog timestamp, which writes no year, in the given year.
pub fn try_parse_syslog(b: &[u8], year: i32) -> (r: Option<Instant>)
    ensures
        r == syslog_reading(b@, year),
        r matches Some(t) ==> t.is_calendar(),
{
    if b.len() < 15 {
        return None;
    }
    let month = match read_month(b) {
        Some(m) => m,
        None => { return None; },
    };
    let day_from = skip_blanks(b, 3);
    let day_to = find_space(b, day_from);
    let day = match read_number(b, day_from, day_to) {
        Some(d) => d,
        None => { return None; },
    };
    if day_to >= b.len() || day > 0xffff_ffff {
        return None;
    }
    let at = skip_blanks(b, day_to + 1);
    match read_clock(b, at) {
        Some(c) => civil(year, month, day as u32, c.0, c.1, c.2, 0),
        None => None,
    }
}

/// The microseconds that a klog timestamp writes after its seconds: up to
/// six digits after the point, zero where anything else stands there.
pub open spec fn klog_micros(b: Seq<u8>) -> u32 {
    let to = if b.len() < 20 {
        b.len() as int
    } else {
        20
    };
    if b.len() >= 15 && b[13] == 46 && all_digit_bytes(b.subrange(14, to)) {
        padded_value(b, 14, to, 6) as u32
    } else {
        0
    }
}

/// The instant that a klog timestamp writes, `MMDD HH:MM:SS.micros`, in the
/// given year.
pub open spec fn klog_reading(b: Seq<u8>, year: i32) -> Option<Instant> {
    if b.len() < 15 || b[4] != 32 {
        None
    } else {
        match (number_in(b, 0, 2), number_in(b, 2, 4)) {
            (Some(month), Some(day)) => if 1 <= month <= 12 && 1 <= day <= 31 {
                match clock_at(b, 5) {
                    Some(c) => civil_instant(
                        year,
                        month as u32,
                        day as u32,
                        c.0,
                        c.1,
                        c.2,
                        klog_micros(b),
                    ),
                    None => None,
                }
            } else {
                None
            },
            _ => None,
        }
    }
}

/// Reads a klog timestamp, which writes no year, in the given year.
pub fn try_parse_klog(b: &[u8], year: i32) -> (r: Option<Instant>)
    ensures
        r == klog_reading(b@, year),
        r matches Some(t) ==> t.is_calendar(),
{
    if b.len() < 15 || b[4] != 32 {
        return None;
    }
    proof {
        reveal_with_fuel(power_of_ten, 8);
    }
    let (month, day) = match (read_number(b, 0, 2), read_number(b, 2, 4)) {
        (Some(m), Some(d)) => (m, d),
        _ => { return None; },
    };
    if month == 0 || month > 12 || day == 0 || day > 31 {
        return None;
    }
    let clock = match read_clock(b, 5) {
        Some(c) => c,
        None => { return None; },
    };
    let to: usize = if b.len() < 20 {
        b.len()
    } else {
        20
    };
    let micros: u32 = if b[13] == 46 && digits_only(b, 14, to) {
        read_padded(b, 14, to, 6)
    } else {
        0
    };
    civil(year, month as u32, day as u32, clock.0, clock.1, clock.2, micros)
}

/// The first format from `from` on, `skip` left out, that reads a timestamp
/// in `text`, with what it reads.
pub open spec fn first_format(text: Seq<char>, skip: Option<usize>, from: int) -> Option<
    (usize, Instant),
>
    decreases FORMAT_COUNT - from,
{
    if from < 0 || from >= FORMAT_COUNT {
        None
    } else if skip == Some(from as usize) {
        first_format(text, skip, from + 1)
    } else {
        match format_reading(text, from) {
            Some(t) => Some((from as usize, t)),
            None => first_format(text, skip, from + 1),
        }
    }
}

/// What is read where no date-time format fits: a count since the epoch,
/// else a syslog timestamp, else a klog timestamp, the last two in the given
/// year.
pub open spec fn yearless_reading(b: Seq<u8>, year: i32) -> Option<Instant> {
    match epoch_reading(b) {
        Some(t) => Some(t),
        None => match syslog_reading(b, year) {
            Some(t) => Some(t),
            None => klog_reading(b, year),
        },
    }
}

/// What the format that read the last timestamp reads in `text`.
pub open spec fn sticky_reading(text: Seq<char>, last: Option<usize>) -> Option<Instant> {
    match last {
        Some(i) => if i < FORMAT_COUNT {
            format_reading(text, i as int)
        } else {
            None
        },
        None => None,
    }
}

/// The instant that `text` writes and the format to try first on the next
/// text, given the format that read the last one. The text is read without
/// its outer white space; an empty text writes nothing. The format of the
/// last success is tried first, then the others in their order, and the one
/// that reads is kept; then come the forms without a format, which leave the
/// kept format as it is.
pub open spec fn normalized(text: Seq<char>, last: Option<usize>, year: i32) -> (
    Option<Instant>,
    Option<usize>,
) {
    let inner = trimmed(text);
    if inner.len() == 0 {
        (None, last)
    } else {
        match sticky_reading(inner, last) {
            Some(t) => (Some(t), last),
            None => match first_format(inner, last, 0) {
                Some(found) => (Some(found.1), Some(found.0)),
                None => (yearless_reading(bytes_of(inner), year), last),
            },
        }
    }
}

/// Reads timestamps, trying first the format that read the last one.
#[derive(Debug, Clone, Copy)]
pub struct Normalizer {
    /// The format of the last success.
    pub last_format: Option<usize>,
}

impl Normalizer {
    /// A reader that has read nothing yet.
    pub fn new() -> (r: Normalizer)
        ensures
            r.last_format is None,
    {
        Normalizer { last_format: None }
    }

    /// Reads the timestamp that `text` writes, a timestamp without a year
    /// being taken for one of `year`.
    pub fn parse(&mut self, text: &str, year: i32) -> (r: Option<Instant>)
        ensures
            (r, final(self).last_format) == normalized(text@, old(self).last_format, year),
            r matches Some(t) ==> t.is_calendar(),
    {
        let inner = trim(text);
        if inner.is_empty() {
            return None;
        }
        match self.last_format {
            Some(i) => {
                if i < FORMAT_COUNT {
                    match try_parse_with_format(inner, i) {
                        Some(t) => {
                            return Some(t);
                        },
                        None => {},
                    }
                }
            },
            None => {},
        }
        let mut i: usize = 0;
        while i < FORMAT_COUNT
            invariant
                i <= FORMAT_COUNT,
                self.last_format == old(self).last_format,
                inner@ == trimmed(text@),
                inner@.len() > 0,
                sticky_reading(inner@, self.last_format) is None,
                first_format(inner@, self.last_format, 0) == first_format(
                    inner@,
                    self.last_format,
                    i as int,
                ),
            decreases FORMAT_COUNT - i,
        {
            if self.last_format != Some(i) {
                match try_parse_with_format(inner, i) {
                    Some(t) => {
                        self.last_format = Some(i);
                        return Some(t);
                    },
                    None => {},
                }
            }
            i += 1;
        }
        let b = inner.as_bytes();
        match read_epoch(b) {
            Some(t) => {
                return Some(t);
            },
            None => {},
        }
        match try_parse_syslog(b, year) {
            Some(t) => {
                return Some(t);
            },
            None => {},
        }
        try_parse_klog(b, year)
    }
}

/// Reads the timestamp that `text` writes, with no format kept from before,
/// a timestamp without a year being taken for one of `year`.
pub fn parse_timestamp_in(text: &str, year: i32) -> (r: Option<Instant>)
    ensures
        r == normalized(text@, None, year).0,
        r matches Some(t) ==> t.is_calendar(),
{
    let mut reader = Normalizer::new();
    reader.parse(text, year)
}

/// Reads the timestamp that `text` writes, a timestamp without a year being
/// taken for one of the current local year.
pub fn parse_timestamp(text: &str) -> (r: Option<Instant>)
    ensures
        exists|year: i32| r == normalized(text@, None, year).0,
        r matches Some(t) ==> t.is_calendar(),
{
    let year = current_year();
    parse_timestamp_in(text, year)
}

} // verus!
