//! Instants, local calendar days, and the slicing of activity segments at
//! local midnight.
//!
//! Instants are milliseconds since the Unix epoch (UTC).  They are stored as
//! ISO strings in UTC with millisecond precision and a `Z` suffix.  Stored
//! strings of either form are read back: with an offset (RFC 3339) or naive,
//! in which case they are local wall-clock time.  What depends on the local
//! time zone (midnights, naive times, today's date) comes from chrono and is
//! not a function of its arguments alone.

use vstd::prelude::*;

use crate::segment::{slice_view, Segment, SegmentView};
use chrono::TimeZone;

use crate::text::clone_opt_string;

verus! {

/// Milliseconds in a day.
pub const DAY_MS: i64 = 86_400_000;

/// The earliest instant chrono represents: -262143-01-01T00:00:00Z.
pub const MIN_MS: i64 = -8_334_601_315_200_000;

/// The latest instant chrono represents: +262142-12-31T23:59:59.999Z.
pub const MAX_MS: i64 = 8_210_266_876_799_999;

/// An instant that chrono can represent.
pub open spec fn in_range(ms: int) -> bool {
    MIN_MS <= ms <= MAX_MS
}

/// The ISO form of an instant: UTC, millisecond precision, `Z` suffix.
pub uninterp spec fn iso_utc_millis(ms: int) -> Seq<char>;

/// The instant an RFC 3339 string names, if it is one.
pub uninterp spec fn rfc3339_millis(s: Seq<char>) -> Option<int>;

/// The wall-clock time that `s` spells in the chrono format `fmt`, counted
/// in milliseconds as if it were UTC, if `s` has that form.
pub uninterp spec fn naive_millis(s: Seq<char>, fmt: Seq<char>) -> Option<int>;

/// Formats an instant with chrono's `to_rfc3339_opts(SecondsFormat::Millis, true)`
/// (what JavaScript's `toISOString` gives).  The result is named
/// `iso_utc_millis(ms)`; chrono panics for instants out of its range, which
/// `requires` leaves out.
#[verifier::external_body]
pub fn iso_utc_z_millis(ms: i64) -> (iso: String)
    requires
        in_range(ms as int),
    ensures
        iso@ == iso_utc_millis(ms as int),
{
    chrono::Utc.timestamp_millis_opt(ms).unwrap().to_rfc3339_opts(chrono::SecondsFormat::Millis, true)
}

/// Reads an RFC 3339 string with chrono's `DateTime::parse_from_rfc3339`.
/// The result is named `rfc3339_millis(s)`; a chrono `DateTime` always lies in
/// chrono's range.
#[verifier::external_body]
fn parse_rfc3339(s: &str) -> (r: Option<i64>)
    ensures
        r is None <==> rfc3339_millis(s@) is None,
        r matches Some(ms) ==> rfc3339_millis(s@) == Some(ms as int) && in_range(ms as int),
{
    chrono::DateTime::parse_from_rfc3339(s).ok().map(|dt| dt.timestamp_millis())
}

/// Reads a naive date and time with chrono's `NaiveDateTime::parse_from_str`.
/// The result, counted as if UTC, is named `naive_millis(s, fmt)`.  It may
/// lie just past chrono's range: `%Y` takes a signed year of more digits,
/// and a seconds field of 60 is a leap second that the count includes.
#[verifier::external_body]
fn parse_naive(s: &str, fmt: &str) -> (r: Option<i64>)
    ensures
        r is None <==> naive_millis(s@, fmt@) is None,
        r matches Some(ms) ==> naive_millis(s@, fmt@) == Some(ms as int),
{
    chrono::NaiveDateTime::parse_from_str(s, fmt).ok().map(|n| n.and_utc().timestamp_millis())
}

/// Takes a wall-clock time (counted as if UTC) as local time with chrono's
/// `Local.from_local_datetime(..).single()`.  The answer depends on the
/// machine's time zone; all that is stated is that an instant that comes
/// back lies in chrono's range.
#[verifier::external_body]
fn local_wall_clock_to_instant(wall_ms: i64) -> (r: Option<i64>)
    requires
        in_range(wall_ms as int),
    ensures
        r matches Some(ms) ==> in_range(ms as int),
{
    let wall = chrono::DateTime::from_timestamp_millis(wall_ms).unwrap().naive_utc();
    chrono::Local.from_local_datetime(&wall).single().map(|dt| dt.timestamp_millis())
}

/// A leap year of the proleptic Gregorian calendar.
pub open spec fn is_leap_year(y: int) -> bool {
    y % 4 == 0 && (y % 100 != 0 || y % 400 == 0)
}

/// The number of days of month `m` (1 to 12) in year `y`.
pub open spec fn days_in_month(y: int, m: int) -> int {
    if m == 2 {
        if is_leap_year(y) {
            29
        } else {
            28
        }
    } else if m == 4 || m == 6 || m == 9 || m == 11 {
        30
    } else {
        31
    }
}

/// Local midnight of a calendar date with chrono's
/// `Local.with_ymd_and_hms(y, m, d, 0, 0, 0).single()`.  There is none for a
/// month outside `1..=12` or a day that its month does not have, which
/// `NaiveDate::from_ymd_opt` refuses before the time zone is asked.  Beyond
/// that the answer depends on the machine's time zone; all that is stated is
/// that an instant that comes back lies in chrono's range.
#[verifier::external_body]
fn local_midnight(y: i32, m: u32, d: u32) -> (r: Option<i64>)
    ensures
        r matches Some(ms) ==> in_range(ms as int),
        !(1 <= m <= 12) || !(1 <= d <= days_in_month(y as int, m as int)) ==> r is None,
{
    chrono::Local.with_ymd_and_hms(y, m, d, 0, 0, 0).single().map(|dt| dt.timestamp_millis())
}

/// The present instant, from chrono's `Utc::now()`; it lies in chrono's range.
#[verifier::external_body]
pub fn utc_now_millis() -> (ms: i64)
    ensures
        in_range(ms as int),
{
    chrono::Utc::now().timestamp_millis()
}

/// The civil date `(year, month, day)` of the `z`-th day after 1970-01-01
/// (before it when negative), in the proleptic Gregorian calendar.
pub open spec fn civil_of_day(z: int) -> (int, int, int) {
    let days = z + 719468;
    let era = days / 146097;
    let doe = days - era * 146097;
    let yoe = (doe - doe / 1460 + doe / 36524 - doe / 146096) / 365;
    let doy = doe - (365 * yoe + yoe / 4 - yoe / 100);
    let mp = (5 * doy + 2) / 153;
    let d = doy - (153 * mp + 2) / 5 + 1;
    let m = if mp < 10 {
        mp + 3
    } else {
        mp - 9
    };
    let y = yoe + era * 400 + if m <= 2 {
        1int
    } else {
        0int
    };
    (y, m, d)
}

/// `n` written in decimal with `width` digits, zero-padded.
pub open spec fn padded_digits(n: int, width: nat) -> Seq<char>
    decreases width,
{
    if width == 0 {
        Seq::empty()
    } else {
        padded_digits(n / 10, (width - 1) as nat).push(((n % 10) + 48) as char)
    }
}

/// A date written `YYYY-MM-DD`.
pub open spec fn ymd_text(y: int, m: int, d: int) -> Seq<char> {
    padded_digits(y, 4) + seq!['-'] + padded_digits(m, 2) + seq!['-'] + padded_digits(d, 2)
}

/// An offset from UTC that chrono's `FixedOffset` can hold: whole seconds,
/// less than a day either way.
pub open spec fn is_utc_offset(off: int) -> bool {
    -DAY_MS < off < DAY_MS && off % 1000 == 0
}

/// `date` is the calendar date, `YYYY-MM-DD`, that a clock set `off`
/// milliseconds from UTC shows at the instant `ms`, for the years 0 to 9999.
pub open spec fn local_date_at(date: Seq<char>, ms: int, off: int) -> bool {
    let (y, m, d) = civil_of_day((ms + off) / (DAY_MS as int));
    0 <= y <= 9999 ==> date == ymd_text(y, m, d)
}

/// A clock at any offset chrono accepts shows the UTC day of an instant, the
/// day before or the day after: the local date of an instant is never more
/// than one day away from its UTC date.
pub proof fn lemma_local_day_beside_utc_day(ms: int, off: int)
    requires
        is_utc_offset(off),
    ensures
        -1 <= (ms + off) / (DAY_MS as int) - ms / (DAY_MS as int) <= 1,
{
    let day = DAY_MS as int;
    assert(day * (ms / day) <= ms < day * (ms / day) + day) by (nonlinear_arith)
        requires
            day == 86_400_000,
    ;
    assert(day * ((ms + off) / day) <= ms + off < day * ((ms + off) / day) + day) by (nonlinear_arith)
        requires
            day == 86_400_000,
    ;
    assert(-1 <= (ms + off) / day - ms / day <= 1) by (nonlinear_arith)
        requires
            day == 86_400_000,
            day * (ms / day) <= ms < day * (ms / day) + day,
            day * ((ms + off) / day) <= ms + off < day * ((ms + off) / day) + day,
            -day < off < day,
    ;
}

/// The local calendar date `YYYY-MM-DD` of an instant, from chrono's
/// `with_timezone(&Local).format("%Y-%m-%d")`.  Which offset the machine's
/// time zone gives is not stated; what is stated is that it is a
/// `FixedOffset` (whole seconds, less than a day either way) and that the
/// date is the one a clock at that offset shows, `%Y` writing the years 0
/// to 9999 with four digits.
#[verifier::external_body]
pub fn local_date_string(now_ms: i64) -> (date: String)
    requires
        in_range(now_ms as int),
    ensures
        exists|off: int|
            #![trigger local_date_at(date@, now_ms as int, off)]
            is_utc_offset(off) && local_date_at(date@, now_ms as int, off),
{
    chrono::DateTime::from_timestamp_millis(now_ms).unwrap().with_timezone(&chrono::Local).format(
        "%Y-%m-%d",
    ).to_string()
}

/// The current instant in its ISO form.
pub fn now_iso() -> (iso: String)
    ensures
        exists|ms: int| in_range(ms) && iso@ == iso_utc_millis(ms),
{
    let ms = utc_now_millis();
    iso_utc_z_millis(ms)
}

/// The ASCII digits.
pub open spec fn is_digit(c: char) -> bool {
    '0' <= c && c <= '9'
}

/// The number that a string of decimal digits spells.
pub open spec fn digits_value(s: Seq<char>) -> int
    decreases s.len(),
{
    if s.len() == 0 {
        0
    } else {
        digits_value(s.drop_last()) * 10 + (s.last() as int - '0' as int)
    }
}

/// The field without its leading `+`, if it has one.
pub open spec fn strip_plus(s: Seq<char>) -> Seq<char> {
    if s.len() > 0 && s[0] == '+' {
        s.drop_first()
    } else {
        s
    }
}

/// Every character is an ASCII digit.
pub open spec fn all_digits(s: Seq<char>) -> bool {
    forall|i: int| 0 <= i < s.len() ==> is_digit(#[trigger] s[i])
}

/// What Rust's `str::parse` makes of a field without a sign other than `+`:
/// an optional `+`, then at least one ASCII digit, of value at most `max`.
pub open spec fn parse_decimal(s: Seq<char>, max: int) -> Option<int> {
    let body = strip_plus(s);
    if body.len() == 0 || !all_digits(body) {
        None
    } else if digits_value(body) > max {
        None
    } else {
        Some(digits_value(body))
    }
}

/// Year, month and day of a `Y-M-D` string: exactly three fields separated
/// by `-`, the year an `i32`, month and day `u32`s.  The fields are not
/// checked against the calendar.
pub open spec fn parse_ymd(s: Seq<char>) -> Option<(int, int, int)> {
    if exists|i: int, j: int|
        0 <= i < j < s.len() && s[i] == '-' && s[j] == '-' && (forall|k: int|
            0 <= k < s.len() && k != i && k != j ==> s[k] != '-') {
        let (i, j) = choose|i: int, j: int|
            0 <= i < j < s.len() && s[i] == '-' && s[j] == '-' && (forall|k: int|
                0 <= k < s.len() && k != i && k != j ==> s[k] != '-');
        match (
            parse_decimal(s.subrange(0, i), i32::MAX as int),
            parse_decimal(s.subrange(i + 1, j), u32::MAX as int),
            parse_decimal(s.subrange(j + 1, s.len() as int), u32::MAX as int),
        ) {
            (Some(y), Some(m), Some(d)) => Some((y, m, d)),
            _ => None,
        }
    } else {
        None
    }
}

/// A day text that is refused whatever the time zone: not three fields of
/// numbers, or a month outside `1..=12`.
pub open spec fn calendar_refused(d: Seq<char>) -> bool {
    match parse_ymd(d) {
        None => true,
        Some((_, m, _)) => !(1 <= m <= 12),
    }
}

/// A local calendar day `[start, end)` in milliseconds, with the ISO forms
/// of both ends.
pub struct DayBounds {
    pub start_ms: i64,
    pub end_ms: i64,
    pub start_iso: String,
    pub end_iso: String,
}

impl DayBounds {
    /// A day of 24 hours from `start_ms`, with its ISO forms.
    pub open spec fn spans_day_from(self, start: int) -> bool {
        &&& self.start_ms == start
        &&& self.end_ms == start + DAY_MS
        &&& self.start_iso@ == iso_utc_millis(start)
        &&& self.end_iso@ == iso_utc_millis(start + DAY_MS)
    }
}

/// Parses one field: an optional `+` and decimal digits, at most `max`.
fn parse_field(s: &Vec<char>, from: usize, to: usize, max: u64) -> (r: Option<u64>)
    requires
        from <= to <= s@.len(),
    ensures
        match parse_decimal(s@.subrange(from as int, to as int), max as int) {
            Some(v) => r == Some(v as u64) && 0 <= v <= max,
            None => r is None,
        },
{
    let ghost f = s@.subrange(from as int, to as int);
    let mut i = from;
    if i < to && s[i] == '+' {
        i = i + 1;
    }
    let ghost body = s@.subrange(i as int, to as int);
    assert(body =~= strip_plus(f));
    if i == to {
        return None;
    }
    let start = i;
    let mut value: u64 = 0;
    while i < to
        invariant
            from <= start <= i <= to <= s@.len(),
            start < to,
            body == s@.subrange(start as int, to as int),
            f == s@.subrange(from as int, to as int),
            body == strip_plus(f),
            forall|k: int| start <= k < i ==> is_digit(s@[k]),
            value as int == digits_value(s@.subrange(start as int, i as int)),
            value <= max,
        decreases to - i,
    {
        let c = s[i];
        if !('0' <= c && c <= '9') {
            assert(!is_digit(body[i - start]));
            return None;
        }
        let digit = (c as u32 - '0' as u32) as u128;
        assert(s@.subrange(start as int, i + 1).drop_last() =~= s@.subrange(start as int, i as int));
        let next: u128 = value as u128 * 10 + digit;
        assert(digits_value(s@.subrange(start as int, i + 1)) == next);
        if next > max as u128 {
            proof {
                if all_digits(body) {
                    lemma_digits_value_grows(body, i + 1 - start);
                    assert(body.subrange(0, i + 1 - start) =~= s@.subrange(start as int, i + 1));
                }
            }
            return None;
        }
        value = next as u64;
        i = i + 1;
    }
    assert(s@.subrange(start as int, i as int) =~= body);
    Some(value)
}

/// What Rust's `str::parse::<u64>` makes of `s`, as `parse_decimal` describes.
pub fn parse_u64(s: &str) -> (r: Option<u64>)
    ensures
        match parse_decimal(s@, u64::MAX as int) {
            Some(v) => r == Some(v as u64) && 0 <= v <= u64::MAX,
            None => r is None,
        },
{
    let t = crate::text::chars_of(s);
    assert(t@.subrange(0, t@.len() as int) =~= s@);
    parse_field(&t, 0, t.len(), u64::MAX)
}

/// The positions of the two `-` of a string that has exactly two.
fn find_two_dashes(s: &Vec<char>) -> (r: Option<(usize, usize)>)
    ensures
        match r {
            Some((i, j)) => {
                &&& i < j < s@.len()
                &&& s@[i as int] == '-'
                &&& s@[j as int] == '-'
                &&& forall|k: int| 0 <= k < s@.len() && k != i && k != j ==> s@[k] != '-'
            },
            None => !exists|i: int, j: int|
                0 <= i < j < s@.len() && s@[i] == '-' && s@[j] == '-' && (forall|k: int|
                    0 <= k < s@.len() && k != i && k != j ==> s@[k] != '-'),
        },
{
    let mut first: Option<usize> = None;
    let mut second: Option<usize> = None;
    let mut k: usize = 0;
    while k < s.len()
        invariant
            k <= s@.len(),
            match first {
                None => second is None && forall|x: int| 0 <= x < k ==> s@[x] != '-',
                Some(a) => a < k && s@[a as int] == '-' && (forall|x: int|
                    0 <= x < a ==> s@[x] != '-') && match second {
                    None => forall|x: int| a < x < k ==> s@[x] != '-',
                    Some(b) => a < b < k && s@[b as int] == '-' && forall|x: int|
                        a < x < k && x != b ==> s@[x] != '-',
                },
            },
        decreases s@.len() - k,
    {
        if s[k] == '-' {
            match first {
                None => {
                    first = Some(k);
                },
                Some(a) => {
                    match second {
                        None => {
                            second = Some(k);
                        },
                        Some(b) => {
                            assert(forall|i: int, j: int|
                                0 <= i < j < s@.len() && s@[i] == '-' && s@[j] == '-' ==> !(
                                forall|x: int|
                                    0 <= x < s@.len() && x != i && x != j ==> s@[x] != '-')) by {
                                assert forall|i: int, j: int|
                                    0 <= i < j < s@.len() && s@[i] == '-' && s@[j]
                                        == '-' implies !(forall|x: int|
                                    0 <= x < s@.len() && x != i && x != j ==> s@[x] != '-') by {
                                    if i != a as int && j != a as int {
                                    } else if i != b as int && j != b as int {
                                        assert(s@[b as int] == '-');
                                    } else {
                                        assert(s@[k as int] == '-');
                                    }
                                }
                            }
                            return None;
                        },
                    }
                },
            }
        }
        k = k + 1;
    }
    match (first, second) {
        (Some(a), Some(b)) => Some((a, b)),
        _ => {
            assert forall|i: int, j: int|
                0 <= i < j < s@.len() && s@[i] == '-' && s@[j] == '-' implies !(forall|x: int|
                0 <= x < s@.len() && x != i && x != j ==> s@[x] != '-') by {
                match first {
                    None => {},
                    Some(a) => {
                        assert(s@[i] == '-');
                        assert(s@[j] == '-');
                    },
                }
            }
            None
        },
    }
}

/// Year, month and day of a `Y-M-D` string, as `parse_ymd` describes.
pub fn ymd_of(s: &str) -> (r: Option<(i32, u32, u32)>)
    ensures
        match parse_ymd(s@) {
            Some((y, m, d)) => r == Some((y as i32, m as u32, d as u32)) && 0 <= y <= i32::MAX && 0
                <= m <= u32::MAX && 0 <= d <= u32::MAX,
            None => r is None,
        },
{
    let t = crate::text::chars_of(s);
    match find_two_dashes(&t) {
        None => None,
        Some((i, j)) => {
            proof {
                let (ci, cj) = choose|ci: int, cj: int|
                    0 <= ci < cj < s@.len() && s@[ci] == '-' && s@[cj] == '-' && (forall|k: int|
                        0 <= k < s@.len() && k != ci && k != cj ==> s@[k] != '-');
                assert(ci == i as int && cj == j as int) by {
                    if ci != i as int && ci != j as int {
                        assert(s@[ci] != '-');
                    }
                    if cj != i as int && cj != j as int {
                        assert(s@[cj] != '-');
                    }
                }
            }
            let y = parse_field(&t, 0, i, i32::MAX as u64);
            let m = parse_field(&t, i + 1, j, u32::MAX as u64);
            let d = parse_field(&t, j + 1, t.len(), u32::MAX as u64);
            assert(t@ == s@);
            assert(parse_ymd(s@) == match (
                parse_decimal(s@.subrange(0, i as int), i32::MAX as int),
                parse_decimal(s@.subrange(i + 1, j as int), u32::MAX as int),
                parse_decimal(s@.subrange(j + 1, s@.len() as int), u32::MAX as int),
            ) {
                (Some(y), Some(m), Some(d)) => Some((y, m, d)),
                _ => None,
            });
            match (y, m, d) {
                (Some(y), Some(m), Some(d)) => Some((y as i32, m as u32, d as u32)),
                _ => None,
            }
        },
    }
}

/// The start of a local day: local midnight of the date itself when it
/// exists, or else local midnight of the first of the month plus `day - 1`
/// days (so that `2026-02-30` is read as `2026-03-02`).  `None` where neither
/// midnight is known or the day leaves chrono's range.
pub fn day_start(exact: Option<i64>, first_of_month: Option<i64>, day: u32) -> (r: Option<i64>)
    requires
        exact matches Some(ms) ==> in_range(ms as int),
        first_of_month matches Some(ms) ==> in_range(ms as int),
    ensures
        r == match exact {
            Some(ms) => Some(ms),
            None => match first_of_month {
                Some(first) => if in_range(first + (day - 1) * DAY_MS) {
                    Some((first + (day - 1) * DAY_MS) as i64)
                } else {
                    None
                },
                None => None,
            },
        },
{
    match exact {
        Some(ms) => Some(ms),
        None => match first_of_month {
            Some(first) => {
                assert(0 <= (day as i128 - 1) * (DAY_MS as i128) + DAY_MS <= u32::MAX as int * DAY_MS)
                    by (nonlinear_arith)
                    requires
                        0 <= day <= u32::MAX,
                ;
                let offset: i128 = (day as i128 - 1) * (DAY_MS as i128);
                let start: i128 = first as i128 + offset;
                if MIN_MS as i128 <= start && start <= MAX_MS as i128 {
                    Some(start as i64)
                } else {
                    None
                }
            },
            None => None,
        },
    }
}

/// The local day of 24 hours that starts at `start`, with the ISO forms of
/// both ends; `None` where its end leaves chrono's range.
pub fn bounds_from_start(start: i64) -> (r: Option<DayBounds>)
    requires
        in_range(start as int),
    ensures
        match r {
            Some(b) => b.spans_day_from(start as int) && in_range(start + DAY_MS),
            None => !in_range(start + DAY_MS),
        },
{
    if start > MAX_MS - DAY_MS {
        return None;
    }
    let end = start + DAY_MS;
    Some(DayBounds { start_ms: start, end_ms: end, start_iso: iso_utc_z_millis(start), end_iso: iso_utc_z_millis(end) })
}

/// The local calendar day named `YYYY-MM-DD`: `[local midnight, +24 h)`.
/// Strings that are not three fields of numbers give `None`; a day that does
/// not exist in its month runs on into the next (`2026-02-30` is `2026-03-02`),
/// but a month outside `1..=12` gives `None`.  Where the day starts is
/// chrono's answer for the local time zone, which may have none.
pub fn day_bounds(local_date: &str) -> (r: Option<DayBounds>)
    ensures
        calendar_refused(local_date@) ==> r is None,
        r matches Some(b) ==> in_range(b.start_ms as int) && in_range(b.end_ms as int)
            && b.spans_day_from(b.start_ms as int),
        match (parse_ymd(local_date@), r) {
            (Some((y, m, d)), Some(b)) => d > days_in_month(y, m) ==> exists|first: int|
                in_range(first) && b.start_ms == first + (d - 1) * DAY_MS,
            _ => true,
        },
{
    match ymd_of(local_date) {
        None => None,
        Some((y, m, d)) => {
            let exact = local_midnight(y, m, d);
            let first = match exact {
                Some(_) => None,
                None => local_midnight(y, m, 1),
            };
            match day_start(exact, first, d) {
                Some(start) => bounds_from_start(start),
                None => None,
            }
        },
    }
}

/// The chrono format of a naive stored time with a fraction of a second.
pub open spec fn naive_format_fraction() -> Seq<char> {
    "%Y-%m-%dT%H:%M:%S%.f"@
}

/// The chrono format of a naive stored time in whole seconds.
pub open spec fn naive_format_seconds() -> Seq<char> {
    "%Y-%m-%dT%H:%M:%S"@
}

/// The instant a stored time string names: an RFC 3339 string (with `Z` or
/// an offset) as it says; otherwise a naive `YYYY-MM-DDTHH:MM:SS[.fff]`
/// taken as local wall-clock time.  `None` when it is neither, or when the
/// naive time lies outside chrono's range.
pub fn parse_iso_to_ms(s: &str) -> (r: Option<i64>)
    ensures
        r matches Some(ms) ==> in_range(ms as int),
        rfc3339_millis(s@) matches Some(ms) ==> r == Some(ms as i64) && in_range(ms),
        unreadable(s@) ==> r is None,
{
    match parse_rfc3339(s) {
        Some(ms) => Some(ms),
        None => {
            let frac = "%Y-%m-%dT%H:%M:%S%.f";
            let secs = "%Y-%m-%dT%H:%M:%S";
            let wall = match parse_naive(s, frac) {
                Some(w) => Some(w),
                None => parse_naive(s, secs),
            };
            match wall {
                Some(w) => if MIN_MS <= w && w <= MAX_MS {
                    local_wall_clock_to_instant(w)
                } else {
                    None
                },
                None => None,
            }
        },
    }
}

/// The part of `[start, end)` that falls in the day `[day_start, day_end)`,
/// if any; `None` also when the interval runs backwards.
pub open spec fn clip(start: int, end: int, day_start: int, day_end: int) -> Option<(int, int)> {
    let lo = if start > day_start {
        start
    } else {
        day_start
    };
    let hi = if end < day_end {
        end
    } else {
        day_end
    };
    if end < start || hi <= lo {
        None
    } else {
        Some((lo, hi))
    }
}

/// The segment cut down to the part of `[start_ms, end_ms)` that lies in
/// `[day_start, day_end)`, with both ends written out; `None` when nothing
/// of it lies in the day.
pub fn slice_segment(seg: &Segment, start_ms: i64, end_ms: i64, day_start: i64, day_end: i64) -> (r:
    Option<Segment>)
    requires
        in_range(start_ms as int),
        in_range(end_ms as int),
        in_range(day_start as int),
        in_range(day_end as int),
    ensures
        match clip(start_ms as int, end_ms as int, day_start as int, day_end as int) {
            None => r is None,
            Some((lo, hi)) => r matches Some(out) && out@ == (SegmentView {
                start_at: iso_utc_millis(lo),
                end_at: Some(iso_utc_millis(hi)),
                ..seg@
            }),
        },
{
    if end_ms < start_ms {
        return None;
    }
    let lo = if start_ms > day_start {
        start_ms
    } else {
        day_start
    };
    let hi = if end_ms < day_end {
        end_ms
    } else {
        day_end
    };
    if hi <= lo {
        return None;
    }
    Some(Segment {
        id: seg.id.clone(),
        start_at: iso_utc_z_millis(lo),
        end_at: Some(iso_utc_z_millis(hi)),
        process_name: seg.process_name.clone(),
        title: seg.title.clone(),
        note: seg.note.clone(),
        todo_id: clone_opt_string(&seg.todo_id),
        kind: seg.kind,
    })
}

/// A stored time that `parse_iso_to_ms` cannot read: not RFC 3339, and
/// either no naive time in either format or one outside chrono's range (the
/// fraction format is tried first).
pub open spec fn unreadable(t: Seq<char>) -> bool {
    &&& rfc3339_millis(t) is None
    &&& match naive_millis(t, naive_format_fraction()) {
        Some(w) => !in_range(w),
        None => match naive_millis(t, naive_format_seconds()) {
            Some(w) => !in_range(w),
            None => true,
        },
    }
}

/// A segment whose start, and end (`now_ms` when it is open), are RFC 3339
/// instants with the end before the start.
pub open spec fn ends_before_start(seg: SegmentView, now_ms: i64) -> bool {
    &&& rfc3339_millis(seg.start_at) is Some
    &&& match seg.end_at {
        Some(t) => rfc3339_millis(t) is Some && rfc3339_millis(t)->0 < rfc3339_millis(
            seg.start_at,
        )->0,
        None => now_ms < rfc3339_millis(seg.start_at)->0,
    }
}

/// `ms` is a reading of the stored time `t`: an instant in chrono's range,
/// the one `t` names when it is an RFC 3339 string.  A naive time is local
/// wall-clock time, read in the machine's time zone.
pub open spec fn read_as(t: Seq<char>, ms: int) -> bool {
    &&& in_range(ms)
    &&& rfc3339_millis(t) matches Some(x) ==> ms == x
}

/// `out` is the part of `seg` that falls in the day of 24 hours from
/// `day_start`, the segment running from `start` to `end` as its times are
/// read (an open one until `now_ms`).
pub open spec fn piece_of_day(
    seg: SegmentView,
    now_ms: i64,
    day_start: int,
    start: int,
    end: int,
    out: SegmentView,
) -> bool {
    &&& in_range(day_start)
    &&& in_range(day_start + DAY_MS)
    &&& read_as(seg.start_at, start)
    &&& match seg.end_at {
        Some(t) => read_as(t, end),
        None => end == now_ms,
    }
    &&& clip(start, end, day_start, day_start + DAY_MS) matches Some((lo, hi)) && out == (
    SegmentView { start_at: iso_utc_millis(lo), end_at: Some(iso_utc_millis(hi)), ..seg })
}

/// The instants of a segment whose times are RFC 3339 strings: its start
/// and its end (`now_ms` while it is open); none when a time is not one.
pub open spec fn rfc_times(seg: SegmentView, now_ms: i64) -> Option<(i64, i64)> {
    match rfc3339_millis(seg.start_at) {
        Some(s) => match seg.end_at {
            Some(t) => match rfc3339_millis(t) {
                Some(e) => Some((s as i64, e as i64)),
                None => None,
            },
            None => Some((s as i64, now_ms)),
        },
        None => None,
    }
}

/// The views of an optional segment.
pub open spec fn opt_view(r: Option<Segment>) -> Option<SegmentView> {
    match r {
        Some(s) => Some(s@),
        None => None,
    }
}

/// The part of a segment that falls in the day `bounds`, with an open
/// segment taken to run until `now_ms`.  `None` when nothing of it falls in
/// the day, when a time of the segment cannot be read, or when the segment
/// ends before it starts.  Where both times are RFC 3339 strings the part
/// is exactly the segment clipped to the day.
pub fn split_in_day(seg: &Segment, bounds: &DayBounds, now_ms: i64) -> (r: Option<Segment>)
    requires
        in_range(now_ms as int),
        in_range(bounds.start_ms as int),
        bounds.end_ms == bounds.start_ms + DAY_MS,
        in_range(bounds.end_ms as int),
    ensures
        r matches Some(out) ==> exists|start: int, end: int|
            #[trigger] piece_of_day(seg@, now_ms, bounds.start_ms as int, start, end, out@),
        unreadable(seg.start_at@) ==> r is None,
        seg@.end_at matches Some(t) && unreadable(t) ==> r is None,
        rfc_times(seg@, now_ms) is Some ==> opt_view(r) == slice_view(
            *seg,
            rfc_times(seg@, now_ms),
            bounds.start_ms as int,
            bounds.end_ms as int,
        ),
{
    let start_ms = match parse_iso_to_ms(seg.start_at.as_str()) {
        Some(ms) => ms,
        None => return None,
    };
    let end_ms = match &seg.end_at {
        Some(e) => match parse_iso_to_ms(e.as_str()) {
            Some(ms) => ms,
            None => return None,
        },
        None => now_ms,
    };
    let r = slice_segment(seg, start_ms, end_ms, bounds.start_ms, bounds.end_ms);
    proof {
        if r is Some {
            assert(piece_of_day(
                seg@,
                now_ms,
                bounds.start_ms as int,
                start_ms as int,
                end_ms as int,
                r->0@,
            ));
        }
    }
    r
}

/// The part of a segment that falls on the local day `local_date`, with an
/// open segment taken to run until `now_ms` (see `split_in_day`).  `None`
/// when nothing of it falls on that day, when the day or a time of the
/// segment cannot be read, or when the segment ends before it starts.
/// Where the day starts is chrono's answer for the local time zone, and it
/// may have none: what is stated is that a part that comes back is the
/// segment cut to a day of 24 hours.
pub fn split_at_midnight(seg: &Segment, local_date: &str, now_ms: i64) -> (r: Option<Segment>)
    requires
        in_range(now_ms as int),
    ensures
        parse_ymd(local_date@) is None ==> r is None,
        r matches Some(out) ==> {
            &&& out@.id == seg@.id
            &&& out@.process_name == seg@.process_name
            &&& out@.title == seg@.title
            &&& out@.note == seg@.note
            &&& out@.todo_id == seg@.todo_id
            &&& out@.kind == seg@.kind
            &&& out@.end_at is Some
        },
        r matches Some(out) ==> exists|day_start: int, start: int, end: int|
            #[trigger] piece_of_day(seg@, now_ms, day_start, start, end, out@),
        unreadable(seg.start_at@) ==> r is None,
        seg@.end_at matches Some(t) && unreadable(t) ==> r is None,
        ends_before_start(seg@, now_ms) ==> r is None,
{
    let bounds = match day_bounds(local_date) {
        Some(b) => b,
        None => return None,
    };
    let r = split_in_day(seg, &bounds, now_ms);
    proof {
        if r is Some {
            let (start, end) = choose|start: int, end: int|
                #[trigger] piece_of_day(seg@, now_ms, bounds.start_ms as int, start, end, r->0@);
            assert(piece_of_day(seg@, now_ms, bounds.start_ms as int, start, end, r->0@));
        }
    }
    r
}

/// A segment that crosses the midnight between two consecutive days is
/// tiled by its two parts: on the first day from its start to midnight, on
/// the second from midnight to its end (see `split_in_day`, whose parts of
/// RFC 3339 times are these `slice_view`s).
pub proof fn lemma_parts_tile_at_midnight(seg: Segment, first_day: int, start: i64, end: i64)
    requires
        first_day <= start < first_day + DAY_MS < end <= first_day + 2 * DAY_MS,
    ensures
        slice_view(seg, Some((start, end)), first_day, first_day + DAY_MS) == Some(
            SegmentView {
                start_at: iso_utc_millis(start as int),
                end_at: Some(iso_utc_millis(first_day + DAY_MS)),
                ..seg@
            },
        ),
        slice_view(seg, Some((start, end)), first_day + DAY_MS, first_day + 2 * DAY_MS) == Some(
            SegmentView {
                start_at: iso_utc_millis(first_day + DAY_MS),
                end_at: Some(iso_utc_millis(end as int)),
                ..seg@
            },
        ),
{
}

/// A longer run of digits never has a smaller value.
proof fn lemma_digits_value_grows(s: Seq<char>, k: int)
    requires
        0 <= k <= s.len(),
        forall|i: int| 0 <= i < s.len() ==> is_digit(s[i]),
    ensures
        digits_value(s.subrange(0, k)) <= digits_value(s),
        0 <= digits_value(s.subrange(0, k)),
    decreases s.len(),
{
    if s.len() > 0 {
        if k == s.len() {
            assert(s.subrange(0, k) =~= s);
            lemma_digits_value_grows(s.drop_last(), k - 1);
            assert(s.drop_last().subrange(0, k - 1) =~= s.drop_last());
        } else {
            lemma_digits_value_grows(s.drop_last(), k);
            assert(s.drop_last().subrange(0, k) =~= s.subrange(0, k));
            lemma_digits_value_grows(s.drop_last(), s.len() - 1);
            assert(s.drop_last().subrange(0, s.len() - 1) =~= s.drop_last());
        }
    }
}

} // verus!
