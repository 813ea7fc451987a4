use vstd::prelude::*;
use vstd::string::StrSliceExecFns;

use crate::text::digit_val;
use crate::text::is_digit;

verus! {

/// Every local timestamp a data row can carry is at least this many
/// seconds from the Unix epoch (midnight of year 0).
pub const MIN_LOCAL_SECS: i64 = -62167219200;

/// ... and at most this many (a loose bound above the end of year 9999).
pub const MAX_LOCAL_SECS: i64 = 260000000000;

/// A leap year of the proleptic Gregorian calendar.
pub open spec fn is_leap_year(y: int) -> bool {
    (y % 4 == 0 && y % 100 != 0) || y % 400 == 0
}

/// Days in year `y`.
pub open spec fn days_in_year(y: int) -> int {
    if is_leap_year(y) {
        366
    } else {
        365
    }
}

/// Days from the start of year 0 to the start of year `y`.
pub open spec fn days_before_year(y: int) -> int
    decreases y,
{
    if y <= 0 {
        0
    } else {
        days_before_year(y - 1) + days_in_year(y - 1)
    }
}

/// Days in month `m` of year `y`.
pub open spec fn days_in_month(y: int, m: int) -> int {
    if m == 2 {
        if is_leap_year(y) {
            29
        } else {
            28
        }
    } else if m == 4 || m == 6 || m == 9 || m == 11 {
        30
    } else {
        31
    }
}

/// Days from the start of year `y` to the start of its month `m`.
pub open spec fn days_before_month(y: int, m: int) -> int
    decreases m,
{
    if m <= 1 {
        0
    } else {
        days_before_month(y, m - 1) + days_in_month(y, m - 1)
    }
}

/// Days from the start of year 0 to the Unix epoch, 1970-01-01.
pub open spec fn epoch_days() -> int {
    719528
}

/// The naive timestamp of a wall-clock date and time: seconds since the
/// Unix epoch, with no timezone applied.
pub open spec fn naive_seconds(y: int, m: int, d: int, h: int, mi: int) -> int {
    (days_before_year(y) + days_before_month(y, m) + d - 1 - epoch_days()) * 86400 + h * 3600 + mi
        * 60
}

/// A calendar date and time the file format can express: a four-digit
/// year, a real month and day, and a time of day.
pub open spec fn valid_civil(y: int, m: int, d: int, h: int, mi: int) -> bool {
    0 <= y <= 9999 && 1 <= m <= 12 && 1 <= d <= days_in_month(y, m) && 0 <= h <= 23 && 0 <= mi
        <= 59
}

/// A year's days lie between 365 and 366 times its count.
pub proof fn lemma_days_before_year_bounds(y: int)
    requires
        0 <= y,
    ensures
        365 * y <= days_before_year(y) <= 366 * y,
    decreases y,
{
    if y > 0 {
        lemma_days_before_year_bounds(y - 1);
    }
}

/// A month prefix holds at most 31 days per month.
pub proof fn lemma_days_before_month_bounds(y: int, m: int)
    requires
        1 <= m <= 13,
    ensures
        0 <= days_before_month(y, m) <= 31 * (m - 1),
    decreases m,
{
    if m > 1 {
        lemma_days_before_month_bounds(y, m - 1);
    }
}

/// Is `y` a leap year?
pub fn leap_year(y: u32) -> (r: bool)
    ensures
        r == is_leap_year(y as int),
{
    (y % 4 == 0 && y % 100 != 0) || y % 400 == 0
}

/// Days from the start of year 0 to the start of year `y`.
fn days_before_year_num(y: u32) -> (r: u32)
    requires
        y <= 9999,
    ensures
        r == days_before_year(y as int),
{
    let mut acc: u32 = 0;
    let mut i: u32 = 0;
    while i < y
        invariant
            i <= y <= 9999,
            acc == days_before_year(i as int),
            acc <= 366 * i,
        decreases y - i,
    {
        proof {
            lemma_days_before_year_bounds(i as int);
        }
        acc = acc + (if leap_year(i) {
            366
        } else {
            365
        });
        i += 1;
    }
    acc
}

/// Days in month `m` of year `y`.
pub fn month_length(y: u32, m: u32) -> (r: u32)
    requires
        1 <= m <= 12,
    ensures
        r == days_in_month(y as int, m as int),
        28 <= r <= 31,
{
    if m == 2 {
        if leap_year(y) {
            29
        } else {
            28
        }
    } else if m == 4 || m == 6 || m == 9 || m == 11 {
        30
    } else {
        31
    }
}

/// Days from the start of year `y` to the start of its month `m`.
fn days_before_month_num(y: u32, m: u32) -> (r: u32)
    requires
        1 <= m <= 12,
    ensures
        r == days_before_month(y as int, m as int),
{
    let mut acc: u32 = 0;
    let mut i: u32 = 1;
    while i < m
        invariant
            1 <= i <= m <= 12,
            acc == days_before_month(y as int, i as int),
            acc <= 31 * (i - 1),
        decreases m - i,
    {
        proof {
            lemma_days_before_month_bounds(y as int, i as int);
        }
        acc = acc + month_length(y, i);
        i += 1;
    }
    acc
}

/// The naive timestamp of a valid wall-clock date and time.
pub fn civil_to_seconds(y: u32, m: u32, d: u32, h: u32, mi: u32) -> (r: i64)
    requires
        valid_civil(y as int, m as int, d as int, h as int, mi as int),
    ensures
        r == naive_seconds(y as int, m as int, d as int, h as int, mi as int),
        MIN_LOCAL_SECS <= r <= MAX_LOCAL_SECS,
{
    proof {
        lemma_days_before_year_bounds(y as int);
        lemma_days_before_month_bounds(y as int, m as int);
    }
    let days = days_before_year_num(y) + days_before_month_num(y, m) + d - 1;
    (days as i64 - 719528) * 86400 + (h as i64) * 3600 + (mi as i64) * 60
}

/// A text of the exact pattern `YYYY-MM-DD HH:MM`, all fields digits.
pub open spec fn date_shape(s: Seq<char>) -> bool {
    s.len() == 16 && is_digit(s[0]) && is_digit(s[1]) && is_digit(s[2]) && is_digit(s[3]) && s[4]
        == '-' && is_digit(s[5]) && is_digit(s[6]) && s[7] == '-' && is_digit(s[8]) && is_digit(
        s[9],
    ) && s[10] == ' ' && is_digit(s[11]) && is_digit(s[12]) && s[13] == ':' && is_digit(s[14])
        && is_digit(s[15])
}

/// The year a well-shaped date text names, and so on below.
pub open spec fn year_of(s: Seq<char>) -> int {
    digit_val(s[0]) * 1000 + digit_val(s[1]) * 100 + digit_val(s[2]) * 10 + digit_val(s[3])
}

pub open spec fn month_of(s: Seq<char>) -> int {
    digit_val(s[5]) * 10 + digit_val(s[6])
}

pub open spec fn day_of(s: Seq<char>) -> int {
    digit_val(s[8]) * 10 + digit_val(s[9])
}

pub open spec fn hour_of(s: Seq<char>) -> int {
    digit_val(s[11]) * 10 + digit_val(s[12])
}

pub open spec fn minute_of(s: Seq<char>) -> int {
    digit_val(s[14]) * 10 + digit_val(s[15])
}

/// What a date field means: the naive timestamp of the named wall-clock
/// time, or nothing when the text is not of the pattern or names no real
/// calendar time.
pub open spec fn spec_parse_date(s: Seq<char>) -> Option<int> {
    if date_shape(s) && valid_civil(year_of(s), month_of(s), day_of(s), hour_of(s), minute_of(s)) {
        Some(naive_seconds(year_of(s), month_of(s), day_of(s), hour_of(s), minute_of(s)))
    } else {
        None
    }
}

/// The numeric value of a digit character.
fn dval(c: char) -> (r: u32)
    requires
        is_digit(c),
    ensures
        r == digit_val(c),
        r <= 9,
{
    (c as u32) - 48
}

/// Read a digit at `i`, or report that the shape is broken.
fn digit_at(s: &str, i: usize) -> (r: Option<u32>)
    requires
        i < s@.len(),
    ensures
        r matches Some(v) ==> is_digit(s@[i as int]) && v == digit_val(s@[i as int]) && v <= 9,
        r is None ==> !is_digit(s@[i as int]),
{
    let c = s.get_char(i);
    let u = c as u32;
    if 48 <= u && u <= 57 {
        Some(u - 48)
    } else {
        None
    }
}

/// Parse a date field of the fixed pattern `YYYY-MM-DD HH:MM` into its
/// naive timestamp; `None` when the text is malformed.
pub fn parse_date(s: &str) -> (r: Option<i64>)
    ensures
        r is Some <==> spec_parse_date(s@) is Some,
        r matches Some(t) ==> spec_parse_date(s@) == Some(t as int) && MIN_LOCAL_SECS <= t
            <= MAX_LOCAL_SECS,
{
    let n = s.unicode_len();
    if n != 16 {
        return None;
    }
    if !(s.get_char(4) == '-' && s.get_char(7) == '-' && s.get_char(10) == ' ' && s.get_char(13)
        == ':') {
        return None;
    }
    let (d0, d1, d2, d3) = match (digit_at(s, 0), digit_at(s, 1), digit_at(s, 2), digit_at(s, 3)) {
        (Some(a), Some(b), Some(c), Some(d)) => (a, b, c, d),
        _ => { return None },
    };
    let (m0, m1) = match (digit_at(s, 5), digit_at(s, 6)) {
        (Some(a), Some(b)) => (a, b),
        _ => { return None },
    };
    let (dd0, dd1) = match (digit_at(s, 8), digit_at(s, 9)) {
        (Some(a), Some(b)) => (a, b),
        _ => { return None },
    };
    let (h0, h1) = match (digit_at(s, 11), digit_at(s, 12)) {
        (Some(a), Some(b)) => (a, b),
        _ => { return None },
    };
    let (mi0, mi1) = match (digit_at(s, 14), digit_at(s, 15)) {
        (Some(a), Some(b)) => (a, b),
        _ => { return None },
    };
    let y = d0 * 1000 + d1 * 100 + d2 * 10 + d3;
    let m = m0 * 10 + m1;
    let d = dd0 * 10 + dd1;
    let h = h0 * 10 + h1;
    let mi = mi0 * 10 + mi1;
    if !(1 <= m && m <= 12) {
        return None;
    }
    if !(1 <= d && d <= month_length(y, m)) {
        return None;
    }
    if !(h <= 23 && mi <= 59) {
        return None;
    }
    Some(civil_to_seconds(y, m, d, h, mi))
}

} // verus!
