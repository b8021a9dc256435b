//! Calendar and time helpers for the booking engine.
//!
//! The venue is in Iceland, which is permanently UTC+0 with no daylight
//! saving, so every calendar computation is done in UTC. Instants are integer
//! epoch-milliseconds (`i64`). Civil dates use the proleptic Gregorian
//! calendar through the `days_from_civil` / `civil_from_days` day-number
//! algorithm; both directions of the round trip are proved below.

use vstd::prelude::*;
use vstd::arithmetic::div_mod::{lemma_fundamental_div_mod, lemma_fundamental_div_mod_converse};
use crate::text::{
    byte_len, lemma_byte_len_push, prefix_join, truncate_bytes, utf8_len, append_chars, chars_of, find, find2, find2_chars, find_char, is_digit, parse_i64,
    parse_i64_spec, slice_chars, string_of, strip_trailing, strip_trailing_chars, trim,
    trim_chars, zero_pad, zero_pad_chars,
};

verus! {

/// Milliseconds in one hour.
pub const HOUR_MS: i64 = 3_600_000;

/// Milliseconds in one calendar day (civil days are exactly 24 hours here).
pub const DAY_MS: i64 = 86_400_000;

// ---------------------------------------------------------------------------
// The mathematical calendar
// ---------------------------------------------------------------------------

/// Integer division rounding toward zero, as Rust's `/` does.
pub open spec fn tdiv(a: int, b: int) -> int {
    if a >= 0 {
        a / b
    } else {
        -((-a) / b)
    }
}

/// Days since 1970-01-01 of the civil date `(y, m, d)`.
pub open spec fn days_from_civil_spec(y: int, m: int, d: int) -> int {
    let y1 = if m <= 2 { y - 1 } else { y };
    let era = y1 / 400;
    let yoe = y1 - era * 400;
    let mp = if m > 2 { m - 3 } else { m + 9 };
    let doy = tdiv(153 * mp + 2, 5) + d - 1;
    let doe = yoe * 365 + yoe / 4 - yoe / 100 + doy;
    era * 146097 + doe - 719468
}

/// The civil date `(year, month, day)` of day number `z` (days since 1970-01-01).
pub open spec fn civil_from_days_spec(z: int) -> (int, int, int) {
    let z1 = z + 719468;
    let era = z1 / 146097;
    let doe = z1 - era * 146097;
    let yoe = (doe - doe / 1460 + doe / 36524 - doe / 146096) / 365;
    let y = yoe + era * 400;
    let doy = doe - (365 * yoe + yoe / 4 - yoe / 100);
    let mp = (5 * doy + 2) / 153;
    let d = doy - (153 * mp + 2) / 5 + 1;
    let m = if mp < 10 { mp + 3 } else { mp - 9 };
    (if m <= 2 { y + 1 } else { y }, m, d)
}

/// Gregorian leap year.
pub open spec fn is_leap(y: int) -> bool {
    y % 4 == 0 && (y % 100 != 0 || y % 400 == 0)
}

/// Number of days in month `m` of year `y`.
pub open spec fn days_in_month(y: int, m: int) -> int {
    if m == 2 {
        if is_leap(y) {
            29
        } else {
            28
        }
    } else if m == 4 || m == 6 || m == 9 || m == 11 {
        30
    } else {
        31
    }
}

/// A real calendar date.
pub open spec fn valid_date(y: int, m: int, d: int) -> bool {
    1 <= m <= 12 && 1 <= d <= days_in_month(y, m)
}

/// The smallest and largest day numbers whose midnight is an `i64` instant.
pub open spec fn min_day() -> int {
    -106751991168
}

pub open spec fn max_day() -> int {
    106751991167
}

#[verifier::spinoff_prover]
#[verifier::rlimit(60)]
proof fn lemma_year_of_era(doe: int)
    requires
        0 <= doe <= 146096,
    ensures
        ({
            let yoe = (doe - doe / 1460 + doe / 36524 - doe / 146096) / 365;
            let doy = doe - (365 * yoe + yoe / 4 - yoe / 100);
            &&& 0 <= yoe <= 399
            &&& 0 <= doy <= 365
        }),
{
}

#[verifier::spinoff_prover]
#[verifier::rlimit(60)]
proof fn lemma_doe_inverse(yoe: int, doy: int)
    requires
        0 <= yoe <= 399,
        0 <= doy <= 365,
        doy == 365 ==> is_leap(yoe + 1),
    ensures
        ({
            let doe = yoe * 365 + yoe / 4 - yoe / 100 + doy;
            &&& 0 <= doe <= 146096
            &&& (doe - doe / 1460 + doe / 36524 - doe / 146096) / 365 == yoe
        }),
{
}

/// Every day number names a real date, and that date's day number is the
/// day number itself: `days_from_civil(civil_from_days(z)) == z`.
pub proof fn lemma_days_round_trip(z: int)
    ensures
        ({
            let (y, m, d) = civil_from_days_spec(z);
            &&& valid_date(y, m, d)
            &&& days_from_civil_spec(y, m, d) == z
        }),
{
    let z1 = z + 719468;
    let era = z1 / 146097;
    let doe = z1 - era * 146097;
    lemma_fundamental_div_mod(z1, 146097);
    lemma_year_of_era(doe);
    let yoe = (doe - doe / 1460 + doe / 36524 - doe / 146096) / 365;
    let y = yoe + era * 400;
    let (yy, m, d) = civil_from_days_spec(z);
    let y1 = if m <= 2 { yy - 1 } else { yy };
    assert(y1 == y);
    lemma_fundamental_div_mod_converse(y1, 400, era, yoe);
    assert((yoe + 1) % 4 == (y + 1) % 4 && (yoe + 1) % 100 == (y + 1) % 100 && (yoe + 1) % 400
        == (y + 1) % 400) by (nonlinear_arith)
        requires
            y == yoe + era * 400,
    ;
}

/// Every real date survives the trip through its day number:
/// `civil_from_days(days_from_civil(y, m, d)) == (y, m, d)`.
pub proof fn lemma_date_round_trip(y: int, m: int, d: int)
    requires
        valid_date(y, m, d),
    ensures
        civil_from_days_spec(days_from_civil_spec(y, m, d)) == (y, m, d),
{
    let y1 = if m <= 2 { y - 1 } else { y };
    let era = y1 / 400;
    let yoe = y1 - era * 400;
    let mp = if m > 2 { m - 3 } else { m + 9 };
    let doy = (153 * mp + 2) / 5 + d - 1;
    let doe = yoe * 365 + yoe / 4 - yoe / 100 + doy;
    lemma_fundamental_div_mod(y1, 400);
    assert((yoe + 1) % 4 == (y1 + 1) % 4 && (yoe + 1) % 100 == (y1 + 1) % 100 && (yoe + 1) % 400
        == (y1 + 1) % 400) by (nonlinear_arith)
        requires
            yoe == y1 - era * 400,
    ;
    assert(0 <= doy <= 365);
    assert(doy == 365 ==> is_leap(yoe + 1));
    lemma_doe_inverse(yoe, doy);
    lemma_fundamental_div_mod_converse(era * 146097 + doe, 146097, era, doe);
}

/// Day numbers of `i64` instants give years that fit comfortably in an `i64`.
proof fn lemma_civil_bounds(z: int)
    requires
        min_day() <= z <= max_day(),
    ensures
        ({
            let (y, m, d) = civil_from_days_spec(z);
            &&& -300000000 <= y <= 300000000
            &&& 1 <= m <= 12
            &&& 1 <= d <= 31
        }),
{
    lemma_days_round_trip(z);
    let z1 = z + 719468;
    lemma_fundamental_div_mod(z1, 146097);
    lemma_year_of_era(z1 - (z1 / 146097) * 146097);
}

// ---------------------------------------------------------------------------
// Executable day-number conversion
// ---------------------------------------------------------------------------

proof fn lemma_floor_neg(a: int, b: int)
    requires
        a < 0,
        b > 0,
    ensures
        a / b == -((-(a + 1)) / b) - 1,
{
    let x = -(a + 1);
    lemma_fundamental_div_mod(x, b);
    let q = x / b;
    let r = x % b;
    assert(a == (-q - 1) * b + (b - 1 - r)) by (nonlinear_arith)
        requires
            x == b * q + r,
            x == -(a + 1),
    ;
    lemma_fundamental_div_mod_converse(a, b, -q - 1, b - 1 - r);
}

proof fn lemma_div_shift(x: int, b: int)
    requires
        x >= 0,
        b > 0,
    ensures
        (x + b) / b == x / b + 1,
{
    lemma_fundamental_div_mod(x, b);
    assert(x + b == (x / b + 1) * b + x % b) by (nonlinear_arith)
        requires
            x == b * (x / b) + x % b,
    ;
    lemma_fundamental_div_mod_converse(x + b, b, x / b + 1, x % b);
}

/// `a.div_euclid(b)` for a positive divisor.
pub fn floor_div(a: i64, b: i64) -> (q: i64)
    requires
        b > 0,
    ensures
        q == a as int / b as int,
{
    if a >= 0 {
        a / b
    } else {
        proof {
            lemma_floor_neg(a as int, b as int);
        }
        -((-(a + 1)) / b) - 1
    }
}

/// The day number of a civil date (no range restriction on the fields).
fn days_from_civil(y: i64, m: i64, d: i64) -> (r: i128)
    ensures
        r == days_from_civil_spec(y as int, m as int, d as int),
{
    let y1: i128 = if m <= 2 {
        y as i128 - 1
    } else {
        y as i128
    };
    let era: i128 = if y1 >= 0 {
        y1 / 400
    } else {
        proof {
            lemma_floor_neg(y1 as int, 400);
            lemma_div_shift((-(y1 + 1)) as int, 400);
        }
        (y1 - 399) / 400
    };
    proof {
        lemma_fundamental_div_mod(y1 as int, 400);
    }
    let yoe: i128 = y1 - era * 400;
    let mp: i128 = if m > 2 {
        m as i128 - 3
    } else {
        m as i128 + 9
    };
    let doy: i128 = (153 * mp + 2) / 5 + d as i128 - 1;
    let doe: i128 = yoe * 365 + yoe / 4 - yoe / 100 + doy;
    era * 146097 + doe - 719468
}

/// The civil date of a day number within the `i64`-instant range.
fn civil_from_days(z: i64) -> (r: (i64, i64, i64))
    requires
        min_day() <= z <= max_day(),
    ensures
        r.0 as int == civil_from_days_spec(z as int).0,
        r.1 as int == civil_from_days_spec(z as int).1,
        r.2 as int == civil_from_days_spec(z as int).2,
{
    proof {
        lemma_civil_bounds(z as int);
        lemma_fundamental_div_mod(z as int + 719468, 146097);
        lemma_year_of_era(z as int + 719468 - ((z as int + 719468) / 146097) * 146097);
    }
    let z1: i64 = z + 719468;
    let era: i64 = floor_div(z1, 146097);
    let doe: i64 = z1 - era * 146097;
    let yoe: i64 = (doe - doe / 1460 + doe / 36524 - doe / 146096) / 365;
    let y: i64 = yoe + era * 400;
    let doy: i64 = doe - (365 * yoe + yoe / 4 - yoe / 100);
    let mp: i64 = (5 * doy + 2) / 153;
    let d: i64 = doy - (153 * mp + 2) / 5 + 1;
    let m: i64 = if mp < 10 {
        mp + 3
    } else {
        mp - 9
    };
    (if m <= 2 {
        y + 1
    } else {
        y
    }, m, d)
}

// ---------------------------------------------------------------------------
// Civil instants
// ---------------------------------------------------------------------------

/// A civil instant decomposed in UTC.
#[derive(Debug, Clone, Copy, PartialEq, Eq, Structural)]
pub struct Civil {
    pub year: i64,
    pub month: i64,
    pub day: i64,
    pub hour: i64,
    pub minute: i64,
    pub second: i64,
    pub milli: i64,
}

/// The UTC civil parts of instant `ms`.
pub open spec fn to_civil_spec(ms: i64) -> Civil {
    let days = ms as int / DAY_MS as int;
    let rem = ms as int % DAY_MS as int;
    let (y, m, d) = civil_from_days_spec(days);
    Civil {
        year: y as i64,
        month: m as i64,
        day: d as i64,
        hour: (rem / HOUR_MS as int) as i64,
        minute: ((rem % HOUR_MS as int) / 60000) as i64,
        second: ((rem % 60000) / 1000) as i64,
        milli: (rem % 1000) as i64,
    }
}

/// The instant (epoch-ms) that civil parts `c` denote, as an integer.
pub open spec fn civil_value(c: Civil) -> int {
    days_from_civil_spec(c.year as int, c.month as int, c.day as int) * DAY_MS + c.hour * HOUR_MS
        + c.minute * 60000 + c.second * 1000 + c.milli
}

/// Civil parts in their usual ranges, naming a real date.
pub open spec fn valid_civil(c: Civil) -> bool {
    &&& valid_date(c.year as int, c.month as int, c.day as int)
    &&& 0 <= c.hour <= 23
    &&& 0 <= c.minute <= 59
    &&& 0 <= c.second <= 59
    &&& 0 <= c.milli <= 999
}

proof fn lemma_to_civil_fields(ms: i64)
    ensures
        ({
            let days = ms as int / DAY_MS as int;
            let rem = ms as int % DAY_MS as int;
            let (y, m, d) = civil_from_days_spec(days);
            let c = to_civil_spec(ms);
            &&& min_day() <= days <= max_day()
            &&& 0 <= rem < DAY_MS
            &&& ms == days * DAY_MS + rem
            &&& c.year == y && c.month == m && c.day == d
            &&& c.hour == rem / HOUR_MS as int
            &&& c.minute == (rem % HOUR_MS as int) / 60000
            &&& c.second == (rem % 60000) / 1000
            &&& c.milli == rem % 1000
            &&& 0 <= c.hour <= 23 && 0 <= c.minute <= 59 && 0 <= c.second <= 59
            &&& 0 <= c.milli <= 999
        }),
{
    lemma_fundamental_div_mod(ms as int, DAY_MS as int);
    let days = ms as int / DAY_MS as int;
    lemma_civil_bounds(days);
}

/// Decompose an epoch-ms instant into its UTC civil parts.
pub fn to_civil(ms: i64) -> (c: Civil)
    ensures
        c == to_civil_spec(ms),
        valid_civil(c),
{
    proof {
        lemma_to_civil_fields(ms);
        lemma_days_round_trip(ms as int / DAY_MS as int);
    }
    let days = floor_div(ms, DAY_MS);
    let rem: i64 = (ms as i128 - days as i128 * DAY_MS as i128) as i64;
    let (year, month, day) = civil_from_days(days);
    Civil {
        year,
        month,
        day,
        hour: rem / HOUR_MS,
        minute: (rem % HOUR_MS) / 60000,
        second: (rem % 60000) / 1000,
        milli: rem % 1000,
    }
}

/// Build an epoch-ms instant from UTC civil parts. The parts need not be in
/// their usual ranges (a 13th month rolls into the next year, and so on);
/// only the resulting instant must be an `i64`.
pub fn from_civil(c: Civil) -> (ms: i64)
    requires
        i64::MIN <= civil_value(c) <= i64::MAX,
    ensures
        ms == civil_value(c),
{
    let days = days_from_civil(c.year, c.month, c.day);
    let total: i128 = days * (DAY_MS as i128) + (c.hour as i128) * (HOUR_MS as i128) + (
    c.minute as i128) * 60000 + (c.second as i128) * 1000 + (c.milli as i128);
    total as i64
}

/// Every instant is recovered from its civil parts:
/// `from_civil(to_civil(ms)) == ms`.
pub proof fn lemma_instant_round_trip(ms: i64)
    ensures
        civil_value(to_civil_spec(ms)) == ms,
{
    lemma_to_civil_fields(ms);
    let days = ms as int / DAY_MS as int;
    let rem = ms as int % DAY_MS as int;
    lemma_days_round_trip(days);
    lemma_fundamental_div_mod(rem, HOUR_MS as int);
    lemma_fundamental_div_mod(rem % HOUR_MS as int, 60000);
    lemma_fundamental_div_mod(rem, 60000);
    lemma_fundamental_div_mod(rem % 60000, 1000);
    lemma_fundamental_div_mod(rem, 1000);
    let h = rem / HOUR_MS as int;
    let r1 = rem % HOUR_MS as int;
    let q1 = r1 / 60000;
    lemma_fundamental_div_mod_converse(rem, 60000, h * 60 + q1, r1 % 60000);
    let r2 = rem % 60000;
    let q2 = r2 / 1000;
    lemma_fundamental_div_mod_converse(rem, 1000, (h * 60 + q1) * 60 + q2, r2 % 1000);
}

/// Every valid civil instant is recovered from its epoch-ms value:
/// `to_civil(from_civil(c)) == c`.
pub proof fn lemma_civil_round_trip(c: Civil)
    requires
        valid_civil(c),
        i64::MIN <= civil_value(c) <= i64::MAX,
    ensures
        to_civil_spec(civil_value(c) as i64) == c,
{
    let z = days_from_civil_spec(c.year as int, c.month as int, c.day as int);
    let rem = c.hour * HOUR_MS + c.minute * 60000 + c.second * 1000 + c.milli;
    let ms = civil_value(c);
    assert(0 <= rem < DAY_MS);
    lemma_fundamental_div_mod_converse(ms, DAY_MS as int, z, rem);
    lemma_date_round_trip(c.year as int, c.month as int, c.day as int);
    lemma_fundamental_div_mod_converse(rem, HOUR_MS as int, c.hour as int, c.minute * 60000
        + c.second * 1000 + c.milli);
    let r1 = c.minute * 60000 + c.second * 1000 + c.milli;
    lemma_fundamental_div_mod_converse(r1, 60000, c.minute as int, c.second * 1000 + c.milli);
    lemma_fundamental_div_mod_converse(rem, 60000, c.hour * 60 + c.minute, c.second * 1000
        + c.milli);
    lemma_fundamental_div_mod_converse(c.second * 1000 + c.milli, 1000, c.second as int,
        c.milli as int);
    lemma_fundamental_div_mod_converse(rem, 1000, (c.hour * 60 + c.minute) * 60 + c.second,
        c.milli as int);
}

// ---------------------------------------------------------------------------
// Day arithmetic
// ---------------------------------------------------------------------------

/// Midnight (00:00:00.000 UTC) of the calendar day containing `ms`.
pub open spec fn day_start_spec(ms: int) -> int {
    (ms / DAY_MS as int) * DAY_MS
}

/// A whole number of days after a day start is itself a day start.
pub proof fn lemma_day_start_of_day_start(s: int, i: int)
    ensures
        day_start_spec(day_start_spec(s) + i * DAY_MS) == day_start_spec(s) + i * DAY_MS,
{
    let q = s / DAY_MS as int;
    assert(day_start_spec(s) + i * DAY_MS == DAY_MS * (q + i)) by (nonlinear_arith)
        requires
            day_start_spec(s) == q * DAY_MS,
    ;
    vstd::arithmetic::div_mod::lemma_div_multiples_vanish(q + i, DAY_MS as int);
}

/// Floor `ms` to 00:00:00.000 UTC of its calendar day.
pub fn day_start(ms: i64) -> (r: i64)
    requires
        i64::MIN <= day_start_spec(ms as int),
    ensures
        r == day_start_spec(ms as int),
        r <= ms < r + DAY_MS,
{
    proof {
        lemma_fundamental_div_mod(ms as int, DAY_MS as int);
    }
    floor_div(ms, DAY_MS) * DAY_MS
}

/// The hour of day (0..=23) of `ms`, in UTC.
pub fn hour_of(ms: i64) -> (r: i64)
    ensures
        r == (ms as int % DAY_MS as int) / HOUR_MS as int,
        0 <= r <= 23,
{
    proof {
        lemma_fundamental_div_mod(ms as int, DAY_MS as int);
    }
    let d = floor_div(ms, DAY_MS);
    assert(d * DAY_MS == ms - ms as int % DAY_MS as int);
    let rem: i64 = (ms as i128 - d as i128 * DAY_MS as i128) as i64;
    rem / HOUR_MS
}

/// Add `n` calendar days to `ms`.
pub fn add_days(ms: i64, n: i64) -> (r: i64)
    requires
        i64::MIN <= n * DAY_MS <= i64::MAX,
        i64::MIN <= ms + n * DAY_MS <= i64::MAX,
    ensures
        r == ms + n * DAY_MS,
{
    ms + n * DAY_MS
}

/// Day-of-week index of `ms`, `0 = Sunday .. 6 = Saturday`. The Unix epoch
/// (1970-01-01) was a Thursday, hence the `+ 4`.
pub fn weekday_index(ms: i64) -> (r: usize)
    ensures
        r == ((ms as int / DAY_MS as int) % 7 + 4) % 7,
        r < 7,
{
    let d = floor_div(ms, DAY_MS);
    proof {
        lemma_fundamental_div_mod(d as int, 7);
    }
    let w: i64 = d - floor_div(d, 7) * 7;
    ((w as usize) + 4) % 7
}

// ---------------------------------------------------------------------------
// Formatting
// ---------------------------------------------------------------------------

/// `YYYY-MM-DD` of the UTC day containing `ms`.
pub open spec fn date_str(ms: i64) -> Seq<char> {
    let c = to_civil_spec(ms);
    zero_pad(c.year as int, 4) + seq!['-'] + zero_pad(c.month as int, 2) + seq!['-'] + zero_pad(
        c.day as int,
        2,
    )
}

/// `YYYY-MM-DDTHH:MM:SS.mmmZ` of `ms`, as `Date.toISOString()` writes it.
pub open spec fn iso_str(ms: i64) -> Seq<char> {
    let c = to_civil_spec(ms);
    date_str(ms) + seq!['T'] + zero_pad(c.hour as int, 2) + seq![':'] + zero_pad(
        c.minute as int,
        2,
    ) + seq![':'] + zero_pad(c.second as int, 2) + seq!['.'] + zero_pad(c.milli as int, 3)
        + seq!['Z']
}

fn date_chars(ms: i64) -> (v: Vec<char>)
    ensures
        v@ == date_str(ms),
{
    let c = to_civil(ms);
    let mut v = zero_pad_chars(c.year, 4);
    v.push('-');
    let m = zero_pad_chars(c.month, 2);
    append_chars(&mut v, &m);
    v.push('-');
    let d = zero_pad_chars(c.day, 2);
    append_chars(&mut v, &d);
    v
}

/// Format `ms` as `YYYY-MM-DD` (UTC).
pub fn date_string(ms: i64) -> (s: String)
    ensures
        s@ == date_str(ms),
{
    let v = date_chars(ms);
    string_of(&v)
}

/// Format `ms` as a UTC ISO-8601 string `YYYY-MM-DDTHH:MM:SS.mmmZ`, the
/// canonical slot key clients receive and post back.
pub fn iso_string(ms: i64) -> (s: String)
    ensures
        s@ == iso_str(ms),
{
    let c = to_civil(ms);
    let mut v = date_chars(ms);
    v.push('T');
    let h = zero_pad_chars(c.hour, 2);
    append_chars(&mut v, &h);
    v.push(':');
    let mi = zero_pad_chars(c.minute, 2);
    append_chars(&mut v, &mi);
    v.push(':');
    let se = zero_pad_chars(c.second, 2);
    append_chars(&mut v, &se);
    v.push('.');
    let ml = zero_pad_chars(c.milli, 3);
    append_chars(&mut v, &ml);
    v.push('Z');
    string_of(&v)
}

// ---------------------------------------------------------------------------
// Parsing
// ---------------------------------------------------------------------------

/// An `Option<i64>` read as an optional integer.
pub open spec fn opt_int(r: Option<i64>) -> Option<int> {
    match r {
        Some(v) => Some(v as int),
        None => None,
    }
}

/// The `(year, month, day)` fields of a `YYYY-MM-DD` string, if it is one:
/// after trimming, three `-`-separated integers (the third part keeps any
/// further `-`), with the month in 1..=12 and the day in 1..=31.
pub open spec fn date_fields(s: Seq<char>) -> Option<(int, int, int)> {
    let t = trim(s);
    match find(t, '-') {
        None => None,
        Some(i) => {
            let rest = t.subrange(i + 1, t.len() as int);
            match find(rest, '-') {
                None => None,
                Some(j) => match (
                    parse_i64_spec(t.subrange(0, i)),
                    parse_i64_spec(rest.subrange(0, j)),
                    parse_i64_spec(rest.subrange(j + 1, rest.len() as int)),
                ) {
                    (Some(y), Some(m), Some(d)) => if 1 <= m <= 12 && 1 <= d <= 31 {
                        Some((y as int, m as int, d as int))
                    } else {
                        None
                    },
                    _ => None,
                },
            }
        },
    }
}

/// Midnight of the date with fields `f`, in epoch-ms.
pub open spec fn date_ms(f: (int, int, int)) -> int {
    days_from_civil_spec(f.0, f.1, f.2) * DAY_MS
}

/// The date `s` names, if any, lies within the `i64` instant range.
pub open spec fn date_in_range(s: Seq<char>) -> bool {
    match date_fields(s) {
        Some(f) => i64::MIN <= date_ms(f) <= i64::MAX,
        None => true,
    }
}

/// What `parse_date` returns for `s`.
pub open spec fn parse_date_spec(s: Seq<char>) -> Option<int> {
    match date_fields(s) {
        Some(f) => Some(date_ms(f)),
        None => None,
    }
}

fn date_fields_exec(v: &Vec<char>) -> (r: Option<(i64, i64, i64)>)
    ensures
        match r {
            Some((y, m, d)) => date_fields(v@) == Some((y as int, m as int, d as int)),
            None => date_fields(v@) is None,
        },
{
    let t = trim_chars(v);
    let i = match find_char(&t, '-') {
        Some(i) => i,
        None => return None,
    };
    let rest = slice_chars(&t, i + 1, t.len());
    let j = match find_char(&rest, '-') {
        Some(j) => j,
        None => return None,
    };
    let p1 = slice_chars(&t, 0, i);
    let p2 = slice_chars(&rest, 0, j);
    let p3 = slice_chars(&rest, j + 1, rest.len());
    let y = parse_i64(&p1);
    let m = parse_i64(&p2);
    let d = parse_i64(&p3);
    match (y, m, d) {
        (Some(y), Some(m), Some(d)) => {
            if 1 <= m && m <= 12 && 1 <= d && d <= 31 {
                Some((y, m, d))
            } else {
                None
            }
        },
        _ => None,
    }
}

fn parse_date_chars(v: &Vec<char>) -> (r: Option<i64>)
    requires
        date_in_range(v@),
    ensures
        opt_int(r) == parse_date_spec(v@),
{
    match date_fields_exec(v) {
        Some((y, m, d)) => Some(
            from_civil(Civil { year: y, month: m, day: d, hour: 0, minute: 0, second: 0, milli: 0 }),
        ),
        None => None,
    }
}

/// Parse a date-only `YYYY-MM-DD` string to the day-start epoch-ms (UTC).
pub fn parse_date(s: &str) -> (r: Option<i64>)
    requires
        date_in_range(s@),
    ensures
        opt_int(r) == parse_date_spec(s@),
{
    let v = chars_of(s);
    parse_date_chars(&v)
}

/// `y-m-d` written the way `date_string` writes it: four-digit year,
/// two-digit month and day.
pub open spec fn date_text(y: int, m: int, d: int) -> Seq<char> {
    zero_pad(y, 4) + seq!['-'] + zero_pad(m, 2) + seq!['-'] + zero_pad(d, 2)
}

proof fn lemma_date_text_parts(y: int, m: int, d: int)
    requires
        0 <= y <= 9999,
        0 <= m <= 99,
        0 <= d <= 99,
    ensures
        date_fields(date_text(y, m, d)) == if 1 <= m <= 12 && 1 <= d <= 31 {
            Some((y, m, d))
        } else {
            None
        },
        date_text(y, m, d).len() == 10,
        trim(date_text(y, m, d)) == date_text(y, m, d),
        date_text(y, m, d)[4] == '-',
        forall|j: int| 0 <= j < 10 ==> (is_digit(#[trigger] date_text(y, m, d)[j]) || date_text(y, m, d)[j] == '-'),
{
    crate::text::lemma_nat_digits(y as nat);
    crate::text::lemma_nat_digits(m as nat);
    crate::text::lemma_nat_digits(d as nat);
    crate::text::lemma_zero_pad_digits(y as nat, 4);
    crate::text::lemma_zero_pad_digits(m as nat, 2);
    crate::text::lemma_zero_pad_digits(d as nat, 2);
    let a = zero_pad(y, 4);
    let b = zero_pad(m, 2);
    let c = zero_pad(d, 2);
    let t = date_text(y, m, d);
    assert(t.len() == 10);
    assert(t[0] == a[0] && is_digit(a[0]));
    assert(t[9] == c[1] && is_digit(c[1]));
    assert(!crate::text::is_ws(t[0]));
    assert(!crate::text::is_ws(t.last()));
    assert(crate::text::trim_start(t) == t);
    assert(crate::text::trim_end(t) == t);
    assert forall|j: int| 0 <= j < 4 implies t[j] != '-' && t[j] != '-' by {
        assert(t[j] == a[j] && is_digit(a[j]));
    }
    crate::text::lemma_find2_unique(t, '-', '-', 4);
    let rest = t.subrange(5, 10);
    assert(rest =~= b + seq!['-'] + c);
    assert forall|j: int| 0 <= j < 2 implies rest[j] != '-' && rest[j] != '-' by {
        assert(rest[j] == b[j] && is_digit(b[j]));
    }
    crate::text::lemma_find2_unique(rest, '-', '-', 2);
    assert(t.subrange(0, 4) =~= a);
    assert(rest.subrange(0, 2) =~= b);
    assert(rest.subrange(3, 5) =~= c);
    assert(is_digit(a[0]) && is_digit(b[0]) && is_digit(c[0]));
    assert(crate::text::parse_int(a, true) == Some(y));
    assert(crate::text::parse_int(b, true) == Some(m));
    assert(crate::text::parse_int(c, true) == Some(d));
    assert forall|j: int| 0 <= j < 10 implies (is_digit(#[trigger] t[j]) || t[j] == '-') by {
        if j < 4 {
            assert(t[j] == a[j]);
        } else if 5 <= j < 7 {
            assert(t[j] == b[j - 5]);
        } else if 8 <= j < 10 {
            assert(t[j] == c[j - 8]);
        }
    }
}

/// `parse_date` of zero-padded `YYYY-MM-DD` text, with any whitespace
/// around it and any two-digit month and day: the date's midnight when the
/// month is in 1..=12 and the day in 1..=31, and no date otherwise (as for
/// `2026-13-01`).
pub proof fn lemma_parse_date_text(s: Seq<char>, y: int, m: int, d: int)
    requires
        trim(s) == date_text(y, m, d),
        0 <= y <= 9999,
        0 <= m <= 99,
        0 <= d <= 99,
    ensures
        parse_date_spec(s) == if 1 <= m <= 12 && 1 <= d <= 31 {
            Some(days_from_civil_spec(y, m, d) * DAY_MS)
        } else {
            None
        },
{
    lemma_date_text_parts(y, m, d);
}

/// `parse_date` answers only for text that, trimmed, is three integers
/// separated by `-` with the month in 1..=12 and the day in 1..=31: the
/// midnight of that date. Text with no `-`, with a part that is not an
/// integer, or with the month or day out of range gives no date.
pub proof fn lemma_parse_date_refusals(s: Seq<char>)
    ensures
        parse_date_spec(s) is Some <==> date_fields(s) is Some,
        date_fields(s) matches Some((y, m, d)) ==> {
            &&& 1 <= m <= 12
            &&& 1 <= d <= 31
            &&& parse_date_spec(s) == Some(days_from_civil_spec(y, m, d) * DAY_MS)
        },
        find(trim(s), '-') is None ==> parse_date_spec(s) is None,
        date_fields(s) is Some ==> ({
            let t = trim(s);
            let i = find(t, '-')->0;
            let rest = t.subrange(i + 1, t.len() as int);
            let j = find(rest, '-')->0;
            &&& parse_i64_spec(t.subrange(0, i)) is Some
            &&& parse_i64_spec(rest.subrange(0, j)) is Some
            &&& parse_i64_spec(rest.subrange(j + 1, rest.len() as int)) is Some
        }),
{
}

/// A date written `YYYY-MM-DD` (zero-padded, a real date in years
/// 0..=9999) reads back as its midnight, that midnight is a day start, and
/// `date_string` writes it back the same way.
pub proof fn lemma_parse_date_round_trip(y: int, m: int, d: int)
    requires
        0 <= y <= 9999,
        valid_date(y, m, d),
    ensures
        ({
            let ms = days_from_civil_spec(y, m, d) * DAY_MS;
            &&& i64::MIN <= ms <= i64::MAX
            &&& parse_date_spec(date_text(y, m, d)) == Some(ms)
            &&& day_start_spec(ms) == ms
            &&& date_str(ms as i64) == date_text(y, m, d)
        }),
{
    assert(d <= 31) by {
        assert(days_in_month(y, m) <= 31);
    }
    lemma_date_text_parts(y, m, d);
    let z = days_from_civil_spec(y, m, d);
    let y1 = if m <= 2 { y - 1 } else { y };
    let era = y1 / 400;
    assert(-1 <= era <= 24);
    assert(-146097 <= era * 146097 <= 24 * 146097) by (nonlinear_arith)
        requires
            -1 <= era <= 24,
    ;
    lemma_date_round_trip(y, m, d);
    assert(-1000000 <= z <= 4000000);
    let ms = z * DAY_MS;
    assert(-1000000 * DAY_MS <= ms <= 4000000 * DAY_MS) by (nonlinear_arith)
        requires
            -1000000 <= z <= 4000000,
            ms == z * DAY_MS,
    ;
    lemma_fundamental_div_mod_converse(ms, DAY_MS as int, z, 0);
    let c = to_civil_spec(ms as i64);
    assert(c.year == y && c.month == m && c.day == d);
}

/// The milliseconds of a fractional-seconds part: its first three bytes,
/// padded with `0`s to three bytes, read as an integer. `None` where the
/// truncation panics; `Some(None)` where the result is not an integer.
pub open spec fn frac_millis(frac: Seq<char>) -> Option<Option<int>> {
    match truncate_bytes(frac, 3) {
        None => None,
        Some(t) => {
            let padded = t + Seq::new((3 - byte_len(t)) as nat, |i: int| '0');
            Some(opt_int(parse_i64_spec(padded)))
        },
    }
}

/// The epoch-ms of time-of-day text `time` on the day starting at `day`:
/// `HH[:MM[:SS[.fff]]]` with trailing `Z`s ignored. `None` where parsing
/// panics (a fraction cut inside a character, or an `i64` overflow),
/// `Some(None)` where the text is rejected.
pub open spec fn time_value(day: int, time: Seq<char>) -> Option<Option<int>> {
    let tm = strip_trailing(time, 'Z');
    let (p1, rest): (Seq<char>, Option<Seq<char>>) = match find(tm, ':') {
        Some(i) => (tm.subrange(0, i), Some(tm.subrange(i + 1, tm.len() as int))),
        None => (tm, None),
    };
    let (p2, p3): (Seq<char>, Option<Seq<char>>) = match rest {
        None => (seq!['0'], None),
        Some(r) => match find(r, ':') {
            Some(j) => (r.subrange(0, j), Some(r.subrange(j + 1, r.len() as int))),
            None => (r, None),
        },
    };
    match parse_i64_spec(p1) {
        None => Some(None),
        Some(hour) => match parse_i64_spec(p2) {
            None => Some(None),
            Some(minute) => {
                let sec: Option<Option<(Seq<char>, int)>> = match p3 {
                    None => Some(Some((seq!['0'], 0int))),
                    Some(sp) => match find(sp, '.') {
                        None => Some(Some((sp, 0int))),
                        Some(k) => match frac_millis(sp.subrange(k + 1, sp.len() as int)) {
                            None => None,
                            Some(None) => Some(None),
                            Some(Some(ml)) => Some(Some((sp.subrange(0, k), ml))),
                        },
                    },
                };
                match sec {
                    None => None,
                    Some(None) => Some(None),
                    Some(Some((ss, milli))) => match parse_i64_spec(ss) {
                        None => Some(None),
                        Some(second) => if !(0 <= hour <= 23) || !(0 <= minute <= 59) || !(0
                            <= second <= 60) {
                            Some(None)
                        } else {
                            let a1 = day + hour * HOUR_MS;
                            let a2 = a1 + minute * 60000;
                            let a3 = a2 + second * 1000;
                            let a4 = a3 + milli;
                            if i64::MIN <= a1 <= i64::MAX && i64::MIN <= a2 <= i64::MAX
                                && i64::MIN <= a3 <= i64::MAX && i64::MIN <= a4 <= i64::MAX {
                                Some(Some(a4))
                            } else {
                                None
                            }
                        },
                    },
                }
            },
        },
    }
}

/// Every character is an ASCII digit or `-`.
pub open spec fn digits_or_dash(s: Seq<char>) -> bool {
    forall|i: int| 0 <= i < s.len() ==> (is_digit(#[trigger] s[i]) || s[i] == '-')
}

/// The outcome of parsing `s` as an instant: an integer epoch-ms, a date-only
/// `YYYY-MM-DD`, or `YYYY-MM-DD` then `T` or a space then a time of day.
/// `None` where parsing panics, `Some(None)` where the text is rejected.
pub open spec fn instant_outcome(s: Seq<char>) -> Option<Option<int>> {
    let t = trim(s);
    if t.len() == 0 {
        Some(None)
    } else if digits_or_dash(t) && parse_i64_spec(t) is Some {
        Some(opt_int(parse_i64_spec(t)))
    } else {
        let (dp, tp): (Seq<char>, Option<Seq<char>>) = match find2(t, 'T', ' ') {
            Some(i) => (t.subrange(0, i), Some(t.subrange(i + 1, t.len() as int))),
            None => (t, None),
        };
        match date_fields(dp) {
            None => Some(None),
            Some(f) => if !(i64::MIN <= date_ms(f) <= i64::MAX) {
                None
            } else {
                match tp {
                    None => Some(Some(date_ms(f))),
                    Some(tm) => time_value(date_ms(f), tm),
                }
            },
        }
    }
}


/// A zero-padded number reads back as itself.
proof fn lemma_parse_padded(n: int, w: nat)
    requires
        0 <= n,
        1 <= w <= 4,
        w == 1 ==> n < 10,
        w == 2 ==> n < 100,
        w == 3 ==> n < 1000,
        w == 4 ==> n < 10000,
    ensures
        parse_i64_spec(zero_pad(n, w)) == Some(n as i64),
        zero_pad(n, w).len() == w,
        forall|i: int| 0 <= i < w ==> is_digit(#[trigger] zero_pad(n, w)[i]),
{
    crate::text::lemma_nat_digits(n as nat);
    crate::text::lemma_zero_pad_digits(n as nat, w);
    let p = zero_pad(n, w);
    assert(is_digit(p[0]));
    assert(crate::text::parse_int(p, true) == Some(n));
}

proof fn lemma_digits_fit_bytes(t: Seq<char>)
    requires
        forall|i: int| 0 <= i < t.len() ==> is_digit(#[trigger] t[i]),
    ensures
        truncate_bytes(t, t.len() as int) == Some(t),
        byte_len(t) == t.len(),
    decreases t.len(),
{
    if t.len() > 0 {
        let r = t.drop_first();
        assert forall|i: int| 0 <= i < r.len() implies is_digit(#[trigger] r[i]) by {
            assert(r[i] == t[i + 1]);
        }
        lemma_digits_fit_bytes(r);
        assert(crate::text::utf8_len(t[0]) == 1);
        assert(seq![t[0]] + r =~= t);
    }
}

/// The time of day `HH:MM:SS.mmmZ` of valid parts reads back on top of its day.
proof fn lemma_time_text(day: int, h: int, mi: int, sec: int, ml: int)
    requires
        0 <= h <= 23,
        0 <= mi <= 59,
        0 <= sec <= 59,
        0 <= ml <= 999,
        i64::MIN <= day,
        day + h * HOUR_MS + mi * 60000 + sec * 1000 + ml <= i64::MAX,
    ensures
        time_value(
            day,
            zero_pad(h, 2) + seq![':'] + zero_pad(mi, 2) + seq![':'] + zero_pad(sec, 2) + seq!['.'] + zero_pad(ml, 3)
                + seq!['Z'],
        ) == Some(Some(day + h * HOUR_MS + mi * 60000 + sec * 1000 + ml)),
{
    lemma_parse_padded(h, 2);
    lemma_parse_padded(mi, 2);
    lemma_parse_padded(sec, 2);
    lemma_parse_padded(ml, 3);
    let a = zero_pad(h, 2);
    let b = zero_pad(mi, 2);
    let c = zero_pad(sec, 2);
    let f = zero_pad(ml, 3);
    let core = a + seq![':'] + b + seq![':'] + c + seq!['.'] + f;
    let time = core + seq!['Z'];
    assert(core.len() == 12);
    assert(core.last() == f[2]);
    assert(time.drop_last() =~= core);
    assert(strip_trailing(core, 'Z') == core);
    assert(strip_trailing(time, 'Z') == core);
    assert forall|j: int| 0 <= j < 2 implies core[j] != ':' && core[j] != ':' by {
        assert(core[j] == a[j]);
    }
    crate::text::lemma_find2_unique(core, ':', ':', 2);
    let rest = core.subrange(3, 12);
    assert(rest =~= b + seq![':'] + c + seq!['.'] + f);
    assert forall|j: int| 0 <= j < 2 implies rest[j] != ':' && rest[j] != ':' by {
        assert(rest[j] == b[j]);
    }
    crate::text::lemma_find2_unique(rest, ':', ':', 2);
    let sp = rest.subrange(3, 9);
    assert(sp =~= c + seq!['.'] + f);
    assert forall|j: int| 0 <= j < 2 implies sp[j] != '.' && sp[j] != '.' by {
        assert(sp[j] == c[j]);
    }
    crate::text::lemma_find2_unique(sp, '.', '.', 2);
    assert(core.subrange(0, 2) =~= a);
    assert(rest.subrange(0, 2) =~= b);
    assert(sp.subrange(0, 2) =~= c);
    assert(sp.subrange(3, 6) =~= f);
    lemma_digits_fit_bytes(f);
    assert(f + Seq::new(0, |i: int| '0') =~= f);
    assert(0 <= h * HOUR_MS) by (nonlinear_arith)
        requires
            0 <= h,
    ;
    assert(0 <= mi * 60000) by (nonlinear_arith)
        requires
            0 <= mi,
    ;
    assert(0 <= sec * 1000) by (nonlinear_arith)
        requires
            0 <= sec,
    ;
}

/// The `HH:MM:SS.mmmZ` part of an ISO instant.
pub open spec fn iso_time_text(c: Civil) -> Seq<char> {
    zero_pad(c.hour as int, 2) + seq![':'] + zero_pad(c.minute as int, 2) + seq![':'] + zero_pad(
        c.second as int,
        2,
    ) + seq!['.'] + zero_pad(c.milli as int, 3) + seq!['Z']
}

#[verifier::spinoff_prover]
#[verifier::rlimit(50)]
proof fn lemma_iso_shape(ms: i64, y: int, m: int, d: int)
    requires
        0 <= y <= 9999,
        1 <= m <= 12,
        1 <= d <= 31,
        to_civil_spec(ms).year == y,
        to_civil_spec(ms).month == m,
        to_civil_spec(ms).day == d,
    ensures
        ({
            let t = iso_str(ms);
            &&& trim(t) == t
            &&& t.len() > 0
            &&& !digits_or_dash(t)
            &&& find2(t, 'T', ' ') == Some(10int)
            &&& t.subrange(0, 10) == date_text(y, m, d)
            &&& t.subrange(11, t.len() as int) == iso_time_text(to_civil_spec(ms))
        }),
{
    let c = to_civil_spec(ms);
    let dt = date_text(y, m, d);
    let tail = iso_time_text(c);
    let t = iso_str(ms);
    assert(date_str(ms) == dt);
    assert(t =~= dt + seq!['T'] + tail);
    crate::text::lemma_nat_digits(y as nat);
    crate::text::lemma_nat_digits(m as nat);
    crate::text::lemma_nat_digits(d as nat);
    crate::text::lemma_zero_pad_digits(y as nat, 4);
    crate::text::lemma_zero_pad_digits(m as nat, 2);
    crate::text::lemma_zero_pad_digits(d as nat, 2);
    assert(dt.len() == 10);
    assert(t[0] == dt[0]);
    assert(dt[0] == zero_pad(y, 4)[0]);
    assert(is_digit(zero_pad(y, 4)[0]));
    assert(!crate::text::is_ws(t[0]));
    assert(t.last() == 'Z');
    assert(crate::text::trim_start(t) == t);
    assert(crate::text::trim_end(t) == t);
    assert(t[10] == 'T');
    assert(!digits_or_dash(t));
    assert forall|j: int| 0 <= j < 10 implies t[j] != 'T' && t[j] != ' ' by {
        assert(t[j] == dt[j]);
        if j < 4 {
            assert(dt[j] == zero_pad(y, 4)[j]);
        } else if 5 <= j < 7 {
            assert(dt[j] == zero_pad(m, 2)[j - 5]);
        } else if 8 <= j < 10 {
            assert(dt[j] == zero_pad(d, 2)[j - 8]);
        }
    }
    crate::text::lemma_find2_unique(t, 'T', ' ', 10);
    assert(t.subrange(0, 10) =~= dt);
    assert(t.subrange(11, t.len() as int) =~= tail);
}

/// An instant written by `iso_string` (years 0..=9999) reads back as itself.
#[verifier::spinoff_prover]
#[verifier::rlimit(50)]
pub proof fn lemma_iso_round_trip(ms: i64)
    requires
        0 <= to_civil_spec(ms).year <= 9999,
    ensures
        instant_outcome(iso_str(ms)) == Some(Some(ms as int)),
{
    lemma_to_civil_fields(ms);
    lemma_instant_round_trip(ms);
    let c = to_civil_spec(ms);
    let y = c.year as int;
    let m = c.month as int;
    let d = c.day as int;
    lemma_days_round_trip(ms as int / DAY_MS as int);
    assert(valid_date(y, m, d));
    assert(d <= 31) by {
        assert(days_in_month(y, m) <= 31);
    }
    lemma_parse_date_round_trip(y, m, d);
    lemma_date_text_parts(y, m, d);
    lemma_iso_shape(ms, y, m, d);
    let day = days_from_civil_spec(y, m, d) * DAY_MS;
    assert(day == ms as int / DAY_MS as int * DAY_MS);
    lemma_time_text(day, c.hour as int, c.minute as int, c.second as int, c.milli as int);
}

/// An epoch-ms integer written out (`ms.to_string()`) reads back as itself.
pub proof fn lemma_epoch_round_trip(ms: i64)
    ensures
        instant_outcome(crate::text::int_str(ms as int)) == Some(Some(ms as int)),
{
    let t = crate::text::int_str(ms as int);
    let n: nat = if ms < 0 { (-(ms as int)) as nat } else { ms as nat };
    crate::text::lemma_nat_digits(n);
    let ds = crate::text::nat_digits(n);
    if ms < 0 {
        assert(t =~= seq!['-'] + ds);
        assert(t.drop_first() =~= ds);
    } else {
        assert(t == ds);
    }
    assert(t.last() == ds.last());
    assert(is_digit(ds.last()));
    assert(!crate::text::is_ws(t[0]));
    assert(!crate::text::is_ws(t.last()));
    assert(crate::text::trim_start(t) == t);
    assert(crate::text::trim_end(t) == t);
    assert forall|i: int| 0 <= i < t.len() implies (is_digit(#[trigger] t[i]) || t[i] == '-') by {
        if ms < 0 && i > 0 {
            assert(t[i] == ds[i - 1]);
        }
    }
    assert(crate::text::parse_int(t, true) == Some(ms as int));
}

/// A date written by `date_string` (years 0..=9999) reads as an instant
/// back to the start of its day.
pub proof fn lemma_date_string_instant(ms: i64)
    requires
        0 <= to_civil_spec(ms).year <= 9999,
    ensures
        instant_outcome(date_str(ms)) == Some(Some(day_start_spec(ms as int))),
{
    lemma_to_civil_fields(ms);
    let c = to_civil_spec(ms);
    let y = c.year as int;
    let m = c.month as int;
    let d = c.day as int;
    let z = ms as int / DAY_MS as int;
    lemma_days_round_trip(z);
    assert(valid_date(y, m, d));
    assert(d <= 31) by {
        assert(days_in_month(y, m) <= 31);
    }
    lemma_date_text_parts(y, m, d);
    lemma_parse_date_round_trip(y, m, d);
    let t = date_str(ms);
    assert(t == date_text(y, m, d));
    assert(digits_or_dash(t));
    assert(!crate::text::all_digits(t)) by {
        assert(!is_digit(t[4]));
    }
    assert(crate::text::parse_int(t, true) is None);
    assert(!exists|i: int| crate::text::is_first2(t, 'T', ' ', i)) by {
        if exists|i: int| crate::text::is_first2(t, 'T', ' ', i) {
            let i = choose|i: int| crate::text::is_first2(t, 'T', ' ', i);
            assert(is_digit(t[i]) || t[i] == '-');
        }
    }
    assert(days_from_civil_spec(y, m, d) == z);
}

/// `truncate(3)` then zero-padding to three bytes, on the characters `v`.
fn frac_millis_exec(v: &Vec<char>) -> (r: Option<Option<i64>>)
    ensures
        match r {
            None => frac_millis(v@) is None,
            Some(x) => frac_millis(v@) == Some(opt_int(x)),
        },
{
    // Keep characters while they fit in the first three bytes.
    let mut kept: Vec<char> = Vec::new();
    let mut used: i64 = 0;
    let mut i: usize = 0;
    assert(v@.subrange(0, v@.len() as int) =~= v@);
    assert(prefix_join(Seq::<char>::empty(), truncate_bytes(v@, 3)) == truncate_bytes(v@, 3)) by {
        if let Some(r) = truncate_bytes(v@, 3) {
            assert(Seq::<char>::empty() + r =~= r);
        }
    }
    while i < v.len() && used < 3
        invariant
            i <= v.len(),
            0 <= used <= 3,
            used == byte_len(kept@),
            truncate_bytes(v@, 3) == prefix_join(
                kept@,
                truncate_bytes(v@.subrange(i as int, v@.len() as int), 3 - used),
            ),
        decreases v.len() - i,
    {
        let c = v[i];
        let w: i64 = if (c as u32) < 0x80 {
            1
        } else if (c as u32) < 0x800 {
            2
        } else if (c as u32) < 0x10000 {
            3
        } else {
            4
        };
        let ghost tail = v@.subrange(i as int, v@.len() as int);
        assert(tail[0] == c);
        assert(w == utf8_len(c));
        assert(tail.drop_first() =~= v@.subrange(i + 1, v@.len() as int));
        if w > 3 - used {
            // `truncate` would cut a character here.
            assert(truncate_bytes(tail, 3 - used) is None);
            return None;
        }
        let ghost rest = truncate_bytes(v@.subrange(i + 1, v@.len() as int), 3 - used - w);
        assert(truncate_bytes(tail, 3 - used) == prefix_join(seq![c], rest));
        proof {
            lemma_byte_len_push(kept@, c);
            if let Some(r) = rest {
                assert(kept@ + (seq![c] + r) =~= kept@.push(c) + r);
            }
        }
        kept.push(c);
        used = used + w;
        i = i + 1;
    }
    assert(truncate_bytes(v@.subrange(i as int, v@.len() as int), 3 - used) == Some(
        Seq::<char>::empty(),
    ));
    assert(kept@ + Seq::<char>::empty() =~= kept@);
    let ghost t = kept@;
    assert(t + Seq::new(0nat, |k: int| '0') =~= t);
    while used < 3
        invariant
            0 <= used <= 3,
            byte_len(t) <= used,
            truncate_bytes(v@, 3) == Some(t),
            kept@ == t + Seq::new((used - byte_len(t)) as nat, |k: int| '0'),
        decreases 3 - used,
    {
        kept.push('0');
        used = used + 1;
        assert(kept@ =~= t + Seq::new((used - byte_len(t)) as nat, |k: int| '0'));
    }
    assert(kept@ =~= t + Seq::new((3 - byte_len(t)) as nat, |k: int| '0'));
    Some(parse_i64(&kept))
}

fn time_value_exec(day: i64, time: &Vec<char>) -> (r: Option<Option<i64>>)
    ensures
        match r {
            None => time_value(day as int, time@) is None,
            Some(x) => time_value(day as int, time@) == Some(opt_int(x)),
        },
{
    let tm = strip_trailing_chars(time, 'Z');
    let (p1, rest): (Vec<char>, Option<Vec<char>>) = match find_char(&tm, ':') {
        Some(i) => (slice_chars(&tm, 0, i), Some(slice_chars(&tm, i + 1, tm.len()))),
        None => (tm, None),
    };
    let (p2, p3): (Vec<char>, Option<Vec<char>>) = match rest {
        None => {
            let mut z: Vec<char> = Vec::new();
            z.push('0');
            assert(z@ =~= seq!['0']);
            (z, None)
        },
        Some(r) => match find_char(&r, ':') {
            Some(j) => (slice_chars(&r, 0, j), Some(slice_chars(&r, j + 1, r.len()))),
            None => (r, None),
        },
    };
    let hour = match parse_i64(&p1) {
        Some(h) => h,
        None => return Some(None),
    };
    let minute = match parse_i64(&p2) {
        Some(m) => m,
        None => return Some(None),
    };
    let (ss, milli): (Vec<char>, i64) = match p3 {
        None => {
            let mut z: Vec<char> = Vec::new();
            z.push('0');
            assert(z@ =~= seq!['0']);
            (z, 0)
        },
        Some(sp) => match find_char(&sp, '.') {
            None => (sp, 0),
            Some(k) => {
                let frac = slice_chars(&sp, k + 1, sp.len());
                match frac_millis_exec(&frac) {
                    None => return None,
                    Some(None) => return Some(None),
                    Some(Some(ml)) => (slice_chars(&sp, 0, k), ml),
                }
            },
        },
    };
    let second = match parse_i64(&ss) {
        Some(x) => x,
        None => return Some(None),
    };
    if !(0 <= hour && hour <= 23) || !(0 <= minute && minute <= 59) || !(0 <= second && second
        <= 60) {
        return Some(None);
    }
    let a1 = match day.checked_add(hour * HOUR_MS) {
        Some(a) => a,
        None => return None,
    };
    let a2 = match a1.checked_add(minute * 60000) {
        Some(a) => a,
        None => return None,
    };
    let a3 = match a2.checked_add(second * 1000) {
        Some(a) => a,
        None => return None,
    };
    match a3.checked_add(milli) {
        Some(a) => Some(Some(a)),
        None => None,
    }
}

/// Parse an instant: an integer epoch-ms (e.g. `1750896000000`), a date-only
/// `YYYY-MM-DD`, or a full ISO-8601 `YYYY-MM-DDTHH:MM[:SS[.sss]][Z]` (a space
/// may stand for the `T`). A trailing `Z`, or its absence, both mean UTC.
pub fn parse_instant(s: &str) -> (r: Option<i64>)
    requires
        instant_outcome(s@) is Some,
    ensures
        opt_int(r) == instant_outcome(s@).unwrap(),
{
    let v = chars_of(s);
    parse_instant_chars(&v)
}

/// [`parse_instant`] on characters.
pub fn parse_instant_chars(v: &Vec<char>) -> (r: Option<i64>)
    requires
        instant_outcome(v@) is Some,
    ensures
        opt_int(r) == instant_outcome(v@).unwrap(),
{
    match instant_checked(v) {
        Some(x) => x,
        None => None,
    }
}

proof fn lemma_days_bound(y: i64, m: int, d: int)
    requires
        1 <= m <= 12,
        1 <= d <= 31,
    ensures
        -0x1_0000_0000_0000_0000_0000 <= days_from_civil_spec(y as int, m, d) <= 0x1_0000_0000_0000_0000_0000,
{
    let y1: int = if m <= 2 { y - 1 } else { y as int };
    let era = y1 / 400;
    let yoe = y1 - era * 400;
    assert(-0x80_0000_0000_0000 <= era <= 0x80_0000_0000_0000);
    assert(0 <= yoe < 400);
    let mp = if m > 2 { m - 3 } else { m + 9 };
    assert(0 <= mp <= 11);
    let doy = tdiv(153 * mp + 2, 5) + d - 1;
    assert(0 <= doy <= 400);
    let doe = yoe * 365 + yoe / 4 - yoe / 100 + doy;
    assert(0 <= yoe * 365 <= 400 * 365) by (nonlinear_arith)
        requires
            0 <= yoe < 400,
    ;
    assert(-0x80_0000_0000_0000 * 146097 <= era * 146097 <= 0x80_0000_0000_0000 * 146097) by (nonlinear_arith)
        requires
            -0x80_0000_0000_0000 <= era <= 0x80_0000_0000_0000,
    ;
}

/// `parse_instant` on the characters `v`, with the inputs it panics on
/// reported: `None` exactly where `instant_outcome` is `None`.
pub fn instant_checked(v: &Vec<char>) -> (r: Option<Option<i64>>)
    ensures
        match r {
            None => instant_outcome(v@) is None,
            Some(x) => instant_outcome(v@) == Some(opt_int(x)),
        },
{
    let t = trim_chars(v);
    if t.len() == 0 {
        return Some(None);
    }
    let mut all = true;
    let mut k: usize = 0;
    while k < t.len()
        invariant
            k <= t.len(),
            all == (forall|j: int| 0 <= j < k ==> (is_digit(#[trigger] t@[j]) || t@[j] == '-')),
        decreases t.len() - k,
    {
        let c = t[k];
        if !(('0' <= c && c <= '9') || c == '-') {
            all = false;
        }
        k = k + 1;
    }
    if all {
        if let Some(ms) = parse_i64(&t) {
            return Some(Some(ms));
        }
    }
    let (dp, tp): (Vec<char>, Option<Vec<char>>) = match find2_chars(&t, 'T', ' ') {
        Some(i) => (slice_chars(&t, 0, i), Some(slice_chars(&t, i + 1, t.len()))),
        None => (t, None),
    };
    let day = match date_fields_exec(&dp) {
        None => return Some(None),
        Some((y, m, d)) => {
            let days = days_from_civil(y, m, d);
            proof {
                lemma_days_bound(y, m as int, d as int);
            }
            let ms: i128 = days * 86_400_000;
            if ms < i64::MIN as i128 || ms > i64::MAX as i128 {
                return None;
            }
            from_civil(Civil { year: y, month: m, day: d, hour: 0, minute: 0, second: 0, milli: 0 })
        },
    };
    match tp {
        None => Some(Some(day)),
        Some(tm) => time_value_exec(day, &tm),
    }
}

// ---------------------------------------------------------------------------
// Slots and the booking window
// ---------------------------------------------------------------------------

/// A bookable slot: the instant it starts and the ISO key clients use.
#[derive(Debug, Clone)]
pub struct Slot {
    pub starts_at: i64,
    pub key: String,
}

impl PartialEq for Slot {
    fn eq(&self, other: &Slot) -> (r: bool) {
        self.starts_at == other.starts_at && self.key == other.key
    }
}

impl vstd::std_specs::cmp::PartialEqSpecImpl for Slot {
    open spec fn obeys_eq_spec() -> bool {
        true
    }

    open spec fn eq_spec(&self, other: &Slot) -> bool {
        self.starts_at == other.starts_at && self.key@ == other.key@
    }
}

impl Eq for Slot {
}

/// The 24 hourly slots of the calendar day containing `date_ms` can be named.
pub open spec fn day_slots_in_range(date_ms: int) -> bool {
    i64::MIN <= day_start_spec(date_ms) && day_start_spec(date_ms) + 23 * HOUR_MS <= i64::MAX
}

/// Generate the 24 hourly slots (00:00 through 23:00) of the calendar day
/// containing `date_ms`.
pub fn generate_day_slots(date_ms: i64) -> (slots: Vec<Slot>)
    requires
        day_slots_in_range(date_ms as int),
    ensures
        slots.len() == 24,
        forall|h: int|
            0 <= h < 24 ==> {
                &&& (#[trigger] slots@[h]).starts_at == day_start_spec(date_ms as int) + h
                    * HOUR_MS
                &&& slots@[h].key@ == iso_str(slots@[h].starts_at)
            },
{
    let start = day_start(date_ms);
    let mut slots: Vec<Slot> = Vec::new();
    let mut h: i64 = 0;
    while h < 24
        invariant
            0 <= h <= 24,
            start == day_start_spec(date_ms as int),
            start + 23 * HOUR_MS <= i64::MAX,
            slots.len() == h,
            forall|k: int|
                0 <= k < h ==> {
                    &&& (#[trigger] slots@[k]).starts_at == start + k * HOUR_MS
                    &&& slots@[k].key@ == iso_str(slots@[k].starts_at)
                },
        decreases 24 - h,
    {
        let starts_at = start + h * HOUR_MS;
        let key = iso_string(starts_at);
        slots.push(Slot { starts_at, key });
        h = h + 1;
    }
    slots
}

/// The default end of the bookable window: 14 days after `now`, or 30 with
/// an active package.
pub open spec fn window_base(now: int, has_package: bool) -> int {
    now + (if has_package { 30int } else { 14int }) * DAY_MS
}

/// The last millisecond (23:59:59.999) of the calendar day containing `ms`.
pub open spec fn end_of_day(ms: int) -> int {
    day_start_spec(ms) + DAY_MS - 1
}

/// The window end: the later of the default and the end of every
/// subscription's last day.
pub open spec fn window_end_spec(now: int, has_package: bool, untils: Seq<i64>) -> int
    decreases untils.len(),
{
    if untils.len() == 0 {
        window_base(now, has_package)
    } else {
        let prev = window_end_spec(now, has_package, untils.drop_last());
        let e = end_of_day(untils.last() as int);
        if e > prev {
            e
        } else {
            prev
        }
    }
}

/// Every subscription end names a day whose end is an `i64` instant.
pub open spec fn untils_in_range(untils: Seq<i64>) -> bool {
    forall|i: int|
        0 <= i < untils.len() ==> i64::MIN <= day_start_spec(#[trigger] untils[i] as int)
            && day_start_spec(untils[i] as int) + DAY_MS <= i64::MAX
}

proof fn lemma_window_end_bounds(now: int, has_package: bool, untils: Seq<i64>)
    ensures
        window_end_spec(now, has_package, untils) >= window_base(now, has_package),
        forall|i: int|
            0 <= i < untils.len() ==> window_end_spec(now, has_package, untils) >= end_of_day(
                #[trigger] untils[i] as int,
            ),
        window_end_spec(now, has_package, untils) == window_base(now, has_package) || exists|
            i: int,
        |
            0 <= i < untils.len() && window_end_spec(now, has_package, untils) == end_of_day(
                #[trigger] untils[i] as int,
            ),
    decreases untils.len(),
{
    if untils.len() > 0 {
        let p = untils.drop_last();
        lemma_window_end_bounds(now, has_package, p);
        assert forall|i: int| 0 <= i < untils.len() implies window_end_spec(
            now,
            has_package,
            untils,
        ) >= end_of_day(#[trigger] untils[i] as int) by {
            if i < untils.len() - 1 {
                assert(untils[i] == p[i]);
            }
        }
        if window_end_spec(now, has_package, untils) != window_base(now, has_package) {
            if window_end_spec(now, has_package, untils) == end_of_day(untils.last() as int) {
                assert(untils[untils.len() - 1] == untils.last());
            } else {
                let i = choose|i: int|
                    0 <= i < p.len() && window_end_spec(now, has_package, p) == end_of_day(
                        #[trigger] p[i] as int,
                    );
                assert(p[i] == untils[i]);
            }
        }
    }
}

/// Compute the end of the bookable window: 14 days after `now` by default,
/// 30 with an active package, extended to 23:59:59.999 of the latest
/// subscription `valid_until` day when that is later.
pub fn booking_window_end(now_ms: i64, has_package: bool, subscription_valid_untils: &[i64]) -> (r:
    i64)
    requires
        i64::MIN <= window_base(now_ms as int, has_package) <= i64::MAX,
        untils_in_range(subscription_valid_untils@),
    ensures
        r == window_end_spec(now_ms as int, has_package, subscription_valid_untils@),
        r >= window_base(now_ms as int, has_package),
        forall|i: int|
            0 <= i < subscription_valid_untils@.len() ==> r >= end_of_day(
                #[trigger] subscription_valid_untils@[i] as int,
            ),
{
    let days: i64 = if has_package {
        30
    } else {
        14
    };
    let base_end = add_days(now_ms, days);
    let mut extended = base_end;
    let mut i: usize = 0;
    while i < subscription_valid_untils.len()
        invariant
            i <= subscription_valid_untils@.len(),
            untils_in_range(subscription_valid_untils@),
            extended == window_end_spec(
                now_ms as int,
                has_package,
                subscription_valid_untils@.subrange(0, i as int),
            ),
        decreases subscription_valid_untils@.len() - i,
    {
        let raw = subscription_valid_untils[i];
        let ghost pre = subscription_valid_untils@.subrange(0, i + 1);
        assert(pre.drop_last() =~= subscription_valid_untils@.subrange(0, i as int));
        assert(pre.last() == raw);
        let end_of_day = day_start(raw) + DAY_MS - 1;
        if end_of_day > extended {
            extended = end_of_day;
        }
        i = i + 1;
    }
    assert(subscription_valid_untils@.subrange(0, i as int) =~= subscription_valid_untils@);
    proof {
        lemma_window_end_bounds(now_ms as int, has_package, subscription_valid_untils@);
    }
    extended
}

} // verus!
