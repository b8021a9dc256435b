//! Subscription coverage and daily-limit accounting.
//!
//! A subscription covers a slot when the slot's calendar day is within
//! `[valid_from, valid_until]`, both ends inclusive and compared on day
//! starts. Each subscription allows `daily_limit` bookings per calendar day.

use vstd::prelude::*;
use crate::booking::time::{day_start, day_start_spec, DAY_MS};

verus! {

/// Whether the calendar day of `date` lies within the days of `from` and
/// `until`, inclusive.
pub open spec fn covers(from: int, until: int, date: int) -> bool {
    day_start_spec(from) <= day_start_spec(date) <= day_start_spec(until)
}

/// The day starts of all three instants are `i64` instants.
pub open spec fn days_in_range(from: int, until: int, date: int) -> bool {
    i64::MIN <= day_start_spec(from) && i64::MIN <= day_start_spec(until) && i64::MIN
        <= day_start_spec(date)
}

/// Is `date_ms`'s calendar day inside `[valid_from, valid_until]` (inclusive)?
pub fn covers_date(valid_from_ms: i64, valid_until_ms: i64, date_ms: i64) -> (r: bool)
    requires
        days_in_range(valid_from_ms as int, valid_until_ms as int, date_ms as int),
    ensures
        r == covers(valid_from_ms as int, valid_until_ms as int, date_ms as int),
{
    let day = day_start(date_ms);
    day >= day_start(valid_from_ms) && day <= day_start(valid_until_ms)
}

/// Daily quota usage for a subscription.
#[derive(Debug, Clone, Copy, PartialEq, Eq, Structural)]
pub struct DailyUsage {
    pub used: i64,
    pub limit: i64,
    pub remaining: i64,
    pub exhausted: bool,
}

/// `max(x, 0)`.
pub open spec fn clamp0(x: int) -> int {
    if x > 0 {
        x
    } else {
        0
    }
}

/// Compute usage from a limit and today's booking count, clamping negatives to
/// zero: `remaining = max(limit - used, 0)`, exhausted when nothing remains.
pub fn daily_usage(daily_limit: i64, bookings_today: i64) -> (u: DailyUsage)
    ensures
        u.limit == clamp0(daily_limit as int),
        u.used == clamp0(bookings_today as int),
        u.remaining == clamp0(u.limit - u.used),
        u.exhausted == (u.remaining == 0),
        u.exhausted <==> u.used >= u.limit,
        !u.exhausted ==> u.used + u.remaining == u.limit,
{
    let limit = if daily_limit > 0 {
        daily_limit
    } else {
        0
    };
    let used = if bookings_today > 0 {
        bookings_today
    } else {
        0
    };
    let diff = limit - used;
    let remaining = if diff > 0 {
        diff
    } else {
        0
    };
    DailyUsage { used, limit, remaining, exhausted: remaining == 0 }
}

/// Coverage goes by whole days, both ends included: every instant of the
/// first and the last day is covered, coverage is the same at every instant
/// of a day, and no instant before the first day or after the last is.
pub proof fn lemma_covers_whole_days(from: int, until: int, date: int, other: int)
    requires
        day_start_spec(date) == day_start_spec(other),
    ensures
        covers(from, until, date) == covers(from, until, other),
        day_start_spec(from) <= day_start_spec(until) ==> covers(from, until, from) && covers(from, until, until),
        date < day_start_spec(from) ==> !covers(from, until, date),
        date >= day_start_spec(until) + DAY_MS ==> !covers(from, until, date),
{
    vstd::arithmetic::div_mod::lemma_fundamental_div_mod(date, DAY_MS as int);
    vstd::arithmetic::div_mod::lemma_fundamental_div_mod(from, DAY_MS as int);
    vstd::arithmetic::div_mod::lemma_fundamental_div_mod(until, DAY_MS as int);
    if date < day_start_spec(from) {
        assert(day_start_spec(date) <= date);
    }
    if date >= day_start_spec(until) + DAY_MS {
        let q = until / DAY_MS as int;
        assert(date >= (q + 1) * DAY_MS);
        vstd::arithmetic::div_mod::lemma_div_is_ordered((q + 1) * DAY_MS, date, DAY_MS as int);
        vstd::arithmetic::div_mod::lemma_div_multiples_vanish(q + 1, DAY_MS as int);
        assert(date / DAY_MS as int >= q + 1);
        assert(day_start_spec(date) >= (q + 1) * DAY_MS) by (nonlinear_arith)
            requires
                date / DAY_MS as int >= q + 1,
                day_start_spec(date) == (date / DAY_MS as int) * DAY_MS,
        ;
    }
}

} // verus!
