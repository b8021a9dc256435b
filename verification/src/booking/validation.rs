//! Booking-request validation: a slot must be in the future and inside the
//! booking window (14 days, or 30 with an active package). These are the
//! stateless guards run before any storage is touched.

use vstd::prelude::*;
use crate::booking::time::{booking_window_end, untils_in_range, window_base, DAY_MS};
use crate::text::owned;

verus! {

/// Why a request is refused.
pub open spec fn validation_error(slot: int, has_package: bool, now: int) -> Option<Seq<char>> {
    if slot < now {
        Some("Cannot book a slot in the past"@)
    } else if slot > window_base(now, has_package) {
        if has_package {
            Some("Slot is outside the 30-day booking window"@)
        } else {
            Some("Slot is outside the 14-day booking window"@)
        }
    } else {
        None
    }
}

/// Validate that `slot_ms` is bookable at `now_ms`: rejects past slots and
/// slots beyond the window, with a human-readable reason.
pub fn validate_booking_request(slot_ms: i64, has_package: bool, now_ms: i64) -> (r: Result<(), String>)
    requires
        window_base(now_ms as int, has_package) <= i64::MAX,
    ensures
        match r {
            Ok(()) => validation_error(slot_ms as int, has_package, now_ms as int) is None,
            Err(e) => validation_error(slot_ms as int, has_package, now_ms as int) == Some(e@),
        },
        r is Ok <==> now_ms <= slot_ms <= window_base(now_ms as int, has_package),
{
    if slot_ms < now_ms {
        return Err(owned("Cannot book a slot in the past"));
    }
    let empty: [i64; 0] = [];
    assert(untils_in_range(empty@));
    let window_end = booking_window_end(now_ms, has_package, &empty);
    assert(empty@.len() == 0);
    if slot_ms > window_end {
        if has_package {
            return Err(owned("Slot is outside the 30-day booking window"));
        } else {
            return Err(owned("Slot is outside the 14-day booking window"));
        }
    }
    Ok(())
}

/// A slot can be booked from now on up to 14 days ahead, or 30 with an
/// active package, to the millisecond: anything earlier is in the past, and
/// anything later is out of the window named for the case.
pub proof fn lemma_booking_window(slot: int, has_package: bool, now: int)
    ensures
        validation_error(slot, has_package, now) is None <==> now <= slot <= now + (if has_package {
            30 * 86_400_000
        } else {
            14 * 86_400_000
        }),
        slot < now ==> validation_error(slot, has_package, now) == Some("Cannot book a slot in the past"@),
        slot > now + 30 * 86_400_000 ==> validation_error(slot, true, now) == Some(
            "Slot is outside the 30-day booking window"@,
        ),
        now <= slot && slot > now + 14 * 86_400_000 ==> validation_error(slot, false, now) == Some(
            "Slot is outside the 14-day booking window"@,
        ),
{
}

} // verus!
