//! The admin dashboard: booking totals, the rows of the bookings and
//! pending-transfer tables, the JSON statistics endpoints' answers, and the
//! settings forms.

pub mod settings;

use vstd::prelude::*;
use crate::booking::store::Booking;
use crate::booking::time::{date_str, date_string, hour_of, DAY_MS, HOUR_MS};
use crate::checkout::{Payment, Reply};
use crate::shop::{format_isk, isk_label};
use crate::text::{append_chars, append_str, i64_chars, int_str, owned, str_eq, string_of, zero_pad, zero_pad_chars};

verus! {

/// Counts over a list of bookings.
#[derive(Debug, Clone, Copy, PartialEq, Eq, Structural)]
pub struct BookingTotals {
    /// Every booking, whatever its status.
    pub total_bookings: i64,
    /// Bookings with status `confirmed`.
    pub confirmed_bookings: i64,
    /// The paid prices of confirmed bookings summed (none counts as 0).
    pub revenue: i64,
}

impl Default for BookingTotals {
    fn default() -> (t: BookingTotals)
        ensures
            t == (BookingTotals { total_bookings: 0, confirmed_bookings: 0, revenue: 0 }),
    {
        BookingTotals { total_bookings: 0, confirmed_bookings: 0, revenue: 0 }
    }
}

/// How many of the bookings are confirmed.
pub open spec fn confirmed_count(bs: Seq<Booking>) -> int
    decreases bs.len(),
{
    if bs.len() == 0 {
        0
    } else {
        confirmed_count(bs.drop_last()) + if bs.last().status@ == "confirmed"@ {
            1int
        } else {
            0int
        }
    }
}

/// The paid prices of the confirmed bookings summed.
pub open spec fn revenue_of(bs: Seq<Booking>) -> int
    decreases bs.len(),
{
    if bs.len() == 0 {
        0
    } else if bs.last().status@ == "confirmed"@ {
        revenue_of(bs.drop_last()) + match bs.last().price_paid {
            Some(p) => p as int,
            None => 0int,
        }
    } else {
        revenue_of(bs.drop_last())
    }
}

/// Every running total of the revenue, first booking to last, is an `i64`
/// (the sum is taken in `i64`, which must not overflow).
pub open spec fn revenue_fits(bs: Seq<Booking>) -> bool {
    forall|k: int| 0 <= k <= bs.len() ==> i64::MIN <= #[trigger] revenue_of(bs.subrange(0, k)) <= i64::MAX
}

/// Whether the totals of `bookings` can be taken: every running revenue
/// total is an `i64`.
pub fn revenue_in_range(bookings: &[Booking]) -> (r: bool)
    ensures
        r == revenue_fits(bookings@),
{
    let mut total: i128 = 0;
    let mut i: usize = 0;
    assert(bookings@.subrange(0, 0) =~= Seq::<Booking>::empty());
    while i < bookings.len()
        invariant
            i <= bookings@.len(),
            total == revenue_of(bookings@.subrange(0, i as int)),
            forall|k: int| 0 <= k <= i ==> i64::MIN <= #[trigger] revenue_of(bookings@.subrange(0, k)) <= i64::MAX,
        decreases bookings@.len() - i,
    {
        assert(bookings@.subrange(0, i + 1).drop_last() =~= bookings@.subrange(0, i as int));
        assert(bookings@.subrange(0, i + 1).last() == bookings@[i as int]);
        let b = &bookings[i];
        if str_eq(b.status.as_str(), "confirmed") {
            let p: i64 = match b.price_paid {
                Some(p) => p,
                None => 0,
            };
            total = total + p as i128;
        }
        if total < i64::MIN as i128 || total > i64::MAX as i128 {
            assert(!(i64::MIN <= revenue_of(bookings@.subrange(0, i + 1)) <= i64::MAX));
            return false;
        }
        i = i + 1;
    }
    true
}

proof fn lemma_confirmed_bounds(bs: Seq<Booking>)
    ensures
        0 <= confirmed_count(bs) <= bs.len(),
    decreases bs.len(),
{
    if bs.len() > 0 {
        lemma_confirmed_bounds(bs.drop_last());
    }
}

/// The totals of a list of bookings.
pub fn booking_totals(bookings: &[Booking]) -> (t: BookingTotals)
    requires
        bookings@.len() <= i64::MAX,
        revenue_fits(bookings@),
    ensures
        t.total_bookings == bookings@.len(),
        t.confirmed_bookings == confirmed_count(bookings@),
        t.revenue == revenue_of(bookings@),
{
    let n = bookings.len();
    let mut confirmed: i64 = 0;
    let mut revenue: i64 = 0;
    let mut i: usize = 0;
    while i < n
        invariant
            i <= n,
            n == bookings@.len(),
            n <= i64::MAX,
            confirmed == confirmed_count(bookings@.subrange(0, i as int)),
            revenue == revenue_of(bookings@.subrange(0, i as int)),
            revenue_fits(bookings@),
        decreases n - i,
    {
        assert(bookings@.subrange(0, i + 1).drop_last() =~= bookings@.subrange(0, i as int));
        assert(bookings@.subrange(0, i + 1).last() == bookings@[i as int]);
        proof {
            lemma_confirmed_bounds(bookings@.subrange(0, i as int));
        }
        let b = &bookings[i];
        if str_eq(b.status.as_str(), "confirmed") {
            confirmed = confirmed + 1;
            let p = match b.price_paid {
                Some(p) => p,
                None => 0,
            };
            assert(i64::MIN <= revenue_of(bookings@.subrange(0, i + 1)) <= i64::MAX);
            revenue = revenue + p;
        }
        i = i + 1;
    }
    assert(bookings@.subrange(0, n as int) =~= bookings@);
    BookingTotals { total_bookings: n as i64, confirmed_bookings: confirmed, revenue }
}

/// The totals as the statistics endpoints answer them.
pub open spec fn totals_json(t: BookingTotals) -> Seq<char> {
    "{\"totalBookings\":"@ + int_str(t.total_bookings as int) + ",\"confirmedBookings\":"@ + int_str(
        t.confirmed_bookings as int,
    ) + ",\"revenue\":"@ + int_str(t.revenue as int) + "}"@
}

pub fn totals_value(t: &BookingTotals) -> (r: String)
    ensures
        r@ == totals_json(*t),
{
    let mut v: Vec<char> = Vec::new();
    append_str(&mut v, "{\"totalBookings\":");
    append_chars(&mut v, &i64_chars(t.total_bookings));
    append_str(&mut v, ",\"confirmedBookings\":");
    append_chars(&mut v, &i64_chars(t.confirmed_bookings));
    append_str(&mut v, ",\"revenue\":");
    append_chars(&mut v, &i64_chars(t.revenue));
    append_str(&mut v, "}");
    string_of(&v)
}

/// The answer of the admin statistics endpoints: GET only, admins only, then
/// the totals over `bookings`.
pub fn admin_stats_reply(is_get: bool, is_admin: bool, bookings: &[Booking]) -> (r: Reply)
    requires
        bookings@.len() <= i64::MAX,
        revenue_fits(bookings@),
    ensures
        !is_get ==> (r matches Reply::Json { status, body } && status == 405 && body@
            == crate::checkout::error_json("method not allowed"@)),
        is_get && !is_admin ==> (r matches Reply::Json { status, body } && status == 401 && body@
            == crate::checkout::error_json("Unauthorized"@)),
        is_get && is_admin ==> (r matches Reply::Json { status, body } && status == 200 && body@ == totals_json(
            BookingTotals {
                total_bookings: bookings@.len() as i64,
                confirmed_bookings: confirmed_count(bookings@) as i64,
                revenue: revenue_of(bookings@) as i64,
            },
        )),
{
    if !is_get {
        return crate::checkout::error_reply(405, "method not allowed");
    }
    if !is_admin {
        return crate::checkout::error_reply(401, "Unauthorized");
    }
    let t = booking_totals(bookings);
    Reply::Json { status: 200, body: totals_value(&t) }
}

// ---------------------------------------------------------------------------
// Table rows
// ---------------------------------------------------------------------------

/// A row of the bookings table.
#[derive(Debug)]
pub struct BookingRow {
    pub user_name: String,
    pub user_phone: String,
    pub starts_at: String,
    pub status: String,
    pub price_label: String,
}

/// When a booking starts, as the table shows it: the date, then the hour.
pub open spec fn start_label(ms: i64) -> Seq<char> {
    date_str(ms) + " "@ + zero_pad((ms as int % DAY_MS as int) / HOUR_MS as int, 2) + ":00"@
}

/// `r` is the table row of booking `b`: the user (the booking holds no
/// name or phone), when it starts, its status and price.
pub open spec fn row_of(r: BookingRow, b: Booking) -> bool {
    &&& r.user_name@ == b.user_id@
    &&& r.user_phone@ == Seq::<char>::empty()
    &&& r.starts_at@ == start_label(b.starts_at)
    &&& r.status@ == b.status@
    &&& r.price_label@ == isk_label(
        match b.price_paid {
            Some(p) => p,
            None => 0,
        },
    )
}

fn booking_row(b: &Booking) -> (r: BookingRow)
    ensures
        row_of(r, *b),
{
    let mut v: Vec<char> = Vec::new();
    let d = date_string(b.starts_at);
    append_str(&mut v, d.as_str());
    append_str(&mut v, " ");
    append_chars(&mut v, &zero_pad_chars(hour_of(b.starts_at), 2));
    append_str(&mut v, ":00");
    BookingRow {
        user_name: b.user_id.clone(),
        user_phone: String::new(),
        starts_at: string_of(&v),
        status: b.status.clone(),
        price_label: format_isk(
            match b.price_paid {
                Some(p) => p,
                None => 0,
            },
        ),
    }
}

/// `x` placed after every booking of `s` that starts no earlier (stable).
pub open spec fn insert_latest(s: Seq<Booking>, x: Booking) -> Seq<Booking>
    decreases s.len(),
{
    if s.len() == 0 {
        seq![x]
    } else if s.last().starts_at >= x.starts_at {
        s.push(x)
    } else {
        insert_latest(s.drop_last(), x).push(s.last())
    }
}

/// The bookings latest first, ties in input order.
pub open spec fn latest_first(s: Seq<Booking>) -> Seq<Booking>
    decreases s.len(),
{
    if s.len() == 0 {
        seq![]
    } else {
        insert_latest(latest_first(s.drop_last()), s.last())
    }
}

fn insert_latest_exec(out: &mut Vec<Booking>, x: Booking)
    ensures
        final(out)@ == insert_latest(old(out)@, x),
{
    let ghost s = out@;
    let mut j = out.len();
    assert(s.subrange(0, s.len() as int) =~= s);
    assert(s.subrange(s.len() as int, s.len() as int) =~= Seq::<Booking>::empty());
    while j > 0 && !(out[j - 1].starts_at >= x.starts_at)
        invariant
            j <= s.len(),
            out@ == s,
            insert_latest(s, x) == insert_latest(s.subrange(0, j as int), x) + s.subrange(j as int, s.len() as int),
        decreases j,
    {
        let ghost pre = s.subrange(0, j as int);
        assert(pre.drop_last() =~= s.subrange(0, j - 1));
        assert(pre.last() == s[j - 1]);
        assert(insert_latest(pre, x) == insert_latest(s.subrange(0, j - 1), x).push(s[j - 1]));
        assert(insert_latest(s.subrange(0, j - 1), x).push(s[j - 1]) + s.subrange(j as int, s.len() as int)
            =~= insert_latest(s.subrange(0, j - 1), x) + s.subrange(j - 1, s.len() as int));
        j = j - 1;
    }
    proof {
        let pre = s.subrange(0, j as int);
        if j > 0 {
            assert(pre.last() == s[j - 1]);
            assert(insert_latest(pre, x) == pre.push(x));
        } else {
            assert(pre =~= Seq::<Booking>::empty());
        }
    }
    out.insert(j, x);
    assert(out@ =~= insert_latest(s, x));
}

/// The rows of the bookings table: every booking, latest start first.
pub fn admin_booking_rows(bookings: &Vec<Booking>) -> (rows: Vec<BookingRow>)
    ensures
        rows@.len() == bookings@.len(),
        forall|i: int| 0 <= i < rows@.len() ==> row_of(#[trigger] rows@[i], latest_first(bookings@)[i]),
{
    let mut sorted: Vec<Booking> = Vec::new();
    let mut k: usize = 0;
    while k < bookings.len()
        invariant
            k <= bookings@.len(),
            sorted@ == latest_first(bookings@.subrange(0, k as int)),
        decreases bookings@.len() - k,
    {
        assert(bookings@.subrange(0, k + 1).drop_last() =~= bookings@.subrange(0, k as int));
        insert_latest_exec(&mut sorted, bookings[k].clone());
        k = k + 1;
    }
    assert(bookings@.subrange(0, bookings@.len() as int) =~= bookings@);
    proof {
        lemma_latest_first_len(bookings@);
    }
    let mut rows: Vec<BookingRow> = Vec::new();
    let mut i: usize = 0;
    while i < sorted.len()
        invariant
            i <= sorted@.len(),
            sorted@ == latest_first(bookings@),
            rows@.len() == i,
            forall|j: int| 0 <= j < i ==> row_of(#[trigger] rows@[j], sorted@[j]),
        decreases sorted@.len() - i,
    {
        rows.push(booking_row(&sorted[i]));
        i = i + 1;
    }
    rows
}

proof fn lemma_insert_latest_len(s: Seq<Booking>, x: Booking)
    ensures
        insert_latest(s, x).len() == s.len() + 1,
    decreases s.len(),
{
    if s.len() > 0 && !(s.last().starts_at >= x.starts_at) {
        lemma_insert_latest_len(s.drop_last(), x);
    }
}

proof fn lemma_latest_first_len(s: Seq<Booking>)
    ensures
        latest_first(s).len() == s.len(),
    decreases s.len(),
{
    if s.len() > 0 {
        lemma_latest_first_len(s.drop_last());
        lemma_insert_latest_len(latest_first(s.drop_last()), s.last());
    }
}

/// A row of the pending bank-transfer table.
#[derive(Debug)]
pub struct PaymentRow {
    pub customer_name: String,
    pub provider_ref: String,
    pub amount_label: String,
    pub created_at: String,
}

/// The pending bank transfers among `ps`, in order.
pub open spec fn pending_transfers(ps: Seq<Payment>) -> Seq<Payment>
    decreases ps.len(),
{
    if ps.len() == 0 {
        seq![]
    } else if ps.last().provider@ == "bank_transfer"@ && ps.last().status@ == "pending"@ {
        pending_transfers(ps.drop_last()).push(ps.last())
    } else {
        pending_transfers(ps.drop_last())
    }
}

/// `x` placed after every payment of `s` made no earlier (stable).
pub open spec fn insert_newest(s: Seq<Payment>, x: Payment) -> Seq<Payment>
    decreases s.len(),
{
    if s.len() == 0 {
        seq![x]
    } else if s.last().created_at >= x.created_at {
        s.push(x)
    } else {
        insert_newest(s.drop_last(), x).push(s.last())
    }
}

/// The payments newest first, ties in input order.
pub open spec fn newest_first(s: Seq<Payment>) -> Seq<Payment>
    decreases s.len(),
{
    if s.len() == 0 {
        seq![]
    } else {
        insert_newest(newest_first(s.drop_last()), s.last())
    }
}

fn insert_newest_exec(out: &mut Vec<Payment>, x: Payment)
    ensures
        final(out)@ == insert_newest(old(out)@, x),
{
    let ghost s = out@;
    let mut j = out.len();
    assert(s.subrange(0, s.len() as int) =~= s);
    assert(s.subrange(s.len() as int, s.len() as int) =~= Seq::<Payment>::empty());
    while j > 0 && !(out[j - 1].created_at >= x.created_at)
        invariant
            j <= s.len(),
            out@ == s,
            insert_newest(s, x) == insert_newest(s.subrange(0, j as int), x) + s.subrange(j as int, s.len() as int),
        decreases j,
    {
        let ghost pre = s.subrange(0, j as int);
        assert(pre.drop_last() =~= s.subrange(0, j - 1));
        assert(pre.last() == s[j - 1]);
        assert(insert_newest(pre, x) == insert_newest(s.subrange(0, j - 1), x).push(s[j - 1]));
        assert(insert_newest(s.subrange(0, j - 1), x).push(s[j - 1]) + s.subrange(j as int, s.len() as int)
            =~= insert_newest(s.subrange(0, j - 1), x) + s.subrange(j - 1, s.len() as int));
        j = j - 1;
    }
    proof {
        let pre = s.subrange(0, j as int);
        if j > 0 {
            assert(pre.last() == s[j - 1]);
            assert(insert_newest(pre, x) == pre.push(x));
        } else {
            assert(pre =~= Seq::<Payment>::empty());
        }
    }
    out.insert(j, x);
    assert(out@ =~= insert_newest(s, x));
}

/// `r` is the table row of payment `p`.
pub open spec fn payment_row_of(r: PaymentRow, p: Payment) -> bool {
    &&& r.customer_name@ == p.user_id@
    &&& r.provider_ref@ == p.provider_ref@
    &&& r.amount_label@ == isk_label(p.amount)
    &&& r.created_at@ == date_str(p.created_at)
}

proof fn lemma_insert_newest_len(s: Seq<Payment>, x: Payment)
    ensures
        insert_newest(s, x).len() == s.len() + 1,
    decreases s.len(),
{
    if s.len() > 0 && !(s.last().created_at >= x.created_at) {
        lemma_insert_newest_len(s.drop_last(), x);
    }
}

proof fn lemma_newest_first_len(s: Seq<Payment>)
    ensures
        newest_first(s).len() == s.len(),
    decreases s.len(),
{
    if s.len() > 0 {
        lemma_newest_first_len(s.drop_last());
        lemma_insert_newest_len(newest_first(s.drop_last()), s.last());
    }
}

/// The rows of the payments table: the pending bank transfers awaiting
/// confirmation, newest first.
pub fn admin_payment_rows(payments: &Vec<Payment>) -> (rows: Vec<PaymentRow>)
    ensures
        rows@.len() == newest_first(pending_transfers(payments@)).len(),
        forall|i: int| 0 <= i < rows@.len() ==> payment_row_of(
            #[trigger] rows@[i],
            newest_first(pending_transfers(payments@))[i],
        ),
{
    let mut pending: Vec<Payment> = Vec::new();
    let mut k: usize = 0;
    while k < payments.len()
        invariant
            k <= payments@.len(),
            pending@ == pending_transfers(payments@.subrange(0, k as int)),
        decreases payments@.len() - k,
    {
        assert(payments@.subrange(0, k + 1).drop_last() =~= payments@.subrange(0, k as int));
        assert(payments@.subrange(0, k + 1).last() == payments@[k as int]);
        let p = &payments[k];
        if str_eq(p.provider.as_str(), "bank_transfer") && str_eq(p.status.as_str(), "pending") {
            pending.push(p.clone());
        }
        k = k + 1;
    }
    assert(payments@.subrange(0, payments@.len() as int) =~= payments@);
    let mut sorted: Vec<Payment> = Vec::new();
    let mut m: usize = 0;
    while m < pending.len()
        invariant
            m <= pending@.len(),
            sorted@ == newest_first(pending@.subrange(0, m as int)),
        decreases pending@.len() - m,
    {
        assert(pending@.subrange(0, m + 1).drop_last() =~= pending@.subrange(0, m as int));
        insert_newest_exec(&mut sorted, pending[m].clone());
        m = m + 1;
    }
    assert(pending@.subrange(0, pending@.len() as int) =~= pending@);
    let mut rows: Vec<PaymentRow> = Vec::new();
    let mut i: usize = 0;
    while i < sorted.len()
        invariant
            i <= sorted@.len(),
            sorted@ == newest_first(pending_transfers(payments@)),
            rows@.len() == i,
            forall|j: int| 0 <= j < i ==> payment_row_of(#[trigger] rows@[j], sorted@[j]),
        decreases sorted@.len() - i,
    {
        let p = &sorted[i];
        rows.push(
            PaymentRow {
                customer_name: p.user_id.clone(),
                provider_ref: p.provider_ref.clone(),
                amount_label: format_isk(p.amount),
                created_at: date_string(p.created_at),
            },
        );
        i = i + 1;
    }
    rows
}

/// A settings checkbox is ticked: `on`, `true` or `1`.
pub fn checkbox_on(value: Option<&str>) -> (r: bool)
    ensures
        r == match value {
            Some(v) => v@ == "on"@ || v@ == "true"@ || v@ == "1"@,
            None => false,
        },
{
    match value {
        Some(v) => str_eq(v, "on") || str_eq(v, "true") || str_eq(v, "1"),
        None => false,
    }
}

/// The totals split over any division of the bookings: the confirmed count
/// and the revenue of a list are those of its two parts added.
pub proof fn lemma_totals_additive(a: Seq<Booking>, b: Seq<Booking>)
    ensures
        confirmed_count(a + b) == confirmed_count(a) + confirmed_count(b),
        revenue_of(a + b) == revenue_of(a) + revenue_of(b),
    decreases b.len(),
{
    if b.len() == 0 {
        assert(a + b =~= a);
    } else {
        assert((a + b).drop_last() =~= a + b.drop_last());
        assert((a + b).last() == b.last());
        lemma_totals_additive(a, b.drop_last());
    }
}

/// What one booking adds to the totals: a confirmed booking counts once and
/// adds its paid price (nothing when it holds none); a booking in any other
/// status adds nothing. The confirmed count never exceeds the number of
/// bookings.
pub proof fn lemma_booking_contribution(bs: Seq<Booking>, x: Booking)
    ensures
        confirmed_count(bs.push(x)) == confirmed_count(bs) + if x.status@ == "confirmed"@ {
            1int
        } else {
            0int
        },
        revenue_of(bs.push(x)) == revenue_of(bs) + if x.status@ == "confirmed"@ {
            match x.price_paid {
                Some(p) => p as int,
                None => 0int,
            }
        } else {
            0int
        },
        0 <= confirmed_count(bs) <= bs.len(),
    decreases bs.len(),
{
    assert(bs.push(x).drop_last() =~= bs);
    if bs.len() > 0 {
        lemma_booking_contribution(bs.drop_last(), bs.last());
        assert(bs.drop_last().push(bs.last()) =~= bs);
    }
}

/// `s` is ordered latest start first.
pub open spec fn starts_descending(s: Seq<Booking>) -> bool {
    forall|i: int, j: int| 0 <= i < j < s.len() ==> (#[trigger] s[i]).starts_at >= (#[trigger] s[j]).starts_at
}

proof fn lemma_insert_latest(s: Seq<Booking>, x: Booking)
    requires
        starts_descending(s),
    ensures
        starts_descending(insert_latest(s, x)),
        insert_latest(s, x).to_multiset() == s.to_multiset().insert(x),
    decreases s.len(),
{
    broadcast use vstd::seq_lib::group_to_multiset_ensures;
    if s.len() == 0 {
        assert(seq![x] =~= Seq::<Booking>::empty().push(x));
    } else if s.last().starts_at >= x.starts_at {
    } else {
        let d = s.drop_last();
        assert(starts_descending(d)) by {
            assert forall|i: int, j: int| 0 <= i < j < d.len() implies (#[trigger] d[i]).starts_at
                >= (#[trigger] d[j]).starts_at by {
                assert(d[i] == s[i] && d[j] == s[j]);
            }
        }
        lemma_insert_latest(d, x);
        let t = insert_latest(d, x);
        assert(d.push(s.last()) =~= s);
        assert forall|k: int| 0 <= k < t.len() implies (#[trigger] t[k]).starts_at >= s.last().starts_at by {
            assert(t.to_multiset().count(t[k]) > 0);
            assert(t.to_multiset().count(t[k]) == d.to_multiset().insert(x).count(t[k]));
            if t[k] != x {
                assert(d.to_multiset().count(t[k]) > 0);
                assert(d.contains(t[k]));
                let m = choose|m: int| 0 <= m < d.len() && d[m] == t[k];
                assert(s[m] == d[m]);
                assert(s[s.len() - 1] == s.last());
            }
        }
    }
}

/// The bookings table lists every booking exactly once, latest start first.
pub proof fn lemma_latest_first(s: Seq<Booking>)
    ensures
        starts_descending(latest_first(s)),
        latest_first(s).to_multiset() == s.to_multiset(),
        latest_first(s).len() == s.len(),
    decreases s.len(),
{
    broadcast use vstd::seq_lib::group_to_multiset_ensures;
    if s.len() > 0 {
        lemma_latest_first(s.drop_last());
        lemma_insert_latest(latest_first(s.drop_last()), s.last());
        assert(s.drop_last().push(s.last()) =~= s);
    }
    assert(latest_first(s).to_multiset().len() == latest_first(s).len());
    assert(s.to_multiset().len() == s.len());
}

/// `s` is ordered newest first.
pub open spec fn created_descending(s: Seq<Payment>) -> bool {
    forall|i: int, j: int| 0 <= i < j < s.len() ==> (#[trigger] s[i]).created_at >= (#[trigger] s[j]).created_at
}

proof fn lemma_insert_newest(s: Seq<Payment>, x: Payment)
    requires
        created_descending(s),
    ensures
        created_descending(insert_newest(s, x)),
        insert_newest(s, x).to_multiset() == s.to_multiset().insert(x),
    decreases s.len(),
{
    broadcast use vstd::seq_lib::group_to_multiset_ensures;
    if s.len() == 0 {
        assert(seq![x] =~= Seq::<Payment>::empty().push(x));
    } else if s.last().created_at >= x.created_at {
    } else {
        let d = s.drop_last();
        assert(created_descending(d)) by {
            assert forall|i: int, j: int| 0 <= i < j < d.len() implies (#[trigger] d[i]).created_at
                >= (#[trigger] d[j]).created_at by {
                assert(d[i] == s[i] && d[j] == s[j]);
            }
        }
        lemma_insert_newest(d, x);
        let t = insert_newest(d, x);
        assert(d.push(s.last()) =~= s);
        assert forall|k: int| 0 <= k < t.len() implies (#[trigger] t[k]).created_at >= s.last().created_at by {
            assert(t.to_multiset().count(t[k]) > 0);
            assert(t.to_multiset().count(t[k]) == d.to_multiset().insert(x).count(t[k]));
            if t[k] != x {
                assert(d.to_multiset().count(t[k]) > 0);
                assert(d.contains(t[k]));
                let m = choose|m: int| 0 <= m < d.len() && d[m] == t[k];
                assert(s[m] == d[m]);
                assert(s[s.len() - 1] == s.last());
            }
        }
    }
}

/// The pending-transfers table lists exactly the payments that are bank
/// transfers still pending, each once, newest first.
pub proof fn lemma_pending_transfer_rows(ps: Seq<Payment>)
    ensures
        created_descending(newest_first(pending_transfers(ps))),
        newest_first(pending_transfers(ps)).to_multiset() == pending_transfers(ps).to_multiset(),
        forall|i: int|
            0 <= i < pending_transfers(ps).len() ==> (#[trigger] pending_transfers(ps)[i]).provider@
                == "bank_transfer"@ && pending_transfers(ps)[i].status@ == "pending"@,
        forall|i: int|
            0 <= i < ps.len() && (#[trigger] ps[i]).provider@ == "bank_transfer"@ && ps[i].status@ == "pending"@
                ==> pending_transfers(ps).contains(ps[i]),
    decreases ps.len(),
{
    lemma_newest_first(pending_transfers(ps));
    lemma_pending_members(ps);
}

proof fn lemma_newest_first(s: Seq<Payment>)
    ensures
        created_descending(newest_first(s)),
        newest_first(s).to_multiset() == s.to_multiset(),
    decreases s.len(),
{
    broadcast use vstd::seq_lib::group_to_multiset_ensures;
    if s.len() > 0 {
        lemma_newest_first(s.drop_last());
        lemma_insert_newest(newest_first(s.drop_last()), s.last());
        assert(s.drop_last().push(s.last()) =~= s);
    }
}

proof fn lemma_pending_members(ps: Seq<Payment>)
    ensures
        forall|i: int|
            0 <= i < pending_transfers(ps).len() ==> (#[trigger] pending_transfers(ps)[i]).provider@
                == "bank_transfer"@ && pending_transfers(ps)[i].status@ == "pending"@,
        forall|i: int|
            0 <= i < ps.len() && (#[trigger] ps[i]).provider@ == "bank_transfer"@ && ps[i].status@ == "pending"@
                ==> pending_transfers(ps).contains(ps[i]),
    decreases ps.len(),
{
    if ps.len() > 0 {
        let d = ps.drop_last();
        lemma_pending_members(d);
        let pd = pending_transfers(d);
        let p = pending_transfers(ps);
        assert forall|i: int| 0 <= i < p.len() implies (#[trigger] p[i]).provider@ == "bank_transfer"@
            && p[i].status@ == "pending"@ by {
            if i < pd.len() {
                assert(p[i] == pd[i]);
            }
        }
        assert forall|i: int|
            0 <= i < ps.len() && (#[trigger] ps[i]).provider@ == "bank_transfer"@ && ps[i].status@ == "pending"@
                implies p.contains(ps[i]) by {
            if i < d.len() {
                assert(d[i] == ps[i]);
                let m = choose|m: int| 0 <= m < pd.len() && pd[m] == d[i];
                assert(p[m] == pd[m]);
            } else {
                assert(p[p.len() - 1] == ps[i]);
            }
        }
    }
}

} // verus!
