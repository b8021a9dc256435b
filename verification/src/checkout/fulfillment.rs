//! Fulfilment of a paid cart: every line is made real in turn (a slot
//! becomes a confirmed booking, a package a number of user-package grants, a
//! subscription a number of subscription windows, a gift card a number of
//! issued cards), then the cart is marked paid, its payment succeeded, and
//! its lines cleared. A cart already paid is left as it is, so a repeated
//! callback fulfils nothing twice.

use vstd::prelude::*;
use crate::booking::store::{
    booking_at, booking_id, create_in_range, create_plan, planned_booking, put_booking, same_store, BookingPlan,
    Store as BookingStore, UserPackage, UserSubscription,
};
use crate::booking::time::{instant_checked, instant_outcome, opt_int};
use crate::cart::{
    carts_keyed, lemma_keyed_cart_id, lines_of, next_seq, record_id, seq_after, sort_lines, CartItem, Store as CartStore,
};
use crate::checkout::{
    by_cart_ref, gift_code, kept_text, lemma_by_cart_ref_lookup, lemma_by_cart_ref_upsert, payments_keyed, GiftCard,
    Store as PaymentStore,
};
use crate::meta::{meta_get, meta_str, meta_str_spec, Meta, MetaValue};
use crate::table::{lemma_map_upsert, lookup, map_values, upsert};
use crate::text::{
    append_str, chars_of, find_sub, find_sub_chars, opt_chars, owned, parse_i64, parse_i64_spec, str_eq, string_of,
    trim, trim_str,
};

verus! {

/// A fulfilment failure: the payment-error code that picks the cancel-page
/// message and the payment audit, and a message.
#[derive(Debug)]
pub struct FulfillError {
    pub code: String,
    pub message: String,
}

/// The code of a fulfilment that failed after the payment went through.
pub const BOOKING_FAILED: &'static str = "payment_succeeded_booking_failed";

/// The code of a slot booked by someone else while the payment ran.
pub const SLOT_TAKEN: &'static str = "slot_taken_after_payment";

/// The default subscription window, 90 days in milliseconds.
pub const DEFAULT_SUB_WINDOW_MS: i64 = 7_776_000_000;

fn fail(code: &str, message: &str) -> (e: FulfillError)
    ensures
        e.code@ == code@,
        e.message@ == message@,
{
    FulfillError { code: owned(code), message: owned(message) }
}

// ---------------------------------------------------------------------------
// Reading line metadata
// ---------------------------------------------------------------------------

/// The integer under `key`: an integer, a number's integer part, or a
/// string that parses as an integer once trimmed.
pub open spec fn meta_int_at(m: Meta, key: Seq<char>) -> Option<i64> {
    match meta_get(m, key) {
        Some(MetaValue::Int(n)) => Some(n),
        Some(MetaValue::Num { json, whole }) => Some(whole),
        Some(MetaValue::Str(s)) => parse_i64_spec(trim(s@)),
        _ => None,
    }
}

fn meta_int_exec(m: &Meta, key: &str) -> (r: Option<i64>)
    ensures
        r == meta_int_at(*m, key@),
{
    match m.get(key) {
        Some(MetaValue::Int(n)) => Some(*n),
        Some(MetaValue::Num { json, whole }) => Some(*whole),
        Some(MetaValue::Str(s)) => parse_i64(&trim_str(s.as_str())),
        _ => None,
    }
}

/// The instant under `key`: an integer (or a number's integer part) as
/// epoch-ms, or a string read as an instant, else as an integer, once
/// trimmed. Text the instant parser cannot handle without overflowing reads
/// as an integer or nothing.
pub open spec fn meta_instant(m: Meta, key: Seq<char>) -> Option<i64> {
    match meta_get(m, key) {
        Some(MetaValue::Int(n)) => Some(n),
        Some(MetaValue::Num { json, whole }) => Some(whole),
        Some(MetaValue::Str(s)) => match instant_outcome(trim(s@)) {
            Some(Some(v)) => Some(v as i64),
            _ => parse_i64_spec(trim(s@)),
        },
        _ => None,
    }
}

fn meta_instant_exec(m: &Meta, key: &str) -> (r: Option<i64>)
    ensures
        r == meta_instant(*m, key@),
{
    match m.get(key) {
        Some(MetaValue::Int(n)) => Some(*n),
        Some(MetaValue::Num { json, whole }) => Some(*whole),
        Some(MetaValue::Str(s)) => {
            let t = trim_str(s.as_str());
            match instant_checked(&t) {
                Some(Some(v)) => Some(v),
                _ => parse_i64(&t),
            }
        },
        _ => None,
    }
}

/// Slots per granted package: the first of `slotCount`, `slots`,
/// `remaining` that reads as an integer, at least 1 (1 when none does).
pub open spec fn package_slots(m: Meta) -> i64 {
    let n = match meta_int_at(m, "slotCount"@) {
        Some(n) => n,
        None => match meta_int_at(m, "slots"@) {
            Some(n) => n,
            None => match meta_int_at(m, "remaining"@) {
                Some(n) => n,
                None => 1,
            },
        },
    };
    if n < 1 {
        1
    } else {
        n
    }
}

fn package_slots_exec(m: &Meta) -> (r: i64)
    ensures
        r == package_slots(*m),
{
    let n = match meta_int_exec(m, "slotCount") {
        Some(n) => n,
        None => match meta_int_exec(m, "slots") {
            Some(n) => n,
            None => match meta_int_exec(m, "remaining") {
                Some(n) => n,
                None => 1,
            },
        },
    };
    if n < 1 {
        1
    } else {
        n
    }
}

/// Bookings per day a granted subscription allows: `dailyLimit` or
/// `daily_limit`, at least 1 (2 when neither reads as an integer).
pub open spec fn daily_limit_of(m: Meta) -> i64 {
    let n = match meta_int_at(m, "dailyLimit"@) {
        Some(n) => n,
        None => match meta_int_at(m, "daily_limit"@) {
            Some(n) => n,
            None => 2,
        },
    };
    if n < 1 {
        1
    } else {
        n
    }
}

fn daily_limit_exec(m: &Meta) -> (r: i64)
    ensures
        r == daily_limit_of(*m),
{
    let n = match meta_int_exec(m, "dailyLimit") {
        Some(n) => n,
        None => match meta_int_exec(m, "daily_limit") {
            Some(n) => n,
            None => 2,
        },
    };
    if n < 1 {
        1
    } else {
        n
    }
}

/// How many grants a line makes: its quantity, at least one.
pub open spec fn units(quantity: i64) -> nat {
    if quantity < 1 {
        1
    } else {
        quantity as nat
    }
}

// ---------------------------------------------------------------------------
// Record views
// ---------------------------------------------------------------------------

/// A user package by its text and numbers.
pub open spec fn pkg_view(p: UserPackage) -> (Seq<char>, Seq<char>, i64, Option<Seq<char>>, Option<i64>) {
    (p.id@, p.user_id@, p.remaining, opt_chars(p.package_name), p.slot_count)
}

/// The user packages by their views.
pub open spec fn pkg_views(s: Seq<(Seq<char>, UserPackage)>) -> Seq<
    (Seq<char>, (Seq<char>, Seq<char>, i64, Option<Seq<char>>, Option<i64>)),
> {
    map_values(s, |p: UserPackage| pkg_view(p))
}

/// A user subscription by its text and numbers.
pub open spec fn sub_view(s: UserSubscription) -> (Seq<char>, Seq<char>, i64, i64, i64) {
    (s.id@, s.user_id@, s.valid_from, s.valid_until, s.daily_limit)
}

/// The user subscriptions by their views.
pub open spec fn sub_views(s: Seq<(Seq<char>, UserSubscription)>) -> Seq<
    (Seq<char>, (Seq<char>, Seq<char>, i64, i64, i64)),
> {
    map_values(s, |x: UserSubscription| sub_view(x))
}

/// The recipient and message of a gift card.
pub open spec fn card_recipient(c: GiftCard) -> (
    Option<Seq<char>>,
    Option<Seq<char>>,
    Option<Seq<char>>,
    Option<Seq<char>>,
) {
    (opt_chars(c.recipient_email), opt_chars(c.recipient_phone), opt_chars(c.recipient_name), opt_chars(c.message))
}

/// A gift card by its text and numbers: code, amount, balance, currency,
/// status, recipient, buyer, cart and issue time.
pub open spec fn card_view(c: GiftCard) -> (
    Seq<char>,
    i64,
    i64,
    Seq<char>,
    Seq<char>,
    (Option<Seq<char>>, Option<Seq<char>>, Option<Seq<char>>, Option<Seq<char>>),
    Seq<char>,
    Seq<char>,
    i64,
) {
    (
        c.code@,
        c.amount,
        c.balance,
        c.currency@,
        c.status@,
        card_recipient(c),
        c.purchased_by_user_id@,
        c.cart_id@,
        c.created_at,
    )
}

/// The gift cards by their views.
pub open spec fn card_views(s: Seq<(Seq<char>, GiftCard)>) -> Seq<
    (
        Seq<char>,
        (
            Seq<char>,
            i64,
            i64,
            Seq<char>,
            Seq<char>,
            (Option<Seq<char>>, Option<Seq<char>>, Option<Seq<char>>, Option<Seq<char>>),
            Seq<char>,
            Seq<char>,
            i64,
        ),
    ),
> {
    map_values(s, |c: GiftCard| card_view(c))
}

// ---------------------------------------------------------------------------
// Grants
// ---------------------------------------------------------------------------

/// The user packages after `k` grants of `slots` slots to `user`, the `j`th
/// under id `up-{now}-{seq + j}`.
pub open spec fn packages_granted(
    ps: Seq<(Seq<char>, (Seq<char>, Seq<char>, i64, Option<Seq<char>>, Option<i64>))>,
    seq: u64,
    k: nat,
    user: Seq<char>,
    slots: i64,
    name: Seq<char>,
    now: i64,
) -> Seq<(Seq<char>, (Seq<char>, Seq<char>, i64, Option<Seq<char>>, Option<i64>))>
    decreases k,
{
    if k == 0 {
        ps
    } else {
        let id = record_id("up"@, now, seq_after(seq, (k - 1) as nat));
        upsert(
            packages_granted(ps, seq, (k - 1) as nat, user, slots, name, now),
            id,
            (id, user, slots, Some(name), Some(slots)),
        )
    }
}

/// The user subscriptions after `k` grants of the window `from..until`
/// with `limit` bookings a day, the `j`th under id `us-{now}-{seq + j}`.
pub open spec fn subscriptions_granted(
    ss: Seq<(Seq<char>, (Seq<char>, Seq<char>, i64, i64, i64))>,
    seq: u64,
    k: nat,
    user: Seq<char>,
    from: i64,
    until: i64,
    limit: i64,
    now: i64,
) -> Seq<(Seq<char>, (Seq<char>, Seq<char>, i64, i64, i64))>
    decreases k,
{
    if k == 0 {
        ss
    } else {
        let id = record_id("us"@, now, seq_after(seq, (k - 1) as nat));
        upsert(
            subscriptions_granted(ss, seq, (k - 1) as nat, user, from, until, limit, now),
            id,
            (id, user, from, until, limit),
        )
    }
}

/// The gift cards after `k` issues for `line`, bought by `user` in cart
/// `cart_id`, the `j`th under the code for sequence number `seq + j`.
pub open spec fn cards_issued(
    cs: Seq<
        (
            Seq<char>,
            (
                Seq<char>,
                i64,
                i64,
                Seq<char>,
                Seq<char>,
                (Option<Seq<char>>, Option<Seq<char>>, Option<Seq<char>>, Option<Seq<char>>),
                Seq<char>,
                Seq<char>,
                i64,
            ),
        ),
    >,
    seq: u64,
    k: nat,
    line: CartItem,
    user: Seq<char>,
    cart_id: Seq<char>,
    now: i64,
) -> Seq<
    (
        Seq<char>,
        (
            Seq<char>,
            i64,
            i64,
            Seq<char>,
            Seq<char>,
            (Option<Seq<char>>, Option<Seq<char>>, Option<Seq<char>>, Option<Seq<char>>),
            Seq<char>,
            Seq<char>,
            i64,
        ),
    ),
>
    decreases k,
{
    if k == 0 {
        cs
    } else {
        let code = gift_code(now, seq_after(seq, (k - 1) as nat));
        let m = line.metadata;
        let currency = match meta_str_spec(m, "currency"@) {
            Some(c) => c,
            None => "ISK"@,
        };
        upsert(
            cards_issued(cs, seq, (k - 1) as nat, line, user, cart_id, now),
            code,
            (
                code,
                line.unit_price,
                line.unit_price,
                currency,
                "active"@,
                (
                    meta_str_spec(m, "recipientEmail"@),
                    meta_str_spec(m, "recipientPhone"@),
                    meta_str_spec(m, "recipientName"@),
                    meta_str_spec(m, "message"@),
                ),
                user,
                cart_id,
                now,
            ),
        )
    }
}

/// The payment store holds the same records and counter.
pub open spec fn same_payments(a: PaymentStore, b: PaymentStore) -> bool {
    &&& a.payments() == b.payments()
    &&& a.cards() == b.cards()
    &&& a.seq() == b.seq()
}

/// The booking store changed at most in its user packages.
pub open spec fn only_packages_changed(a: BookingStore, b: BookingStore) -> bool {
    &&& a.bookings() == b.bookings()
    &&& a.members() == b.members()
    &&& a.subscriptions() == b.subscriptions()
    &&& a.pricing() == b.pricing()
    &&& a.users() == b.users()
    &&& a.booking_seq() == b.booking_seq()
    &&& a.member_seq() == b.member_seq()
}

/// The booking store changed at most in its user subscriptions.
pub open spec fn only_subscriptions_changed(a: BookingStore, b: BookingStore) -> bool {
    &&& a.bookings() == b.bookings()
    &&& a.members() == b.members()
    &&& a.packages() == b.packages()
    &&& a.pricing() == b.pricing()
    &&& a.users() == b.users()
    &&& a.booking_seq() == b.booking_seq()
    &&& a.member_seq() == b.member_seq()
}

fn grant_package(
    payments: &mut PaymentStore,
    bookings: &mut BookingStore,
    user_id: &str,
    item: &CartItem,
    now_ms: i64,
)
    ensures
        pkg_views(final(bookings).packages()) == packages_granted(
            pkg_views(old(bookings).packages()),
            old(payments).seq(),
            units(item.quantity),
            user_id@,
            package_slots(item.metadata),
            item.name_snapshot@,
            now_ms,
        ),
        only_packages_changed(*final(bookings), *old(bookings)),
        final(payments).seq() == seq_after(old(payments).seq(), units(item.quantity)),
        final(payments).payments() == old(payments).payments(),
        final(payments).cards() == old(payments).cards(),
{
    let slots = package_slots_exec(&item.metadata);
    let n: i64 = if item.quantity < 1 {
        1
    } else {
        item.quantity
    };
    let ghost seq0 = payments.seq();
    let ghost pre = pkg_views(bookings.packages());
    let mut done: i64 = 0;
    while done < n
        invariant
            0 <= done <= n,
            n as nat == units(item.quantity),
            slots == package_slots(item.metadata),
            pkg_views(bookings.packages()) == packages_granted(
                pre,
                seq0,
                done as nat,
                user_id@,
                slots,
                item.name_snapshot@,
                now_ms,
            ),
            only_packages_changed(*bookings, *old(bookings)),
            payments.seq() == seq_after(seq0, done as nat),
            payments.payments() == old(payments).payments(),
            payments.cards() == old(payments).cards(),
        decreases n - done,
    {
        let id = payments.next_id("up", now_ms);
        let pkg = UserPackage {
            id,
            user_id: owned(user_id),
            remaining: slots,
            package_name: Some(item.name_snapshot.clone()),
            slot_count: Some(slots),
        };
        let ghost before = bookings.packages();
        bookings.put_user_package(&pkg);
        proof {
            lemma_map_upsert(before, pkg.id@, pkg, |p: UserPackage| pkg_view(p));
        }
        done = done + 1;
    }
}

fn grant_subscription(
    payments: &mut PaymentStore,
    bookings: &mut BookingStore,
    user_id: &str,
    item: &CartItem,
    now_ms: i64,
)
    requires
        now_ms <= i64::MAX - DEFAULT_SUB_WINDOW_MS,
    ensures
        sub_views(final(bookings).subscriptions()) == subscriptions_granted(
            sub_views(old(bookings).subscriptions()),
            old(payments).seq(),
            units(item.quantity),
            user_id@,
            match meta_instant(item.metadata, "validFrom"@) {
                Some(v) => v,
                None => now_ms,
            },
            match meta_instant(item.metadata, "validUntil"@) {
                Some(v) => v,
                None => (now_ms + DEFAULT_SUB_WINDOW_MS) as i64,
            },
            daily_limit_of(item.metadata),
            now_ms,
        ),
        only_subscriptions_changed(*final(bookings), *old(bookings)),
        final(payments).seq() == seq_after(old(payments).seq(), units(item.quantity)),
        final(payments).payments() == old(payments).payments(),
        final(payments).cards() == old(payments).cards(),
{
    let from = match meta_instant_exec(&item.metadata, "validFrom") {
        Some(v) => v,
        None => now_ms,
    };
    let until = match meta_instant_exec(&item.metadata, "validUntil") {
        Some(v) => v,
        None => now_ms + DEFAULT_SUB_WINDOW_MS,
    };
    let limit = daily_limit_exec(&item.metadata);
    let n: i64 = if item.quantity < 1 {
        1
    } else {
        item.quantity
    };
    let ghost seq0 = payments.seq();
    let ghost pre = sub_views(bookings.subscriptions());
    let mut done: i64 = 0;
    while done < n
        invariant
            0 <= done <= n,
            n as nat == units(item.quantity),
            sub_views(bookings.subscriptions()) == subscriptions_granted(
                pre,
                seq0,
                done as nat,
                user_id@,
                from,
                until,
                limit,
                now_ms,
            ),
            only_subscriptions_changed(*bookings, *old(bookings)),
            payments.seq() == seq_after(seq0, done as nat),
            payments.payments() == old(payments).payments(),
            payments.cards() == old(payments).cards(),
        decreases n - done,
    {
        let id = payments.next_id("us", now_ms);
        let sub = UserSubscription {
            id,
            user_id: owned(user_id),
            valid_from: from,
            valid_until: until,
            daily_limit: limit,
        };
        let ghost before = bookings.subscriptions();
        bookings.put_user_subscription(&sub);
        proof {
            lemma_map_upsert(before, sub.id@, sub, |x: UserSubscription| sub_view(x));
        }
        done = done + 1;
    }
}

fn issue_gift_card(
    payments: &mut PaymentStore,
    cart_id: &str,
    user_id: &str,
    item: &CartItem,
    now_ms: i64,
)
    ensures
        card_views(final(payments).cards()) == cards_issued(
            card_views(old(payments).cards()),
            old(payments).seq(),
            units(item.quantity),
            *item,
            user_id@,
            cart_id@,
            now_ms,
        ),
        final(payments).seq() == seq_after(old(payments).seq(), units(item.quantity)),
        final(payments).payments() == old(payments).payments(),
{
    let currency = match meta_str(&item.metadata, "currency") {
        Some(c) => c,
        None => owned("ISK"),
    };
    let email = meta_str(&item.metadata, "recipientEmail");
    let phone = meta_str(&item.metadata, "recipientPhone");
    let name = meta_str(&item.metadata, "recipientName");
    let message = meta_str(&item.metadata, "message");
    let n: i64 = if item.quantity < 1 {
        1
    } else {
        item.quantity
    };
    let ghost seq0 = payments.seq();
    let ghost pre = card_views(payments.cards());
    let mut done: i64 = 0;
    while done < n
        invariant
            0 <= done <= n,
            n as nat == units(item.quantity),
            currency@ == match meta_str_spec(item.metadata, "currency"@) {
                Some(c) => c,
                None => "ISK"@,
            },
            opt_chars(email) == meta_str_spec(item.metadata, "recipientEmail"@),
            opt_chars(phone) == meta_str_spec(item.metadata, "recipientPhone"@),
            opt_chars(name) == meta_str_spec(item.metadata, "recipientName"@),
            opt_chars(message) == meta_str_spec(item.metadata, "message"@),
            card_views(payments.cards()) == cards_issued(
                pre,
                seq0,
                done as nat,
                *item,
                user_id@,
                cart_id@,
                now_ms,
            ),
            payments.seq() == seq_after(seq0, done as nat),
            payments.payments() == old(payments).payments(),
        decreases n - done,
    {
        let ghost before = payments.cards();
        let card = payments.create_gift_card(
            item.unit_price,
            currency.as_str(),
            opt_as_str(&email),
            opt_as_str(&phone),
            opt_as_str(&name),
            opt_as_str(&message),
            user_id,
            cart_id,
            now_ms,
        );
        proof {
            lemma_kept_trimmed(opt_chars(email));
            lemma_kept_trimmed(opt_chars(phone));
            lemma_kept_trimmed(opt_chars(name));
            lemma_kept_trimmed(opt_chars(message));
            lemma_map_upsert(before, card.code@, card, |c: GiftCard| card_view(c));
        }
        done = done + 1;
    }
}

fn opt_as_str(o: &Option<String>) -> (r: Option<&str>)
    ensures
        crate::booking::store::opt_str(r) == opt_chars(*o),
{
    match o {
        Some(s) => Some(s.as_str()),
        None => None,
    }
}

/// Text already trimmed and non-empty is kept as it is.
proof fn lemma_kept_trimmed(o: Option<Seq<char>>)
    requires
        o matches Some(s) ==> (exists|t: Seq<char>| s == trim(t) && s.len() > 0),
    ensures
        kept_text(o) == o,
{
    if let Some(s) = o {
        let t = choose|t: Seq<char>| s == trim(t) && s.len() > 0;
        crate::text::lemma_trim_idempotent(t);
    }
}

// ---------------------------------------------------------------------------
// Slots
// ---------------------------------------------------------------------------

/// The text naming a slot line's start: `startsAt` from its metadata, else
/// its reference.
pub open spec fn slot_start(line: CartItem) -> Seq<char> {
    match meta_str_spec(line.metadata, "startsAt"@) {
        Some(s) => s,
        None => line.ref_id@,
    }
}

/// The payment type a slot line books with, and the package or subscription
/// it names: an explicit subscription id or `paymentType` tag first, then a
/// package id or tag, else a single booking.
pub open spec fn slot_payment(m: Meta) -> (Seq<char>, Option<Seq<char>>) {
    let sub_id = meta_str_spec(m, "userSubscriptionId"@);
    let pkg_id = meta_str_spec(m, "userPackageId"@);
    let tag = meta_str_spec(m, "paymentType"@);
    if sub_id is Some || tag == Some("subscription"@) {
        ("subscription"@, sub_id)
    } else if pkg_id is Some || tag == Some("package"@) {
        ("package"@, pkg_id)
    } else {
        ("single"@, None)
    }
}

/// `p` occurs somewhere in `s`.
pub open spec fn contains(s: Seq<char>, p: Seq<char>) -> bool {
    find_sub(s, p) is Some
}

/// What booking a slot line comes to from the booking store `b`: the instant
/// and plan it books, or the code and message it fails with. A start that
/// does not parse fails, and so does one the booking rules cannot work with
/// without overflowing.
pub open spec fn slot_outcome(b: BookingStore, line: CartItem, user: Seq<char>) -> Result<
    (i64, BookingPlan),
    (Seq<char>, Seq<char>),
> {
    match instant_outcome(slot_start(line)) {
        Some(Some(v)) => {
            let ms = v as i64;
            let (pt, r) = slot_payment(line.metadata);
            if !create_in_range(b, user, ms, pt, r) {
                Err((BOOKING_FAILED@, "slot item "@ + line.id@ + " is out of range"@))
            } else {
                match create_plan(b, user, ms, pt, r) {
                    Err(msg) => Err(
                        (
                            if contains(msg, "þegar bókaður"@) {
                                SLOT_TAKEN@
                            } else {
                                BOOKING_FAILED@
                            },
                            msg,
                        ),
                    ),
                    Ok(plan) => Ok((ms, plan)),
                }
            }
        },
        _ => Err((BOOKING_FAILED@, "slot item "@ + line.id@ + " has invalid startsAt"@)),
    }
}

/// The booking store after a slot line booked instant `ms` under `plan`.
pub open spec fn slot_booked(
    b0: BookingStore,
    b1: BookingStore,
    line: CartItem,
    user: Seq<char>,
    now: i64,
    ms: i64,
    plan: BookingPlan,
) -> bool {
    &&& booking_at(b1.bookings(), ms) matches Some(bk) && planned_booking(
        bk,
        booking_id(now, b0.booking_seq()),
        user,
        ms,
        slot_payment(line.metadata).0,
        plan,
        None,
        now,
    ) && b1.bookings() == put_booking(b0.bookings(), bk)
    &&& b1.packages() == plan.packages
    &&& b1.booking_seq() == crate::booking::store::next_seq(b0.booking_seq())
    &&& b1.members() == b0.members()
    &&& b1.subscriptions() == b0.subscriptions()
    &&& b1.pricing() == b0.pricing()
    &&& b1.users() == b0.users()
    &&& b1.member_seq() == b0.member_seq()
}

fn opt_is(o: &Option<String>, w: &str) -> (b: bool)
    ensures
        b == (opt_chars(*o) == Some(w@)),
{
    match o {
        Some(t) => str_eq(t.as_str(), w),
        None => false,
    }
}

fn slot_message(prefix: &str, id: &str, suffix: &str) -> (r: String)
    ensures
        r@ == prefix@ + id@ + suffix@,
{
    let mut v: Vec<char> = Vec::new();
    append_str(&mut v, prefix);
    append_str(&mut v, id);
    append_str(&mut v, suffix);
    string_of(&v)
}

fn fulfill_slot(bookings: &mut BookingStore, user_id: &str, item: &CartItem, now_ms: i64) -> (r: Result<(), FulfillError>)
    ensures
        match slot_outcome(*old(bookings), *item, user_id@) {
            Err(e) => r matches Err(fe) && fe.code@ == e.0 && fe.message@ == e.1 && same_store(
                *final(bookings),
                *old(bookings),
            ),
            Ok(p) => r is Ok && slot_booked(*old(bookings), *final(bookings), *item, user_id@, now_ms, p.0, p.1),
        },
{
    let starts = match meta_str(&item.metadata, "startsAt") {
        Some(s) => s,
        None => item.ref_id.clone(),
    };
    let slot_ms = match instant_checked(&chars_of(starts.as_str())) {
        Some(Some(v)) => v,
        _ => {
            let msg = slot_message("slot item ", item.id.as_str(), " has invalid startsAt");
            return Err(FulfillError { code: owned(BOOKING_FAILED), message: msg });
        },
    };
    let sub_id = meta_str(&item.metadata, "userSubscriptionId");
    let pkg_id = meta_str(&item.metadata, "userPackageId");
    let tag = meta_str(&item.metadata, "paymentType");
    let (ptype, ref_id): (&str, Option<String>) = if sub_id.is_some() || opt_is(&tag, "subscription") {
        ("subscription", sub_id)
    } else if pkg_id.is_some() || opt_is(&tag, "package") {
        ("package", pkg_id)
    } else {
        ("single", None)
    };
    let r = opt_as_str(&ref_id);
    if !bookings.create_booking_in_range(user_id, slot_ms, ptype, r) {
        let msg = slot_message("slot item ", item.id.as_str(), " is out of range");
        return Err(FulfillError { code: owned(BOOKING_FAILED), message: msg });
    }
    match bookings.create_booking(user_id, slot_ms, ptype, r, None, now_ms) {
        Ok(_) => Ok(()),
        Err(e) => {
            let taken = find_sub_chars(&chars_of(e.as_str()), &chars_of("þegar bókaður")).is_some();
            let code = if taken {
                SLOT_TAKEN
            } else {
                BOOKING_FAILED
            };
            Err(FulfillError { code: owned(code), message: e })
        },
    }
}

// ---------------------------------------------------------------------------
// The whole cart
// ---------------------------------------------------------------------------

/// The metadata a subscription line carries decides its daily limit: an
/// integer `dailyLimit` of at least 1 is taken as is; without `dailyLimit`, an
/// integer `daily_limit` of at least 1 is; with neither the limit is 2; and
/// it is never below 1.
pub proof fn lemma_daily_limit_from_metadata(m: Meta, n: i64)
    ensures
        daily_limit_of(m) >= 1,
        n >= 1 && meta_get(m, "dailyLimit"@) == Some(MetaValue::Int(n)) ==> daily_limit_of(m) == n,
        n >= 1 && meta_get(m, "dailyLimit"@) is None && meta_get(m, "daily_limit"@) == Some(MetaValue::Int(n))
            ==> daily_limit_of(m) == n,
        meta_get(m, "dailyLimit"@) is None && meta_get(m, "daily_limit"@) is None ==> daily_limit_of(m) == 2,
{
}

/// The metadata a package line carries decides its slots: the first of an
/// integer `slotCount`, `slots`, `remaining` (of at least 1) present, else 1;
/// never below 1.
pub proof fn lemma_package_slots_from_metadata(m: Meta, n: i64)
    ensures
        package_slots(m) >= 1,
        n >= 1 && meta_get(m, "slotCount"@) == Some(MetaValue::Int(n)) ==> package_slots(m) == n,
        n >= 1 && meta_get(m, "slotCount"@) is None && meta_get(m, "slots"@) == Some(MetaValue::Int(n))
            ==> package_slots(m) == n,
        n >= 1 && meta_get(m, "slotCount"@) is None && meta_get(m, "slots"@) is None && meta_get(m, "remaining"@)
            == Some(MetaValue::Int(n)) ==> package_slots(m) == n,
        meta_get(m, "slotCount"@) is None && meta_get(m, "slots"@) is None && meta_get(m, "remaining"@) is None
            ==> package_slots(m) == 1,
{
}

proof fn lemma_granted_last<V>(ss: Seq<(Seq<char>, V)>, id: Seq<char>, v: V)
    ensures
        lookup(upsert(ss, id, v), id) == Some(v),
{
    crate::table::lemma_lookup_upsert(ss, id, v, id);
}

/// The stores before (`b0`, `p0`) and after (`b1`, `p1`) fulfilling `line`
/// for `user` in cart `cart_id` at `now`: packages and subscriptions are
/// granted once per unit, gift cards issued once per unit, a slot booked,
/// and a product changes nothing.
pub open spec fn line_done(
    b0: BookingStore,
    p0: PaymentStore,
    b1: BookingStore,
    p1: PaymentStore,
    line: CartItem,
    user: Seq<char>,
    cart_id: Seq<char>,
    now: i64,
) -> bool {
    let t = line.item_type@;
    let n = units(line.quantity);
    if t == "package"@ {
        &&& pkg_views(b1.packages()) == packages_granted(
            pkg_views(b0.packages()),
            p0.seq(),
            n,
            user,
            package_slots(line.metadata),
            line.name_snapshot@,
            now,
        )
        &&& only_packages_changed(b1, b0)
        &&& p1.seq() == seq_after(p0.seq(), n)
        &&& p1.payments() == p0.payments()
        &&& p1.cards() == p0.cards()
    } else if t == "subscription"@ {
        &&& sub_views(b1.subscriptions()) == subscriptions_granted(
            sub_views(b0.subscriptions()),
            p0.seq(),
            n,
            user,
            match meta_instant(line.metadata, "validFrom"@) {
                Some(v) => v,
                None => now,
            },
            match meta_instant(line.metadata, "validUntil"@) {
                Some(v) => v,
                None => (now + DEFAULT_SUB_WINDOW_MS) as i64,
            },
            daily_limit_of(line.metadata),
            now,
        )
        &&& only_subscriptions_changed(b1, b0)
        &&& p1.seq() == seq_after(p0.seq(), n)
        &&& p1.payments() == p0.payments()
        &&& p1.cards() == p0.cards()
    } else if t == "gift_card"@ {
        &&& card_views(p1.cards()) == cards_issued(card_views(p0.cards()), p0.seq(), n, line, user, cart_id, now)
        &&& p1.seq() == seq_after(p0.seq(), n)
        &&& p1.payments() == p0.payments()
        &&& same_store(b1, b0)
    } else if t == "slot"@ {
        &&& slot_outcome(b0, line, user) matches Ok(p) && slot_booked(b0, b1, line, user, now, p.0, p.1)
        &&& same_payments(p1, p0)
    } else {
        &&& same_store(b1, b0)
        &&& same_payments(p1, p0)
    }
}

/// A subscription line grants its subscription to the buyer with the daily
/// limit its metadata names: given an integer `dailyLimit` n >= 1, the
/// subscription stored under the last id the line draws belongs to the buyer
/// and allows n bookings a day.
pub proof fn lemma_subscription_line_limit(
    b0: BookingStore,
    p0: PaymentStore,
    b1: BookingStore,
    p1: PaymentStore,
    line: CartItem,
    user: Seq<char>,
    cart_id: Seq<char>,
    now: i64,
    n: i64,
)
    requires
        line.item_type@ == "subscription"@,
        line_done(b0, p0, b1, p1, line, user, cart_id, now),
        meta_get(line.metadata, "dailyLimit"@) == Some(MetaValue::Int(n)),
        n >= 1,
    ensures
        lookup(
            sub_views(b1.subscriptions()),
            record_id("us"@, now, seq_after(p0.seq(), (units(line.quantity) - 1) as nat)),
        ) matches Some(v) && v.1 == user && v.4 == n,
{
    reveal_strlit("subscription");
    reveal_strlit("package");
    assert("subscription"@ != "package"@) by {
        assert("subscription"@[0] != "package"@[0]);
    }
    lemma_daily_limit_from_metadata(line.metadata, n);
    let k = units(line.quantity);
    let id = record_id("us"@, now, seq_after(p0.seq(), (k - 1) as nat));
    let from = match meta_instant(line.metadata, "validFrom"@) {
        Some(v) => v,
        None => now,
    };
    let until = match meta_instant(line.metadata, "validUntil"@) {
        Some(v) => v,
        None => (now + DEFAULT_SUB_WINDOW_MS) as i64,
    };
    lemma_granted_last(
        subscriptions_granted(sub_views(b0.subscriptions()), p0.seq(), (k - 1) as nat, user, from, until, n, now),
        id,
        (id, user, from, until, n),
    );
}

/// A package line grants its package to the buyer with the slots its
/// metadata names: given an integer `slotCount` n >= 1, the package stored
/// under the last id the line draws belongs to the buyer, holds n slots and
/// counts n in all.
pub proof fn lemma_package_line_slots(
    b0: BookingStore,
    p0: PaymentStore,
    b1: BookingStore,
    p1: PaymentStore,
    line: CartItem,
    user: Seq<char>,
    cart_id: Seq<char>,
    now: i64,
    n: i64,
)
    requires
        line.item_type@ == "package"@,
        line_done(b0, p0, b1, p1, line, user, cart_id, now),
        meta_get(line.metadata, "slotCount"@) == Some(MetaValue::Int(n)),
        n >= 1,
    ensures
        lookup(
            pkg_views(b1.packages()),
            record_id("up"@, now, seq_after(p0.seq(), (units(line.quantity) - 1) as nat)),
        ) matches Some(v) && v.1 == user && v.2 == n && v.4 == Some(n),
{
    lemma_package_slots_from_metadata(line.metadata, n);
    let k = units(line.quantity);
    let id = record_id("up"@, now, seq_after(p0.seq(), (k - 1) as nat));
    lemma_granted_last(
        packages_granted(pkg_views(b0.packages()), p0.seq(), (k - 1) as nat, user, n, line.name_snapshot@, now),
        id,
        (id, user, n, Some(line.name_snapshot@), Some(n)),
    );
}

/// A gift-card line issues cards worth its unit price to the buyer: the
/// card under the last code the line draws holds the unit price as amount
/// and balance, is active, and records the buyer and the cart.
pub proof fn lemma_gift_card_line_value(
    b0: BookingStore,
    p0: PaymentStore,
    b1: BookingStore,
    p1: PaymentStore,
    line: CartItem,
    user: Seq<char>,
    cart_id: Seq<char>,
    now: i64,
)
    requires
        line.item_type@ == "gift_card"@,
        line_done(b0, p0, b1, p1, line, user, cart_id, now),
    ensures
        lookup(card_views(p1.cards()), gift_code(now, seq_after(p0.seq(), (units(line.quantity) - 1) as nat)))
            matches Some(v) && v.1 == line.unit_price && v.2 == line.unit_price && v.4 == "active"@ && v.6 == user
            && v.7 == cart_id && v.8 == now,
{
    reveal_strlit("gift_card");
    reveal_strlit("subscription");
    reveal_strlit("package");
    assert("gift_card"@ != "package"@) by {
        assert("gift_card"@[0] != "package"@[0]);
    }
    assert("gift_card"@ != "subscription"@) by {
        assert("gift_card"@[0] != "subscription"@[0]);
    }
    let k = units(line.quantity);
    let code = gift_code(now, seq_after(p0.seq(), (k - 1) as nat));
    let m = line.metadata;
    let currency = match meta_str_spec(m, "currency"@) {
        Some(c) => c,
        None => "ISK"@,
    };
    lemma_granted_last(
        cards_issued(card_views(p0.cards()), p0.seq(), (k - 1) as nat, line, user, cart_id, now),
        code,
        (
            code,
            line.unit_price,
            line.unit_price,
            currency,
            "active"@,
            (
                meta_str_spec(m, "recipientEmail"@),
                meta_str_spec(m, "recipientPhone"@),
                meta_str_spec(m, "recipientName"@),
                meta_str_spec(m, "message"@),
            ),
            user,
            cart_id,
            now,
        ),
    );
}

/// A package, subscription or gift-card line grants once per unit bought:
/// with quantity q >= 1 it draws exactly q sequence numbers, so the counter
/// moves on by q (a quantity below one still grants once).
pub proof fn lemma_one_grant_per_unit(
    b0: BookingStore,
    p0: PaymentStore,
    b1: BookingStore,
    p1: PaymentStore,
    line: CartItem,
    user: Seq<char>,
    cart_id: Seq<char>,
    now: i64,
)
    requires
        line.item_type@ == "package"@ || line.item_type@ == "subscription"@ || line.item_type@ == "gift_card"@,
        line_done(b0, p0, b1, p1, line, user, cart_id, now),
    ensures
        line.quantity >= 1 ==> p1.seq() == seq_after(p0.seq(), line.quantity as nat),
        line.quantity < 1 ==> p1.seq() == seq_after(p0.seq(), 1),
{
}

/// Why `line` cannot be fulfilled from the booking store `b`, if it cannot:
/// only a slot line can fail.
pub open spec fn line_failure(b: BookingStore, line: CartItem, user: Seq<char>) -> Option<(Seq<char>, Seq<char>)> {
    if line.item_type@ == "slot"@ {
        match slot_outcome(b, line, user) {
            Err(e) => Some(e),
            Ok(_) => None,
        }
    } else {
        None
    }
}

/// `hist` walks the stores from `(b0, p0)` through the first lines of
/// `lines`, one state per line fulfilled.
pub open spec fn walked(
    hist: Seq<(BookingStore, PaymentStore)>,
    lines: Seq<CartItem>,
    user: Seq<char>,
    cart_id: Seq<char>,
    now: i64,
    b0: BookingStore,
    p0: PaymentStore,
) -> bool {
    &&& 1 <= hist.len() <= lines.len() + 1
    &&& hist[0] == (b0, p0)
    &&& forall|i: int|
        0 <= i < hist.len() - 1 ==> line_failure(hist[i].0, #[trigger] lines[i], user) is None && line_done(
            hist[i].0,
            hist[i].1,
            hist[i + 1].0,
            hist[i + 1].1,
            lines[i],
            user,
            cart_id,
            now,
        )
}

/// Payment `id` marked succeeded, from `a` to `b`.
pub open spec fn marked_succeeded(a: PaymentStore, b: PaymentStore, id: Seq<char>, now: i64) -> bool {
    &&& b.cards() == a.cards()
    &&& b.seq() == a.seq()
    &&& match lookup(a.payments(), id) {
        None => b.payments() == a.payments(),
        Some(p) => lookup(b.payments(), p.id@) matches Some(p2) && p2 == (crate::checkout::Payment {
            status: p2.status,
            updated_at: now,
            ..p
        }) && p2.status@ == "succeeded"@ && b.payments() == upsert(a.payments(), p.id@, p2),
    }
}

/// Cart `c` marked `status` at `now`, from `a` to `b`.
pub open spec fn cart_marked(a: CartStore, b: CartStore, c: crate::cart::Cart, status: Seq<char>, now: i64) -> bool {
    &&& lookup(b.carts(), c.id@) matches Some(c2) && c2 == (crate::cart::Cart {
        status: c2.status,
        updated_at: now,
        ..c
    }) && c2.status@ == status && b.carts() == upsert(a.carts(), c.id@, c2)
    &&& b.seq() == a.seq()
}

/// How a walk over the lines ended: at a line that failed, or past the last
/// line with the cart marked paid, the payment succeeded and the lines
/// cleared.
pub open spec fn settled(
    hist: Seq<(BookingStore, PaymentStore)>,
    lines: Seq<CartItem>,
    user: Seq<char>,
    r: Result<(), FulfillError>,
    b: BookingStore,
    p: PaymentStore,
    c0: CartStore,
    c1: CartStore,
    cart: crate::cart::Cart,
    pay_id: Seq<char>,
    cart_id: Seq<char>,
    now: i64,
) -> bool {
    let k = hist.len() - 1;
    if k < lines.len() {
        &&& line_failure(hist[k].0, lines[k], user) matches Some(e) && r matches Err(fe) && fe.code@ == e.0
            && fe.message@ == e.1
        &&& same_store(b, hist[k].0)
        &&& same_payments(p, hist[k].1)
        &&& c1.carts() == c0.carts()
        &&& c1.items() == c0.items()
        &&& c1.seq() == c0.seq()
    } else {
        &&& same_store(b, hist[k].0)
        &&& cart_marked(c0, c1, cart, "paid"@, now)
        &&& match lookup(hist[k].1.payments(), pay_id) {
            None => {
                &&& r matches Err(fe) && fe.code@ == BOOKING_FAILED@ && fe.message@ == "payment not found"@
                &&& same_payments(p, hist[k].1)
                &&& c1.items() == c0.items()
            },
            Some(_) => {
                &&& r is Ok
                &&& marked_succeeded(hist[k].1, p, pay_id, now)
                &&& forall|key: Seq<char>| #[trigger] lookup(c1.items(), key) == crate::cart::cleared(
                    c0.items(),
                    cart_id,
                    key,
                )
            },
        }
    }
}

proof fn lemma_kinds_differ()
    ensures
        "package"@ != "slot"@,
        "subscription"@ != "slot"@,
        "gift_card"@ != "slot"@,
        "subscription"@ != "package"@,
        "gift_card"@ != "package"@,
        "gift_card"@ != "subscription"@,
{
    reveal_strlit("package");
    reveal_strlit("subscription");
    reveal_strlit("gift_card");
    reveal_strlit("slot");
    assert("package"@[0] != "slot"@[0]);
    assert("subscription"@[1] != "slot"@[1]);
    assert("gift_card"@[0] != "slot"@[0]);
    assert("subscription"@[0] != "package"@[0]);
    assert("gift_card"@[0] != "package"@[0]);
    assert("gift_card"@[0] != "subscription"@[0]);
}

fn fulfill_line(
    payments: &mut PaymentStore,
    bookings: &mut BookingStore,
    user_id: &str,
    cart_id: &str,
    item: &CartItem,
    now_ms: i64,
) -> (r: Result<(), FulfillError>)
    requires
        now_ms <= i64::MAX - DEFAULT_SUB_WINDOW_MS,
    ensures
        match line_failure(*old(bookings), *item, user_id@) {
            Some(e) => {
                &&& r matches Err(fe) && fe.code@ == e.0 && fe.message@ == e.1
                &&& same_store(*final(bookings), *old(bookings))
                &&& same_payments(*final(payments), *old(payments))
            },
            None => {
                &&& r is Ok
                &&& line_done(
                    *old(bookings),
                    *old(payments),
                    *final(bookings),
                    *final(payments),
                    *item,
                    user_id@,
                    cart_id@,
                    now_ms,
                )
            },
        },
{
    proof {
        lemma_kinds_differ();
    }
    let t = item.item_type.as_str();
    if str_eq(t, "package") {
        assert(line_failure(*old(bookings), *item, user_id@) is None);
        grant_package(payments, bookings, user_id, item, now_ms);
        assert(line_done(*old(bookings), *old(payments), *bookings, *payments, *item, user_id@, cart_id@, now_ms));
        Ok(())
    } else if str_eq(t, "subscription") {
        assert(line_failure(*old(bookings), *item, user_id@) is None);
        grant_subscription(payments, bookings, user_id, item, now_ms);
        assert(line_done(*old(bookings), *old(payments), *bookings, *payments, *item, user_id@, cart_id@, now_ms));
        Ok(())
    } else if str_eq(t, "gift_card") {
        assert(line_failure(*old(bookings), *item, user_id@) is None);
        issue_gift_card(payments, cart_id, user_id, item, now_ms);
        assert(same_store(*bookings, *old(bookings)));
        assert(line_done(*old(bookings), *old(payments), *bookings, *payments, *item, user_id@, cart_id@, now_ms));
        Ok(())
    } else if str_eq(t, "slot") {
        let r = fulfill_slot(bookings, user_id, item, now_ms);
        assert(same_payments(*payments, *old(payments)));
        r
    } else {
        assert(line_failure(*old(bookings), *item, user_id@) is None);
        assert(line_done(*old(bookings), *old(payments), *bookings, *payments, *item, user_id@, cart_id@, now_ms));
        Ok(())
    }
}

/// What fulfilling cart `cart_id` against the payment with reference
/// `provider_ref` does, from the stores `b0`, `p0`, `c0` to `b1`, `p1`, `c1`,
/// with result `r`: the cart and its payment must exist; a paid cart is left
/// as it is (its payment marked succeeded if it was not); otherwise the lines
/// are walked in order until one fails or all are done.
pub open spec fn fulfilled(
    b0: BookingStore,
    p0: PaymentStore,
    c0: CartStore,
    b1: BookingStore,
    p1: PaymentStore,
    c1: CartStore,
    cart_id: Seq<char>,
    provider_ref: Seq<char>,
    now: i64,
    r: Result<(), FulfillError>,
) -> bool {
    match lookup(c0.carts(), cart_id) {
        None => {
            &&& r matches Err(fe) && fe.code@ == BOOKING_FAILED@ && fe.message@ == "cart not found"@
            &&& same_store(b1, b0)
            &&& same_payments(p1, p0)
            &&& c1.carts() == c0.carts()
            &&& c1.items() == c0.items()
            &&& c1.seq() == c0.seq()
        },
        Some(cart) => match by_cart_ref(p0.payments(), cart_id, provider_ref) {
            None => {
                &&& r matches Err(fe) && fe.code@ == BOOKING_FAILED@ && fe.message@ == "payment row missing"@
                &&& same_store(b1, b0)
                &&& same_payments(p1, p0)
                &&& c1.carts() == c0.carts()
                &&& c1.items() == c0.items()
                &&& c1.seq() == c0.seq()
            },
            Some(pay) => if cart.status@ == "paid"@ {
                &&& r is Ok
                &&& same_store(b1, b0)
                &&& c1.carts() == c0.carts()
                &&& c1.items() == c0.items()
                &&& c1.seq() == c0.seq()
                &&& pay.status@ == "succeeded"@ ==> same_payments(p1, p0)
                &&& pay.status@ != "succeeded"@ ==> marked_succeeded(
                    p0,
                    p1,
                    pay.id@,
                    now,
                )
            } else {
                exists|hist: Seq<(BookingStore, PaymentStore)>|
                    #[trigger] walked(
                        hist,
                        sort_lines(lines_of(c0.items(), cart_id)),
                        pay.user_id@,
                        cart_id,
                        now,
                        b0,
                        p0,
                    ) && settled(
                        hist,
                        sort_lines(lines_of(c0.items(), cart_id)),
                        pay.user_id@,
                        r,
                        b1,
                        p1,
                        c0,
                        c1,
                        cart,
                        pay.id@,
                        cart_id,
                        now,
                    )
            },
        },
    }
}

/// Fulfilling a line never touches the payment records, so neither does a
/// walk over the lines.
proof fn lemma_walk_keeps_payments(
    hist: Seq<(BookingStore, PaymentStore)>,
    lines: Seq<CartItem>,
    user: Seq<char>,
    cart_id: Seq<char>,
    now: i64,
    b0: BookingStore,
    p0: PaymentStore,
    i: int,
)
    requires
        walked(hist, lines, user, cart_id, now, b0, p0),
        0 <= i < hist.len(),
    ensures
        hist[i].1.payments() == p0.payments(),
    decreases i,
{
    if i > 0 {
        lemma_walk_keeps_payments(hist, lines, user, cart_id, now, b0, p0, i - 1);
        assert(line_done(hist[i - 1].0, hist[i - 1].1, hist[i].0, hist[i].1, lines[i - 1], user, cart_id, now));
    }
}

/// Fulfilment is idempotent: once fulfilling a cart against its payment has
/// succeeded, fulfilling it again (at any later time) succeeds and changes
/// nothing: no booking, package, subscription or gift card is granted
/// twice, and the carts and payments stay as they are.
pub proof fn lemma_fulfillment_idempotent(
    b0: BookingStore,
    p0: PaymentStore,
    c0: CartStore,
    b1: BookingStore,
    p1: PaymentStore,
    c1: CartStore,
    b2: BookingStore,
    p2: PaymentStore,
    c2: CartStore,
    cart_id: Seq<char>,
    provider_ref: Seq<char>,
    now: i64,
    later: i64,
    r1: Result<(), FulfillError>,
    r2: Result<(), FulfillError>,
)
    requires
        carts_keyed(c0.carts()),
        payments_keyed(p0.payments()),
        fulfilled(b0, p0, c0, b1, p1, c1, cart_id, provider_ref, now, r1),
        r1 is Ok,
        fulfilled(b1, p1, c1, b2, p2, c2, cart_id, provider_ref, later, r2),
    ensures
        r2 is Ok,
        same_store(b2, b1),
        same_payments(p2, p1),
        c2.carts() == c1.carts(),
        c2.items() == c1.items(),
        c2.seq() == c1.seq(),
{
    let cart = lookup(c0.carts(), cart_id).unwrap();
    let pay = by_cart_ref(p0.payments(), cart_id, provider_ref).unwrap();
    lemma_by_cart_ref_lookup(p0.payments(), cart_id, provider_ref);
    if cart.status@ == "paid"@ {
        if pay.status@ != "succeeded"@ {
            let pp = lookup(p1.payments(), pay.id@).unwrap();
            lemma_by_cart_ref_upsert(p0.payments(), cart_id, provider_ref, pp);
        }
    } else {
        let lines = sort_lines(lines_of(c0.items(), cart_id));
        let hist = choose|hist: Seq<(BookingStore, PaymentStore)>|
            #[trigger] walked(hist, lines, pay.user_id@, cart_id, now, b0, p0) && settled(
                hist,
                lines,
                pay.user_id@,
                r1,
                b1,
                p1,
                c0,
                c1,
                cart,
                pay.id@,
                cart_id,
                now,
            );
        let k = hist.len() - 1;
        lemma_walk_keeps_payments(hist, lines, pay.user_id@, cart_id, now, b0, p0, k);
        lemma_keyed_cart_id(c0.carts(), cart_id);
        let pp = lookup(p1.payments(), pay.id@).unwrap();
        lemma_by_cart_ref_upsert(p0.payments(), cart_id, provider_ref, pp);
    }
}

/// Fulfil cart `cart_id` against its payment with reference `provider_ref`.
#[verifier::spinoff_prover]
pub fn fulfill_cart(
    payments: &mut PaymentStore,
    carts: &mut CartStore,
    bookings: &mut BookingStore,
    cart_id: &str,
    provider_ref: &str,
    now_ms: i64,
) -> (r: Result<(), FulfillError>)
    requires
        now_ms <= i64::MAX - DEFAULT_SUB_WINDOW_MS,
    ensures
        fulfilled(
            *old(bookings),
            *old(payments),
            *old(carts),
            *final(bookings),
            *final(payments),
            *final(carts),
            cart_id@,
            provider_ref@,
            now_ms,
            r,
        ),
{
    let (cart, items) = match carts.load_cart(cart_id) {
        Some(x) => x,
        None => return Err(fail(BOOKING_FAILED, "cart not found")),
    };
    let payment = match payments.by_cart_and_ref(cart_id, provider_ref) {
        Some(p) => p,
        None => return Err(fail(BOOKING_FAILED, "payment row missing")),
    };
    let user_id = payment.user_id.clone();
    if str_eq(cart.status.as_str(), "paid") {
        if !str_eq(payment.status.as_str(), "succeeded") {
            let _ = payments.mark_succeeded(payment.id.as_str(), now_ms);
        }
        return Ok(());
    }
    let ghost lines = items@;
    let ghost b0 = *bookings;
    let ghost p0 = *payments;
    let ghost mut hist: Seq<(BookingStore, PaymentStore)> = seq![(b0, p0)];
    let mut i: usize = 0;
    while i < items.len()
        invariant
            i <= items@.len(),
            lines == items@,
            user_id@ == payment.user_id@,
            now_ms <= i64::MAX - DEFAULT_SUB_WINDOW_MS,
            hist.len() == i + 1,
            hist[i as int] == (*bookings, *payments),
            walked(hist, lines, user_id@, cart_id@, now_ms, b0, p0),
            carts.carts() == old(carts).carts(),
            carts.items() == old(carts).items(),
            carts.seq() == old(carts).seq(),
            lookup(old(carts).carts(), cart_id@) == Some(cart),
            lines == sort_lines(lines_of(old(carts).items(), cart_id@)),
            by_cart_ref(old(payments).payments(), cart_id@, provider_ref@) == Some(payment),
            cart.status@ != "paid"@,
            b0 == *old(bookings),
            p0 == *old(payments),
        decreases items@.len() - i,
    {
        let item = &items[i];
        let ghost bb = *bookings;
        let ghost pp = *payments;
        assert(*item == lines[i as int]);
        match fulfill_line(payments, bookings, user_id.as_str(), cart_id, item, now_ms) {
            Ok(()) => {},
            Err(e) => {
                assert(settled(
                    hist,
                    lines,
                    user_id@,
                    Err(e),
                    *bookings,
                    *payments,
                    *old(carts),
                    *carts,
                    cart,
                    payment.id@,
                    cart_id@,
                    now_ms,
                ));
                return Err(e);
            },
        }
        proof {
            assert(line_failure(bb, lines[i as int], user_id@) is None);
            assert(line_done(bb, pp, *bookings, *payments, lines[i as int], user_id@, cart_id@, now_ms));
            let h2 = hist.push((*bookings, *payments));
            assert forall|j: int| 0 <= j < h2.len() - 1 implies line_failure(h2[j].0, #[trigger] lines[j], user_id@)
                is None && line_done(h2[j].0, h2[j].1, h2[j + 1].0, h2[j + 1].1, lines[j], user_id@, cart_id@, now_ms) by {
                if j < i {
                    assert(h2[j] == hist[j] && h2[j + 1] == hist[j + 1]);
                }
            }
            hist = h2;
        }
        i = i + 1;
    }
    let ghost pk = *payments;
    let _ = carts.set_status(cart_id, "paid", now_ms);
    match payments.mark_succeeded(payment.id.as_str(), now_ms) {
        Ok(()) => {},
        Err(e) => {
            return Err(FulfillError { code: owned(BOOKING_FAILED), message: e });
        },
    }
    carts.clear_items(cart_id);
    Ok(())
}

/// The cart marked failed and, when a payment with this reference exists for
/// it, that payment failed with `code`: from `p0`, `c0` to `p1`, `c1`.
pub open spec fn failed_marked(
    p0: PaymentStore,
    c0: CartStore,
    p1: PaymentStore,
    c1: CartStore,
    cart_id: Seq<char>,
    provider_ref: Seq<char>,
    code: Seq<char>,
    now: i64,
) -> bool {
    &&& match lookup(c0.carts(), cart_id) {
        Some(c) => cart_marked(c0, c1, c, "failed"@, now),
        None => c1.carts() == c0.carts() && c1.seq() == c0.seq(),
    }
    &&& c1.items() == c0.items()
    &&& match by_cart_ref(p0.payments(), cart_id, provider_ref) {
        None => same_payments(p1, p0),
        Some(pay) => crate::checkout::failed_with(p0, p1, pay.id@, code, now),
    }
}

/// Mark the cart failed and, when a payment with this reference exists for
/// it, that payment failed with `error_code` (both on a best-effort basis).
pub fn mark_cart_failed(
    payments: &mut PaymentStore,
    carts: &mut CartStore,
    cart_id: &str,
    provider_ref: &str,
    error_code: &str,
    now_ms: i64,
)
    ensures
        failed_marked(
            *old(payments),
            *old(carts),
            *final(payments),
            *final(carts),
            cart_id@,
            provider_ref@,
            error_code@,
            now_ms,
        ),
{
    let _ = carts.set_status(cart_id, "failed", now_ms);
    if let Some(payment) = payments.by_cart_and_ref(cart_id, provider_ref) {
        let _ = payments.mark_failed(payment.id.as_str(), error_code, now_ms);
    }
}

} // verus!
