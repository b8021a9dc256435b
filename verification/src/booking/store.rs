//! The booking data layer: bookings keyed by slot start time, user packages,
//! user subscriptions and their members, pricing rules and users, each held
//! as one record per key in ascending key order.
//!
//! Bookings are keyed by their **slot start**: one record per slot, which is
//! the no-double-booking guard, and scans come out in chronological order
//! (keys compare as the big-endian bytes of the `i64`, so a negative instant
//! sorts after every non-negative one). A booking blocks its slot while it is
//! `confirmed` or `pending`; a new booking on a slot whose record is cancelled
//! replaces that record.

use vstd::prelude::*;
use crate::booking::pricing::{effective_price, effective_slot_price, PricingRule};
use crate::booking::subscription::{covers, covers_date, days_in_range, daily_usage, clamp0};
use crate::booking::subscription_sharing::{
    normalize_subscription_invite_phone, normalized_phone, result_chars,
    summarize_shared_subscription_usage, summarizes, ListMemberView, SharedUsageSummary, UserSubscriptionMember,
};
use crate::booking::time::{
    add_days, date_str, date_string, day_start, day_start_spec, generate_day_slots, hour_of,
    iso_str, DAY_MS, HOUR_MS,
};
use crate::table::{entries_view, keys_sorted, lookup, upsert, Table};
use crate::text::{
    append_chars, append_str, chars_of, clone_opt_string, int_str, i64_chars, nat_digits, owned,
    str_eq, string_of, u64_digits,
};

verus! {

/// A confirmed/pending/cancelled booking record.
#[derive(Debug)]
pub struct Booking {
    pub id: String,
    pub user_id: String,
    pub starts_at: i64,
    pub status: String,
    pub payment_type: String,
    pub price_paid: Option<i64>,
    pub user_package_id: Option<String>,
    pub user_subscription_id: Option<String>,
    pub notes: Option<String>,
    pub created_at: i64,
    pub cancelled_at: Option<i64>,
}

impl Clone for Booking {
    fn clone(&self) -> (r: Booking)
        ensures
            r == *self,
    {
        Booking {
            id: self.id.clone(),
            user_id: self.user_id.clone(),
            starts_at: self.starts_at,
            status: self.status.clone(),
            payment_type: self.payment_type.clone(),
            price_paid: self.price_paid,
            user_package_id: clone_opt_string(&self.user_package_id),
            user_subscription_id: clone_opt_string(&self.user_subscription_id),
            notes: clone_opt_string(&self.notes),
            created_at: self.created_at,
            cancelled_at: self.cancelled_at,
        }
    }
}

/// A user's klippikort grant with a remaining slot count.
#[derive(Debug)]
pub struct UserPackage {
    pub id: String,
    pub user_id: String,
    pub remaining: i64,
    pub package_name: Option<String>,
    pub slot_count: Option<i64>,
}

impl Clone for UserPackage {
    fn clone(&self) -> (r: UserPackage)
        ensures
            r == *self,
    {
        UserPackage {
            id: self.id.clone(),
            user_id: self.user_id.clone(),
            remaining: self.remaining,
            package_name: clone_opt_string(&self.package_name),
            slot_count: self.slot_count,
        }
    }
}

/// A user's subscription window and its daily limit.
#[derive(Debug)]
pub struct UserSubscription {
    pub id: String,
    pub user_id: String,
    pub valid_from: i64,
    pub valid_until: i64,
    pub daily_limit: i64,
}

impl Clone for UserSubscription {
    fn clone(&self) -> (r: UserSubscription)
        ensures
            r == *self,
    {
        UserSubscription {
            id: self.id.clone(),
            user_id: self.user_id.clone(),
            valid_from: self.valid_from,
            valid_until: self.valid_until,
            daily_limit: self.daily_limit,
        }
    }
}

/// One slot in an availability response.
#[derive(Debug)]
pub struct SlotView {
    pub hour: i64,
    pub starts_at: String,
    pub price: i64,
    pub status: String,
}

/// One day of availability (24 slots).
#[derive(Debug)]
pub struct DayAvailability {
    pub date: String,
    pub slots: Vec<SlotView>,
}

/// A booking blocks its slot while `confirmed` or `pending` (a bank-transfer
/// checkout reserves a slot before final confirmation).
pub open spec fn is_active(status: Seq<char>) -> bool {
    status == "confirmed"@ || status == "pending"@
}

fn active_check(status: &str) -> (r: bool)
    ensures
        r == is_active(status@),
{
    str_eq(status, "confirmed") || str_eq(status, "pending")
}

/// The order of booking keys: the big-endian bytes of the slot start.
pub open spec fn slot_rank(t: i64) -> int {
    if t >= 0 {
        t as int
    } else {
        t as int + 0x1_0000_0000_0000_0000
    }
}

fn slot_before(a: i64, b: i64) -> (r: bool)
    ensures
        r == (slot_rank(a) < slot_rank(b)),
{
    if (a >= 0) == (b >= 0) {
        a < b
    } else {
        a >= 0
    }
}

/// Bookings in ascending key order, one per slot.
pub open spec fn slots_sorted(s: Seq<Booking>) -> bool {
    forall|i: int, j: int|
        0 <= i < j < s.len() ==> slot_rank(#[trigger] s[i].starts_at) < slot_rank(
            #[trigger] s[j].starts_at,
        )
}

/// The booking recorded for slot `t`, if any.
pub open spec fn booking_at(s: Seq<Booking>, t: i64) -> Option<Booking>
    decreases s.len(),
{
    if s.len() == 0 {
        None
    } else if s[0].starts_at == t {
        Some(s[0])
    } else {
        booking_at(s.drop_first(), t)
    }
}

/// The bookings after recording `b` under its slot: the slot's record is
/// replaced in place, or `b` goes where its key sorts.
pub open spec fn put_booking(s: Seq<Booking>, b: Booking) -> Seq<Booking>
    decreases s.len(),
{
    if s.len() == 0 {
        seq![b]
    } else if s[0].starts_at == b.starts_at {
        seq![b] + s.drop_first()
    } else if slot_rank(b.starts_at) < slot_rank(s[0].starts_at) {
        seq![b] + s
    } else {
        seq![s[0]] + put_booking(s.drop_first(), b)
    }
}

proof fn lemma_put_booking_sorted(s: Seq<Booking>, b: Booking)
    requires
        slots_sorted(s),
    ensures
        slots_sorted(put_booking(s, b)),
        forall|i: int|
            0 <= i < put_booking(s, b).len() ==> (#[trigger] put_booking(s, b)[i].starts_at
                == b.starts_at || exists|j: int|
                0 <= j < s.len() && s[j].starts_at == put_booking(s, b)[i].starts_at),
    decreases s.len(),
{
    let u = put_booking(s, b);
    if s.len() == 0 {
    } else if s[0].starts_at == b.starts_at {
        assert forall|i: int| 0 <= i < u.len() implies (#[trigger] u[i].starts_at == b.starts_at
            || exists|j: int| 0 <= j < s.len() && s[j].starts_at == u[i].starts_at) by {
            if i > 0 {
                assert(s[i].starts_at == u[i].starts_at);
            }
        }
        assert forall|i: int, j: int| 0 <= i < j < u.len() implies slot_rank(
            #[trigger] u[i].starts_at,
        ) < slot_rank(#[trigger] u[j].starts_at) by {
            assert(u[j] == s[j]);
            if i > 0 {
                assert(u[i] == s[i]);
            }
        }
    } else if slot_rank(b.starts_at) < slot_rank(s[0].starts_at) {
        assert forall|i: int| 0 <= i < u.len() implies (#[trigger] u[i].starts_at == b.starts_at
            || exists|j: int| 0 <= j < s.len() && s[j].starts_at == u[i].starts_at) by {
            if i > 0 {
                assert(s[i - 1].starts_at == u[i].starts_at);
            }
        }
        assert forall|i: int, j: int| 0 <= i < j < u.len() implies slot_rank(
            #[trigger] u[i].starts_at,
        ) < slot_rank(#[trigger] u[j].starts_at) by {
            assert(u[j] == s[j - 1]);
            if i > 0 {
                assert(u[i] == s[i - 1]);
            } else if j > 1 {
                assert(slot_rank(s[0].starts_at) < slot_rank(s[j - 1].starts_at));
            }
        }
    } else {
        let t = s.drop_first();
        assert forall|i: int, j: int| 0 <= i < j < t.len() implies slot_rank(
            #[trigger] t[i].starts_at,
        ) < slot_rank(#[trigger] t[j].starts_at) by {
            assert(t[i] == s[i + 1] && t[j] == s[j + 1]);
        }
        lemma_put_booking_sorted(t, b);
        let r = put_booking(t, b);
        assert(slot_rank(s[0].starts_at) != slot_rank(b.starts_at));
        assert forall|i: int| 0 <= i < u.len() implies (#[trigger] u[i].starts_at == b.starts_at
            || exists|j: int| 0 <= j < s.len() && s[j].starts_at == u[i].starts_at) by {
            if i > 0 {
                assert(u[i] == r[i - 1]);
                if r[i - 1].starts_at != b.starts_at {
                    let jj = choose|jj: int| 0 <= jj < t.len() && t[jj].starts_at == r[i - 1].starts_at;
                    assert(s[jj + 1].starts_at == u[i].starts_at);
                }
            }
        }
        assert forall|i: int, j: int| 0 <= i < j < u.len() implies slot_rank(
            #[trigger] u[i].starts_at,
        ) < slot_rank(#[trigger] u[j].starts_at) by {
            if i == 0 {
                let x = r[j - 1].starts_at;
                assert(u[j] == r[j - 1]);
                if x != b.starts_at {
                    let jj = choose|jj: int| 0 <= jj < t.len() && t[jj].starts_at == x;
                    assert(s[jj + 1].starts_at == x);
                }
            } else {
                assert(u[i] == r[i - 1] && u[j] == r[j - 1]);
            }
        }
    }
}

/// Recording a booking and reading its slot back gives that booking; every
/// other slot reads as before.
#[verifier::spinoff_prover]
pub proof fn lemma_booking_at_put(s: Seq<Booking>, b: Booking, t: i64)
    ensures
        booking_at(put_booking(s, b), b.starts_at) == Some(b),
        t != b.starts_at ==> booking_at(put_booking(s, b), t) == booking_at(s, t),
    decreases s.len(),
{
    let u = put_booking(s, b);
    if s.len() == 0 {
        assert(u.len() == 1 && u[0] == b);
        assert(u.drop_first() =~= Seq::<Booking>::empty());
        if t != b.starts_at {
            assert(booking_at(u, t) == booking_at(u.drop_first(), t));
        }
    } else if s[0].starts_at == b.starts_at {
        assert(u[0] == b);
        assert(u.drop_first() =~= s.drop_first());
        if t != b.starts_at {
            assert(booking_at(u, t) == booking_at(s.drop_first(), t));
        }
    } else if slot_rank(b.starts_at) < slot_rank(s[0].starts_at) {
        assert(u[0] == b);
        assert(u.drop_first() =~= s);
    } else {
        lemma_booking_at_put(s.drop_first(), b, t);
        assert(u[0] == s[0]);
        assert(u.drop_first() =~= put_booking(s.drop_first(), b));
        if t != b.starts_at && s[0].starts_at != t {
            assert(booking_at(u, t) == booking_at(put_booking(s.drop_first(), b), t));
        }
    }
}

/// The bookings, one per slot, in key order.
struct BookingTree {
    items: Vec<Booking>,
}

impl BookingTree {
    #[verifier::type_invariant]
    closed spec fn sorted(&self) -> bool {
        slots_sorted(self.items@)
    }

    fn new() -> (t: BookingTree)
        ensures
            t.items@ == Seq::<Booking>::empty(),
    {
        BookingTree { items: Vec::new() }
    }

    fn items(&self) -> (r: &Vec<Booking>)
        ensures
            r@ == self.items@,
            slots_sorted(self.items@),
    {
        proof {
            use_type_invariant(self);
        }
        &self.items
    }

    fn get(&self, t: i64) -> (r: Option<&Booking>)
        ensures
            match r {
                Some(b) => booking_at(self.items@, t) == Some(*b),
                None => booking_at(self.items@, t) is None,
            },
    {
        let mut i: usize = 0;
        assert(self.items@.subrange(0, self.items@.len() as int) =~= self.items@);
        while i < self.items.len()
            invariant
                i <= self.items@.len(),
                booking_at(self.items@, t) == booking_at(
                    self.items@.subrange(i as int, self.items@.len() as int),
                    t,
                ),
            decreases self.items@.len() - i,
        {
            assert(self.items@.subrange(i as int, self.items@.len() as int).drop_first()
                =~= self.items@.subrange(i + 1, self.items@.len() as int));
            if self.items[i].starts_at == t {
                return Some(&self.items[i]);
            }
            i = i + 1;
        }
        None
    }

    #[verifier::rlimit(50)]
    fn put(&mut self, b: Booking)
        ensures
            final(self).items@ == put_booking(old(self).items@, b),
            slots_sorted(final(self).items@),
    {
        proof {
            use_type_invariant(&*self);
        }
        let ghost s = self.items@;
        let mut i: usize = 0;
        assert(s.subrange(0, s.len() as int) =~= s);
        assert(Seq::<Booking>::empty() + put_booking(s, b) =~= put_booking(s, b));
        while i < self.items.len() && self.items[i].starts_at != b.starts_at && !slot_before(
            b.starts_at,
            self.items[i].starts_at,
        )
            invariant
                i <= self.items@.len(),
                s == self.items@,
                put_booking(s, b) == s.subrange(0, i as int) + put_booking(
                    s.subrange(i as int, s.len() as int),
                    b,
                ),
            decreases self.items@.len() - i,
        {
            let ghost rest = s.subrange(i as int, s.len() as int);
            assert(rest[0] == s[i as int]);
            assert(rest.drop_first() =~= s.subrange(i + 1, s.len() as int));
            assert(s.subrange(0, i as int) + (seq![s[i as int]] + put_booking(rest.drop_first(), b))
                =~= s.subrange(0, i + 1) + put_booking(s.subrange(i + 1, s.len() as int), b));
            i = i + 1;
        }
        let ghost rest = s.subrange(i as int, s.len() as int);
        proof {
            lemma_put_booking_sorted(s, b);
        }
        let mut e: Vec<Booking> = Vec::new();
        std::mem::swap(&mut e, &mut self.items);
        if i < e.len() && e[i].starts_at == b.starts_at {
            assert(rest[0] == s[i as int]);
            e.set(i, b);
            assert(e@ =~= s.subrange(0, i as int) + (seq![b] + rest.drop_first()));
        } else {
            if i < e.len() {
                assert(rest[0] == s[i as int]);
            } else {
                assert(rest =~= Seq::<Booking>::empty());
            }
            e.insert(i, b);
            assert(e@ =~= s.subrange(0, i as int) + (seq![b] + rest));
        }
        self.items = e;
    }
}

/// A stored pricing rule and whether it is active.
pub type StoredRule = (PricingRule, bool);

/// The active rules, in key order.
pub open spec fn active_rules(s: Seq<(Seq<char>, StoredRule)>) -> Seq<PricingRule>
    decreases s.len(),
{
    if s.len() == 0 {
        seq![]
    } else if s.last().1.1 {
        active_rules(s.drop_last()).push(s.last().1.0)
    } else {
        active_rules(s.drop_last())
    }
}

/// A user's `fixed_price` override: the user exists and has one.
pub open spec fn fixed_price_of(users: Seq<(Seq<char>, Option<i64>)>, user: Seq<char>) -> Option<i64> {
    match lookup(users, user) {
        Some(Some(p)) => Some(p),
        _ => None,
    }
}

/// A user's bookings that are not cancelled, in key order.
pub open spec fn user_bookings(s: Seq<Booking>, user: Seq<char>) -> Seq<Booking> {
    s.filter(|b: Booking| b.user_id@ == user && b.status@ != "cancelled"@)
}

/// The records of `s` whose owner is `user`, in key order.
pub open spec fn packages_of(s: Seq<(Seq<char>, UserPackage)>, user: Seq<char>) -> Seq<UserPackage>
    decreases s.len(),
{
    if s.len() == 0 {
        seq![]
    } else if s.last().1.user_id@ == user {
        packages_of(s.drop_last(), user).push(s.last().1)
    } else {
        packages_of(s.drop_last(), user)
    }
}

/// The subscriptions of `s` whose owner is `user`, in key order.
pub open spec fn subscriptions_of(s: Seq<(Seq<char>, UserSubscription)>, user: Seq<char>) -> Seq<
    UserSubscription,
>
    decreases s.len(),
{
    if s.len() == 0 {
        seq![]
    } else if s.last().1.user_id@ == user {
        subscriptions_of(s.drop_last(), user).push(s.last().1)
    } else {
        subscriptions_of(s.drop_last(), user)
    }
}

/// The booking store: every table, plus the counters that keep generated ids
/// unique within a millisecond.
pub struct Store {
    bookings: BookingTree,
    members: Table<UserSubscriptionMember>,
    packages: Table<UserPackage>,
    subscriptions: Table<UserSubscription>,
    pricing: Table<StoredRule>,
    users: Table<Option<i64>>,
    booking_seq: u64,
    member_seq: u64,
}

impl Store {
    /// The bookings, one per slot, in key order.
    pub closed spec fn bookings(&self) -> Seq<Booking> {
        self.bookings.items@
    }

    /// The subscription members keyed by `<subscription id>:<member id>`.
    pub closed spec fn members(&self) -> Seq<(Seq<char>, UserSubscriptionMember)> {
        self.members.view()
    }

    /// The user packages keyed by id.
    pub closed spec fn packages(&self) -> Seq<(Seq<char>, UserPackage)> {
        self.packages.view()
    }

    /// The user subscriptions keyed by id.
    pub closed spec fn subscriptions(&self) -> Seq<(Seq<char>, UserSubscription)> {
        self.subscriptions.view()
    }

    /// The pricing rules keyed by id.
    pub closed spec fn pricing(&self) -> Seq<(Seq<char>, StoredRule)> {
        self.pricing.view()
    }

    /// The users keyed by id, with their `fixed_price`.
    pub closed spec fn users(&self) -> Seq<(Seq<char>, Option<i64>)> {
        self.users.view()
    }

    /// The sequence number the next booking id carries.
    pub closed spec fn booking_seq(&self) -> u64 {
        self.booking_seq
    }

    /// The sequence number the next member id carries.
    pub closed spec fn member_seq(&self) -> u64 {
        self.member_seq
    }

    /// A store holding only the three default pricing rules: evening and
    /// daytime at 3500, off-hours at 2000.
    pub fn new() -> (s: Store)
        ensures
            s.bookings() == Seq::<Booking>::empty(),
            s.members() == Seq::<(Seq<char>, UserSubscriptionMember)>::empty(),
            s.packages() == Seq::<(Seq<char>, UserPackage)>::empty(),
            s.subscriptions() == Seq::<(Seq<char>, UserSubscription)>::empty(),
            s.users() == Seq::<(Seq<char>, Option<i64>)>::empty(),
            s.pricing().len() == 3,
            s.pricing()[0].0 == "pr-daytime"@ && s.pricing()[0].1.0.name@ == "Daytime"@,
            s.pricing()[1].0 == "pr-evening"@ && s.pricing()[1].1.0.name@ == "Síðdegi/Kvöld"@,
            s.pricing()[2].0 == "pr-offhours"@ && s.pricing()[2].1.0.name@ == "Off-hours"@,
            (s.pricing()[0].1.0.start_hour, s.pricing()[0].1.0.end_hour, s.pricing()[0].1.0.price) == (8i64, 16i64, 3500i64),
            (s.pricing()[1].1.0.start_hour, s.pricing()[1].1.0.end_hour, s.pricing()[1].1.0.price) == (16i64, 22i64, 3500i64),
            (s.pricing()[2].1.0.start_hour, s.pricing()[2].1.0.end_hour, s.pricing()[2].1.0.price) == (22i64, 8i64, 2000i64),
            s.pricing()[0].1.1 && s.pricing()[1].1.1 && s.pricing()[2].1.1,
            s.booking_seq() == 0,
            slots_sorted(s.bookings()),
            s.member_seq() == 0,
    {
        let mut pricing: Table<StoredRule> = Table::new();
        let evening = PricingRule { name: owned("Síðdegi/Kvöld"), start_hour: 16, end_hour: 22, price: 3500 };
        let daytime = PricingRule { name: owned("Daytime"), start_hour: 8, end_hour: 16, price: 3500 };
        let offhours = PricingRule { name: owned("Off-hours"), start_hour: 22, end_hour: 8, price: 2000 };
        let ghost (e, d, o) = (evening, daytime, offhours);
        pricing.insert("pr-evening", (evening, true));
        pricing.insert("pr-daytime", (daytime, true));
        pricing.insert("pr-offhours", (offhours, true));
        proof {
            reveal_strlit("pr-evening");
            reveal_strlit("pr-daytime");
            reveal_strlit("pr-offhours");
            reveal_with_fuel(crate::text::lex_lt, 5);
            let s1 = upsert(Seq::<(Seq<char>, StoredRule)>::empty(), "pr-evening"@, (e, true));
            assert(s1 =~= seq![("pr-evening"@, (e, true))]);
            assert(crate::text::lex_lt("pr-daytime"@, "pr-evening"@));
            let s2 = upsert(s1, "pr-daytime"@, (d, true));
            assert(s2 =~= seq![("pr-daytime"@, (d, true)), ("pr-evening"@, (e, true))]);
            assert(crate::text::lex_lt("pr-evening"@, "pr-offhours"@));
            assert(!crate::text::lex_lt("pr-offhours"@, "pr-daytime"@));
            assert("pr-offhours"@ != "pr-daytime"@);
            assert("pr-offhours"@ != "pr-evening"@);
            let t2 = s2.drop_first();
            assert(t2 =~= seq![("pr-evening"@, (e, true))]);
            assert(upsert(t2.drop_first(), "pr-offhours"@, (o, true)) =~= seq![("pr-offhours"@, (o, true))]);
            assert(upsert(t2, "pr-offhours"@, (o, true)) =~= seq![("pr-evening"@, (e, true)), ("pr-offhours"@, (o, true))]);
            assert(pricing.view() =~= seq![("pr-daytime"@, (d, true)), ("pr-evening"@, (e, true)), ("pr-offhours"@, (o, true))]);
        }
        Store {
            bookings: BookingTree::new(),
            members: Table::new(),
            packages: Table::new(),
            subscriptions: Table::new(),
            pricing,
            users: Table::new(),
            booking_seq: 0,
            member_seq: 0,
        }
    }
}

/// The key of a member row: `<subscription id>:<member id>`, which keeps the
/// members of one subscription together in key order.
pub open spec fn member_key(sub_id: Seq<char>, id: Seq<char>) -> Seq<char> {
    sub_id + seq![':'] + id
}

fn member_key_of(sub_id: &str, id: &str) -> (k: String)
    ensures
        k@ == member_key(sub_id@, id@),
{
    let mut v: Vec<char> = Vec::new();
    append_str(&mut v, sub_id);
    v.push(':');
    append_str(&mut v, id);
    string_of(&v)
}

impl Store {
    /// Insert/replace a user (only `fixed_price` matters to the booking engine).
    pub fn put_user(&mut self, id: &str, fixed_price: Option<i64>)
        ensures
            final(self).users() == upsert(old(self).users(), id@, fixed_price),
            final(self).bookings() == old(self).bookings(),
            final(self).members() == old(self).members(),
            final(self).packages() == old(self).packages(),
            final(self).subscriptions() == old(self).subscriptions(),
            final(self).pricing() == old(self).pricing(),
            final(self).booking_seq() == old(self).booking_seq(),
            final(self).member_seq() == old(self).member_seq(),
    {
        self.users.insert(id, fixed_price);
    }

    /// Insert/replace a user-package grant, keyed by its id.
    pub fn put_user_package(&mut self, pkg: &UserPackage)
        ensures
            final(self).packages() == upsert(old(self).packages(), pkg.id@, *pkg),
            final(self).bookings() == old(self).bookings(),
            final(self).members() == old(self).members(),
            final(self).subscriptions() == old(self).subscriptions(),
            final(self).users() == old(self).users(),
            final(self).pricing() == old(self).pricing(),
            final(self).booking_seq() == old(self).booking_seq(),
            final(self).member_seq() == old(self).member_seq(),
    {
        self.packages.insert(pkg.id.as_str(), pkg.clone());
    }

    /// Insert/replace a user-subscription grant, keyed by its id.
    pub fn put_user_subscription(&mut self, sub: &UserSubscription)
        ensures
            final(self).subscriptions() == upsert(old(self).subscriptions(), sub.id@, *sub),
            final(self).bookings() == old(self).bookings(),
            final(self).members() == old(self).members(),
            final(self).packages() == old(self).packages(),
            final(self).users() == old(self).users(),
            final(self).pricing() == old(self).pricing(),
            final(self).booking_seq() == old(self).booking_seq(),
            final(self).member_seq() == old(self).member_seq(),
    {
        self.subscriptions.insert(sub.id.as_str(), sub.clone());
    }

    /// Read back a user-package by id.
    pub fn user_package(&self, id: &str) -> (r: Option<UserPackage>)
        ensures
            r == lookup(self.packages(), id@),
    {
        match self.packages.get(id) {
            Some(p) => Some(p.clone()),
            None => None,
        }
    }

    /// Insert/replace a subscription member under
    /// `<user_subscription_id>:<id>`.
    pub fn put_user_subscription_member(&mut self, member: &UserSubscriptionMember)
        ensures
            final(self).members() == upsert(
                old(self).members(),
                member_key(member.user_subscription_id@, member.id@),
                *member,
            ),
            final(self).bookings() == old(self).bookings(),
            final(self).packages() == old(self).packages(),
            final(self).subscriptions() == old(self).subscriptions(),
            final(self).users() == old(self).users(),
            final(self).pricing() == old(self).pricing(),
            final(self).booking_seq() == old(self).booking_seq(),
            final(self).member_seq() == old(self).member_seq(),
    {
        let key = member_key_of(member.user_subscription_id.as_str(), member.id.as_str());
        self.members.insert(key.as_str(), member.clone());
    }

    /// A user's `fixed_price` override, if the user exists and has one.
    pub fn user_fixed_price(&self, user_id: &str) -> (r: Option<i64>)
        ensures
            r == fixed_price_of(self.users(), user_id@),
    {
        match self.users.get(user_id) {
            Some(Some(p)) => Some(*p),
            _ => None,
        }
    }

    /// All active pricing rules, in stored (id) order.
    pub fn active_pricing_rules(&self) -> (r: Vec<PricingRule>)
        ensures
            r@ == active_rules(self.pricing()),
    {
        let e = self.pricing.entries();
        let mut out: Vec<PricingRule> = Vec::new();
        let mut i: usize = 0;
        while i < e.len()
            invariant
                i <= e@.len(),
                entries_view(e@) == self.pricing(),
                out@ == active_rules(entries_view(e@).subrange(0, i as int)),
            decreases e@.len() - i,
        {
            let ghost pre = entries_view(e@).subrange(0, i + 1);
            assert(pre.drop_last() =~= entries_view(e@).subrange(0, i as int));
            if e[i].1.1 {
                out.push(e[i].1.0.clone());
            }
            i = i + 1;
        }
        assert(entries_view(e@).subrange(0, e@.len() as int) =~= entries_view(e@));
        out
    }

    /// The effective price for `hour`, honoring a user `fixed_price` override.
    pub fn slot_price(&self, hour: i64, user_id: Option<&str>) -> (r: i64)
        ensures
            r == effective_price(
                hour as int,
                active_rules(self.pricing()),
                match user_id {
                    Some(u) => fixed_price_of(self.users(), u@),
                    None => None,
                },
            ),
    {
        let fixed = match user_id {
            Some(u) => self.user_fixed_price(u),
            None => None,
        };
        let rules = self.active_pricing_rules();
        effective_slot_price(hour, rules.as_slice(), fixed)
    }

    /// A user's non-cancelled bookings, chronological (key order).
    pub fn bookings_for_user(&self, user_id: &str) -> (r: Vec<Booking>)
        ensures
            r@ == user_bookings(self.bookings(), user_id@),
    {
        let items = self.bookings.items();
        let mut out: Vec<Booking> = Vec::new();
        let mut i: usize = 0;
        while i < items.len()
            invariant
                i <= items@.len(),
                items@ == self.bookings(),
                out@ == user_bookings(items@.subrange(0, i as int), user_id@),
            decreases items@.len() - i,
        {
            proof {
                reveal(Seq::filter);
                assert(items@.subrange(0, i + 1).drop_last() =~= items@.subrange(0, i as int));
            }
            let b = &items[i];
            if str_eq(b.user_id.as_str(), user_id) && !str_eq(b.status.as_str(), "cancelled") {
                out.push(b.clone());
            }
            i = i + 1;
        }
        assert(items@.subrange(0, items@.len() as int) =~= items@);
        out
    }

    /// Every booking in the store, chronological (slot-key order); cancelled
    /// ones included.
    pub fn all_bookings(&self) -> (r: Vec<Booking>)
        ensures
            r@ == self.bookings(),
    {
        let items = self.bookings.items();
        let mut out: Vec<Booking> = Vec::new();
        let mut i: usize = 0;
        while i < items.len()
            invariant
                i <= items@.len(),
                items@ == self.bookings(),
                out@ == items@.subrange(0, i as int),
            decreases items@.len() - i,
        {
            out.push(items[i].clone());
            i = i + 1;
        }
        out
    }

    /// All packages of a user, in storage (id) order.
    pub fn user_packages_for_user(&self, user_id: &str) -> (r: Vec<UserPackage>)
        ensures
            r@ == packages_of(self.packages(), user_id@),
    {
        let e = self.packages.entries();
        let mut out: Vec<UserPackage> = Vec::new();
        let mut i: usize = 0;
        while i < e.len()
            invariant
                i <= e@.len(),
                entries_view(e@) == self.packages(),
                out@ == packages_of(entries_view(e@).subrange(0, i as int), user_id@),
            decreases e@.len() - i,
        {
            assert(entries_view(e@).subrange(0, i + 1).drop_last() =~= entries_view(e@).subrange(0, i as int));
            if str_eq(e[i].1.user_id.as_str(), user_id) {
                out.push(e[i].1.clone());
            }
            i = i + 1;
        }
        assert(entries_view(e@).subrange(0, e@.len() as int) =~= entries_view(e@));
        out
    }

    /// All subscriptions of a user, in storage (id) order.
    pub fn user_subscriptions_for_user(&self, user_id: &str) -> (r: Vec<UserSubscription>)
        ensures
            r@ == subscriptions_of(self.subscriptions(), user_id@),
    {
        let e = self.subscriptions.entries();
        let mut out: Vec<UserSubscription> = Vec::new();
        let mut i: usize = 0;
        while i < e.len()
            invariant
                i <= e@.len(),
                entries_view(e@) == self.subscriptions(),
                out@ == subscriptions_of(entries_view(e@).subrange(0, i as int), user_id@),
            decreases e@.len() - i,
        {
            assert(entries_view(e@).subrange(0, i + 1).drop_last() =~= entries_view(e@).subrange(0, i as int));
            if str_eq(e[i].1.user_id.as_str(), user_id) {
                out.push(e[i].1.clone());
            }
            i = i + 1;
        }
        assert(entries_view(e@).subrange(0, e@.len() as int) =~= entries_view(e@));
        out
    }
}

/// `p` begins `s`.
pub open spec fn has_prefix(s: Seq<char>, p: Seq<char>) -> bool {
    p.len() <= s.len() && s.subrange(0, p.len() as int) == p
}

/// The member rows of subscription `sub_id` (keys starting `sub_id:`), in key
/// order, removed rows included.
pub open spec fn scan_members(s: Seq<(Seq<char>, UserSubscriptionMember)>, sub_id: Seq<char>) -> Seq<
    UserSubscriptionMember,
>
    decreases s.len(),
{
    if s.len() == 0 {
        seq![]
    } else if has_prefix(s.last().0, sub_id + seq![':']) {
        scan_members(s.drop_last(), sub_id).push(s.last().1)
    } else {
        scan_members(s.drop_last(), sub_id)
    }
}

/// `user` holds an `active` row among `ms`.
pub open spec fn active_member(ms: Seq<UserSubscriptionMember>, user: Seq<char>) -> bool {
    exists|i: int|
        0 <= i < ms.len() && (#[trigger] ms[i]).status@ == "active"@ && crate::text::opt_chars(
            ms[i].user_id,
        ) == Some(user)
}

/// Active bookings against subscription `sub` whose slot key lies in
/// `[start, end)`.
pub open spec fn count_sub_bookings(s: Seq<Booking>, sub: Seq<char>, start: i64, end: i64) -> nat
    decreases s.len(),
{
    if s.len() == 0 {
        0
    } else {
        let b = s.last();
        count_sub_bookings(s.drop_last(), sub, start, end) + if slot_rank(start) <= slot_rank(
            b.starts_at,
        ) < slot_rank(end) && is_active(b.status@) && crate::text::opt_chars(b.user_subscription_id)
            == Some(sub) {
            1nat
        } else {
            0nat
        }
    }
}

/// Slot `t` holds an active booking.
pub open spec fn slot_blocked(s: Seq<Booking>, t: i64) -> bool {
    match booking_at(s, t) {
        Some(e) => is_active(e.status@),
        None => false,
    }
}

/// What a new booking records besides its id, user, slot and time.
pub struct BookingPlan {
    pub price_paid: Option<i64>,
    pub package_id: Option<Seq<char>>,
    pub subscription_id: Option<Seq<char>>,
    /// The user packages afterwards (a package booking spends one slot).
    pub packages: Seq<(Seq<char>, UserPackage)>,
}

/// The rules of `create_booking`: the first refusal that applies, or what the
/// booking records.
pub open spec fn create_plan(
    st: Store,
    user: Seq<char>,
    slot: i64,
    ptype: Seq<char>,
    ref_id: Option<Seq<char>>,
) -> Result<BookingPlan, Seq<char>> {
    if slot_blocked(st.bookings(), slot) {
        Err("Þessi tími er þegar bókaður"@)
    } else if ptype == "package"@ {
        match ref_id {
            None => Err("userPackageId is required for package bookings"@),
            Some(r) => match lookup(st.packages(), r) {
                Some(p) => if p.user_id@ != user {
                    Err("Package not found"@)
                } else if p.remaining <= 0 {
                    Err("Engir tímar eftir á kortinu"@)
                } else {
                    Ok(
                        BookingPlan {
                            price_paid: None,
                            package_id: Some(r),
                            subscription_id: None,
                            packages: upsert(
                                st.packages(),
                                p.id@,
                                UserPackage { remaining: (p.remaining - 1) as i64, ..p },
                            ),
                        },
                    )
                },
                None => Err("Package not found"@),
            },
        }
    } else if ptype == "subscription"@ {
        match ref_id {
            None => Err("userSubscriptionId is required for subscription bookings"@),
            Some(r) => match lookup(st.subscriptions(), r) {
                None => Err("Áskrift fannst ekki"@),
                Some(sub) => if !(sub.user_id@ == user || active_member(
                    scan_members(st.members(), r),
                    user,
                )) {
                    Err("Áskrift fannst ekki"@)
                } else if !covers(sub.valid_from as int, sub.valid_until as int, slot as int) {
                    Err("Tími er utan gildistíma áskriftar"@)
                } else if clamp0(
                    count_sub_bookings(
                        st.bookings(),
                        r,
                        day_start_spec(slot as int) as i64,
                        (day_start_spec(slot as int) + DAY_MS) as i64,
                    ) as i64 as int,
                ) >= clamp0(sub.daily_limit as int) {
                    Err("Dagskvóti áskriftar fullnýttur"@)
                } else {
                    Ok(
                        BookingPlan {
                            price_paid: None,
                            package_id: None,
                            subscription_id: Some(r),
                            packages: st.packages(),
                        },
                    )
                },
            },
        }
    } else if ptype == "single"@ {
        Ok(
            BookingPlan {
                price_paid: Some(
                    effective_price(
                        (slot as int % DAY_MS as int) / HOUR_MS as int,
                        active_rules(st.pricing()),
                        fixed_price_of(st.users(), user),
                    ),
                ),
                package_id: None,
                subscription_id: None,
                packages: st.packages(),
            },
        )
    } else {
        Err("Unknown payment type: "@ + ptype)
    }
}

/// The inputs on which the rules of `create_booking` stay within `i64` day
/// arithmetic: when a subscription booking reaches the coverage check, the
/// day starts of the window and the slot are `i64` instants, and when it
/// reaches the daily count, the slot's day end is too.
pub open spec fn create_in_range(
    st: Store,
    user: Seq<char>,
    slot: i64,
    ptype: Seq<char>,
    ref_id: Option<Seq<char>>,
) -> bool {
    if ptype == "subscription"@ && !slot_blocked(st.bookings(), slot) {
        match ref_id {
            Some(r) => match lookup(st.subscriptions(), r) {
                Some(sub) => (sub.user_id@ == user || active_member(scan_members(st.members(), r), user))
                    ==> {
                    &&& days_in_range(sub.valid_from as int, sub.valid_until as int, slot as int)
                    &&& (covers(sub.valid_from as int, sub.valid_until as int, slot as int)
                        ==> day_start_spec(slot as int) + DAY_MS <= i64::MAX)
                },
                None => true,
            },
            None => true,
        }
    } else {
        true
    }
}

/// The id of the booking created at `now` with sequence number `seq`.
pub open spec fn booking_id(now: i64, seq: u64) -> Seq<char> {
    "bk-"@ + int_str(now as int) + "-"@ + nat_digits(seq as nat)
}

/// The sequence number after `seq` (wrapping).
pub open spec fn next_seq(seq: u64) -> u64 {
    if seq == u64::MAX {
        0
    } else {
        (seq + 1) as u64
    }
}

/// `b` is the booking a plan makes.
pub open spec fn planned_booking(
    b: Booking,
    id: Seq<char>,
    user: Seq<char>,
    slot: i64,
    ptype: Seq<char>,
    plan: BookingPlan,
    notes: Option<Seq<char>>,
    now: i64,
) -> bool {
    &&& b.id@ == id
    &&& b.user_id@ == user
    &&& b.starts_at == slot
    &&& b.status@ == "confirmed"@
    &&& b.payment_type@ == ptype
    &&& b.price_paid == plan.price_paid
    &&& crate::text::opt_chars(b.user_package_id) == plan.package_id
    &&& crate::text::opt_chars(b.user_subscription_id) == plan.subscription_id
    &&& crate::text::opt_chars(b.notes) == notes
    &&& b.created_at == now
    &&& b.cancelled_at is None
}

/// An optional string slice, by its characters.
pub open spec fn opt_str(o: Option<&str>) -> Option<Seq<char>> {
    match o {
        Some(s) => Some(s@),
        None => None,
    }
}

fn opt_owned(o: Option<&str>) -> (r: Option<String>)
    ensures
        crate::text::opt_chars(r) == opt_str(o),
{
    match o {
        Some(s) => Some(owned(s)),
        None => None,
    }
}

fn booking_id_of(now: i64, seq: u64) -> (r: String)
    ensures
        r@ == booking_id(now, seq),
{
    let mut v: Vec<char> = Vec::new();
    append_str(&mut v, "bk-");
    let n = i64_chars(now);
    append_chars(&mut v, &n);
    append_str(&mut v, "-");
    let d = u64_digits(seq);
    append_chars(&mut v, &d);
    string_of(&v)
}

impl Store {
    /// The member rows of a subscription, in key order.
    fn scan_members_of(&self, sub_id: &str) -> (r: Vec<UserSubscriptionMember>)
        ensures
            r@ == scan_members(self.members(), sub_id@),
    {
        let e = self.members.entries();
        let mut p = chars_of(sub_id);
        p.push(':');
        let mut out: Vec<UserSubscriptionMember> = Vec::new();
        let mut i: usize = 0;
        while i < e.len()
            invariant
                i <= e@.len(),
                entries_view(e@) == self.members(),
                p@ == sub_id@ + seq![':'],
                out@ == scan_members(entries_view(e@).subrange(0, i as int), sub_id@),
            decreases e@.len() - i,
        {
            assert(entries_view(e@).subrange(0, i + 1).drop_last() =~= entries_view(e@).subrange(0, i as int));
            let k = chars_of(e[i].0.as_str());
            if crate::text::starts_with(&k, &p) {
                out.push(e[i].1.clone());
            }
            i = i + 1;
        }
        assert(entries_view(e@).subrange(0, e@.len() as int) =~= entries_view(e@));
        out
    }

    /// Active bookings against `sub_id` with slot keys in `[start, end)`.
    fn count_active_subscription_bookings(&self, sub_id: &str, start: i64, end: i64) -> (n: usize)
        ensures
            n == count_sub_bookings(self.bookings(), sub_id@, start, end),
    {
        let items = self.bookings.items();
        let mut n: usize = 0;
        let mut i: usize = 0;
        while i < items.len()
            invariant
                i <= items@.len(),
                items@ == self.bookings(),
                n == count_sub_bookings(items@.subrange(0, i as int), sub_id@, start, end),
                n <= i,
            decreases items@.len() - i,
        {
            assert(items@.subrange(0, i + 1).drop_last() =~= items@.subrange(0, i as int));
            let b = &items[i];
            let in_range = !slot_before(b.starts_at, start) && slot_before(b.starts_at, end);
            let same_sub = match &b.user_subscription_id {
                Some(s) => str_eq(s.as_str(), sub_id),
                None => false,
            };
            if in_range && active_check(b.status.as_str()) && same_sub {
                n = n + 1;
            }
            i = i + 1;
        }
        assert(items@.subrange(0, items@.len() as int) =~= items@);
        n
    }
}

fn any_active_member(ms: &Vec<UserSubscriptionMember>, user: &str) -> (r: bool)
    ensures
        r == active_member(ms@, user@),
{
    let mut i: usize = 0;
    while i < ms.len()
        invariant
            i <= ms@.len(),
            forall|k: int|
                0 <= k < i ==> !((#[trigger] ms@[k]).status@ == "active"@ && crate::text::opt_chars(
                    ms@[k].user_id,
                ) == Some(user@)),
        decreases ms@.len() - i,
    {
        let m = &ms[i];
        let same = match &m.user_id {
            Some(u) => str_eq(u.as_str(), user),
            None => false,
        };
        if str_eq(m.status.as_str(), "active") && same {
            assert(ms@[i as int].status@ == "active"@);
            return true;
        }
        i = i + 1;
    }
    false
}

/// Two stores hold the same records and counters.
pub open spec fn same_store(a: Store, b: Store) -> bool {
    &&& a.bookings() == b.bookings()
    &&& a.members() == b.members()
    &&& a.packages() == b.packages()
    &&& a.subscriptions() == b.subscriptions()
    &&& a.pricing() == b.pricing()
    &&& a.users() == b.users()
    &&& a.booking_seq() == b.booking_seq()
    &&& a.member_seq() == b.member_seq()
}

fn err_text<T>(s: &str) -> (r: Result<T, String>)
    ensures
        r matches Err(e) && e@ == s@,
{
    Err(owned(s))
}

impl Store {
    /// Create one booking: the conflict check, then the accounting of its
    /// payment type. `payment_type` is `single` | `package` | `subscription`;
    /// for `package` and `subscription`, `ref_id` names the user package or
    /// user subscription. Returns the new booking's id, or a user-facing error.
    pub fn create_booking(
        &mut self,
        user_id: &str,
        slot_ms: i64,
        payment_type: &str,
        ref_id: Option<&str>,
        notes: Option<&str>,
        now_ms: i64,
    ) -> (r: Result<String, String>)
        requires
            create_in_range(*old(self), user_id@, slot_ms, payment_type@, opt_str(ref_id)),
        ensures
            slots_sorted(final(self).bookings()),
            match create_plan(*old(self), user_id@, slot_ms, payment_type@, opt_str(ref_id)) {
                Err(msg) => r matches Err(e) && e@ == msg && same_store(*final(self), *old(self)),
                Ok(plan) => {
                    &&& r matches Ok(id) && id@ == booking_id(now_ms, old(self).booking_seq())
                    &&& booking_at(final(self).bookings(), slot_ms) matches Some(b) && planned_booking(
                        b,
                        booking_id(now_ms, old(self).booking_seq()),
                        user_id@,
                        slot_ms,
                        payment_type@,
                        plan,
                        opt_str(notes),
                        now_ms,
                    ) && final(self).bookings() == put_booking(old(self).bookings(), b)
                    &&& final(self).packages() == plan.packages
                    &&& final(self).booking_seq() == next_seq(old(self).booking_seq())
                    &&& final(self).members() == old(self).members()
                    &&& final(self).subscriptions() == old(self).subscriptions()
                    &&& final(self).pricing() == old(self).pricing()
                    &&& final(self).users() == old(self).users()
                    &&& final(self).member_seq() == old(self).member_seq()
                },
            },
    {
        proof {
            use_type_invariant(&self.bookings);
        }
        if let Some(existing) = self.bookings.get(slot_ms) {
            if active_check(existing.status.as_str()) {
                return err_text("Þessi tími er þegar bókaður");
            }
        }
        let mut price_paid: Option<i64> = None;
        let mut user_package_id: Option<String> = None;
        let mut user_subscription_id: Option<String> = None;
        if str_eq(payment_type, "package") {
            let r = match ref_id {
                Some(r) => r,
                None => return err_text("userPackageId is required for package bookings"),
            };
            let pkg = match self.packages.get(r) {
                Some(p) => p.clone(),
                None => return err_text("Package not found"),
            };
            if !str_eq(pkg.user_id.as_str(), user_id) {
                return err_text("Package not found");
            }
            if pkg.remaining <= 0 {
                return err_text("Engir tímar eftir á kortinu");
            }
            let key = pkg.id.clone();
            let updated = UserPackage { remaining: pkg.remaining - 1, ..pkg };
            self.packages.insert(key.as_str(), updated);
            user_package_id = Some(owned(r));
        } else if str_eq(payment_type, "subscription") {
            let r = match ref_id {
                Some(r) => r,
                None => return err_text("userSubscriptionId is required for subscription bookings"),
            };
            let sub = match self.subscriptions.get(r) {
                Some(s) => s.clone(),
                None => return err_text("Áskrift fannst ekki"),
            };
            let is_owner = str_eq(sub.user_id.as_str(), user_id);
            let members = self.scan_members_of(r);
            let is_member = any_active_member(&members, user_id);
            if !is_owner && !is_member {
                return err_text("Áskrift fannst ekki");
            }
            if !covers_date(sub.valid_from, sub.valid_until, slot_ms) {
                return err_text("Tími er utan gildistíma áskriftar");
            }
            let day = day_start(slot_ms);
            let used = self.count_active_subscription_bookings(r, day, day + DAY_MS) as i64;
            let usage = daily_usage(sub.daily_limit, used);
            if usage.exhausted {
                return err_text("Dagskvóti áskriftar fullnýttur");
            }
            user_subscription_id = Some(owned(r));
        } else if str_eq(payment_type, "single") {
            let fixed = self.user_fixed_price(user_id);
            let rules = self.active_pricing_rules();
            price_paid = Some(effective_slot_price(hour_of(slot_ms), rules.as_slice(), fixed));
        } else {
            let mut v: Vec<char> = Vec::new();
            append_str(&mut v, "Unknown payment type: ");
            append_str(&mut v, payment_type);
            return Err(string_of(&v));
        }
        let seq = self.booking_seq;
        self.booking_seq = if seq == u64::MAX {
            0
        } else {
            seq + 1
        };
        let id = booking_id_of(now_ms, seq);
        let booking = Booking {
            id: id.clone(),
            user_id: owned(user_id),
            starts_at: slot_ms,
            status: owned("confirmed"),
            payment_type: owned(payment_type),
            price_paid,
            user_package_id,
            user_subscription_id,
            notes: opt_owned(notes),
            created_at: now_ms,
            cancelled_at: None,
        };
        let ghost b = booking;
        let ghost pre = self.bookings();
        self.bookings.put(booking);
        proof {
            lemma_booking_at_put(pre, b, slot_ms);
        }
        Ok(id)
    }
}

/// The first booking in key order with id `id` that belongs to `user`.
pub open spec fn find_booking(s: Seq<Booking>, id: Seq<char>, user: Seq<char>) -> Option<Booking>
    decreases s.len(),
{
    if s.len() == 0 {
        None
    } else if s[0].id@ == id && s[0].user_id@ == user {
        Some(s[0])
    } else {
        find_booking(s.drop_first(), id, user)
    }
}

/// The user packages after cancelling `b`: a package booking gives its slot
/// back to the package, if the package still exists.
pub open spec fn refunded(packages: Seq<(Seq<char>, UserPackage)>, b: Booking) -> Seq<(Seq<char>, UserPackage)> {
    if b.payment_type@ == "package"@ {
        match b.user_package_id {
            Some(pid) => match lookup(packages, pid@) {
                Some(p) => upsert(packages, p.id@, UserPackage { remaining: (p.remaining + 1) as i64, ..p }),
                None => packages,
            },
            None => packages,
        }
    } else {
        packages
    }
}

/// The inputs on which cancelling stays within `i64`: a refunded package
/// is not already at `i64::MAX` slots.
pub open spec fn cancel_in_range(st: Store, id: Seq<char>, user: Seq<char>) -> bool {
    match find_booking(st.bookings(), id, user) {
        Some(b) => b.payment_type@ == "package"@ && b.status@ != "cancelled"@ ==> match b.user_package_id {
            Some(pid) => match lookup(st.packages(), pid@) {
                Some(p) => p.remaining < i64::MAX,
                None => true,
            },
            None => true,
        },
        None => true,
    }
}

proof fn lemma_find_booking_in(s: Seq<Booking>, id: Seq<char>, user: Seq<char>)
    requires
        find_booking(s, id, user) is Some,
    ensures
        exists|i: int| 0 <= i < s.len() && s[i] == find_booking(s, id, user)->Some_0,
    decreases s.len(),
{
    if s[0].id@ == id && s[0].user_id@ == user {
        assert(s[0] == find_booking(s, id, user)->Some_0);
    } else {
        lemma_find_booking_in(s.drop_first(), id, user);
        let i = choose|i: int| 0 <= i < s.drop_first().len() && s.drop_first()[i] == find_booking(s.drop_first(), id, user)->Some_0;
        assert(s[i + 1] == s.drop_first()[i]);
    }
}

proof fn lemma_booking_at_member(s: Seq<Booking>, i: int)
    requires
        slots_sorted(s),
        0 <= i < s.len(),
    ensures
        booking_at(s, s[i].starts_at) == Some(s[i]),
    decreases s.len(),
{
    if i > 0 {
        assert(slot_rank(s[0].starts_at) < slot_rank(s[i].starts_at));
        let t = s.drop_first();
        assert forall|a: int, b: int| 0 <= a < b < t.len() implies slot_rank(#[trigger] t[a].starts_at) < slot_rank(#[trigger] t[b].starts_at) by {
            assert(t[a] == s[a + 1] && t[b] == s[b + 1]);
        }
        lemma_booking_at_member(t, i - 1);
    }
}

impl Store {
    /// Cancel a booking the user owns: mark it cancelled (freeing its slot)
    /// and give a package slot back if it used one.
    pub fn cancel_booking(&mut self, booking_id: &str, user_id: &str, now_ms: i64) -> (r: Result<(), String>)
        requires
            cancel_in_range(*old(self), booking_id@, user_id@),
        ensures
            slots_sorted(final(self).bookings()),
            match find_booking(old(self).bookings(), booking_id@, user_id@) {
                None => r matches Err(e) && e@ == "Booking not found"@ && same_store(*final(self), *old(self)),
                Some(b) => if b.status@ == "cancelled"@ {
                    r matches Err(e) && e@ == "Booking is already cancelled"@ && same_store(*final(self), *old(self))
                } else {
                    &&& r is Ok
                    &&& booking_at(final(self).bookings(), b.starts_at) matches Some(c)
                        && c == (Booking { status: c.status, cancelled_at: Some(now_ms), ..b })
                        && c.status@ == "cancelled"@
                        && final(self).bookings() == put_booking(old(self).bookings(), c)
                    &&& final(self).packages() == refunded(old(self).packages(), b)
                    &&& final(self).members() == old(self).members()
                    &&& final(self).subscriptions() == old(self).subscriptions()
                    &&& final(self).pricing() == old(self).pricing()
                    &&& final(self).users() == old(self).users()
                    &&& final(self).booking_seq() == old(self).booking_seq()
                    &&& final(self).member_seq() == old(self).member_seq()
                },
            },
    {
        proof {
            use_type_invariant(&self.bookings);
        }
        let items = self.bookings.items();
        let mut i: usize = 0;
        let mut found: Option<Booking> = None;
        assert(items@.subrange(0, items@.len() as int) =~= items@);
        while i < items.len()
            invariant_except_break
                found is None,
            invariant
                i <= items@.len(),
                items@ == self.bookings(),
                find_booking(items@, booking_id@, user_id@) == find_booking(
                    items@.subrange(i as int, items@.len() as int),
                    booking_id@,
                    user_id@,
                ),
            ensures
                found matches Some(f) ==> find_booking(items@, booking_id@, user_id@) == Some(f),
                found is None ==> find_booking(items@, booking_id@, user_id@) is None,
            decreases items@.len() - i,
        {
            assert(items@.subrange(i as int, items@.len() as int).drop_first() =~= items@.subrange(i + 1, items@.len() as int));
            let b = &items[i];
            if str_eq(b.id.as_str(), booking_id) && str_eq(b.user_id.as_str(), user_id) {
                found = Some(b.clone());
                break;
            }
            i = i + 1;
        }
        let booking = match found {
            Some(b) => b,
            None => return err_text("Booking not found"),
        };
        if str_eq(booking.status.as_str(), "cancelled") {
            return err_text("Booking is already cancelled");
        }
        if str_eq(booking.payment_type.as_str(), "package") {
            if let Some(pkg_id) = &booking.user_package_id {
                if let Some(p) = self.packages.get(pkg_id.as_str()) {
                    let pkg = p.clone();
                    let key = pkg.id.clone();
                    let updated = UserPackage { remaining: pkg.remaining + 1, ..pkg };
                    self.packages.insert(key.as_str(), updated);
                }
            }
        }
        let ghost b = booking;
        let cancelled = Booking { status: owned("cancelled"), cancelled_at: Some(now_ms), ..booking };
        let ghost c = cancelled;
        let ghost pre = self.bookings();
        self.bookings.put(cancelled);
        proof {
            lemma_booking_at_put(pre, c, c.starts_at);
        }
        Ok(())
    }
}

/// `user` owns the subscription stored under `sub_id`, or holds an active
/// member row of it.
pub open spec fn may_use(st: Store, user: Seq<char>, sub_id: Seq<char>) -> bool {
    (lookup(st.subscriptions(), sub_id) matches Some(sub) && sub.user_id@ == user) || active_member(
        scan_members(st.members(), sub_id),
        user,
    )
}

/// The roster row of a member.
pub open spec fn roster_row(m: UserSubscriptionMember) -> ListMemberView {
    ListMemberView {
        id: m.id,
        user_id: m.user_id,
        name: None,
        phone: None,
        invited_phone: m.invited_phone,
        role: m.role,
        status: m.status,
        invited_at: m.invited_at,
        accepted_at: m.accepted_at,
    }
}

/// The rows not removed, as roster rows, in key order.
pub open spec fn visible_rows(ms: Seq<UserSubscriptionMember>) -> Seq<ListMemberView>
    decreases ms.len(),
{
    if ms.len() == 0 {
        seq![]
    } else if ms.last().status@ != "removed"@ {
        visible_rows(ms.drop_last()).push(roster_row(ms.last()))
    } else {
        visible_rows(ms.drop_last())
    }
}

/// Roster order: owners first, then by invite time.
pub open spec fn row_le(a: ListMemberView, b: ListMemberView) -> bool {
    let ra: int = if a.role@ == "owner"@ { 0 } else { 1 };
    let rb: int = if b.role@ == "owner"@ { 0 } else { 1 };
    ra < rb || (ra == rb && a.invited_at <= b.invited_at)
}

/// `x` placed after every row of `s` not after it in roster order, scanning
/// from the end: a stable insertion.
pub open spec fn insert_row(s: Seq<ListMemberView>, x: ListMemberView) -> Seq<ListMemberView>
    decreases s.len(),
{
    if s.len() == 0 {
        seq![x]
    } else if row_le(s.last(), x) {
        s.push(x)
    } else {
        insert_row(s.drop_last(), x).push(s.last())
    }
}

/// The rows in roster order, ties kept in input order (a stable sort).
pub open spec fn sort_rows(s: Seq<ListMemberView>) -> Seq<ListMemberView>
    decreases s.len(),
{
    if s.len() == 0 {
        seq![]
    } else {
        insert_row(sort_rows(s.drop_last()), s.last())
    }
}

fn role_rank(r: &ListMemberView) -> (k: u8)
    ensures
        k == (if r.role@ == "owner"@ { 0u8 } else { 1u8 }),
{
    if str_eq(r.role.as_str(), "owner") {
        0
    } else {
        1
    }
}

fn row_le_exec(a: &ListMemberView, b: &ListMemberView) -> (r: bool)
    ensures
        r == row_le(*a, *b),
{
    let ra = role_rank(a);
    let rb = role_rank(b);
    ra < rb || (ra == rb && a.invited_at <= b.invited_at)
}

fn insert_row_exec(out: &mut Vec<ListMemberView>, x: ListMemberView)
    ensures
        final(out)@ == insert_row(old(out)@, x),
{
    let ghost s = out@;
    let mut j = out.len();
    assert(s.subrange(0, s.len() as int) =~= s);
    assert(s.subrange(s.len() as int, s.len() as int) =~= Seq::<ListMemberView>::empty());
    while j > 0 && !row_le_exec(&out[j - 1], &x)
        invariant
            j <= s.len(),
            out@ == s,
            insert_row(s, x) == insert_row(s.subrange(0, j as int), x) + s.subrange(j as int, s.len() as int),
        decreases j,
    {
        let ghost pre = s.subrange(0, j as int);
        assert(pre.drop_last() =~= s.subrange(0, j - 1));
        assert(pre.last() == s[j - 1]);
        assert(insert_row(pre, x) == insert_row(s.subrange(0, j - 1), x).push(s[j - 1]));
        assert(insert_row(s.subrange(0, j - 1), x).push(s[j - 1]) + s.subrange(j as int, s.len() as int)
            =~= insert_row(s.subrange(0, j - 1), x) + s.subrange(j - 1, s.len() as int));
        j = j - 1;
    }
    proof {
        let pre = s.subrange(0, j as int);
        if j > 0 {
            assert(pre.last() == s[j - 1]);
            assert(insert_row(pre, x) == pre.push(x));
        } else {
            assert(pre =~= Seq::<ListMemberView>::empty());
        }
    }
    out.insert(j, x);
    assert(out@ =~= insert_row(s, x));
}

impl Store {
    /// Is `user_id` allowed to book against `user_subscription_id`: the
    /// subscription's owner, or an `active` member of it?
    pub fn can_use_subscription(&self, user_id: &str, user_subscription_id: &str) -> (r: bool)
        ensures
            r == may_use(*self, user_id@, user_subscription_id@),
    {
        if let Some(sub) = self.subscriptions.get(user_subscription_id) {
            if str_eq(sub.user_id.as_str(), user_id) {
                return true;
            }
        }
        let members = self.scan_members_of(user_subscription_id);
        any_active_member(&members, user_id)
    }

    /// The `active`/`invited` members of a subscription, owners first then by
    /// invite time (removed rows hidden).
    pub fn list_subscription_members(&self, user_subscription_id: &str) -> (r: Vec<ListMemberView>)
        ensures
            r@ == sort_rows(visible_rows(scan_members(self.members(), user_subscription_id@))),
    {
        let ms = self.scan_members_of(user_subscription_id);
        let mut rows: Vec<ListMemberView> = Vec::new();
        let mut i: usize = 0;
        while i < ms.len()
            invariant
                i <= ms@.len(),
                rows@ == visible_rows(ms@.subrange(0, i as int)),
            decreases ms@.len() - i,
        {
            assert(ms@.subrange(0, i + 1).drop_last() =~= ms@.subrange(0, i as int));
            let m = &ms[i];
            if !str_eq(m.status.as_str(), "removed") {
                rows.push(
                    ListMemberView {
                        id: m.id.clone(),
                        user_id: clone_opt_string(&m.user_id),
                        name: None,
                        phone: None,
                        invited_phone: clone_opt_string(&m.invited_phone),
                        role: m.role.clone(),
                        status: m.status.clone(),
                        invited_at: m.invited_at,
                        accepted_at: m.accepted_at,
                    },
                );
            }
            i = i + 1;
        }
        assert(ms@.subrange(0, ms@.len() as int) =~= ms@);
        let mut out: Vec<ListMemberView> = Vec::new();
        let mut k: usize = 0;
        while k < rows.len()
            invariant
                k <= rows@.len(),
                out@ == sort_rows(rows@.subrange(0, k as int)),
            decreases rows@.len() - k,
        {
            assert(rows@.subrange(0, k + 1).drop_last() =~= rows@.subrange(0, k as int));
            insert_row_exec(&mut out, rows[k].clone());
            k = k + 1;
        }
        assert(rows@.subrange(0, rows@.len() as int) =~= rows@);
        out
    }
}

/// The ids of the subscriptions `user` owns, in key order.
pub open spec fn owned_ids(s: Seq<(Seq<char>, UserSubscription)>, user: Seq<char>) -> Seq<Seq<char>>
    decreases s.len(),
{
    if s.len() == 0 {
        seq![]
    } else if s.last().1.user_id@ == user {
        owned_ids(s.drop_last(), user).push(s.last().1.id@)
    } else {
        owned_ids(s.drop_last(), user)
    }
}

/// The subscriptions in which `user` holds an active row, in key order.
pub open spec fn member_sub_ids(s: Seq<(Seq<char>, UserSubscriptionMember)>, user: Seq<char>) -> Seq<Seq<char>>
    decreases s.len(),
{
    if s.len() == 0 {
        seq![]
    } else if s.last().1.status@ == "active"@ && crate::text::opt_chars(s.last().1.user_id) == Some(user) {
        member_sub_ids(s.drop_last(), user).push(s.last().1.user_subscription_id@)
    } else {
        member_sub_ids(s.drop_last(), user)
    }
}

/// The distinct ids of `ids`, held as a key-ordered table.
pub open spec fn id_table(ids: Seq<Seq<char>>) -> Seq<(Seq<char>, ())>
    decreases ids.len(),
{
    if ids.len() == 0 {
        seq![]
    } else {
        upsert(id_table(ids.drop_last()), ids.last(), ())
    }
}

/// The keys of a table.
pub open spec fn table_keys<V>(t: Seq<(Seq<char>, V)>) -> Seq<Seq<char>> {
    Seq::new(t.len(), |i: int| t[i].0)
}

/// The id of the member row created at `now` with sequence number `seq`.
pub open spec fn member_id(now: i64, seq: u64) -> Seq<char> {
    "usm-"@ + int_str(now as int) + "-"@ + nat_digits(seq as nat)
}

fn member_id_of(now: i64, seq: u64) -> (r: String)
    ensures
        r@ == member_id(now, seq),
{
    let mut v: Vec<char> = Vec::new();
    append_str(&mut v, "usm-");
    let n = i64_chars(now);
    append_chars(&mut v, &n);
    append_str(&mut v, "-");
    let d = u64_digits(seq);
    append_chars(&mut v, &d);
    string_of(&v)
}

/// `owner` already has an active owner row among `ms`.
pub open spec fn has_owner_row(ms: Seq<UserSubscriptionMember>, owner: Seq<char>) -> bool {
    exists|i: int|
        0 <= i < ms.len() && (#[trigger] ms[i]).role@ == "owner"@ && crate::text::opt_chars(
            ms[i].user_id,
        ) == Some(owner) && ms[i].status@ == "active"@
}

fn any_owner_row(ms: &Vec<UserSubscriptionMember>, owner: &str) -> (r: bool)
    ensures
        r == has_owner_row(ms@, owner@),
{
    let mut i: usize = 0;
    while i < ms.len()
        invariant
            i <= ms@.len(),
            forall|k: int|
                0 <= k < i ==> !((#[trigger] ms@[k]).role@ == "owner"@ && crate::text::opt_chars(
                    ms@[k].user_id,
                ) == Some(owner@) && ms@[k].status@ == "active"@),
        decreases ms@.len() - i,
    {
        let m = &ms[i];
        let same = match &m.user_id {
            Some(u) => str_eq(u.as_str(), owner),
            None => false,
        };
        if str_eq(m.role.as_str(), "owner") && same && str_eq(m.status.as_str(), "active") {
            assert(ms@[i as int].role@ == "owner"@);
            return true;
        }
        i = i + 1;
    }
    false
}

impl Store {
    /// Every subscription id `user_id` can use, ascending and without
    /// repeats: the ones they own, plus the ones they are an `active` member of.
    pub fn accessible_user_subscription_ids(&self, user_id: &str) -> (r: Vec<String>)
        ensures
            r@.len() == id_table(owned_ids(self.subscriptions(), user_id@) + member_sub_ids(self.members(), user_id@)).len(),
            forall|i: int|
                0 <= i < r@.len() ==> #[trigger] r@[i]@ == table_keys(
                    id_table(owned_ids(self.subscriptions(), user_id@) + member_sub_ids(self.members(), user_id@)),
                )[i],
    {
        let mut t: Table<()> = Table::new();
        let subs = self.subscriptions.entries();
        let mut i: usize = 0;
        while i < subs.len()
            invariant
                i <= subs@.len(),
                entries_view(subs@) == self.subscriptions(),
                t.view() == id_table(owned_ids(entries_view(subs@).subrange(0, i as int), user_id@)),
            decreases subs@.len() - i,
        {
            let ghost pre = entries_view(subs@).subrange(0, i + 1);
            assert(pre.drop_last() =~= entries_view(subs@).subrange(0, i as int));
            let ghost ids = owned_ids(entries_view(subs@).subrange(0, i as int), user_id@);
            let v = &subs[i].1;
            if str_eq(v.user_id.as_str(), user_id) {
                t.insert(v.id.as_str(), ());
                assert(ids.push(v.id@).drop_last() =~= ids);
            }
            i = i + 1;
        }
        assert(entries_view(subs@).subrange(0, subs@.len() as int) =~= entries_view(subs@));
        let ghost owned = owned_ids(self.subscriptions(), user_id@);
        let ms = self.members.entries();
        let mut k: usize = 0;
        assert(owned + Seq::<Seq<char>>::empty() =~= owned);
        while k < ms.len()
            invariant
                k <= ms@.len(),
                entries_view(ms@) == self.members(),
                owned == owned_ids(self.subscriptions(), user_id@),
                t.view() == id_table(owned + member_sub_ids(entries_view(ms@).subrange(0, k as int), user_id@)),
            decreases ms@.len() - k,
        {
            let ghost pre = entries_view(ms@).subrange(0, k + 1);
            assert(pre.drop_last() =~= entries_view(ms@).subrange(0, k as int));
            let ghost mids = member_sub_ids(entries_view(ms@).subrange(0, k as int), user_id@);
            let m = &ms[k].1;
            let same = match &m.user_id {
                Some(u) => str_eq(u.as_str(), user_id),
                None => false,
            };
            if str_eq(m.status.as_str(), "active") && same {
                t.insert(m.user_subscription_id.as_str(), ());
                assert((owned + mids.push(m.user_subscription_id@)).drop_last() =~= owned + mids);
            }
            k = k + 1;
        }
        assert(entries_view(ms@).subrange(0, ms@.len() as int) =~= entries_view(ms@));
        let e = t.entries();
        let mut out: Vec<String> = Vec::new();
        let mut j: usize = 0;
        while j < e.len()
            invariant
                j <= e@.len(),
                out@.len() == j,
                forall|q: int| 0 <= q < j ==> #[trigger] out@[q]@ == entries_view(e@)[q].0,
            decreases e@.len() - j,
        {
            out.push(e[j].0.clone());
            j = j + 1;
        }
        out
    }
}

/// A member row by its contents.
pub struct MemberModel {
    pub id: Seq<char>,
    pub user_subscription_id: Seq<char>,
    pub user_id: Option<Seq<char>>,
    pub role: Seq<char>,
    pub status: Seq<char>,
    pub invited_phone: Option<Seq<char>>,
    pub invited_at: i64,
    pub accepted_at: Option<i64>,
    pub removed_at: Option<i64>,
}

/// The contents of a member row.
pub open spec fn member_model(m: UserSubscriptionMember) -> MemberModel {
    MemberModel {
        id: m.id@,
        user_subscription_id: m.user_subscription_id@,
        user_id: crate::text::opt_chars(m.user_id),
        role: m.role@,
        status: m.status@,
        invited_phone: crate::text::opt_chars(m.invited_phone),
        invited_at: m.invited_at,
        accepted_at: m.accepted_at,
        removed_at: m.removed_at,
    }
}

/// The member table by row contents.
pub open spec fn model_table(s: Seq<(Seq<char>, UserSubscriptionMember)>) -> Seq<(Seq<char>, MemberModel)> {
    Seq::new(s.len(), |i: int| (s[i].0, member_model(s[i].1)))
}

proof fn lemma_model_upsert(s: Seq<(Seq<char>, UserSubscriptionMember)>, k: Seq<char>, v: UserSubscriptionMember)
    ensures
        model_table(upsert(s, k, v)) == upsert(model_table(s), k, member_model(v)),
    decreases s.len(),
{
    let m = model_table(s);
    if s.len() == 0 {
        assert(model_table(upsert(s, k, v)) =~= upsert(m, k, member_model(v)));
    } else if s[0].0 == k {
        assert(model_table(upsert(s, k, v)) =~= upsert(m, k, member_model(v)));
    } else if crate::text::lex_lt(k, s[0].0) {
        assert(model_table(upsert(s, k, v)) =~= upsert(m, k, member_model(v)));
    } else {
        lemma_model_upsert(s.drop_first(), k, v);
        assert(model_table(s.drop_first()) =~= m.drop_first());
        assert(model_table(upsert(s, k, v)) =~= upsert(m, k, member_model(v)));
    }
}

/// The rows of subscription `sub_id` by contents, in key order.
pub open spec fn scan_models(t: Seq<(Seq<char>, MemberModel)>, sub_id: Seq<char>) -> Seq<MemberModel>
    decreases t.len(),
{
    if t.len() == 0 {
        seq![]
    } else if has_prefix(t.last().0, sub_id + seq![':']) {
        scan_models(t.drop_last(), sub_id).push(t.last().1)
    } else {
        scan_models(t.drop_last(), sub_id)
    }
}

proof fn lemma_scan_model(s: Seq<(Seq<char>, UserSubscriptionMember)>, sub_id: Seq<char>)
    ensures
        scan_models(model_table(s), sub_id) == scan_members(s, sub_id).map_values(|m: UserSubscriptionMember| member_model(m)),
    decreases s.len(),
{
    if s.len() > 0 {
        lemma_scan_model(s.drop_last(), sub_id);
        assert(model_table(s).drop_last() =~= model_table(s.drop_last()));
        assert(scan_members(s, sub_id).map_values(|m: UserSubscriptionMember| member_model(m))
            =~= scan_models(model_table(s), sub_id));
    } else {
        assert(scan_members(s, sub_id).map_values(|m: UserSubscriptionMember| member_model(m))
            =~= scan_models(model_table(s), sub_id));
    }
}

/// `user` holds an active row among `ms`.
pub open spec fn active_in(ms: Seq<MemberModel>, user: Seq<char>) -> bool {
    exists|i: int| 0 <= i < ms.len() && (#[trigger] ms[i]).status == "active"@ && ms[i].user_id == Some(user)
}

/// `owner` holds an active owner row among `ms`.
pub open spec fn owner_in(ms: Seq<MemberModel>, owner: Seq<char>) -> bool {
    exists|i: int|
        0 <= i < ms.len() && (#[trigger] ms[i]).role == "owner"@ && ms[i].user_id == Some(owner)
            && ms[i].status == "active"@
}

/// Some active or invited row of `ms` carries the invite phone `phone`.
pub open spec fn open_invite(ms: Seq<MemberModel>, phone: Seq<char>) -> bool {
    exists|i: int|
        0 <= i < ms.len() && ((#[trigger] ms[i]).status == "active"@ || ms[i].status == "invited"@)
            && ms[i].invited_phone == Some(phone)
}

proof fn lemma_active_model(s: Seq<(Seq<char>, UserSubscriptionMember)>, sub_id: Seq<char>, user: Seq<char>, owner: Seq<char>)
    ensures
        active_in(scan_models(model_table(s), sub_id), user) == active_member(scan_members(s, sub_id), user),
        owner_in(scan_models(model_table(s), sub_id), owner) == has_owner_row(scan_members(s, sub_id), owner),
{
    lemma_scan_model(s, sub_id);
    let ms = scan_members(s, sub_id);
    let mm = scan_models(model_table(s), sub_id);
    if active_in(mm, user) {
        let i = choose|i: int| 0 <= i < mm.len() && (#[trigger] mm[i]).status == "active"@ && mm[i].user_id == Some(user);
        assert(mm[i] == member_model(ms[i]));
    }
    if active_member(ms, user) {
        let i = choose|i: int| 0 <= i < ms.len() && (#[trigger] ms[i]).status@ == "active"@ && crate::text::opt_chars(ms[i].user_id) == Some(user);
        assert(mm[i] == member_model(ms[i]));
    }
    if owner_in(mm, owner) {
        let i = choose|i: int| 0 <= i < mm.len() && (#[trigger] mm[i]).role == "owner"@ && mm[i].user_id == Some(owner) && mm[i].status == "active"@;
        assert(mm[i] == member_model(ms[i]));
    }
    if has_owner_row(ms, owner) {
        let i = choose|i: int| 0 <= i < ms.len() && (#[trigger] ms[i]).role@ == "owner"@ && crate::text::opt_chars(ms[i].user_id) == Some(owner) && ms[i].status@ == "active"@;
        assert(mm[i] == member_model(ms[i]));
    }
}

/// The owner row created for `owner` at `now` with sequence number `seq`.
pub open spec fn owner_row(sub_id: Seq<char>, owner: Seq<char>, now: i64, seq: u64) -> MemberModel {
    MemberModel {
        id: member_id(now, seq),
        user_subscription_id: sub_id,
        user_id: Some(owner),
        role: "owner"@,
        status: "active"@,
        invited_phone: None,
        invited_at: now,
        accepted_at: Some(now),
        removed_at: None,
    }
}

/// The member table and counter after making sure `owner` has an active
/// owner row in `sub_id`.
pub open spec fn with_owner(
    t: Seq<(Seq<char>, MemberModel)>,
    seq: u64,
    sub_id: Seq<char>,
    owner: Seq<char>,
    now: i64,
) -> (Seq<(Seq<char>, MemberModel)>, u64) {
    if owner_in(scan_models(t, sub_id), owner) {
        (t, seq)
    } else {
        (upsert(t, member_key(sub_id, member_id(now, seq)), owner_row(sub_id, owner, now, seq)), next_seq(seq))
    }
}

/// The invited row for `phone` created at `now` with sequence number `seq`.
pub open spec fn invited_row(sub_id: Seq<char>, phone: Seq<char>, now: i64, seq: u64) -> MemberModel {
    MemberModel {
        id: member_id(now, seq),
        user_subscription_id: sub_id,
        user_id: None,
        role: "member"@,
        status: "invited"@,
        invited_phone: Some(phone),
        invited_at: now,
        accepted_at: None,
        removed_at: None,
    }
}

/// Why an invite is refused, if it is.
pub open spec fn invite_refusal(st: Store, owner: Seq<char>, sub_id: Seq<char>, phone: Seq<char>) -> Option<Seq<char>> {
    match normalized_phone(phone) {
        Err(e) => Some(e),
        Ok(p) => match lookup(st.subscriptions(), sub_id) {
            None => Some("Áskrift fannst ekki"@),
            Some(sub) => if sub.user_id@ != owner {
                Some("Aðeins eigandi getur deilt áskriftinni"@)
            } else if open_invite(scan_models(model_table(st.members()), sub_id), p) {
                Some("Þessi aðili er þegar á áskriftinni eða með opið boð"@)
            } else {
                None
            },
        },
    }
}

fn any_open_invite(ms: &Vec<UserSubscriptionMember>, phone: &str) -> (r: bool)
    ensures
        r == open_invite(ms@.map_values(|m: UserSubscriptionMember| member_model(m)), phone@),
{
    let ghost mm = ms@.map_values(|m: UserSubscriptionMember| member_model(m));
    let mut i: usize = 0;
    while i < ms.len()
        invariant
            i <= ms@.len(),
            mm == ms@.map_values(|m: UserSubscriptionMember| member_model(m)),
            forall|k: int|
                0 <= k < i ==> !(((#[trigger] mm[k]).status == "active"@ || mm[k].status == "invited"@)
                    && mm[k].invited_phone == Some(phone@)),
        decreases ms@.len() - i,
    {
        let m = &ms[i];
        assert(mm[i as int] == member_model(ms@[i as int]));
        let same = match &m.invited_phone {
            Some(p) => str_eq(p.as_str(), phone),
            None => false,
        };
        if (str_eq(m.status.as_str(), "active") || str_eq(m.status.as_str(), "invited")) && same {
            return true;
        }
        i = i + 1;
    }
    false
}

impl Store {
    /// Ensure the subscription owner has an `owner`/`active` row, so the owner
    /// always appears in the roster. Does nothing if one exists.
    pub fn ensure_owner_subscription_membership(
        &mut self,
        user_subscription_id: &str,
        owner_user_id: &str,
        now: i64,
    )
        ensures
            (model_table(final(self).members()), final(self).member_seq()) == with_owner(
                model_table(old(self).members()),
                old(self).member_seq(),
                user_subscription_id@,
                owner_user_id@,
                now,
            ),
            final(self).bookings() == old(self).bookings(),
            final(self).packages() == old(self).packages(),
            final(self).subscriptions() == old(self).subscriptions(),
            final(self).pricing() == old(self).pricing(),
            final(self).users() == old(self).users(),
            final(self).booking_seq() == old(self).booking_seq(),
    {
        proof {
            lemma_active_model(self.members(), user_subscription_id@, owner_user_id@, owner_user_id@);
        }
        let existing = self.scan_members_of(user_subscription_id);
        if any_owner_row(&existing, owner_user_id) {
            return;
        }
        let seq = self.member_seq;
        self.member_seq = if seq == u64::MAX {
            0
        } else {
            seq + 1
        };
        let member = UserSubscriptionMember {
            id: member_id_of(now, seq),
            user_subscription_id: owned(user_subscription_id),
            user_id: Some(owned(owner_user_id)),
            role: owned("owner"),
            status: owned("active"),
            invited_phone: None,
            invited_at: now,
            accepted_at: Some(now),
            removed_at: None,
        };
        let key = member_key_of(member.user_subscription_id.as_str(), member.id.as_str());
        let ghost m = member;
        let ghost pre = self.members();
        self.members.insert(key.as_str(), member);
        proof {
            lemma_model_upsert(pre, key@, m);
            assert(member_model(m) == owner_row(user_subscription_id@, owner_user_id@, now, seq));
        }
    }

    /// Owner-only: invite a member to a subscription by phone. Creates an
    /// `invited` row for the normalized Icelandic phone, after making sure the
    /// owner's own row exists. Only the owner may invite, and a phone may hold
    /// only one open invite per subscription.
    pub fn invite_subscription_member(
        &mut self,
        owner_user_id: &str,
        user_subscription_id: &str,
        phone: &str,
        now: i64,
    ) -> (r: Result<UserSubscriptionMember, String>)
        ensures
            match invite_refusal(*old(self), owner_user_id@, user_subscription_id@, phone@) {
                Some(msg) => r matches Err(e) && e@ == msg && same_store(*final(self), *old(self)),
                None => {
                    let p = normalized_phone(phone@)->Ok_0;
                    let (t1, s1) = with_owner(
                        model_table(old(self).members()),
                        old(self).member_seq(),
                        user_subscription_id@,
                        owner_user_id@,
                        now,
                    );
                    &&& r matches Ok(m) && member_model(m) == invited_row(user_subscription_id@, p, now, s1)
                    &&& model_table(final(self).members()) == upsert(
                        t1,
                        member_key(user_subscription_id@, member_id(now, s1)),
                        invited_row(user_subscription_id@, p, now, s1),
                    )
                    &&& final(self).member_seq() == next_seq(s1)
                    &&& final(self).bookings() == old(self).bookings()
                    &&& final(self).packages() == old(self).packages()
                    &&& final(self).subscriptions() == old(self).subscriptions()
                    &&& final(self).pricing() == old(self).pricing()
                    &&& final(self).users() == old(self).users()
                    &&& final(self).booking_seq() == old(self).booking_seq()
                },
            },
    {
        let invited_phone = match normalize_subscription_invite_phone(phone) {
            Ok(p) => p,
            Err(e) => return Err(e),
        };
        let sub_owner = match self.subscriptions.get(user_subscription_id) {
            Some(sub) => sub.user_id.clone(),
            None => return err_text("Áskrift fannst ekki"),
        };
        if !str_eq(sub_owner.as_str(), owner_user_id) {
            return err_text("Aðeins eigandi getur deilt áskriftinni");
        }
        let existing = self.scan_members_of(user_subscription_id);
        proof {
            lemma_scan_model(self.members(), user_subscription_id@);
        }
        if any_open_invite(&existing, invited_phone.as_str()) {
            return err_text("Þessi aðili er þegar á áskriftinni eða með opið boð");
        }
        self.ensure_owner_subscription_membership(user_subscription_id, owner_user_id, now);
        let seq = self.member_seq;
        self.member_seq = if seq == u64::MAX {
            0
        } else {
            seq + 1
        };
        let member = UserSubscriptionMember {
            id: member_id_of(now, seq),
            user_subscription_id: owned(user_subscription_id),
            user_id: None,
            role: owned("member"),
            status: owned("invited"),
            invited_phone: Some(invited_phone),
            invited_at: now,
            accepted_at: None,
            removed_at: None,
        };
        let key = member_key_of(member.user_subscription_id.as_str(), member.id.as_str());
        let ghost pre = self.members();
        self.members.insert(key.as_str(), member.clone());
        proof {
            lemma_model_upsert(pre, key@, member);
        }
        Ok(member)
    }
}

/// The invited rows of the whole table addressed to `phone`, in key order.
pub open spec fn pending_for(t: Seq<(Seq<char>, MemberModel)>, phone: Seq<char>) -> Seq<MemberModel>
    decreases t.len(),
{
    if t.len() == 0 {
        seq![]
    } else if t.last().1.status == "invited"@ && t.last().1.invited_phone == Some(phone) {
        pending_for(t.drop_last(), phone).push(t.last().1)
    } else {
        pending_for(t.drop_last(), phone)
    }
}

/// Accepting one invite for `user`: dropped (removed) when `user` is already
/// active in that subscription, else bound to `user` and made active (counted).
pub open spec fn accept_step(t: Seq<(Seq<char>, MemberModel)>, m: MemberModel, user: Seq<char>, now: i64) -> (Seq<(Seq<char>, MemberModel)>, nat) {
    let key = member_key(m.user_subscription_id, m.id);
    if active_in(scan_models(t, m.user_subscription_id), user) {
        (upsert(t, key, MemberModel { status: "removed"@, removed_at: Some(now), ..m }), 0)
    } else {
        (upsert(t, key, MemberModel { user_id: Some(user), status: "active"@, accepted_at: Some(now), ..m }), 1)
    }
}

/// Accepting the invites one after another; the table afterwards and how
/// many were accepted.
pub open spec fn accept_all(t: Seq<(Seq<char>, MemberModel)>, pending: Seq<MemberModel>, user: Seq<char>, now: i64) -> (Seq<(Seq<char>, MemberModel)>, nat)
    decreases pending.len(),
{
    if pending.len() == 0 {
        (t, 0)
    } else {
        let (t1, c1) = accept_step(t, pending[0], user, now);
        let (t2, c2) = accept_all(t1, pending.drop_first(), user, now);
        (t2, c1 + c2)
    }
}

proof fn lemma_accept_count(t: Seq<(Seq<char>, MemberModel)>, pending: Seq<MemberModel>, user: Seq<char>, now: i64)
    ensures
        accept_all(t, pending, user, now).1 <= pending.len(),
    decreases pending.len(),
{
    if pending.len() > 0 {
        let (t1, c1) = accept_step(t, pending[0], user, now);
        lemma_accept_count(t1, pending.drop_first(), user, now);
    }
}

/// The first row of `ms` with id `id` and role `member`.
pub open spec fn find_member_row(ms: Seq<MemberModel>, id: Seq<char>) -> Option<MemberModel>
    decreases ms.len(),
{
    if ms.len() == 0 {
        None
    } else if ms[0].id == id && ms[0].role == "member"@ {
        Some(ms[0])
    } else {
        find_member_row(ms.drop_first(), id)
    }
}

/// Why removing a member is refused, or the row as it ends up.
pub open spec fn removal(st: Store, owner: Seq<char>, sub_id: Seq<char>, member: Seq<char>, now: i64) -> Result<MemberModel, Seq<char>> {
    match lookup(st.subscriptions(), sub_id) {
        None => Err("Áskrift fannst ekki"@),
        Some(sub) => if sub.user_id@ != owner {
            Err("Aðeins eigandi getur fjarlægt meðlimi"@)
        } else {
            match find_member_row(scan_models(model_table(st.members()), sub_id), member) {
                None => Err("Meðlimur fannst ekki"@),
                Some(m) => Ok(MemberModel { status: "removed"@, removed_at: Some(now), ..m }),
            }
        },
    }
}

impl Store {
    /// Accept every pending invite addressed to `phone`, binding it to
    /// `user_id` and making it `active`. A user already active in a
    /// subscription has that invite dropped (removed) instead, so a user holds
    /// at most one active row per subscription. No phone, nothing to accept.
    pub fn accept_pending_subscription_invites(&mut self, user_id: &str, phone: Option<&str>, now: i64) -> (r: Result<usize, String>)
        ensures
            match phone {
                None => r matches Ok(n) && n == 0 && same_store(*final(self), *old(self)),
                Some(ph) => match normalized_phone(ph@) {
                    Err(e) => r matches Err(x) && x@ == e && same_store(*final(self), *old(self)),
                    Ok(p) => {
                        let (t, c) = accept_all(
                            model_table(old(self).members()),
                            pending_for(model_table(old(self).members()), p),
                            user_id@,
                            now,
                        );
                        &&& r matches Ok(n) && n == c
                        &&& model_table(final(self).members()) == t
                        &&& final(self).member_seq() == old(self).member_seq()
                        &&& final(self).bookings() == old(self).bookings()
                        &&& final(self).packages() == old(self).packages()
                        &&& final(self).subscriptions() == old(self).subscriptions()
                        &&& final(self).pricing() == old(self).pricing()
                        &&& final(self).users() == old(self).users()
                        &&& final(self).booking_seq() == old(self).booking_seq()
                    },
                },
            },
    {
        let phone = match phone {
            Some(p) => p,
            None => return Ok(0),
        };
        let normalized = match normalize_subscription_invite_phone(phone) {
            Ok(n) => n,
            Err(e) => return Err(e),
        };
        let e = self.members.entries();
        let mut pending: Vec<UserSubscriptionMember> = Vec::new();
        let mut i: usize = 0;
        while i < e.len()
            invariant
                i <= e@.len(),
                entries_view(e@) == self.members(),
                pending@.map_values(|m: UserSubscriptionMember| member_model(m)) == pending_for(
                    model_table(entries_view(e@).subrange(0, i as int)),
                    normalized@,
                ),
            decreases e@.len() - i,
        {
            assert(model_table(entries_view(e@).subrange(0, i + 1)).drop_last() =~= model_table(entries_view(e@).subrange(0, i as int)));
            let m = &e[i].1;
            let same = match &m.invited_phone {
                Some(p) => str_eq(p.as_str(), normalized.as_str()),
                None => false,
            };
            let ghost before = pending@;
            if str_eq(m.status.as_str(), "invited") && same {
                pending.push(m.clone());
                assert(pending@.map_values(|m: UserSubscriptionMember| member_model(m)) =~= before.map_values(|m: UserSubscriptionMember| member_model(m)).push(member_model(e@[i as int].1)));
            }
            i = i + 1;
        }
        assert(entries_view(e@).subrange(0, e@.len() as int) =~= entries_view(e@));
        let ghost all = pending@.map_values(|m: UserSubscriptionMember| member_model(m));
        let ghost t0 = model_table(self.members());
        proof {
            lemma_accept_count(t0, all, user_id@, now);
            assert(all.subrange(0, all.len() as int) =~= all);
        }
        let mut accepted: usize = 0;
        let mut k: usize = 0;
        while k < pending.len()
            invariant
                k <= pending@.len(),
                all == pending@.map_values(|m: UserSubscriptionMember| member_model(m)),
                accept_all(t0, all, user_id@, now).0 == accept_all(model_table(self.members()), all.subrange(k as int, all.len() as int), user_id@, now).0,
                accept_all(t0, all, user_id@, now).1 == accepted + accept_all(model_table(self.members()), all.subrange(k as int, all.len() as int), user_id@, now).1,
                accept_all(t0, all, user_id@, now).1 <= all.len(),
                self.bookings() == old(self).bookings(),
                self.packages() == old(self).packages(),
                self.subscriptions() == old(self).subscriptions(),
                self.pricing() == old(self).pricing(),
                self.users() == old(self).users(),
                self.booking_seq() == old(self).booking_seq(),
                self.member_seq() == old(self).member_seq(),
            decreases pending@.len() - k,
        {
            let ghost rest = all.subrange(k as int, all.len() as int);
            assert(rest[0] == all[k as int]);
            assert(rest.drop_first() =~= all.subrange(k + 1, all.len() as int));
            let ghost cur = model_table(self.members());
            let mut m = pending[k].clone();
            assert(member_model(m) == all[k as int]);
            let members = self.scan_members_of(m.user_subscription_id.as_str());
            proof {
                lemma_active_model(self.members(), m.user_subscription_id@, user_id@, user_id@);
                lemma_accept_count(accept_step(cur, all[k as int], user_id@, now).0, rest.drop_first(), user_id@, now);
            }
            let already_active = any_active_member(&members, user_id);
            let ghost pre = self.members();
            if already_active {
                m.status = owned("removed");
                m.removed_at = Some(now);
                self.put_user_subscription_member(&m);
                proof {
                    lemma_model_upsert(pre, member_key(m.user_subscription_id@, m.id@), m);
                }
            } else {
                m.user_id = Some(owned(user_id));
                m.status = owned("active");
                m.accepted_at = Some(now);
                self.put_user_subscription_member(&m);
                proof {
                    lemma_model_upsert(pre, member_key(m.user_subscription_id@, m.id@), m);
                }
                accepted = accepted + 1;
            }
            k = k + 1;
        }
        assert(all.subrange(all.len() as int, all.len() as int) =~= Seq::<MemberModel>::empty());
        Ok(accepted)
    }

    /// Owner-only: remove a member (status `removed`). Only `member` rows can
    /// be removed; the owner's own row never is.
    pub fn remove_subscription_member(
        &mut self,
        owner_user_id: &str,
        user_subscription_id: &str,
        member_id: &str,
        now: i64,
    ) -> (r: Result<UserSubscriptionMember, String>)
        ensures
            match removal(*old(self), owner_user_id@, user_subscription_id@, member_id@, now) {
                Err(msg) => r matches Err(e) && e@ == msg && same_store(*final(self), *old(self)),
                Ok(row) => {
                    &&& r matches Ok(m) && member_model(m) == row
                    &&& model_table(final(self).members()) == upsert(
                        model_table(old(self).members()),
                        member_key(row.user_subscription_id, row.id),
                        row,
                    )
                    &&& final(self).member_seq() == old(self).member_seq()
                    &&& final(self).bookings() == old(self).bookings()
                    &&& final(self).packages() == old(self).packages()
                    &&& final(self).subscriptions() == old(self).subscriptions()
                    &&& final(self).pricing() == old(self).pricing()
                    &&& final(self).users() == old(self).users()
                    &&& final(self).booking_seq() == old(self).booking_seq()
                },
            },
    {
        let sub_owner = match self.subscriptions.get(user_subscription_id) {
            Some(sub) => sub.user_id.clone(),
            None => return err_text("Áskrift fannst ekki"),
        };
        if !str_eq(sub_owner.as_str(), owner_user_id) {
            return err_text("Aðeins eigandi getur fjarlægt meðlimi");
        }
        let ms = self.scan_members_of(user_subscription_id);
        let ghost mm = ms@.map_values(|m: UserSubscriptionMember| member_model(m));
        proof {
            lemma_scan_model(self.members(), user_subscription_id@);
            assert(mm.subrange(0, mm.len() as int) =~= mm);
        }
        let mut i: usize = 0;
        let mut found: Option<UserSubscriptionMember> = None;
        while i < ms.len()
            invariant_except_break
                found is None,
            invariant
                i <= ms@.len(),
                mm == ms@.map_values(|m: UserSubscriptionMember| member_model(m)),
                find_member_row(mm, member_id@) == find_member_row(mm.subrange(i as int, mm.len() as int), member_id@),
            ensures
                found matches Some(f) ==> find_member_row(mm, member_id@) == Some(member_model(f)),
                found is None ==> find_member_row(mm, member_id@) is None,
            decreases ms@.len() - i,
        {
            assert(mm.subrange(i as int, mm.len() as int).drop_first() =~= mm.subrange(i + 1, mm.len() as int));
            assert(mm.subrange(i as int, mm.len() as int)[0] == member_model(ms@[i as int]));
            if str_eq(ms[i].id.as_str(), member_id) && str_eq(ms[i].role.as_str(), "member") {
                found = Some(ms[i].clone());
                break;
            }
            i = i + 1;
        }
        let mut target = match found {
            Some(t) => t,
            None => return err_text("Meðlimur fannst ekki"),
        };
        target.status = owned("removed");
        target.removed_at = Some(now);
        let ghost pre = self.members();
        self.put_user_subscription_member(&target);
        proof {
            lemma_model_upsert(pre, member_key(target.user_subscription_id@, target.id@), target);
        }
        Ok(target)
    }

    /// Shared daily usage of a subscription: today's active bookings by any
    /// member, counted by subscription id, against its daily limit. `None`
    /// for an unknown subscription.
    pub fn shared_subscription_usage(&self, user_subscription_id: &str, now: i64) -> (r: Option<SharedUsageSummary>)
        requires
            lookup(self.subscriptions(), user_subscription_id@) is Some ==> i64::MIN <= day_start_spec(now as int)
                && day_start_spec(now as int) + DAY_MS <= i64::MAX,
        ensures
            match lookup(self.subscriptions(), user_subscription_id@) {
                None => r is None,
                Some(sub) => r matches Some(u) && summarizes(
                    u,
                    sub.daily_limit as int,
                    count_sub_bookings(
                        self.bookings(),
                        user_subscription_id@,
                        day_start_spec(now as int) as i64,
                        (day_start_spec(now as int) + DAY_MS) as i64,
                    ) as i64 as int,
                ),
            },
    {
        let limit = match self.subscriptions.get(user_subscription_id) {
            Some(sub) => sub.daily_limit,
            None => return None,
        };
        let day = day_start(now);
        let used = self.count_active_subscription_bookings(user_subscription_id, day, day + DAY_MS) as i64;
        Some(summarize_shared_subscription_usage(limit, used))
    }
}

/// Slot key `t` lies in the key range `[lo, hi)`.
pub open spec fn in_window(t: i64, lo: i64, hi: i64) -> bool {
    slot_rank(lo) <= slot_rank(t) < slot_rank(hi)
}

/// The status shown for slot `t`: `past` before `now`, `booked` when an active
/// booking in the scanned range holds it, else `available`.
pub open spec fn slot_state(t: i64, now: i64, bookings: Seq<Booking>, lo: i64, hi: i64) -> Seq<char> {
    if t < now {
        "past"@
    } else if in_window(t, lo, hi) && slot_blocked(bookings, t) {
        "booked"@
    } else {
        "available"@
    }
}

/// The hour of day of instant `t`.
pub open spec fn hour_spec(t: i64) -> int {
    (t as int % DAY_MS as int) / HOUR_MS as int
}

/// `v` is the view of slot `t`.
pub open spec fn slot_view_ok(
    v: SlotView,
    t: i64,
    now: i64,
    fixed: Option<i64>,
    rules: Seq<PricingRule>,
    bookings: Seq<Booking>,
    lo: i64,
    hi: i64,
) -> bool {
    &&& v.hour == hour_spec(t)
    &&& v.starts_at@ == iso_str(t)
    &&& v.price == effective_price(hour_spec(t), rules, fixed)
    &&& v.status@ == slot_state(t, now, bookings, lo, hi)
}

/// `r` is the availability of `days` days from the day of `start`.
pub open spec fn availability_ok(
    r: Seq<DayAvailability>,
    start: i64,
    days: i64,
    fixed: Option<i64>,
    rules: Seq<PricingRule>,
    now: i64,
    bookings: Seq<Booking>,
) -> bool {
    let lo = day_start_spec(start as int);
    let hi = lo + days * DAY_MS;
    &&& r.len() == (if days > 0 { days as int } else { 0 })
    &&& forall|i: int|
        0 <= i < r.len() ==> {
            let day = lo + i * DAY_MS;
            &&& (#[trigger] r[i]).date@ == date_str(day as i64)
            &&& r[i].slots@.len() == 24
            &&& forall|h: int|
                0 <= h < 24 ==> slot_view_ok(
                    #[trigger] r[i].slots@[h],
                    (day + h * HOUR_MS) as i64,
                    now,
                    fixed,
                    rules,
                    bookings,
                    lo as i64,
                    hi as i64,
                )
        }
}

/// The days of `start` and `days` later are `i64` instants.
pub open spec fn window_in_range(start: i64, days: i64) -> bool {
    &&& i64::MIN <= day_start_spec(start as int)
    &&& i64::MIN <= days * DAY_MS <= i64::MAX
    &&& i64::MIN <= day_start_spec(start as int) + days * DAY_MS <= i64::MAX
}

impl Store {
    fn active_at(&self, t: i64, lo: i64, hi: i64) -> (r: bool)
        ensures
            r == (in_window(t, lo, hi) && slot_blocked(self.bookings(), t)),
    {
        if slot_before(t, lo) || !slot_before(t, hi) {
            return false;
        }
        match self.bookings.get(t) {
            Some(b) => active_check(b.status.as_str()),
            None => false,
        }
    }

    /// Availability for `days` days from the calendar day of `start_ms`, with
    /// the caller's pricing rules and `fixed_price`: each slot `past`,
    /// `booked` or `available`, priced with the effective price.
    pub fn availability_with(
        &self,
        start_ms: i64,
        days: i64,
        fixed: Option<i64>,
        rules: &[PricingRule],
        now_ms: i64,
    ) -> (r: Vec<DayAvailability>)
        requires
            window_in_range(start_ms, days),
        ensures
            availability_ok(r@, start_ms, days, fixed, rules@, now_ms, self.bookings()),
    {
        let start_day = day_start(start_ms);
        let end = add_days(start_day, days);
        let mut out: Vec<DayAvailability> = Vec::new();
        let mut i: i64 = 0;
        while i < days
            invariant
                window_in_range(start_ms, days),
                start_day == day_start_spec(start_ms as int),
                end == start_day + days * DAY_MS,
                0 <= i,
                i <= (if days > 0 { days } else { 0 }),
                out@.len() == i,
                forall|k: int|
                    0 <= k < out@.len() ==> {
                        let day = start_day + k * DAY_MS;
                        &&& (#[trigger] out@[k]).date@ == date_str(day as i64)
                        &&& out@[k].slots@.len() == 24
                        &&& forall|h: int|
                            0 <= h < 24 ==> slot_view_ok(
                                #[trigger] out@[k].slots@[h],
                                (day + h * HOUR_MS) as i64,
                                now_ms,
                                fixed,
                                rules@,
                                self.bookings(),
                                start_day,
                                end,
                            )
                    },
            decreases days - i,
        {
            assert(i * DAY_MS <= days * DAY_MS) by (nonlinear_arith)
                requires
                    0 <= i < days,
            ;
            let day = add_days(start_day, i);
            assert(crate::booking::time::day_slots_in_range(day as int)) by {
                assert(day_start_spec(day as int) == day as int) by {
                    assert(day == start_day + i * DAY_MS);
                    crate::booking::time::lemma_day_start_of_day_start(start_ms as int, i as int);
                }
            }
            let slots = generate_day_slots(day);
            let mut views: Vec<SlotView> = Vec::new();
            let mut h: usize = 0;
            while h < slots.len()
                invariant
                    h <= slots@.len(),
                    slots@.len() == 24,
                    views@.len() == h,
                    forall|q: int| 0 <= q < 24 ==> (#[trigger] slots@[q]).starts_at == day_start_spec(day as int) + q * HOUR_MS && slots@[q].key@ == iso_str(slots@[q].starts_at),
                    day_start_spec(day as int) == day as int,
                    forall|q: int|
                        0 <= q < h ==> slot_view_ok(
                            #[trigger] views@[q],
                            (day + q * HOUR_MS) as i64,
                            now_ms,
                            fixed,
                            rules@,
                            self.bookings(),
                            start_day,
                            end,
                        ),
                decreases slots@.len() - h,
            {
                let slot = &slots[h];
                let hour = hour_of(slot.starts_at);
                let status = if slot.starts_at < now_ms {
                    owned("past")
                } else if self.active_at(slot.starts_at, start_day, end) {
                    owned("booked")
                } else {
                    owned("available")
                };
                views.push(
                    SlotView {
                        hour,
                        starts_at: slot.key.clone(),
                        price: effective_slot_price(hour, rules, fixed),
                        status,
                    },
                );
                h = h + 1;
            }
            out.push(DayAvailability { date: date_string(day), slots: views });
            i = i + 1;
        }
        assert(day_start_spec(start_ms as int) as i64 == start_day);
        assert((day_start_spec(start_ms as int) + days * DAY_MS) as i64 == end);
        assert(out@.len() == (if days > 0 { days as int } else { 0 }));
        out
    }

    /// Availability priced with the stored active rules and the user's
    /// `fixed_price`.
    pub fn availability(&self, start_ms: i64, days: i64, user_id: Option<&str>, now_ms: i64) -> (r: Vec<DayAvailability>)
        requires
            window_in_range(start_ms, days),
        ensures
            availability_ok(
                r@,
                start_ms,
                days,
                match user_id {
                    Some(u) => fixed_price_of(self.users(), u@),
                    None => None,
                },
                active_rules(self.pricing()),
                now_ms,
                self.bookings(),
            ),
    {
        let fixed = match user_id {
            Some(u) => self.user_fixed_price(u),
            None => None,
        };
        let rules = self.active_pricing_rules();
        self.availability_with(start_ms, days, fixed, rules.as_slice(), now_ms)
    }
}

fn day_start_fits(x: i64) -> (r: bool)
    ensures
        r == (i64::MIN <= day_start_spec(x as int)),
{
    let q = crate::booking::time::floor_div(x, DAY_MS);
    (q as i128) * (DAY_MS as i128) >= (i64::MIN as i128)
}

fn day_end_fits(x: i64) -> (r: bool)
    ensures
        r == (day_start_spec(x as int) + DAY_MS <= i64::MAX),
{
    let q = crate::booking::time::floor_div(x, DAY_MS);
    (q as i128) * (DAY_MS as i128) + (DAY_MS as i128) <= (i64::MAX as i128)
}

impl Store {
    /// Whether `create_booking` stays within `i64` day arithmetic on these
    /// inputs (see `create_in_range`).
    pub fn create_booking_in_range(&self, user_id: &str, slot_ms: i64, payment_type: &str, ref_id: Option<&str>) -> (r: bool)
        ensures
            r == create_in_range(*self, user_id@, slot_ms, payment_type@, opt_str(ref_id)),
    {
        if !str_eq(payment_type, "subscription") {
            return true;
        }
        if let Some(e) = self.bookings.get(slot_ms) {
            if active_check(e.status.as_str()) {
                return true;
            }
        }
        let r = match ref_id {
            Some(r) => r,
            None => return true,
        };
        let sub = match self.subscriptions.get(r) {
            Some(s) => s,
            None => return true,
        };
        let members = self.scan_members_of(r);
        if !(str_eq(sub.user_id.as_str(), user_id) || any_active_member(&members, user_id)) {
            return true;
        }
        if !(day_start_fits(sub.valid_from) && day_start_fits(sub.valid_until) && day_start_fits(slot_ms)) {
            return false;
        }
        if covers_date(sub.valid_from, sub.valid_until, slot_ms) {
            day_end_fits(slot_ms)
        } else {
            true
        }
    }
}

/// One record per slot: no two stored bookings share a slot start.
pub proof fn lemma_one_booking_per_slot(s: Seq<Booking>, i: int, j: int)
    requires
        slots_sorted(s),
        0 <= i < s.len(),
        0 <= j < s.len(),
        i != j,
    ensures
        s[i].starts_at != s[j].starts_at,
{
    if i < j {
        assert(slot_rank(s[i].starts_at) < slot_rank(s[j].starts_at));
    } else {
        assert(slot_rank(s[j].starts_at) < slot_rank(s[i].starts_at));
    }
}

/// A slot holding an active booking refuses every new booking, whoever asks
/// and however they pay.
pub proof fn lemma_booked_slot_refused(st: Store, user: Seq<char>, slot: i64, ptype: Seq<char>, ref_id: Option<Seq<char>>)
    requires
        slot_blocked(st.bookings(), slot),
    ensures
        create_plan(st, user, slot, ptype, ref_id) == Err::<BookingPlan, Seq<char>>("Þessi tími er þegar bókaður"@),
{
}

/// Recording a confirmed booking blocks its slot: a second booking of the
/// same slot is refused.
pub proof fn lemma_no_double_booking(
    before: Seq<Booking>,
    b: Booking,
    st: Store,
    user: Seq<char>,
    ptype: Seq<char>,
    ref_id: Option<Seq<char>>,
)
    requires
        b.status@ == "confirmed"@,
        st.bookings() == put_booking(before, b),
    ensures
        slot_blocked(st.bookings(), b.starts_at),
        create_plan(st, user, b.starts_at, ptype, ref_id) == Err::<BookingPlan, Seq<char>>("Þessi tími er þegar bókaður"@),
{
    lemma_booking_at_put(before, b, b.starts_at);
}

/// Whether booking `b` counts toward subscription `sub`'s usage between
/// `start` and `end`.
pub open spec fn counts_toward(b: Booking, sub: Seq<char>, start: i64, end: i64) -> nat {
    if slot_rank(start) <= slot_rank(b.starts_at) < slot_rank(end) && is_active(b.status@)
        && crate::text::opt_chars(b.user_subscription_id) == Some(sub) {
        1
    } else {
        0
    }
}

proof fn lemma_count_bound(s: Seq<Booking>, sub: Seq<char>, start: i64, end: i64)
    ensures
        count_sub_bookings(s, sub, start, end) <= s.len(),
    decreases s.len(),
{
    if s.len() > 0 {
        lemma_count_bound(s.drop_last(), sub, start, end);
    }
}

proof fn lemma_count_front(x: Booking, s: Seq<Booking>, sub: Seq<char>, start: i64, end: i64)
    ensures
        count_sub_bookings(seq![x] + s, sub, start, end) == counts_toward(x, sub, start, end) + count_sub_bookings(
            s,
            sub,
            start,
            end,
        ),
    decreases s.len(),
{
    let t = seq![x] + s;
    assert(count_sub_bookings(t, sub, start, end) == count_sub_bookings(t.drop_last(), sub, start, end)
        + counts_toward(t.last(), sub, start, end));
    if s.len() == 0 {
        assert(t.drop_last() =~= Seq::<Booking>::empty());
        assert(t.last() == x);
    } else {
        assert(t.drop_last() =~= seq![x] + s.drop_last());
        assert(t.last() == s.last());
        lemma_count_front(x, s.drop_last(), sub, start, end);
        assert(count_sub_bookings(s, sub, start, end) == count_sub_bookings(s.drop_last(), sub, start, end)
            + counts_toward(s.last(), sub, start, end));
    }
}

proof fn lemma_booking_at_absent(s: Seq<Booking>, t: i64)
    requires
        forall|i: int| 0 <= i < s.len() ==> (#[trigger] s[i]).starts_at != t,
    ensures
        booking_at(s, t) is None,
    decreases s.len(),
{
    if s.len() > 0 {
        let r = s.drop_first();
        assert forall|i: int| 0 <= i < r.len() implies (#[trigger] r[i]).starts_at != t by {
            assert(r[i] == s[i + 1]);
        }
        lemma_booking_at_absent(r, t);
    }
}

/// Recording `b` replaces what its slot held in the count.
proof fn lemma_count_put(s: Seq<Booking>, b: Booking, sub: Seq<char>, start: i64, end: i64)
    requires
        slots_sorted(s),
    ensures
        count_sub_bookings(put_booking(s, b), sub, start, end) + match booking_at(s, b.starts_at) {
            Some(old) => counts_toward(old, sub, start, end),
            None => 0,
        } == count_sub_bookings(s, sub, start, end) + counts_toward(b, sub, start, end),
    decreases s.len(),
{
    if s.len() == 0 {
        lemma_count_front(b, s, sub, start, end);
        assert(seq![b] + s =~= seq![b]);
    } else {
        let r = s.drop_first();
        assert(s =~= seq![s[0]] + r);
        lemma_count_front(s[0], r, sub, start, end);
        if s[0].starts_at == b.starts_at {
            lemma_count_front(b, r, sub, start, end);
        } else if slot_rank(b.starts_at) < slot_rank(s[0].starts_at) {
            lemma_count_front(b, s, sub, start, end);
            assert forall|i: int| 0 <= i < s.len() implies (#[trigger] s[i]).starts_at != b.starts_at by {
                if i > 0 {
                    assert(slot_rank(s[0].starts_at) < slot_rank(s[i].starts_at));
                }
            }
            lemma_booking_at_absent(s, b.starts_at);
        } else {
            assert(slots_sorted(r)) by {
                assert forall|i: int, j: int| 0 <= i < j < r.len() implies slot_rank(#[trigger] r[i].starts_at)
                    < slot_rank(#[trigger] r[j].starts_at) by {
                    assert(r[i] == s[i + 1] && r[j] == s[j + 1]);
                }
            }
            lemma_count_put(r, b, sub, start, end);
            lemma_count_front(s[0], put_booking(r, b), sub, start, end);
        }
    }
}

/// The daily limit holds: a subscription booking is made only while the
/// day's active bookings on the subscription are under its limit, and
/// recording it adds exactly one to that count, so no day goes over. (The
/// count runs over slot keys in byte order, so the day ending at the epoch,
/// whose window wraps around, is left out.)
pub proof fn lemma_daily_limit(st: Store, user: Seq<char>, slot: i64, r: Seq<char>, b: Booking)
    requires
        slots_sorted(st.bookings()),
        st.bookings().len() <= i64::MAX,
        create_plan(st, user, slot, "subscription"@, Some(r)) is Ok,
        i64::MIN <= day_start_spec(slot as int),
        day_start_spec(slot as int) + DAY_MS <= i64::MAX,
        day_start_spec(slot as int) + DAY_MS != 0,
        b.starts_at == slot,
        is_active(b.status@),
        crate::text::opt_chars(b.user_subscription_id) == Some(r),
    ensures
        ({
            let start = day_start_spec(slot as int) as i64;
            let end = (day_start_spec(slot as int) + DAY_MS) as i64;
            let limit = lookup(st.subscriptions(), r)->0.daily_limit as int;
            &&& count_sub_bookings(st.bookings(), r, start, end) < clamp0(limit)
            &&& count_sub_bookings(put_booking(st.bookings(), b), r, start, end) == count_sub_bookings(
                st.bookings(),
                r,
                start,
                end,
            ) + 1
            &&& count_sub_bookings(put_booking(st.bookings(), b), r, start, end) <= clamp0(limit)
        }),
{
    let start = day_start_spec(slot as int) as i64;
    let end = (day_start_spec(slot as int) + DAY_MS) as i64;
    lemma_count_bound(st.bookings(), r, start, end);
    lemma_count_put(st.bookings(), b, r, start, end);
    reveal_strlit("subscription");
    reveal_strlit("package");
    assert("subscription"@ != "package"@) by {
        assert("subscription"@[0] != "package"@[0]);
    }
    let c = count_sub_bookings(st.bookings(), r, start, end);
    assert(c as i64 as int == c);
    let sub = lookup(st.subscriptions(), r)->0;
    assert(lookup(st.subscriptions(), r) is Some);
    assert(clamp0(c as i64 as int) < clamp0(sub.daily_limit as int));
    vstd::arithmetic::div_mod::lemma_fundamental_div_mod(slot as int, DAY_MS as int);
    assert(day_start_spec(slot as int) <= slot < day_start_spec(slot as int) + DAY_MS);
    assert(start as int == day_start_spec(slot as int));
    assert(end as int == day_start_spec(slot as int) + DAY_MS);
    if slot >= 0 {
        assert(day_start_spec(slot as int) >= 0) by {
            vstd::arithmetic::div_mod::lemma_div_pos_is_pos(slot as int, DAY_MS as int);
            assert(day_start_spec(slot as int) == (slot as int / DAY_MS as int) * DAY_MS);
            assert((slot as int / DAY_MS as int) * DAY_MS >= 0) by (nonlinear_arith)
                requires
                    slot as int / DAY_MS as int >= 0,
            ;
        }
    }
    assert(slot_rank(start) <= slot_rank(slot) < slot_rank(end));
    assert(counts_toward(b, r, start, end) == 1);
    assert(!slot_blocked(st.bookings(), slot));
}

/// Cancelling frees the slot: a cancelled record no longer blocks it.
pub proof fn lemma_cancel_frees_slot(before: Seq<Booking>, c: Booking)
    requires
        c.status@ == "cancelled"@,
    ensures
        !slot_blocked(put_booking(before, c), c.starts_at),
{
    lemma_booking_at_put(before, c, c.starts_at);
    reveal_strlit("cancelled");
    reveal_strlit("confirmed");
    reveal_strlit("pending");
    assert("cancelled"@[1] != "confirmed"@[1]);
    assert("cancelled"@[0] != "pending"@[0]);
}

/// A package booking spends one slot of the package, and cancelling it gives
/// that slot back: the package reads as before.
pub proof fn lemma_package_round_trip(packages: Seq<(Seq<char>, UserPackage)>, p: UserPackage, b: Booking)
    requires
        p.remaining > 0,
        b.payment_type@ == "package"@,
        b.user_package_id matches Some(pid) && pid@ == p.id@,
    ensures
        lookup(
            refunded(upsert(packages, p.id@, UserPackage { remaining: (p.remaining - 1) as i64, ..p }), b),
            p.id@,
        ) == Some(p),
{
    let spent = UserPackage { remaining: (p.remaining - 1) as i64, ..p };
    let t1 = upsert(packages, p.id@, spent);
    crate::table::lemma_lookup_upsert(packages, p.id@, spent, p.id@);
    let back = UserPackage { remaining: (spent.remaining + 1) as i64, ..spent };
    crate::table::lemma_lookup_upsert(t1, p.id@, back, p.id@);
    assert(back == p);
}

/// A package booking is made only on a free slot, with a package of the
/// user's that has slots left, and spends exactly one of them: that package
/// reads one slot lower, every other user package reads as before, and the
/// booking records the package and no price.
pub proof fn lemma_package_booking_spends_one_slot(st: Store, user: Seq<char>, slot: i64, r: Seq<char>)
    requires
        create_plan(st, user, slot, "package"@, Some(r)) is Ok,
    ensures
        ({
            let plan = create_plan(st, user, slot, "package"@, Some(r))->Ok_0;
            let p = lookup(st.packages(), r)->0;
            &&& !slot_blocked(st.bookings(), slot)
            &&& lookup(st.packages(), r) is Some
            &&& p.user_id@ == user
            &&& p.remaining > 0
            &&& plan.package_id == Some(r)
            &&& plan.price_paid is None
            &&& plan.subscription_id is None
            &&& lookup(plan.packages, p.id@) == Some(UserPackage { remaining: (p.remaining - 1) as i64, ..p })
            &&& forall|k: Seq<char>| k != p.id@ ==> #[trigger] lookup(plan.packages, k) == lookup(st.packages(), k)
        }),
{
    let p = lookup(st.packages(), r)->0;
    let spent = UserPackage { remaining: (p.remaining - 1) as i64, ..p };
    crate::table::lemma_lookup_upsert(st.packages(), p.id@, spent, p.id@);
    assert forall|k: Seq<char>| k != p.id@ implies #[trigger] lookup(upsert(st.packages(), p.id@, spent), k) == lookup(
        st.packages(),
        k,
    ) by {
        crate::table::lemma_lookup_upsert(st.packages(), p.id@, spent, k);
    }
}

/// On a free slot, a package booking with the user's own package succeeds
/// exactly when the package has slots left; a package that is missing or
/// belongs to someone else is not found.
pub proof fn lemma_package_booking_outcome(st: Store, user: Seq<char>, slot: i64, r: Seq<char>)
    requires
        !slot_blocked(st.bookings(), slot),
    ensures
        match lookup(st.packages(), r) {
            Some(p) => if p.user_id@ != user {
                create_plan(st, user, slot, "package"@, Some(r)) == Err::<BookingPlan, Seq<char>>("Package not found"@)
            } else if p.remaining <= 0 {
                create_plan(st, user, slot, "package"@, Some(r)) == Err::<BookingPlan, Seq<char>>(
                    "Engir tímar eftir á kortinu"@,
                )
            } else {
                create_plan(st, user, slot, "package"@, Some(r)) is Ok
            },
            None => create_plan(st, user, slot, "package"@, Some(r)) == Err::<BookingPlan, Seq<char>>(
                "Package not found"@,
            ),
        },
        create_plan(st, user, slot, "package"@, None) == Err::<BookingPlan, Seq<char>>(
            "userPackageId is required for package bookings"@,
        ),
{
}

/// A subscription booking is made only on a free slot, by the
/// subscription's owner or an active member of it, inside its validity
/// window; it records the subscription, no price and no package, and leaves
/// the user packages as they were.
pub proof fn lemma_subscription_booking_rules(st: Store, user: Seq<char>, slot: i64, r: Seq<char>)
    requires
        create_plan(st, user, slot, "subscription"@, Some(r)) is Ok,
    ensures
        ({
            let plan = create_plan(st, user, slot, "subscription"@, Some(r))->Ok_0;
            let sub = lookup(st.subscriptions(), r)->0;
            &&& !slot_blocked(st.bookings(), slot)
            &&& lookup(st.subscriptions(), r) is Some
            &&& (sub.user_id@ == user || active_member(scan_members(st.members(), r), user))
            &&& covers(sub.valid_from as int, sub.valid_until as int, slot as int)
            &&& plan.subscription_id == Some(r)
            &&& plan.price_paid is None
            &&& plan.package_id is None
            &&& plan.packages == st.packages()
        }),
{
    reveal_strlit("subscription");
    reveal_strlit("package");
    assert("subscription"@ != "package"@) by {
        assert("subscription"@[0] != "package"@[0]);
    }
}

/// A subscription that is missing, or that the user neither owns nor holds
/// an active membership of, is not found; outside its validity window it is
/// refused.
pub proof fn lemma_subscription_booking_refusals(st: Store, user: Seq<char>, slot: i64, r: Seq<char>)
    requires
        !slot_blocked(st.bookings(), slot),
    ensures
        match lookup(st.subscriptions(), r) {
            Some(sub) => if !(sub.user_id@ == user || active_member(scan_members(st.members(), r), user)) {
                create_plan(st, user, slot, "subscription"@, Some(r)) == Err::<BookingPlan, Seq<char>>(
                    "Áskrift fannst ekki"@,
                )
            } else if !covers(sub.valid_from as int, sub.valid_until as int, slot as int) {
                create_plan(st, user, slot, "subscription"@, Some(r)) == Err::<BookingPlan, Seq<char>>(
                    "Tími er utan gildistíma áskriftar"@,
                )
            } else {
                true
            },
            None => create_plan(st, user, slot, "subscription"@, Some(r)) == Err::<BookingPlan, Seq<char>>(
                "Áskrift fannst ekki"@,
            ),
        },
        create_plan(st, user, slot, "subscription"@, None) == Err::<BookingPlan, Seq<char>>(
            "userSubscriptionId is required for subscription bookings"@,
        ),
{
    reveal_strlit("subscription");
    reveal_strlit("package");
    assert("subscription"@ != "package"@) by {
        assert("subscription"@[0] != "package"@[0]);
    }
}

/// A single booking on a free slot always succeeds and pays the slot's
/// price: the user's fixed price when they have one, otherwise the price of
/// the first active pricing rule covering the slot's hour of day. It spends
/// no package.
pub proof fn lemma_single_booking_price(st: Store, user: Seq<char>, slot: i64, ref_id: Option<Seq<char>>)
    requires
        !slot_blocked(st.bookings(), slot),
    ensures
        create_plan(st, user, slot, "single"@, ref_id) is Ok,
        ({
            let plan = create_plan(st, user, slot, "single"@, ref_id)->Ok_0;
            let hour = (slot as int % DAY_MS as int) / HOUR_MS as int;
            &&& plan.price_paid == Some(
                match fixed_price_of(st.users(), user) {
                    Some(f) => f,
                    None => crate::booking::pricing::price_of(hour, active_rules(st.pricing())),
                },
            )
            &&& plan.package_id is None
            &&& plan.subscription_id is None
            &&& plan.packages == st.packages()
        }),
{
    reveal_strlit("single");
    reveal_strlit("subscription");
    reveal_strlit("package");
    assert("single"@ != "package"@) by {
        assert("single"@[0] != "package"@[0]);
    }
    assert("single"@ != "subscription"@) by {
        assert("single"@[1] != "subscription"@[1]);
    }
}

/// Cancelling gives a package booking's slot back to its package, if the
/// package is still there, and leaves every other package as it was; any
/// other booking leaves the packages untouched.
pub proof fn lemma_cancel_refund(packages: Seq<(Seq<char>, UserPackage)>, b: Booking)
    ensures
        b.payment_type@ != "package"@ ==> refunded(packages, b) == packages,
        b.payment_type@ == "package"@ ==> match b.user_package_id {
            None => refunded(packages, b) == packages,
            Some(pid) => match lookup(packages, pid@) {
                None => refunded(packages, b) == packages,
                Some(p) => {
                    &&& lookup(refunded(packages, b), p.id@) == Some(
                        UserPackage { remaining: (p.remaining + 1) as i64, ..p },
                    )
                    &&& forall|k: Seq<char>|
                        k != p.id@ ==> #[trigger] lookup(refunded(packages, b), k) == lookup(packages, k)
                },
            },
        },
{
    if b.payment_type@ == "package"@ {
        if let Some(pid) = b.user_package_id {
            if let Some(p) = lookup(packages, pid@) {
                let back = UserPackage { remaining: (p.remaining + 1) as i64, ..p };
                crate::table::lemma_lookup_upsert(packages, p.id@, back, p.id@);
                assert forall|k: Seq<char>| k != p.id@ implies #[trigger] lookup(upsert(packages, p.id@, back), k)
                    == lookup(packages, k) by {
                    crate::table::lemma_lookup_upsert(packages, p.id@, back, k);
                }
            }
        }
    }
}

/// Every row stored under a key of subscription `sub_id` is among its scanned
/// rows.
proof fn lemma_scan_models_has(t: Seq<(Seq<char>, MemberModel)>, sub_id: Seq<char>, i: int)
    requires
        0 <= i < t.len(),
        has_prefix(t[i].0, sub_id + seq![':']),
    ensures
        scan_models(t, sub_id).contains(t[i].1),
    decreases t.len(),
{
    let d = t.drop_last();
    if i == t.len() - 1 {
        let r = scan_models(t, sub_id);
        assert(r[r.len() - 1] == t[i].1);
    } else {
        assert(d[i] == t[i]);
        lemma_scan_models_has(d, sub_id, i);
        let m = choose|m: int| 0 <= m < scan_models(d, sub_id).len() && scan_models(d, sub_id)[m] == t[i].1;
        let r = scan_models(t, sub_id);
        assert(r[m] == scan_models(d, sub_id)[m]);
    }
}

/// An invite is sent only by the subscription's owner, for a phone that
/// normalizes, with no open invite or active row for that phone yet; a
/// valid invite from anyone else is refused.
pub proof fn lemma_invite_rules(st: Store, owner: Seq<char>, sub_id: Seq<char>, phone: Seq<char>)
    ensures
        invite_refusal(st, owner, sub_id, phone) is None ==> {
            &&& normalized_phone(phone) is Ok
            &&& lookup(st.subscriptions(), sub_id) matches Some(sub) && sub.user_id@ == owner
            &&& !open_invite(scan_models(model_table(st.members()), sub_id), normalized_phone(phone)->Ok_0)
        },
        normalized_phone(phone) is Ok ==> match lookup(st.subscriptions(), sub_id) {
            Some(sub) => sub.user_id@ != owner ==> invite_refusal(st, owner, sub_id, phone) == Some(
                "Aðeins eigandi getur deilt áskriftinni"@,
            ),
            None => invite_refusal(st, owner, sub_id, phone) == Some("Áskrift fannst ekki"@),
        },
{
}

/// A phone holds at most one open invite per subscription: once an invite
/// for it is recorded, inviting the same phone to the same subscription
/// again is refused.
pub proof fn lemma_no_second_invite(
    before: Store,
    after: Store,
    owner: Seq<char>,
    sub_id: Seq<char>,
    phone: Seq<char>,
    now: i64,
)
    requires
        invite_refusal(before, owner, sub_id, phone) is None,
        after.subscriptions() == before.subscriptions(),
        ({
            let (t1, s1) = with_owner(model_table(before.members()), before.member_seq(), sub_id, owner, now);
            model_table(after.members()) == upsert(
                t1,
                member_key(sub_id, member_id(now, s1)),
                invited_row(sub_id, normalized_phone(phone)->Ok_0, now, s1),
            )
        }),
    ensures
        invite_refusal(after, owner, sub_id, phone) == Some("Þessi aðili er þegar á áskriftinni eða með opið boð"@),
{
    let p = normalized_phone(phone)->Ok_0;
    let (t1, s1) = with_owner(model_table(before.members()), before.member_seq(), sub_id, owner, now);
    let key = member_key(sub_id, member_id(now, s1));
    let row = invited_row(sub_id, p, now, s1);
    let t2 = model_table(after.members());
    crate::table::lemma_lookup_upsert(t1, key, row, key);
    let i = crate::table::lemma_lookup_some(t2, key);
    assert(key.subrange(0, (sub_id + seq![':']).len() as int) =~= sub_id + seq![':']);
    lemma_scan_models_has(t2, sub_id, i);
    let ms = scan_models(t2, sub_id);
    let m = choose|m: int| 0 <= m < ms.len() && ms[m] == row;
    reveal_strlit("invited");
    assert(ms[m].status == "invited"@ && ms[m].invited_phone == Some(p));
    assert(open_invite(ms, p));
}

/// What the availability table shows agrees with what booking does: within
/// the scanned range, a slot shown as booked refuses every booking, and a
/// slot shown as available takes a single booking.
pub proof fn lemma_availability_agrees_with_booking(
    st: Store,
    t: i64,
    now: i64,
    lo: i64,
    hi: i64,
    user: Seq<char>,
    ptype: Seq<char>,
    ref_id: Option<Seq<char>>,
)
    requires
        in_window(t, lo, hi),
    ensures
        slot_state(t, now, st.bookings(), lo, hi) == "booked"@ ==> create_plan(st, user, t, ptype, ref_id)
            == Err::<BookingPlan, Seq<char>>("Þessi tími er þegar bókaður"@),
        slot_state(t, now, st.bookings(), lo, hi) == "available"@ ==> create_plan(st, user, t, "single"@, ref_id)
            is Ok,
{
    reveal_strlit("past");
    reveal_strlit("booked");
    reveal_strlit("available");
    assert("past"@[0] != "booked"@[0]);
    assert("past"@[0] != "available"@[0]);
    assert("booked"@[0] != "available"@[0]);
    if !slot_blocked(st.bookings(), t) {
        lemma_single_booking_price(st, user, t, ref_id);
    }
}

/// The rows are in roster order: owners first, then by invite time.
pub open spec fn rows_ordered(s: Seq<ListMemberView>) -> bool {
    forall|i: int, j: int| 0 <= i < j < s.len() ==> row_le(#[trigger] s[i], #[trigger] s[j])
}

proof fn lemma_insert_row_ordered(s: Seq<ListMemberView>, x: ListMemberView)
    requires
        rows_ordered(s),
    ensures
        rows_ordered(insert_row(s, x)),
        insert_row(s, x).to_multiset() == s.to_multiset().insert(x),
    decreases s.len(),
{
    broadcast use vstd::seq_lib::group_to_multiset_ensures;
    if s.len() == 0 {
        assert(seq![x] =~= Seq::<ListMemberView>::empty().push(x));
    } else if row_le(s.last(), x) {
        let t = s.push(x);
        assert forall|i: int, j: int| 0 <= i < j < t.len() implies row_le(#[trigger] t[i], #[trigger] t[j]) by {
            if j == s.len() {
                if i < s.len() - 1 {
                    assert(row_le(s[i], s[s.len() - 1]));
                }
            } else {
                assert(t[i] == s[i] && t[j] == s[j]);
            }
        }
    } else {
        let d = s.drop_last();
        assert(rows_ordered(d)) by {
            assert forall|i: int, j: int| 0 <= i < j < d.len() implies row_le(#[trigger] d[i], #[trigger] d[j]) by {
                assert(d[i] == s[i] && d[j] == s[j]);
            }
        }
        lemma_insert_row_ordered(d, x);
        let u = insert_row(d, x);
        assert(d.push(s.last()) =~= s);
        assert forall|k: int| 0 <= k < u.len() implies row_le(#[trigger] u[k], s.last()) by {
            assert(u.to_multiset().count(u[k]) > 0);
            assert(u.to_multiset().count(u[k]) == d.to_multiset().insert(x).count(u[k]));
            if u[k] != x {
                assert(d.to_multiset().count(u[k]) > 0);
                assert(d.contains(u[k]));
                let m = choose|m: int| 0 <= m < d.len() && d[m] == u[k];
                assert(s[m] == d[m]);
                assert(s[s.len() - 1] == s.last());
            }
        }
        let t = u.push(s.last());
        assert forall|i: int, j: int| 0 <= i < j < t.len() implies row_le(#[trigger] t[i], #[trigger] t[j]) by {
            if j == u.len() {
                assert(t[i] == u[i]);
            } else {
                assert(t[i] == u[i] && t[j] == u[j]);
            }
        }
    }
}

proof fn lemma_sort_rows(s: Seq<ListMemberView>)
    ensures
        rows_ordered(sort_rows(s)),
        sort_rows(s).to_multiset() == s.to_multiset(),
    decreases s.len(),
{
    broadcast use vstd::seq_lib::group_to_multiset_ensures;
    if s.len() > 0 {
        lemma_sort_rows(s.drop_last());
        lemma_insert_row_ordered(sort_rows(s.drop_last()), s.last());
        assert(s.drop_last().push(s.last()) =~= s);
    }
}

proof fn lemma_visible_rows(ms: Seq<UserSubscriptionMember>)
    ensures
        forall|i: int| 0 <= i < visible_rows(ms).len() ==> (#[trigger] visible_rows(ms)[i]).status@ != "removed"@,
        forall|j: int|
            0 <= j < ms.len() && (#[trigger] ms[j]).status@ != "removed"@ ==> visible_rows(ms).contains(
                roster_row(ms[j]),
            ),
    decreases ms.len(),
{
    if ms.len() > 0 {
        let d = ms.drop_last();
        lemma_visible_rows(d);
        let pd = visible_rows(d);
        let p = visible_rows(ms);
        assert forall|i: int| 0 <= i < p.len() implies (#[trigger] p[i]).status@ != "removed"@ by {
            if i < pd.len() {
                assert(p[i] == pd[i]);
            }
        }
        assert forall|j: int| 0 <= j < ms.len() && (#[trigger] ms[j]).status@ != "removed"@ implies p.contains(
            roster_row(ms[j]),
        ) by {
            if j < d.len() {
                assert(d[j] == ms[j]);
                let m = choose|m: int| 0 <= m < pd.len() && pd[m] == roster_row(d[j]);
                assert(p[m] == pd[m]);
            } else {
                assert(p[p.len() - 1] == roster_row(ms[j]));
            }
        }
    }
}

/// A subscription's roster lists each of its rows that was not removed
/// exactly once and no removed row, owners first, then by invite time.
pub proof fn lemma_roster(ms: Seq<UserSubscriptionMember>)
    ensures
        rows_ordered(sort_rows(visible_rows(ms))),
        sort_rows(visible_rows(ms)).to_multiset() == visible_rows(ms).to_multiset(),
        forall|i: int| 0 <= i < visible_rows(ms).len() ==> (#[trigger] visible_rows(ms)[i]).status@ != "removed"@,
        forall|j: int|
            0 <= j < ms.len() && (#[trigger] ms[j]).status@ != "removed"@ ==> visible_rows(ms).contains(
                roster_row(ms[j]),
            ),
{
    lemma_sort_rows(visible_rows(ms));
    lemma_visible_rows(ms);
}

/// Only a booking's own user can cancel it: the booking a cancellation finds
/// has the id asked for and belongs to the asking user, and none is found
/// exactly when the user holds no booking with that id.
pub proof fn lemma_cancel_finds_own_booking(s: Seq<Booking>, id: Seq<char>, user: Seq<char>)
    ensures
        find_booking(s, id, user) matches Some(b) ==> b.id@ == id && b.user_id@ == user && s.contains(b),
        find_booking(s, id, user) is None <==> forall|i: int|
            0 <= i < s.len() ==> !((#[trigger] s[i]).id@ == id && s[i].user_id@ == user),
    decreases s.len(),
{
    if s.len() > 0 {
        let t = s.drop_first();
        lemma_cancel_finds_own_booking(t, id, user);
        assert forall|i: int| 0 <= i < t.len() implies #[trigger] t[i] == s[i + 1] by {}
        if !(s[0].id@ == id && s[0].user_id@ == user) {
            if let Some(b) = find_booking(t, id, user) {
                let i = choose|i: int| 0 <= i < t.len() && t[i] == b;
                assert(s[i + 1] == b);
            }
            if find_booking(t, id, user) is None {
                assert forall|i: int| 0 <= i < s.len() implies !((#[trigger] s[i]).id@ == id && s[i].user_id@ == user) by {
                    if i > 0 {
                        assert(s[i] == t[i - 1]);
                    }
                }
            } else {
                let b = find_booking(t, id, user)->0;
                let i = choose|i: int| 0 <= i < t.len() && t[i] == b;
                assert(s[i + 1] == b);
            }
        } else {
            assert(s[0] == find_booking(s, id, user)->0);
        }
    }
}

} // verus!
