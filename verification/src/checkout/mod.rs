//! Checkout and payments: payment records and issued gift cards, the
//! decisions of the checkout and gateway-callback endpoints, and the
//! fulfilment of a paid cart. The gateway itself, the clock and the HTTP
//! plumbing are the caller's; what they report comes in as arguments.

pub mod fulfillment;
pub mod landsbankinn;

use vstd::prelude::*;
use crate::cart::{
    fresh_cart, lines_of, next_seq, record_id, reusable_cart, sort_lines, subtotal_of, Store as CartStore,
};
use crate::booking::store::Store as BookingStore;
use crate::checkout::fulfillment::{
    cart_marked, failed_marked, fulfill_cart, fulfilled, mark_cart_failed, same_payments, FulfillError,
    DEFAULT_SUB_WINDOW_MS,
};
use crate::booking::store::same_store;
use crate::checkout::landsbankinn::{CheckoutSession, Outcome};
use crate::json::{json_string, push_json_string};
use crate::meta::{meta_get, members, without, Meta, MetaValue};
use crate::table::{lemma_lookup_upsert, lookup, upsert, entries_view, keys_sorted, Table};
use crate::text::{
    append_chars, append_str, lex_lt, clone_opt_string, nat_digits, opt_chars, owned, str_eq, string_of, trim, trim_str,
    u64_digits,
};

verus! {

// ---------------------------------------------------------------------------
// Records
// ---------------------------------------------------------------------------

/// A payment: which cart and user it is for, the provider and its reference,
/// the status (`pending`, `succeeded`, `failed`), the amount, provider data
/// (none, or an object), and timestamps in milliseconds.
#[derive(Debug)]
pub struct Payment {
    pub id: String,
    pub cart_id: String,
    pub user_id: String,
    pub provider: String,
    pub provider_ref: String,
    pub status: String,
    pub amount: i64,
    pub currency: String,
    pub raw_payload: Option<Meta>,
    pub created_at: i64,
    pub updated_at: i64,
}

impl Clone for Payment {
    fn clone(&self) -> (r: Payment)
        ensures
            r == *self,
    {
        Payment {
            id: self.id.clone(),
            cart_id: self.cart_id.clone(),
            user_id: self.user_id.clone(),
            provider: self.provider.clone(),
            provider_ref: self.provider_ref.clone(),
            status: self.status.clone(),
            amount: self.amount,
            currency: self.currency.clone(),
            raw_payload: match &self.raw_payload {
                Some(m) => Some(m.clone()),
                None => None,
            },
            created_at: self.created_at,
            updated_at: self.updated_at,
        }
    }
}

/// A gift card issued when a cart is fulfilled: full balance, active.
#[derive(Debug)]
pub struct GiftCard {
    pub code: String,
    pub amount: i64,
    pub balance: i64,
    pub currency: String,
    pub status: String,
    pub recipient_email: Option<String>,
    pub recipient_phone: Option<String>,
    pub recipient_name: Option<String>,
    pub message: Option<String>,
    pub purchased_by_user_id: String,
    pub cart_id: String,
    pub created_at: i64,
}

impl Clone for GiftCard {
    fn clone(&self) -> (r: GiftCard)
        ensures
            r == *self,
    {
        GiftCard {
            code: self.code.clone(),
            amount: self.amount,
            balance: self.balance,
            currency: self.currency.clone(),
            status: self.status.clone(),
            recipient_email: clone_opt_string(&self.recipient_email),
            recipient_phone: clone_opt_string(&self.recipient_phone),
            recipient_name: clone_opt_string(&self.recipient_name),
            message: clone_opt_string(&self.message),
            purchased_by_user_id: self.purchased_by_user_id.clone(),
            cart_id: self.cart_id.clone(),
            created_at: self.created_at,
        }
    }
}

// ---------------------------------------------------------------------------
// Identifiers
// ---------------------------------------------------------------------------

/// `n` written with at least `w` digits, zero-filled on the left.
pub open spec fn padded(n: nat, w: nat) -> Seq<char> {
    let d = nat_digits(n);
    Seq::new(if d.len() < w { (w - d.len()) as nat } else { 0 }, |i: int| '0') + d
}

fn padded_chars(n: u64, w: usize) -> (v: Vec<char>)
    ensures
        v@ == padded(n as nat, w as nat),
{
    let d = u64_digits(n);
    let mut v: Vec<char> = Vec::new();
    let fill: usize = if d.len() < w {
        w - d.len()
    } else {
        0
    };
    let mut i: usize = 0;
    while i < fill
        invariant
            i <= fill,
            v@ == Seq::new(i as nat, |k: int| '0'),
        decreases fill - i,
    {
        v.push('0');
        i = i + 1;
        assert(v@ =~= Seq::new(i as nat, |k: int| '0'));
    }
    append_chars(&mut v, &d);
    v
}

/// The code of a gift card issued at `now` with sequence number `seq`:
/// `GC-` then the last six digits of the time, `-`, the last four of the
/// sequence number.
pub open spec fn gift_code(now: i64, seq: u64) -> Seq<char> {
    let t: nat = if now < 0 { (-now) as nat } else { now as nat };
    "GC-"@ + padded(t % 1_000_000, 6) + "-"@ + padded((seq % 10_000) as nat, 4)
}

pub fn gift_card_code(now_ms: i64, seq: u64) -> (r: String)
    ensures
        r@ == gift_code(now_ms, seq),
{
    let t = crate::text::abs_u64(now_ms);
    let mut v: Vec<char> = Vec::new();
    append_str(&mut v, "GC-");
    append_chars(&mut v, &padded_chars(t % 1_000_000, 6));
    append_str(&mut v, "-");
    append_chars(&mut v, &padded_chars(seq % 10_000, 4));
    string_of(&v)
}

/// The reference of a bank-transfer payment made at `now` with sequence
/// number `seq`.
pub open spec fn bank_ref(now: i64, seq: u64) -> Seq<char> {
    record_id("bank"@, now, seq)
}

// ---------------------------------------------------------------------------
// The store
// ---------------------------------------------------------------------------

/// The payment most recently created (the last of the latest, in key order)
/// among the pending payments of `cart_id` on `provider`.
pub open spec fn latest_pending(
    ps: Seq<(Seq<char>, Payment)>,
    cart_id: Seq<char>,
    provider: Seq<char>,
) -> Option<Payment>
    decreases ps.len(),
{
    if ps.len() == 0 {
        None
    } else {
        let p = ps.last().1;
        let best = latest_pending(ps.drop_last(), cart_id, provider);
        if p.cart_id@ == cart_id && p.provider@ == provider && p.status@ == "pending"@ {
            match best {
                Some(b) => if p.created_at >= b.created_at {
                    Some(p)
                } else {
                    Some(b)
                },
                None => Some(p),
            }
        } else {
            best
        }
    }
}

/// The first payment, in key order, of `cart_id` with reference `r`.
pub open spec fn by_cart_ref(ps: Seq<(Seq<char>, Payment)>, cart_id: Seq<char>, r: Seq<char>) -> Option<Payment>
    decreases ps.len(),
{
    if ps.len() == 0 {
        None
    } else if ps[0].1.cart_id@ == cart_id && ps[0].1.provider_ref@ == r {
        Some(ps[0].1)
    } else {
        by_cart_ref(ps.drop_first(), cart_id, r)
    }
}

/// Every payment is stored under its own id, and the ids ascend.
pub open spec fn payments_keyed(s: Seq<(Seq<char>, Payment)>) -> bool {
    &&& forall|i: int| 0 <= i < s.len() ==> #[trigger] s[i].0 == s[i].1.id@
    &&& keys_sorted(s)
}

/// Storing a payment under its own id keeps the payments keyed.
pub proof fn lemma_payments_keyed_upsert(s: Seq<(Seq<char>, Payment)>, p: Payment)
    requires
        payments_keyed(s),
    ensures
        payments_keyed(upsert(s, p.id@, p)),
    decreases s.len(),
{
    crate::table::lemma_upsert_sorted(s, p.id@, p);
    let u = upsert(s, p.id@, p);
    if s.len() == 0 {
    } else if s[0].0 == p.id@ {
        assert forall|i: int| 0 <= i < u.len() implies #[trigger] u[i].0 == u[i].1.id@ by {
            if i > 0 {
                assert(u[i] == s[i]);
            }
        }
    } else if lex_lt(p.id@, s[0].0) {
        assert forall|i: int| 0 <= i < u.len() implies #[trigger] u[i].0 == u[i].1.id@ by {
            if i > 0 {
                assert(u[i] == s[i - 1]);
            }
        }
    } else {
        let t = s.drop_first();
        assert forall|i: int| 0 <= i < t.len() implies #[trigger] t[i].0 == t[i].1.id@ by {
            assert(t[i] == s[i + 1]);
        }
        assert forall|i: int, j: int| 0 <= i < j < t.len() implies lex_lt(#[trigger] t[i].0, #[trigger] t[j].0) by {
            assert(t[i] == s[i + 1] && t[j] == s[j + 1]);
        }
        lemma_payments_keyed_upsert(t, p);
        let r = upsert(t, p.id@, p);
        assert forall|i: int| 0 <= i < u.len() implies #[trigger] u[i].0 == u[i].1.id@ by {
            if i > 0 {
                assert(u[i] == r[i - 1]);
            } else {
                assert(u[0] == s[0]);
            }
        }
    }
}

/// Storing any payment under its own id keeps the payments keyed.
pub proof fn lemma_payments_keyed_upsert_all(s: Seq<(Seq<char>, Payment)>)
    ensures
        forall|p: Payment| payments_keyed(s) ==> #[trigger] payments_keyed(upsert(s, p.id@, p)),
{
    assert forall|p: Payment| payments_keyed(s) implies #[trigger] payments_keyed(upsert(s, p.id@, p)) by {
        lemma_payments_keyed_upsert(s, p);
    }
}

/// The payment `by_cart_ref` finds is one of the entries.
proof fn lemma_by_cart_ref_in(s: Seq<(Seq<char>, Payment)>, cart_id: Seq<char>, r: Seq<char>) -> (i: int)
    requires
        by_cart_ref(s, cart_id, r) is Some,
    ensures
        0 <= i < s.len(),
        s[i].1 == by_cart_ref(s, cart_id, r).unwrap(),
    decreases s.len(),
{
    if s[0].1.cart_id@ == cart_id && s[0].1.provider_ref@ == r {
        0
    } else {
        lemma_by_cart_ref_in(s.drop_first(), cart_id, r) + 1
    }
}

/// In keyed payments, the payment found for a (cart, reference) pair is
/// the one stored under its id.
pub proof fn lemma_by_cart_ref_lookup(s: Seq<(Seq<char>, Payment)>, cart_id: Seq<char>, r: Seq<char>)
    requires
        payments_keyed(s),
        by_cart_ref(s, cart_id, r) is Some,
    ensures
        lookup(s, by_cart_ref(s, cart_id, r).unwrap().id@) == by_cart_ref(s, cart_id, r),
        by_cart_ref(s, cart_id, r).unwrap().cart_id@ == cart_id,
        by_cart_ref(s, cart_id, r).unwrap().provider_ref@ == r,
    decreases s.len(),
{
    let p = by_cart_ref(s, cart_id, r).unwrap();
    assert(s[0].0 == s[0].1.id@);
    if s[0].1.cart_id@ == cart_id && s[0].1.provider_ref@ == r {
    } else {
        let t = s.drop_first();
        assert forall|i: int| 0 <= i < t.len() implies #[trigger] t[i].0 == t[i].1.id@ by {
            assert(t[i] == s[i + 1]);
        }
        assert forall|i: int, j: int| 0 <= i < j < t.len() implies lex_lt(#[trigger] t[i].0, #[trigger] t[j].0) by {
            assert(t[i] == s[i + 1] && t[j] == s[j + 1]);
        }
        lemma_by_cart_ref_lookup(t, cart_id, r);
        let m = lemma_by_cart_ref_in(t, cart_id, r);
        assert(t[m] == s[m + 1]);
        assert(s[m + 1].0 == s[m + 1].1.id@);
        assert(lex_lt(s[0].0, s[m + 1].0));
        crate::text::lemma_lex_irreflexive(s[0].0);
        assert(s[0].0 != p.id@);
    }
}

/// Replacing the payment a (cart, reference) pair finds, under its id, by
/// one with the same cart and reference makes the pair find the new one.
pub proof fn lemma_by_cart_ref_upsert(s: Seq<(Seq<char>, Payment)>, cart_id: Seq<char>, r: Seq<char>, v: Payment)
    requires
        forall|i: int| 0 <= i < s.len() ==> #[trigger] s[i].0 == s[i].1.id@,
        by_cart_ref(s, cart_id, r) is Some,
        v.cart_id@ == cart_id,
        v.provider_ref@ == r,
    ensures
        by_cart_ref(upsert(s, by_cart_ref(s, cart_id, r).unwrap().id@, v), cart_id, r) == Some(v),
    decreases s.len(),
{
    let k = by_cart_ref(s, cart_id, r).unwrap().id@;
    let u = upsert(s, k, v);
    assert(s[0].0 == s[0].1.id@);
    if s[0].0 == k {
        assert(u[0] == (k, v));
    } else if lex_lt(k, s[0].0) {
        assert(u[0] == (k, v));
    } else {
        let t = s.drop_first();
        assert(!(s[0].1.cart_id@ == cart_id && s[0].1.provider_ref@ == r));
        assert forall|i: int| 0 <= i < t.len() implies #[trigger] t[i].0 == t[i].1.id@ by {
            assert(t[i] == s[i + 1]);
        }
        lemma_by_cart_ref_upsert(t, cart_id, r, v);
        assert(u[0] == s[0]);
        assert(u.drop_first() =~= upsert(t, k, v));
    }
}

/// The first payment, in key order, with reference `r`.
pub open spec fn by_provider_ref(ps: Seq<(Seq<char>, Payment)>, r: Seq<char>) -> Option<Payment>
    decreases ps.len(),
{
    if ps.len() == 0 {
        None
    } else if ps[0].1.provider_ref@ == r {
        Some(ps[0].1)
    } else {
        by_provider_ref(ps.drop_first(), r)
    }
}

/// The gift cards of cart `cart_id`, in key order.
pub open spec fn cards_of(cs: Seq<(Seq<char>, GiftCard)>, cart_id: Seq<char>) -> Seq<GiftCard>
    decreases cs.len(),
{
    if cs.len() == 0 {
        seq![]
    } else if cs.last().1.cart_id@ == cart_id {
        cards_of(cs.drop_last(), cart_id).push(cs.last().1)
    } else {
        cards_of(cs.drop_last(), cart_id)
    }
}

/// An optional text kept only when something is left after trimming (the
/// text itself is kept untrimmed).
pub open spec fn kept_text(o: Option<Seq<char>>) -> Option<Seq<char>> {
    match o {
        Some(s) => if trim(s).len() > 0 {
            Some(s)
        } else {
            None
        },
        None => None,
    }
}

fn keep_text(o: Option<&str>) -> (r: Option<String>)
    ensures
        opt_chars(r) == kept_text(crate::booking::store::opt_str(o)),
{
    match o {
        Some(s) => {
            if trim_str(s).len() > 0 {
                Some(owned(s))
            } else {
                None
            }
        },
        None => None,
    }
}

/// The audit object recorded on a failed payment.
pub open spec fn is_audit(a: Meta, code: Seq<char>, provider_ref: Seq<char>, now: i64) -> bool {
    &&& members(a).len() == 3
    &&& members(a)[0].0 == "errorCode"@
    &&& members(a)[0].1 matches MetaValue::Str(s) && s@ == code
    &&& members(a)[1].0 == "providerRef"@
    &&& members(a)[1].1 matches MetaValue::Str(s) && s@ == provider_ref
    &&& members(a)[2].0 == "occurredAt"@
    &&& members(a)[2].1 == MetaValue::Int(now)
}

/// The payload after recording `audit` under `fulfillment`: the prior object
/// (a fresh one when there was none) without any earlier `fulfillment`, then
/// the audit last.
pub open spec fn audited(prior: Option<Meta>, p2: Option<Meta>, audit: Meta) -> bool {
    let base = match prior {
        Some(m) => m,
        None => Meta::End,
    };
    p2 matches Some(m) && members(m) == members(without(base, "fulfillment"@)).push(
        ("fulfillment"@, MetaValue::Obj(Box::new(audit))),
    )
}

/// Payment `id` marked failed with `code` at `now`, from `a` to `b`.
pub open spec fn failed_with(a: Store, b: Store, id: Seq<char>, code: Seq<char>, now: i64) -> bool {
    &&& b.cards() == a.cards()
    &&& b.seq() == a.seq()
    &&& match lookup(a.payments(), id) {
        None => b.payments() == a.payments(),
        Some(p) => lookup(b.payments(), p.id@) matches Some(p2) && p2 == (Payment {
            status: p2.status,
            updated_at: now,
            raw_payload: p2.raw_payload,
            ..p
        }) && p2.status@ == "failed"@ && b.payments() == upsert(a.payments(), p.id@, p2) && (exists|au: Meta|
            is_audit(au, code, p.provider_ref@, now) && audited(p.raw_payload, p2.raw_payload, au)),
    }
}

/// Payments by id, issued gift cards by code, and the counter that numbers
/// new ids, references and codes.
pub struct Store {
    payments: Table<Payment>,
    cards: Table<GiftCard>,
    seq: u64,
}

impl Store {
    pub closed spec fn payments(&self) -> Seq<(Seq<char>, Payment)> {
        self.payments.view()
    }

    pub closed spec fn cards(&self) -> Seq<(Seq<char>, GiftCard)> {
        self.cards.view()
    }

    pub closed spec fn seq(&self) -> u64 {
        self.seq
    }

    /// No payments, no gift cards.
    pub fn new() -> (s: Store)
        ensures
            s.payments() == Seq::<(Seq<char>, Payment)>::empty(),
            payments_keyed(s.payments()),
            s.cards() == Seq::<(Seq<char>, GiftCard)>::empty(),
            s.seq() == 0,
    {
        Store { payments: Table::new(), cards: Table::new(), seq: 0 }
    }

    /// Take the next sequence number.
    pub fn take_seq(&mut self) -> (n: u64)
        ensures
            payments_keyed(old(self).payments()) ==> payments_keyed(final(self).payments()),
            n == old(self).seq(),
            final(self).seq() == next_seq(old(self).seq()),
            final(self).payments() == old(self).payments(),
            final(self).cards() == old(self).cards(),
    {
        proof {
            lemma_payments_keyed_upsert_all(old(self).payments());
        }
        let n = self.seq;
        self.seq = if self.seq == u64::MAX {
            0
        } else {
            self.seq + 1
        };
        n
    }

    /// The id `{prefix}-{now}-{seq}` under the next sequence number.
    pub fn next_id(&mut self, prefix: &str, now_ms: i64) -> (r: String)
        ensures
            payments_keyed(old(self).payments()) ==> payments_keyed(final(self).payments()),
            r@ == record_id(prefix@, now_ms, old(self).seq()),
            final(self).seq() == next_seq(old(self).seq()),
            final(self).payments() == old(self).payments(),
            final(self).cards() == old(self).cards(),
    {
        proof {
            lemma_payments_keyed_upsert_all(old(self).payments());
        }
        let n = self.take_seq();
        let mut v: Vec<char> = Vec::new();
        append_str(&mut v, prefix);
        append_str(&mut v, "-");
        append_chars(&mut v, &crate::text::i64_chars(now_ms));
        append_str(&mut v, "-");
        append_chars(&mut v, &u64_digits(n));
        string_of(&v)
    }

    /// Record a new payment.
    pub fn create_payment(
        &mut self,
        cart_id: &str,
        user_id: &str,
        provider: &str,
        provider_ref: &str,
        status: &str,
        amount: i64,
        currency: &str,
        raw_payload: Option<Meta>,
        now_ms: i64,
    ) -> (p: Payment)
        ensures
            payments_keyed(old(self).payments()) ==> payments_keyed(final(self).payments()),
            p.id@ == record_id("pay"@, now_ms, old(self).seq()),
            p.cart_id@ == cart_id@,
            p.user_id@ == user_id@,
            p.provider@ == provider@,
            p.provider_ref@ == provider_ref@,
            p.status@ == status@,
            p.amount == amount,
            p.currency@ == currency@,
            p.raw_payload == raw_payload,
            p.created_at == now_ms,
            p.updated_at == now_ms,
            final(self).payments() == upsert(old(self).payments(), p.id@, p),
            final(self).cards() == old(self).cards(),
            final(self).seq() == next_seq(old(self).seq()),
    {
        proof {
            lemma_payments_keyed_upsert_all(old(self).payments());
        }
        let id = self.next_id("pay", now_ms);
        let payment = Payment {
            id,
            cart_id: owned(cart_id),
            user_id: owned(user_id),
            provider: owned(provider),
            provider_ref: owned(provider_ref),
            status: owned(status),
            amount,
            currency: owned(currency),
            raw_payload,
            created_at: now_ms,
            updated_at: now_ms,
        };
        let key = payment.id.clone();
        let copy = payment.clone();
        self.payments.insert(key.as_str(), copy);
        payment
    }

    /// The payment with id `id`.
    pub fn payment_by_id(&self, id: &str) -> (r: Option<Payment>)
        ensures
            r == lookup(self.payments(), id@),
    {
        match self.payments.get(id) {
            Some(p) => Some(p.clone()),
            None => None,
        }
    }

    /// Every payment, in key order.
    pub fn all_payments(&self) -> (r: Vec<Payment>)
        ensures
            r@.len() == self.payments().len(),
            forall|i: int| 0 <= i < r@.len() ==> #[trigger] r@[i] == self.payments()[i].1,
    {
        let e = self.payments.entries();
        let mut out: Vec<Payment> = Vec::new();
        let mut i: usize = 0;
        while i < e.len()
            invariant
                i <= e@.len(),
                entries_view(e@) == self.payments(),
                out@.len() == i,
                forall|j: int| 0 <= j < i ==> #[trigger] out@[j] == self.payments()[j].1,
            decreases e@.len() - i,
        {
            out.push(e[i].1.clone());
            i = i + 1;
        }
        out
    }

    /// The payment for a (cart, reference) pair.
    pub fn by_cart_and_ref(&self, cart_id: &str, provider_ref: &str) -> (r: Option<Payment>)
        ensures
            r == by_cart_ref(self.payments(), cart_id@, provider_ref@),
    {
        let e = self.payments.entries();
        let ghost v = self.payments();
        let mut i: usize = 0;
        assert(v.subrange(0, v.len() as int) =~= v);
        while i < e.len()
            invariant
                i <= e@.len(),
                entries_view(e@) == v,
                v == self.payments(),
                by_cart_ref(v, cart_id@, provider_ref@) == by_cart_ref(
                    v.subrange(i as int, v.len() as int),
                    cart_id@,
                    provider_ref@,
                ),
            decreases e@.len() - i,
        {
            let ghost rest = v.subrange(i as int, v.len() as int);
            assert(rest[0] == v[i as int]);
            assert(rest.drop_first() =~= v.subrange(i + 1, v.len() as int));
            if str_eq(e[i].1.cart_id.as_str(), cart_id) && str_eq(e[i].1.provider_ref.as_str(), provider_ref) {
                return Some(e[i].1.clone());
            }
            i = i + 1;
        }
        None
    }

    /// The payment for a provider reference, whatever its cart.
    pub fn by_ref(&self, provider_ref: &str) -> (r: Option<Payment>)
        ensures
            r == by_provider_ref(self.payments(), provider_ref@),
    {
        let e = self.payments.entries();
        let ghost v = self.payments();
        let mut i: usize = 0;
        assert(v.subrange(0, v.len() as int) =~= v);
        while i < e.len()
            invariant
                i <= e@.len(),
                entries_view(e@) == v,
                v == self.payments(),
                by_provider_ref(v, provider_ref@) == by_provider_ref(v.subrange(i as int, v.len() as int), provider_ref@),
            decreases e@.len() - i,
        {
            let ghost rest = v.subrange(i as int, v.len() as int);
            assert(rest[0] == v[i as int]);
            assert(rest.drop_first() =~= v.subrange(i + 1, v.len() as int));
            if str_eq(e[i].1.provider_ref.as_str(), provider_ref) {
                return Some(e[i].1.clone());
            }
            i = i + 1;
        }
        None
    }

    /// The most recent pending payment of a cart on a provider.
    pub fn latest_pending_by_cart(&self, cart_id: &str, provider: &str) -> (r: Option<Payment>)
        ensures
            r == latest_pending(self.payments(), cart_id@, provider@),
    {
        let e = self.payments.entries();
        let ghost v = self.payments();
        let mut best: Option<Payment> = None;
        let mut i: usize = 0;
        while i < e.len()
            invariant
                i <= e@.len(),
                entries_view(e@) == v,
                best == latest_pending(v.subrange(0, i as int), cart_id@, provider@),
            decreases e@.len() - i,
        {
            assert(v.subrange(0, i + 1).drop_last() =~= v.subrange(0, i as int));
            assert(v.subrange(0, i + 1).last() == v[i as int]);
            let p = &e[i].1;
            if str_eq(p.cart_id.as_str(), cart_id) && str_eq(p.provider.as_str(), provider) && str_eq(
                p.status.as_str(),
                "pending",
            ) {
                let take = match &best {
                    Some(b) => p.created_at >= b.created_at,
                    None => true,
                };
                if take {
                    best = Some(p.clone());
                }
            }
            i = i + 1;
        }
        assert(v.subrange(0, v.len() as int) =~= v);
        best
    }

    /// Mark payment `id` succeeded.
    pub fn mark_succeeded(&mut self, id: &str, now_ms: i64) -> (r: Result<(), String>)
        ensures
            payments_keyed(old(self).payments()) ==> payments_keyed(final(self).payments()),
            final(self).cards() == old(self).cards(),
            final(self).seq() == old(self).seq(),
            match lookup(old(self).payments(), id@) {
                None => r matches Err(m) && m@ == "payment not found"@ && final(self).payments() == old(
                    self,
                ).payments(),
                Some(p) => {
                    &&& r is Ok
                    &&& lookup(final(self).payments(), p.id@) matches Some(p2) && p2 == (Payment {
                        status: p2.status,
                        updated_at: now_ms,
                        ..p
                    }) && p2.status@ == "succeeded"@ && final(self).payments() == upsert(
                        old(self).payments(),
                        p.id@,
                        p2,
                    )
                },
            },
    {
        proof {
            lemma_payments_keyed_upsert_all(old(self).payments());
        }
        let p = match self.payments.get(id) {
            Some(p) => p.clone(),
            None => return Err(owned("payment not found")),
        };
        let updated = Payment { status: owned("succeeded"), updated_at: now_ms, ..p };
        let ghost p2 = updated;
        let ghost pre = self.payments();
        let key = updated.id.clone();
        self.payments.insert(key.as_str(), updated);
        proof {
            lemma_lookup_upsert(pre, p2.id@, p2, p2.id@);
        }
        Ok(())
    }

    /// Mark payment `id` failed, recording an audit object (error code,
    /// provider reference, time) under `fulfillment` in its provider data.
    pub fn mark_failed(&mut self, id: &str, error_code: &str, now_ms: i64) -> (r: Result<(), String>)
        ensures
            payments_keyed(old(self).payments()) ==> payments_keyed(final(self).payments()),
            final(self).cards() == old(self).cards(),
            final(self).seq() == old(self).seq(),
            match lookup(old(self).payments(), id@) {
                None => r matches Err(m) && m@ == "payment not found"@ && final(self).payments() == old(
                    self,
                ).payments(),
                Some(p) => {
                    &&& r is Ok
                    &&& lookup(final(self).payments(), p.id@) matches Some(p2) && p2 == (Payment {
                        status: p2.status,
                        updated_at: now_ms,
                        raw_payload: p2.raw_payload,
                        ..p
                    }) && p2.status@ == "failed"@ && final(self).payments() == upsert(
                        old(self).payments(),
                        p.id@,
                        p2,
                    ) && (exists|a: Meta| is_audit(a, error_code@, p.provider_ref@, now_ms) && audited(
                        p.raw_payload,
                        p2.raw_payload,
                        a,
                    ))
                },
            },
    {
        proof {
            lemma_payments_keyed_upsert_all(old(self).payments());
        }
        let p = match self.payments.get(id) {
            Some(p) => p.clone(),
            None => return Err(owned("payment not found")),
        };
        let mut pairs: Vec<(String, MetaValue)> = Vec::new();
        pairs.push((owned("errorCode"), MetaValue::Str(owned(error_code))));
        pairs.push((owned("providerRef"), MetaValue::Str(p.provider_ref.clone())));
        pairs.push((owned("occurredAt"), MetaValue::Int(now_ms)));
        let audit = Meta::from_pairs(pairs);
        let ghost a = audit;
        let base = match &p.raw_payload {
            Some(m) => m.clone(),
            None => Meta::End,
        };
        let merged = base.with("fulfillment", MetaValue::Obj(Box::new(audit)));
        let updated = Payment { status: owned("failed"), updated_at: now_ms, raw_payload: Some(merged), ..p };
        assert(is_audit(a, error_code@, p.provider_ref@, now_ms));
        assert(audited(p.raw_payload, updated.raw_payload, a));
        let ghost p2 = updated;
        let ghost pre = self.payments();
        let key = updated.id.clone();
        self.payments.insert(key.as_str(), updated);
        proof {
            lemma_lookup_upsert(pre, p2.id@, p2, p2.id@);
        }
        Ok(())
    }

    /// Issue a gift card for `amount` bought in cart `cart_id`; recipient
    /// fields left blank are dropped.
    pub fn create_gift_card(
        &mut self,
        amount: i64,
        currency: &str,
        recipient_email: Option<&str>,
        recipient_phone: Option<&str>,
        recipient_name: Option<&str>,
        message: Option<&str>,
        purchased_by_user_id: &str,
        cart_id: &str,
        now_ms: i64,
    ) -> (c: GiftCard)
        ensures
            payments_keyed(old(self).payments()) ==> payments_keyed(final(self).payments()),
            c.code@ == gift_code(now_ms, old(self).seq()),
            c.amount == amount,
            c.balance == amount,
            c.currency@ == currency@,
            c.status@ == "active"@,
            opt_chars(c.recipient_email) == kept_text(crate::booking::store::opt_str(recipient_email)),
            opt_chars(c.recipient_phone) == kept_text(crate::booking::store::opt_str(recipient_phone)),
            opt_chars(c.recipient_name) == kept_text(crate::booking::store::opt_str(recipient_name)),
            opt_chars(c.message) == kept_text(crate::booking::store::opt_str(message)),
            c.purchased_by_user_id@ == purchased_by_user_id@,
            c.cart_id@ == cart_id@,
            c.created_at == now_ms,
            final(self).cards() == upsert(old(self).cards(), c.code@, c),
            final(self).payments() == old(self).payments(),
            final(self).seq() == next_seq(old(self).seq()),
    {
        proof {
            lemma_payments_keyed_upsert_all(old(self).payments());
        }
        let n = self.take_seq();
        let card = GiftCard {
            code: gift_card_code(now_ms, n),
            amount,
            balance: amount,
            currency: owned(currency),
            status: owned("active"),
            recipient_email: keep_text(recipient_email),
            recipient_phone: keep_text(recipient_phone),
            recipient_name: keep_text(recipient_name),
            message: keep_text(message),
            purchased_by_user_id: owned(purchased_by_user_id),
            cart_id: owned(cart_id),
            created_at: now_ms,
        };
        let key = card.code.clone();
        let copy = card.clone();
        self.cards.insert(key.as_str(), copy);
        card
    }

    /// The gift card with code `code`.
    pub fn gift_card(&self, code: &str) -> (r: Option<GiftCard>)
        ensures
            r == lookup(self.cards(), code@),
    {
        match self.cards.get(code) {
            Some(c) => Some(c.clone()),
            None => None,
        }
    }

    /// The gift cards bought in cart `cart_id`, in code order.
    pub fn gift_cards_for_cart(&self, cart_id: &str) -> (r: Vec<GiftCard>)
        ensures
            r@ == cards_of(self.cards(), cart_id@),
    {
        let e = self.cards.entries();
        let ghost v = self.cards();
        let mut out: Vec<GiftCard> = Vec::new();
        let mut i: usize = 0;
        while i < e.len()
            invariant
                i <= e@.len(),
                entries_view(e@) == v,
                out@ == cards_of(v.subrange(0, i as int), cart_id@),
            decreases e@.len() - i,
        {
            assert(v.subrange(0, i + 1).drop_last() =~= v.subrange(0, i as int));
            assert(v.subrange(0, i + 1).last() == v[i as int]);
            if str_eq(e[i].1.cart_id.as_str(), cart_id) {
                out.push(e[i].1.clone());
            }
            i = i + 1;
        }
        assert(v.subrange(0, v.len() as int) =~= v);
        out
    }
}

// ---------------------------------------------------------------------------
// Replies
// ---------------------------------------------------------------------------

/// An HTTP answer: a JSON body with its status code, or a redirect.
#[derive(Debug)]
pub enum Reply {
    Json { status: u16, body: String },
    Redirect { location: String },
}

/// `{"error": msg}`.
pub open spec fn error_json(msg: Seq<char>) -> Seq<char> {
    "{\"error\":"@ + json_string(msg) + "}"@
}

pub fn error_reply(status: u16, msg: &str) -> (r: Reply)
    ensures
        r matches Reply::Json { status: s, body } && s == status && body@ == error_json(msg@),
{
    let mut v: Vec<char> = Vec::new();
    append_str(&mut v, "{\"error\":");
    push_json_string(&mut v, msg);
    append_str(&mut v, "}");
    Reply::Json { status, body: string_of(&v) }
}

/// The body sent when checking out needs a signed-in user.
pub open spec fn login_required_json() -> Seq<char> {
    "{\"error\":\"Sign-in required to check out\",\"loginRequired\":true}"@
}

/// The body sent when a checkout has started: where the browser goes next,
/// the payment's reference, the method and whether the gateway is mocked.
pub open spec fn started_json(redirect: Seq<char>, provider_ref: Seq<char>, method: Seq<char>, mock: bool) -> Seq<
    char,
> {
    "{\"redirectUrl\":"@ + json_string(redirect) + ",\"providerRef\":"@ + json_string(provider_ref)
        + ",\"method\":"@ + json_string(method) + ",\"mock\":"@ + (if mock {
        "true"@
    } else {
        "false"@
    }) + "}"@
}

fn started_reply(redirect: &str, provider_ref: &str, method: &str, mock: bool) -> (r: Reply)
    ensures
        r matches Reply::Json { status, body } && status == 200 && body@ == started_json(
            redirect@,
            provider_ref@,
            method@,
            mock,
        ),
{
    let mut v: Vec<char> = Vec::new();
    append_str(&mut v, "{\"redirectUrl\":");
    push_json_string(&mut v, redirect);
    append_str(&mut v, ",\"providerRef\":");
    push_json_string(&mut v, provider_ref);
    append_str(&mut v, ",\"method\":");
    push_json_string(&mut v, method);
    append_str(&mut v, ",\"mock\":");
    if mock {
        append_str(&mut v, "true");
    } else {
        append_str(&mut v, "false");
    }
    append_str(&mut v, "}");
    Reply::Json { status: 200, body: string_of(&v) }
}

/// The cancel page for cart `cart_id` showing error `code`.
pub open spec fn cancel_location(cart_id: Seq<char>, code: Seq<char>) -> Seq<char> {
    "/checkout/cancel?cart="@ + cart_id + "&error="@ + code
}

pub fn cancel_path(cart_id: &str, code: &str) -> (r: String)
    ensures
        r@ == cancel_location(cart_id@, code@),
{
    let mut v: Vec<char> = Vec::new();
    append_str(&mut v, "/checkout/cancel?cart=");
    append_str(&mut v, cart_id);
    append_str(&mut v, "&error=");
    append_str(&mut v, code);
    string_of(&v)
}

/// The title and message the cancel page shows for a payment error code.
pub open spec fn presentation(code: Seq<char>) -> (Seq<char>, Seq<char>) {
    if code == "payment_failed"@ {
        ("Greiðsla mistókst"@, "Greiðslan gekk ekki í gegn. Reyndu aftur eða notaðu annað kort."@)
    } else if code == "slot_taken_after_payment"@ {
        (
            "Tími þegar bókaður"@,
            "Einn eða fleiri tímar voru bókaðir á meðan greiðslan fór fram. Vinsamlegast veldu aðra tíma."@,
        )
    } else if code == "payment_succeeded_booking_failed"@ {
        (
            "Villa við staðfestingu"@,
            "Greiðslan tókst en ekki tókst að klára bókunina. Hafðu samband og við leysum málið."@,
        )
    } else if code == "payment_pending_timeout"@ {
        (
            "Greiðsla í bið"@,
            "Við fengum ekki staðfestingu frá greiðslukerfinu í tæka tíð. Hafðu samband ef upphæðin var skuldfærð."@,
        )
    } else {
        ("Greiðsla hætt"@, "Greiðslunni var hætt. Karfan þín bíður þín ef þú vilt reyna aftur."@)
    }
}

/// The title and message for a payment error code.
pub fn error_presentation(code: &str) -> (r: (&'static str, &'static str))
    ensures
        (r.0@, r.1@) == presentation(code@),
{
    if str_eq(code, "payment_failed") {
        ("Greiðsla mistókst", "Greiðslan gekk ekki í gegn. Reyndu aftur eða notaðu annað kort.")
    } else if str_eq(code, "slot_taken_after_payment") {
        (
            "Tími þegar bókaður",
            "Einn eða fleiri tímar voru bókaðir á meðan greiðslan fór fram. Vinsamlegast veldu aðra tíma.",
        )
    } else if str_eq(code, "payment_succeeded_booking_failed") {
        (
            "Villa við staðfestingu",
            "Greiðslan tókst en ekki tókst að klára bókunina. Hafðu samband og við leysum málið.",
        )
    } else if str_eq(code, "payment_pending_timeout") {
        (
            "Greiðsla í bið",
            "Við fengum ekki staðfestingu frá greiðslukerfinu í tæka tíð. Hafðu samband ef upphæðin var skuldfærð.",
        )
    } else {
        ("Greiðsla hætt", "Greiðslunni var hætt. Karfan þín bíður þín ef þú vilt reyna aftur.")
    }
}

// ---------------------------------------------------------------------------
// Starting a checkout
// ---------------------------------------------------------------------------

/// What `POST /api/cart/checkout` does next.
#[derive(Debug)]
pub enum CheckoutStep {
    /// Answer now.
    Answer(Reply),
    /// Open a gateway session for a card payment of `amount` for cart
    /// `cart_id`, then finish with `finish_card_checkout`.
    OpenSession { amount: i64, currency: String, cart_id: String, return_url: String, cancel_url: String },
}

/// The cart a checkout works on: the open guest cart under `cart_id`, or the
/// new one it gets; its id and currency.
pub open spec fn checkout_cart(carts: CartStore, cart_id: Seq<char>, now: i64) -> (Seq<char>, Seq<char>) {
    match reusable_cart(carts.carts(), Some(cart_id)) {
        Some(c) => (c.id@, c.currency@),
        None => (record_id("cart"@, now, carts.seq()), "ISK"@),
    }
}

/// The cart store after the checkout cart was found or opened.
pub open spec fn opened(c0: CartStore, c1: CartStore, cart_id: Seq<char>, now: i64) -> bool {
    &&& c1.items() == c0.items()
    &&& match reusable_cart(c0.carts(), Some(cart_id)) {
        Some(c) => c1.carts() == c0.carts() && c1.seq() == c0.seq(),
        None => {
            &&& lookup(c1.carts(), record_id("cart"@, now, c0.seq())) matches Some(c) && fresh_cart(
                c,
                record_id("cart"@, now, c0.seq()),
                now,
            ) && c1.carts() == upsert(c0.carts(), c.id@, c)
            &&& c1.seq() == next_seq(c0.seq())
        },
    }
}

/// The cart store after cart `cart_id` was set to `status`.
pub open spec fn status_set(c0: CartStore, c1: CartStore, cart_id: Seq<char>, status: Seq<char>, now: i64) -> bool {
    &&& c1.items() == c0.items()
    &&& match lookup(c0.carts(), cart_id) {
        Some(c) => cart_marked(c0, c1, c, status, now),
        None => c1.carts() == c0.carts() && c1.seq() == c0.seq(),
    }
}

/// Where the gateway sends the browser back for cart `cart_id`.
pub open spec fn callback_url(cart_id: Seq<char>) -> Seq<char> {
    "/api/payments/landsbankinn/callback?cart="@ + cart_id
}

/// The bank-transfer instructions page for a cart and reference.
pub open spec fn bank_page(cart_id: Seq<char>, provider_ref: Seq<char>) -> Seq<char> {
    "/checkout/bank-transfer?cart="@ + cart_id + "&ref="@ + provider_ref
}

/// `p` is the pending payment recorded at checkout.
pub open spec fn checkout_payment(
    p: Payment,
    cart_id: Seq<char>,
    user: Seq<char>,
    provider: Seq<char>,
    provider_ref: Seq<char>,
    amount: i64,
    currency: Seq<char>,
    now: i64,
) -> bool {
    &&& p.cart_id@ == cart_id
    &&& p.user_id@ == user
    &&& p.provider@ == provider
    &&& p.provider_ref@ == provider_ref
    &&& p.status@ == "pending"@
    &&& p.amount == amount
    &&& p.currency@ == currency
    &&& p.created_at == now
    &&& p.updated_at == now
}

/// Decide `POST /api/cart/checkout` for the signed-in `user` (if any) whose
/// cart cookie id is `cart_id`: refuse, record a bank transfer, or ask for
/// a gateway session.
pub fn begin_checkout(
    carts: &mut CartStore,
    payments: &mut Store,
    is_post: bool,
    user: Option<&str>,
    cart_id: &str,
    bank_transfer: bool,
    now_ms: i64,
) -> (r: CheckoutStep)
    ensures
        !is_post ==> {
            &&& r matches CheckoutStep::Answer(Reply::Json { status, body }) && status == 405 && body@ == error_json(
                "method not allowed"@,
            )
            &&& *final(carts) == *old(carts)
            &&& *final(payments) == *old(payments)
        },
        is_post && user is None ==> {
            &&& r matches CheckoutStep::Answer(Reply::Json { status, body }) && status == 401 && body@
                == login_required_json()
            &&& *final(carts) == *old(carts)
            &&& *final(payments) == *old(payments)
        },
        is_post && user is Some ==> ({
            let (cid, currency) = checkout_cart(*old(carts), cart_id@, now_ms);
            let lines = sort_lines(lines_of(old(carts).items(), cid));
            let email = user.unwrap()@;
            if lines.len() == 0 {
                &&& r matches CheckoutStep::Answer(Reply::Json { status, body }) && status == 400 && body@
                    == error_json("Cart is empty"@)
                &&& opened(*old(carts), *final(carts), cart_id@, now_ms)
                &&& *final(payments) == *old(payments)
            } else if bank_transfer {
                let pref = bank_ref(now_ms, old(payments).seq());
                let pid = record_id("pay"@, now_ms, next_seq(old(payments).seq()));
                &&& lookup(final(payments).payments(), pid) matches Some(p) && p.id@ == pid && checkout_payment(
                    p,
                    cid,
                    email,
                    "bank_transfer"@,
                    pref,
                    subtotal_of(lines),
                    currency,
                    now_ms,
                ) && final(payments).payments() == upsert(old(payments).payments(), pid, p)
                &&& final(payments).cards() == old(payments).cards()
                &&& final(payments).seq() == next_seq(next_seq(old(payments).seq()))
                &&& exists|mid: CartStore| #[trigger] opened(*old(carts), mid, cart_id@, now_ms) && status_set(
                    mid,
                    *final(carts),
                    cid,
                    "checking_out"@,
                    now_ms,
                ) && if lookup(mid.carts(), cid) is Some {
                    r matches CheckoutStep::Answer(Reply::Json { status, body }) && status == 200 && body@
                        == started_json(bank_page(cid, pref), pref, "bank_transfer"@, false)
                } else {
                    r matches CheckoutStep::Answer(Reply::Json { status, body }) && status == 500 && body@
                        == error_json("cart not found"@)
                }
            } else {
                &&& r matches CheckoutStep::OpenSession { amount, currency: cur, cart_id: c, return_url, cancel_url }
                    && amount == subtotal_of(lines) && cur@ == currency && c@ == cid && return_url@ == callback_url(
                    cid,
                ) && cancel_url@ == callback_url(cid) + "&cancel=1"@
                &&& opened(*old(carts), *final(carts), cart_id@, now_ms)
                &&& *final(payments) == *old(payments)
            }
        }),
{
    if !is_post {
        return CheckoutStep::Answer(error_reply(405, "method not allowed"));
    }
    let email = match user {
        Some(u) => u,
        None => {
            let body = owned("{\"error\":\"Sign-in required to check out\",\"loginRequired\":true}");
            return CheckoutStep::Answer(Reply::Json { status: 401, body });
        },
    };
    let (summary, _) = carts.get_or_create_open(Some(cart_id), now_ms);
    let ghost mid = *carts;
    if summary.items.len() == 0 {
        return CheckoutStep::Answer(error_reply(400, "Cart is empty"));
    }
    if !str_eq(summary.status.as_str(), "open") {
        proof {
            reveal_strlit("open");
        }
        let mut v: Vec<char> = Vec::new();
        append_str(&mut v, "Cart is ");
        append_str(&mut v, summary.status.as_str());
        return CheckoutStep::Answer(error_reply(409, string_of(&v).as_str()));
    }
    let amount = summary.subtotal;
    if bank_transfer {
        let n = payments.take_seq();
        let provider_ref = crate::cart::record_id_of("bank", now_ms, n);
        let mut pairs: Vec<(String, MetaValue)> = Vec::new();
        pairs.push((owned("method"), MetaValue::Str(owned("bank_transfer"))));
        let raw = Meta::from_pairs(pairs);
        let ghost pre = payments.payments();
        let p = payments.create_payment(
            summary.id.as_str(),
            email,
            "bank_transfer",
            provider_ref.as_str(),
            "pending",
            amount,
            summary.currency.as_str(),
            Some(raw),
            now_ms,
        );
        proof {
            lemma_lookup_upsert(pre, p.id@, p, p.id@);
        }
        assert(p.id@ == record_id("pay"@, now_ms, next_seq(old(payments).seq())));
        assert(lookup(payments.payments(), p.id@) == Some(p));
        let set = carts.set_status(summary.id.as_str(), "checking_out", now_ms);
        assert(opened(*old(carts), mid, cart_id@, now_ms));
        assert(status_set(mid, *carts, summary.id@, "checking_out"@, now_ms));
        match set {
            Ok(()) => {},
            Err(e) => {
                return CheckoutStep::Answer(error_reply(500, e.as_str()));
            },
        }
        let mut loc: Vec<char> = Vec::new();
        append_str(&mut loc, "/checkout/bank-transfer?cart=");
        append_str(&mut loc, summary.id.as_str());
        append_str(&mut loc, "&ref=");
        append_str(&mut loc, provider_ref.as_str());
        let redirect = string_of(&loc);
        return CheckoutStep::Answer(started_reply(redirect.as_str(), provider_ref.as_str(), "bank_transfer", false));
    }
    let mut cb: Vec<char> = Vec::new();
    append_str(&mut cb, "/api/payments/landsbankinn/callback?cart=");
    append_str(&mut cb, summary.id.as_str());
    let callback = string_of(&cb);
    append_str(&mut cb, "&cancel=1");
    let cancel = string_of(&cb);
    CheckoutStep::OpenSession {
        amount,
        currency: summary.currency.clone(),
        cart_id: summary.id.clone(),
        return_url: callback,
        cancel_url: cancel,
    }
}

/// Finish a card checkout once the gateway answered the session request:
/// record the pending payment under the session id and mark the cart as
/// checking out, or report the gateway's failure.
pub fn finish_card_checkout(
    carts: &mut CartStore,
    payments: &mut Store,
    user: &str,
    cart_id: &str,
    amount: i64,
    currency: &str,
    session: Result<CheckoutSession, String>,
    now_ms: i64,
) -> (r: Reply)
    ensures
        match session {
            Err(e) => {
                &&& r matches Reply::Json { status, body } && status == 502 && body@ == error_json(
                    "Greiðsla mistókst: "@ + e@,
                )
                &&& *final(carts) == *old(carts)
                &&& *final(payments) == *old(payments)
            },
            Ok(s) => {
                let pid = record_id("pay"@, now_ms, old(payments).seq());
                &&& lookup(final(payments).payments(), pid) matches Some(p) && p.id@ == pid && checkout_payment(
                    p,
                    cart_id@,
                    user@,
                    "landsbankinn"@,
                    s.id@,
                    amount,
                    currency@,
                    now_ms,
                ) && p.raw_payload is None && final(payments).payments() == upsert(old(payments).payments(), pid, p)
                &&& final(payments).cards() == old(payments).cards()
                &&& final(payments).seq() == next_seq(old(payments).seq())
                &&& status_set(*old(carts), *final(carts), cart_id@, "checking_out"@, now_ms)
                &&& if lookup(old(carts).carts(), cart_id@) is Some {
                    r matches Reply::Json { status, body } && status == 200 && body@ == started_json(
                        s.redirect_url@,
                        s.id@,
                        "landsbankinn"@,
                        s.mock,
                    )
                } else {
                    r matches Reply::Json { status, body } && status == 500 && body@ == error_json("cart not found"@)
                }
            },
        },
{
    let s = match session {
        Ok(s) => s,
        Err(e) => {
            let mut v: Vec<char> = Vec::new();
            append_str(&mut v, "Greiðsla mistókst: ");
            append_str(&mut v, e.as_str());
            return error_reply(502, string_of(&v).as_str());
        },
    };
    let ghost pre = payments.payments();
    let p = payments.create_payment(
        cart_id,
        user,
        "landsbankinn",
        s.id.as_str(),
        "pending",
        amount,
        currency,
        None,
        now_ms,
    );
    proof {
        lemma_lookup_upsert(pre, p.id@, p, p.id@);
    }
    match carts.set_status(cart_id, "checking_out", now_ms) {
        Ok(()) => {},
        Err(e) => {
            return error_reply(500, e.as_str());
        },
    }
    started_reply(s.redirect_url.as_str(), s.id.as_str(), "landsbankinn", s.mock)
}

// ---------------------------------------------------------------------------
// The gateway callback
// ---------------------------------------------------------------------------

/// The redirect when a callback names no payment it can be matched to.
pub const NO_TARGET_LOCATION: &'static str = "/checkout/cancel?error=payment_cancelled";

/// The (reference, cart) a callback is about: the `checkout_id` parameter or
/// else the cart's latest pending gateway payment; the `cart` parameter or
/// else the cart of the payment with that reference.
pub open spec fn target_of(
    ps: Seq<(Seq<char>, Payment)>,
    cart_param: Option<Seq<char>>,
    ref_param: Option<Seq<char>>,
) -> Option<(Seq<char>, Seq<char>)> {
    let r1 = match ref_param {
        Some(r) => Some(r),
        None => match cart_param {
            Some(c) => match latest_pending(ps, c, "landsbankinn"@) {
                Some(p) => Some(p.provider_ref@),
                None => None,
            },
            None => None,
        },
    };
    let c1 = match cart_param {
        Some(c) => Some(c),
        None => match r1 {
            Some(r) => match by_provider_ref(ps, r) {
                Some(p) => Some(p.cart_id@),
                None => None,
            },
            None => None,
        },
    };
    match (r1, c1) {
        (Some(r), Some(c)) => Some((r, c)),
        _ => None,
    }
}

/// Work out the (reference, cart) of a gateway callback from its `cart` and
/// `checkout_id` query parameters.
pub fn callback_target(payments: &Store, cart_param: Option<&str>, ref_param: Option<&str>) -> (r: Option<(String, String)>)
    ensures
        match r {
            Some(t) => target_of(
                payments.payments(),
                crate::booking::store::opt_str(cart_param),
                crate::booking::store::opt_str(ref_param),
            ) == Some((t.0@, t.1@)),
            None => target_of(
                payments.payments(),
                crate::booking::store::opt_str(cart_param),
                crate::booking::store::opt_str(ref_param),
            ) is None,
        },
{
    let r1: Option<String> = match ref_param {
        Some(r) => Some(owned(r)),
        None => match cart_param {
            Some(c) => match payments.latest_pending_by_cart(c, "landsbankinn") {
                Some(p) => Some(p.provider_ref),
                None => None,
            },
            None => None,
        },
    };
    let c1: Option<String> = match cart_param {
        Some(c) => Some(owned(c)),
        None => match &r1 {
            Some(r) => match payments.by_ref(r.as_str()) {
                Some(p) => Some(p.cart_id),
                None => None,
            },
            None => None,
        },
    };
    match (r1, c1) {
        (Some(r), Some(c)) => Some((r, c)),
        _ => None,
    }
}

/// What the gateway reported for a callback.
#[derive(Debug)]
pub enum GatewayReport {
    /// The browser came back through the cancel link.
    Cancelled,
    /// The gateway's state of the checkout.
    Outcome(Outcome),
    /// The gateway could not be asked.
    Unreachable,
}

/// The success page for cart `cart_id`.
pub open spec fn success_location(cart_id: Seq<char>) -> Seq<char> {
    "/checkout/success?cart="@ + cart_id
}

/// Settle a gateway callback for cart `cart_id` and payment reference
/// `provider_ref`: fulfil the cart on success, mark it and its payment
/// failed on cancellation, failure or an unreachable gateway, and leave it
/// while the payment is pending. Returns where to send the browser.
pub fn settle_callback(
    payments: &mut Store,
    carts: &mut CartStore,
    bookings: &mut BookingStore,
    cart_id: &str,
    provider_ref: &str,
    report: GatewayReport,
    now_ms: i64,
) -> (location: String)
    requires
        now_ms <= i64::MAX - DEFAULT_SUB_WINDOW_MS,
    ensures
        match report {
            GatewayReport::Outcome(Outcome::Pending) => {
                &&& location@ == cancel_location(cart_id@, "payment_cancelled"@)
                &&& *final(carts) == *old(carts)
                &&& *final(payments) == *old(payments)
                &&& *final(bookings) == *old(bookings)
            },
            GatewayReport::Outcome(Outcome::Succeeded) => exists|
                fr: Result<(), FulfillError>,
                bm: BookingStore,
                pm: Store,
                cm: CartStore,
            |
                #[trigger] fulfilled(
                    *old(bookings),
                    *old(payments),
                    *old(carts),
                    bm,
                    pm,
                    cm,
                    cart_id@,
                    provider_ref@,
                    now_ms,
                    fr,
                ) && match fr {
                    Ok(()) => {
                        &&& location@ == success_location(cart_id@)
                        &&& same_store(*final(bookings), bm)
                        &&& *final(payments) == pm
                        &&& *final(carts) == cm
                    },
                    Err(e) => {
                        &&& location@ == cancel_location(cart_id@, e.code@)
                        &&& same_store(*final(bookings), bm)
                        &&& failed_marked(pm, cm, *final(payments), *final(carts), cart_id@, provider_ref@, e.code@, now_ms)
                    },
                },
            GatewayReport::Cancelled => {
                &&& location@ == cancel_location(cart_id@, "payment_cancelled"@)
                &&& failed_marked(
                    *old(payments),
                    *old(carts),
                    *final(payments),
                    *final(carts),
                    cart_id@,
                    provider_ref@,
                    "payment_cancelled"@,
                    now_ms,
                )
                &&& *final(bookings) == *old(bookings)
            },
            _ => {
                &&& location@ == cancel_location(cart_id@, "payment_failed"@)
                &&& failed_marked(
                    *old(payments),
                    *old(carts),
                    *final(payments),
                    *final(carts),
                    cart_id@,
                    provider_ref@,
                    "payment_failed"@,
                    now_ms,
                )
                &&& *final(bookings) == *old(bookings)
            },
        },
{
    match report {
        GatewayReport::Cancelled => {
            mark_cart_failed(payments, carts, cart_id, provider_ref, "payment_cancelled", now_ms);
            cancel_path(cart_id, "payment_cancelled")
        },
        GatewayReport::Outcome(Outcome::Pending) => cancel_path(cart_id, "payment_cancelled"),
        GatewayReport::Outcome(Outcome::Succeeded) => {
            match fulfill_cart(payments, carts, bookings, cart_id, provider_ref, now_ms) {
                Ok(()) => {
                    let mut v: Vec<char> = Vec::new();
                    append_str(&mut v, "/checkout/success?cart=");
                    append_str(&mut v, cart_id);
                    string_of(&v)
                },
                Err(e) => {
                    let ghost bm = *bookings;
                    mark_cart_failed(payments, carts, cart_id, provider_ref, e.code.as_str(), now_ms);
                    cancel_path(cart_id, e.code.as_str())
                },
            }
        },
        _ => {
            mark_cart_failed(payments, carts, cart_id, provider_ref, "payment_failed", now_ms);
            cancel_path(cart_id, "payment_failed")
        },
    }
}

/// The amount shown on the bank-transfer page: the matching payment's, or 0.
pub fn bank_transfer_amount(payments: &Store, cart_id: &str, provider_ref: &str) -> (r: i64)
    ensures
        r == match by_cart_ref(payments.payments(), cart_id@, provider_ref@) {
            Some(p) => p.amount,
            None => 0,
        },
{
    match payments.by_cart_and_ref(cart_id, provider_ref) {
        Some(p) => p.amount,
        None => 0,
    }
}

/// `p` is a pending payment of cart `cart_id` on `provider`.
pub open spec fn pending_of(p: Payment, cart_id: Seq<char>, provider: Seq<char>) -> bool {
    p.cart_id@ == cart_id && p.provider@ == provider && p.status@ == "pending"@
}

/// The latest pending payment of a cart on a provider is one of the stored
/// payments, pending, of that cart and provider, and none of them was made
/// later; there is none exactly when no such payment is stored.
pub proof fn lemma_latest_pending(ps: Seq<(Seq<char>, Payment)>, cart_id: Seq<char>, provider: Seq<char>)
    ensures
        latest_pending(ps, cart_id, provider) is None <==> forall|i: int|
            0 <= i < ps.len() ==> !pending_of(#[trigger] ps[i].1, cart_id, provider),
        latest_pending(ps, cart_id, provider) matches Some(b) ==> {
            &&& pending_of(b, cart_id, provider)
            &&& exists|i: int| 0 <= i < ps.len() && #[trigger] ps[i].1 == b
            &&& forall|i: int|
                0 <= i < ps.len() && pending_of(#[trigger] ps[i].1, cart_id, provider) ==> ps[i].1.created_at
                    <= b.created_at
        },
    decreases ps.len(),
{
    if ps.len() > 0 {
        let d = ps.drop_last();
        lemma_latest_pending(d, cart_id, provider);
        assert forall|i: int| 0 <= i < d.len() implies #[trigger] d[i] == ps[i] by {}
        let last = ps.len() - 1;
        if let Some(b) = latest_pending(ps, cart_id, provider) {
            if b == ps[last].1 && pending_of(ps[last].1, cart_id, provider) {
                assert(ps[last].1 == b);
            } else {
                let bd = latest_pending(d, cart_id, provider)->0;
                assert(bd == b);
                let i = choose|i: int| 0 <= i < d.len() && #[trigger] d[i].1 == b;
                assert(ps[i].1 == b);
            }
            assert forall|i: int|
                0 <= i < ps.len() && pending_of(#[trigger] ps[i].1, cart_id, provider) implies ps[i].1.created_at
                <= b.created_at by {
                if i < d.len() {
                    assert(d[i] == ps[i]);
                }
            }
        } else {
            assert forall|i: int| 0 <= i < ps.len() implies !pending_of(#[trigger] ps[i].1, cart_id, provider) by {
                if i < d.len() {
                    assert(d[i] == ps[i]);
                }
            }
        }
        if latest_pending(ps, cart_id, provider) is Some {
            if forall|i: int| 0 <= i < ps.len() ==> !pending_of(#[trigger] ps[i].1, cart_id, provider) {
                let b = latest_pending(ps, cart_id, provider)->0;
                let i = choose|i: int| 0 <= i < ps.len() && #[trigger] ps[i].1 == b;
                assert(!pending_of(ps[i].1, cart_id, provider));
            }
        }
    }
}

/// The payment found by a provider reference carries that reference and is
/// the first stored one that does; none is found exactly when no stored
/// payment carries it.
pub proof fn lemma_by_provider_ref(ps: Seq<(Seq<char>, Payment)>, r: Seq<char>)
    ensures
        by_provider_ref(ps, r) is None <==> forall|i: int| 0 <= i < ps.len() ==> (#[trigger] ps[i].1).provider_ref@ != r,
        by_provider_ref(ps, r) matches Some(p) ==> exists|i: int|
            0 <= i < ps.len() && #[trigger] ps[i].1 == p && p.provider_ref@ == r && forall|j: int|
                0 <= j < i ==> (#[trigger] ps[j].1).provider_ref@ != r,
    decreases ps.len(),
{
    if ps.len() > 0 {
        let t = ps.drop_first();
        lemma_by_provider_ref(t, r);
        assert forall|i: int| 0 <= i < t.len() implies #[trigger] t[i] == ps[i + 1] by {}
        if ps[0].1.provider_ref@ == r {
            assert(ps[0].1 == by_provider_ref(ps, r)->0);
        } else {
            if let Some(p) = by_provider_ref(t, r) {
                let i = choose|i: int|
                    0 <= i < t.len() && #[trigger] t[i].1 == p && p.provider_ref@ == r && forall|j: int|
                        0 <= j < i ==> (#[trigger] t[j].1).provider_ref@ != r;
                assert(ps[i + 1].1 == p);
                assert forall|j: int| 0 <= j < i + 1 implies (#[trigger] ps[j].1).provider_ref@ != r by {
                    if j > 0 {
                        assert(ps[j] == t[j - 1]);
                    }
                }
            } else {
                assert forall|i: int| 0 <= i < ps.len() implies (#[trigger] ps[i].1).provider_ref@ != r by {
                    if i > 0 {
                        assert(ps[i] == t[i - 1]);
                    }
                }
            }
        }
    }
}

} // verus!
