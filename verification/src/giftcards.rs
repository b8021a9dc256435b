//! Gift cards: codes drawn from an unambiguous alphabet, lookup by code,
//! redemption against a cart total, issuance with collision retries, and the
//! messages of scheduled delivery. Entropy, the clock and the sending of
//! messages come from the caller.

use vstd::prelude::*;
use crate::booking::store::opt_str;
use crate::json::{json_string, push_json_string};
use crate::table::{lemma_lookup_upsert, lookup, upsert, entries_view, Table};
use crate::text::{
    append_chars, append_str, chars_of, clone_opt_string, i64_chars, int_str, opt_chars, owned, str_eq, string_of,
    to_uppercase, trim, trim_str, uppercased, u64_digits,
};
use crate::cart::{next_seq, record_id, record_id_of, seq_after};

verus! {

/// The first group of every code.
pub const CODE_PREFIX: &'static str = "GOLF";

/// The characters codes are drawn from: upper-case letters without the
/// easily misread `I` and `O`.
pub const ALPHABET: &'static str = "ABCDEFGHJKLMNPQRSTUVWXYZ";

/// Random groups after the prefix.
pub const CODE_GROUPS: usize = 3;

/// Characters per group.
pub const CODE_GROUP_LEN: usize = 4;

/// Entropy bytes a code takes.
pub const CODE_ENTROPY: usize = 12;

/// Codes tried before issuing gives up.
pub const ISSUE_ATTEMPTS: usize = 5;

// ---------------------------------------------------------------------------
// Codes
// ---------------------------------------------------------------------------

/// The code character a byte picks.
pub open spec fn code_char(b: u8) -> char {
    ALPHABET@[(b % 24) as int]
}

/// Group `g` of the code drawn from `bytes`.
pub open spec fn code_group(bytes: Seq<u8>, g: int) -> Seq<char> {
    Seq::new(4, |i: int| code_char(bytes[g * 4 + i]))
}

/// The code drawn from twelve entropy bytes: `GOLF-XXXX-XXXX-XXXX`.
pub open spec fn code_from(bytes: Seq<u8>) -> Seq<char> {
    "GOLF-"@ + code_group(bytes, 0) + "-"@ + code_group(bytes, 1) + "-"@ + code_group(bytes, 2)
}

/// Draw a code from twelve entropy bytes.
pub fn generate_code(entropy: &[u8]) -> (code: String)
    requires
        entropy@.len() == 12,
    ensures
        code@ == code_from(entropy@),
{
    let alphabet = chars_of(ALPHABET);
    proof {
        reveal_strlit("ABCDEFGHJKLMNPQRSTUVWXYZ");
    }
    let mut v: Vec<char> = Vec::new();
    append_str(&mut v, "GOLF-");
    let ghost head = v@;
    let mut g: usize = 0;
    while g < 3
        invariant
            g <= 3,
            entropy@.len() == 12,
            alphabet@ == ALPHABET@,
            alphabet@.len() == 24,
            v@ == head + (if g == 0 {
                Seq::<char>::empty()
            } else if g == 1 {
                code_group(entropy@, 0)
            } else if g == 2 {
                code_group(entropy@, 0) + "-"@ + code_group(entropy@, 1)
            } else {
                code_group(entropy@, 0) + "-"@ + code_group(entropy@, 1) + "-"@ + code_group(entropy@, 2)
            }),
        decreases 3 - g,
    {
        let ghost before = v@;
        if g > 0 {
            append_str(&mut v, "-");
        }
        let ghost mid = v@;
        let mut i: usize = 0;
        while i < 4
            invariant
                i <= 4,
                g < 3,
                entropy@.len() == 12,
                alphabet@ == ALPHABET@,
                alphabet@.len() == 24,
                v@ == mid + code_group(entropy@, g as int).subrange(0, i as int),
            decreases 4 - i,
        {
            let b = entropy[g * 4 + i];
            v.push(alphabet[(b % 24) as usize]);
            assert(code_group(entropy@, g as int).subrange(0, i + 1) =~= code_group(entropy@, g as int).subrange(
                0,
                i as int,
            ).push(code_char(b)));
            i = i + 1;
        }
        assert(code_group(entropy@, g as int).subrange(0, 4) =~= code_group(entropy@, g as int));
        assert(v@ =~= head + (if g + 1 == 1 {
            code_group(entropy@, 0)
        } else if g + 1 == 2 {
            code_group(entropy@, 0) + "-"@ + code_group(entropy@, 1)
        } else {
            code_group(entropy@, 0) + "-"@ + code_group(entropy@, 1) + "-"@ + code_group(entropy@, 2)
        }));
        g = g + 1;
    }
    assert(v@ =~= code_from(entropy@));
    string_of(&v)
}

/// `s` without its spaces.
pub open spec fn without_spaces(s: Seq<char>) -> Seq<char>
    decreases s.len(),
{
    if s.len() == 0 {
        s
    } else if s.last() == ' ' {
        without_spaces(s.drop_last())
    } else {
        without_spaces(s.drop_last()).push(s.last())
    }
}

/// A code as typed, made comparable: trimmed, uppercased, with
/// its spaces removed.
pub open spec fn normal_code(input: Seq<char>) -> Seq<char> {
    without_spaces(uppercased(trim(input)))
}

/// Letters, digits and `-` only: nothing that trimming, uppercasing or
/// dropping spaces would change.
pub open spec fn plain_code(s: Seq<char>) -> bool {
    forall|i: int|
        0 <= i < s.len() ==> ('A' <= #[trigger] s[i] <= 'Z' || '0' <= s[i] <= '9' || s[i] == '-')
}

proof fn lemma_without_spaces_plain(s: Seq<char>)
    requires
        forall|i: int| 0 <= i < s.len() ==> #[trigger] s[i] != ' ',
    ensures
        without_spaces(s) == s,
    decreases s.len(),
{
    if s.len() > 0 {
        lemma_without_spaces_plain(s.drop_last());
        assert(s.drop_last().push(s.last()) =~= s);
    }
}

/// A plain code is its own normal form.
pub proof fn lemma_normal_plain(s: Seq<char>)
    requires
        plain_code(s),
    ensures
        normal_code(s) == s,
{
    if s.len() > 0 {
        assert(!crate::text::is_ws(s[0]));
        assert(!crate::text::is_ws(s.last()));
    }
    assert(crate::text::trim_start(s) == s);
    assert(crate::text::trim_end(s) == s);
    assert(crate::text::all_ascii(s));
    assert(crate::text::upper_seq(s) =~= s);
    lemma_without_spaces_plain(s);
}

/// Every code drawn from entropy is plain, so it normalizes to itself.
pub proof fn lemma_code_normal(bytes: Seq<u8>)
    requires
        bytes.len() == 12,
    ensures
        plain_code(code_from(bytes)),
        normal_code(code_from(bytes)) == code_from(bytes),
{
    reveal_strlit("GOLF-");
    reveal_strlit("-");
    reveal_strlit("ABCDEFGHJKLMNPQRSTUVWXYZ");
    let c = code_from(bytes);
    assert forall|i: int| 0 <= i < c.len() implies ('A' <= #[trigger] c[i] <= 'Z' || '0' <= c[i] <= '9'
        || c[i] == '-') by {
        if 5 <= i < 9 {
            assert(c[i] == code_char(bytes[i - 5]));
        } else if 10 <= i < 14 {
            assert(c[i] == code_char(bytes[i - 6]));
        } else if 15 <= i < 19 {
            assert(c[i] == code_char(bytes[i - 7]));
        }
    }
    lemma_normal_plain(c);
}

pub fn normalize_code(input: &str) -> (r: String)
    ensures
        r@ == normal_code(input@),
{
    let t = string_of(&trim_str(input));
    let up = to_uppercase(t.as_str());
    let cs = chars_of(up.as_str());
    let mut out: Vec<char> = Vec::new();
    let mut i: usize = 0;
    while i < cs.len()
        invariant
            i <= cs@.len(),
            out@ == without_spaces(cs@.subrange(0, i as int)),
        decreases cs@.len() - i,
    {
        assert(cs@.subrange(0, i + 1).drop_last() =~= cs@.subrange(0, i as int));
        assert(cs@.subrange(0, i + 1).last() == cs@[i as int]);
        if cs[i] != ' ' {
            out.push(cs[i]);
        }
        i = i + 1;
    }
    assert(cs@.subrange(0, cs@.len() as int) =~= cs@);
    string_of(&out)
}

// ---------------------------------------------------------------------------
// Records
// ---------------------------------------------------------------------------

/// A gift card: its code, amount and remaining balance, status (`active`,
/// `used`, `cancelled`), optional expiry and scheduled delivery (ms), and
/// who bought it for whom.
#[derive(Debug)]
pub struct GiftCard {
    pub id: String,
    pub code: String,
    pub amount: i64,
    pub balance: i64,
    pub currency: String,
    pub status: String,
    pub expires_at: Option<i64>,
    pub delivery_at: Option<i64>,
    pub delivered_at: Option<i64>,
    pub purchased_by_user_id: Option<String>,
    pub cart_id: Option<String>,
    pub recipient_email: Option<String>,
    pub recipient_phone: Option<String>,
    pub recipient_name: Option<String>,
    pub message: Option<String>,
    pub created_at: i64,
    pub updated_at: i64,
}

impl Clone for GiftCard {
    fn clone(&self) -> (r: GiftCard)
        ensures
            r == *self,
    {
        GiftCard {
            id: self.id.clone(),
            code: self.code.clone(),
            amount: self.amount,
            balance: self.balance,
            currency: self.currency.clone(),
            status: self.status.clone(),
            expires_at: self.expires_at,
            delivery_at: self.delivery_at,
            delivered_at: self.delivered_at,
            purchased_by_user_id: clone_opt_string(&self.purchased_by_user_id),
            cart_id: clone_opt_string(&self.cart_id),
            recipient_email: clone_opt_string(&self.recipient_email),
            recipient_phone: clone_opt_string(&self.recipient_phone),
            recipient_name: clone_opt_string(&self.recipient_name),
            message: clone_opt_string(&self.message),
            created_at: self.created_at,
            updated_at: self.updated_at,
        }
    }
}

/// One use of a gift card against a cart.
#[derive(Debug)]
pub struct GiftCardRedemption {
    pub id: String,
    pub gift_card_id: String,
    pub cart_id: Option<String>,
    pub payment_id: Option<String>,
    pub amount: i64,
    pub redeemed_at: i64,
}

impl Clone for GiftCardRedemption {
    fn clone(&self) -> (r: GiftCardRedemption)
        ensures
            r == *self,
    {
        GiftCardRedemption {
            id: self.id.clone(),
            gift_card_id: self.gift_card_id.clone(),
            cart_id: clone_opt_string(&self.cart_id),
            payment_id: clone_opt_string(&self.payment_id),
            amount: self.amount,
            redeemed_at: self.redeemed_at,
        }
    }
}

/// Why a code cannot be used.
#[derive(Debug, Clone, Copy, PartialEq, Eq, Structural)]
pub enum LookupError {
    NotFound,
    Inactive,
    Expired,
    Depleted,
}

impl LookupError {
    /// The error's name in API answers.
    pub fn as_str(&self) -> (s: &'static str)
        ensures
            s@ == match *self {
                LookupError::NotFound => "not_found"@,
                LookupError::Inactive => "inactive"@,
                LookupError::Expired => "expired"@,
                LookupError::Depleted => "depleted"@,
            },
    {
        match self {
            LookupError::NotFound => "not_found",
            LookupError::Inactive => "inactive",
            LookupError::Expired => "expired",
            LookupError::Depleted => "depleted",
        }
    }
}

/// What a redemption did: the card, what was taken off the cart, and what
/// is left of the card and of the cart total.
#[derive(Debug)]
pub struct RedemptionResult {
    pub gift_card_id: String,
    pub applied: i64,
    pub remaining_balance: i64,
    pub remaining_cart_total: i64,
}

// ---------------------------------------------------------------------------
// The store
// ---------------------------------------------------------------------------

/// The first card, in id order, whose code is `code`.
pub open spec fn card_with_code(cs: Seq<(Seq<char>, GiftCard)>, code: Seq<char>) -> Option<GiftCard>
    decreases cs.len(),
{
    if cs.len() == 0 {
        None
    } else if cs[0].1.code@ == code {
        Some(cs[0].1)
    } else {
        card_with_code(cs.drop_first(), code)
    }
}

/// The first card, in id order, whose id is `id`.
pub open spec fn card_with_id(cs: Seq<(Seq<char>, GiftCard)>, id: Seq<char>) -> Option<GiftCard>
    decreases cs.len(),
{
    if cs.len() == 0 {
        None
    } else if cs[0].1.id@ == id {
        Some(cs[0].1)
    } else {
        card_with_id(cs.drop_first(), id)
    }
}

/// What a lookup of `code` answers at `now`: a cancelled card is inactive,
/// a used-up one depleted.
pub open spec fn lookup_outcome(cs: Seq<(Seq<char>, GiftCard)>, code: Seq<char>, now: i64) -> Result<
    GiftCard,
    LookupError,
> {
    let c = normal_code(code);
    if c.len() == 0 {
        Err(LookupError::NotFound)
    } else {
        match card_with_code(cs, c) {
            None => Err(LookupError::NotFound),
            Some(card) => if card.status@ == "cancelled"@ {
                Err(LookupError::Inactive)
            } else if card.status@ == "used"@ {
                Err(LookupError::Depleted)
            } else if card.expires_at matches Some(exp) && exp <= now {
                Err(LookupError::Expired)
            } else if card.balance <= 0 {
                Err(LookupError::Depleted)
            } else {
                Ok(card)
            },
        }
    }
}

/// Why a redemption of `code` against `cart_total` is refused at `now`, or
/// the card it draws on.
pub open spec fn redeem_check(cs: Seq<(Seq<char>, GiftCard)>, code: Seq<char>, cart_total: i64, now: i64) -> Result<
    GiftCard,
    LookupError,
> {
    if cart_total <= 0 {
        Err(LookupError::Depleted)
    } else {
        match card_with_code(cs, normal_code(code)) {
            None => Err(LookupError::NotFound),
            Some(card) => if card.status@ != "active"@ {
                Err(LookupError::Inactive)
            } else if card.expires_at matches Some(exp) && exp <= now {
                Err(LookupError::Expired)
            } else if card.balance <= 0 {
                Err(LookupError::Depleted)
            } else {
                Ok(card)
            },
        }
    }
}

/// The part of `total` a card with `balance` covers.
pub open spec fn applied_amount(balance: i64, total: i64) -> i64 {
    if balance <= total {
        balance
    } else {
        total
    }
}

/// An expired card is never spent nor offered: once its expiry is at or
/// before `now`, redeeming it is refused whatever the cart total, and looking
/// it up is refused; an active card is refused as expired in both, and a
/// refused redemption leaves the cards as they are.
pub proof fn lemma_expired_card_refused(cs: Seq<(Seq<char>, GiftCard)>, code: Seq<char>, total: i64, now: i64)
    requires
        card_with_code(cs, normal_code(code)) matches Some(c) && c.expires_at matches Some(e) && e <= now,
    ensures
        redeem_check(cs, code, total, now) is Err,
        normal_code(code).len() > 0 ==> lookup_outcome(cs, code, now) is Err,
        ({
            let c = card_with_code(cs, normal_code(code))->0;
            c.status@ == "active"@ && total > 0 ==> redeem_check(cs, code, total, now) == Err::<GiftCard, LookupError>(
                LookupError::Expired,
            ) && lookup_outcome(cs, code, now) == if normal_code(code).len() == 0 {
                Err::<GiftCard, LookupError>(LookupError::NotFound)
            } else {
                Err(LookupError::Expired)
            }
        }),
{
    reveal_strlit("active");
    reveal_strlit("cancelled");
    reveal_strlit("used");
    assert("active"@ != "cancelled"@) by {
        assert("active"@[0] != "cancelled"@[0]);
    }
    assert("active"@ != "used"@) by {
        assert("active"@[0] != "used"@[0]);
    }
}

/// What a successful redemption draws on: a positive cart total and the
/// card found by the code, which is active, unexpired and holds a positive
/// balance; it takes the smaller of balance and total, never more than
/// either, and leaves the card empty exactly when the balance did not exceed
/// the total.
pub proof fn lemma_redeem_succeeds_only_on_usable_cards(
    cs: Seq<(Seq<char>, GiftCard)>,
    code: Seq<char>,
    total: i64,
    now: i64,
)
    requires
        redeem_check(cs, code, total, now) is Ok,
    ensures
        ({
            let c = redeem_check(cs, code, total, now)->Ok_0;
            let applied = applied_amount(c.balance, total);
            &&& total > 0
            &&& card_with_code(cs, normal_code(code)) == Some(c)
            &&& c.status@ == "active"@
            &&& !(c.expires_at matches Some(e) && e <= now)
            &&& c.balance > 0
            &&& 0 < applied <= c.balance
            &&& applied <= total
            &&& (applied == c.balance || applied == total)
            &&& (c.balance - applied == 0 <==> c.balance <= total)
        }),
{
}

/// What a successful lookup finds: the card with the code, neither
/// cancelled, used up, expired nor empty.
pub proof fn lemma_lookup_finds_only_usable_cards(cs: Seq<(Seq<char>, GiftCard)>, code: Seq<char>, now: i64)
    requires
        lookup_outcome(cs, code, now) is Ok,
    ensures
        ({
            let c = lookup_outcome(cs, code, now)->Ok_0;
            &&& normal_code(code).len() > 0
            &&& card_with_code(cs, normal_code(code)) == Some(c)
            &&& c.status@ != "cancelled"@
            &&& c.status@ != "used"@
            &&& !(c.expires_at matches Some(e) && e <= now)
            &&& c.balance > 0
        }),
{
}

/// The cards due for delivery at `now`: active, not yet delivered, with a
/// delivery time not after `now`; in id order.
pub open spec fn due_cards(cs: Seq<(Seq<char>, GiftCard)>, now: i64) -> Seq<GiftCard>
    decreases cs.len(),
{
    if cs.len() == 0 {
        seq![]
    } else {
        let c = cs.last().1;
        let rest = due_cards(cs.drop_last(), now);
        if c.delivered_at is None && c.status@ == "active"@ && (c.delivery_at matches Some(d) && d <= now) {
            rest.push(c)
        } else {
            rest
        }
    }
}

/// `c` waits for delivery at `now`: active, not yet delivered, with a
/// delivery time not after `now`.
pub open spec fn awaits_delivery(c: GiftCard, now: i64) -> bool {
    c.delivered_at is None && c.status@ == "active"@ && (c.delivery_at matches Some(d) && d <= now)
}

/// The cards due for delivery are exactly the stored cards waiting for it:
/// each listed card waits, and every stored card that waits is listed. A
/// card once marked delivered is never due again.
pub proof fn lemma_due_cards(cs: Seq<(Seq<char>, GiftCard)>, now: i64)
    ensures
        forall|i: int| 0 <= i < due_cards(cs, now).len() ==> awaits_delivery(#[trigger] due_cards(cs, now)[i], now),
        forall|j: int| 0 <= j < cs.len() && awaits_delivery(#[trigger] cs[j].1, now) ==> due_cards(cs, now).contains(
            cs[j].1,
        ),
        forall|i: int| 0 <= i < due_cards(cs, now).len() ==> (#[trigger] due_cards(cs, now)[i]).delivered_at is None,
    decreases cs.len(),
{
    if cs.len() > 0 {
        let d = cs.drop_last();
        lemma_due_cards(d, now);
        let pd = due_cards(d, now);
        let p = due_cards(cs, now);
        assert forall|i: int| 0 <= i < p.len() implies awaits_delivery(#[trigger] p[i], now) by {
            if i < pd.len() {
                assert(p[i] == pd[i]);
            }
        }
        assert forall|j: int| 0 <= j < cs.len() && awaits_delivery(#[trigger] cs[j].1, now) implies p.contains(
            cs[j].1,
        ) by {
            if j < d.len() {
                assert(d[j] == cs[j]);
                let m = choose|m: int| 0 <= m < pd.len() && pd[m] == d[j].1;
                assert(p[m] == pd[m]);
            } else {
                assert(p[p.len() - 1] == cs[j].1);
            }
        }
    }
}

/// `a` comes before `b` in a redemption history: newest first, then by id.
pub open spec fn redemption_le(a: GiftCardRedemption, b: GiftCardRedemption) -> bool {
    a.redeemed_at > b.redeemed_at || (a.redeemed_at == b.redeemed_at && !crate::text::lex_lt(b.id@, a.id@))
}

/// `x` placed after every redemption of `s` not after it (stable).
pub open spec fn insert_redemption(s: Seq<GiftCardRedemption>, x: GiftCardRedemption) -> Seq<GiftCardRedemption>
    decreases s.len(),
{
    if s.len() == 0 {
        seq![x]
    } else if redemption_le(s.last(), x) {
        s.push(x)
    } else {
        insert_redemption(s.drop_last(), x).push(s.last())
    }
}

/// The redemptions in history order, ties kept in input order.
pub open spec fn sort_redemptions(s: Seq<GiftCardRedemption>) -> Seq<GiftCardRedemption>
    decreases s.len(),
{
    if s.len() == 0 {
        seq![]
    } else {
        insert_redemption(sort_redemptions(s.drop_last()), s.last())
    }
}

/// The redemptions are in history order: newest first, then by id.
pub open spec fn redemptions_ordered(s: Seq<GiftCardRedemption>) -> bool {
    forall|i: int, j: int| 0 <= i < j < s.len() ==> redemption_le(#[trigger] s[i], #[trigger] s[j])
}

proof fn lemma_redemption_le_trans(a: GiftCardRedemption, b: GiftCardRedemption, c: GiftCardRedemption)
    requires
        redemption_le(a, b),
        redemption_le(b, c),
    ensures
        redemption_le(a, c),
{
    if a.redeemed_at == b.redeemed_at && b.redeemed_at == c.redeemed_at {
        if crate::text::lex_lt(c.id@, a.id@) {
            if a.id@ != b.id@ {
                crate::text::lemma_lex_total(a.id@, b.id@);
            }
            if b.id@ != c.id@ {
                crate::text::lemma_lex_total(b.id@, c.id@);
            }
            if a.id@ == b.id@ {
                crate::text::lemma_lex_asym(c.id@, b.id@);
            } else if b.id@ == c.id@ {
                crate::text::lemma_lex_asym(b.id@, a.id@);
            } else {
                crate::text::lemma_lex_trans(a.id@, b.id@, c.id@);
                crate::text::lemma_lex_asym(a.id@, c.id@);
            }
        }
    }
}

proof fn lemma_redemption_le_total(a: GiftCardRedemption, b: GiftCardRedemption)
    ensures
        redemption_le(a, b) || redemption_le(b, a),
{
    if a.redeemed_at == b.redeemed_at {
        if a.id@ != b.id@ {
            crate::text::lemma_lex_total(a.id@, b.id@);
            if crate::text::lex_lt(a.id@, b.id@) {
                crate::text::lemma_lex_asym(a.id@, b.id@);
            }
        } else {
            crate::text::lemma_lex_irreflexive(a.id@);
        }
    }
}

proof fn lemma_insert_redemption_ordered(s: Seq<GiftCardRedemption>, x: GiftCardRedemption)
    requires
        redemptions_ordered(s),
    ensures
        redemptions_ordered(insert_redemption(s, x)),
        insert_redemption(s, x).to_multiset() == s.to_multiset().insert(x),
    decreases s.len(),
{
    broadcast use vstd::seq_lib::group_to_multiset_ensures;
    if s.len() == 0 {
        assert(seq![x] =~= Seq::<GiftCardRedemption>::empty().push(x));
    } else if redemption_le(s.last(), x) {
        let t = s.push(x);
        assert forall|i: int, j: int| 0 <= i < j < t.len() implies redemption_le(#[trigger] t[i], #[trigger] t[j]) by {
            if j == s.len() {
                if i < s.len() - 1 {
                    assert(redemption_le(s[i], s[s.len() - 1]));
                    lemma_redemption_le_trans(s[i], s.last(), x);
                }
            } else {
                assert(t[i] == s[i] && t[j] == s[j]);
            }
        }
    } else {
        lemma_redemption_le_total(s.last(), x);
        let d = s.drop_last();
        assert(redemptions_ordered(d)) by {
            assert forall|i: int, j: int| 0 <= i < j < d.len() implies redemption_le(#[trigger] d[i], #[trigger] d[j]) by {
                assert(d[i] == s[i] && d[j] == s[j]);
            }
        }
        lemma_insert_redemption_ordered(d, x);
        let u = insert_redemption(d, x);
        assert(d.push(s.last()) =~= s);
        assert forall|k: int| 0 <= k < u.len() implies redemption_le(#[trigger] u[k], s.last()) by {
            assert(u.to_multiset().count(u[k]) > 0);
            assert(u.to_multiset().count(u[k]) == d.to_multiset().insert(x).count(u[k]));
            if u[k] != x {
                assert(d.to_multiset().count(u[k]) > 0);
                assert(d.contains(u[k]));
                let m = choose|m: int| 0 <= m < d.len() && d[m] == u[k];
                assert(s[m] == d[m]);
                assert(s[s.len() - 1] == s.last());
            }
        }
        let t = u.push(s.last());
        assert forall|i: int, j: int| 0 <= i < j < t.len() implies redemption_le(#[trigger] t[i], #[trigger] t[j]) by {
            if j == u.len() {
                assert(t[i] == u[i]);
            } else {
                assert(t[i] == u[i] && t[j] == u[j]);
            }
        }
    }
}

/// A card's redemption history lists each of its redemptions exactly once,
/// newest first, ties by id.
pub proof fn lemma_redemption_history(rs: Seq<(Seq<char>, GiftCardRedemption)>, card_id: Seq<char>)
    ensures
        redemptions_ordered(sort_redemptions(redemptions_of(rs, card_id))),
        sort_redemptions(redemptions_of(rs, card_id)).to_multiset() == redemptions_of(rs, card_id).to_multiset(),
        forall|i: int|
            0 <= i < redemptions_of(rs, card_id).len() ==> (#[trigger] redemptions_of(rs, card_id)[i]).gift_card_id@
                == card_id,
        forall|j: int|
            0 <= j < rs.len() && (#[trigger] rs[j].1).gift_card_id@ == card_id ==> redemptions_of(rs, card_id).contains(
                rs[j].1,
            ),
{
    lemma_sort_redemptions(redemptions_of(rs, card_id));
    lemma_redemptions_of(rs, card_id);
}

proof fn lemma_sort_redemptions(s: Seq<GiftCardRedemption>)
    ensures
        redemptions_ordered(sort_redemptions(s)),
        sort_redemptions(s).to_multiset() == s.to_multiset(),
    decreases s.len(),
{
    broadcast use vstd::seq_lib::group_to_multiset_ensures;
    if s.len() > 0 {
        lemma_sort_redemptions(s.drop_last());
        lemma_insert_redemption_ordered(sort_redemptions(s.drop_last()), s.last());
        assert(s.drop_last().push(s.last()) =~= s);
    }
}

proof fn lemma_redemptions_of(rs: Seq<(Seq<char>, GiftCardRedemption)>, card_id: Seq<char>)
    ensures
        forall|i: int|
            0 <= i < redemptions_of(rs, card_id).len() ==> (#[trigger] redemptions_of(rs, card_id)[i]).gift_card_id@
                == card_id,
        forall|j: int|
            0 <= j < rs.len() && (#[trigger] rs[j].1).gift_card_id@ == card_id ==> redemptions_of(rs, card_id).contains(
                rs[j].1,
            ),
    decreases rs.len(),
{
    if rs.len() > 0 {
        let d = rs.drop_last();
        lemma_redemptions_of(d, card_id);
        let pd = redemptions_of(d, card_id);
        let p = redemptions_of(rs, card_id);
        assert forall|i: int| 0 <= i < p.len() implies (#[trigger] p[i]).gift_card_id@ == card_id by {
            if i < pd.len() {
                assert(p[i] == pd[i]);
            }
        }
        assert forall|j: int| 0 <= j < rs.len() && (#[trigger] rs[j].1).gift_card_id@ == card_id implies p.contains(
            rs[j].1,
        ) by {
            if j < d.len() {
                assert(d[j] == rs[j]);
                let m = choose|m: int| 0 <= m < pd.len() && pd[m] == d[j].1;
                assert(p[m] == pd[m]);
            } else {
                assert(p[p.len() - 1] == rs[j].1);
            }
        }
    }
}

/// The redemptions of card `card_id`, in id order.
pub open spec fn redemptions_of(rs: Seq<(Seq<char>, GiftCardRedemption)>, card_id: Seq<char>) -> Seq<
    GiftCardRedemption,
>
    decreases rs.len(),
{
    if rs.len() == 0 {
        seq![]
    } else if rs.last().1.gift_card_id@ == card_id {
        redemptions_of(rs.drop_last(), card_id).push(rs.last().1)
    } else {
        redemptions_of(rs.drop_last(), card_id)
    }
}

/// Gift cards and redemptions by id, and the counter that numbers new ids.
pub struct Store {
    cards: Table<GiftCard>,
    redemptions: Table<GiftCardRedemption>,
    seq: u64,
}

impl Store {
    pub closed spec fn cards(&self) -> Seq<(Seq<char>, GiftCard)> {
        self.cards.view()
    }

    pub closed spec fn redemptions(&self) -> Seq<(Seq<char>, GiftCardRedemption)> {
        self.redemptions.view()
    }

    pub closed spec fn seq(&self) -> u64 {
        self.seq
    }

    /// No cards, no redemptions.
    pub fn new() -> (s: Store)
        ensures
            s.cards() == Seq::<(Seq<char>, GiftCard)>::empty(),
            s.redemptions() == Seq::<(Seq<char>, GiftCardRedemption)>::empty(),
            s.seq() == 0,
    {
        Store { cards: Table::new(), redemptions: Table::new(), seq: 0 }
    }

    fn next_id(&mut self, prefix: &str, now: i64) -> (r: String)
        ensures
            r@ == record_id(prefix@, now, old(self).seq()),
            final(self).seq() == next_seq(old(self).seq()),
            final(self).cards() == old(self).cards(),
            final(self).redemptions() == old(self).redemptions(),
    {
        let id = record_id_of(prefix, now, self.seq);
        self.seq = if self.seq == u64::MAX {
            0
        } else {
            self.seq + 1
        };
        id
    }

    fn find_code(&self, code: &str) -> (r: Option<GiftCard>)
        ensures
            r == card_with_code(self.cards(), code@),
    {
        let e = self.cards.entries();
        let ghost v = self.cards();
        let mut i: usize = 0;
        assert(v.subrange(0, v.len() as int) =~= v);
        while i < e.len()
            invariant
                i <= e@.len(),
                entries_view(e@) == v,
                v == self.cards(),
                card_with_code(v, code@) == card_with_code(v.subrange(i as int, v.len() as int), code@),
            decreases e@.len() - i,
        {
            let ghost rest = v.subrange(i as int, v.len() as int);
            assert(rest[0] == v[i as int]);
            assert(rest.drop_first() =~= v.subrange(i + 1, v.len() as int));
            if str_eq(e[i].1.code.as_str(), code) {
                return Some(e[i].1.clone());
            }
            i = i + 1;
        }
        None
    }

    /// The card with id `id`.
    pub fn get_by_id(&self, id: &str) -> (r: Option<GiftCard>)
        ensures
            r == card_with_id(self.cards(), id@),
    {
        let e = self.cards.entries();
        let ghost v = self.cards();
        let mut i: usize = 0;
        assert(v.subrange(0, v.len() as int) =~= v);
        while i < e.len()
            invariant
                i <= e@.len(),
                entries_view(e@) == v,
                v == self.cards(),
                card_with_id(v, id@) == card_with_id(v.subrange(i as int, v.len() as int), id@),
            decreases e@.len() - i,
        {
            let ghost rest = v.subrange(i as int, v.len() as int);
            assert(rest[0] == v[i as int]);
            assert(rest.drop_first() =~= v.subrange(i + 1, v.len() as int));
            if str_eq(e[i].1.id.as_str(), id) {
                return Some(e[i].1.clone());
            }
            i = i + 1;
        }
        None
    }

    /// Every card, in id order.
    pub fn list_all(&self) -> (r: Vec<GiftCard>)
        ensures
            r@.len() == self.cards().len(),
            forall|i: int| 0 <= i < r@.len() ==> #[trigger] r@[i] == self.cards()[i].1,
    {
        let e = self.cards.entries();
        let mut out: Vec<GiftCard> = Vec::new();
        let mut i: usize = 0;
        while i < e.len()
            invariant
                i <= e@.len(),
                entries_view(e@) == self.cards(),
                out@.len() == i,
                forall|j: int| 0 <= j < i ==> #[trigger] out@[j] == self.cards()[j].1,
            decreases e@.len() - i,
        {
            out.push(e[i].1.clone());
            i = i + 1;
        }
        out
    }

    /// Look a code up: the card, when it can be used at `now`.
    pub fn lookup(&self, raw_code: &str, now_ms: i64) -> (r: Result<GiftCard, LookupError>)
        ensures
            r == lookup_outcome(self.cards(), raw_code@, now_ms),
    {
        let code = normalize_code(raw_code);
        if chars_of(code.as_str()).len() == 0 {
            return Err(LookupError::NotFound);
        }
        let card = match self.find_code(code.as_str()) {
            Some(c) => c,
            None => return Err(LookupError::NotFound),
        };
        if str_eq(card.status.as_str(), "cancelled") {
            return Err(LookupError::Inactive);
        }
        if str_eq(card.status.as_str(), "used") {
            return Err(LookupError::Depleted);
        }
        if let Some(exp) = card.expires_at {
            if exp <= now_ms {
                return Err(LookupError::Expired);
            }
        }
        if card.balance <= 0 {
            return Err(LookupError::Depleted);
        }
        Ok(card)
    }

    /// Apply the card with `code` to a cart total at `now`: take the smaller
    /// of balance and total off both, mark the card used when its balance
    /// reaches zero, and record the redemption.
    pub fn redeem(
        &mut self,
        code: &str,
        cart_total: i64,
        cart_id: Option<&str>,
        payment_id: Option<&str>,
        now_ms: i64,
    ) -> (r: Result<RedemptionResult, LookupError>)
        ensures
            match redeem_check(old(self).cards(), code@, cart_total, now_ms) {
                Err(e) => {
                    &&& r == Err::<RedemptionResult, LookupError>(e)
                    &&& final(self).cards() == old(self).cards()
                    &&& final(self).redemptions() == old(self).redemptions()
                    &&& final(self).seq() == old(self).seq()
                },
                Ok(card) => {
                    let applied = applied_amount(card.balance, cart_total);
                    let left = (card.balance - applied) as i64;
                    &&& r matches Ok(res) && res.gift_card_id@ == card.id@ && res.applied == applied
                        && res.remaining_balance == left && res.remaining_cart_total == cart_total - applied
                    &&& lookup(final(self).cards(), card.id@) matches Some(c2) && c2 == (GiftCard {
                        balance: left,
                        status: c2.status,
                        updated_at: now_ms,
                        ..card
                    }) && c2.status@ == (if left == 0 {
                        "used"@
                    } else {
                        "active"@
                    }) && final(self).cards() == upsert(old(self).cards(), card.id@, c2)
                    &&& lookup(final(self).redemptions(), record_id("gcrp"@, now_ms, old(self).seq())) matches Some(
                        rd,
                    ) && rd.id@ == record_id("gcrp"@, now_ms, old(self).seq()) && rd.gift_card_id@ == card.id@
                        && opt_chars(rd.cart_id) == opt_str(cart_id) && opt_chars(rd.payment_id) == opt_str(
                        payment_id,
                    ) && rd.amount == applied && rd.redeemed_at == now_ms && final(self).redemptions() == upsert(
                        old(self).redemptions(),
                        rd.id@,
                        rd,
                    )
                    &&& final(self).seq() == next_seq(old(self).seq())
                },
            },
    {
        if cart_total <= 0 {
            return Err(LookupError::Depleted);
        }
        let normalized = normalize_code(code);
        let card = match self.find_code(normalized.as_str()) {
            Some(c) => c,
            None => return Err(LookupError::NotFound),
        };
        if !str_eq(card.status.as_str(), "active") {
            return Err(LookupError::Inactive);
        }
        if let Some(exp) = card.expires_at {
            if exp <= now_ms {
                return Err(LookupError::Expired);
            }
        }
        if card.balance <= 0 {
            return Err(LookupError::Depleted);
        }
        let applied = if card.balance <= cart_total {
            card.balance
        } else {
            cart_total
        };
        let new_balance = card.balance - applied;
        let status = if new_balance == 0 {
            owned("used")
        } else {
            owned("active")
        };
        let id = card.id.clone();
        let updated = GiftCard { balance: new_balance, status, updated_at: now_ms, ..card };
        let ghost c2 = updated;
        let ghost pre = self.cards();
        self.cards.insert(id.as_str(), updated);
        proof {
            lemma_lookup_upsert(pre, c2.id@, c2, c2.id@);
        }
        let rid = self.next_id("gcrp", now_ms);
        let redemption = GiftCardRedemption {
            id: rid,
            gift_card_id: id.clone(),
            cart_id: match cart_id {
                Some(s) => Some(owned(s)),
                None => None,
            },
            payment_id: match payment_id {
                Some(s) => Some(owned(s)),
                None => None,
            },
            amount: applied,
            redeemed_at: now_ms,
        };
        let ghost rd = redemption;
        let ghost rpre = self.redemptions();
        let rkey = redemption.id.clone();
        self.redemptions.insert(rkey.as_str(), redemption);
        proof {
            lemma_lookup_upsert(rpre, rd.id@, rd, rd.id@);
        }
        Ok(RedemptionResult {
            gift_card_id: id,
            applied,
            remaining_balance: new_balance,
            remaining_cart_total: cart_total - applied,
        })
    }

    /// The redemptions of card `gift_card_id`, newest first (then by id).
    pub fn redemptions_for_card(&self, gift_card_id: &str) -> (r: Vec<GiftCardRedemption>)
        ensures
            r@ == sort_redemptions(redemptions_of(self.redemptions(), gift_card_id@)),
    {
        let e = self.redemptions.entries();
        let ghost v = self.redemptions();
        let mut rows: Vec<GiftCardRedemption> = Vec::new();
        let mut i: usize = 0;
        while i < e.len()
            invariant
                i <= e@.len(),
                entries_view(e@) == v,
                v == self.redemptions(),
                rows@ == redemptions_of(v.subrange(0, i as int), gift_card_id@),
            decreases e@.len() - i,
        {
            assert(v.subrange(0, i + 1).drop_last() =~= v.subrange(0, i as int));
            assert(v.subrange(0, i + 1).last() == v[i as int]);
            if str_eq(e[i].1.gift_card_id.as_str(), gift_card_id) {
                rows.push(e[i].1.clone());
            }
            i = i + 1;
        }
        assert(v.subrange(0, v.len() as int) =~= v);
        let mut out: Vec<GiftCardRedemption> = Vec::new();
        let mut k: usize = 0;
        while k < rows.len()
            invariant
                k <= rows@.len(),
                out@ == sort_redemptions(rows@.subrange(0, k as int)),
            decreases rows@.len() - k,
        {
            assert(rows@.subrange(0, k + 1).drop_last() =~= rows@.subrange(0, k as int));
            insert_redemption_exec(&mut out, rows[k].clone());
            k = k + 1;
        }
        assert(rows@.subrange(0, rows@.len() as int) =~= rows@);
        out
    }

    /// The cards due for delivery at `now`.
    pub fn pending_deliveries(&self, now_ms: i64) -> (r: Vec<GiftCard>)
        ensures
            r@ == due_cards(self.cards(), now_ms),
    {
        let e = self.cards.entries();
        let ghost v = self.cards();
        let mut out: Vec<GiftCard> = Vec::new();
        let mut i: usize = 0;
        while i < e.len()
            invariant
                i <= e@.len(),
                entries_view(e@) == v,
                v == self.cards(),
                out@ == due_cards(v.subrange(0, i as int), now_ms),
            decreases e@.len() - i,
        {
            assert(v.subrange(0, i + 1).drop_last() =~= v.subrange(0, i as int));
            assert(v.subrange(0, i + 1).last() == v[i as int]);
            let c = &e[i].1;
            let due = match c.delivery_at {
                Some(d) => d <= now_ms,
                None => false,
            };
            if c.delivered_at.is_none() && str_eq(c.status.as_str(), "active") && due {
                out.push(c.clone());
            }
            i = i + 1;
        }
        assert(v.subrange(0, v.len() as int) =~= v);
        out
    }

    /// Record that card `id` was delivered at `now`.
    pub fn mark_delivered(&mut self, id: &str, now_ms: i64) -> (r: Result<(), String>)
        ensures
            final(self).redemptions() == old(self).redemptions(),
            final(self).seq() == old(self).seq(),
            match card_with_id(old(self).cards(), id@) {
                None => r matches Err(m) && m@ == "gift card not found"@ && final(self).cards() == old(
                    self,
                ).cards(),
                Some(c) => {
                    &&& r is Ok
                    &&& lookup(final(self).cards(), c.id@) == Some(
                        GiftCard { delivered_at: Some(now_ms), updated_at: now_ms, ..c },
                    )
                    &&& final(self).cards() == upsert(
                        old(self).cards(),
                        c.id@,
                        GiftCard { delivered_at: Some(now_ms), updated_at: now_ms, ..c },
                    )
                },
            },
    {
        let card = match self.get_by_id(id) {
            Some(c) => c,
            None => return Err(owned("gift card not found")),
        };
        let key = card.id.clone();
        let updated = GiftCard { delivered_at: Some(now_ms), updated_at: now_ms, ..card };
        let ghost c2 = updated;
        let ghost pre = self.cards();
        self.cards.insert(key.as_str(), updated);
        proof {
            lemma_lookup_upsert(pre, c2.id@, c2, c2.id@);
        }
        Ok(())
    }

    /// After a scheduled delivery of card `id` was attempted: when it was
    /// sent, mark the card delivered. Whether it counts as sent.
    pub fn note_delivery(&mut self, id: &str, sent: bool, now_ms: i64) -> (counted: bool)
        ensures
            !sent ==> !counted && *final(self) == *old(self),
            sent ==> counted == (card_with_id(old(self).cards(), id@) is Some),
            sent ==> match card_with_id(old(self).cards(), id@) {
                None => final(self).cards() == old(self).cards(),
                Some(c) => final(self).cards() == upsert(
                    old(self).cards(),
                    c.id@,
                    GiftCard { delivered_at: Some(now_ms), updated_at: now_ms, ..c },
                ),
            },
            final(self).redemptions() == old(self).redemptions(),
            final(self).seq() == old(self).seq(),
    {
        if !sent {
            return false;
        }
        self.mark_delivered(id, now_ms).is_ok()
    }
}

fn redemption_le_exec(a: &GiftCardRedemption, b: &GiftCardRedemption) -> (r: bool)
    ensures
        r == redemption_le(*a, *b),
{
    a.redeemed_at > b.redeemed_at || (a.redeemed_at == b.redeemed_at && !crate::text::str_less(
        b.id.as_str(),
        a.id.as_str(),
    ))
}

fn insert_redemption_exec(out: &mut Vec<GiftCardRedemption>, x: GiftCardRedemption)
    ensures
        final(out)@ == insert_redemption(old(out)@, x),
{
    let ghost s = out@;
    let mut j = out.len();
    assert(s.subrange(0, s.len() as int) =~= s);
    assert(s.subrange(s.len() as int, s.len() as int) =~= Seq::<GiftCardRedemption>::empty());
    while j > 0 && !redemption_le_exec(&out[j - 1], &x)
        invariant
            j <= s.len(),
            out@ == s,
            insert_redemption(s, x) == insert_redemption(s.subrange(0, j as int), x) + s.subrange(
                j as int,
                s.len() as int,
            ),
        decreases j,
    {
        let ghost pre = s.subrange(0, j as int);
        assert(pre.drop_last() =~= s.subrange(0, j - 1));
        assert(pre.last() == s[j - 1]);
        assert(insert_redemption(pre, x) == insert_redemption(s.subrange(0, j - 1), x).push(s[j - 1]));
        assert(insert_redemption(s.subrange(0, j - 1), x).push(s[j - 1]) + s.subrange(j as int, s.len() as int)
            =~= insert_redemption(s.subrange(0, j - 1), x) + s.subrange(j - 1, s.len() as int));
        j = j - 1;
    }
    proof {
        let pre = s.subrange(0, j as int);
        if j > 0 {
            assert(pre.last() == s[j - 1]);
            assert(insert_redemption(pre, x) == pre.push(x));
        } else {
            assert(pre =~= Seq::<GiftCardRedemption>::empty());
        }
    }
    out.insert(j, x);
    assert(out@ =~= insert_redemption(s, x));
}

// ---------------------------------------------------------------------------
// Issuing
// ---------------------------------------------------------------------------

/// The first attempt, from `a` on, whose code no card has yet.
pub open spec fn free_attempt(cs: Seq<(Seq<char>, GiftCard)>, es: Seq<Vec<u8>>, a: nat) -> Option<nat>
    decreases 5 - a,
{
    if a >= 5 {
        None
    } else if card_with_code(cs, code_from(es[a as int]@)) is None {
        Some(a)
    } else {
        free_attempt(cs, es, a + 1)
    }
}

/// Adding a card whose code no card has makes it the card found by that code.
proof fn lemma_card_with_code_upsert(cs: Seq<(Seq<char>, GiftCard)>, k: Seq<char>, c: GiftCard)
    requires
        card_with_code(cs, c.code@) is None,
    ensures
        card_with_code(upsert(cs, k, c), c.code@) == Some(c),
    decreases cs.len(),
{
    let u = upsert(cs, k, c);
    if cs.len() == 0 {
        assert(u[0] == (k, c));
    } else if cs[0].0 == k {
        assert(u[0] == (k, c));
    } else if crate::text::lex_lt(k, cs[0].0) {
        assert(u[0] == (k, c));
    } else {
        lemma_card_with_code_upsert(cs.drop_first(), k, c);
        assert(u[0] == cs[0]);
        assert(u.drop_first() =~= upsert(cs.drop_first(), k, c));
    }
}

/// An optional text, copied.
fn opt_owned(o: Option<&str>) -> (r: Option<String>)
    ensures
        opt_chars(r) == opt_str(o),
{
    match o {
        Some(s) => Some(owned(s)),
        None => None,
    }
}

/// `c` is the card issued under `id` with `code` at `now`.
pub open spec fn issued(
    c: GiftCard,
    id: Seq<char>,
    code: Seq<char>,
    amount: i64,
    currency: Option<Seq<char>>,
    purchased_by: Option<Seq<char>>,
    cart_id: Option<Seq<char>>,
    recipient: (Option<Seq<char>>, Option<Seq<char>>, Option<Seq<char>>, Option<Seq<char>>),
    expires_at: Option<i64>,
    delivery_at: Option<i64>,
    now: i64,
) -> bool {
    &&& c.id@ == id
    &&& c.code@ == code
    &&& c.amount == amount
    &&& c.balance == amount
    &&& c.currency@ == (match currency {
        Some(cur) => cur,
        None => "ISK"@,
    })
    &&& c.status@ == "active"@
    &&& c.expires_at == expires_at
    &&& c.delivery_at == delivery_at
    &&& c.delivered_at is None
    &&& opt_chars(c.purchased_by_user_id) == purchased_by
    &&& opt_chars(c.cart_id) == cart_id
    &&& opt_chars(c.recipient_email) == recipient.0
    &&& opt_chars(c.recipient_phone) == recipient.1
    &&& opt_chars(c.recipient_name) == recipient.2
    &&& opt_chars(c.message) == recipient.3
    &&& c.created_at == now
    &&& c.updated_at == now
}

/// The attempt an issue settles on draws a code that no card has yet, and
/// every earlier attempt's code was taken; when none is found, all five
/// codes were taken.
pub proof fn lemma_free_attempt(cs: Seq<(Seq<char>, GiftCard)>, es: Seq<Vec<u8>>, k: nat)
    ensures
        free_attempt(cs, es, k) matches Some(a) ==> {
            &&& k <= a < 5
            &&& card_with_code(cs, code_from(es[a as int]@)) is None
            &&& forall|b: nat| k <= b < a ==> #[trigger] card_with_code(cs, code_from(es[b as int]@)) is Some
        },
        free_attempt(cs, es, k) is None ==> forall|b: nat|
            k <= b < 5 ==> #[trigger] card_with_code(cs, code_from(es[b as int]@)) is Some,
    decreases 5 - k,
{
    if k < 5 {
        lemma_free_attempt(cs, es, k + 1);
    }
}

/// A card just issued for a positive amount is good to use until it
/// expires: looking its code up finds it, and redeeming it against a
/// positive total draws on it.
pub proof fn lemma_issued_card_usable(
    cs: Seq<(Seq<char>, GiftCard)>,
    c: GiftCard,
    id: Seq<char>,
    bytes: Seq<u8>,
    amount: i64,
    currency: Option<Seq<char>>,
    purchased_by: Option<Seq<char>>,
    cart_id: Option<Seq<char>>,
    recipient: (Option<Seq<char>>, Option<Seq<char>>, Option<Seq<char>>, Option<Seq<char>>),
    expires_at: Option<i64>,
    delivery_at: Option<i64>,
    issued_at: i64,
    now: i64,
    total: i64,
)
    requires
        bytes.len() == 12,
        issued(
            c,
            id,
            code_from(bytes),
            amount,
            currency,
            purchased_by,
            cart_id,
            recipient,
            expires_at,
            delivery_at,
            issued_at,
        ),
        card_with_code(cs, normal_code(code_from(bytes))) == Some(c),
        amount > 0,
        !(expires_at matches Some(e) && e <= now),
    ensures
        lookup_outcome(cs, code_from(bytes), now) == Ok::<GiftCard, LookupError>(c),
        total > 0 ==> redeem_check(cs, code_from(bytes), total, now) == Ok::<GiftCard, LookupError>(c),
{
    lemma_code_normal(bytes);
    reveal_strlit("GOLF-");
    assert(code_from(bytes).len() > 0);
    reveal_strlit("active");
    reveal_strlit("cancelled");
    reveal_strlit("used");
    assert("active"@ != "cancelled"@) by {
        assert("active"@[0] != "cancelled"@[0]);
    }
    assert("active"@ != "used"@) by {
        assert("active"@[0] != "used"@[0]);
    }
}

impl Store {
    /// Issue a card for `amount`, drawing its code from the next of five
    /// entropy blocks until one gives a code no card has; every attempt
    /// takes a new id. Returns the new card's id and code.
    pub fn issue(
        &mut self,
        entropy: &Vec<Vec<u8>>,
        amount: i64,
        currency: Option<&str>,
        purchased_by_user_id: Option<&str>,
        cart_id: Option<&str>,
        recipient_email: Option<&str>,
        recipient_phone: Option<&str>,
        recipient_name: Option<&str>,
        message: Option<&str>,
        expires_at: Option<i64>,
        delivery_at: Option<i64>,
        now_ms: i64,
    ) -> (r: Result<(String, String), String>)
        requires
            entropy@.len() == 5,
            forall|i: int| 0 <= i < 5 ==> (#[trigger] entropy@[i])@.len() == 12,
        ensures
            final(self).redemptions() == old(self).redemptions(),
            match free_attempt(old(self).cards(), entropy@, 0) {
                None => {
                    &&& r matches Err(m) && m@ == "Failed to issue gift card after retries (too many collisions)"@
                    &&& final(self).cards() == old(self).cards()
                    &&& final(self).seq() == seq_after(old(self).seq(), 5)
                },
                Some(a) => {
                    &&& r matches Ok(p) && p.0@ == record_id("gc"@, now_ms, seq_after(old(self).seq(), a))
                        && p.1@ == code_from(entropy@[a as int]@)
                    &&& lookup(final(self).cards(), record_id("gc"@, now_ms, seq_after(old(self).seq(), a))) matches Some(
                        c,
                    ) && issued(
                        c,
                        record_id("gc"@, now_ms, seq_after(old(self).seq(), a)),
                        code_from(entropy@[a as int]@),
                        amount,
                        opt_str(currency),
                        opt_str(purchased_by_user_id),
                        opt_str(cart_id),
                        (opt_str(recipient_email), opt_str(recipient_phone), opt_str(recipient_name), opt_str(message)),
                        expires_at,
                        delivery_at,
                        now_ms,
                    ) && final(self).cards() == upsert(old(self).cards(), c.id@, c)
                        && card_with_code(final(self).cards(), normal_code(code_from(entropy@[a as int]@)))
                        == Some(c)
                    &&& final(self).seq() == seq_after(old(self).seq(), a + 1)
                },
            },
    {
        let ghost seq0 = self.seq();
        let mut attempt: usize = 0;
        while attempt < 5
            invariant
                attempt <= 5,
                entropy@.len() == 5,
                forall|i: int| 0 <= i < 5 ==> (#[trigger] entropy@[i])@.len() == 12,
                self.cards() == old(self).cards(),
                self.redemptions() == old(self).redemptions(),
                self.seq() == seq_after(seq0, attempt as nat),
                seq0 == old(self).seq(),
                free_attempt(old(self).cards(), entropy@, 0) == free_attempt(old(self).cards(), entropy@, attempt as nat),
            decreases 5 - attempt,
        {
            let code = generate_code(entropy[attempt].as_slice());
            let id = self.next_id("gc", now_ms);
            if self.find_code(code.as_str()).is_some() {
                attempt = attempt + 1;
                continue;
            }
            let card = GiftCard {
                id,
                code,
                amount,
                balance: amount,
                currency: match currency {
                    Some(c) => owned(c),
                    None => owned("ISK"),
                },
                status: owned("active"),
                expires_at,
                delivery_at,
                delivered_at: None,
                purchased_by_user_id: opt_owned(purchased_by_user_id),
                cart_id: opt_owned(cart_id),
                recipient_email: opt_owned(recipient_email),
                recipient_phone: opt_owned(recipient_phone),
                recipient_name: opt_owned(recipient_name),
                message: opt_owned(message),
                created_at: now_ms,
                updated_at: now_ms,
            };
            let ghost c = card;
            let ghost pre = self.cards();
            let out_id = card.id.clone();
            let out_code = card.code.clone();
            let key = card.id.clone();
            self.cards.insert(key.as_str(), card);
            proof {
                lemma_lookup_upsert(pre, c.id@, c, c.id@);
                lemma_code_normal(entropy@[attempt as int]@);
                lemma_card_with_code_upsert(pre, c.id@, c);
            }
            return Ok((out_id, out_code));
        }
        Err(owned("Failed to issue gift card after retries (too many collisions)"))
    }
}

// ---------------------------------------------------------------------------
// Delivery messages
// ---------------------------------------------------------------------------

/// How a due card is delivered.
#[derive(Debug)]
pub enum Delivery {
    /// No sidecar is wired: log the text instead of sending it.
    Log { text: String },
    /// Send an SMS: the JSON body for the sidecar's `/sms`.
    Sms { body: String },
    /// Send an email: the JSON body for the sidecar's `/email`.
    Email { body: String },
    /// The card has no contact to send to.
    Nothing,
}

/// The amount as the message shows it: the number, a space, the currency.
pub open spec fn amount_label(c: GiftCard) -> Seq<char> {
    int_str(c.amount as int) + " "@ + c.currency@
}

/// The greeting line, when the recipient's name is known.
pub open spec fn greeting(c: GiftCard) -> Seq<char> {
    match c.recipient_name {
        Some(n) => "Hæ "@ + n@ + "!\n"@,
        None => Seq::<char>::empty(),
    }
}

/// The buyer's note, set off by a blank line.
pub open spec fn note(c: GiftCard) -> Seq<char> {
    match c.message {
        Some(m) => "\n\n"@ + m@,
        None => Seq::<char>::empty(),
    }
}

/// The plain-text message for a card.
pub open spec fn delivery_text(c: GiftCard) -> Seq<char> {
    greeting(c) + "Þú hefur fengið gjafabréf hjá Golfsetrinu Akureyri.\nKóði: "@ + c.code@ + "\nUpphæð: "@
        + amount_label(c) + note(c)
}

/// The HTML message for a card.
pub open spec fn delivery_html(c: GiftCard) -> Seq<char> {
    "<p>"@ + greeting(c) + "</p><p>Þú hefur fengið gjafabréf hjá Golfsetrinu Akureyri.</p><p>Kóði: <strong>"@
        + c.code@ + "</strong></p><p>Upphæð: "@ + amount_label(c) + "</p>"@
}

/// A contact that is present and not empty.
pub open spec fn contact(o: Option<String>) -> Option<Seq<char>> {
    match o {
        Some(s) => if s@.len() > 0 {
            Some(s@)
        } else {
            None
        },
        None => None,
    }
}

/// How card `c` is delivered, given whether a sidecar is wired: by SMS when
/// it has a phone, else by email when it has an address.
pub open spec fn delivery_of(c: GiftCard, sidecar: bool) -> (int, Seq<char>) {
    if !sidecar {
        (0, delivery_text(c))
    } else {
        match contact(c.recipient_phone) {
            Some(phone) => (1, "{\"to\":"@ + json_string(phone) + ",\"message\":"@ + json_string(delivery_text(c)) + "}"@),
            None => match contact(c.recipient_email) {
                Some(email) => (
                    2,
                    "{\"to\":"@ + json_string(email) + ",\"subject\":"@ + json_string(
                        "Gjafabréf — Golfsetrið Akureyri"@,
                    ) + ",\"html\":"@ + json_string(delivery_html(c)) + ",\"text\":"@ + json_string(
                        delivery_text(c),
                    ) + "}"@,
                ),
                None => (3, Seq::<char>::empty()),
            },
        }
    }
}

fn push_amount_label(v: &mut Vec<char>, c: &GiftCard)
    ensures
        final(v)@ == old(v)@ + amount_label(*c),
{
    let ghost start = v@;
    append_chars(v, &i64_chars(c.amount));
    append_str(v, " ");
    append_str(v, c.currency.as_str());
    assert(v@ =~= start + amount_label(*c));
}

fn push_greeting(v: &mut Vec<char>, c: &GiftCard)
    ensures
        final(v)@ == old(v)@ + greeting(*c),
{
    let ghost start = v@;
    if let Some(n) = &c.recipient_name {
        append_str(v, "Hæ ");
        append_str(v, n.as_str());
        append_str(v, "!\n");
        assert(v@ =~= start + greeting(*c));
    } else {
        assert(v@ =~= start + greeting(*c));
    }
}

fn text_of(c: &GiftCard) -> (r: String)
    ensures
        r@ == delivery_text(*c),
{
    let mut v: Vec<char> = Vec::new();
    push_greeting(&mut v, c);
    append_str(&mut v, "Þú hefur fengið gjafabréf hjá Golfsetrinu Akureyri.\nKóði: ");
    append_str(&mut v, c.code.as_str());
    append_str(&mut v, "\nUpphæð: ");
    push_amount_label(&mut v, c);
    if let Some(m) = &c.message {
        append_str(&mut v, "\n\n");
        append_str(&mut v, m.as_str());
    }
    assert(v@ =~= delivery_text(*c));
    string_of(&v)
}

fn html_of(c: &GiftCard) -> (r: String)
    ensures
        r@ == delivery_html(*c),
{
    let mut v: Vec<char> = Vec::new();
    append_str(&mut v, "<p>");
    push_greeting(&mut v, c);
    append_str(&mut v, "</p><p>Þú hefur fengið gjafabréf hjá Golfsetrinu Akureyri.</p><p>Kóði: <strong>");
    append_str(&mut v, c.code.as_str());
    append_str(&mut v, "</strong></p><p>Upphæð: ");
    push_amount_label(&mut v, c);
    append_str(&mut v, "</p>");
    assert(v@ =~= delivery_html(*c));
    string_of(&v)
}

/// How to deliver card `c`, given whether a sidecar is wired.
pub fn delivery_plan(c: &GiftCard, sidecar: bool) -> (d: Delivery)
    ensures
        match d {
            Delivery::Log { text } => delivery_of(*c, sidecar) == (0int, text@),
            Delivery::Sms { body } => delivery_of(*c, sidecar) == (1int, body@),
            Delivery::Email { body } => delivery_of(*c, sidecar) == (2int, body@),
            Delivery::Nothing => delivery_of(*c, sidecar) == (3int, Seq::<char>::empty()),
        },
{
    let text = text_of(c);
    if !sidecar {
        return Delivery::Log { text };
    }
    if let Some(phone) = &c.recipient_phone {
        if chars_of(phone.as_str()).len() > 0 {
            let mut v: Vec<char> = Vec::new();
            append_str(&mut v, "{\"to\":");
            push_json_string(&mut v, phone.as_str());
            append_str(&mut v, ",\"message\":");
            push_json_string(&mut v, text.as_str());
            append_str(&mut v, "}");
            return Delivery::Sms { body: string_of(&v) };
        }
    }
    if let Some(email) = &c.recipient_email {
        if chars_of(email.as_str()).len() > 0 {
            let html = html_of(c);
            let mut v: Vec<char> = Vec::new();
            append_str(&mut v, "{\"to\":");
            push_json_string(&mut v, email.as_str());
            append_str(&mut v, ",\"subject\":");
            push_json_string(&mut v, "Gjafabréf — Golfsetrið Akureyri");
            append_str(&mut v, ",\"html\":");
            push_json_string(&mut v, html.as_str());
            append_str(&mut v, ",\"text\":");
            push_json_string(&mut v, text.as_str());
            append_str(&mut v, "}");
            return Delivery::Email { body: string_of(&v) };
        }
    }
    Delivery::Nothing
}

} // verus!
