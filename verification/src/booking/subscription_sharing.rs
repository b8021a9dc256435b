//! Subscription member sharing: phone-based invites, role-based access, and a
//! daily booking limit shared by every active member of a subscription.

use vstd::prelude::*;
use crate::text::{
    all_digits, append_chars, append_str, chars_of, clone_opt_string, i64_chars, int_str, is_digit, is_ws, opt_chars,
    opt_string_eq, owned, slice_chars, str_eq, string_of, trim, trim_chars,
};
use crate::booking::subscription::clamp0;

verus! {

/// One member row of a shared subscription. `role` is `owner` or `member`;
/// `status` is `active`, `invited` or `removed`.
#[derive(Debug)]
pub struct UserSubscriptionMember {
    pub id: String,
    pub user_subscription_id: String,
    pub user_id: Option<String>,
    pub role: String,
    pub status: String,
    pub invited_phone: Option<String>,
    pub invited_at: i64,
    pub accepted_at: Option<i64>,
    pub removed_at: Option<i64>,
}

impl PartialEq for UserSubscriptionMember {
    fn eq(&self, other: &UserSubscriptionMember) -> (r: bool) {
        self.id == other.id && self.user_subscription_id == other.user_subscription_id
            && opt_string_eq(&self.user_id, &other.user_id) && self.role == other.role
            && self.status == other.status && opt_string_eq(
            &self.invited_phone,
            &other.invited_phone,
        ) && self.invited_at == other.invited_at && self.accepted_at == other.accepted_at
            && self.removed_at == other.removed_at
    }
}

impl vstd::std_specs::cmp::PartialEqSpecImpl for UserSubscriptionMember {
    open spec fn obeys_eq_spec() -> bool {
        true
    }

    open spec fn eq_spec(&self, other: &UserSubscriptionMember) -> bool {
        &&& self.id@ == other.id@
        &&& self.user_subscription_id@ == other.user_subscription_id@
        &&& opt_chars(self.user_id) == opt_chars(other.user_id)
        &&& self.role@ == other.role@
        &&& self.status@ == other.status@
        &&& opt_chars(self.invited_phone) == opt_chars(other.invited_phone)
        &&& self.invited_at == other.invited_at
        &&& self.accepted_at == other.accepted_at
        &&& self.removed_at == other.removed_at
    }
}

impl Eq for UserSubscriptionMember {
}

impl Clone for UserSubscriptionMember {
    fn clone(&self) -> (r: UserSubscriptionMember)
        ensures
            r == *self,
    {
        UserSubscriptionMember {
            id: self.id.clone(),
            user_subscription_id: self.user_subscription_id.clone(),
            user_id: clone_opt_string(&self.user_id),
            role: self.role.clone(),
            status: self.status.clone(),
            invited_phone: clone_opt_string(&self.invited_phone),
            invited_at: self.invited_at,
            accepted_at: self.accepted_at,
            removed_at: self.removed_at,
        }
    }
}

/// The shared daily usage of a subscription, with its Icelandic label.
#[derive(Debug, Clone)]
pub struct SharedUsageSummary {
    pub used: i64,
    pub limit: i64,
    pub remaining: i64,
    pub exhausted: bool,
    pub label: String,
}

/// One row of the member roster shown to the owner.
#[derive(Debug)]
pub struct ListMemberView {
    pub id: String,
    pub user_id: Option<String>,
    pub name: Option<String>,
    pub phone: Option<String>,
    pub invited_phone: Option<String>,
    pub role: String,
    pub status: String,
    pub invited_at: i64,
    pub accepted_at: Option<i64>,
}

impl Clone for ListMemberView {
    fn clone(&self) -> (r: ListMemberView)
        ensures
            r == *self,
    {
        ListMemberView {
            id: self.id.clone(),
            user_id: clone_opt_string(&self.user_id),
            name: clone_opt_string(&self.name),
            phone: clone_opt_string(&self.phone),
            invited_phone: clone_opt_string(&self.invited_phone),
            role: self.role.clone(),
            status: self.status.clone(),
            invited_at: self.invited_at,
            accepted_at: self.accepted_at,
        }
    }
}

// ---- Phone normalization ----

/// The ASCII digits of `s`, in order.
pub open spec fn keep_digits(s: Seq<char>) -> Seq<char>
    decreases s.len(),
{
    if s.len() == 0 {
        seq![]
    } else if is_digit(s.last()) {
        keep_digits(s.drop_last()).push(s.last())
    } else {
        keep_digits(s.drop_last())
    }
}

/// Drops a leading `00`, then a leading `354`.
pub open spec fn strip_country_code(d: Seq<char>) -> Seq<char> {
    let d1 = if d.len() >= 2 && d.subrange(0, 2) == seq!['0', '0'] {
        d.subrange(2, d.len() as int)
    } else {
        d
    };
    if d1.len() >= 3 && d1.subrange(0, 3) == seq!['3', '5', '4'] {
        d1.subrange(3, d1.len() as int)
    } else {
        d1
    }
}

/// The normalized `+354XXXXXXX` form of an Icelandic phone number, or the
/// reason it is refused. A bare run of seven digits is a local number and
/// always gets `+354` in front; anything else has its non-digits dropped and
/// a leading `00` and `354` stripped before the seven-digit check.
pub open spec fn normalized_phone(input: Seq<char>) -> Result<Seq<char>, Seq<char>> {
    let raw = trim(input);
    if raw.len() == 0 {
        Err("Vantar símanúmer"@)
    } else if raw.len() == 7 && all_digits(raw) {
        Ok(seq!['+', '3', '5', '4'] + raw)
    } else {
        let d = strip_country_code(keep_digits(raw));
        if d.len() != 7 {
            Err("Ógilt símanúmer — notaðu íslenskt 7 stafa númer"@)
        } else {
            Ok(seq!['+', '3', '5', '4'] + d)
        }
    }
}

/// A `Result` of strings, by characters.
pub open spec fn result_chars(r: Result<String, String>) -> Result<Seq<char>, Seq<char>> {
    match r {
        Ok(s) => Ok(s@),
        Err(e) => Err(e@),
    }
}

fn all_digits_exec(v: &Vec<char>) -> (b: bool)
    ensures
        b == all_digits(v@),
{
    let mut i: usize = 0;
    while i < v.len()
        invariant
            i <= v.len(),
            forall|j: int| 0 <= j < i ==> is_digit(#[trigger] v@[j]),
        decreases v.len() - i,
    {
        if !('0' <= v[i] && v[i] <= '9') {
            return false;
        }
        i = i + 1;
    }
    true
}

fn keep_digits_exec(v: &Vec<char>) -> (r: Vec<char>)
    ensures
        r@ == keep_digits(v@),
{
    let mut r: Vec<char> = Vec::new();
    let mut i: usize = 0;
    while i < v.len()
        invariant
            i <= v.len(),
            r@ == keep_digits(v@.subrange(0, i as int)),
        decreases v.len() - i,
    {
        let ghost pre = v@.subrange(0, i + 1);
        assert(pre.drop_last() =~= v@.subrange(0, i as int));
        if '0' <= v[i] && v[i] <= '9' {
            r.push(v[i]);
        }
        i = i + 1;
    }
    assert(v@.subrange(0, v.len() as int) =~= v@);
    r
}

/// Normalize an Icelandic phone number to `+354XXXXXXX`. Accepts
/// `+354 XXXXXXX`, `00354 XXXXXXX`, `354 XXXXXXX` and bare `XXXXXXX`; every
/// non-digit is ignored.
pub fn normalize_subscription_invite_phone(input: &str) -> (r: Result<String, String>)
    ensures
        result_chars(r) == normalized_phone(input@),
{
    let raw = trim_chars(&chars_of(input));
    if raw.len() == 0 {
        return Err(owned("Vantar símanúmer"));
    }
    if raw.len() == 7 && all_digits_exec(&raw) {
        let mut local: Vec<char> = Vec::new();
        local.push('+');
        local.push('3');
        local.push('5');
        local.push('4');
        append_chars(&mut local, &raw);
        assert(local@ =~= seq!['+', '3', '5', '4'] + raw@);
        return Ok(string_of(&local));
    }
    let mut digits = keep_digits_exec(&raw);
    if digits.len() >= 2 && digits[0] == '0' && digits[1] == '0' {
        assert(digits@.subrange(0, 2) =~= seq!['0', '0']);
        digits = slice_chars(&digits, 2, digits.len());
    } else {
        assert(digits@.len() >= 2 ==> digits@.subrange(0, 2)[0] == digits@[0]);
        assert(digits@.len() >= 2 ==> digits@.subrange(0, 2)[1] == digits@[1]);
    }
    if digits.len() >= 3 && digits[0] == '3' && digits[1] == '5' && digits[2] == '4' {
        assert(digits@.subrange(0, 3) =~= seq!['3', '5', '4']);
        digits = slice_chars(&digits, 3, digits.len());
    } else {
        assert(digits@.len() >= 3 ==> digits@.subrange(0, 3)[0] == digits@[0]);
        assert(digits@.len() >= 3 ==> digits@.subrange(0, 3)[1] == digits@[1]);
        assert(digits@.len() >= 3 ==> digits@.subrange(0, 3)[2] == digits@[2]);
    }
    if digits.len() != 7 {
        return Err(owned("Ógilt símanúmer — notaðu íslenskt 7 stafa númer"));
    }
    let mut out: Vec<char> = Vec::new();
    out.push('+');
    out.push('3');
    out.push('5');
    out.push('4');
    append_chars(&mut out, &digits);
    assert(out@ =~= seq!['+', '3', '5', '4'] + digits@);
    Ok(string_of(&out))
}

/// The masked form of a phone: its first and last four characters around
/// `****`.
pub open spec fn masked_phone(p: Seq<char>) -> Seq<char> {
    p.subrange(0, 4) + seq!['*', '*', '*', '*'] + p.subrange(p.len() - 4, p.len() as int)
}

/// Mask a phone number for display: the normalized number with only its
/// first and last four characters shown.
pub fn mask_subscription_phone(phone: &str) -> (r: Result<String, String>)
    ensures
        result_chars(r) == match normalized_phone(phone@) {
            Ok(p) => Ok(masked_phone(p)),
            Err(e) => Err(e),
        },
{
    let normalized = match normalize_subscription_invite_phone(phone) {
        Ok(n) => n,
        Err(e) => return Err(e),
    };
    let v = chars_of(normalized.as_str());
    let mut out = slice_chars(&v, 0, 4);
    out.push('*');
    out.push('*');
    out.push('*');
    out.push('*');
    let tail = slice_chars(&v, v.len() - 4, v.len());
    append_chars(&mut out, &tail);
    assert(out@ =~= masked_phone(v@));
    Ok(string_of(&out))
}

/// Normalization is idempotent: a normalized number normalizes to itself.
pub proof fn lemma_normalize_idempotent(input: Seq<char>)
    requires
        normalized_phone(input) is Ok,
    ensures
        normalized_phone(normalized_phone(input)->Ok_0) == normalized_phone(input),
{
    let p = normalized_phone(input)->Ok_0;
    let d = p.subrange(4, 11);
    let raw = trim(input);
    if raw.len() == 7 && all_digits(raw) {
        assert(p =~= seq!['+', '3', '5', '4'] + raw);
        assert(d =~= raw);
    } else {
        assert(p =~= seq!['+', '3', '5', '4'] + d);
        let k = keep_digits(trim(input));
        let d0 = strip_country_code(k);
        assert(d0 =~= d);
        lemma_keep_digits_all_digits(trim(input));
        lemma_strip_suffix(k);
        let off = choose|off: int|
            0 <= off <= k.len() && strip_country_code(k) == k.subrange(off, k.len() as int);
        assert forall|i: int| 0 <= i < d.len() implies is_digit(#[trigger] d[i]) by {
            assert(d[i] == d0[i]);
            assert(d0[i] == k.subrange(off, k.len() as int)[i]);
            assert(k.subrange(off, k.len() as int)[i] == k[i + off]);
            assert(0 <= i + off < k.len());
            assert(is_digit(keep_digits(trim(input))[i + off]));
        }
    }
    assert(p =~= seq!['+', '3', '5', '4'] + d);
    assert forall|i: int| 1 <= i < p.len() implies is_digit(#[trigger] p[i]) by {
        if i >= 4 {
            assert(p[i] == d[i - 4]);
        } else {
            assert(p[i] == seq!['+', '3', '5', '4'][i]);
        }
    }
    lemma_trim_plain(p);
    assert(!all_digits(trim(p))) by {
        assert(!is_digit(trim(p)[0]));
    }
    lemma_keep_digits_digits(p);
    let kp = keep_digits(p);
    assert(kp =~= seq!['3', '5', '4'] + d);
    assert(!(kp.len() >= 2 && kp.subrange(0, 2) == seq!['0', '0'])) by {
        assert(kp.subrange(0, 2)[0] == '3');
    }
    assert(kp.subrange(0, 3) =~= seq!['3', '5', '4']);
    assert(kp.subrange(3, kp.len() as int) =~= d);
}

proof fn lemma_keep_digits_all_digits(s: Seq<char>)
    ensures
        forall|i: int| 0 <= i < keep_digits(s).len() ==> is_digit(#[trigger] keep_digits(s)[i]),
    decreases s.len(),
{
    if s.len() > 0 {
        lemma_keep_digits_all_digits(s.drop_last());
        let r = keep_digits(s.drop_last());
        if is_digit(s.last()) {
            assert forall|i: int| 0 <= i < keep_digits(s).len() implies is_digit(
                #[trigger] keep_digits(s)[i],
            ) by {
                if i < r.len() {
                    assert(keep_digits(s)[i] == r[i]);
                }
            }
        }
    }
}

/// Stripping a country code keeps a suffix.
proof fn lemma_strip_suffix(k: Seq<char>)
    ensures
        exists|off: int|
            0 <= off <= k.len() && strip_country_code(k) == k.subrange(off, k.len() as int),
{
    let d1 = if k.len() >= 2 && k.subrange(0, 2) == seq!['0', '0'] {
        k.subrange(2, k.len() as int)
    } else {
        k
    };
    let o1: int = if k.len() >= 2 && k.subrange(0, 2) == seq!['0', '0'] {
        2
    } else {
        0
    };
    assert(d1 =~= k.subrange(o1, k.len() as int));
    if d1.len() >= 3 && d1.subrange(0, 3) == seq!['3', '5', '4'] {
        assert(strip_country_code(k) =~= k.subrange(o1 + 3, k.len() as int));
    } else {
        assert(strip_country_code(k) =~= k.subrange(o1, k.len() as int));
    }
}

/// `keep_digits` of `+` then digits is the digits.
proof fn lemma_keep_digits_digits(p: Seq<char>)
    requires
        p.len() >= 1,
        p[0] == '+',
        forall|i: int| 1 <= i < p.len() ==> is_digit(#[trigger] p[i]),
    ensures
        keep_digits(p) =~= p.subrange(1, p.len() as int),
    decreases p.len(),
{
    if p.len() > 1 {
        assert(is_digit(p[p.len() - 1]));
        assert(p.drop_last()[0] == '+');
        lemma_keep_digits_digits(p.drop_last());
        assert(p.drop_last().subrange(1, p.len() - 1) =~= p.subrange(1, p.len() - 1));
        assert(p.subrange(1, p.len() - 1).push(p.last()) =~= p.subrange(1, p.len() as int));
    } else {
        assert(p.drop_last() =~= Seq::<char>::empty());
        assert(!is_digit(p.last()));
        assert(keep_digits(p) == keep_digits(p.drop_last()));
    }
}

/// `trim` leaves a sequence of `+` and digits unchanged.
proof fn lemma_trim_plain(p: Seq<char>)
    requires
        p.len() >= 1,
        p[0] == '+',
        forall|i: int| 1 <= i < p.len() ==> is_digit(#[trigger] p[i]),
    ensures
        trim(p) == p,
{
    assert(!is_ws(p[0]));
    assert(crate::text::trim_start(p) == p);
    assert(!is_ws(p.last()));
    assert(crate::text::trim_end(p) == p);
}

/// The group's usage label, e.g. `2 af 5 tímum notaðir í dag af hópnum`.
pub open spec fn usage_label(used: int, limit: int) -> Seq<char> {
    int_str(used) + " af "@ + int_str(limit) + " tímum notaðir í dag af hópnum"@
}

/// `s` summarizes `used` bookings today against `daily_limit`, negatives
/// clamped to zero.
pub open spec fn summarizes(s: SharedUsageSummary, daily_limit: int, used_today: int) -> bool {
    &&& s.limit == clamp0(daily_limit)
    &&& s.used == clamp0(used_today)
    &&& s.remaining == clamp0(s.limit - s.used)
    &&& s.exhausted == (s.remaining == 0)
    &&& s.label@ == usage_label(s.used as int, s.limit as int)
}

/// Summarize shared subscription daily usage across all active members,
/// clamping negatives to zero.
pub fn summarize_shared_subscription_usage(daily_limit: i64, used_today: i64) -> (s: SharedUsageSummary)
    ensures
        summarizes(s, daily_limit as int, used_today as int),
{
    let limit = if daily_limit > 0 {
        daily_limit
    } else {
        0
    };
    let used = if used_today > 0 {
        used_today
    } else {
        0
    };
    let diff = limit - used;
    let remaining = if diff > 0 {
        diff
    } else {
        0
    };
    let mut label = i64_chars(used);
    append_str(&mut label, " af ");
    let l = i64_chars(limit);
    append_chars(&mut label, &l);
    append_str(&mut label, " tímum notaðir í dag af hópnum");
    SharedUsageSummary {
        used,
        limit,
        remaining,
        exhausted: remaining == 0,
        label: string_of(&label),
    }
}

/// The Icelandic label of a member status.
pub open spec fn status_label(status: Seq<char>) -> Seq<char> {
    if status == "active"@ {
        "Virkur"@
    } else if status == "invited"@ {
        "Boð sent"@
    } else {
        "Fjarlægður"@
    }
}

/// A human-readable status label in Icelandic.
pub fn get_member_status_label(status: &str) -> (r: &'static str)
    ensures
        r@ == status_label(status@),
{
    if str_eq(status, "active") {
        "Virkur"
    } else if str_eq(status, "invited") {
        "Boð sent"
    } else {
        "Fjarlægður"
    }
}

} // verus!
