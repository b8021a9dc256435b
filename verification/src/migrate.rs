//! Moving the old SQLite site's data into the stores. Every row read from
//! the old database becomes one or two writes: a collection record (with the
//! collection's sequence counter set to its id) or a record under its own key
//! in one of the keyed stores. Reading the database and applying the writes
//! is the caller's part.

use vstd::prelude::*;
use vstd::utf8::encode_utf8;
use vstd::seq_lib::lemma_concat_associative;
use crate::json::{json_string, push_json_string};
use crate::text::{
    find, append_chars, append_str, chars_of, i64_chars, int_str, lower_chars, lower_seq, lowercased, owned,
    parse_i64, parse_i64_spec, parse_unsigned, parse_unsigned_spec, slice_chars, string_of, to_lowercase, trim,
    trim_chars,
};
use crate::booking::time::days_from_civil_spec;
use crate::ws::frame::{be_bytes, push_be_bytes};

verus! {

// ---------------------------------------------------------------------------
// Rows of the old database
// ---------------------------------------------------------------------------

#[derive(Clone, Debug)]
pub struct CatRow {
    pub id: String,
    pub name: String,
    pub slug: String,
    pub description: Option<String>,
    pub position: i64,
    pub active: bool,
    pub created_at: i64,
    pub updated_at: i64,
}

#[derive(Clone, Debug)]
pub struct ProdRow {
    pub name: String,
    pub description: Option<String>,
    pub price: i64,
    pub image_url: Option<String>,
    pub category_id: Option<String>,
    pub active: bool,
    pub position: i64,
    pub created_at: i64,
    pub updated_at: i64,
}

#[derive(Clone, Debug)]
pub struct PkgRow {
    pub name: String,
    pub slot_count: i64,
    pub price: i64,
    pub active: bool,
}

#[derive(Clone, Debug)]
pub struct SubRow {
    pub name: String,
    pub valid_from: String,
    pub valid_until: String,
    pub daily_limit: i64,
    pub price: i64,
    pub shareable: bool,
    pub max_members: i64,
    pub active: bool,
}

#[derive(Clone, Debug)]
pub struct PrRow {
    pub name: String,
    pub start_hour: i64,
    pub end_hour: i64,
    pub price: i64,
    pub active: bool,
}

#[derive(Clone, Debug)]
pub struct GcRow {
    pub id: String,
    pub code: String,
    pub amount: i64,
    pub balance: i64,
    pub currency: String,
    pub status: String,
    pub expires_at: Option<i64>,
    pub delivery_at: Option<i64>,
    pub delivered_at: Option<i64>,
    pub purchased_by_user_id: Option<String>,
    pub cart_id: Option<String>,
    pub recipient_email: Option<String>,
    pub recipient_phone: Option<String>,
    pub recipient_name: Option<String>,
    pub message: Option<String>,
    pub created_at: i64,
    pub updated_at: i64,
}

#[derive(Clone, Debug)]
pub struct SmsRow {
    pub key: String,
    pub body: String,
    pub updated_at: i64,
}

#[derive(Clone, Debug)]
pub struct EmRow {
    pub key: String,
    pub subject: String,
    pub body_html: String,
    pub language: String,
    pub updated_at: i64,
}

#[derive(Clone, Debug)]
pub struct BtRow {
    pub bank_name: String,
    pub account_holder: String,
    pub kennitala: String,
    pub account_number: String,
    pub updated_at: i64,
}

#[derive(Clone, Debug)]
pub struct NotifRow {
    pub admin_copy_enabled: bool,
    pub admin_email: String,
    pub admin_phone: Option<String>,
    pub updated_at: i64,
}

#[derive(Clone, Debug)]
pub struct LbRow {
    pub api_base_url: String,
    pub user_id: String,
    pub api_key: String,
    pub entity_id: String,
    pub payment_contract_id: String,
    pub interaction_type: String,
    pub updated_at: i64,
}

#[derive(Clone, Debug)]
pub struct PdRow {
    pub enabled: bool,
    pub api_base_url: String,
    pub client_id: String,
    pub client_secret: String,
    pub default_vat_percentage: i64,
    pub create_electronic_invoice: bool,
    pub send_email: bool,
    pub create_claim: bool,
    pub due_days: i64,
    pub final_due_days: i64,
    pub updated_at: i64,
}

#[derive(Clone, Debug)]
pub struct UsrRow {
    pub id: String,
    pub name: String,
    pub email: Option<String>,
    pub phone: Option<String>,
    pub role: String,
    pub fixed_price: Option<i64>,
    pub kennitala: Option<String>,
    pub payday_customer_id: Option<String>,
    pub created_at: i64,
    pub updated_at: i64,
}

#[derive(Clone, Debug)]
pub struct AuRow {
    pub email: String,
}

#[derive(Clone, Debug)]
pub struct SessRow {
    pub token: String,
    pub email: String,
    pub created_sec: i64,
    pub expires_sec: i64,
}

#[derive(Clone, Debug)]
pub struct BkRow {
    pub id: String,
    pub user_id: String,
    pub starts_at: i64,
    pub status: String,
    pub payment_type: String,
    pub price_paid: Option<i64>,
    pub user_package_id: Option<String>,
    pub user_subscription_id: Option<String>,
    pub notes: Option<String>,
    pub created_at: i64,
    pub cancelled_at: Option<i64>,
}

#[derive(Clone, Debug)]
pub struct BuRow {
    pub id: String,
    pub fixed_price: Option<i64>,
}

#[derive(Clone, Debug)]
pub struct UpRow {
    pub id: String,
    pub user_id: String,
    pub remaining: i64,
    pub package_name: String,
    pub slot_count: i64,
}

#[derive(Clone, Debug)]
pub struct UsRow {
    pub id: String,
    pub user_id: String,
    pub sub_id: String,
    pub valid_from: String,
    pub valid_until: String,
}

#[derive(Clone, Debug)]
pub struct SmRow {
    pub id: String,
    pub user_subscription_id: String,
    pub user_id: Option<String>,
    pub role: String,
    pub status: String,
    pub invited_phone: Option<String>,
    pub invited_at: i64,
    pub accepted_at: Option<i64>,
    pub removed_at: Option<i64>,
}

#[derive(Clone, Debug)]
pub struct CtRow {
    pub id: String,
    pub user_id: Option<String>,
    pub status: String,
    pub currency: String,
    pub created_at: i64,
    pub updated_at: i64,
}

/// A cart line. `metadata` is the JSON text of the stored metadata once
/// parsed and written back, `None` where it was absent or did not parse.
#[derive(Clone, Debug)]
pub struct CiRow {
    pub id: String,
    pub cart_id: String,
    pub itype: String,
    pub ref_id: String,
    pub name_snapshot: String,
    pub unit_price: i64,
    pub quantity: i64,
    pub metadata: Option<String>,
    pub created_at: i64,
}

#[derive(Clone, Debug)]
pub struct GcrRow {
    pub id: String,
    pub gift_card_id: String,
    pub cart_id: Option<String>,
    pub payment_id: Option<String>,
    pub amount: i64,
    pub redeemed_at: i64,
}

/// A payment. `raw_payload` is the JSON text of the stored payload once
/// parsed and written back, `None` where it was absent or did not parse.
#[derive(Clone, Debug)]
pub struct PayRow {
    pub id: String,
    pub cart_id: Option<String>,
    pub user_id: Option<String>,
    pub provider: String,
    pub provider_ref: String,
    pub status: String,
    pub amount: i64,
    pub currency: String,
    pub raw_payload: Option<String>,
    pub created_at: i64,
    pub updated_at: i64,
}

/// Everything read from the old database. `sub_info` holds each
/// subscription plan's id and daily limit, in the order read.
#[derive(Clone, Debug)]
pub struct AllData {
    pub product_categories: Vec<CatRow>,
    pub products: Vec<ProdRow>,
    pub packages: Vec<PkgRow>,
    pub subscriptions: Vec<SubRow>,
    pub pricing_rules: Vec<PrRow>,
    pub gift_cards: Vec<GcRow>,
    pub sms_templates: Vec<SmsRow>,
    pub email_templates: Vec<EmRow>,
    pub bank_transfer: Option<BtRow>,
    pub notifications: Option<NotifRow>,
    pub landsbankinn: Option<LbRow>,
    pub payday: Option<PdRow>,
    pub users: Vec<UsrRow>,
    pub auth_users: Vec<AuRow>,
    pub auth_sessions: Vec<SessRow>,
    pub bookings: Vec<BkRow>,
    pub booking_users: Vec<BuRow>,
    pub user_packages: Vec<UpRow>,
    pub user_subs: Vec<UsRow>,
    pub sub_members: Vec<SmRow>,
    pub carts: Vec<CtRow>,
    pub cart_items: Vec<CiRow>,
    pub gc_redemptions: Vec<GcrRow>,
    pub payments: Vec<PayRow>,
    pub sub_info: Vec<(String, i64)>,
}

// ---------------------------------------------------------------------------
// Writes
// ---------------------------------------------------------------------------

/// The store a write goes to.
#[derive(Clone, Copy, Debug, PartialEq, Eq, Hash, Structural)]
pub enum Target {
    Collections,
    AuthUsers,
    AuthSessions,
    Bookings,
    UserPackages,
    UserSubscriptions,
    SubscriptionMembers,
    BookingUsers,
    Carts,
    CartItems,
    GiftCards,
    GiftCardRedemptions,
    Payments,
    CheckoutGiftCards,
    AdminSettings,
}

/// One record to store: `value` under `key` in `target`.
#[derive(Debug)]
pub struct Write {
    pub target: Target,
    pub key: Vec<u8>,
    pub value: Vec<u8>,
}

/// A write as plain values.
pub open spec fn write_view(w: Write) -> (Target, Seq<u8>, Seq<u8>) {
    (w.target, w.key@, w.value@)
}

pub open spec fn writes_view(ws: Seq<Write>) -> Seq<(Target, Seq<u8>, Seq<u8>)> {
    ws.map_values(|w: Write| write_view(w))
}

// ---------------------------------------------------------------------------
// JSON records
// ---------------------------------------------------------------------------

/// A record's members: each key with the JSON text of its value.
pub type Fields = Seq<(Seq<char>, Seq<char>)>;

pub open spec fn member(k: Seq<char>, v: Seq<char>) -> Seq<char> {
    json_string(k) + ":"@ + v
}

/// The members' JSON text, comma-separated, first to last.
pub open spec fn members_text(f: Fields) -> Seq<char>
    decreases f.len(),
{
    if f.len() == 0 {
        seq![]
    } else if f.len() == 1 {
        member(f[0].0, f[0].1)
    } else {
        members_text(f.drop_last()) + ","@ + member(f.last().0, f.last().1)
    }
}

/// The JSON object with members `f`, in that order.
pub open spec fn object(f: Fields) -> Seq<char> {
    "{"@ + members_text(f) + "}"@
}

pub open spec fn jbool(b: bool) -> Seq<char> {
    if b {
        "true"@
    } else {
        "false"@
    }
}

pub open spec fn jnull() -> Seq<char> {
    "null"@
}

pub open spec fn jint(n: i64) -> Seq<char> {
    int_str(n as int)
}

pub open spec fn jopt_str(o: Option<String>) -> Seq<char> {
    match o {
        Some(s) => json_string(s@),
        None => jnull(),
    }
}

pub open spec fn jopt_int(o: Option<i64>) -> Seq<char> {
    match o {
        Some(n) => jint(n),
        None => jnull(),
    }
}

/// A member that is there only when the value is.
pub open spec fn opt_str_member(k: Seq<char>, o: Option<String>) -> Fields {
    match o {
        Some(s) => seq![(k, json_string(s@))],
        None => seq![],
    }
}

pub open spec fn opt_int_member(k: Seq<char>, o: Option<i64>) -> Fields {
    match o {
        Some(n) => seq![(k, jint(n))],
        None => seq![],
    }
}

pub open spec fn fields_view(v: Seq<(String, Vec<char>)>) -> Fields {
    v.map_values(|p: (String, Vec<char>)| (p.0@, p.1@))
}

proof fn lemma_fields_push(v: Seq<(String, Vec<char>)>, p: (String, Vec<char>))
    ensures
        fields_view(v.push(p)) == fields_view(v).push((p.0@, p.1@)),
{
    assert(fields_view(v.push(p)) =~= fields_view(v).push((p.0@, p.1@)));
}

fn push_value(f: &mut Vec<(String, Vec<char>)>, k: &str, v: Vec<char>)
    ensures
        fields_view(final(f)@) == fields_view(old(f)@).push((k@, v@)),
{
    let p = (owned(k), v);
    proof {
        lemma_fields_push(f@, p);
    }
    f.push(p);
}

fn f_str(f: &mut Vec<(String, Vec<char>)>, k: &str, s: &str)
    ensures
        fields_view(final(f)@) == fields_view(old(f)@).push((k@, json_string(s@))),
{
    let mut v: Vec<char> = Vec::new();
    push_json_string(&mut v, s);
    push_value(f, k, v);
}

fn f_int(f: &mut Vec<(String, Vec<char>)>, k: &str, n: i64)
    ensures
        fields_view(final(f)@) == fields_view(old(f)@).push((k@, jint(n))),
{
    push_value(f, k, i64_chars(n));
}

fn f_bool(f: &mut Vec<(String, Vec<char>)>, k: &str, b: bool)
    ensures
        fields_view(final(f)@) == fields_view(old(f)@).push((k@, jbool(b))),
{
    let v = if b {
        chars_of("true")
    } else {
        chars_of("false")
    };
    push_value(f, k, v);
}

fn f_opt_str(f: &mut Vec<(String, Vec<char>)>, k: &str, o: &Option<String>)
    ensures
        fields_view(final(f)@) == fields_view(old(f)@).push((k@, jopt_str(*o))),
{
    match o {
        Some(s) => f_str(f, k, s.as_str()),
        None => push_value(f, k, chars_of("null")),
    }
}

fn f_opt_int(f: &mut Vec<(String, Vec<char>)>, k: &str, o: Option<i64>)
    ensures
        fields_view(final(f)@) == fields_view(old(f)@).push((k@, jopt_int(o))),
{
    match o {
        Some(n) => f_int(f, k, n),
        None => push_value(f, k, chars_of("null")),
    }
}

fn f_some_str(f: &mut Vec<(String, Vec<char>)>, k: &str, o: &Option<String>)
    ensures
        fields_view(final(f)@) == fields_view(old(f)@) + opt_str_member(k@, *o),
{
    match o {
        Some(s) => f_str(f, k, s.as_str()),
        None => {
            assert(fields_view(f@) + opt_str_member(k@, *o) =~= fields_view(f@));
        },
    }
}

fn f_some_int(f: &mut Vec<(String, Vec<char>)>, k: &str, o: Option<i64>)
    ensures
        fields_view(final(f)@) == fields_view(old(f)@) + opt_int_member(k@, o),
{
    match o {
        Some(n) => f_int(f, k, n),
        None => {
            assert(fields_view(f@) + opt_int_member(k@, o) =~= fields_view(f@));
        },
    }
}

/// The UTF-8 bytes of `s`.
fn utf8_of(s: &str) -> (r: Vec<u8>)
    ensures
        r@ == encode_utf8(s@),
{
    let b = s.as_bytes();
    let mut out: Vec<u8> = Vec::new();
    let mut i: usize = 0;
    while i < b.len()
        invariant
            i <= b@.len(),
            b@ == encode_utf8(s@),
            out@ =~= b@.subrange(0, i as int),
        decreases b@.len() - i,
    {
        out.push(b[i]);
        i = i + 1;
    }
    out
}

fn utf8_of_chars(v: &Vec<char>) -> (r: Vec<u8>)
    ensures
        r@ == encode_utf8(v@),
{
    let s = string_of(v);
    utf8_of(s.as_str())
}

/// The stored bytes of a record with members `f`.
fn object_bytes(f: &Vec<(String, Vec<char>)>) -> (r: Vec<u8>)
    ensures
        r@ == encode_utf8(object(fields_view(f@))),
{
    let ghost all = fields_view(f@);
    let mut out: Vec<char> = Vec::new();
    out.push('{');
    let mut i: usize = 0;
    while i < f.len()
        invariant
            i <= f@.len(),
            all == fields_view(f@),
            out@ == seq!['{'] + members_text(all.subrange(0, i as int)),
        decreases f@.len() - i,
    {
        let ghost pre = out@;
        if i > 0 {
            out.push(',');
        }
        push_json_string(&mut out, f[i].0.as_str());
        out.push(':');
        append_chars(&mut out, &f[i].1);
        let ghost next = all.subrange(0, i + 1);
        assert(next.drop_last() =~= all.subrange(0, i as int));
        assert(next.last() == (f@[i as int].0@, f@[i as int].1@));
        if i > 0 {
            assert(out@ =~= pre + ","@ + member(next.last().0, next.last().1)) by {
                reveal_strlit(",");
                reveal_strlit(":");
            }
        } else {
            assert(out@ =~= pre + member(next.last().0, next.last().1)) by {
                reveal_strlit(":");
            }
        }
        i = i + 1;
    }
    assert(all.subrange(0, f@.len() as int) =~= all);
    out.push('}');
    proof {
        reveal_strlit("{");
        reveal_strlit("}");
        assert(out@ =~= object(all));
    }
    utf8_of_chars(&out)
}

// ---------------------------------------------------------------------------
// Collection records
// ---------------------------------------------------------------------------

/// The key of record `id` of collection `name`: `coll:{name}:` and the id as
/// eight big-endian bytes.
pub open spec fn coll_key(name: Seq<char>, id: nat) -> Seq<u8> {
    encode_utf8("coll:"@ + name + ":"@) + be_bytes(id, 8)
}

/// The key of collection `name`'s sequence counter.
pub open spec fn seq_key(name: Seq<char>) -> Seq<u8> {
    encode_utf8("coll:"@ + name + ":_seq"@)
}

/// The members every collection record starts with.
pub open spec fn record_head(id: nat, now: i64) -> Fields {
    seq![("id"@, int_str(id as int)), ("created"@, jint(now))]
}

/// Record `id` of collection `name`: the counter set to `id`, then the record.
pub open spec fn coll_writes(name: Seq<char>, id: nat, now: i64, body: Fields) -> Seq<(Target, Seq<u8>, Seq<u8>)> {
    seq![
        (Target::Collections, seq_key(name), be_bytes(id, 8)),
        (Target::Collections, coll_key(name, id), encode_utf8(object(record_head(id, now) + body))),
    ]
}

fn push_write(out: &mut Vec<Write>, target: Target, key: Vec<u8>, value: Vec<u8>)
    ensures
        writes_view(final(out)@) == writes_view(old(out)@).push((target, key@, value@)),
{
    let w = Write { target, key, value };
    let ghost pre = out@;
    out.push(w);
    assert(writes_view(out@) =~= writes_view(pre).push((target, w.key@, w.value@)));
}

fn name_key(name: &str, tail: &str) -> (r: Vec<u8>)
    ensures
        r@ == encode_utf8("coll:"@ + name@ + tail@),
{
    let mut v: Vec<char> = Vec::new();
    append_str(&mut v, "coll:");
    append_str(&mut v, name);
    append_str(&mut v, tail);
    utf8_of_chars(&v)
}

fn push_coll(out: &mut Vec<Write>, name: &str, id: u64, now: i64, body: &Vec<(String, Vec<char>)>)
    requires
        id <= i64::MAX,
    ensures
        writes_view(final(out)@) == writes_view(old(out)@) + coll_writes(name@, id as nat, now, fields_view(body@)),
{
    let ghost pre = writes_view(out@);
    let mut counter: Vec<u8> = Vec::new();
    push_be_bytes(&mut counter, id, 8);
    push_write(out, Target::Collections, name_key(name, ":_seq"), counter);
    let mut key = name_key(name, ":");
    push_be_bytes(&mut key, id, 8);
    let mut f: Vec<(String, Vec<char>)> = Vec::new();
    f_int(&mut f, "id", id as i64);
    f_int(&mut f, "created", now);
    let ghost head = fields_view(f@);
    assert(head =~= record_head(id as nat, now));
    let mut i: usize = 0;
    while i < body.len()
        invariant
            i <= body@.len(),
            fields_view(f@) == head + fields_view(body@).subrange(0, i as int),
        decreases body@.len() - i,
    {
        let p = (body[i].0.clone(), body[i].1.clone());
        proof {
            lemma_fields_push(f@, p);
        }
        f.push(p);
        assert(fields_view(body@).subrange(0, i + 1) =~= fields_view(body@).subrange(0, i as int).push(
            (p.0@, p.1@),
        ));
        i = i + 1;
    }
    assert(fields_view(body@).subrange(0, body@.len() as int) =~= fields_view(body@));
    push_write(out, Target::Collections, key, object_bytes(&f));
    assert(writes_view(out@) =~= pre + coll_writes(name@, id as nat, now, fields_view(body@)));
}

/// A row that becomes a collection record.
pub trait CollectionRow: Sized {
    /// The record's members after `id` and `created`.
    spec fn body(&self) -> Fields;

    fn body_fields(&self) -> (f: Vec<(String, Vec<char>)>)
        ensures
            fields_view(f@) == self.body(),
    ;
}

/// The writes of `rows` as records `first`, `first + 1`, ... of collection
/// `name`.
pub open spec fn coll_rows<R: CollectionRow>(name: Seq<char>, rows: Seq<R>, first: nat, now: i64) -> Seq<
    (Target, Seq<u8>, Seq<u8>),
>
    decreases rows.len(),
{
    if rows.len() == 0 {
        seq![]
    } else {
        coll_rows(name, rows.drop_last(), first, now) + coll_writes(
            name,
            (first + rows.len() - 1) as nat,
            now,
            rows.last().body(),
        )
    }
}

fn emit_coll<R: CollectionRow>(out: &mut Vec<Write>, name: &str, rows: &Vec<R>, first: u64, now: i64)
    requires
        1 <= first,
        first + rows@.len() <= i64::MAX,
    ensures
        writes_view(final(out)@) == writes_view(old(out)@) + coll_rows(name@, rows@, first as nat, now),
{
    let ghost pre = writes_view(out@);
    let mut i: usize = 0;
    while i < rows.len()
        invariant
            i <= rows@.len(),
            1 <= first,
            first + rows@.len() <= i64::MAX,
            writes_view(out@) == pre + coll_rows(name@, rows@.subrange(0, i as int), first as nat, now),
        decreases rows@.len() - i,
    {
        let body = rows[i].body_fields();
        push_coll(out, name, first + i as u64, now, &body);
        let ghost next = rows@.subrange(0, i + 1);
        assert(next.drop_last() =~= rows@.subrange(0, i as int));
        assert(next.last() == rows@[i as int]);
        assert(writes_view(out@) =~= pre + coll_rows(name@, next, first as nat, now));
        i = i + 1;
    }
    assert(rows@.subrange(0, rows@.len() as int) =~= rows@);
}

/// A single settings row: record 1 of its collection, when there is one.
pub open spec fn singleton<R: CollectionRow>(name: Seq<char>, row: Option<R>, now: i64) -> Seq<
    (Target, Seq<u8>, Seq<u8>),
> {
    match row {
        Some(r) => coll_writes(name, 1, now, r.body()),
        None => seq![],
    }
}

fn emit_singleton<R: CollectionRow>(out: &mut Vec<Write>, name: &str, row: &Option<R>, now: i64)
    ensures
        writes_view(final(out)@) == writes_view(old(out)@) + singleton(name@, *row, now),
{
    match row {
        Some(r) => {
            let body = r.body_fields();
            push_coll(out, name, 1, now, &body);
        },
        None => {
            assert(writes_view(out@) + singleton(name@, *row, now) =~= writes_view(out@));
        },
    }
}

impl CollectionRow for CatRow {
    open spec fn body(&self) -> Fields {
        seq![
            ("name"@, json_string(self.name@)),
            ("slug"@, json_string(self.slug@)),
            ("position"@, jint(self.position)),
            ("active"@, jbool(self.active)),
            ("created_at"@, jint(self.created_at)),
            ("updated_at"@, jint(self.updated_at)),
        ] + opt_str_member("description"@, self.description)
    }

    fn body_fields(&self) -> (f: Vec<(String, Vec<char>)>) {
        let mut f: Vec<(String, Vec<char>)> = Vec::new();
        f_str(&mut f, "name", self.name.as_str());
        f_str(&mut f, "slug", self.slug.as_str());
        f_int(&mut f, "position", self.position);
        f_bool(&mut f, "active", self.active);
        f_int(&mut f, "created_at", self.created_at);
        f_int(&mut f, "updated_at", self.updated_at);
        f_some_str(&mut f, "description", &self.description);
        f
    }
}

impl CollectionRow for PkgRow {
    open spec fn body(&self) -> Fields {
        seq![
            ("name"@, json_string(self.name@)),
            ("slot_count"@, jint(self.slot_count)),
            ("price"@, jint(self.price)),
            ("active"@, jbool(self.active)),
        ]
    }

    fn body_fields(&self) -> (f: Vec<(String, Vec<char>)>) {
        let mut f: Vec<(String, Vec<char>)> = Vec::new();
        f_str(&mut f, "name", self.name.as_str());
        f_int(&mut f, "slot_count", self.slot_count);
        f_int(&mut f, "price", self.price);
        f_bool(&mut f, "active", self.active);
        f
    }
}

impl CollectionRow for SubRow {
    open spec fn body(&self) -> Fields {
        seq![
            ("name"@, json_string(self.name@)),
            ("valid_from"@, json_string(self.valid_from@)),
            ("valid_until"@, json_string(self.valid_until@)),
            ("daily_limit"@, jint(self.daily_limit)),
            ("price"@, jint(self.price)),
            ("shareable"@, jbool(self.shareable)),
            ("max_members"@, jint(self.max_members)),
            ("active"@, jbool(self.active)),
        ]
    }

    fn body_fields(&self) -> (f: Vec<(String, Vec<char>)>) {
        let mut f: Vec<(String, Vec<char>)> = Vec::new();
        f_str(&mut f, "name", self.name.as_str());
        f_str(&mut f, "valid_from", self.valid_from.as_str());
        f_str(&mut f, "valid_until", self.valid_until.as_str());
        f_int(&mut f, "daily_limit", self.daily_limit);
        f_int(&mut f, "price", self.price);
        f_bool(&mut f, "shareable", self.shareable);
        f_int(&mut f, "max_members", self.max_members);
        f_bool(&mut f, "active", self.active);
        f
    }
}

impl CollectionRow for PrRow {
    open spec fn body(&self) -> Fields {
        seq![
            ("name"@, json_string(self.name@)),
            ("start_hour"@, jint(self.start_hour)),
            ("end_hour"@, jint(self.end_hour)),
            ("price"@, jint(self.price)),
            ("active"@, jbool(self.active)),
        ]
    }

    fn body_fields(&self) -> (f: Vec<(String, Vec<char>)>) {
        let mut f: Vec<(String, Vec<char>)> = Vec::new();
        f_str(&mut f, "name", self.name.as_str());
        f_int(&mut f, "start_hour", self.start_hour);
        f_int(&mut f, "end_hour", self.end_hour);
        f_int(&mut f, "price", self.price);
        f_bool(&mut f, "active", self.active);
        f
    }
}

/// A gift card in the `gift_cards` collection: the optional members only
/// where they have a value.
impl CollectionRow for GcRow {
    open spec fn body(&self) -> Fields {
        seq![
            ("code"@, json_string(self.code@)),
            ("amount"@, jint(self.amount)),
            ("balance"@, jint(self.balance)),
            ("currency"@, json_string(self.currency@)),
            ("status"@, json_string(self.status@)),
            ("created_at"@, jint(self.created_at)),
            ("updated_at"@, jint(self.updated_at)),
        ] + opt_int_member("expires_at"@, self.expires_at) + opt_int_member("delivery_at"@, self.delivery_at)
            + opt_int_member("delivered_at"@, self.delivered_at) + opt_str_member(
            "recipient_email"@,
            self.recipient_email,
        ) + opt_str_member("recipient_phone"@, self.recipient_phone) + opt_str_member(
            "recipient_name"@,
            self.recipient_name,
        ) + opt_str_member("message"@, self.message)
    }

    fn body_fields(&self) -> (f: Vec<(String, Vec<char>)>) {
        let mut f: Vec<(String, Vec<char>)> = Vec::new();
        f_str(&mut f, "code", self.code.as_str());
        f_int(&mut f, "amount", self.amount);
        f_int(&mut f, "balance", self.balance);
        f_str(&mut f, "currency", self.currency.as_str());
        f_str(&mut f, "status", self.status.as_str());
        f_int(&mut f, "created_at", self.created_at);
        f_int(&mut f, "updated_at", self.updated_at);
        f_some_int(&mut f, "expires_at", self.expires_at);
        f_some_int(&mut f, "delivery_at", self.delivery_at);
        f_some_int(&mut f, "delivered_at", self.delivered_at);
        f_some_str(&mut f, "recipient_email", &self.recipient_email);
        f_some_str(&mut f, "recipient_phone", &self.recipient_phone);
        f_some_str(&mut f, "recipient_name", &self.recipient_name);
        f_some_str(&mut f, "message", &self.message);
        f
    }
}

impl CollectionRow for SmsRow {
    open spec fn body(&self) -> Fields {
        seq![
            ("key"@, json_string(self.key@)),
            ("body"@, json_string(self.body@)),
            ("updated_at"@, jint(self.updated_at)),
        ]
    }

    fn body_fields(&self) -> (f: Vec<(String, Vec<char>)>) {
        let mut f: Vec<(String, Vec<char>)> = Vec::new();
        f_str(&mut f, "key", self.key.as_str());
        f_str(&mut f, "body", self.body.as_str());
        f_int(&mut f, "updated_at", self.updated_at);
        f
    }
}

impl CollectionRow for EmRow {
    open spec fn body(&self) -> Fields {
        seq![
            ("key"@, json_string(self.key@)),
            ("subject"@, json_string(self.subject@)),
            ("body_html"@, json_string(self.body_html@)),
            ("language"@, json_string(self.language@)),
            ("updated_at"@, jint(self.updated_at)),
        ]
    }

    fn body_fields(&self) -> (f: Vec<(String, Vec<char>)>) {
        let mut f: Vec<(String, Vec<char>)> = Vec::new();
        f_str(&mut f, "key", self.key.as_str());
        f_str(&mut f, "subject", self.subject.as_str());
        f_str(&mut f, "body_html", self.body_html.as_str());
        f_str(&mut f, "language", self.language.as_str());
        f_int(&mut f, "updated_at", self.updated_at);
        f
    }
}

impl CollectionRow for BtRow {
    open spec fn body(&self) -> Fields {
        seq![
            ("bank_name"@, json_string(self.bank_name@)),
            ("account_holder"@, json_string(self.account_holder@)),
            ("kennitala"@, json_string(self.kennitala@)),
            ("account_number"@, json_string(self.account_number@)),
            ("updated_at"@, jint(self.updated_at)),
        ]
    }

    fn body_fields(&self) -> (f: Vec<(String, Vec<char>)>) {
        let mut f: Vec<(String, Vec<char>)> = Vec::new();
        f_str(&mut f, "bank_name", self.bank_name.as_str());
        f_str(&mut f, "account_holder", self.account_holder.as_str());
        f_str(&mut f, "kennitala", self.kennitala.as_str());
        f_str(&mut f, "account_number", self.account_number.as_str());
        f_int(&mut f, "updated_at", self.updated_at);
        f
    }
}

impl CollectionRow for NotifRow {
    open spec fn body(&self) -> Fields {
        seq![
            ("admin_copy_enabled"@, jbool(self.admin_copy_enabled)),
            ("admin_email"@, json_string(self.admin_email@)),
            ("updated_at"@, jint(self.updated_at)),
        ] + opt_str_member("admin_phone"@, self.admin_phone)
    }

    fn body_fields(&self) -> (f: Vec<(String, Vec<char>)>) {
        let mut f: Vec<(String, Vec<char>)> = Vec::new();
        f_bool(&mut f, "admin_copy_enabled", self.admin_copy_enabled);
        f_str(&mut f, "admin_email", self.admin_email.as_str());
        f_int(&mut f, "updated_at", self.updated_at);
        f_some_str(&mut f, "admin_phone", &self.admin_phone);
        f
    }
}

impl CollectionRow for LbRow {
    open spec fn body(&self) -> Fields {
        seq![
            ("api_base_url"@, json_string(self.api_base_url@)),
            ("user_id"@, json_string(self.user_id@)),
            ("api_key"@, json_string(self.api_key@)),
            ("entity_id"@, json_string(self.entity_id@)),
            ("payment_contract_id"@, json_string(self.payment_contract_id@)),
            ("interaction_type"@, json_string(self.interaction_type@)),
            ("updated_at"@, jint(self.updated_at)),
        ]
    }

    fn body_fields(&self) -> (f: Vec<(String, Vec<char>)>) {
        let mut f: Vec<(String, Vec<char>)> = Vec::new();
        f_str(&mut f, "api_base_url", self.api_base_url.as_str());
        f_str(&mut f, "user_id", self.user_id.as_str());
        f_str(&mut f, "api_key", self.api_key.as_str());
        f_str(&mut f, "entity_id", self.entity_id.as_str());
        f_str(&mut f, "payment_contract_id", self.payment_contract_id.as_str());
        f_str(&mut f, "interaction_type", self.interaction_type.as_str());
        f_int(&mut f, "updated_at", self.updated_at);
        f
    }
}

impl CollectionRow for PdRow {
    open spec fn body(&self) -> Fields {
        seq![
            ("enabled"@, jbool(self.enabled)),
            ("api_base_url"@, json_string(self.api_base_url@)),
            ("client_id"@, json_string(self.client_id@)),
            ("client_secret"@, json_string(self.client_secret@)),
            ("default_vat_percentage"@, jint(self.default_vat_percentage)),
            ("create_electronic_invoice"@, jbool(self.create_electronic_invoice)),
            ("send_email"@, jbool(self.send_email)),
            ("create_claim"@, jbool(self.create_claim)),
            ("due_days"@, jint(self.due_days)),
            ("final_due_days"@, jint(self.final_due_days)),
            ("updated_at"@, jint(self.updated_at)),
        ]
    }

    fn body_fields(&self) -> (f: Vec<(String, Vec<char>)>) {
        let mut f: Vec<(String, Vec<char>)> = Vec::new();
        f_bool(&mut f, "enabled", self.enabled);
        f_str(&mut f, "api_base_url", self.api_base_url.as_str());
        f_str(&mut f, "client_id", self.client_id.as_str());
        f_str(&mut f, "client_secret", self.client_secret.as_str());
        f_int(&mut f, "default_vat_percentage", self.default_vat_percentage);
        f_bool(&mut f, "create_electronic_invoice", self.create_electronic_invoice);
        f_bool(&mut f, "send_email", self.send_email);
        f_bool(&mut f, "create_claim", self.create_claim);
        f_int(&mut f, "due_days", self.due_days);
        f_int(&mut f, "final_due_days", self.final_due_days);
        f_int(&mut f, "updated_at", self.updated_at);
        f
    }
}

impl CollectionRow for UsrRow {
    open spec fn body(&self) -> Fields {
        seq![
            ("name"@, json_string(self.name@)),
            ("role"@, json_string(self.role@)),
            ("created_at"@, jint(self.created_at)),
            ("updated_at"@, jint(self.updated_at)),
        ] + opt_str_member("email"@, self.email) + opt_str_member("phone"@, self.phone) + opt_int_member(
            "fixed_price"@,
            self.fixed_price,
        ) + opt_str_member("kennitala"@, self.kennitala) + opt_str_member(
            "payday_customer_id"@,
            self.payday_customer_id,
        )
    }

    fn body_fields(&self) -> (f: Vec<(String, Vec<char>)>) {
        let mut f: Vec<(String, Vec<char>)> = Vec::new();
        f_str(&mut f, "name", self.name.as_str());
        f_str(&mut f, "role", self.role.as_str());
        f_int(&mut f, "created_at", self.created_at);
        f_int(&mut f, "updated_at", self.updated_at);
        f_some_str(&mut f, "email", &self.email);
        f_some_str(&mut f, "phone", &self.phone);
        f_some_int(&mut f, "fixed_price", self.fixed_price);
        f_some_str(&mut f, "kennitala", &self.kennitala);
        f_some_str(&mut f, "payday_customer_id", &self.payday_customer_id);
        f
    }
}

// ---------------------------------------------------------------------------
// Keyed records
// ---------------------------------------------------------------------------

/// A row stored under a key of its own.
pub trait KeyedRow: Sized {
    spec fn key_spec(&self) -> Seq<u8>;

    spec fn record(&self) -> Fields;

    fn key(&self) -> (k: Vec<u8>)
        ensures
            k@ == self.key_spec(),
    ;

    fn record_fields(&self) -> (f: Vec<(String, Vec<char>)>)
        ensures
            fields_view(f@) == self.record(),
    ;
}

/// The writes of keyed `rows` into `target`, in order.
pub open spec fn keyed_rows<R: KeyedRow>(target: Target, rows: Seq<R>) -> Seq<(Target, Seq<u8>, Seq<u8>)>
    decreases rows.len(),
{
    if rows.len() == 0 {
        seq![]
    } else {
        keyed_rows(target, rows.drop_last()).push(
            (target, rows.last().key_spec(), encode_utf8(object(rows.last().record()))),
        )
    }
}

fn emit_keyed<R: KeyedRow>(out: &mut Vec<Write>, target: Target, rows: &Vec<R>)
    ensures
        writes_view(final(out)@) == writes_view(old(out)@) + keyed_rows(target, rows@),
{
    let ghost pre = writes_view(out@);
    let mut i: usize = 0;
    while i < rows.len()
        invariant
            i <= rows@.len(),
            writes_view(out@) == pre + keyed_rows(target, rows@.subrange(0, i as int)),
        decreases rows@.len() - i,
    {
        let k = rows[i].key();
        let f = rows[i].record_fields();
        push_write(out, target, k, object_bytes(&f));
        let ghost next = rows@.subrange(0, i + 1);
        assert(next.drop_last() =~= rows@.subrange(0, i as int));
        assert(next.last() == rows@[i as int]);
        assert(writes_view(out@) =~= pre + keyed_rows(target, next));
        i = i + 1;
    }
    assert(rows@.subrange(0, rows@.len() as int) =~= rows@);
}

impl KeyedRow for SessRow {
    open spec fn key_spec(&self) -> Seq<u8> {
        encode_utf8(self.token@)
    }

    open spec fn record(&self) -> Fields {
        seq![
            ("email"@, json_string(self.email@)),
            ("created"@, jint(self.created_sec)),
            ("expires_at"@, jint(self.expires_sec)),
        ]
    }

    fn key(&self) -> (k: Vec<u8>) {
        utf8_of(self.token.as_str())
    }

    fn record_fields(&self) -> (f: Vec<(String, Vec<char>)>) {
        let mut f: Vec<(String, Vec<char>)> = Vec::new();
        f_str(&mut f, "email", self.email.as_str());
        f_int(&mut f, "created", self.created_sec);
        f_int(&mut f, "expires_at", self.expires_sec);
        f
    }
}

impl KeyedRow for BuRow {
    open spec fn key_spec(&self) -> Seq<u8> {
        encode_utf8(self.id@)
    }

    open spec fn record(&self) -> Fields {
        seq![("id"@, json_string(self.id@)), ("fixed_price"@, jopt_int(self.fixed_price))]
    }

    fn key(&self) -> (k: Vec<u8>) {
        utf8_of(self.id.as_str())
    }

    fn record_fields(&self) -> (f: Vec<(String, Vec<char>)>) {
        let mut f: Vec<(String, Vec<char>)> = Vec::new();
        f_str(&mut f, "id", self.id.as_str());
        f_opt_int(&mut f, "fixed_price", self.fixed_price);
        f
    }
}

/// Bookings are keyed by their start, as eight big-endian bytes.
impl KeyedRow for BkRow {
    open spec fn key_spec(&self) -> Seq<u8> {
        be_bytes((self.starts_at as u64) as nat, 8)
    }

    open spec fn record(&self) -> Fields {
        seq![
            ("id"@, json_string(self.id@)),
            ("user_id"@, json_string(self.user_id@)),
            ("starts_at"@, jint(self.starts_at)),
            ("status"@, json_string(self.status@)),
            ("payment_type"@, json_string(self.payment_type@)),
            ("price_paid"@, jopt_int(self.price_paid)),
            ("user_package_id"@, jopt_str(self.user_package_id)),
            ("user_subscription_id"@, jopt_str(self.user_subscription_id)),
            ("notes"@, jopt_str(self.notes)),
            ("created_at"@, jint(self.created_at)),
            ("cancelled_at"@, jopt_int(self.cancelled_at)),
        ]
    }

    fn key(&self) -> (k: Vec<u8>) {
        let mut k: Vec<u8> = Vec::new();
        push_be_bytes(&mut k, self.starts_at as u64, 8);
        k
    }

    fn record_fields(&self) -> (f: Vec<(String, Vec<char>)>) {
        let mut f: Vec<(String, Vec<char>)> = Vec::new();
        f_str(&mut f, "id", self.id.as_str());
        f_str(&mut f, "user_id", self.user_id.as_str());
        f_int(&mut f, "starts_at", self.starts_at);
        f_str(&mut f, "status", self.status.as_str());
        f_str(&mut f, "payment_type", self.payment_type.as_str());
        f_opt_int(&mut f, "price_paid", self.price_paid);
        f_opt_str(&mut f, "user_package_id", &self.user_package_id);
        f_opt_str(&mut f, "user_subscription_id", &self.user_subscription_id);
        f_opt_str(&mut f, "notes", &self.notes);
        f_int(&mut f, "created_at", self.created_at);
        f_opt_int(&mut f, "cancelled_at", self.cancelled_at);
        f
    }
}

impl KeyedRow for UpRow {
    open spec fn key_spec(&self) -> Seq<u8> {
        encode_utf8(self.id@)
    }

    open spec fn record(&self) -> Fields {
        seq![
            ("id"@, json_string(self.id@)),
            ("user_id"@, json_string(self.user_id@)),
            ("remaining"@, jint(self.remaining)),
            ("package_name"@, json_string(self.package_name@)),
            ("slot_count"@, jint(self.slot_count)),
        ]
    }

    fn key(&self) -> (k: Vec<u8>) {
        utf8_of(self.id.as_str())
    }

    fn record_fields(&self) -> (f: Vec<(String, Vec<char>)>) {
        let mut f: Vec<(String, Vec<char>)> = Vec::new();
        f_str(&mut f, "id", self.id.as_str());
        f_str(&mut f, "user_id", self.user_id.as_str());
        f_int(&mut f, "remaining", self.remaining);
        f_str(&mut f, "package_name", self.package_name.as_str());
        f_int(&mut f, "slot_count", self.slot_count);
        f
    }
}

/// Members are keyed `{user_subscription_id}:{id}`.
impl KeyedRow for SmRow {
    open spec fn key_spec(&self) -> Seq<u8> {
        encode_utf8(self.user_subscription_id@ + ":"@ + self.id@)
    }

    open spec fn record(&self) -> Fields {
        seq![
            ("id"@, json_string(self.id@)),
            ("user_subscription_id"@, json_string(self.user_subscription_id@)),
            ("user_id"@, jopt_str(self.user_id)),
            ("role"@, json_string(self.role@)),
            ("status"@, json_string(self.status@)),
            ("invited_phone"@, jopt_str(self.invited_phone)),
            ("invited_at"@, jint(self.invited_at)),
            ("accepted_at"@, jopt_int(self.accepted_at)),
            ("removed_at"@, jopt_int(self.removed_at)),
        ]
    }

    fn key(&self) -> (k: Vec<u8>) {
        let mut v: Vec<char> = Vec::new();
        append_str(&mut v, self.user_subscription_id.as_str());
        append_str(&mut v, ":");
        append_str(&mut v, self.id.as_str());
        utf8_of_chars(&v)
    }

    fn record_fields(&self) -> (f: Vec<(String, Vec<char>)>) {
        let mut f: Vec<(String, Vec<char>)> = Vec::new();
        f_str(&mut f, "id", self.id.as_str());
        f_str(&mut f, "user_subscription_id", self.user_subscription_id.as_str());
        f_opt_str(&mut f, "user_id", &self.user_id);
        f_str(&mut f, "role", self.role.as_str());
        f_str(&mut f, "status", self.status.as_str());
        f_opt_str(&mut f, "invited_phone", &self.invited_phone);
        f_int(&mut f, "invited_at", self.invited_at);
        f_opt_int(&mut f, "accepted_at", self.accepted_at);
        f_opt_int(&mut f, "removed_at", self.removed_at);
        f
    }
}

impl KeyedRow for CtRow {
    open spec fn key_spec(&self) -> Seq<u8> {
        encode_utf8(self.id@)
    }

    open spec fn record(&self) -> Fields {
        seq![
            ("id"@, json_string(self.id@)),
            ("user_id"@, jopt_str(self.user_id)),
            ("status"@, json_string(self.status@)),
            ("currency"@, json_string(self.currency@)),
            ("created_at"@, jint(self.created_at)),
            ("updated_at"@, jint(self.updated_at)),
        ]
    }

    fn key(&self) -> (k: Vec<u8>) {
        utf8_of(self.id.as_str())
    }

    fn record_fields(&self) -> (f: Vec<(String, Vec<char>)>) {
        let mut f: Vec<(String, Vec<char>)> = Vec::new();
        f_str(&mut f, "id", self.id.as_str());
        f_opt_str(&mut f, "user_id", &self.user_id);
        f_str(&mut f, "status", self.status.as_str());
        f_str(&mut f, "currency", self.currency.as_str());
        f_int(&mut f, "created_at", self.created_at);
        f_int(&mut f, "updated_at", self.updated_at);
        f
    }
}

/// The value of the first member named `k`, if any.
pub open spec fn member_of(f: Fields, k: Seq<char>) -> Option<Seq<char>>
    decreases f.len(),
{
    if f.len() == 0 {
        None
    } else if f[0].0 == k {
        Some(f[0].1)
    } else {
        member_of(f.drop_first(), k)
    }
}

/// A member whose name no earlier member has is the one found by its name.
pub proof fn lemma_member_at(f: Fields, i: int)
    requires
        0 <= i < f.len(),
        forall|j: int| 0 <= j < i ==> (#[trigger] f[j]).0 != f[i].0,
    ensures
        member_of(f, f[i].0) == Some(f[i].1),
    decreases i,
{
    if i > 0 {
        let r = f.drop_first();
        assert forall|j: int| 0 <= j < i - 1 implies (#[trigger] r[j]).0 != r[i - 1].0 by {
            assert(r[j] == f[j + 1]);
        }
        lemma_member_at(r, i - 1);
        assert(f[0].0 != f[i].0);
    }
}

/// What an optional integer member carries: its number, when there is one.
pub open spec fn opt_int_text(o: Option<i64>) -> Option<Seq<char>> {
    match o {
        Some(n) => Some(int_str(n as int)),
        None => None,
    }
}

/// What an optional text member carries: its JSON string, when there is one.
pub open spec fn opt_str_text(o: Option<String>) -> Option<Seq<char>> {
    match o {
        Some(s) => Some(json_string(s@)),
        None => None,
    }
}

/// Looking a name up in members followed by more members finds the first
/// part's member, or else the second part's.
pub proof fn lemma_member_concat(a: Fields, b: Fields)
    ensures
        forall|k: Seq<char>|
            #[trigger] member_of(a + b, k) == match member_of(a, k) {
                Some(v) => Some(v),
                None => member_of(b, k),
            },
    decreases a.len(),
{
    if a.len() == 0 {
        assert(a + b =~= b);
    } else {
        lemma_member_concat(a.drop_first(), b);
        assert((a + b).drop_first() =~= a.drop_first() + b);
        assert((a + b)[0] == a[0]);
        assert forall|k: Seq<char>|
            #[trigger] member_of(a + b, k) == match member_of(a, k) {
                Some(v) => Some(v),
                None => member_of(b, k),
            } by {
            if a[0].0 != k {
                assert(member_of(a + b, k) == member_of((a + b).drop_first(), k));
                assert(member_of(a.drop_first() + b, k) == match member_of(a.drop_first(), k) {
                    Some(v) => Some(v),
                    None => member_of(b, k),
                });
            }
        }
    }
}

/// A name no member has finds nothing.
pub proof fn lemma_member_absent(f: Fields, k: Seq<char>)
    requires
        forall|j: int| 0 <= j < f.len() ==> (#[trigger] f[j]).0 != k,
    ensures
        member_of(f, k) is None,
    decreases f.len(),
{
    if f.len() > 0 {
        let r = f.drop_first();
        assert forall|j: int| 0 <= j < r.len() implies (#[trigger] r[j]).0 != k by {
            assert(r[j] == f[j + 1]);
        }
        lemma_member_absent(r, k);
    }
}

/// An optional member is found under its own name when it is there, and
/// under no other name.
pub proof fn lemma_opt_members(name: Seq<char>, i: Option<i64>, t: Option<String>)
    ensures
        member_of(opt_int_member(name, i), name) == opt_int_text(i),
        member_of(opt_str_member(name, t), name) == opt_str_text(t),
        forall|k: Seq<char>| k != name ==> #[trigger] member_of(opt_int_member(name, i), k) is None,
        forall|k: Seq<char>| k != name ==> #[trigger] member_of(opt_str_member(name, t), k) is None,
{
    let e = Seq::<(Seq<char>, Seq<char>)>::empty();
    assert(member_of(e, name) is None);
    assert forall|k: Seq<char>| k != name implies #[trigger] member_of(opt_int_member(name, i), k) is None by {
        let f = opt_int_member(name, i);
        if f.len() > 0 {
            assert(f.drop_first() =~= e);
            assert(member_of(f, k) == member_of(f.drop_first(), k));
            assert(member_of(e, k) is None);
        }
    }
    assert forall|k: Seq<char>| k != name implies #[trigger] member_of(opt_str_member(name, t), k) is None by {
        let f = opt_str_member(name, t);
        if f.len() > 0 {
            assert(f.drop_first() =~= e);
            assert(member_of(f, k) == member_of(f.drop_first(), k));
            assert(member_of(e, k) is None);
        }
    }
}

/// A gift card's collection record carries each optional column exactly
/// when the row holds a value for it, with that value.
pub proof fn lemma_gc_optional_members(r: GcRow)
    ensures
        member_of(<GcRow as CollectionRow>::body(&r), "expires_at"@) == opt_int_text(r.expires_at),
        member_of(<GcRow as CollectionRow>::body(&r), "delivery_at"@) == opt_int_text(r.delivery_at),
        member_of(<GcRow as CollectionRow>::body(&r), "delivered_at"@) == opt_int_text(r.delivered_at),
        member_of(<GcRow as CollectionRow>::body(&r), "recipient_email"@) == opt_str_text(r.recipient_email),
        member_of(<GcRow as CollectionRow>::body(&r), "recipient_phone"@) == opt_str_text(r.recipient_phone),
        member_of(<GcRow as CollectionRow>::body(&r), "recipient_name"@) == opt_str_text(r.recipient_name),
        member_of(<GcRow as CollectionRow>::body(&r), "message"@) == opt_str_text(r.message),
{
    reveal_strlit("code");
    reveal_strlit("amount");
    reveal_strlit("balance");
    reveal_strlit("currency");
    reveal_strlit("status");
    reveal_strlit("created_at");
    reveal_strlit("updated_at");
    reveal_strlit("expires_at");
    reveal_strlit("delivery_at");
    reveal_strlit("delivered_at");
    reveal_strlit("recipient_email");
    reveal_strlit("recipient_phone");
    reveal_strlit("recipient_name");
    reveal_strlit("message");
    let p0: Fields = seq![
        ("code"@, json_string(r.code@)),
        ("amount"@, jint(r.amount)),
        ("balance"@, jint(r.balance)),
        ("currency"@, json_string(r.currency@)),
        ("status"@, json_string(r.status@)),
        ("created_at"@, jint(r.created_at)),
        ("updated_at"@, jint(r.updated_at)),
    ];
    let o1 = opt_int_member("expires_at"@, r.expires_at);
    let o2 = opt_int_member("delivery_at"@, r.delivery_at);
    let o3 = opt_int_member("delivered_at"@, r.delivered_at);
    let o4 = opt_str_member("recipient_email"@, r.recipient_email);
    let o5 = opt_str_member("recipient_phone"@, r.recipient_phone);
    let o6 = opt_str_member("recipient_name"@, r.recipient_name);
    let o7 = opt_str_member("message"@, r.message);
    lemma_member_concat(p0, o1);
    lemma_member_concat(p0 + o1, o2);
    lemma_member_concat(p0 + o1 + o2, o3);
    lemma_member_concat(p0 + o1 + o2 + o3, o4);
    lemma_member_concat(p0 + o1 + o2 + o3 + o4, o5);
    lemma_member_concat(p0 + o1 + o2 + o3 + o4 + o5, o6);
    lemma_member_concat(p0 + o1 + o2 + o3 + o4 + o5 + o6, o7);
    lemma_opt_members("expires_at"@, r.expires_at, None);
    lemma_opt_members("delivery_at"@, r.delivery_at, None);
    lemma_opt_members("delivered_at"@, r.delivered_at, None);
    lemma_opt_members("recipient_email"@, None, r.recipient_email);
    lemma_opt_members("recipient_phone"@, None, r.recipient_phone);
    lemma_opt_members("recipient_name"@, None, r.recipient_name);
    lemma_opt_members("message"@, None, r.message);
    assert("code"@.len() == 4);
    assert("amount"@.len() == 6);
    assert("balance"@.len() == 7);
    assert("currency"@.len() == 8);
    assert("status"@.len() == 6);
    assert("created_at"@.len() == 10);
    assert("updated_at"@.len() == 10);
    assert("expires_at"@.len() == 10);
    assert("delivery_at"@.len() == 11);
    assert("delivered_at"@.len() == 12);
    assert("recipient_email"@.len() == 15);
    assert("recipient_phone"@.len() == 15);
    assert("recipient_name"@.len() == 14);
    assert("message"@.len() == 7);
    assert("expires_at"@[0] != "created_at"@[0] && "expires_at"@[0] != "updated_at"@[0]);
    assert("message"@[0] != "balance"@[0]);
    assert("recipient_email"@[10] != "recipient_phone"@[10]);
    assert("delivery_at"@[0] != "expires_at"@[0]);
    assert forall|j: int| 0 <= j < p0.len() implies (#[trigger] p0[j]).0 != "expires_at"@ by {
        if j == 0 {} else if j == 1 {} else if j == 2 {} else if j == 3 {} else if j == 4 {} else if j == 5 {} else {}
    }
    lemma_member_absent(p0, "expires_at"@);
    assert forall|j: int| 0 <= j < p0.len() implies (#[trigger] p0[j]).0 != "delivery_at"@ by {
        if j == 0 {} else if j == 1 {} else if j == 2 {} else if j == 3 {} else if j == 4 {} else if j == 5 {} else {}
    }
    lemma_member_absent(p0, "delivery_at"@);
    assert forall|j: int| 0 <= j < p0.len() implies (#[trigger] p0[j]).0 != "delivered_at"@ by {
        if j == 0 {} else if j == 1 {} else if j == 2 {} else if j == 3 {} else if j == 4 {} else if j == 5 {} else {}
    }
    lemma_member_absent(p0, "delivered_at"@);
    assert forall|j: int| 0 <= j < p0.len() implies (#[trigger] p0[j]).0 != "recipient_email"@ by {
        if j == 0 {} else if j == 1 {} else if j == 2 {} else if j == 3 {} else if j == 4 {} else if j == 5 {} else {}
    }
    lemma_member_absent(p0, "recipient_email"@);
    assert forall|j: int| 0 <= j < p0.len() implies (#[trigger] p0[j]).0 != "recipient_phone"@ by {
        if j == 0 {} else if j == 1 {} else if j == 2 {} else if j == 3 {} else if j == 4 {} else if j == 5 {} else {}
    }
    lemma_member_absent(p0, "recipient_phone"@);
    assert forall|j: int| 0 <= j < p0.len() implies (#[trigger] p0[j]).0 != "recipient_name"@ by {
        if j == 0 {} else if j == 1 {} else if j == 2 {} else if j == 3 {} else if j == 4 {} else if j == 5 {} else {}
    }
    lemma_member_absent(p0, "recipient_name"@);
    assert forall|j: int| 0 <= j < p0.len() implies (#[trigger] p0[j]).0 != "message"@ by {
        if j == 0 {} else if j == 1 {} else if j == 2 {} else if j == 3 {} else if j == 4 {} else if j == 5 {} else {}
    }
    lemma_member_absent(p0, "message"@);
}

/// A user's collection record carries each optional column (email,
/// phone, fixed price, kennitala, Payday customer) exactly when the row
/// holds a value for it, with that value.
pub proof fn lemma_usr_optional_members(r: UsrRow)
    ensures
        member_of(<UsrRow as CollectionRow>::body(&r), "email"@) == opt_str_text(r.email),
        member_of(<UsrRow as CollectionRow>::body(&r), "phone"@) == opt_str_text(r.phone),
        member_of(<UsrRow as CollectionRow>::body(&r), "fixed_price"@) == opt_int_text(r.fixed_price),
        member_of(<UsrRow as CollectionRow>::body(&r), "kennitala"@) == opt_str_text(r.kennitala),
        member_of(<UsrRow as CollectionRow>::body(&r), "payday_customer_id"@) == opt_str_text(r.payday_customer_id),
{
    reveal_strlit("name");
    reveal_strlit("role");
    reveal_strlit("created_at");
    reveal_strlit("updated_at");
    reveal_strlit("email");
    reveal_strlit("phone");
    reveal_strlit("fixed_price");
    reveal_strlit("kennitala");
    reveal_strlit("payday_customer_id");
    assert("name"@.len() == 4);
    assert("role"@.len() == 4);
    assert("created_at"@.len() == 10);
    assert("updated_at"@.len() == 10);
    assert("email"@.len() == 5);
    assert("phone"@.len() == 5);
    assert("fixed_price"@.len() == 11);
    assert("kennitala"@.len() == 9);
    assert("payday_customer_id"@.len() == 18);
    assert("email"@[0] != "phone"@[0]);
    let p0: Fields = seq![
        ("name"@, json_string(r.name@)),
        ("role"@, json_string(r.role@)),
        ("created_at"@, jint(r.created_at)),
        ("updated_at"@, jint(r.updated_at)),
    ];
    let o1 = opt_str_member("email"@, r.email);
    let o2 = opt_str_member("phone"@, r.phone);
    let o3 = opt_int_member("fixed_price"@, r.fixed_price);
    let o4 = opt_str_member("kennitala"@, r.kennitala);
    let o5 = opt_str_member("payday_customer_id"@, r.payday_customer_id);
    lemma_member_concat(p0, o1);
    lemma_member_concat(p0 + o1, o2);
    lemma_member_concat(p0 + o1 + o2, o3);
    lemma_member_concat(p0 + o1 + o2 + o3, o4);
    lemma_member_concat(p0 + o1 + o2 + o3 + o4, o5);
    lemma_opt_members("email"@, None, r.email);
    lemma_opt_members("phone"@, None, r.phone);
    lemma_opt_members("fixed_price"@, r.fixed_price, None);
    lemma_opt_members("kennitala"@, None, r.kennitala);
    lemma_opt_members("payday_customer_id"@, None, r.payday_customer_id);
    assert forall|j: int| 0 <= j < p0.len() implies (#[trigger] p0[j]).0 != "email"@ by {
        if j == 0 {} else if j == 1 {} else if j == 2 {} else {}
    }
    lemma_member_absent(p0, "email"@);
    assert forall|j: int| 0 <= j < p0.len() implies (#[trigger] p0[j]).0 != "phone"@ by {
        if j == 0 {} else if j == 1 {} else if j == 2 {} else {}
    }
    lemma_member_absent(p0, "phone"@);
    assert forall|j: int| 0 <= j < p0.len() implies (#[trigger] p0[j]).0 != "fixed_price"@ by {
        if j == 0 {} else if j == 1 {} else if j == 2 {} else {}
    }
    lemma_member_absent(p0, "fixed_price"@);
    assert forall|j: int| 0 <= j < p0.len() implies (#[trigger] p0[j]).0 != "kennitala"@ by {
        if j == 0 {} else if j == 1 {} else if j == 2 {} else {}
    }
    lemma_member_absent(p0, "kennitala"@);
    assert forall|j: int| 0 <= j < p0.len() implies (#[trigger] p0[j]).0 != "payday_customer_id"@ by {
        if j == 0 {} else if j == 1 {} else if j == 2 {} else {}
    }
    lemma_member_absent(p0, "payday_customer_id"@);
}

/// A category's collection record carries its description exactly when
/// the row has one.
pub proof fn lemma_cat_optional_members(r: CatRow)
    ensures
        member_of(<CatRow as CollectionRow>::body(&r), "description"@) == opt_str_text(r.description),
{
    reveal_strlit("name");
    reveal_strlit("slug");
    reveal_strlit("position");
    reveal_strlit("active");
    reveal_strlit("created_at");
    reveal_strlit("updated_at");
    reveal_strlit("description");
    assert("name"@.len() == 4);
    assert("slug"@.len() == 4);
    assert("position"@.len() == 8);
    assert("active"@.len() == 6);
    assert("created_at"@.len() == 10);
    assert("updated_at"@.len() == 10);
    assert("description"@.len() == 11);
    let p0: Fields = seq![
        ("name"@, json_string(r.name@)),
        ("slug"@, json_string(r.slug@)),
        ("position"@, jint(r.position)),
        ("active"@, jbool(r.active)),
        ("created_at"@, jint(r.created_at)),
        ("updated_at"@, jint(r.updated_at)),
    ];
    let o1 = opt_str_member("description"@, r.description);
    lemma_member_concat(p0, o1);
    lemma_opt_members("description"@, None, r.description);
    assert forall|j: int| 0 <= j < p0.len() implies (#[trigger] p0[j]).0 != "description"@ by {
        if j == 0 {} else if j == 1 {} else if j == 2 {} else if j == 3 {} else if j == 4 {} else {}
    }
    lemma_member_absent(p0, "description"@);
}

/// The notification settings record carries the admin phone exactly when
/// the row has one.
pub proof fn lemma_notif_optional_members(r: NotifRow)
    ensures
        member_of(<NotifRow as CollectionRow>::body(&r), "admin_phone"@) == opt_str_text(r.admin_phone),
{
    reveal_strlit("admin_copy_enabled");
    reveal_strlit("admin_email");
    reveal_strlit("updated_at");
    reveal_strlit("admin_phone");
    assert("admin_copy_enabled"@.len() == 18);
    assert("admin_email"@.len() == 11);
    assert("updated_at"@.len() == 10);
    assert("admin_phone"@.len() == 11);
    assert("admin_email"@[6] != "admin_phone"@[6]);
    let p0: Fields = seq![
        ("admin_copy_enabled"@, jbool(r.admin_copy_enabled)),
        ("admin_email"@, json_string(r.admin_email@)),
        ("updated_at"@, jint(r.updated_at)),
    ];
    let o1 = opt_str_member("admin_phone"@, r.admin_phone);
    lemma_member_concat(p0, o1);
    lemma_opt_members("admin_phone"@, None, r.admin_phone);
    assert forall|j: int| 0 <= j < p0.len() implies (#[trigger] p0[j]).0 != "admin_phone"@ by {
        if j == 0 {} else if j == 1 {} else {}
    }
    lemma_member_absent(p0, "admin_phone"@);
}

/// A product's record carries its description and image only when the row
/// has them, and refers to its category by the category's new number, left
/// out when the product has no category or names an unknown one.
pub proof fn lemma_product_optional_members(r: ProdRow, cats: Seq<CatRow>)
    ensures
        member_of(product_body(r, cats), "description"@) == opt_str_text(r.description),
        member_of(product_body(r, cats), "image_url"@) == opt_str_text(r.image_url),
        member_of(product_body(r, cats), "category"@) == match r.category_id {
            Some(c) => match cat_number(cats, c@) {
                Some(n) => Some(int_str(n as int)),
                None => None,
            },
            None => None,
        },
{
    reveal_strlit("category");
    assert("category"@.len() == 8);
    reveal_strlit("name");
    reveal_strlit("price");
    reveal_strlit("active");
    reveal_strlit("position");
    reveal_strlit("created_at");
    reveal_strlit("updated_at");
    reveal_strlit("description");
    reveal_strlit("image_url");
    assert("name"@.len() == 4);
    assert("price"@.len() == 5);
    assert("active"@.len() == 6);
    assert("position"@.len() == 8);
    assert("created_at"@.len() == 10);
    assert("updated_at"@.len() == 10);
    assert("description"@.len() == 11);
    assert("image_url"@.len() == 9);
    assert("category"@[0] != "position"@[0]);
    let p0: Fields = seq![
        ("name"@, json_string(r.name@)),
        ("price"@, jint(r.price)),
        ("active"@, jbool(r.active)),
        ("position"@, jint(r.position)),
        ("created_at"@, jint(r.created_at)),
        ("updated_at"@, jint(r.updated_at)),
    ];
    let o1 = opt_str_member("description"@, r.description);
    let o2 = opt_str_member("image_url"@, r.image_url);
    lemma_member_concat(p0, o1);
    lemma_member_concat(p0 + o1, o2);
    let o3: Fields = match r.category_id {
        Some(c) => match cat_number(cats, c@) {
            Some(n) => seq![("category"@, int_str(n as int))],
            None => seq![],
        },
        None => seq![],
    };
    lemma_member_concat(p0 + o1 + o2, o3);
    let e = Seq::<(Seq<char>, Seq<char>)>::empty();
    assert(member_of(e, "category"@) is None);
    assert(member_of(e, "description"@) is None);
    assert(member_of(e, "image_url"@) is None);
    if o3.len() > 0 {
        assert(o3.drop_first() =~= e);
        assert(member_of(o3, "description"@) == member_of(o3.drop_first(), "description"@));
        assert(member_of(o3, "image_url"@) == member_of(o3.drop_first(), "image_url"@));
    }
    lemma_opt_members("description"@, None, r.description);
    lemma_opt_members("image_url"@, None, r.image_url);
    assert forall|j: int| 0 <= j < p0.len() implies (#[trigger] p0[j]).0 != "description"@ by {
        if j == 0 {} else if j == 1 {} else if j == 2 {} else if j == 3 {} else if j == 4 {} else {}
    }
    lemma_member_absent(p0, "description"@);
    assert forall|j: int| 0 <= j < p0.len() implies (#[trigger] p0[j]).0 != "image_url"@ by {
        if j == 0 {} else if j == 1 {} else if j == 2 {} else if j == 3 {} else if j == 4 {} else {}
    }
    lemma_member_absent(p0, "image_url"@);
    assert forall|j: int| 0 <= j < p0.len() implies (#[trigger] p0[j]).0 != "category"@ by {
        if j == 0 {} else if j == 1 {} else if j == 2 {} else if j == 3 {} else if j == 4 {} else {}
    }
    lemma_member_absent(p0, "category"@);
    assert(product_body(r, cats) == p0 + o1 + o2 + o3);
}

/// The keyed writes of rows are one per row, in order: row `i` is stored
/// under its key as the JSON text of its record.
pub proof fn lemma_keyed_rows_index<R: KeyedRow>(target: Target, rows: Seq<R>, i: int)
    requires
        0 <= i < rows.len(),
    ensures
        keyed_rows(target, rows).len() == rows.len(),
        keyed_rows(target, rows)[i] == (target, rows[i].key_spec(), encode_utf8(object(rows[i].record()))),
    decreases rows.len(),
{
    lemma_keyed_rows_len(target, rows);
    if i < rows.len() - 1 {
        lemma_keyed_rows_index(target, rows.drop_last(), i);
        assert(rows.drop_last()[i] == rows[i]);
    }
}

proof fn lemma_keyed_rows_len<R: KeyedRow>(target: Target, rows: Seq<R>)
    ensures
        keyed_rows(target, rows).len() == rows.len(),
    decreases rows.len(),
{
    if rows.len() > 0 {
        lemma_keyed_rows_len(target, rows.drop_last());
    }
}

/// A booking user is moved whole: stored under its id, its record's `id`
/// is the row's id and its `fixed_price` the row's fixed price, a JSON
/// number (or `null` for a user without one).
pub proof fn lemma_booking_user_kept(u: BuRow)
    ensures
        u.key_spec() == encode_utf8(u.id@),
        member_of(u.record(), "id"@) == Some(json_string(u.id@)),
        member_of(u.record(), "fixed_price"@) == Some(
            match u.fixed_price {
                Some(p) => int_str(p as int),
                None => "null"@,
            },
        ),
{
    reveal_strlit("id");
    reveal_strlit("fixed_price");
    reveal_strlit("null");
    let f = u.record();
    assert(f[0].0.len() != "fixed_price"@.len());
    assert(f.drop_first()[0] == f[1]);
    assert(member_of(f.drop_first(), "fixed_price"@) == Some(f[1].1));
}

/// A category becomes a collection record whose members, after `id` and
/// `created`, carry every column of the row under its name.
pub proof fn lemma_cat_record(r: CatRow)
    ensures
        member_of(<CatRow as CollectionRow>::body(&r), "name"@) == Some(json_string(r.name@)),
        member_of(<CatRow as CollectionRow>::body(&r), "slug"@) == Some(json_string(r.slug@)),
        member_of(<CatRow as CollectionRow>::body(&r), "position"@) == Some(int_str(r.position as int)),
        member_of(<CatRow as CollectionRow>::body(&r), "active"@) == Some(jbool(r.active)),
        member_of(<CatRow as CollectionRow>::body(&r), "created_at"@) == Some(int_str(r.created_at as int)),
        member_of(<CatRow as CollectionRow>::body(&r), "updated_at"@) == Some(int_str(r.updated_at as int)),
{
    let f = <CatRow as CollectionRow>::body(&r);
    reveal_strlit("name");
    reveal_strlit("slug");
    reveal_strlit("position");
    reveal_strlit("active");
    reveal_strlit("created_at");
    reveal_strlit("updated_at");
    assert(f[0].0 == "name"@);
    assert(f[1].0 == "slug"@);
    assert(f[2].0 == "position"@);
    assert(f[3].0 == "active"@);
    assert(f[4].0 == "created_at"@);
    assert(f[5].0 == "updated_at"@);
    assert("name"@[0] != "slug"@[0]);
    assert("created_at"@[0] != "updated_at"@[0]);
    lemma_member_at(f, 0);
    lemma_member_at(f, 1);
    lemma_member_at(f, 2);
    lemma_member_at(f, 3);
    lemma_member_at(f, 4);
    lemma_member_at(f, 5);
}

/// A package becomes a collection record whose members, after `id` and
/// `created`, carry every column of the row under its name.
pub proof fn lemma_pkg_record(r: PkgRow)
    ensures
        member_of(<PkgRow as CollectionRow>::body(&r), "name"@) == Some(json_string(r.name@)),
        member_of(<PkgRow as CollectionRow>::body(&r), "slot_count"@) == Some(int_str(r.slot_count as int)),
        member_of(<PkgRow as CollectionRow>::body(&r), "price"@) == Some(int_str(r.price as int)),
        member_of(<PkgRow as CollectionRow>::body(&r), "active"@) == Some(jbool(r.active)),
{
    let f = <PkgRow as CollectionRow>::body(&r);
    reveal_strlit("name");
    reveal_strlit("slot_count");
    reveal_strlit("price");
    reveal_strlit("active");
    assert(f[0].0 == "name"@);
    assert(f[1].0 == "slot_count"@);
    assert(f[2].0 == "price"@);
    assert(f[3].0 == "active"@);
    lemma_member_at(f, 0);
    lemma_member_at(f, 1);
    lemma_member_at(f, 2);
    lemma_member_at(f, 3);
}

/// A subscription plan becomes a collection record whose members, after `id` and
/// `created`, carry every column of the row under its name.
pub proof fn lemma_sub_record(r: SubRow)
    ensures
        member_of(<SubRow as CollectionRow>::body(&r), "name"@) == Some(json_string(r.name@)),
        member_of(<SubRow as CollectionRow>::body(&r), "valid_from"@) == Some(json_string(r.valid_from@)),
        member_of(<SubRow as CollectionRow>::body(&r), "valid_until"@) == Some(json_string(r.valid_until@)),
        member_of(<SubRow as CollectionRow>::body(&r), "daily_limit"@) == Some(int_str(r.daily_limit as int)),
        member_of(<SubRow as CollectionRow>::body(&r), "price"@) == Some(int_str(r.price as int)),
        member_of(<SubRow as CollectionRow>::body(&r), "shareable"@) == Some(jbool(r.shareable)),
        member_of(<SubRow as CollectionRow>::body(&r), "max_members"@) == Some(int_str(r.max_members as int)),
        member_of(<SubRow as CollectionRow>::body(&r), "active"@) == Some(jbool(r.active)),
{
    let f = <SubRow as CollectionRow>::body(&r);
    reveal_strlit("name");
    reveal_strlit("valid_from");
    reveal_strlit("valid_until");
    reveal_strlit("daily_limit");
    reveal_strlit("price");
    reveal_strlit("shareable");
    reveal_strlit("max_members");
    reveal_strlit("active");
    assert(f[0].0 == "name"@);
    assert(f[1].0 == "valid_from"@);
    assert(f[2].0 == "valid_until"@);
    assert(f[3].0 == "daily_limit"@);
    assert(f[4].0 == "price"@);
    assert(f[5].0 == "shareable"@);
    assert(f[6].0 == "max_members"@);
    assert(f[7].0 == "active"@);
    assert("valid_until"@[0] != "daily_limit"@[0]);
    assert("valid_until"@[0] != "max_members"@[0]);
    assert("daily_limit"@[0] != "max_members"@[0]);
    lemma_member_at(f, 0);
    lemma_member_at(f, 1);
    lemma_member_at(f, 2);
    lemma_member_at(f, 3);
    lemma_member_at(f, 4);
    lemma_member_at(f, 5);
    lemma_member_at(f, 6);
    lemma_member_at(f, 7);
}

/// A pricing rule becomes a collection record whose members, after `id` and
/// `created`, carry every column of the row under its name.
pub proof fn lemma_pr_record(r: PrRow)
    ensures
        member_of(<PrRow as CollectionRow>::body(&r), "name"@) == Some(json_string(r.name@)),
        member_of(<PrRow as CollectionRow>::body(&r), "start_hour"@) == Some(int_str(r.start_hour as int)),
        member_of(<PrRow as CollectionRow>::body(&r), "end_hour"@) == Some(int_str(r.end_hour as int)),
        member_of(<PrRow as CollectionRow>::body(&r), "price"@) == Some(int_str(r.price as int)),
        member_of(<PrRow as CollectionRow>::body(&r), "active"@) == Some(jbool(r.active)),
{
    let f = <PrRow as CollectionRow>::body(&r);
    reveal_strlit("name");
    reveal_strlit("start_hour");
    reveal_strlit("end_hour");
    reveal_strlit("price");
    reveal_strlit("active");
    assert(f[0].0 == "name"@);
    assert(f[1].0 == "start_hour"@);
    assert(f[2].0 == "end_hour"@);
    assert(f[3].0 == "price"@);
    assert(f[4].0 == "active"@);
    lemma_member_at(f, 0);
    lemma_member_at(f, 1);
    lemma_member_at(f, 2);
    lemma_member_at(f, 3);
    lemma_member_at(f, 4);
}

/// A gift card becomes a collection record whose members, after `id` and
/// `created`, carry every column of the row under its name.
pub proof fn lemma_gc_record(r: GcRow)
    ensures
        member_of(<GcRow as CollectionRow>::body(&r), "code"@) == Some(json_string(r.code@)),
        member_of(<GcRow as CollectionRow>::body(&r), "amount"@) == Some(int_str(r.amount as int)),
        member_of(<GcRow as CollectionRow>::body(&r), "balance"@) == Some(int_str(r.balance as int)),
        member_of(<GcRow as CollectionRow>::body(&r), "currency"@) == Some(json_string(r.currency@)),
        member_of(<GcRow as CollectionRow>::body(&r), "status"@) == Some(json_string(r.status@)),
        member_of(<GcRow as CollectionRow>::body(&r), "created_at"@) == Some(int_str(r.created_at as int)),
        member_of(<GcRow as CollectionRow>::body(&r), "updated_at"@) == Some(int_str(r.updated_at as int)),
{
    let f = <GcRow as CollectionRow>::body(&r);
    reveal_strlit("code");
    reveal_strlit("amount");
    reveal_strlit("balance");
    reveal_strlit("currency");
    reveal_strlit("status");
    reveal_strlit("created_at");
    reveal_strlit("updated_at");
    assert(f[0].0 == "code"@);
    assert(f[1].0 == "amount"@);
    assert(f[2].0 == "balance"@);
    assert(f[3].0 == "currency"@);
    assert(f[4].0 == "status"@);
    assert(f[5].0 == "created_at"@);
    assert(f[6].0 == "updated_at"@);
    assert("amount"@[0] != "status"@[0]);
    assert("created_at"@[0] != "updated_at"@[0]);
    lemma_member_at(f, 0);
    lemma_member_at(f, 1);
    lemma_member_at(f, 2);
    lemma_member_at(f, 3);
    lemma_member_at(f, 4);
    lemma_member_at(f, 5);
    lemma_member_at(f, 6);
}

/// A SMS template becomes a collection record whose members, after `id` and
/// `created`, carry every column of the row under its name.
pub proof fn lemma_sms_record(r: SmsRow)
    ensures
        member_of(<SmsRow as CollectionRow>::body(&r), "key"@) == Some(json_string(r.key@)),
        member_of(<SmsRow as CollectionRow>::body(&r), "body"@) == Some(json_string(r.body@)),
        member_of(<SmsRow as CollectionRow>::body(&r), "updated_at"@) == Some(int_str(r.updated_at as int)),
{
    let f = <SmsRow as CollectionRow>::body(&r);
    reveal_strlit("key");
    reveal_strlit("body");
    reveal_strlit("updated_at");
    assert(f[0].0 == "key"@);
    assert(f[1].0 == "body"@);
    assert(f[2].0 == "updated_at"@);
    lemma_member_at(f, 0);
    lemma_member_at(f, 1);
    lemma_member_at(f, 2);
}

/// A email template becomes a collection record whose members, after `id` and
/// `created`, carry every column of the row under its name.
pub proof fn lemma_em_record(r: EmRow)
    ensures
        member_of(<EmRow as CollectionRow>::body(&r), "key"@) == Some(json_string(r.key@)),
        member_of(<EmRow as CollectionRow>::body(&r), "subject"@) == Some(json_string(r.subject@)),
        member_of(<EmRow as CollectionRow>::body(&r), "body_html"@) == Some(json_string(r.body_html@)),
        member_of(<EmRow as CollectionRow>::body(&r), "language"@) == Some(json_string(r.language@)),
        member_of(<EmRow as CollectionRow>::body(&r), "updated_at"@) == Some(int_str(r.updated_at as int)),
{
    let f = <EmRow as CollectionRow>::body(&r);
    reveal_strlit("key");
    reveal_strlit("subject");
    reveal_strlit("body_html");
    reveal_strlit("language");
    reveal_strlit("updated_at");
    assert(f[0].0 == "key"@);
    assert(f[1].0 == "subject"@);
    assert(f[2].0 == "body_html"@);
    assert(f[3].0 == "language"@);
    assert(f[4].0 == "updated_at"@);
    lemma_member_at(f, 0);
    lemma_member_at(f, 1);
    lemma_member_at(f, 2);
    lemma_member_at(f, 3);
    lemma_member_at(f, 4);
}

/// A bank-transfer settings row becomes a collection record whose members, after `id` and
/// `created`, carry every column of the row under its name.
pub proof fn lemma_bt_record(r: BtRow)
    ensures
        member_of(<BtRow as CollectionRow>::body(&r), "bank_name"@) == Some(json_string(r.bank_name@)),
        member_of(<BtRow as CollectionRow>::body(&r), "account_holder"@) == Some(json_string(r.account_holder@)),
        member_of(<BtRow as CollectionRow>::body(&r), "kennitala"@) == Some(json_string(r.kennitala@)),
        member_of(<BtRow as CollectionRow>::body(&r), "account_number"@) == Some(json_string(r.account_number@)),
        member_of(<BtRow as CollectionRow>::body(&r), "updated_at"@) == Some(int_str(r.updated_at as int)),
{
    let f = <BtRow as CollectionRow>::body(&r);
    reveal_strlit("bank_name");
    reveal_strlit("account_holder");
    reveal_strlit("kennitala");
    reveal_strlit("account_number");
    reveal_strlit("updated_at");
    assert(f[0].0 == "bank_name"@);
    assert(f[1].0 == "account_holder"@);
    assert(f[2].0 == "kennitala"@);
    assert(f[3].0 == "account_number"@);
    assert(f[4].0 == "updated_at"@);
    assert("bank_name"@[0] != "kennitala"@[0]);
    assert("account_holder"@[8] != "account_number"@[8]);
    lemma_member_at(f, 0);
    lemma_member_at(f, 1);
    lemma_member_at(f, 2);
    lemma_member_at(f, 3);
    lemma_member_at(f, 4);
}

/// A notification settings row becomes a collection record whose members, after `id` and
/// `created`, carry every column of the row under its name.
pub proof fn lemma_notif_record(r: NotifRow)
    ensures
        member_of(<NotifRow as CollectionRow>::body(&r), "admin_copy_enabled"@) == Some(jbool(r.admin_copy_enabled)),
        member_of(<NotifRow as CollectionRow>::body(&r), "admin_email"@) == Some(json_string(r.admin_email@)),
        member_of(<NotifRow as CollectionRow>::body(&r), "updated_at"@) == Some(int_str(r.updated_at as int)),
{
    let f = <NotifRow as CollectionRow>::body(&r);
    reveal_strlit("admin_copy_enabled");
    reveal_strlit("admin_email");
    reveal_strlit("updated_at");
    assert(f[0].0 == "admin_copy_enabled"@);
    assert(f[1].0 == "admin_email"@);
    assert(f[2].0 == "updated_at"@);
    lemma_member_at(f, 0);
    lemma_member_at(f, 1);
    lemma_member_at(f, 2);
}

/// A Landsbankinn settings row becomes a collection record whose members, after `id` and
/// `created`, carry every column of the row under its name.
pub proof fn lemma_lb_record(r: LbRow)
    ensures
        member_of(<LbRow as CollectionRow>::body(&r), "api_base_url"@) == Some(json_string(r.api_base_url@)),
        member_of(<LbRow as CollectionRow>::body(&r), "user_id"@) == Some(json_string(r.user_id@)),
        member_of(<LbRow as CollectionRow>::body(&r), "api_key"@) == Some(json_string(r.api_key@)),
        member_of(<LbRow as CollectionRow>::body(&r), "entity_id"@) == Some(json_string(r.entity_id@)),
        member_of(<LbRow as CollectionRow>::body(&r), "payment_contract_id"@) == Some(json_string(r.payment_contract_id@)),
        member_of(<LbRow as CollectionRow>::body(&r), "interaction_type"@) == Some(json_string(r.interaction_type@)),
        member_of(<LbRow as CollectionRow>::body(&r), "updated_at"@) == Some(int_str(r.updated_at as int)),
{
    let f = <LbRow as CollectionRow>::body(&r);
    reveal_strlit("api_base_url");
    reveal_strlit("user_id");
    reveal_strlit("api_key");
    reveal_strlit("entity_id");
    reveal_strlit("payment_contract_id");
    reveal_strlit("interaction_type");
    reveal_strlit("updated_at");
    assert(f[0].0 == "api_base_url"@);
    assert(f[1].0 == "user_id"@);
    assert(f[2].0 == "api_key"@);
    assert(f[3].0 == "entity_id"@);
    assert(f[4].0 == "payment_contract_id"@);
    assert(f[5].0 == "interaction_type"@);
    assert(f[6].0 == "updated_at"@);
    assert("user_id"@[0] != "api_key"@[0]);
    lemma_member_at(f, 0);
    lemma_member_at(f, 1);
    lemma_member_at(f, 2);
    lemma_member_at(f, 3);
    lemma_member_at(f, 4);
    lemma_member_at(f, 5);
    lemma_member_at(f, 6);
}

/// A Payday settings row becomes a collection record whose members, after `id` and
/// `created`, carry every column of the row under its name.
pub proof fn lemma_pd_record(r: PdRow)
    ensures
        member_of(<PdRow as CollectionRow>::body(&r), "enabled"@) == Some(jbool(r.enabled)),
        member_of(<PdRow as CollectionRow>::body(&r), "api_base_url"@) == Some(json_string(r.api_base_url@)),
        member_of(<PdRow as CollectionRow>::body(&r), "client_id"@) == Some(json_string(r.client_id@)),
        member_of(<PdRow as CollectionRow>::body(&r), "client_secret"@) == Some(json_string(r.client_secret@)),
        member_of(<PdRow as CollectionRow>::body(&r), "default_vat_percentage"@) == Some(int_str(r.default_vat_percentage as int)),
        member_of(<PdRow as CollectionRow>::body(&r), "create_electronic_invoice"@) == Some(jbool(r.create_electronic_invoice)),
        member_of(<PdRow as CollectionRow>::body(&r), "send_email"@) == Some(jbool(r.send_email)),
        member_of(<PdRow as CollectionRow>::body(&r), "create_claim"@) == Some(jbool(r.create_claim)),
        member_of(<PdRow as CollectionRow>::body(&r), "due_days"@) == Some(int_str(r.due_days as int)),
        member_of(<PdRow as CollectionRow>::body(&r), "final_due_days"@) == Some(int_str(r.final_due_days as int)),
        member_of(<PdRow as CollectionRow>::body(&r), "updated_at"@) == Some(int_str(r.updated_at as int)),
{
    let f = <PdRow as CollectionRow>::body(&r);
    reveal_strlit("enabled");
    reveal_strlit("api_base_url");
    reveal_strlit("client_id");
    reveal_strlit("client_secret");
    reveal_strlit("default_vat_percentage");
    reveal_strlit("create_electronic_invoice");
    reveal_strlit("send_email");
    reveal_strlit("create_claim");
    reveal_strlit("due_days");
    reveal_strlit("final_due_days");
    reveal_strlit("updated_at");
    assert(f[0].0 == "enabled"@);
    assert(f[1].0 == "api_base_url"@);
    assert(f[2].0 == "client_id"@);
    assert(f[3].0 == "client_secret"@);
    assert(f[4].0 == "default_vat_percentage"@);
    assert(f[5].0 == "create_electronic_invoice"@);
    assert(f[6].0 == "send_email"@);
    assert(f[7].0 == "create_claim"@);
    assert(f[8].0 == "due_days"@);
    assert(f[9].0 == "final_due_days"@);
    assert(f[10].0 == "updated_at"@);
    assert("api_base_url"@[0] != "create_claim"@[0]);
    assert("send_email"@[0] != "updated_at"@[0]);
    lemma_member_at(f, 0);
    lemma_member_at(f, 1);
    lemma_member_at(f, 2);
    lemma_member_at(f, 3);
    lemma_member_at(f, 4);
    lemma_member_at(f, 5);
    lemma_member_at(f, 6);
    lemma_member_at(f, 7);
    lemma_member_at(f, 8);
    lemma_member_at(f, 9);
    lemma_member_at(f, 10);
}

/// A site user becomes a collection record whose members, after `id` and
/// `created`, carry every column of the row under its name.
pub proof fn lemma_usr_record(r: UsrRow)
    ensures
        member_of(<UsrRow as CollectionRow>::body(&r), "name"@) == Some(json_string(r.name@)),
        member_of(<UsrRow as CollectionRow>::body(&r), "role"@) == Some(json_string(r.role@)),
        member_of(<UsrRow as CollectionRow>::body(&r), "created_at"@) == Some(int_str(r.created_at as int)),
        member_of(<UsrRow as CollectionRow>::body(&r), "updated_at"@) == Some(int_str(r.updated_at as int)),
{
    let f = <UsrRow as CollectionRow>::body(&r);
    reveal_strlit("name");
    reveal_strlit("role");
    reveal_strlit("created_at");
    reveal_strlit("updated_at");
    assert(f[0].0 == "name"@);
    assert(f[1].0 == "role"@);
    assert(f[2].0 == "created_at"@);
    assert(f[3].0 == "updated_at"@);
    assert("name"@[0] != "role"@[0]);
    assert("created_at"@[0] != "updated_at"@[0]);
    lemma_member_at(f, 0);
    lemma_member_at(f, 1);
    lemma_member_at(f, 2);
    lemma_member_at(f, 3);
}

/// A session is moved whole: stored under its key, its record carries
/// every column of the row under the column's name.
pub proof fn lemma_sess_stored(r: SessRow)
    ensures
        <SessRow as KeyedRow>::key_spec(&r) == encode_utf8(r.token@),
        member_of(<SessRow as KeyedRow>::record(&r), "email"@) == Some(json_string(r.email@)),
        member_of(<SessRow as KeyedRow>::record(&r), "created"@) == Some(int_str(r.created_sec as int)),
        member_of(<SessRow as KeyedRow>::record(&r), "expires_at"@) == Some(int_str(r.expires_sec as int)),
{
    let f = <SessRow as KeyedRow>::record(&r);
    reveal_strlit("email");
    reveal_strlit("created");
    reveal_strlit("expires_at");
    assert(f[0].0 == "email"@);
    assert(f[1].0 == "created"@);
    assert(f[2].0 == "expires_at"@);
    lemma_member_at(f, 0);
    lemma_member_at(f, 1);
    lemma_member_at(f, 2);
}

/// A booking is moved whole: stored under its key, its record carries
/// every column of the row under the column's name.
pub proof fn lemma_bk_stored(r: BkRow)
    ensures
        <BkRow as KeyedRow>::key_spec(&r) == be_bytes((r.starts_at as u64) as nat, 8),
        member_of(<BkRow as KeyedRow>::record(&r), "id"@) == Some(json_string(r.id@)),
        member_of(<BkRow as KeyedRow>::record(&r), "user_id"@) == Some(json_string(r.user_id@)),
        member_of(<BkRow as KeyedRow>::record(&r), "starts_at"@) == Some(int_str(r.starts_at as int)),
        member_of(<BkRow as KeyedRow>::record(&r), "status"@) == Some(json_string(r.status@)),
        member_of(<BkRow as KeyedRow>::record(&r), "payment_type"@) == Some(json_string(r.payment_type@)),
        member_of(<BkRow as KeyedRow>::record(&r), "price_paid"@) == Some(jopt_int(r.price_paid)),
        member_of(<BkRow as KeyedRow>::record(&r), "user_package_id"@) == Some(jopt_str(r.user_package_id)),
        member_of(<BkRow as KeyedRow>::record(&r), "user_subscription_id"@) == Some(jopt_str(r.user_subscription_id)),
        member_of(<BkRow as KeyedRow>::record(&r), "notes"@) == Some(jopt_str(r.notes)),
        member_of(<BkRow as KeyedRow>::record(&r), "created_at"@) == Some(int_str(r.created_at as int)),
        member_of(<BkRow as KeyedRow>::record(&r), "cancelled_at"@) == Some(jopt_int(r.cancelled_at)),
{
    let f = <BkRow as KeyedRow>::record(&r);
    reveal_strlit("id");
    reveal_strlit("user_id");
    reveal_strlit("starts_at");
    reveal_strlit("status");
    reveal_strlit("payment_type");
    reveal_strlit("price_paid");
    reveal_strlit("user_package_id");
    reveal_strlit("user_subscription_id");
    reveal_strlit("notes");
    reveal_strlit("created_at");
    reveal_strlit("cancelled_at");
    assert(f[0].0 == "id"@);
    assert(f[1].0 == "user_id"@);
    assert(f[2].0 == "starts_at"@);
    assert(f[3].0 == "status"@);
    assert(f[4].0 == "payment_type"@);
    assert(f[5].0 == "price_paid"@);
    assert(f[6].0 == "user_package_id"@);
    assert(f[7].0 == "user_subscription_id"@);
    assert(f[8].0 == "notes"@);
    assert(f[9].0 == "created_at"@);
    assert(f[10].0 == "cancelled_at"@);
    assert("price_paid"@[0] != "created_at"@[0]);
    assert("payment_type"@[0] != "cancelled_at"@[0]);
    lemma_member_at(f, 0);
    lemma_member_at(f, 1);
    lemma_member_at(f, 2);
    lemma_member_at(f, 3);
    lemma_member_at(f, 4);
    lemma_member_at(f, 5);
    lemma_member_at(f, 6);
    lemma_member_at(f, 7);
    lemma_member_at(f, 8);
    lemma_member_at(f, 9);
    lemma_member_at(f, 10);
}

/// A held package is moved whole: stored under its key, its record carries
/// every column of the row under the column's name.
pub proof fn lemma_up_stored(r: UpRow)
    ensures
        <UpRow as KeyedRow>::key_spec(&r) == encode_utf8(r.id@),
        member_of(<UpRow as KeyedRow>::record(&r), "id"@) == Some(json_string(r.id@)),
        member_of(<UpRow as KeyedRow>::record(&r), "user_id"@) == Some(json_string(r.user_id@)),
        member_of(<UpRow as KeyedRow>::record(&r), "remaining"@) == Some(int_str(r.remaining as int)),
        member_of(<UpRow as KeyedRow>::record(&r), "package_name"@) == Some(json_string(r.package_name@)),
        member_of(<UpRow as KeyedRow>::record(&r), "slot_count"@) == Some(int_str(r.slot_count as int)),
{
    let f = <UpRow as KeyedRow>::record(&r);
    reveal_strlit("id");
    reveal_strlit("user_id");
    reveal_strlit("remaining");
    reveal_strlit("package_name");
    reveal_strlit("slot_count");
    assert(f[0].0 == "id"@);
    assert(f[1].0 == "user_id"@);
    assert(f[2].0 == "remaining"@);
    assert(f[3].0 == "package_name"@);
    assert(f[4].0 == "slot_count"@);
    lemma_member_at(f, 0);
    lemma_member_at(f, 1);
    lemma_member_at(f, 2);
    lemma_member_at(f, 3);
    lemma_member_at(f, 4);
}

/// A subscription member is moved whole: stored under its key, its record carries
/// every column of the row under the column's name.
pub proof fn lemma_sm_stored(r: SmRow)
    ensures
        <SmRow as KeyedRow>::key_spec(&r) == encode_utf8(r.user_subscription_id@ + ":"@ + r.id@),
        member_of(<SmRow as KeyedRow>::record(&r), "id"@) == Some(json_string(r.id@)),
        member_of(<SmRow as KeyedRow>::record(&r), "user_subscription_id"@) == Some(json_string(r.user_subscription_id@)),
        member_of(<SmRow as KeyedRow>::record(&r), "user_id"@) == Some(jopt_str(r.user_id)),
        member_of(<SmRow as KeyedRow>::record(&r), "role"@) == Some(json_string(r.role@)),
        member_of(<SmRow as KeyedRow>::record(&r), "status"@) == Some(json_string(r.status@)),
        member_of(<SmRow as KeyedRow>::record(&r), "invited_phone"@) == Some(jopt_str(r.invited_phone)),
        member_of(<SmRow as KeyedRow>::record(&r), "invited_at"@) == Some(int_str(r.invited_at as int)),
        member_of(<SmRow as KeyedRow>::record(&r), "accepted_at"@) == Some(jopt_int(r.accepted_at)),
        member_of(<SmRow as KeyedRow>::record(&r), "removed_at"@) == Some(jopt_int(r.removed_at)),
{
    let f = <SmRow as KeyedRow>::record(&r);
    reveal_strlit("id");
    reveal_strlit("user_subscription_id");
    reveal_strlit("user_id");
    reveal_strlit("role");
    reveal_strlit("status");
    reveal_strlit("invited_phone");
    reveal_strlit("invited_at");
    reveal_strlit("accepted_at");
    reveal_strlit("removed_at");
    assert(f[0].0 == "id"@);
    assert(f[1].0 == "user_subscription_id"@);
    assert(f[2].0 == "user_id"@);
    assert(f[3].0 == "role"@);
    assert(f[4].0 == "status"@);
    assert(f[5].0 == "invited_phone"@);
    assert(f[6].0 == "invited_at"@);
    assert(f[7].0 == "accepted_at"@);
    assert(f[8].0 == "removed_at"@);
    assert("invited_at"@[0] != "removed_at"@[0]);
    lemma_member_at(f, 0);
    lemma_member_at(f, 1);
    lemma_member_at(f, 2);
    lemma_member_at(f, 3);
    lemma_member_at(f, 4);
    lemma_member_at(f, 5);
    lemma_member_at(f, 6);
    lemma_member_at(f, 7);
    lemma_member_at(f, 8);
}

/// A cart is moved whole: stored under its key, its record carries
/// every column of the row under the column's name.
pub proof fn lemma_ct_stored(r: CtRow)
    ensures
        <CtRow as KeyedRow>::key_spec(&r) == encode_utf8(r.id@),
        member_of(<CtRow as KeyedRow>::record(&r), "id"@) == Some(json_string(r.id@)),
        member_of(<CtRow as KeyedRow>::record(&r), "user_id"@) == Some(jopt_str(r.user_id)),
        member_of(<CtRow as KeyedRow>::record(&r), "status"@) == Some(json_string(r.status@)),
        member_of(<CtRow as KeyedRow>::record(&r), "currency"@) == Some(json_string(r.currency@)),
        member_of(<CtRow as KeyedRow>::record(&r), "created_at"@) == Some(int_str(r.created_at as int)),
        member_of(<CtRow as KeyedRow>::record(&r), "updated_at"@) == Some(int_str(r.updated_at as int)),
{
    let f = <CtRow as KeyedRow>::record(&r);
    reveal_strlit("id");
    reveal_strlit("user_id");
    reveal_strlit("status");
    reveal_strlit("currency");
    reveal_strlit("created_at");
    reveal_strlit("updated_at");
    assert(f[0].0 == "id"@);
    assert(f[1].0 == "user_id"@);
    assert(f[2].0 == "status"@);
    assert(f[3].0 == "currency"@);
    assert(f[4].0 == "created_at"@);
    assert(f[5].0 == "updated_at"@);
    assert("created_at"@[0] != "updated_at"@[0]);
    lemma_member_at(f, 0);
    lemma_member_at(f, 1);
    lemma_member_at(f, 2);
    lemma_member_at(f, 3);
    lemma_member_at(f, 4);
    lemma_member_at(f, 5);
}

/// A cart line is moved whole: stored under its key, its record carries
/// every column of the row under the column's name.
pub proof fn lemma_ci_stored(r: CiRow)
    ensures
        <CiRow as KeyedRow>::key_spec(&r) == encode_utf8(r.id@),
        member_of(<CiRow as KeyedRow>::record(&r), "id"@) == Some(json_string(r.id@)),
        member_of(<CiRow as KeyedRow>::record(&r), "cart_id"@) == Some(json_string(r.cart_id@)),
        member_of(<CiRow as KeyedRow>::record(&r), "type"@) == Some(json_string(r.itype@)),
        member_of(<CiRow as KeyedRow>::record(&r), "ref_id"@) == Some(json_string(r.ref_id@)),
        member_of(<CiRow as KeyedRow>::record(&r), "name_snapshot"@) == Some(json_string(r.name_snapshot@)),
        member_of(<CiRow as KeyedRow>::record(&r), "unit_price"@) == Some(int_str(r.unit_price as int)),
        member_of(<CiRow as KeyedRow>::record(&r), "quantity"@) == Some(int_str(r.quantity as int)),
        member_of(<CiRow as KeyedRow>::record(&r), "metadata"@) == Some(jraw(r.metadata)),
        member_of(<CiRow as KeyedRow>::record(&r), "created_at"@) == Some(int_str(r.created_at as int)),
{
    let f = <CiRow as KeyedRow>::record(&r);
    reveal_strlit("id");
    reveal_strlit("cart_id");
    reveal_strlit("type");
    reveal_strlit("ref_id");
    reveal_strlit("name_snapshot");
    reveal_strlit("unit_price");
    reveal_strlit("quantity");
    reveal_strlit("metadata");
    reveal_strlit("created_at");
    assert(f[0].0 == "id"@);
    assert(f[1].0 == "cart_id"@);
    assert(f[2].0 == "type"@);
    assert(f[3].0 == "ref_id"@);
    assert(f[4].0 == "name_snapshot"@);
    assert(f[5].0 == "unit_price"@);
    assert(f[6].0 == "quantity"@);
    assert(f[7].0 == "metadata"@);
    assert(f[8].0 == "created_at"@);
    assert("quantity"@[0] != "metadata"@[0]);
    assert("unit_price"@[0] != "created_at"@[0]);
    lemma_member_at(f, 0);
    lemma_member_at(f, 1);
    lemma_member_at(f, 2);
    lemma_member_at(f, 3);
    lemma_member_at(f, 4);
    lemma_member_at(f, 5);
    lemma_member_at(f, 6);
    lemma_member_at(f, 7);
    lemma_member_at(f, 8);
}

/// A gift card is moved whole: stored under its key, its record carries
/// every column of the row under the column's name.
pub proof fn lemma_gc_stored(r: GcRow)
    ensures
        <GcRow as KeyedRow>::key_spec(&r) == encode_utf8(r.id@),
        member_of(<GcRow as KeyedRow>::record(&r), "id"@) == Some(json_string(r.id@)),
        member_of(<GcRow as KeyedRow>::record(&r), "code"@) == Some(json_string(r.code@)),
        member_of(<GcRow as KeyedRow>::record(&r), "amount"@) == Some(int_str(r.amount as int)),
        member_of(<GcRow as KeyedRow>::record(&r), "balance"@) == Some(int_str(r.balance as int)),
        member_of(<GcRow as KeyedRow>::record(&r), "currency"@) == Some(json_string(r.currency@)),
        member_of(<GcRow as KeyedRow>::record(&r), "status"@) == Some(json_string(r.status@)),
        member_of(<GcRow as KeyedRow>::record(&r), "expires_at"@) == Some(jopt_int(r.expires_at)),
        member_of(<GcRow as KeyedRow>::record(&r), "delivery_at"@) == Some(jopt_int(r.delivery_at)),
        member_of(<GcRow as KeyedRow>::record(&r), "delivered_at"@) == Some(jopt_int(r.delivered_at)),
        member_of(<GcRow as KeyedRow>::record(&r), "purchased_by_user_id"@) == Some(jopt_str(r.purchased_by_user_id)),
        member_of(<GcRow as KeyedRow>::record(&r), "cart_id"@) == Some(jopt_str(r.cart_id)),
        member_of(<GcRow as KeyedRow>::record(&r), "recipient_email"@) == Some(jopt_str(r.recipient_email)),
        member_of(<GcRow as KeyedRow>::record(&r), "recipient_phone"@) == Some(jopt_str(r.recipient_phone)),
        member_of(<GcRow as KeyedRow>::record(&r), "recipient_name"@) == Some(jopt_str(r.recipient_name)),
        member_of(<GcRow as KeyedRow>::record(&r), "message"@) == Some(jopt_str(r.message)),
        member_of(<GcRow as KeyedRow>::record(&r), "created_at"@) == Some(int_str(r.created_at as int)),
        member_of(<GcRow as KeyedRow>::record(&r), "updated_at"@) == Some(int_str(r.updated_at as int)),
{
    let f = <GcRow as KeyedRow>::record(&r);
    reveal_strlit("id");
    reveal_strlit("code");
    reveal_strlit("amount");
    reveal_strlit("balance");
    reveal_strlit("currency");
    reveal_strlit("status");
    reveal_strlit("expires_at");
    reveal_strlit("delivery_at");
    reveal_strlit("delivered_at");
    reveal_strlit("purchased_by_user_id");
    reveal_strlit("cart_id");
    reveal_strlit("recipient_email");
    reveal_strlit("recipient_phone");
    reveal_strlit("recipient_name");
    reveal_strlit("message");
    reveal_strlit("created_at");
    reveal_strlit("updated_at");
    assert(f[0].0 == "id"@);
    assert(f[1].0 == "code"@);
    assert(f[2].0 == "amount"@);
    assert(f[3].0 == "balance"@);
    assert(f[4].0 == "currency"@);
    assert(f[5].0 == "status"@);
    assert(f[6].0 == "expires_at"@);
    assert(f[7].0 == "delivery_at"@);
    assert(f[8].0 == "delivered_at"@);
    assert(f[9].0 == "purchased_by_user_id"@);
    assert(f[10].0 == "cart_id"@);
    assert(f[11].0 == "recipient_email"@);
    assert(f[12].0 == "recipient_phone"@);
    assert(f[13].0 == "recipient_name"@);
    assert(f[14].0 == "message"@);
    assert(f[15].0 == "created_at"@);
    assert(f[16].0 == "updated_at"@);
    assert("amount"@[0] != "status"@[0]);
    assert("balance"@[0] != "cart_id"@[0]);
    assert("recipient_email"@[10] != "recipient_phone"@[10]);
    assert("balance"@[0] != "message"@[0]);
    assert("cart_id"@[0] != "message"@[0]);
    assert("expires_at"@[0] != "created_at"@[0]);
    assert("expires_at"@[0] != "updated_at"@[0]);
    assert("created_at"@[0] != "updated_at"@[0]);
    lemma_member_at(f, 0);
    lemma_member_at(f, 1);
    lemma_member_at(f, 2);
    lemma_member_at(f, 3);
    lemma_member_at(f, 4);
    lemma_member_at(f, 5);
    lemma_member_at(f, 6);
    lemma_member_at(f, 7);
    lemma_member_at(f, 8);
    lemma_member_at(f, 9);
    lemma_member_at(f, 10);
    lemma_member_at(f, 11);
    lemma_member_at(f, 12);
    lemma_member_at(f, 13);
    lemma_member_at(f, 14);
    lemma_member_at(f, 15);
    lemma_member_at(f, 16);
}

/// A gift-card redemption is moved whole: stored under its key, its record carries
/// every column of the row under the column's name.
pub proof fn lemma_gcr_stored(r: GcrRow)
    ensures
        <GcrRow as KeyedRow>::key_spec(&r) == encode_utf8(r.id@),
        member_of(<GcrRow as KeyedRow>::record(&r), "id"@) == Some(json_string(r.id@)),
        member_of(<GcrRow as KeyedRow>::record(&r), "gift_card_id"@) == Some(json_string(r.gift_card_id@)),
        member_of(<GcrRow as KeyedRow>::record(&r), "cart_id"@) == Some(jopt_str(r.cart_id)),
        member_of(<GcrRow as KeyedRow>::record(&r), "payment_id"@) == Some(jopt_str(r.payment_id)),
        member_of(<GcrRow as KeyedRow>::record(&r), "amount"@) == Some(int_str(r.amount as int)),
        member_of(<GcrRow as KeyedRow>::record(&r), "redeemed_at"@) == Some(int_str(r.redeemed_at as int)),
{
    let f = <GcrRow as KeyedRow>::record(&r);
    reveal_strlit("id");
    reveal_strlit("gift_card_id");
    reveal_strlit("cart_id");
    reveal_strlit("payment_id");
    reveal_strlit("amount");
    reveal_strlit("redeemed_at");
    assert(f[0].0 == "id"@);
    assert(f[1].0 == "gift_card_id"@);
    assert(f[2].0 == "cart_id"@);
    assert(f[3].0 == "payment_id"@);
    assert(f[4].0 == "amount"@);
    assert(f[5].0 == "redeemed_at"@);
    lemma_member_at(f, 0);
    lemma_member_at(f, 1);
    lemma_member_at(f, 2);
    lemma_member_at(f, 3);
    lemma_member_at(f, 4);
    lemma_member_at(f, 5);
}

/// A payment is moved whole: stored under its key, its record carries
/// every column of the row under the column's name.
pub proof fn lemma_pay_stored(r: PayRow)
    ensures
        <PayRow as KeyedRow>::key_spec(&r) == encode_utf8(r.id@),
        member_of(<PayRow as KeyedRow>::record(&r), "id"@) == Some(json_string(r.id@)),
        member_of(<PayRow as KeyedRow>::record(&r), "cart_id"@) == Some(jopt_str(r.cart_id)),
        member_of(<PayRow as KeyedRow>::record(&r), "user_id"@) == Some(jopt_str(r.user_id)),
        member_of(<PayRow as KeyedRow>::record(&r), "provider"@) == Some(json_string(r.provider@)),
        member_of(<PayRow as KeyedRow>::record(&r), "provider_ref"@) == Some(json_string(r.provider_ref@)),
        member_of(<PayRow as KeyedRow>::record(&r), "status"@) == Some(json_string(r.status@)),
        member_of(<PayRow as KeyedRow>::record(&r), "amount"@) == Some(int_str(r.amount as int)),
        member_of(<PayRow as KeyedRow>::record(&r), "currency"@) == Some(json_string(r.currency@)),
        member_of(<PayRow as KeyedRow>::record(&r), "raw_payload"@) == Some(jraw(r.raw_payload)),
        member_of(<PayRow as KeyedRow>::record(&r), "created_at"@) == Some(int_str(r.created_at as int)),
        member_of(<PayRow as KeyedRow>::record(&r), "updated_at"@) == Some(int_str(r.updated_at as int)),
{
    let f = <PayRow as KeyedRow>::record(&r);
    reveal_strlit("id");
    reveal_strlit("cart_id");
    reveal_strlit("user_id");
    reveal_strlit("provider");
    reveal_strlit("provider_ref");
    reveal_strlit("status");
    reveal_strlit("amount");
    reveal_strlit("currency");
    reveal_strlit("raw_payload");
    reveal_strlit("created_at");
    reveal_strlit("updated_at");
    assert(f[0].0 == "id"@);
    assert(f[1].0 == "cart_id"@);
    assert(f[2].0 == "user_id"@);
    assert(f[3].0 == "provider"@);
    assert(f[4].0 == "provider_ref"@);
    assert(f[5].0 == "status"@);
    assert(f[6].0 == "amount"@);
    assert(f[7].0 == "currency"@);
    assert(f[8].0 == "raw_payload"@);
    assert(f[9].0 == "created_at"@);
    assert(f[10].0 == "updated_at"@);
    assert("cart_id"@[0] != "user_id"@[0]);
    assert("status"@[0] != "amount"@[0]);
    assert("provider"@[0] != "currency"@[0]);
    assert("created_at"@[0] != "updated_at"@[0]);
    lemma_member_at(f, 0);
    lemma_member_at(f, 1);
    lemma_member_at(f, 2);
    lemma_member_at(f, 3);
    lemma_member_at(f, 4);
    lemma_member_at(f, 5);
    lemma_member_at(f, 6);
    lemma_member_at(f, 7);
    lemma_member_at(f, 8);
    lemma_member_at(f, 9);
    lemma_member_at(f, 10);
}

/// Every booking user of the old database is written to the booking-user
/// store, in order, under its id, with its fixed price.
pub proof fn lemma_booking_users_migrated(d: AllData, now: i64, i: int)
    requires
        0 <= i < d.booking_users@.len(),
    ensures
        keyed_rows(Target::BookingUsers, d.booking_users@)[i] == (
            Target::BookingUsers,
            encode_utf8(d.booking_users@[i].id@),
            encode_utf8(object(d.booking_users@[i].record())),
        ),
        member_of(d.booking_users@[i].record(), "fixed_price"@) == Some(
            match d.booking_users@[i].fixed_price {
                Some(p) => int_str(p as int),
                None => "null"@,
            },
        ),
{
    lemma_keyed_rows_index(Target::BookingUsers, d.booking_users@, i);
    lemma_booking_user_kept(d.booking_users@[i]);
}

/// Parsed JSON text as a member value; `null` where there is none.
pub open spec fn jraw(o: Option<String>) -> Seq<char> {
    match o {
        Some(t) => t@,
        None => jnull(),
    }
}

fn f_raw(f: &mut Vec<(String, Vec<char>)>, k: &str, o: &Option<String>)
    ensures
        fields_view(final(f)@) == fields_view(old(f)@).push((k@, jraw(*o))),
{
    match o {
        Some(t) => push_value(f, k, chars_of(t.as_str())),
        None => push_value(f, k, chars_of("null")),
    }
}

impl KeyedRow for CiRow {
    open spec fn key_spec(&self) -> Seq<u8> {
        encode_utf8(self.id@)
    }

    open spec fn record(&self) -> Fields {
        seq![
            ("id"@, json_string(self.id@)),
            ("cart_id"@, json_string(self.cart_id@)),
            ("type"@, json_string(self.itype@)),
            ("ref_id"@, json_string(self.ref_id@)),
            ("name_snapshot"@, json_string(self.name_snapshot@)),
            ("unit_price"@, jint(self.unit_price)),
            ("quantity"@, jint(self.quantity)),
            ("metadata"@, jraw(self.metadata)),
            ("created_at"@, jint(self.created_at)),
        ]
    }

    fn key(&self) -> (k: Vec<u8>) {
        utf8_of(self.id.as_str())
    }

    fn record_fields(&self) -> (f: Vec<(String, Vec<char>)>) {
        let mut f: Vec<(String, Vec<char>)> = Vec::new();
        f_str(&mut f, "id", self.id.as_str());
        f_str(&mut f, "cart_id", self.cart_id.as_str());
        f_str(&mut f, "type", self.itype.as_str());
        f_str(&mut f, "ref_id", self.ref_id.as_str());
        f_str(&mut f, "name_snapshot", self.name_snapshot.as_str());
        f_int(&mut f, "unit_price", self.unit_price);
        f_int(&mut f, "quantity", self.quantity);
        f_raw(&mut f, "metadata", &self.metadata);
        f_int(&mut f, "created_at", self.created_at);
        f
    }
}

/// A gift card in the gift-card store, every member present.
impl KeyedRow for GcRow {
    open spec fn key_spec(&self) -> Seq<u8> {
        encode_utf8(self.id@)
    }

    open spec fn record(&self) -> Fields {
        seq![
            ("id"@, json_string(self.id@)),
            ("code"@, json_string(self.code@)),
            ("amount"@, jint(self.amount)),
            ("balance"@, jint(self.balance)),
            ("currency"@, json_string(self.currency@)),
            ("status"@, json_string(self.status@)),
            ("expires_at"@, jopt_int(self.expires_at)),
            ("delivery_at"@, jopt_int(self.delivery_at)),
            ("delivered_at"@, jopt_int(self.delivered_at)),
            ("purchased_by_user_id"@, jopt_str(self.purchased_by_user_id)),
            ("cart_id"@, jopt_str(self.cart_id)),
            ("recipient_email"@, jopt_str(self.recipient_email)),
            ("recipient_phone"@, jopt_str(self.recipient_phone)),
            ("recipient_name"@, jopt_str(self.recipient_name)),
            ("message"@, jopt_str(self.message)),
            ("created_at"@, jint(self.created_at)),
            ("updated_at"@, jint(self.updated_at)),
        ]
    }

    fn key(&self) -> (k: Vec<u8>) {
        utf8_of(self.id.as_str())
    }

    fn record_fields(&self) -> (f: Vec<(String, Vec<char>)>) {
        let mut f: Vec<(String, Vec<char>)> = Vec::new();
        f_str(&mut f, "id", self.id.as_str());
        f_str(&mut f, "code", self.code.as_str());
        f_int(&mut f, "amount", self.amount);
        f_int(&mut f, "balance", self.balance);
        f_str(&mut f, "currency", self.currency.as_str());
        f_str(&mut f, "status", self.status.as_str());
        f_opt_int(&mut f, "expires_at", self.expires_at);
        f_opt_int(&mut f, "delivery_at", self.delivery_at);
        f_opt_int(&mut f, "delivered_at", self.delivered_at);
        f_opt_str(&mut f, "purchased_by_user_id", &self.purchased_by_user_id);
        f_opt_str(&mut f, "cart_id", &self.cart_id);
        f_opt_str(&mut f, "recipient_email", &self.recipient_email);
        f_opt_str(&mut f, "recipient_phone", &self.recipient_phone);
        f_opt_str(&mut f, "recipient_name", &self.recipient_name);
        f_opt_str(&mut f, "message", &self.message);
        f_int(&mut f, "created_at", self.created_at);
        f_int(&mut f, "updated_at", self.updated_at);
        f
    }
}

impl KeyedRow for GcrRow {
    open spec fn key_spec(&self) -> Seq<u8> {
        encode_utf8(self.id@)
    }

    open spec fn record(&self) -> Fields {
        seq![
            ("id"@, json_string(self.id@)),
            ("gift_card_id"@, json_string(self.gift_card_id@)),
            ("cart_id"@, jopt_str(self.cart_id)),
            ("payment_id"@, jopt_str(self.payment_id)),
            ("amount"@, jint(self.amount)),
            ("redeemed_at"@, jint(self.redeemed_at)),
        ]
    }

    fn key(&self) -> (k: Vec<u8>) {
        utf8_of(self.id.as_str())
    }

    fn record_fields(&self) -> (f: Vec<(String, Vec<char>)>) {
        let mut f: Vec<(String, Vec<char>)> = Vec::new();
        f_str(&mut f, "id", self.id.as_str());
        f_str(&mut f, "gift_card_id", self.gift_card_id.as_str());
        f_opt_str(&mut f, "cart_id", &self.cart_id);
        f_opt_str(&mut f, "payment_id", &self.payment_id);
        f_int(&mut f, "amount", self.amount);
        f_int(&mut f, "redeemed_at", self.redeemed_at);
        f
    }
}

impl KeyedRow for PayRow {
    open spec fn key_spec(&self) -> Seq<u8> {
        encode_utf8(self.id@)
    }

    open spec fn record(&self) -> Fields {
        seq![
            ("id"@, json_string(self.id@)),
            ("cart_id"@, jopt_str(self.cart_id)),
            ("user_id"@, jopt_str(self.user_id)),
            ("provider"@, json_string(self.provider@)),
            ("provider_ref"@, json_string(self.provider_ref@)),
            ("status"@, json_string(self.status@)),
            ("amount"@, jint(self.amount)),
            ("currency"@, json_string(self.currency@)),
            ("raw_payload"@, jraw(self.raw_payload)),
            ("created_at"@, jint(self.created_at)),
            ("updated_at"@, jint(self.updated_at)),
        ]
    }

    fn key(&self) -> (k: Vec<u8>) {
        utf8_of(self.id.as_str())
    }

    fn record_fields(&self) -> (f: Vec<(String, Vec<char>)>) {
        let mut f: Vec<(String, Vec<char>)> = Vec::new();
        f_str(&mut f, "id", self.id.as_str());
        f_opt_str(&mut f, "cart_id", &self.cart_id);
        f_opt_str(&mut f, "user_id", &self.user_id);
        f_str(&mut f, "provider", self.provider.as_str());
        f_str(&mut f, "provider_ref", self.provider_ref.as_str());
        f_str(&mut f, "status", self.status.as_str());
        f_int(&mut f, "amount", self.amount);
        f_str(&mut f, "currency", self.currency.as_str());
        f_raw(&mut f, "raw_payload", &self.raw_payload);
        f_int(&mut f, "created_at", self.created_at);
        f_int(&mut f, "updated_at", self.updated_at);
        f
    }
}

// ---------------------------------------------------------------------------
// Products: categories renumbered
// ---------------------------------------------------------------------------

/// The new id of the category whose old id is `cid`: its place among the
/// categories, counting from one; the last one wins where ids repeat.
pub open spec fn cat_number(cats: Seq<CatRow>, cid: Seq<char>) -> Option<nat>
    decreases cats.len(),
{
    if cats.len() == 0 {
        None
    } else if cats.last().id@ == cid {
        Some(cats.len())
    } else {
        cat_number(cats.drop_last(), cid)
    }
}

/// A product's members after `id` and `created`; `category` refers to the
/// renumbered category, and is left out when the old one is unknown.
pub open spec fn product_body(p: ProdRow, cats: Seq<CatRow>) -> Fields {
    seq![
        ("name"@, json_string(p.name@)),
        ("price"@, jint(p.price)),
        ("active"@, jbool(p.active)),
        ("position"@, jint(p.position)),
        ("created_at"@, jint(p.created_at)),
        ("updated_at"@, jint(p.updated_at)),
    ] + opt_str_member("description"@, p.description) + opt_str_member("image_url"@, p.image_url) + match p.category_id {
        Some(c) => match cat_number(cats, c@) {
            Some(n) => seq![("category"@, int_str(n as int))],
            None => seq![],
        },
        None => seq![],
    }
}

/// The product records, numbered on from the categories.
pub open spec fn product_rows(prods: Seq<ProdRow>, cats: Seq<CatRow>, now: i64) -> Seq<(Target, Seq<u8>, Seq<u8>)>
    decreases prods.len(),
{
    if prods.len() == 0 {
        seq![]
    } else {
        product_rows(prods.drop_last(), cats, now) + coll_writes(
            "products"@,
            (cats.len() + prods.len()) as nat,
            now,
            product_body(prods.last(), cats),
        )
    }
}

proof fn lemma_cat_number_bound(cats: Seq<CatRow>, cid: Seq<char>)
    ensures
        cat_number(cats, cid) matches Some(n) ==> 1 <= n <= cats.len(),
    decreases cats.len(),
{
    if cats.len() > 0 {
        lemma_cat_number_bound(cats.drop_last(), cid);
    }
}

fn find_cat(cats: &Vec<CatRow>, cid: &str) -> (r: Option<u64>)
    requires
        cats@.len() <= i64::MAX,
    ensures
        match cat_number(cats@, cid@) {
            Some(n) => r == Some(n as u64) && 1 <= n <= cats@.len(),
            None => r is None,
        },
{
    let mut i: usize = cats.len();
    assert(cats@.subrange(0, cats@.len() as int) =~= cats@);
    while i > 0
        invariant
            i <= cats@.len(),
            cats@.len() <= i64::MAX,
            cat_number(cats@, cid@) == cat_number(cats@.subrange(0, i as int), cid@),
        decreases i,
    {
        let ghost pre = cats@.subrange(0, i as int);
        assert(pre.drop_last() =~= cats@.subrange(0, i - 1));
        if crate::text::str_eq(cats[i - 1].id.as_str(), cid) {
            proof {
                lemma_cat_number_bound(cats@, cid@);
            }
            return Some(i as u64);
        }
        i = i - 1;
    }
    None
}

fn product_fields(p: &ProdRow, cats: &Vec<CatRow>) -> (f: Vec<(String, Vec<char>)>)
    requires
        cats@.len() <= i64::MAX,
    ensures
        fields_view(f@) == product_body(*p, cats@),
{
    let mut f: Vec<(String, Vec<char>)> = Vec::new();
    f_str(&mut f, "name", p.name.as_str());
    f_int(&mut f, "price", p.price);
    f_bool(&mut f, "active", p.active);
    f_int(&mut f, "position", p.position);
    f_int(&mut f, "created_at", p.created_at);
    f_int(&mut f, "updated_at", p.updated_at);
    f_some_str(&mut f, "description", &p.description);
    f_some_str(&mut f, "image_url", &p.image_url);
    let ghost before = fields_view(f@);
    match &p.category_id {
        Some(cid) => match find_cat(cats, cid.as_str()) {
            Some(n) => f_int(&mut f, "category", n as i64),
            None => {},
        },
        None => {},
    }
    assert(fields_view(f@) =~= product_body(*p, cats@));
    f
}

fn emit_products(out: &mut Vec<Write>, prods: &Vec<ProdRow>, cats: &Vec<CatRow>, now: i64)
    requires
        cats@.len() + prods@.len() <= i64::MAX,
    ensures
        writes_view(final(out)@) == writes_view(old(out)@) + product_rows(prods@, cats@, now),
{
    let ghost pre = writes_view(out@);
    let mut i: usize = 0;
    while i < prods.len()
        invariant
            i <= prods@.len(),
            cats@.len() + prods@.len() <= i64::MAX,
            writes_view(out@) == pre + product_rows(prods@.subrange(0, i as int), cats@, now),
        decreases prods@.len() - i,
    {
        let body = product_fields(&prods[i], cats);
        push_coll(out, "products", cats.len() as u64 + i as u64 + 1, now, &body);
        let ghost next = prods@.subrange(0, i + 1);
        assert(next.drop_last() =~= prods@.subrange(0, i as int));
        assert(next.last() == prods@[i as int]);
        assert(writes_view(out@) =~= pre + product_rows(next, cats@, now));
        i = i + 1;
    }
    assert(prods@.subrange(0, prods@.len() as int) =~= prods@);
}

// ---------------------------------------------------------------------------
// Sign-in accounts
// ---------------------------------------------------------------------------

/// An account's key: its email trimmed and ASCII-lowercased.
pub open spec fn account_email(a: AuRow) -> Seq<char> {
    lower_seq(trim(a.email@))
}

/// The role of the first site user whose email, lowercased, is `email`;
/// `user` when there is none.
pub open spec fn role_for(users: Seq<UsrRow>, email: Seq<char>) -> Seq<char>
    decreases users.len(),
{
    if users.len() == 0 {
        "user"@
    } else if users[0].email matches Some(e) && lowercased(e@) == email {
        users[0].role@
    } else {
        role_for(users.drop_first(), email)
    }
}

pub open spec fn account_rows(accounts: Seq<AuRow>, users: Seq<UsrRow>) -> Seq<(Target, Seq<u8>, Seq<u8>)>
    decreases accounts.len(),
{
    if accounts.len() == 0 {
        seq![]
    } else {
        let n = account_email(accounts.last());
        account_rows(accounts.drop_last(), users).push(
            (
                Target::AuthUsers,
                encode_utf8(n),
                encode_utf8(object(seq![("email"@, json_string(n)), ("role"@, json_string(role_for(users, n)))])),
            ),
        )
    }
}

fn find_role(users: &Vec<UsrRow>, email: &Vec<char>) -> (r: String)
    ensures
        r@ == role_for(users@, email@),
{
    let mut i: usize = 0;
    assert(users@.subrange(0, users@.len() as int) =~= users@);
    while i < users.len()
        invariant
            i <= users@.len(),
            role_for(users@, email@) == role_for(users@.subrange(i as int, users@.len() as int), email@),
        decreases users@.len() - i,
    {
        let ghost rest = users@.subrange(i as int, users@.len() as int);
        assert(rest.drop_first() =~= users@.subrange(i + 1, users@.len() as int));
        assert(rest[0] == users@[i as int]);
        match &users[i].email {
            Some(e) => {
                let lower = chars_of(to_lowercase(e.as_str()).as_str());
                if crate::text::chars_eq(&lower, email) {
                    return users[i].role.clone();
                }
            },
            None => {},
        }
        i = i + 1;
    }
    owned("user")
}

fn emit_accounts(out: &mut Vec<Write>, accounts: &Vec<AuRow>, users: &Vec<UsrRow>)
    ensures
        writes_view(final(out)@) == writes_view(old(out)@) + account_rows(accounts@, users@),
{
    let ghost pre = writes_view(out@);
    let mut i: usize = 0;
    while i < accounts.len()
        invariant
            i <= accounts@.len(),
            writes_view(out@) == pre + account_rows(accounts@.subrange(0, i as int), users@),
        decreases accounts@.len() - i,
    {
        let n = lower_chars(&trim_chars(&chars_of(accounts[i].email.as_str())));
        let role = find_role(users, &n);
        let ns = string_of(&n);
        let mut f: Vec<(String, Vec<char>)> = Vec::new();
        f_str(&mut f, "email", ns.as_str());
        f_str(&mut f, "role", role.as_str());
        push_write(out, Target::AuthUsers, utf8_of_chars(&n), object_bytes(&f));
        let ghost next = accounts@.subrange(0, i + 1);
        assert(next.drop_last() =~= accounts@.subrange(0, i as int));
        assert(next.last() == accounts@[i as int]);
        assert(fields_view(f@) =~= seq![("email"@, json_string(n@)), ("role"@, json_string(role_for(users@, n@)))]);
        assert(writes_view(out@) =~= pre + account_rows(next, users@));
        i = i + 1;
    }
    assert(accounts@.subrange(0, accounts@.len() as int) =~= accounts@);
}

// ---------------------------------------------------------------------------
// Subscription dates
// ---------------------------------------------------------------------------

/// The three parts of a ten-character text with exactly two `-`.
pub open spec fn date_parts(s: Seq<char>) -> Option<(Seq<char>, Seq<char>, Seq<char>)> {
    if s.len() != 10 {
        None
    } else {
        match find(s, '-') {
            None => None,
            Some(i) => {
                let rest = s.subrange(i + 1, s.len() as int);
                match find(rest, '-') {
                    None => None,
                    Some(j) => {
                        let last = rest.subrange(j + 1, rest.len() as int);
                        if find(last, '-') is None {
                            Some((s.subrange(0, i), rest.subrange(0, j), last))
                        } else {
                            None
                        }
                    },
                }
            },
        }
    }
}

/// The `(year, month, day)` a stored `YYYY-MM-DD` names: the year read as an
/// `i64`, month and day as `u64`s, the month in 1..=12 and the day in 1..=31.
pub open spec fn stored_date_fields(s: Seq<char>) -> Option<(int, int, int)> {
    match date_parts(s) {
        None => None,
        Some((a, b, c)) => match (
            parse_i64_spec(a),
            parse_unsigned_spec(b, u64::MAX as int),
            parse_unsigned_spec(c, u64::MAX as int),
        ) {
            (Some(y), Some(m), Some(d)) => if 1 <= m <= 12 && 1 <= d <= 31 {
                Some((y as int, m, d))
            } else {
                None
            },
            _ => None,
        },
    }
}

/// Midnight of the stored date in epoch-ms; `0` for text that is no date.
pub open spec fn stored_date_ms(s: Seq<char>) -> int {
    match stored_date_fields(s) {
        Some((y, m, d)) => days_from_civil_spec(y, m, d) * 86_400_000,
        None => 0,
    }
}

/// The date can be written: it is no date, or midnight of it lies between
/// the epoch and the end of the `i64` range (the conversion counts in
/// unsigned days).
pub open spec fn stored_date_fits(s: Seq<char>) -> bool {
    match stored_date_fields(s) {
        Some((y, m, d)) => 0 <= days_from_civil_spec(y, m, d) && days_from_civil_spec(y, m, d) * 86_400_000
            <= i64::MAX,
        None => true,
    }
}

/// A stored subscription date as epoch-ms: `Some(0)` for text that is not a
/// `YYYY-MM-DD` date, `None` for a date before the epoch or past the `i64`
/// range.
pub fn parse_date_ms(s: &str) -> (r: Option<i64>)
    ensures
        r == (if stored_date_fits(s@) {
            Some(stored_date_ms(s@) as i64)
        } else {
            None
        }),
{
    let v = chars_of(s);
    if v.len() != 10 {
        return Some(0);
    }
    let i = match crate::text::find_char(&v, '-') {
        Some(i) => i,
        None => return Some(0),
    };
    let rest = slice_chars(&v, i + 1, v.len());
    let j = match crate::text::find_char(&rest, '-') {
        Some(j) => j,
        None => return Some(0),
    };
    let last = slice_chars(&rest, j + 1, rest.len());
    if crate::text::find_char(&last, '-').is_some() {
        return Some(0);
    }
    let a = slice_chars(&v, 0, i);
    let b = slice_chars(&rest, 0, j);
    let (y, m, d) = match (parse_i64(&a), parse_unsigned(&b, u64::MAX), parse_unsigned(&last, u64::MAX)) {
        (Some(y), Some(m), Some(d)) => (y, m, d),
        _ => return Some(0),
    };
    if !(1 <= m && m <= 12 && 1 <= d && d <= 31) {
        return Some(0);
    }
    let y = y as i128;
    let m = m as i128;
    let d = d as i128;
    let y1: i128 = if m <= 2 {
        y - 1
    } else {
        y
    };
    if y1 < 0 {
        proof {
            lemma_days_negative(y as int, m as int, d as int);
        }
        return None;
    }
    let era = y1 / 400;
    let yoe = y1 - era * 400;
    let mp: i128 = if m > 2 {
        m - 3
    } else {
        m + 9
    };
    let doy = (153 * mp + 2) / 5 + d - 1;
    let doe = yoe * 365 + yoe / 4 - yoe / 100 + doy;
    let days = era * 146097 + doe - 719468;
    assert(days == days_from_civil_spec(y as int, m as int, d as int));
    if days < 0 || days > 106_751_991_167 {
        return None;
    }
    assert(days * 86_400_000 <= i64::MAX) by (nonlinear_arith)
        requires
            days <= 106_751_991_167,
    ;
    Some((days * 86_400_000) as i64)
}

proof fn lemma_days_negative(y: int, m: int, d: int)
    requires
        1 <= m <= 12,
        1 <= d <= 31,
        (if m <= 2 { y - 1 } else { y }) < 0,
    ensures
        days_from_civil_spec(y, m, d) < 0,
{
    let y1 = if m <= 2 { y - 1 } else { y };
    let era = y1 / 400;
    let yoe = y1 - era * 400;
    assert(era <= -1);
    assert(0 <= yoe < 400);
}

/// The daily limit of subscription plan `id`: the last entry read for it,
/// else `2`.
pub open spec fn daily_limit_for(info: Seq<(String, i64)>, id: Seq<char>) -> i64
    decreases info.len(),
{
    if info.len() == 0 {
        2
    } else if info.last().0@ == id {
        info.last().1
    } else {
        daily_limit_for(info.drop_last(), id)
    }
}

pub open spec fn user_sub_record(u: UsRow, info: Seq<(String, i64)>) -> Fields {
    seq![
        ("id"@, json_string(u.id@)),
        ("user_id"@, json_string(u.user_id@)),
        ("valid_from"@, int_str(stored_date_ms(u.valid_from@))),
        ("valid_until"@, int_str(stored_date_ms(u.valid_until@))),
        ("daily_limit"@, jint(daily_limit_for(info, u.sub_id@))),
    ]
}

pub open spec fn user_sub_rows(subs: Seq<UsRow>, info: Seq<(String, i64)>) -> Seq<(Target, Seq<u8>, Seq<u8>)>
    decreases subs.len(),
{
    if subs.len() == 0 {
        seq![]
    } else {
        user_sub_rows(subs.drop_last(), info).push(
            (
                Target::UserSubscriptions,
                encode_utf8(subs.last().id@),
                encode_utf8(object(user_sub_record(subs.last(), info))),
            ),
        )
    }
}

fn find_daily_limit(info: &Vec<(String, i64)>, id: &str) -> (r: i64)
    ensures
        r == daily_limit_for(info@, id@),
{
    let mut i: usize = info.len();
    assert(info@.subrange(0, info@.len() as int) =~= info@);
    while i > 0
        invariant
            i <= info@.len(),
            daily_limit_for(info@, id@) == daily_limit_for(info@.subrange(0, i as int), id@),
        decreases i,
    {
        let ghost pre = info@.subrange(0, i as int);
        assert(pre.drop_last() =~= info@.subrange(0, i - 1));
        if crate::text::str_eq(info[i - 1].0.as_str(), id) {
            return info[i - 1].1;
        }
        i = i - 1;
    }
    2
}

#[verifier::spinoff_prover]
fn emit_user_subs(out: &mut Vec<Write>, subs: &Vec<UsRow>, info: &Vec<(String, i64)>)
    requires
        forall|k: int| 0 <= k < subs@.len() ==> stored_date_fits(#[trigger] subs@[k].valid_from@)
            && stored_date_fits(subs@[k].valid_until@),
    ensures
        writes_view(final(out)@) == writes_view(old(out)@) + user_sub_rows(subs@, info@),
{
    let ghost pre = writes_view(out@);
    let mut i: usize = 0;
    while i < subs.len()
        invariant
            i <= subs@.len(),
            forall|k: int| 0 <= k < subs@.len() ==> stored_date_fits(#[trigger] subs@[k].valid_from@)
                && stored_date_fits(subs@[k].valid_until@),
            writes_view(out@) == pre + user_sub_rows(subs@.subrange(0, i as int), info@),
        decreases subs@.len() - i,
    {
        let u = &subs[i];
        assert(stored_date_fits(subs@[i as int].valid_from@));
        let vf = match parse_date_ms(u.valid_from.as_str()) {
            Some(ms) => ms,
            None => 0,
        };
        let vu = match parse_date_ms(u.valid_until.as_str()) {
            Some(ms) => ms,
            None => 0,
        };
        let dl = find_daily_limit(info, u.sub_id.as_str());
        let mut f: Vec<(String, Vec<char>)> = Vec::new();
        f_str(&mut f, "id", u.id.as_str());
        f_str(&mut f, "user_id", u.user_id.as_str());
        f_int(&mut f, "valid_from", vf);
        f_int(&mut f, "valid_until", vu);
        f_int(&mut f, "daily_limit", dl);
        assert(fields_view(f@) =~= user_sub_record(*u, info@));
        push_write(out, Target::UserSubscriptions, utf8_of(u.id.as_str()), object_bytes(&f));
        let ghost next = subs@.subrange(0, i + 1);
        assert(next.drop_last() =~= subs@.subrange(0, i as int));
        assert(next.last() == subs@[i as int]);
        assert(writes_view(out@) =~= pre + user_sub_rows(next, info@));
        i = i + 1;
    }
    assert(subs@.subrange(0, subs@.len() as int) =~= subs@);
}

// ---------------------------------------------------------------------------
// Checkout's gift cards and the admin settings
// ---------------------------------------------------------------------------

/// A gift card as checkout keeps it, under its code.
pub open spec fn checkout_card(g: GcRow) -> Fields {
    seq![
        ("code"@, json_string(g.code@)),
        ("amount"@, jint(g.amount)),
        ("balance"@, jint(g.balance)),
        ("currency"@, json_string(g.currency@)),
        ("status"@, json_string(g.status@)),
        ("recipient_email"@, jopt_str(g.recipient_email)),
        ("recipient_phone"@, jopt_str(g.recipient_phone)),
        ("recipient_name"@, jopt_str(g.recipient_name)),
        ("message"@, jopt_str(g.message)),
        ("purchased_by_user_id"@, jopt_str(g.purchased_by_user_id)),
        ("cart_id"@, jopt_str(g.cart_id)),
        ("created_at"@, jint(g.created_at)),
    ]
}

pub open spec fn checkout_rows(cards: Seq<GcRow>) -> Seq<(Target, Seq<u8>, Seq<u8>)>
    decreases cards.len(),
{
    if cards.len() == 0 {
        seq![]
    } else {
        checkout_rows(cards.drop_last()).push(
            (Target::CheckoutGiftCards, encode_utf8(cards.last().code@), encode_utf8(object(checkout_card(cards.last())))),
        )
    }
}

fn checkout_fields(g: &GcRow) -> (f: Vec<(String, Vec<char>)>)
    ensures
        fields_view(f@) == checkout_card(*g),
{
    let mut f: Vec<(String, Vec<char>)> = Vec::new();
    f_str(&mut f, "code", g.code.as_str());
    f_int(&mut f, "amount", g.amount);
    f_int(&mut f, "balance", g.balance);
    f_str(&mut f, "currency", g.currency.as_str());
    f_str(&mut f, "status", g.status.as_str());
    f_opt_str(&mut f, "recipient_email", &g.recipient_email);
    f_opt_str(&mut f, "recipient_phone", &g.recipient_phone);
    f_opt_str(&mut f, "recipient_name", &g.recipient_name);
    f_opt_str(&mut f, "message", &g.message);
    f_opt_str(&mut f, "purchased_by_user_id", &g.purchased_by_user_id);
    f_opt_str(&mut f, "cart_id", &g.cart_id);
    f_int(&mut f, "created_at", g.created_at);
    f
}

fn emit_checkout_cards(out: &mut Vec<Write>, cards: &Vec<GcRow>)
    ensures
        writes_view(final(out)@) == writes_view(old(out)@) + checkout_rows(cards@),
{
    let ghost pre = writes_view(out@);
    let mut i: usize = 0;
    while i < cards.len()
        invariant
            i <= cards@.len(),
            writes_view(out@) == pre + checkout_rows(cards@.subrange(0, i as int)),
        decreases cards@.len() - i,
    {
        let f = checkout_fields(&cards[i]);
        push_write(out, Target::CheckoutGiftCards, utf8_of(cards[i].code.as_str()), object_bytes(&f));
        let ghost next = cards@.subrange(0, i + 1);
        assert(next.drop_last() =~= cards@.subrange(0, i as int));
        assert(next.last() == cards@[i as int]);
        assert(writes_view(out@) =~= pre + checkout_rows(next));
        i = i + 1;
    }
    assert(cards@.subrange(0, cards@.len() as int) =~= cards@);
}

/// The admin store's bank-transfer record, when there are details.
pub open spec fn bank_rows(bank: Option<BtRow>) -> Seq<(Target, Seq<u8>, Seq<u8>)> {
    match bank {
        Some(b) => seq![
            (
                Target::AdminSettings,
                encode_utf8("bank_transfer"@),
                encode_utf8(
                    object(
                        seq![
                            ("bankName"@, json_string(b.bank_name@)),
                            ("accountHolder"@, json_string(b.account_holder@)),
                            ("kennitala"@, json_string(b.kennitala@)),
                            ("accountNumber"@, json_string(b.account_number@)),
                        ],
                    ),
                ),
            ),
        ],
        None => seq![],
    }
}

/// The admin store's notification record, when there are settings.
pub open spec fn notif_rows(notif: Option<NotifRow>) -> Seq<(Target, Seq<u8>, Seq<u8>)> {
    match notif {
        Some(n) => seq![
            (
                Target::AdminSettings,
                encode_utf8("notifications"@),
                encode_utf8(
                    object(
                        seq![
                            ("adminCopyEnabled"@, jbool(n.admin_copy_enabled)),
                            ("adminEmail"@, json_string(n.admin_email@)),
                        ] + opt_str_member("adminPhone"@, n.admin_phone),
                    ),
                ),
            ),
        ],
        None => seq![],
    }
}

/// The admin store's settings: the bank-transfer details and notification
/// settings when there are any, then each SMS template under `sms:{key}`.
pub open spec fn admin_rows(
    bank: Option<BtRow>,
    notif: Option<NotifRow>,
    sms: Seq<SmsRow>,
) -> Seq<(Target, Seq<u8>, Seq<u8>)> {
    bank_rows(bank) + notif_rows(notif) + sms_rows(sms)
}

pub open spec fn sms_rows(sms: Seq<SmsRow>) -> Seq<(Target, Seq<u8>, Seq<u8>)>
    decreases sms.len(),
{
    if sms.len() == 0 {
        seq![]
    } else {
        sms_rows(sms.drop_last()).push(
            (
                Target::AdminSettings,
                encode_utf8("sms:"@ + sms.last().key@),
                encode_utf8(object(seq![("key"@, json_string(sms.last().key@)), ("body"@, json_string(sms.last().body@))])),
            ),
        )
    }
}

fn emit_bank(out: &mut Vec<Write>, bank: &Option<BtRow>)
    ensures
        writes_view(final(out)@) == writes_view(old(out)@) + bank_rows(*bank),
{
    let ghost pre = writes_view(out@);
    match bank {
        Some(b) => {
            let mut f: Vec<(String, Vec<char>)> = Vec::new();
            f_str(&mut f, "bankName", b.bank_name.as_str());
            f_str(&mut f, "accountHolder", b.account_holder.as_str());
            f_str(&mut f, "kennitala", b.kennitala.as_str());
            f_str(&mut f, "accountNumber", b.account_number.as_str());
            assert(fields_view(f@) =~= seq![
                ("bankName"@, json_string(b.bank_name@)),
                ("accountHolder"@, json_string(b.account_holder@)),
                ("kennitala"@, json_string(b.kennitala@)),
                ("accountNumber"@, json_string(b.account_number@)),
            ]);
            push_write(out, Target::AdminSettings, utf8_of("bank_transfer"), object_bytes(&f));
        },
        None => {},
    }
    assert(writes_view(out@) =~= pre + bank_rows(*bank));
}

fn emit_notif(out: &mut Vec<Write>, notif: &Option<NotifRow>)
    ensures
        writes_view(final(out)@) == writes_view(old(out)@) + notif_rows(*notif),
{
    let ghost pre = writes_view(out@);
    match notif {
        Some(n) => {
            let mut f: Vec<(String, Vec<char>)> = Vec::new();
            f_bool(&mut f, "adminCopyEnabled", n.admin_copy_enabled);
            f_str(&mut f, "adminEmail", n.admin_email.as_str());
            f_some_str(&mut f, "adminPhone", &n.admin_phone);
            assert(fields_view(f@) =~= seq![
                ("adminCopyEnabled"@, jbool(n.admin_copy_enabled)),
                ("adminEmail"@, json_string(n.admin_email@)),
            ] + opt_str_member("adminPhone"@, n.admin_phone));
            push_write(out, Target::AdminSettings, utf8_of("notifications"), object_bytes(&f));
        },
        None => {},
    }
    assert(writes_view(out@) =~= pre + notif_rows(*notif));
}

fn emit_sms(out: &mut Vec<Write>, sms: &Vec<SmsRow>)
    ensures
        writes_view(final(out)@) == writes_view(old(out)@) + sms_rows(sms@),
{
    let ghost pre = writes_view(out@);
    let mut i: usize = 0;
    while i < sms.len()
        invariant
            i <= sms@.len(),
            writes_view(out@) == pre + sms_rows(sms@.subrange(0, i as int)),
        decreases sms@.len() - i,
    {
        let t = &sms[i];
        let mut key: Vec<char> = Vec::new();
        append_str(&mut key, "sms:");
        append_str(&mut key, t.key.as_str());
        let mut f: Vec<(String, Vec<char>)> = Vec::new();
        f_str(&mut f, "key", t.key.as_str());
        f_str(&mut f, "body", t.body.as_str());
        assert(fields_view(f@) =~= seq![("key"@, json_string(t.key@)), ("body"@, json_string(t.body@))]);
        push_write(out, Target::AdminSettings, utf8_of_chars(&key), object_bytes(&f));
        let ghost next = sms@.subrange(0, i + 1);
        assert(next.drop_last() =~= sms@.subrange(0, i as int));
        assert(next.last() == sms@[i as int]);
        assert(writes_view(out@) =~= pre + sms_rows(next));
        i = i + 1;
    }
    assert(sms@.subrange(0, sms@.len() as int) =~= sms@);
}

fn emit_admin(out: &mut Vec<Write>, bank: &Option<BtRow>, notif: &Option<NotifRow>, sms: &Vec<SmsRow>)
    ensures
        writes_view(final(out)@) == writes_view(old(out)@) + admin_rows(*bank, *notif, sms@),
{
    let ghost pre = writes_view(out@);
    emit_bank(out, bank);
    emit_notif(out, notif);
    proof {
        lemma_concat_associative(pre, bank_rows(*bank), notif_rows(*notif));
    }
    emit_sms(out, sms);
    proof {
        lemma_concat_associative(pre, bank_rows(*bank) + notif_rows(*notif), sms_rows(sms@));
    }
}

// ---------------------------------------------------------------------------
// The whole migration
// ---------------------------------------------------------------------------

/// The rows fit the stores: every collection's ids fit an `i64`, and every
/// subscription date can be written.
pub open spec fn migratable(d: AllData) -> bool {
    &&& d.product_categories@.len() + d.products@.len() < i64::MAX
    &&& d.packages@.len() < i64::MAX
    &&& d.subscriptions@.len() < i64::MAX
    &&& d.pricing_rules@.len() < i64::MAX
    &&& d.gift_cards@.len() < i64::MAX
    &&& d.sms_templates@.len() < i64::MAX
    &&& d.email_templates@.len() < i64::MAX
    &&& d.users@.len() < i64::MAX
    &&& forall|k: int|
        0 <= k < d.user_subs@.len() ==> stored_date_fits(#[trigger] d.user_subs@[k].valid_from@)
            && stored_date_fits(d.user_subs@[k].valid_until@)
}

/// The collection records, in order: categories, products numbered on after
/// them, packages, subscription plans, pricing rules, gift cards, SMS and
/// email templates, the four settings records, users.
pub open spec fn collection_writes(d: AllData, now: i64) -> Seq<(Target, Seq<u8>, Seq<u8>)> {
    coll_rows("product_categories"@, d.product_categories@, 1, now) + product_rows(
        d.products@,
        d.product_categories@,
        now,
    ) + coll_rows("packages"@, d.packages@, 1, now) + coll_rows("subscriptions"@, d.subscriptions@, 1, now)
        + coll_rows("pricing_rules"@, d.pricing_rules@, 1, now) + coll_rows("gift_cards"@, d.gift_cards@, 1, now)
        + coll_rows("sms_templates"@, d.sms_templates@, 1, now) + coll_rows(
        "email_templates"@,
        d.email_templates@,
        1,
        now,
    ) + singleton("bank_transfer_settings"@, d.bank_transfer, now) + singleton(
        "notification_settings"@,
        d.notifications,
        now,
    ) + singleton("landsbankinn_gateway_settings"@, d.landsbankinn, now) + singleton(
        "payday_settings"@,
        d.payday,
        now,
    ) + coll_rows("users"@, d.users@, 1, now)
}

/// The keyed records, in order: accounts, sessions, booking users,
/// bookings, packages and subscriptions held, subscription members, carts,
/// cart lines, gift cards, redemptions, payments, checkout's gift cards, the
/// admin settings.
pub open spec fn keyed_writes(d: AllData) -> Seq<(Target, Seq<u8>, Seq<u8>)> {
    account_rows(d.auth_users@, d.users@) + keyed_rows(Target::AuthSessions, d.auth_sessions@) + keyed_rows(
        Target::BookingUsers,
        d.booking_users@,
    ) + keyed_rows(Target::Bookings, d.bookings@) + keyed_rows(Target::UserPackages, d.user_packages@)
        + user_sub_rows(d.user_subs@, d.sub_info@) + keyed_rows(Target::SubscriptionMembers, d.sub_members@)
        + keyed_rows(Target::Carts, d.carts@) + keyed_rows(Target::CartItems, d.cart_items@) + keyed_rows(
        Target::GiftCards,
        d.gift_cards@,
    ) + keyed_rows(Target::GiftCardRedemptions, d.gc_redemptions@) + keyed_rows(Target::Payments, d.payments@)
        + checkout_rows(d.gift_cards@) + admin_rows(d.bank_transfer, d.notifications, d.sms_templates@)
}

/// Every write of the migration: the collections, then the keyed stores.
pub open spec fn migration(d: AllData, now: i64) -> Seq<(Target, Seq<u8>, Seq<u8>)> {
    collection_writes(d, now) + keyed_writes(d)
}

#[verifier::spinoff_prover]
#[verifier::rlimit(40)]
fn emit_collections(w: &mut Vec<Write>, d: &AllData, now: i64)
    requires
        migratable(*d),
    ensures
        writes_view(final(w)@) == writes_view(old(w)@) + collection_writes(*d, now),
{
    let ghost pre = writes_view(w@);
    emit_coll(w, "product_categories", &d.product_categories, 1, now);
    let ghost p1 = coll_rows("product_categories"@, d.product_categories@, 1, now);
    emit_products(w, &d.products, &d.product_categories, now);
    let ghost p2 = p1 + product_rows(d.products@, d.product_categories@, now);
    proof {
        lemma_concat_associative(pre, p1, product_rows(d.products@, d.product_categories@, now));
    }
    assert(writes_view(w@) == pre + p2);
    emit_coll(w, "packages", &d.packages, 1, now);
    let ghost p3 = p2 + coll_rows("packages"@, d.packages@, 1, now);
    proof {
        lemma_concat_associative(pre, p2, coll_rows("packages"@, d.packages@, 1, now));
    }
    assert(writes_view(w@) == pre + p3);
    emit_coll(w, "subscriptions", &d.subscriptions, 1, now);
    let ghost p4 = p3 + coll_rows("subscriptions"@, d.subscriptions@, 1, now);
    proof {
        lemma_concat_associative(pre, p3, coll_rows("subscriptions"@, d.subscriptions@, 1, now));
    }
    assert(writes_view(w@) == pre + p4);
    emit_coll(w, "pricing_rules", &d.pricing_rules, 1, now);
    let ghost p5 = p4 + coll_rows("pricing_rules"@, d.pricing_rules@, 1, now);
    proof {
        lemma_concat_associative(pre, p4, coll_rows("pricing_rules"@, d.pricing_rules@, 1, now));
    }
    assert(writes_view(w@) == pre + p5);
    emit_coll(w, "gift_cards", &d.gift_cards, 1, now);
    let ghost p6 = p5 + coll_rows("gift_cards"@, d.gift_cards@, 1, now);
    proof {
        lemma_concat_associative(pre, p5, coll_rows("gift_cards"@, d.gift_cards@, 1, now));
    }
    assert(writes_view(w@) == pre + p6);
    emit_coll(w, "sms_templates", &d.sms_templates, 1, now);
    let ghost p7 = p6 + coll_rows("sms_templates"@, d.sms_templates@, 1, now);
    proof {
        lemma_concat_associative(pre, p6, coll_rows("sms_templates"@, d.sms_templates@, 1, now));
    }
    assert(writes_view(w@) == pre + p7);
    emit_coll(w, "email_templates", &d.email_templates, 1, now);
    let ghost p8 = p7 + coll_rows("email_templates"@, d.email_templates@, 1, now);
    proof {
        lemma_concat_associative(pre, p7, coll_rows("email_templates"@, d.email_templates@, 1, now));
    }
    assert(writes_view(w@) == pre + p8);
    emit_singleton(w, "bank_transfer_settings", &d.bank_transfer, now);
    let ghost p9 = p8 + singleton("bank_transfer_settings"@, d.bank_transfer, now);
    proof {
        lemma_concat_associative(pre, p8, singleton("bank_transfer_settings"@, d.bank_transfer, now));
    }
    assert(writes_view(w@) == pre + p9);
    emit_singleton(w, "notification_settings", &d.notifications, now);
    let ghost p10 = p9 + singleton("notification_settings"@, d.notifications, now);
    proof {
        lemma_concat_associative(pre, p9, singleton("notification_settings"@, d.notifications, now));
    }
    assert(writes_view(w@) == pre + p10);
    emit_singleton(w, "landsbankinn_gateway_settings", &d.landsbankinn, now);
    let ghost p11 = p10 + singleton("landsbankinn_gateway_settings"@, d.landsbankinn, now);
    proof {
        lemma_concat_associative(pre, p10, singleton("landsbankinn_gateway_settings"@, d.landsbankinn, now));
    }
    assert(writes_view(w@) == pre + p11);
    emit_singleton(w, "payday_settings", &d.payday, now);
    let ghost p12 = p11 + singleton("payday_settings"@, d.payday, now);
    proof {
        lemma_concat_associative(pre, p11, singleton("payday_settings"@, d.payday, now));
    }
    assert(writes_view(w@) == pre + p12);
    emit_coll(w, "users", &d.users, 1, now);
    let ghost p13 = p12 + coll_rows("users"@, d.users@, 1, now);
    proof {
        lemma_concat_associative(pre, p12, coll_rows("users"@, d.users@, 1, now));
    }
    assert(writes_view(w@) == pre + p13);
    assert(p13 == collection_writes(*d, now));
}

#[verifier::spinoff_prover]
#[verifier::rlimit(40)]
fn emit_keyed_stores(w: &mut Vec<Write>, d: &AllData)
    requires
        migratable(*d),
    ensures
        writes_view(final(w)@) == writes_view(old(w)@) + keyed_writes(*d),
{
    let ghost pre = writes_view(w@);
    emit_accounts(w, &d.auth_users, &d.users);
    let ghost p1 = account_rows(d.auth_users@, d.users@);
    emit_keyed(w, Target::AuthSessions, &d.auth_sessions);
    let ghost p2 = p1 + keyed_rows(Target::AuthSessions, d.auth_sessions@);
    proof {
        lemma_concat_associative(pre, p1, keyed_rows(Target::AuthSessions, d.auth_sessions@));
    }
    assert(writes_view(w@) == pre + p2);
    emit_keyed(w, Target::BookingUsers, &d.booking_users);
    let ghost p3 = p2 + keyed_rows(Target::BookingUsers, d.booking_users@);
    proof {
        lemma_concat_associative(pre, p2, keyed_rows(Target::BookingUsers, d.booking_users@));
    }
    assert(writes_view(w@) == pre + p3);
    emit_keyed(w, Target::Bookings, &d.bookings);
    let ghost p4 = p3 + keyed_rows(Target::Bookings, d.bookings@);
    proof {
        lemma_concat_associative(pre, p3, keyed_rows(Target::Bookings, d.bookings@));
    }
    assert(writes_view(w@) == pre + p4);
    emit_keyed(w, Target::UserPackages, &d.user_packages);
    let ghost p5 = p4 + keyed_rows(Target::UserPackages, d.user_packages@);
    proof {
        lemma_concat_associative(pre, p4, keyed_rows(Target::UserPackages, d.user_packages@));
    }
    assert(writes_view(w@) == pre + p5);
    assert forall|k: int| 0 <= k < d.user_subs@.len() implies stored_date_fits(
        #[trigger] d.user_subs@[k].valid_from@,
    ) && stored_date_fits(d.user_subs@[k].valid_until@) by {}
    emit_user_subs(w, &d.user_subs, &d.sub_info);
    let ghost p6 = p5 + user_sub_rows(d.user_subs@, d.sub_info@);
    proof {
        lemma_concat_associative(pre, p5, user_sub_rows(d.user_subs@, d.sub_info@));
    }
    assert(writes_view(w@) == pre + p6);
    emit_keyed(w, Target::SubscriptionMembers, &d.sub_members);
    let ghost p7 = p6 + keyed_rows(Target::SubscriptionMembers, d.sub_members@);
    proof {
        lemma_concat_associative(pre, p6, keyed_rows(Target::SubscriptionMembers, d.sub_members@));
    }
    assert(writes_view(w@) == pre + p7);
    emit_keyed(w, Target::Carts, &d.carts);
    let ghost p8 = p7 + keyed_rows(Target::Carts, d.carts@);
    proof {
        lemma_concat_associative(pre, p7, keyed_rows(Target::Carts, d.carts@));
    }
    assert(writes_view(w@) == pre + p8);
    emit_keyed(w, Target::CartItems, &d.cart_items);
    let ghost p9 = p8 + keyed_rows(Target::CartItems, d.cart_items@);
    proof {
        lemma_concat_associative(pre, p8, keyed_rows(Target::CartItems, d.cart_items@));
    }
    assert(writes_view(w@) == pre + p9);
    emit_keyed(w, Target::GiftCards, &d.gift_cards);
    let ghost p10 = p9 + keyed_rows(Target::GiftCards, d.gift_cards@);
    proof {
        lemma_concat_associative(pre, p9, keyed_rows(Target::GiftCards, d.gift_cards@));
    }
    assert(writes_view(w@) == pre + p10);
    emit_keyed(w, Target::GiftCardRedemptions, &d.gc_redemptions);
    let ghost p11 = p10 + keyed_rows(Target::GiftCardRedemptions, d.gc_redemptions@);
    proof {
        lemma_concat_associative(pre, p10, keyed_rows(Target::GiftCardRedemptions, d.gc_redemptions@));
    }
    assert(writes_view(w@) == pre + p11);
    emit_keyed(w, Target::Payments, &d.payments);
    let ghost p12 = p11 + keyed_rows(Target::Payments, d.payments@);
    proof {
        lemma_concat_associative(pre, p11, keyed_rows(Target::Payments, d.payments@));
    }
    assert(writes_view(w@) == pre + p12);
    emit_checkout_cards(w, &d.gift_cards);
    let ghost p13 = p12 + checkout_rows(d.gift_cards@);
    proof {
        lemma_concat_associative(pre, p12, checkout_rows(d.gift_cards@));
    }
    assert(writes_view(w@) == pre + p13);
    emit_admin(w, &d.bank_transfer, &d.notifications, &d.sms_templates);
    let ghost p14 = p13 + admin_rows(d.bank_transfer, d.notifications, d.sms_templates@);
    proof {
        lemma_concat_associative(pre, p13, admin_rows(d.bank_transfer, d.notifications, d.sms_templates@));
    }
    assert(writes_view(w@) == pre + p14);
    assert(p14 == keyed_writes(*d));
}

/// The writes that move `d` into the stores, `now` being the migration's
/// time in seconds (each collection record's `created`).
pub fn migration_writes(d: &AllData, now: i64) -> (w: Vec<Write>)
    requires
        migratable(*d),
    ensures
        writes_view(w@) == migration(*d, now),
{
    let mut w: Vec<Write> = Vec::new();
    assert(writes_view(w@) =~= Seq::<(Target, Seq<u8>, Seq<u8>)>::empty());
    emit_collections(&mut w, d, now);
    assert(writes_view(w@) =~= collection_writes(*d, now));
    emit_keyed_stores(&mut w, d);
    w
}

// ---------------------------------------------------------------------------
// Reading the old database: the rows derived from others
// ---------------------------------------------------------------------------

pub open spec fn emails_of(r: Seq<AuRow>) -> Seq<Seq<char>> {
    r.map_values(|a: AuRow| a.email@)
}

/// The emails of the old sign-in table's `(user id, email)` rows, in order.
pub open spec fn account_emails(ids: Seq<(String, String)>) -> Seq<Seq<char>> {
    ids.map_values(|p: (String, String)| p.1@)
}

/// Some email of `l` equals `e` once both are lowercased.
pub open spec fn has_email(l: Seq<Seq<char>>, e: Seq<char>) -> bool {
    exists|i: int| 0 <= i < l.len() && lowercased(#[trigger] l[i]) == lowercased(e)
}

/// The sign-in accounts to create: `first`, then each site user's email, in
/// order, that none of the accounts so far has (compared lowercased).
pub open spec fn auth_emails(first: Seq<Seq<char>>, users: Seq<UsrRow>) -> Seq<Seq<char>>
    decreases users.len(),
{
    if users.len() == 0 {
        first
    } else {
        let l = auth_emails(first, users.drop_last());
        match users.last().email {
            Some(e) => if has_email(l, e@) {
                l
            } else {
                l.push(e@)
            },
            None => l,
        }
    }
}

fn lowered(s: &str) -> (r: Vec<char>)
    ensures
        r@ == lowercased(s@),
{
    chars_of(to_lowercase(s).as_str())
}

/// The sign-in accounts: one per old sign-in row, then one per site user
/// whose email no account has yet.
pub fn auth_users_of(ids: &Vec<(String, String)>, users: &Vec<UsrRow>) -> (r: Vec<AuRow>)
    ensures
        emails_of(r@) == auth_emails(account_emails(ids@), users@),
{
    let mut out: Vec<AuRow> = Vec::new();
    let mut lows: Vec<Vec<char>> = Vec::new();
    let mut i: usize = 0;
    while i < ids.len()
        invariant
            i <= ids@.len(),
            emails_of(out@) == account_emails(ids@).subrange(0, i as int),
            lows@.len() == out@.len(),
            forall|j: int| 0 <= j < lows@.len() ==> (#[trigger] lows@[j])@ == lowercased(emails_of(out@)[j]),
        decreases ids@.len() - i,
    {
        let e = ids[i].1.clone();
        lows.push(lowered(e.as_str()));
        let ghost pre = out@;
        out.push(AuRow { email: e });
        assert(emails_of(out@) =~= emails_of(pre).push(ids@[i as int].1@));
        assert(account_emails(ids@).subrange(0, i + 1) =~= account_emails(ids@).subrange(0, i as int).push(
            ids@[i as int].1@,
        ));
        i = i + 1;
    }
    assert(account_emails(ids@).subrange(0, ids@.len() as int) =~= account_emails(ids@));
    let mut k: usize = 0;
    assert(users@.subrange(0, 0) =~= Seq::<UsrRow>::empty());
    while k < users.len()
        invariant
            k <= users@.len(),
            emails_of(out@) == auth_emails(account_emails(ids@), users@.subrange(0, k as int)),
            lows@.len() == out@.len(),
            forall|j: int| 0 <= j < lows@.len() ==> (#[trigger] lows@[j])@ == lowercased(emails_of(out@)[j]),
        decreases users@.len() - k,
    {
        let ghost next = users@.subrange(0, k + 1);
        assert(next.drop_last() =~= users@.subrange(0, k as int));
        assert(next.last() == users@[k as int]);
        match &users[k].email {
            Some(e) => {
                let le = lowered(e.as_str());
                let mut found = false;
                let mut j: usize = 0;
                while j < lows.len()
                    invariant
                        j <= lows@.len(),
                        lows@.len() == out@.len(),
                        le@ == lowercased(e@),
                        forall|t: int| 0 <= t < lows@.len() ==> (#[trigger] lows@[t])@ == lowercased(emails_of(out@)[t]),
                        found == exists|t: int| 0 <= t < j && lowercased(#[trigger] emails_of(out@)[t]) == lowercased(e@),
                    decreases lows@.len() - j,
                {
                    if crate::text::chars_eq(&lows[j], &le) {
                        found = true;
                    }
                    assert(lows@[j as int]@ == lowercased(emails_of(out@)[j as int]));
                    j = j + 1;
                }
                if !found {
                    let ghost pre = out@;
                    lows.push(le);
                    out.push(AuRow { email: e.clone() });
                    assert(emails_of(out@) =~= emails_of(pre).push(e@));
                }
            },
            None => {},
        }
        k = k + 1;
    }
    assert(users@.subrange(0, users@.len() as int) =~= users@);
    out
}

/// The value of the last `(key, value)` pair with key `k` (later pairs
/// overwrite earlier ones, as a map filled in order does).
pub open spec fn last_value(m: Seq<(String, String)>, k: Seq<char>) -> Option<Seq<char>>
    decreases m.len(),
{
    if m.len() == 0 {
        None
    } else if m.last().0@ == k {
        Some(m.last().1@)
    } else {
        last_value(m.drop_last(), k)
    }
}

fn find_last(m: &Vec<(String, String)>, k: &str) -> (r: Option<String>)
    ensures
        match r {
            Some(v) => last_value(m@, k@) == Some(v@),
            None => last_value(m@, k@) is None,
        },
{
    let mut i: usize = m.len();
    assert(m@.subrange(0, m@.len() as int) =~= m@);
    while i > 0
        invariant
            i <= m@.len(),
            last_value(m@, k@) == last_value(m@.subrange(0, i as int), k@),
        decreases i,
    {
        let ghost pre = m@.subrange(0, i as int);
        assert(pre.drop_last() =~= m@.subrange(0, i - 1));
        if crate::text::str_eq(m[i - 1].0.as_str(), k) {
            return Some(m[i - 1].1.clone());
        }
        i = i - 1;
    }
    None
}

/// Milliseconds to whole seconds, rounding toward zero as `/` does.
pub open spec fn ms_to_secs(ms: i64) -> i64 {
    crate::booking::time::tdiv(ms as int, 1000) as i64
}

fn secs_of(ms: i64) -> (r: i64)
    ensures
        r == ms_to_secs(ms),
{
    let m = ms as i128;
    let q: i128 = if m >= 0 {
        m / 1000
    } else {
        -((-m) / 1000)
    };
    q as i64
}

/// The email a session belongs to: its user's sign-in email, else the
/// user's site email, else the user id itself.
pub open spec fn session_email(uid: Seq<char>, by_id: Seq<(String, String)>, user_email: Seq<(String, String)>) -> Seq<
    char,
> {
    match last_value(by_id, uid) {
        Some(e) => e,
        None => match last_value(user_email, uid) {
            Some(e) => e,
            None => uid,
        },
    }
}

/// A session row of the old database as the store keeps it: the email of
/// its user and the times in seconds.
pub fn session_row(
    token: String,
    uid: String,
    expires_ms: i64,
    created_ms: i64,
    by_id: &Vec<(String, String)>,
    user_email: &Vec<(String, String)>,
) -> (r: SessRow)
    ensures
        r.token@ == token@,
        r.email@ == session_email(uid@, by_id@, user_email@),
        r.created_sec == ms_to_secs(created_ms),
        r.expires_sec == ms_to_secs(expires_ms),
{
    let email = match find_last(by_id, uid.as_str()) {
        Some(e) => e,
        None => match find_last(user_email, uid.as_str()) {
            Some(e) => e,
            None => uid,
        },
    };
    SessRow { token, email, created_sec: secs_of(created_ms), expires_sec: secs_of(expires_ms) }
}

/// The name and slot count of package `id` among the `(id, name, slots)`
/// rows; the last row for it wins, and an unknown package has an empty name
/// and no slots.
pub open spec fn package_info(pkgs: Seq<(String, String, i64)>, id: Seq<char>) -> (Seq<char>, i64)
    decreases pkgs.len(),
{
    if pkgs.len() == 0 {
        (seq![], 0)
    } else if pkgs.last().0@ == id {
        (pkgs.last().1@, pkgs.last().2)
    } else {
        package_info(pkgs.drop_last(), id)
    }
}

/// A held package row of the old database, with the package's name and slot
/// count joined in.
pub fn package_row(id: String, user_id: String, package_id: &str, remaining: i64, pkgs: &Vec<(String, String, i64)>) -> (r:
    UpRow)
    ensures
        r.id@ == id@,
        r.user_id@ == user_id@,
        r.remaining == remaining,
        (r.package_name@, r.slot_count) == package_info(pkgs@, package_id@),
{
    let mut i: usize = pkgs.len();
    assert(pkgs@.subrange(0, pkgs@.len() as int) =~= pkgs@);
    while i > 0
        invariant
            i <= pkgs@.len(),
            package_info(pkgs@, package_id@) == package_info(pkgs@.subrange(0, i as int), package_id@),
        decreases i,
    {
        let ghost pre = pkgs@.subrange(0, i as int);
        assert(pre.drop_last() =~= pkgs@.subrange(0, i - 1));
        if crate::text::str_eq(pkgs[i - 1].0.as_str(), package_id) {
            return UpRow { id, user_id, remaining, package_name: pkgs[i - 1].1.clone(), slot_count: pkgs[i - 1].2 };
        }
        i = i - 1;
    }
    UpRow { id, user_id, remaining, package_name: String::new(), slot_count: 0 }
}

} // verus!
