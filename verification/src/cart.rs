//! Cart sessions and line items: one open cart per browser cookie, lines
//! merged by product or package, and the cart totals. Checkout, payments and
//! fulfilment build on this and live elsewhere.

use vstd::prelude::*;
use crate::booking::store::opt_str;
use crate::json::{json_string, push_json_string};
use crate::meta::{meta_json, push_meta_json, Meta};
use crate::shop::{format_isk, isk_label};
use crate::table::{lemma_lookup_upsert, lookup, upsert, erase, entries_view, keys_sorted, Table};
use crate::text::{
    alnum_check, append_chars, append_str, chars_of, clone_opt_string, find, find_char, i64_chars, int_str,
    is_alnum, lex_lt, nat_digits, opt_chars, owned, slice_chars, split_chars, split_on, str_eq, str_less,
    string_of, trim, trim_chars, trim_str, u64_digits,
};

verus! {

/// Name of the cookie that carries the cart id.
pub const CART_COOKIE: &'static str = "cart_id";

/// A cart: who owns it (none for a guest cart), its status (`open` while
/// shopping), currency and timestamps in milliseconds.
#[derive(Debug)]
pub struct Cart {
    pub id: String,
    pub user_id: Option<String>,
    pub status: String,
    pub currency: String,
    pub created_at: i64,
    pub updated_at: i64,
}

impl Clone for Cart {
    fn clone(&self) -> (r: Cart)
        ensures
            r == *self,
    {
        Cart {
            id: self.id.clone(),
            user_id: clone_opt_string(&self.user_id),
            status: self.status.clone(),
            currency: self.currency.clone(),
            created_at: self.created_at,
            updated_at: self.updated_at,
        }
    }
}

/// One line of a cart, with the line's metadata object.
#[derive(Debug)]
pub struct CartItem {
    pub id: String,
    pub cart_id: String,
    pub item_type: String,
    pub ref_id: String,
    pub name_snapshot: String,
    pub unit_price: i64,
    pub quantity: i64,
    pub metadata: Meta,
    pub created_at: i64,
}

impl Clone for CartItem {
    fn clone(&self) -> (r: CartItem)
        ensures
            r == *self,
    {
        CartItem {
            id: self.id.clone(),
            cart_id: self.cart_id.clone(),
            item_type: self.item_type.clone(),
            ref_id: self.ref_id.clone(),
            name_snapshot: self.name_snapshot.clone(),
            unit_price: self.unit_price,
            quantity: self.quantity,
            metadata: self.metadata.clone(),
            created_at: self.created_at,
        }
    }
}

/// A cart with its lines in order of creation and its totals.
#[derive(Debug)]
pub struct CartSummary {
    pub id: String,
    pub user_id: Option<String>,
    pub status: String,
    pub currency: String,
    pub items: Vec<CartItem>,
    pub subtotal: i64,
    pub item_count: i64,
}

/// An item to add, with its price and name already looked up.
#[derive(Debug)]
pub struct ResolvedItem {
    pub item_type: String,
    pub ref_id: String,
    pub name_snapshot: String,
    pub unit_price: i64,
    pub quantity: i64,
    pub metadata: Meta,
}

// ---------------------------------------------------------------------------
// Validation
// ---------------------------------------------------------------------------

/// The kinds of thing a cart can hold.
pub open spec fn known_item_type(t: Seq<char>) -> bool {
    t == "product"@ || t == "package"@ || t == "slot"@ || t == "subscription"@ || t == "gift_card"@
}

/// `Ok` for a known item type, else the error `invalid type`.
pub fn validate_item_type(item_type: &str) -> (r: Result<(), String>)
    ensures
        r is Ok <==> known_item_type(item_type@),
        r matches Err(e) ==> e@ == "invalid type"@,
{
    if str_eq(item_type, "product") || str_eq(item_type, "package") || str_eq(item_type, "slot") || str_eq(
        item_type,
        "subscription",
    ) || str_eq(item_type, "gift_card") {
        Ok(())
    } else {
        Err(owned("invalid type"))
    }
}

/// A character allowed in a cart id.
pub open spec fn cart_id_char(c: char) -> bool {
    is_alnum(c) || c == '-' || c == '_'
}

/// A cart id as cookies may carry it: 1 to 96 ASCII letters, digits, `-`
/// and `_`.
pub open spec fn valid_cart_id_spec(s: Seq<char>) -> bool {
    &&& 0 < s.len() <= 96
    &&& forall|i: int| 0 <= i < s.len() ==> cart_id_char(#[trigger] s[i])
}

pub fn valid_cart_id(value: &str) -> (r: bool)
    ensures
        r == valid_cart_id_spec(value@),
{
    let v = chars_of(value);
    if v.len() == 0 || v.len() > 96 {
        return false;
    }
    let mut i: usize = 0;
    while i < v.len()
        invariant
            i <= v@.len(),
            v@ == value@,
            forall|j: int| 0 <= j < i ==> cart_id_char(#[trigger] v@[j]),
        decreases v@.len() - i,
    {
        let c = v[i];
        if !(alnum_check(c) || c == '-' || c == '_') {
            assert(!cart_id_char(v@[i as int]));
            return false;
        }
        i = i + 1;
    }
    true
}

// ---------------------------------------------------------------------------
// Arithmetic
// ---------------------------------------------------------------------------

/// `x` clamped to the `i64` range.
pub open spec fn clamp_i64(x: int) -> i64 {
    if x > i64::MAX {
        i64::MAX
    } else if x < i64::MIN {
        i64::MIN
    } else {
        x as i64
    }
}

/// `i64::saturating_mul`.
pub fn saturating_mul_i64(a: i64, b: i64) -> (r: i64)
    ensures
        r == clamp_i64(a * b),
{
    match a.checked_mul(b) {
        Some(p) => p,
        None => {
            if (a < 0) == (b < 0) {
                assert(a * b >= 0) by (nonlinear_arith)
                    requires
                        (a < 0) == (b < 0),
                ;
                i64::MAX
            } else {
                assert(a * b <= 0) by (nonlinear_arith)
                    requires
                        (a < 0) != (b < 0),
                ;
                i64::MIN
            }
        },
    }
}

/// A line's total: unit price times quantity, saturating.
pub open spec fn line_total(it: CartItem) -> i64 {
    clamp_i64(it.unit_price * it.quantity)
}

/// The sum of the line totals, wrapping around on `i64` overflow.
pub open spec fn subtotal_of(lines: Seq<CartItem>) -> i64
    decreases lines.len(),
{
    if lines.len() == 0 {
        0
    } else {
        vstd::wrapping::i64_specs::wrapping_add(subtotal_of(lines.drop_last()), line_total(lines.last()))
    }
}

/// The sum of the quantities, wrapping around on `i64` overflow.
pub open spec fn count_of(lines: Seq<CartItem>) -> i64
    decreases lines.len(),
{
    if lines.len() == 0 {
        0
    } else {
        vstd::wrapping::i64_specs::wrapping_add(count_of(lines.drop_last()), lines.last().quantity)
    }
}

// ---------------------------------------------------------------------------
// Line order
// ---------------------------------------------------------------------------

/// Line order: by creation time, then by id.
pub open spec fn line_le(a: CartItem, b: CartItem) -> bool {
    a.created_at < b.created_at || (a.created_at == b.created_at && !lex_lt(b.id@, a.id@))
}

/// `x` placed after every line of `s` not after it: a stable insertion.
pub open spec fn insert_line(s: Seq<CartItem>, x: CartItem) -> Seq<CartItem>
    decreases s.len(),
{
    if s.len() == 0 {
        seq![x]
    } else if line_le(s.last(), x) {
        s.push(x)
    } else {
        insert_line(s.drop_last(), x).push(s.last())
    }
}

/// The lines sorted by creation time and id, ties in input order.
pub open spec fn sort_lines(s: Seq<CartItem>) -> Seq<CartItem>
    decreases s.len(),
{
    if s.len() == 0 {
        seq![]
    } else {
        insert_line(sort_lines(s.drop_last()), s.last())
    }
}

proof fn lemma_wrapping_swap(a: i64, b: i64, c: i64)
    ensures
        vstd::wrapping::i64_specs::wrapping_add(vstd::wrapping::i64_specs::wrapping_add(a, b), c)
            == vstd::wrapping::i64_specs::wrapping_add(vstd::wrapping::i64_specs::wrapping_add(a, c), b),
{
}

proof fn lemma_insert_totals(s: Seq<CartItem>, x: CartItem)
    ensures
        subtotal_of(insert_line(s, x)) == vstd::wrapping::i64_specs::wrapping_add(subtotal_of(s), line_total(x)),
        count_of(insert_line(s, x)) == vstd::wrapping::i64_specs::wrapping_add(count_of(s), x.quantity),
    decreases s.len(),
{
    if s.len() == 0 {
        let r = seq![x];
        assert(r.drop_last() =~= Seq::<CartItem>::empty());
        assert(r.last() == x);
        assert(subtotal_of(r) == vstd::wrapping::i64_specs::wrapping_add(subtotal_of(r.drop_last()), line_total(x)));
        assert(count_of(r) == vstd::wrapping::i64_specs::wrapping_add(count_of(r.drop_last()), x.quantity));
    } else if line_le(s.last(), x) {
        let r = s.push(x);
        assert(r.drop_last() =~= s);
        assert(r.last() == x);
        assert(subtotal_of(r) == vstd::wrapping::i64_specs::wrapping_add(subtotal_of(r.drop_last()), line_total(x)));
        assert(count_of(r) == vstd::wrapping::i64_specs::wrapping_add(count_of(r.drop_last()), x.quantity));
    } else {
        let init = s.drop_last();
        lemma_insert_totals(init, x);
        let r = insert_line(init, x).push(s.last());
        assert(r.drop_last() =~= insert_line(init, x));
        assert(r.last() == s.last());
        assert(subtotal_of(r) == vstd::wrapping::i64_specs::wrapping_add(
            subtotal_of(r.drop_last()),
            line_total(s.last()),
        ));
        assert(count_of(r) == vstd::wrapping::i64_specs::wrapping_add(count_of(r.drop_last()), s.last().quantity));
        lemma_wrapping_swap(subtotal_of(init), line_total(x), line_total(s.last()));
        lemma_wrapping_swap(count_of(init), x.quantity, s.last().quantity);
    }
}

/// A cart's totals do not depend on the order of its lines: sorted for
/// display, the lines sum to the same subtotal and item count.
pub proof fn lemma_sorted_totals(s: Seq<CartItem>)
    ensures
        subtotal_of(sort_lines(s)) == subtotal_of(s),
        count_of(sort_lines(s)) == count_of(s),
    decreases s.len(),
{
    if s.len() > 0 {
        lemma_sorted_totals(s.drop_last());
        lemma_insert_totals(sort_lines(s.drop_last()), s.last());
    }
}

/// The lines are in display order: by creation time, then by id.
pub open spec fn lines_ordered(s: Seq<CartItem>) -> bool {
    forall|i: int, j: int| 0 <= i < j < s.len() ==> line_le(#[trigger] s[i], #[trigger] s[j])
}

proof fn lemma_line_le_trans(a: CartItem, b: CartItem, c: CartItem)
    requires
        line_le(a, b),
        line_le(b, c),
    ensures
        line_le(a, c),
{
    if a.created_at == b.created_at && b.created_at == c.created_at {
        if lex_lt(c.id@, a.id@) {
            if a.id@ != b.id@ {
                crate::text::lemma_lex_total(a.id@, b.id@);
            }
            if b.id@ != c.id@ {
                crate::text::lemma_lex_total(b.id@, c.id@);
            }
            if a.id@ == b.id@ {
                crate::text::lemma_lex_asym(c.id@, b.id@);
            } else if b.id@ == c.id@ {
                crate::text::lemma_lex_asym(b.id@, a.id@);
            } else {
                crate::text::lemma_lex_trans(a.id@, b.id@, c.id@);
                crate::text::lemma_lex_asym(a.id@, c.id@);
            }
        }
    }
}

proof fn lemma_line_le_total(a: CartItem, b: CartItem)
    ensures
        line_le(a, b) || line_le(b, a),
{
    if a.created_at == b.created_at {
        if a.id@ != b.id@ {
            crate::text::lemma_lex_total(a.id@, b.id@);
            if lex_lt(a.id@, b.id@) {
                crate::text::lemma_lex_asym(a.id@, b.id@);
            }
        } else {
            crate::text::lemma_lex_irreflexive(a.id@);
        }
    }
}

proof fn lemma_insert_line_ordered(s: Seq<CartItem>, x: CartItem)
    requires
        lines_ordered(s),
    ensures
        lines_ordered(insert_line(s, x)),
        insert_line(s, x).to_multiset() == s.to_multiset().insert(x),
    decreases s.len(),
{
    broadcast use vstd::seq_lib::group_to_multiset_ensures;
    if s.len() == 0 {
        assert(seq![x] =~= Seq::<CartItem>::empty().push(x));
    } else if line_le(s.last(), x) {
        let t = s.push(x);
        assert forall|i: int, j: int| 0 <= i < j < t.len() implies line_le(#[trigger] t[i], #[trigger] t[j]) by {
            if j == s.len() {
                if i < s.len() - 1 {
                    assert(line_le(s[i], s[s.len() - 1]));
                    lemma_line_le_trans(s[i], s.last(), x);
                }
            } else {
                assert(t[i] == s[i] && t[j] == s[j]);
            }
        }
    } else {
        lemma_line_le_total(s.last(), x);
        let d = s.drop_last();
        assert(lines_ordered(d)) by {
            assert forall|i: int, j: int| 0 <= i < j < d.len() implies line_le(#[trigger] d[i], #[trigger] d[j]) by {
                assert(d[i] == s[i] && d[j] == s[j]);
            }
        }
        lemma_insert_line_ordered(d, x);
        let u = insert_line(d, x);
        assert(d.push(s.last()) =~= s);
        assert forall|k: int| 0 <= k < u.len() implies line_le(#[trigger] u[k], s.last()) by {
            assert(u.to_multiset().count(u[k]) > 0);
            assert(u.to_multiset().count(u[k]) == d.to_multiset().insert(x).count(u[k]));
            if u[k] != x {
                assert(d.to_multiset().count(u[k]) > 0);
                assert(d.contains(u[k]));
                let m = choose|m: int| 0 <= m < d.len() && d[m] == u[k];
                assert(s[m] == d[m]);
                assert(s[s.len() - 1] == s.last());
            }
        }
        let t = u.push(s.last());
        assert forall|i: int, j: int| 0 <= i < j < t.len() implies line_le(#[trigger] t[i], #[trigger] t[j]) by {
            if j == u.len() {
                assert(t[i] == u[i]);
            } else {
                assert(t[i] == u[i] && t[j] == u[j]);
            }
        }
    }
}

/// A cart lists every one of its lines exactly once, in display order: by
/// creation time, then by id.
pub proof fn lemma_sort_lines(s: Seq<CartItem>)
    ensures
        lines_ordered(sort_lines(s)),
        sort_lines(s).to_multiset() == s.to_multiset(),
        sort_lines(s).len() == s.len(),
    decreases s.len(),
{
    broadcast use vstd::seq_lib::group_to_multiset_ensures;
    if s.len() > 0 {
        lemma_sort_lines(s.drop_last());
        lemma_insert_line_ordered(sort_lines(s.drop_last()), s.last());
        assert(s.drop_last().push(s.last()) =~= s);
    }
    assert(sort_lines(s).to_multiset().len() == sort_lines(s).len());
    assert(s.to_multiset().len() == s.len());
}

/// The plain sum of the lines' prices times quantities.
pub open spec fn exact_subtotal(s: Seq<CartItem>) -> int
    decreases s.len(),
{
    if s.len() == 0 {
        0
    } else {
        exact_subtotal(s.drop_last()) + s.last().unit_price * s.last().quantity
    }
}

/// The plain sum of the lines' quantities.
pub open spec fn exact_count(s: Seq<CartItem>) -> int
    decreases s.len(),
{
    if s.len() == 0 {
        0
    } else {
        exact_count(s.drop_last()) + s.last().quantity
    }
}

/// Below `i64` overflow a cart's totals are the plain sums: the subtotal is
/// the sum of price times quantity over its lines, the item count the sum of
/// the quantities.
pub proof fn lemma_totals_exact(s: Seq<CartItem>)
    requires
        forall|i: int| 0 <= i < s.len() ==> i64::MIN <= #[trigger] s[i].unit_price * s[i].quantity <= i64::MAX,
        forall|k: int| 0 <= k <= s.len() ==> i64::MIN <= #[trigger] exact_subtotal(s.subrange(0, k)) <= i64::MAX,
        forall|k: int| 0 <= k <= s.len() ==> i64::MIN <= #[trigger] exact_count(s.subrange(0, k)) <= i64::MAX,
    ensures
        subtotal_of(s) == exact_subtotal(s),
        count_of(s) == exact_count(s),
    decreases s.len(),
{
    if s.len() > 0 {
        let init = s.drop_last();
        assert forall|k: int| 0 <= k <= init.len() implies i64::MIN <= #[trigger] exact_subtotal(init.subrange(0, k))
            <= i64::MAX by {
            assert(init.subrange(0, k) =~= s.subrange(0, k));
        }
        assert forall|k: int| 0 <= k <= init.len() implies i64::MIN <= #[trigger] exact_count(init.subrange(0, k))
            <= i64::MAX by {
            assert(init.subrange(0, k) =~= s.subrange(0, k));
        }
        assert forall|i: int| 0 <= i < init.len() implies i64::MIN <= #[trigger] init[i].unit_price * init[i].quantity
            <= i64::MAX by {
            assert(init[i] == s[i]);
        }
        lemma_totals_exact(init);
        assert(s.subrange(0, s.len() as int) =~= s);
        assert(i64::MIN <= exact_subtotal(s.subrange(0, s.len() as int)) <= i64::MAX);
        assert(i64::MIN <= exact_count(s.subrange(0, s.len() as int)) <= i64::MAX);
        assert(i64::MIN <= s[s.len() - 1].unit_price * s[s.len() - 1].quantity <= i64::MAX);
        assert(line_total(s.last()) == s.last().unit_price * s.last().quantity);
    }
}

/// Every line is stored under its own id.
pub open spec fn items_keyed(s: Seq<(Seq<char>, CartItem)>) -> bool {
    forall|i: int| 0 <= i < s.len() ==> #[trigger] s[i].0 == s[i].1.id@
}

/// Storing a line under its own id keeps the lines keyed.
proof fn lemma_items_keyed_upsert(s: Seq<(Seq<char>, CartItem)>, c: CartItem)
    requires
        items_keyed(s),
    ensures
        items_keyed(upsert(s, c.id@, c)),
    decreases s.len(),
{
    let u = upsert(s, c.id@, c);
    if s.len() == 0 {
    } else if s[0].0 == c.id@ {
        assert forall|i: int| 0 <= i < u.len() implies #[trigger] u[i].0 == u[i].1.id@ by {
            if i > 0 {
                assert(u[i] == s[i]);
            }
        }
    } else if crate::text::lex_lt(c.id@, s[0].0) {
        assert forall|i: int| 0 <= i < u.len() implies #[trigger] u[i].0 == u[i].1.id@ by {
            if i > 0 {
                assert(u[i] == s[i - 1]);
            }
        }
    } else {
        let t = s.drop_first();
        assert forall|i: int| 0 <= i < t.len() implies #[trigger] t[i].0 == t[i].1.id@ by {
            assert(t[i] == s[i + 1]);
        }
        lemma_items_keyed_upsert(t, c);
        let r = upsert(t, c.id@, c);
        assert forall|i: int| 0 <= i < u.len() implies #[trigger] u[i].0 == u[i].1.id@ by {
            if i > 0 {
                assert(u[i] == r[i - 1]);
            } else {
                assert(u[0] == s[0]);
            }
        }
    }
}

/// Dropping an entry keeps the lines keyed.
proof fn lemma_items_keyed_erase(s: Seq<(Seq<char>, CartItem)>, k: Seq<char>)
    requires
        items_keyed(s),
    ensures
        items_keyed(erase(s, k)),
    decreases s.len(),
{
    let u = erase(s, k);
    if s.len() > 0 {
        if s[0].0 == k {
            assert forall|i: int| 0 <= i < u.len() implies #[trigger] u[i].0 == u[i].1.id@ by {
                assert(u[i] == s[i + 1]);
            }
        } else {
            let t = s.drop_first();
            assert forall|i: int| 0 <= i < t.len() implies #[trigger] t[i].0 == t[i].1.id@ by {
                assert(t[i] == s[i + 1]);
            }
            lemma_items_keyed_erase(t, k);
            let r = erase(t, k);
            assert forall|i: int| 0 <= i < u.len() implies #[trigger] u[i].0 == u[i].1.id@ by {
                if i > 0 {
                    assert(u[i] == r[i - 1]);
                } else {
                    assert(u[0] == s[0]);
                }
            }
        }
    }
}

proof fn lemma_items_keyed_all(s: Seq<(Seq<char>, CartItem)>)
    ensures
        forall|c: CartItem| items_keyed(s) ==> #[trigger] items_keyed(upsert(s, c.id@, c)),
        forall|k: Seq<char>| items_keyed(s) ==> #[trigger] items_keyed(erase(s, k)),
{
    assert forall|c: CartItem| items_keyed(s) implies #[trigger] items_keyed(upsert(s, c.id@, c)) by {
        lemma_items_keyed_upsert(s, c);
    }
    assert forall|k: Seq<char>| items_keyed(s) implies #[trigger] items_keyed(erase(s, k)) by {
        lemma_items_keyed_erase(s, k);
    }
}

proof fn lemma_find_line_at(items: Seq<(Seq<char>, CartItem)>, cart_id: Seq<char>, t: Seq<char>, r: Seq<char>) -> (j: int)
    requires
        find_line(items, cart_id, t, r) is Some,
    ensures
        0 <= j < items.len(),
        items[j].1 == find_line(items, cart_id, t, r)->0,
        items[j].1.cart_id@ == cart_id,
    decreases items.len(),
{
    if items[0].1.cart_id@ == cart_id && items[0].1.item_type@ == t && items[0].1.ref_id@ == r {
        0
    } else {
        let k = lemma_find_line_at(items.drop_first(), cart_id, t, r);
        assert(items.drop_first()[k] == items[k + 1]);
        k + 1
    }
}

proof fn lemma_lines_update(s: Seq<(Seq<char>, CartItem)>, cart_id: Seq<char>, j: int, v: (Seq<char>, CartItem)) -> (idx: int)
    requires
        0 <= j < s.len(),
        s[j].1.cart_id@ == cart_id,
        v.1.cart_id@ == cart_id,
    ensures
        0 <= idx < lines_of(s, cart_id).len(),
        lines_of(s, cart_id)[idx] == s[j].1,
        lines_of(s.update(j, v), cart_id) == lines_of(s, cart_id).update(idx, v.1),
    decreases s.len(),
{
    let u = s.update(j, v);
    let init = s.drop_last();
    assert(u.drop_last() =~= if j == s.len() - 1 { init } else { init.update(j, v) });
    if j == s.len() - 1 {
        let idx = lines_of(init, cart_id).len() as int;
        assert(lines_of(u, cart_id) =~= lines_of(s, cart_id).update(idx, v.1));
        idx
    } else {
        let idx = lemma_lines_update(init, cart_id, j, v);
        assert(u.last() == s.last());
        assert(lines_of(u, cart_id) =~= lines_of(s, cart_id).update(idx, v.1));
        idx
    }
}

proof fn lemma_count_update(s: Seq<CartItem>, i: int, y: CartItem, a: i64)
    requires
        0 <= i < s.len(),
        y.quantity == vstd::wrapping::i64_specs::wrapping_add(s[i].quantity, a),
    ensures
        count_of(s.update(i, y)) == vstd::wrapping::i64_specs::wrapping_add(count_of(s), a),
    decreases s.len(),
{
    let u = s.update(i, y);
    let init = s.drop_last();
    if i == s.len() - 1 {
        assert(u.drop_last() =~= init);
    } else {
        assert(u.drop_last() =~= init.update(i, y));
        lemma_count_update(init, i, y, a);
        lemma_wrapping_swap(count_of(init), a, s.last().quantity);
    }
}

/// Adding a product or package already in the cart merges it into its line:
/// the cart keeps as many lines as before, and its item count grows by the
/// quantity added.
pub proof fn lemma_merge_totals(items: Seq<(Seq<char>, CartItem)>, cart_id: Seq<char>, item: ResolvedItem)
    requires
        keys_sorted(items),
        items_keyed(items),
        merges(item.item_type@),
        merge_target(items, cart_id, item) is Some,
    ensures
        ({
            let e = merge_target(items, cart_id, item)->0;
            let after = upsert(items, e.id@, merged_line(e, item));
            &&& lines_of(after, cart_id).len() == lines_of(items, cart_id).len()
            &&& count_of(sort_lines(lines_of(after, cart_id))) == vstd::wrapping::i64_specs::wrapping_add(
                count_of(sort_lines(lines_of(items, cart_id))),
                item.quantity,
            )
        }),
{
    reveal_strlit("gift_card");
    reveal_strlit("package");
    reveal_strlit("product");
    assert(item.item_type@ != "gift_card"@) by {
        assert(item.item_type@[0] != "gift_card"@[0]);
    }
    let e = merge_target(items, cart_id, item)->0;
    let j = lemma_find_line_at(items, cart_id, item.item_type@, item.ref_id@);
    let m = merged_line(e, item);
    assert(items[j].0 == e.id@);
    crate::table::lemma_upsert_in_place(items, j, m);
    let idx = lemma_lines_update(items, cart_id, j, (e.id@, m));
    lemma_count_update(lines_of(items, cart_id), idx, m, item.quantity);
    lemma_sorted_totals(lines_of(items, cart_id));
    lemma_sorted_totals(lines_of(upsert(items, e.id@, m), cart_id));
}

fn line_le_exec(a: &CartItem, b: &CartItem) -> (r: bool)
    ensures
        r == line_le(*a, *b),
{
    a.created_at < b.created_at || (a.created_at == b.created_at && !str_less(b.id.as_str(), a.id.as_str()))
}

fn insert_line_exec(out: &mut Vec<CartItem>, x: CartItem)
    ensures
        final(out)@ == insert_line(old(out)@, x),
{
    let ghost s = out@;
    let mut j = out.len();
    assert(s.subrange(0, s.len() as int) =~= s);
    assert(s.subrange(s.len() as int, s.len() as int) =~= Seq::<CartItem>::empty());
    while j > 0 && !line_le_exec(&out[j - 1], &x)
        invariant
            j <= s.len(),
            out@ == s,
            insert_line(s, x) == insert_line(s.subrange(0, j as int), x) + s.subrange(j as int, s.len() as int),
        decreases j,
    {
        let ghost pre = s.subrange(0, j as int);
        assert(pre.drop_last() =~= s.subrange(0, j - 1));
        assert(pre.last() == s[j - 1]);
        assert(insert_line(pre, x) == insert_line(s.subrange(0, j - 1), x).push(s[j - 1]));
        assert(insert_line(s.subrange(0, j - 1), x).push(s[j - 1]) + s.subrange(j as int, s.len() as int)
            =~= insert_line(s.subrange(0, j - 1), x) + s.subrange(j - 1, s.len() as int));
        j = j - 1;
    }
    proof {
        let pre = s.subrange(0, j as int);
        if j > 0 {
            assert(pre.last() == s[j - 1]);
            assert(insert_line(pre, x) == pre.push(x));
        } else {
            assert(pre =~= Seq::<CartItem>::empty());
        }
    }
    out.insert(j, x);
    assert(out@ =~= insert_line(s, x));
}

// ---------------------------------------------------------------------------
// Lines of a cart
// ---------------------------------------------------------------------------

/// The lines of cart `cart_id`, in key order.
pub open spec fn lines_of(items: Seq<(Seq<char>, CartItem)>, cart_id: Seq<char>) -> Seq<CartItem>
    decreases items.len(),
{
    if items.len() == 0 {
        seq![]
    } else if items.last().1.cart_id@ == cart_id {
        lines_of(items.drop_last(), cart_id).push(items.last().1)
    } else {
        lines_of(items.drop_last(), cart_id)
    }
}

/// The first line, in key order, of cart `cart_id` for the same item type
/// and reference.
pub open spec fn find_line(
    items: Seq<(Seq<char>, CartItem)>,
    cart_id: Seq<char>,
    item_type: Seq<char>,
    ref_id: Seq<char>,
) -> Option<CartItem>
    decreases items.len(),
{
    if items.len() == 0 {
        None
    } else if items[0].1.cart_id@ == cart_id && items[0].1.item_type@ == item_type && items[0].1.ref_id@
        == ref_id {
        Some(items[0].1)
    } else {
        find_line(items.drop_first(), cart_id, item_type, ref_id)
    }
}

/// `s` is the summary of cart `c` over the stored lines.
pub open spec fn summarizes(s: CartSummary, c: Cart, items: Seq<(Seq<char>, CartItem)>) -> bool {
    &&& s.id@ == c.id@
    &&& opt_chars(s.user_id) == opt_chars(c.user_id)
    &&& s.status@ == c.status@
    &&& s.currency@ == c.currency@
    &&& s.items@ == sort_lines(lines_of(items, c.id@))
    &&& s.subtotal == subtotal_of(s.items@)
    &&& s.item_count == count_of(s.items@)
}

/// The id `{prefix}-{now}-{seq}`.
pub open spec fn record_id(prefix: Seq<char>, now: i64, seq: u64) -> Seq<char> {
    prefix + "-"@ + int_str(now as int) + "-"@ + nat_digits(seq as nat)
}

/// The sequence number after `seq` (wrapping).
pub open spec fn next_seq(seq: u64) -> u64 {
    if seq == u64::MAX {
        0
    } else {
        (seq + 1) as u64
    }
}

/// The sequence number `k` steps after `s`.
pub open spec fn seq_after(s: u64, k: nat) -> u64
    decreases k,
{
    if k == 0 {
        s
    } else {
        next_seq(seq_after(s, (k - 1) as nat))
    }
}

/// The text `{prefix}-{now}-{seq}`.
pub fn record_id_of(prefix: &str, now: i64, seq: u64) -> (r: String)
    ensures
        r@ == record_id(prefix@, now, seq),
{
    let mut v: Vec<char> = Vec::new();
    append_str(&mut v, prefix);
    append_str(&mut v, "-");
    append_chars(&mut v, &i64_chars(now));
    append_str(&mut v, "-");
    append_chars(&mut v, &u64_digits(seq));
    string_of(&v)
}

/// The new, empty guest cart made at `now` under `id`.
pub open spec fn fresh_cart(c: Cart, id: Seq<char>, now: i64) -> bool {
    &&& c.id@ == id
    &&& c.user_id is None
    &&& c.status@ == "open"@
    &&& c.currency@ == "ISK"@
    &&& c.created_at == now
    &&& c.updated_at == now
}

/// The cart a cookie id may resume: a valid id naming an open guest cart.
pub open spec fn reusable_cart(carts: Seq<(Seq<char>, Cart)>, cookie: Option<Seq<char>>) -> Option<Cart> {
    match cookie {
        Some(id) => if valid_cart_id_spec(id) {
            match lookup(carts, id) {
                Some(c) => if c.status@ == "open"@ && c.user_id is None {
                    Some(c)
                } else {
                    None
                },
                None => None,
            }
        } else {
            None
        },
        None => None,
    }
}

/// The open cart stored under `id`, if any.
pub open spec fn open_cart(carts: Seq<(Seq<char>, Cart)>, id: Seq<char>) -> Option<Cart> {
    match lookup(carts, id) {
        Some(c) => if c.status@ == "open"@ {
            Some(c)
        } else {
            None
        },
        None => None,
    }
}

// ---------------------------------------------------------------------------
// The store
// ---------------------------------------------------------------------------

/// Why an item cannot be added, checked in this order; `None` when it can.
pub open spec fn item_refusal(item: ResolvedItem) -> Option<Seq<char>> {
    if !known_item_type(item.item_type@) {
        Some("invalid type"@)
    } else if trim(item.ref_id@).len() == 0 {
        Some("refId required"@)
    } else if trim(item.name_snapshot@).len() == 0 {
        Some("nameSnapshot required"@)
    } else if item.unit_price < 0 {
        Some("unitPrice must be non-negative"@)
    } else if item.quantity < 1 {
        Some("quantity must be positive"@)
    } else {
        None
    }
}

/// Item types whose lines grow when the same thing is added again.
pub open spec fn merges(t: Seq<char>) -> bool {
    t == "package"@ || t == "product"@
}

/// The line an added item lands on, if one exists: the first line of the
/// cart for the same type and reference; gift cards always get a new line.
pub open spec fn merge_target(items: Seq<(Seq<char>, CartItem)>, cart_id: Seq<char>, item: ResolvedItem) -> Option<
    CartItem,
> {
    if item.item_type@ == "gift_card"@ {
        None
    } else {
        find_line(items, cart_id, item.item_type@, item.ref_id@)
    }
}

/// Line `e` after `item` is added to it: quantities add, and the price, name
/// and metadata are refreshed from the item.
pub open spec fn merged_line(e: CartItem, item: ResolvedItem) -> CartItem {
    CartItem {
        quantity: vstd::wrapping::i64_specs::wrapping_add(e.quantity, item.quantity),
        unit_price: item.unit_price,
        name_snapshot: item.name_snapshot,
        metadata: item.metadata,
        ..e
    }
}

/// `l` is the new line for `item` in cart `cart_id`, made at `now` under `id`.
pub open spec fn new_line(l: CartItem, id: Seq<char>, cart_id: Seq<char>, item: ResolvedItem, now: i64) -> bool {
    &&& l.id@ == id
    &&& l.cart_id@ == cart_id
    &&& l.item_type == item.item_type
    &&& l.ref_id == item.ref_id
    &&& l.name_snapshot == item.name_snapshot
    &&& l.unit_price == item.unit_price
    &&& l.quantity == item.quantity
    &&& l.metadata == item.metadata
    &&& l.created_at == now
}

/// What adding `item` to cart `cart_id` at `now` does to the lines and the
/// id counter: it merges into the line it lands on (a product or package),
/// leaves a repeated slot or subscription as it is, or makes a new line
/// under the next id.
pub open spec fn add_effect(
    items: Seq<(Seq<char>, CartItem)>,
    seq: u64,
    cart_id: Seq<char>,
    item: ResolvedItem,
    now: i64,
    after: Seq<(Seq<char>, CartItem)>,
    seq_after_add: u64,
) -> bool {
    match merge_target(items, cart_id, item) {
        Some(e) => {
            &&& seq_after_add == seq
            &&& merges(item.item_type@) ==> after == upsert(items, e.id@, merged_line(e, item))
            &&& !merges(item.item_type@) ==> after == items
        },
        None => {
            &&& seq_after_add == next_seq(seq)
            &&& lookup(after, record_id("ci"@, now, seq)) matches Some(l) && new_line(
                l,
                record_id("ci"@, now, seq),
                cart_id,
                item,
                now,
            ) && after == upsert(items, l.id@, l)
        },
    }
}

/// Adding a product or a package that already has a line in the cart (same
/// type and reference) adds the item's quantity to that line, takes the
/// item's current price, name and metadata, keeps the line's id, cart, type,
/// reference and time, draws no new id, and leaves every other line as it
/// was.
pub proof fn lemma_add_merges_repeats(
    items: Seq<(Seq<char>, CartItem)>,
    seq: u64,
    cart_id: Seq<char>,
    item: ResolvedItem,
    now: i64,
    after: Seq<(Seq<char>, CartItem)>,
    seq2: u64,
    k: Seq<char>,
)
    requires
        add_effect(items, seq, cart_id, item, now, after, seq2),
        item.item_type@ == "package"@ || item.item_type@ == "product"@,
        find_line(items, cart_id, item.item_type@, item.ref_id@) is Some,
    ensures
        ({
            let e = find_line(items, cart_id, item.item_type@, item.ref_id@)->0;
            &&& lookup(after, e.id@) matches Some(l) && l.quantity == vstd::wrapping::i64_specs::wrapping_add(
                e.quantity,
                item.quantity,
            ) && l.unit_price == item.unit_price && l.name_snapshot == item.name_snapshot && l.metadata
                == item.metadata && l.id == e.id && l.cart_id == e.cart_id && l.item_type == e.item_type && l.ref_id
                == e.ref_id && l.created_at == e.created_at
            &&& k != e.id@ ==> lookup(after, k) == lookup(items, k)
            &&& seq2 == seq
        }),
{
    reveal_strlit("gift_card");
    reveal_strlit("package");
    reveal_strlit("product");
    assert(item.item_type@ != "gift_card"@) by {
        assert(item.item_type@[0] != "gift_card"@[0]);
    }
    let e = find_line(items, cart_id, item.item_type@, item.ref_id@)->0;
    lemma_lookup_upsert(items, e.id@, merged_line(e, item), k);
}

/// A gift card never merges: adding one always makes a new line under the
/// next id, whatever lines the cart already has.
pub proof fn lemma_gift_cards_get_new_lines(
    items: Seq<(Seq<char>, CartItem)>,
    seq: u64,
    cart_id: Seq<char>,
    item: ResolvedItem,
    now: i64,
    after: Seq<(Seq<char>, CartItem)>,
    seq2: u64,
)
    requires
        add_effect(items, seq, cart_id, item, now, after, seq2),
        item.item_type@ == "gift_card"@,
    ensures
        seq2 == next_seq(seq),
        lookup(after, record_id("ci"@, now, seq)) matches Some(l) && l.quantity == item.quantity && l.unit_price
            == item.unit_price && l.cart_id@ == cart_id && l.item_type == item.item_type,
{
}

/// Every cart is stored under its own id.
pub open spec fn carts_keyed(s: Seq<(Seq<char>, Cart)>) -> bool {
    forall|i: int| 0 <= i < s.len() ==> #[trigger] s[i].0 == s[i].1.id@
}

/// Storing a cart under its own id keeps the carts keyed.
pub proof fn lemma_carts_keyed_upsert(s: Seq<(Seq<char>, Cart)>, c: Cart)
    requires
        carts_keyed(s),
    ensures
        carts_keyed(upsert(s, c.id@, c)),
    decreases s.len(),
{
    let u = upsert(s, c.id@, c);
    if s.len() == 0 {
    } else if s[0].0 == c.id@ {
        assert forall|i: int| 0 <= i < u.len() implies #[trigger] u[i].0 == u[i].1.id@ by {
            if i > 0 {
                assert(u[i] == s[i]);
            }
        }
    } else if crate::text::lex_lt(c.id@, s[0].0) {
        assert forall|i: int| 0 <= i < u.len() implies #[trigger] u[i].0 == u[i].1.id@ by {
            if i > 0 {
                assert(u[i] == s[i - 1]);
            }
        }
    } else {
        let t = s.drop_first();
        assert forall|i: int| 0 <= i < t.len() implies #[trigger] t[i].0 == t[i].1.id@ by {
            assert(t[i] == s[i + 1]);
        }
        lemma_carts_keyed_upsert(t, c);
        let r = upsert(t, c.id@, c);
        assert forall|i: int| 0 <= i < u.len() implies #[trigger] u[i].0 == u[i].1.id@ by {
            if i > 0 {
                assert(u[i] == r[i - 1]);
            } else {
                assert(u[0] == s[0]);
            }
        }
    }
}

/// Storing any cart under its own id keeps the carts keyed.
pub proof fn lemma_carts_keyed_upsert_all(s: Seq<(Seq<char>, Cart)>)
    ensures
        forall|c: Cart| carts_keyed(s) ==> #[trigger] carts_keyed(upsert(s, c.id@, c)),
{
    assert forall|c: Cart| carts_keyed(s) implies #[trigger] carts_keyed(upsert(s, c.id@, c)) by {
        lemma_carts_keyed_upsert(s, c);
    }
}

/// In keyed carts, the cart found under a key carries that key as its id.
pub proof fn lemma_keyed_cart_id(s: Seq<(Seq<char>, Cart)>, k: Seq<char>)
    requires
        carts_keyed(s),
        lookup(s, k) is Some,
    ensures
        lookup(s, k).unwrap().id@ == k,
{
    let i = crate::table::lemma_lookup_some(s, k);
    assert(s[i].0 == s[i].1.id@);
}

/// Carts and their lines, each by id, and the counter that numbers new ids.
pub struct Store {
    carts: Table<Cart>,
    items: Table<CartItem>,
    seq: u64,
}

impl Store {
    /// Stored carts by id.
    pub closed spec fn carts(&self) -> Seq<(Seq<char>, Cart)> {
        self.carts.view()
    }

    /// Stored lines by id.
    pub closed spec fn items(&self) -> Seq<(Seq<char>, CartItem)> {
        self.items.view()
    }

    /// The number the next new id carries.
    pub closed spec fn seq(&self) -> u64 {
        self.seq
    }

    /// No carts, no lines.
    pub fn new() -> (s: Store)
        ensures
            s.carts() == Seq::<(Seq<char>, Cart)>::empty(),
            carts_keyed(s.carts()),
            s.items() == Seq::<(Seq<char>, CartItem)>::empty(),
            items_keyed(s.items()),
            s.seq() == 0,
    {
        Store { carts: Table::new(), items: Table::new(), seq: 0 }
    }

    fn take_id(&mut self, prefix: &str, now: i64) -> (r: String)
        ensures
            r@ == record_id(prefix@, now, old(self).seq()),
            final(self).seq() == next_seq(old(self).seq()),
            final(self).carts() == old(self).carts(),
            final(self).items() == old(self).items(),
    {
        let id = record_id_of(prefix, now, self.seq);
        self.seq = if self.seq == u64::MAX {
            0
        } else {
            self.seq + 1
        };
        id
    }

    /// The cart stored under `id`.
    pub fn cart(&self, id: &str) -> (r: Option<Cart>)
        ensures
            r == lookup(self.carts(), id@),
    {
        match self.carts.get(id) {
            Some(c) => Some(c.clone()),
            None => None,
        }
    }

    /// The first line, in key order, of cart `cart_id` for this item type
    /// and reference.
    pub fn find_item(&self, cart_id: &str, item_type: &str, ref_id: &str) -> (r: Option<CartItem>)
        ensures
            r == find_line(self.items(), cart_id@, item_type@, ref_id@),
    {
        let e = self.items.entries();
        let ghost v = self.items();
        let mut i: usize = 0;
        assert(v.subrange(0, v.len() as int) =~= v);
        while i < e.len()
            invariant
                i <= e@.len(),
                entries_view(e@) == v,
                v == self.items(),
                find_line(v, cart_id@, item_type@, ref_id@) == find_line(
                    v.subrange(i as int, v.len() as int),
                    cart_id@,
                    item_type@,
                    ref_id@,
                ),
            decreases e@.len() - i,
        {
            let ghost rest = v.subrange(i as int, v.len() as int);
            assert(rest[0] == v[i as int]);
            assert(rest.drop_first() =~= v.subrange(i + 1, v.len() as int));
            let it = &e[i].1;
            if str_eq(it.cart_id.as_str(), cart_id) && str_eq(it.item_type.as_str(), item_type) && str_eq(
                it.ref_id.as_str(),
                ref_id,
            ) {
                return Some(it.clone());
            }
            i = i + 1;
        }
        None
    }

    /// The lines of cart `cart_id` in order of creation (then id).
    pub fn cart_items(&self, cart_id: &str) -> (r: Vec<CartItem>)
        ensures
            r@ == sort_lines(lines_of(self.items(), cart_id@)),
    {
        let e = self.items.entries();
        let ghost v = self.items();
        let mut rows: Vec<CartItem> = Vec::new();
        let mut i: usize = 0;
        while i < e.len()
            invariant
                i <= e@.len(),
                entries_view(e@) == v,
                v == self.items(),
                rows@ == lines_of(v.subrange(0, i as int), cart_id@),
            decreases e@.len() - i,
        {
            assert(v.subrange(0, i + 1).drop_last() =~= v.subrange(0, i as int));
            assert(v.subrange(0, i + 1).last() == v[i as int]);
            let it = &e[i].1;
            if str_eq(it.cart_id.as_str(), cart_id) {
                rows.push(it.clone());
            }
            i = i + 1;
        }
        assert(v.subrange(0, v.len() as int) =~= v);
        let mut out: Vec<CartItem> = Vec::new();
        let mut k: usize = 0;
        while k < rows.len()
            invariant
                k <= rows@.len(),
                out@ == sort_lines(rows@.subrange(0, k as int)),
            decreases rows@.len() - k,
        {
            assert(rows@.subrange(0, k + 1).drop_last() =~= rows@.subrange(0, k as int));
            insert_line_exec(&mut out, rows[k].clone());
            k = k + 1;
        }
        assert(rows@.subrange(0, rows@.len() as int) =~= rows@);
        out
    }

    /// The summary of `cart` over the stored lines.
    pub fn summary(&self, cart: &Cart) -> (s: CartSummary)
        ensures
            summarizes(s, *cart, self.items()),
    {
        let items = self.cart_items(cart.id.as_str());
        let mut subtotal: i64 = 0;
        let mut count: i64 = 0;
        let mut i: usize = 0;
        while i < items.len()
            invariant
                i <= items@.len(),
                subtotal == subtotal_of(items@.subrange(0, i as int)),
                count == count_of(items@.subrange(0, i as int)),
            decreases items@.len() - i,
        {
            assert(items@.subrange(0, i + 1).drop_last() =~= items@.subrange(0, i as int));
            assert(items@.subrange(0, i + 1).last() == items@[i as int]);
            subtotal = subtotal.wrapping_add(saturating_mul_i64(items[i].unit_price, items[i].quantity));
            count = count.wrapping_add(items[i].quantity);
            i = i + 1;
        }
        assert(items@.subrange(0, items@.len() as int) =~= items@);
        CartSummary {
            id: cart.id.clone(),
            user_id: clone_opt_string(&cart.user_id),
            status: cart.status.clone(),
            currency: cart.currency.clone(),
            items,
            subtotal,
            item_count: count,
        }
    }

    /// The open guest cart the cookie names, or a new one. The flag says
    /// whether the cart was created.
    pub fn get_or_create_open(&mut self, cookie_cart_id: Option<&str>, now_ms: i64) -> (r: (CartSummary, bool))
        ensures
            carts_keyed(old(self).carts()) ==> carts_keyed(final(self).carts()),
            match reusable_cart(old(self).carts(), opt_str(cookie_cart_id)) {
                Some(c) => {
                    &&& !r.1
                    &&& summarizes(r.0, c, old(self).items())
                    &&& final(self).carts() == old(self).carts()
                    &&& final(self).seq() == old(self).seq()
                },
                None => {
                    &&& r.1
                    &&& lookup(final(self).carts(), record_id("cart"@, now_ms, old(self).seq())) matches Some(c)
                        && fresh_cart(c, record_id("cart"@, now_ms, old(self).seq()), now_ms)
                        && final(self).carts() == upsert(old(self).carts(), c.id@, c) && summarizes(
                        r.0,
                        c,
                        old(self).items(),
                    )
                    &&& final(self).seq() == next_seq(old(self).seq())
                },
            },
            final(self).items() == old(self).items(),
    {
        proof {
            lemma_carts_keyed_upsert_all(old(self).carts());
        }
        if let Some(id) = cookie_cart_id {
            if valid_cart_id(id) {
                if let Some(c) = self.carts.get(id) {
                    if str_eq(c.status.as_str(), "open") && c.user_id.is_none() {
                        let c = c.clone();
                        let s = self.summary(&c);
                        return (s, false);
                    }
                }
            }
        }
        let id = self.take_id("cart", now_ms);
        let cart = Cart {
            id,
            user_id: None,
            status: owned("open"),
            currency: owned("ISK"),
            created_at: now_ms,
            updated_at: now_ms,
        };
        let ghost c = cart;
        let ghost pre = self.carts();
        let key = cart.id.clone();
        let s = self.summary(&cart);
        self.carts.insert(key.as_str(), cart);
        proof {
            lemma_lookup_upsert(pre, c.id@, c, c.id@);
        }
        (s, true)
    }

    /// Add `item` to the open cart `cart_id`: a product or package merges
    /// into its existing line, a repeated slot or subscription is left as
    /// is, and anything else gets a new line.
    pub fn add_item(&mut self, cart_id: &str, item: ResolvedItem, now_ms: i64) -> (r: Result<CartSummary, String>)
        ensures
            carts_keyed(old(self).carts()) ==> carts_keyed(final(self).carts()),
            items_keyed(old(self).items()) ==> items_keyed(final(self).items()),
            match item_refusal(item) {
                Some(e) => {
                    &&& r matches Err(m) && m@ == e
                    &&& final(self).carts() == old(self).carts()
                    &&& final(self).items() == old(self).items()
                    &&& final(self).seq() == old(self).seq()
                },
                None => match open_cart(old(self).carts(), cart_id@) {
                    None => {
                        &&& r matches Err(m) && m@ == "cart not found"@
                        &&& final(self).carts() == old(self).carts()
                        &&& final(self).items() == old(self).items()
                        &&& final(self).seq() == old(self).seq()
                    },
                    Some(c) => {
                        &&& final(self).carts() == upsert(old(self).carts(), c.id@, Cart { updated_at: now_ms, ..c })
                        &&& r matches Ok(s) && summarizes(s, Cart { updated_at: now_ms, ..c }, final(self).items())
                        &&& add_effect(
                            old(self).items(),
                            old(self).seq(),
                            cart_id@,
                            item,
                            now_ms,
                            final(self).items(),
                            final(self).seq(),
                        )
                    },
                },
            },
    {
        proof {
            lemma_carts_keyed_upsert_all(old(self).carts());
            lemma_items_keyed_all(old(self).items());
        }
        let ghost it = item;
        match validate_item_type(item.item_type.as_str()) {
            Err(e) => return Err(e),
            Ok(()) => {},
        }
        if trim_str(item.ref_id.as_str()).len() == 0 {
            return Err(owned("refId required"));
        }
        if trim_str(item.name_snapshot.as_str()).len() == 0 {
            return Err(owned("nameSnapshot required"));
        }
        if item.unit_price < 0 {
            return Err(owned("unitPrice must be non-negative"));
        }
        if item.quantity < 1 {
            return Err(owned("quantity must be positive"));
        }
        let cart = match self.carts.get(cart_id) {
            Some(c) => {
                if str_eq(c.status.as_str(), "open") {
                    c.clone()
                } else {
                    return Err(owned("cart not found"));
                }
            },
            None => return Err(owned("cart not found")),
        };
        let existing = if str_eq(item.item_type.as_str(), "gift_card") {
            None
        } else {
            self.find_item(cart_id, item.item_type.as_str(), item.ref_id.as_str())
        };
        let ghost pre_items = self.items();
        match existing {
            Some(e) => {
                if str_eq(item.item_type.as_str(), "package") || str_eq(item.item_type.as_str(), "product") {
                    let key = e.id.clone();
                    let line = CartItem {
                        quantity: e.quantity.wrapping_add(item.quantity),
                        unit_price: item.unit_price,
                        name_snapshot: item.name_snapshot,
                        metadata: item.metadata,
                        ..e
                    };
                    assert(line == merged_line(e, it));
                    let ghost g = line;
                    self.items.insert(key.as_str(), line);
                    proof {
                        if items_keyed(pre_items) {
                            lemma_items_keyed_upsert(pre_items, g);
                        }
                    }
                }
            },
            None => {
                let id = self.take_id("ci", now_ms);
                let line = CartItem {
                    id,
                    cart_id: owned(cart_id),
                    item_type: item.item_type,
                    ref_id: item.ref_id,
                    name_snapshot: item.name_snapshot,
                    unit_price: item.unit_price,
                    quantity: item.quantity,
                    metadata: item.metadata,
                    created_at: now_ms,
                };
                let ghost l = line;
                let key = line.id.clone();
                self.items.insert(key.as_str(), line);
                proof {
                    lemma_lookup_upsert(pre_items, l.id@, l, l.id@);
                }
            },
        }
        let updated = Cart { updated_at: now_ms, ..cart };
        let key = updated.id.clone();
        let s = self.summary(&updated);
        self.carts.insert(key.as_str(), updated);
        Ok(s)
    }

    /// Set the quantity of line `item_id` in the open cart `cart_id`; zero
    /// removes the line.
    pub fn update_quantity(&mut self, cart_id: &str, item_id: &str, quantity: i64, now_ms: i64) -> (r: Result<
        CartSummary,
        String,
    >)
        ensures
            carts_keyed(old(self).carts()) ==> carts_keyed(final(self).carts()),
            items_keyed(old(self).items()) ==> items_keyed(final(self).items()),
            final(self).seq() == old(self).seq(),
            quantity < 0 ==> {
                &&& r matches Err(m) && m@ == "quantity must be a non-negative number"@
                &&& final(self).carts() == old(self).carts()
                &&& final(self).items() == old(self).items()
            },
            quantity >= 0 ==> match open_cart(old(self).carts(), cart_id@) {
                None => {
                    &&& r matches Err(m) && m@ == "cart not found"@
                    &&& final(self).carts() == old(self).carts()
                    &&& final(self).items() == old(self).items()
                },
                Some(c) => match lookup(old(self).items(), item_id@) {
                    Some(it) if it.cart_id@ == cart_id@ => {
                        &&& final(self).carts() == upsert(old(self).carts(), c.id@, Cart { updated_at: now_ms, ..c })
                        &&& quantity == 0 ==> final(self).items() == erase(old(self).items(), it.id@)
                        &&& quantity > 0 ==> final(self).items() == upsert(
                            old(self).items(),
                            it.id@,
                            CartItem { quantity, ..it },
                        )
                        &&& r matches Ok(s) && summarizes(s, Cart { updated_at: now_ms, ..c }, final(self).items())
                    },
                    _ => {
                        &&& r matches Err(m) && m@ == "item not found"@
                        &&& final(self).carts() == old(self).carts()
                        &&& final(self).items() == old(self).items()
                    },
                },
            },
    {
        proof {
            lemma_carts_keyed_upsert_all(old(self).carts());
            lemma_items_keyed_all(old(self).items());
        }
        if quantity < 0 {
            return Err(owned("quantity must be a non-negative number"));
        }
        let cart = match self.carts.get(cart_id) {
            Some(c) => {
                if str_eq(c.status.as_str(), "open") {
                    c.clone()
                } else {
                    return Err(owned("cart not found"));
                }
            },
            None => return Err(owned("cart not found")),
        };
        let item = match self.items.get(item_id) {
            Some(it) => {
                if str_eq(it.cart_id.as_str(), cart_id) {
                    it.clone()
                } else {
                    return Err(owned("item not found"));
                }
            },
            None => return Err(owned("item not found")),
        };
        let key = item.id.clone();
        if quantity == 0 {
            self.items.remove(key.as_str());
        } else {
            let next = CartItem { quantity, ..item };
            let ghost g = next;
            let ghost pre_items = self.items();
            self.items.insert(key.as_str(), next);
            proof {
                if items_keyed(pre_items) {
                    lemma_items_keyed_upsert(pre_items, g);
                }
            }
        }
        let updated = Cart { updated_at: now_ms, ..cart };
        let ckey = updated.id.clone();
        let s = self.summary(&updated);
        self.carts.insert(ckey.as_str(), updated);
        Ok(s)
    }

    /// Remove line `item_id` from the open cart `cart_id`, if it is there.
    pub fn remove_item(&mut self, cart_id: &str, item_id: &str, now_ms: i64) -> (r: Result<CartSummary, String>)
        ensures
            carts_keyed(old(self).carts()) ==> carts_keyed(final(self).carts()),
            items_keyed(old(self).items()) ==> items_keyed(final(self).items()),
            final(self).seq() == old(self).seq(),
            match open_cart(old(self).carts(), cart_id@) {
                None => {
                    &&& r matches Err(m) && m@ == "cart not found"@
                    &&& final(self).carts() == old(self).carts()
                    &&& final(self).items() == old(self).items()
                },
                Some(c) => {
                    &&& final(self).carts() == upsert(old(self).carts(), c.id@, Cart { updated_at: now_ms, ..c })
                    &&& final(self).items() == match lookup(old(self).items(), item_id@) {
                        Some(it) => if it.cart_id@ == cart_id@ {
                            erase(old(self).items(), it.id@)
                        } else {
                            old(self).items()
                        },
                        None => old(self).items(),
                    }
                    &&& r matches Ok(s) && summarizes(s, Cart { updated_at: now_ms, ..c }, final(self).items())
                },
            },
    {
        proof {
            lemma_carts_keyed_upsert_all(old(self).carts());
            lemma_items_keyed_all(old(self).items());
        }
        let cart = match self.carts.get(cart_id) {
            Some(c) => {
                if str_eq(c.status.as_str(), "open") {
                    c.clone()
                } else {
                    return Err(owned("cart not found"));
                }
            },
            None => return Err(owned("cart not found")),
        };
        let found = match self.items.get(item_id) {
            Some(it) => {
                if str_eq(it.cart_id.as_str(), cart_id) {
                    Some(it.id.clone())
                } else {
                    None
                }
            },
            None => None,
        };
        if let Some(key) = found {
            self.items.remove(key.as_str());
        }
        let updated = Cart { updated_at: now_ms, ..cart };
        let ckey = updated.id.clone();
        let s = self.summary(&updated);
        self.carts.insert(ckey.as_str(), updated);
        Ok(s)
    }
}

/// What a key holds after the lines of cart `cart_id` are cleared.
pub open spec fn cleared(items: Seq<(Seq<char>, CartItem)>, cart_id: Seq<char>, k: Seq<char>) -> Option<CartItem> {
    match lookup(items, k) {
        Some(l) => if l.cart_id@ == cart_id {
            None
        } else {
            Some(l)
        },
        None => None,
    }
}

impl Store {
    /// Set the status of cart `cart_id`, stamping the update time.
    pub fn set_status(&mut self, cart_id: &str, status: &str, now_ms: i64) -> (r: Result<(), String>)
        ensures
            carts_keyed(old(self).carts()) ==> carts_keyed(final(self).carts()),
            final(self).items() == old(self).items(),
            final(self).seq() == old(self).seq(),
            match lookup(old(self).carts(), cart_id@) {
                None => {
                    &&& r matches Err(m) && m@ == "cart not found"@
                    &&& final(self).carts() == old(self).carts()
                },
                Some(c) => {
                    &&& r is Ok
                    &&& lookup(final(self).carts(), c.id@) matches Some(c2) && c2 == (Cart {
                        status: c2.status,
                        updated_at: now_ms,
                        ..c
                    }) && c2.status@ == status@ && final(self).carts() == upsert(old(self).carts(), c.id@, c2)
                },
            },
    {
        proof {
            lemma_carts_keyed_upsert_all(old(self).carts());
        }
        let cart = match self.carts.get(cart_id) {
            Some(c) => c.clone(),
            None => return Err(owned("cart not found")),
        };
        let updated = Cart { status: owned(status), updated_at: now_ms, ..cart };
        let ghost c2 = updated;
        let ghost pre = self.carts();
        let key = updated.id.clone();
        self.carts.insert(key.as_str(), updated);
        proof {
            lemma_lookup_upsert(pre, c2.id@, c2, c2.id@);
        }
        Ok(())
    }

    /// Delete every line of cart `cart_id`.
    pub fn clear_items(&mut self, cart_id: &str)
        ensures
            carts_keyed(old(self).carts()) ==> carts_keyed(final(self).carts()),
            items_keyed(old(self).items()) ==> items_keyed(final(self).items()),
            forall|k: Seq<char>| #[trigger] lookup(final(self).items(), k) == cleared(old(self).items(), cart_id@, k),
            final(self).carts() == old(self).carts(),
            final(self).seq() == old(self).seq(),
    {
        proof {
            lemma_carts_keyed_upsert_all(old(self).carts());
        }
        let ghost v = self.items();
        let e = self.items.entries();
        let mut keys: Vec<String> = Vec::new();
        let mut i: usize = 0;
        while i < e.len()
            invariant
                i <= e@.len(),
                entries_view(e@) == v,
                keys_sorted(v),
                forall|j: int| 0 <= j < keys@.len() ==> (lookup(v, #[trigger] keys@[j]@) matches Some(l) && l.cart_id@
                    == cart_id@),
                forall|j: int| 0 <= j < i && v[j].1.cart_id@ == cart_id@ ==> exists|t: int| 0 <= t < keys@.len()
                    && #[trigger] keys@[t]@ == v[j].0,
            decreases e@.len() - i,
        {
            proof {
                crate::table::lemma_lookup_at(v, i as int);
            }
            let ghost old_keys = keys@;
            if str_eq(e[i].1.cart_id.as_str(), cart_id) {
                keys.push(e[i].0.clone());
                assert(keys@[keys@.len() - 1]@ == v[i as int].0);
            }
            assert forall|j: int| 0 <= j < i + 1 && v[j].1.cart_id@ == cart_id@ implies exists|t: int| 0 <= t
                < keys@.len() && #[trigger] keys@[t]@ == v[j].0 by {
                if j < i {
                    let t = choose|t: int| 0 <= t < old_keys.len() && #[trigger] old_keys[t]@ == v[j].0;
                    assert(keys@[t] == old_keys[t]);
                } else {
                    assert(keys@[keys@.len() - 1]@ == v[i as int].0);
                }
            }
            i = i + 1;
        }
        let mut t: usize = 0;
        while t < keys.len()
            invariant
                t <= keys@.len(),
                keys_sorted(v),
                self.carts() == old(self).carts(),
                self.seq() == old(self).seq(),
                keys_sorted(self.items()),
                v == old(self).items(),
                items_keyed(v) ==> items_keyed(self.items()),
                forall|j: int| 0 <= j < keys@.len() ==> (lookup(v, #[trigger] keys@[j]@) matches Some(l) && l.cart_id@
                    == cart_id@),
                forall|k: Seq<char>| #[trigger] lookup(self.items(), k) == if exists|j: int| 0 <= j < t && #[trigger] keys@[j]@ == k {
                    None
                } else {
                    lookup(v, k)
                },
            decreases keys@.len() - t,
        {
            let ghost pre = self.items();
            self.items.remove(keys[t].as_str());
            let _ = self.items.entries();
            proof {
                if items_keyed(pre) {
                    lemma_items_keyed_erase(pre, keys@[t as int]@);
                }
                assert forall|k: Seq<char>| #[trigger] lookup(self.items(), k) == if exists|j: int| 0 <= j < t + 1 && #[trigger] keys@[j]@ == k {
                    None
                } else {
                    lookup(v, k)
                } by {
                    crate::table::lemma_lookup_erase(pre, keys@[t as int]@, k);
                    if k == keys@[t as int]@ {
                        assert(keys@[t as int]@ == k);
                    } else {
                        if exists|j: int| 0 <= j < t + 1 && #[trigger] keys@[j]@ == k {
                            let j = choose|j: int| 0 <= j < t + 1 && #[trigger] keys@[j]@ == k;
                            assert(j < t);
                        }
                    }
                }
            }
            let _ = self.items.entries();
            t = t + 1;
        }
        proof {
            assert forall|k: Seq<char>| #[trigger] lookup(self.items(), k) == cleared(v, cart_id@, k) by {
                if exists|j: int| 0 <= j < keys@.len() && #[trigger] keys@[j]@ == k {
                    let j = choose|j: int| 0 <= j < keys@.len() && #[trigger] keys@[j]@ == k;
                    assert(lookup(v, keys@[j]@) is Some);
                } else {
                    if let Some(l) = lookup(v, k) {
                        if l.cart_id@ == cart_id@ {
                            let i = crate::table::lemma_lookup_some(v, k);
                            assert(v[i].1.cart_id@ == cart_id@);
                        }
                    }
                }
            }
        }
    }

    /// The cart stored under `cart_id` with its lines in order.
    pub fn load_cart(&self, cart_id: &str) -> (r: Option<(Cart, Vec<CartItem>)>)
        ensures
            match lookup(self.carts(), cart_id@) {
                None => r is None,
                Some(c) => r matches Some(p) && p.0 == c && p.1@ == sort_lines(lines_of(self.items(), cart_id@)),
            },
    {
        match self.carts.get(cart_id) {
            Some(c) => Some((c.clone(), self.cart_items(cart_id))),
            None => None,
        }
    }
}

// ---------------------------------------------------------------------------
// Cookie and JSON
// ---------------------------------------------------------------------------

/// The cart id in the `;`-separated pairs of a `Cookie` header: the value of
/// the first pair named `cart_id` that is a valid cart id; a pair without
/// `=` met before it ends the search.
pub open spec fn cart_cookie_in(parts: Seq<Seq<char>>) -> Option<Seq<char>>
    decreases parts.len(),
{
    if parts.len() == 0 {
        None
    } else {
        let p = trim(parts[0]);
        match find(p, '=') {
            None => None,
            Some(k) => if p.subrange(0, k) == "cart_id"@ && valid_cart_id_spec(p.subrange(k + 1, p.len() as int)) {
                Some(p.subrange(k + 1, p.len() as int))
            } else {
                cart_cookie_in(parts.drop_first())
            },
        }
    }
}

/// The cart id carried by a request's `Cookie` header, if any.
pub fn cookie_cart_id(cookie: Option<&str>) -> (r: Option<String>)
    ensures
        opt_chars(r) == match cookie {
            Some(c) => cart_cookie_in(split_on(c@, ';')),
            None => None,
        },
{
    let c = match cookie {
        Some(c) => c,
        None => return None,
    };
    let parts = split_chars(&chars_of(c), ';');
    let ghost ps = split_on(c@, ';');
    let mut i: usize = 0;
    assert(ps.subrange(0, ps.len() as int) =~= ps);
    while i < parts.len()
        invariant
            i <= parts@.len(),
            cookie == Some(c),
            ps == split_on(c@, ';'),
            parts@.len() == ps.len(),
            forall|k: int| 0 <= k < parts@.len() ==> #[trigger] parts@[k]@ == ps[k],
            cart_cookie_in(ps) == cart_cookie_in(ps.subrange(i as int, ps.len() as int)),
        decreases parts@.len() - i,
    {
        let ghost rest = ps.subrange(i as int, ps.len() as int);
        assert(rest[0] == ps[i as int]);
        assert(rest.drop_first() =~= ps.subrange(i + 1, ps.len() as int));
        assert(parts@[i as int]@ == ps[i as int]);
        let t = trim_chars(&parts[i]);
        assert(t@ == trim(rest[0]));
        let n = t.len();
        match find_char(&t, '=') {
            None => {
                assert(cart_cookie_in(rest) is None);
                return None;
            },
            Some(k) => {
                let name = slice_chars(&t, 0, k);
                let value = string_of(&slice_chars(&t, k + 1, n));
                if crate::text::chars_eq_str(&name, "cart_id") && valid_cart_id(value.as_str()) {
                    assert(cart_cookie_in(rest) == Some(value@));
                    return Some(value);
                }
                assert(cart_cookie_in(rest) == cart_cookie_in(rest.drop_first()));
            },
        }
        i = i + 1;
    }
    None
}

/// The `Set-Cookie` value that keeps the cart id for 30 days.
pub open spec fn cart_cookie(cart_id: Seq<char>) -> Seq<char> {
    "cart_id="@ + cart_id + "; Path=/; Max-Age=2592000; SameSite=Lax; HttpOnly"@
}

pub fn cookie_header(cart_id: &str) -> (r: String)
    ensures
        r@ == cart_cookie(cart_id@),
{
    let mut v: Vec<char> = Vec::new();
    append_str(&mut v, "cart_id=");
    append_str(&mut v, cart_id);
    append_str(&mut v, "; Path=/; Max-Age=2592000; SameSite=Lax; HttpOnly");
    string_of(&v)
}

/// A JSON string, or `null` for none.
pub open spec fn opt_json(o: Option<Seq<char>>) -> Seq<char> {
    match o {
        Some(s) => json_string(s),
        None => "null"@,
    }
}

/// The identifying fields of a line's JSON: id, cart, type, reference, name.
pub open spec fn item_json_names(it: CartItem) -> Seq<char> {
    "{\"id\":"@ + json_string(it.id@) + ",\"cartId\":"@ + json_string(it.cart_id@) + ",\"type\":"@ + json_string(
        it.item_type@,
    ) + ",\"refId\":"@ + json_string(it.ref_id@) + ",\"nameSnapshot\":"@ + json_string(it.name_snapshot@)
}

/// The price, quantity, metadata and time fields of a line's JSON.
pub open spec fn item_json_figures(it: CartItem) -> Seq<char> {
    ",\"unitPrice\":"@ + int_str(it.unit_price as int) + ",\"unitPriceLabel\":"@ + json_string(
        isk_label(it.unit_price),
    ) + ",\"quantity\":"@ + int_str(it.quantity as int) + ",\"metadata\":"@ + meta_json(it.metadata) + ",\"createdAt\":"@
        + int_str(it.created_at as int)
}

/// The line-total fields that close a line's JSON.
pub open spec fn item_json_total(it: CartItem) -> Seq<char> {
    ",\"lineTotal\":"@ + int_str(line_total(it) as int) + ",\"lineTotalLabel\":"@ + json_string(
        isk_label(line_total(it)),
    ) + "}"@
}

/// A cart line as the cart API shows it.
pub open spec fn item_json(it: CartItem) -> Seq<char> {
    item_json_names(it) + item_json_figures(it) + item_json_total(it)
}

/// The lines as JSON values joined by commas.
pub open spec fn items_json(items: Seq<CartItem>) -> Seq<char>
    decreases items.len(),
{
    if items.len() == 0 {
        seq![]
    } else if items.len() == 1 {
        item_json(items[0])
    } else {
        items_json(items.drop_last()) + ","@ + item_json(items.last())
    }
}

/// A cart summary as the cart API shows it.
pub open spec fn cart_json(s: CartSummary) -> Seq<char> {
    "{\"id\":"@ + json_string(s.id@) + ",\"userId\":"@ + opt_json(opt_chars(s.user_id)) + ",\"status\":"@
        + json_string(s.status@) + ",\"currency\":"@ + json_string(s.currency@) + ",\"items\":["@ + items_json(
        s.items@,
    ) + "],\"subtotal\":"@ + int_str(s.subtotal as int) + ",\"itemCount\":"@ + int_str(s.item_count as int)
        + "}"@
}

fn push_item_names(v: &mut Vec<char>, it: &CartItem)
    ensures
        final(v)@ == old(v)@ + item_json_names(*it),
{
    let ghost start = v@;
    append_str(v, "{\"id\":");
    push_json_string(v, it.id.as_str());
    append_str(v, ",\"cartId\":");
    push_json_string(v, it.cart_id.as_str());
    append_str(v, ",\"type\":");
    push_json_string(v, it.item_type.as_str());
    append_str(v, ",\"refId\":");
    push_json_string(v, it.ref_id.as_str());
    append_str(v, ",\"nameSnapshot\":");
    push_json_string(v, it.name_snapshot.as_str());
    assert(v@ =~= start + item_json_names(*it));
}

fn push_item_figures(v: &mut Vec<char>, it: &CartItem)
    ensures
        final(v)@ == old(v)@ + item_json_figures(*it),
{
    let ghost start = v@;
    append_str(v, ",\"unitPrice\":");
    append_chars(v, &i64_chars(it.unit_price));
    append_str(v, ",\"unitPriceLabel\":");
    push_json_string(v, format_isk(it.unit_price).as_str());
    append_str(v, ",\"quantity\":");
    append_chars(v, &i64_chars(it.quantity));
    append_str(v, ",\"metadata\":");
    push_meta_json(v, &it.metadata);
    append_str(v, ",\"createdAt\":");
    append_chars(v, &i64_chars(it.created_at));
    assert(v@ =~= start + item_json_figures(*it));
}

fn push_item_total(v: &mut Vec<char>, it: &CartItem)
    ensures
        final(v)@ == old(v)@ + item_json_total(*it),
{
    let ghost start = v@;
    let total = saturating_mul_i64(it.unit_price, it.quantity);
    append_str(v, ",\"lineTotal\":");
    append_chars(v, &i64_chars(total));
    append_str(v, ",\"lineTotalLabel\":");
    push_json_string(v, format_isk(total).as_str());
    append_str(v, "}");
    assert(v@ =~= start + item_json_total(*it));
}

#[verifier::spinoff_prover]
fn push_item_json(v: &mut Vec<char>, it: &CartItem)
    ensures
        final(v)@ == old(v)@ + item_json(*it),
{
    let ghost start = v@;
    push_item_names(v, it);
    let ghost a = v@;
    push_item_figures(v, it);
    let ghost b = v@;
    push_item_total(v, it);
    assert(v@ == start + item_json_names(*it) + item_json_figures(*it) + item_json_total(*it));
    assert(start + item_json_names(*it) + item_json_figures(*it) + item_json_total(*it) =~= start + item_json(*it));
}

proof fn lemma_items_json_push(s: Seq<CartItem>, x: CartItem)
    ensures
        items_json(s.push(x)) == items_json(s) + (if s.len() == 0 {
            Seq::<char>::empty()
        } else {
            ","@
        }) + item_json(x),
{
    let t = s.push(x);
    assert(t.drop_last() =~= s);
    assert(t.last() == x);
    if s.len() == 0 {
        assert(t[0] == x);
        assert(items_json(s) + Seq::<char>::empty() + item_json(x) =~= item_json(x));
    }
}

/// The cart summary as JSON text.
#[verifier::spinoff_prover]
pub fn cart_value(summary: &CartSummary) -> (r: String)
    ensures
        r@ == cart_json(*summary),
{
    let mut v: Vec<char> = Vec::new();
    append_str(&mut v, "{\"id\":");
    push_json_string(&mut v, summary.id.as_str());
    append_str(&mut v, ",\"userId\":");
    match &summary.user_id {
        Some(u) => push_json_string(&mut v, u.as_str()),
        None => append_str(&mut v, "null"),
    }
    append_str(&mut v, ",\"status\":");
    push_json_string(&mut v, summary.status.as_str());
    append_str(&mut v, ",\"currency\":");
    push_json_string(&mut v, summary.currency.as_str());
    append_str(&mut v, ",\"items\":[");
    let ghost head = v@;
    let items = &summary.items;
    let mut i: usize = 0;
    while i < items.len()
        invariant
            i <= items@.len(),
            items@ == summary.items@,
            v@ == head + items_json(items@.subrange(0, i as int)),
        decreases items@.len() - i,
    {
        let ghost pre = items@.subrange(0, i as int);
        proof {
            assert(items@.subrange(0, i + 1) =~= pre.push(items@[i as int]));
            lemma_items_json_push(pre, items@[i as int]);
        }
        let ghost before = v@;
        if i > 0 {
            append_str(&mut v, ",");
        }
        push_item_json(&mut v, &items[i]);
        assert(v@ =~= before + (if pre.len() == 0 {
            Seq::<char>::empty()
        } else {
            ","@
        }) + item_json(items@[i as int]));
        i = i + 1;
    }
    assert(items@.subrange(0, items@.len() as int) =~= items@);
    append_str(&mut v, "],\"subtotal\":");
    append_chars(&mut v, &i64_chars(summary.subtotal));
    append_str(&mut v, ",\"itemCount\":");
    append_chars(&mut v, &i64_chars(summary.item_count));
    append_str(&mut v, "}");
    string_of(&v)
}

} // verus!
