use golfsetridak::cart::{
    cart_value, cookie_cart_id, cookie_header, record_id_of, saturating_mul_i64, valid_cart_id,
    validate_item_type, ResolvedItem, Store,
};
use golfsetridak::meta::{Meta, MetaValue};

fn product(ref_id: &str, price: i64, qty: i64) -> ResolvedItem {
    ResolvedItem {
        item_type: "product".into(),
        ref_id: ref_id.into(),
        name_snapshot: "Golfboltar".into(),
        unit_price: price,
        quantity: qty,
        metadata: Meta::End,
    }
}

#[test]
fn add_merges_products_and_totals() {
    let mut store = Store::new();
    let (cart, created) = store.get_or_create_open(None, 100);
    assert!(created);
    let cart = store.add_item(&cart.id, product("p1", 1200, 1), 101).unwrap();
    assert_eq!(cart.subtotal, 1200);
    assert_eq!(cart.item_count, 1);
    let cart = store.add_item(&cart.id, product("p1", 1200, 2), 102).unwrap();
    assert_eq!(cart.items.len(), 1);
    assert_eq!(cart.items[0].quantity, 3);
    assert_eq!(cart.subtotal, 3600);
    assert_eq!(cart.item_count, 3);
}

#[test]
fn update_and_remove_item() {
    let mut store = Store::new();
    let (cart, _) = store.get_or_create_open(None, 100);
    let cart = store.add_item(&cart.id, product("p1", 500, 2), 101).unwrap();
    let item_id = cart.items[0].id.clone();
    let cart = store.update_quantity(&cart.id, &item_id, 5, 102).unwrap();
    assert_eq!(cart.subtotal, 2500);
    assert_eq!(cart.item_count, 5);
    let cart = store.remove_item(&cart.id, &item_id, 103).unwrap();
    assert_eq!(cart.items.len(), 0);
    assert_eq!(cart.subtotal, 0);
}

#[test]
fn open_guest_cart_is_reused_from_cookie() {
    let mut store = Store::new();
    let (cart, _) = store.get_or_create_open(None, 100);
    let (again, created) = store.get_or_create_open(Some(&cart.id), 200);
    assert!(!created);
    assert_eq!(again.id, cart.id);
    let (other, created) = store.get_or_create_open(Some("no-such-cart"), 300);
    assert!(created);
    assert_ne!(other.id, cart.id);
}

#[test]
fn slot_is_not_added_twice() {
    let mut store = Store::new();
    let (cart, _) = store.get_or_create_open(None, 100);
    let slot = ResolvedItem {
        item_type: "slot".into(),
        ref_id: "2026-06-27T10:00:00.000Z".into(),
        name_snapshot: "Tími".into(),
        unit_price: 3500,
        quantity: 1,
        metadata: Meta::from_pairs(vec![("startsAt".into(), MetaValue::Str("x".into()))]),
    };
    let s = store.add_item(&cart.id, slot, 101).unwrap();
    assert_eq!(s.items.len(), 1);
    let slot2 = ResolvedItem {
        item_type: "slot".into(),
        ref_id: "2026-06-27T10:00:00.000Z".into(),
        name_snapshot: "Tími".into(),
        unit_price: 3500,
        quantity: 1,
        metadata: Meta::End,
    };
    let s = store.add_item(&cart.id, slot2, 102).unwrap();
    assert_eq!(s.items.len(), 1);
    assert_eq!(s.subtotal, 3500);
}

#[test]
fn add_refuses_bad_items_and_unknown_carts() {
    let mut store = Store::new();
    let (cart, _) = store.get_or_create_open(None, 100);
    let mut bad = product("p1", 100, 1);
    bad.item_type = "car".into();
    assert!(store.add_item(&cart.id, bad, 101).is_err());
    assert_eq!(
        store.add_item("ghost", product("p1", 100, 1), 101).unwrap_err(),
        "cart not found"
    );
    assert!(store.update_quantity(&cart.id, "x", -1, 102).is_err());
}

#[test]
fn item_types_and_ids() {
    assert!(validate_item_type("gift_card").is_ok());
    assert!(validate_item_type("car").is_err());
    assert!(valid_cart_id("cart-1_A"));
    assert!(!valid_cart_id(""));
    assert!(!valid_cart_id("a b"));
    assert_eq!(record_id_of("cart", 100, 7), "cart-100-7");
}

#[test]
fn saturating_multiplication() {
    assert_eq!(saturating_mul_i64(3, 4), 12);
    assert_eq!(saturating_mul_i64(i64::MAX, 2), i64::MAX);
    assert_eq!(saturating_mul_i64(i64::MIN, 2), i64::MIN);
}

#[test]
fn cart_cookie_round_trip() {
    assert_eq!(cookie_cart_id(Some("a=b; cart_id=cart-1")), Some("cart-1".to_string()));
    assert_eq!(cookie_cart_id(Some("cart_id=bad id")), None);
    assert_eq!(cookie_cart_id(None), None);
    assert_eq!(
        cookie_header("cart-1"),
        "cart_id=cart-1; Path=/; Max-Age=2592000; SameSite=Lax; HttpOnly"
    );
}

#[test]
fn cart_json_lists_items_and_totals() {
    let mut store = Store::new();
    let (cart, _) = store.get_or_create_open(None, 100);
    let s = store.add_item(&cart.id, product("p1", 500, 2), 101).unwrap();
    let j = cart_value(&s);
    assert!(j.starts_with(&format!("{{\"id\":\"{}\",\"userId\":null,\"status\":\"open\",\"currency\":\"ISK\",\"items\":[", cart.id)));
    assert!(j.ends_with("],\"subtotal\":1000,\"itemCount\":2}"));
}

#[test]
fn status_and_clearing() {
    let mut store = Store::new();
    let (cart, _) = store.get_or_create_open(None, 100);
    store.add_item(&cart.id, product("p1", 500, 2), 101).unwrap();
    store.set_status(&cart.id, "checking_out", 102).unwrap();
    let (c, items) = store.load_cart(&cart.id).unwrap();
    assert_eq!(c.status, "checking_out");
    assert_eq!(items.len(), 1);
    store.clear_items(&cart.id);
    assert_eq!(store.cart_items(&cart.id).len(), 0);
    assert!(store.set_status("ghost", "paid", 103).is_err());
}
