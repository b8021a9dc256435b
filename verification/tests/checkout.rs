use golfsetridak::booking::store::Store as BookingStore;
use golfsetridak::booking::time::parse_date;
use golfsetridak::cart::{ResolvedItem, Store as CartStore};
use golfsetridak::checkout::fulfillment::{fulfill_cart, mark_cart_failed};
use golfsetridak::checkout::landsbankinn::{
    checkout_request_body, classify, mock_session, outcome_path, sidecar_reply, Outcome,
};
use golfsetridak::checkout::{
    bank_transfer_amount, begin_checkout, callback_target, cancel_path, error_presentation,
    finish_card_checkout, gift_card_code, settle_callback, CheckoutStep, GatewayReport, Reply,
    Store,
};
use golfsetridak::meta::{Meta, MetaValue};

fn slot_item(starts_iso: &str, price: i64) -> ResolvedItem {
    ResolvedItem {
        item_type: "slot".into(),
        ref_id: starts_iso.into(),
        name_snapshot: format!("Rástími {starts_iso}"),
        unit_price: price,
        quantity: 1,
        metadata: Meta::from_pairs(vec![("startsAt".into(), MetaValue::Str(starts_iso.into()))]),
    }
}

fn package_item(slot_count: i64) -> ResolvedItem {
    ResolvedItem {
        item_type: "package".into(),
        ref_id: "pkg-catalog-1".into(),
        name_snapshot: "Klippikort 10".into(),
        unit_price: 30000,
        quantity: 1,
        metadata: Meta::from_pairs(vec![("slotCount".into(), MetaValue::Int(slot_count))]),
    }
}

#[test]
fn payment_create_and_state_transitions() {
    let mut store = Store::new();
    let p = store.create_payment("cart-1", "u@x.com", "landsbankinn", "ref-1", "pending", 3500, "ISK", None, 100);
    assert_eq!(p.status, "pending");
    assert_eq!(store.by_cart_and_ref("cart-1", "ref-1").unwrap().id, p.id);
    assert_eq!(store.latest_pending_by_cart("cart-1", "landsbankinn").unwrap().id, p.id);
    store.mark_succeeded(&p.id, 200).unwrap();
    assert_eq!(store.payment_by_id(&p.id).unwrap().status, "succeeded");
    assert!(store.latest_pending_by_cart("cart-1", "landsbankinn").is_none());
}

#[test]
fn mark_failed_records_audit() {
    let mut store = Store::new();
    let p = store.create_payment("cart-2", "u@x.com", "landsbankinn", "ref-2", "pending", 1000, "ISK", None, 100);
    store.mark_failed(&p.id, "payment_failed", 200).unwrap();
    let after = store.payment_by_id(&p.id).unwrap();
    assert_eq!(after.status, "failed");
    let raw = after.raw_payload.unwrap();
    let audit = match raw.get("fulfillment") {
        Some(MetaValue::Obj(m)) => m,
        _ => panic!("no fulfillment audit"),
    };
    match audit.get("errorCode") {
        Some(MetaValue::Str(s)) => assert_eq!(s, "payment_failed"),
        _ => panic!("no errorCode"),
    }
}

#[test]
fn gift_card_issue_round_trip() {
    let mut store = Store::new();
    let card = store.create_gift_card(5000, "ISK", Some("g@x.com"), None, Some("Gjöf"), None, "buyer", "cart-3", 100);
    assert_eq!(card.balance, 5000);
    assert_eq!(store.gift_card(&card.code).unwrap().amount, 5000);
    assert_eq!(store.gift_cards_for_cart("cart-3").len(), 1);
}

#[test]
fn gift_card_codes_have_fixed_shape() {
    assert_eq!(gift_card_code(1_782_000_123_456, 7), "GC-123456-0007");
    assert_eq!(gift_card_code(5, 12345), "GC-000005-2345");
}

struct World {
    payments: Store,
    carts: CartStore,
    bookings: BookingStore,
}

fn world() -> World {
    World { payments: Store::new(), carts: CartStore::new(), bookings: BookingStore::new() }
}

#[test]
fn slot_item_creates_booking_and_marks_cart_paid() {
    let mut w = world();
    let now = parse_date("2026-06-26").unwrap();
    let (cart, _) = w.carts.get_or_create_open(Some("u-golfer"), now);
    w.carts.add_item(&cart.id, slot_item("2026-06-27T10:00:00Z", 3500), now).unwrap();
    w.carts.set_status(&cart.id, "checking_out", now).unwrap();
    let payment = w.payments.create_payment(&cart.id, "golfer@x.com", "landsbankinn", "ref-s", "pending", 3500, "ISK", None, now);
    fulfill_cart(&mut w.payments, &mut w.carts, &mut w.bookings, &cart.id, &payment.provider_ref, now)
        .expect("fulfillment succeeds");
    let booked = w.bookings.bookings_for_user("golfer@x.com");
    assert_eq!(booked.len(), 1, "one booking created");
    assert_eq!(booked[0].status, "confirmed");
    assert_eq!(booked[0].price_paid, Some(3500));
    let (cart_after, _) = w.carts.load_cart(&cart.id).unwrap();
    assert_eq!(cart_after.status, "paid");
    assert_eq!(w.payments.payment_by_id(&payment.id).unwrap().status, "succeeded");
}

#[test]
fn package_item_grants_user_package() {
    let mut w = world();
    let now = parse_date("2026-06-26").unwrap();
    let (cart, _) = w.carts.get_or_create_open(Some("u-buyer"), now);
    w.carts.add_item(&cart.id, package_item(10), now).unwrap();
    w.carts.set_status(&cart.id, "checking_out", now).unwrap();
    let payment = w.payments.create_payment(&cart.id, "buyer@x.com", "landsbankinn", "ref-p", "pending", 30000, "ISK", None, now);
    fulfill_cart(&mut w.payments, &mut w.carts, &mut w.bookings, &cart.id, &payment.provider_ref, now)
        .expect("fulfillment succeeds");
    let grants = w.bookings.user_packages_for_user("buyer@x.com");
    assert_eq!(grants.len(), 1, "one package granted");
    assert_eq!(grants[0].remaining, 10);
    assert_eq!(w.carts.load_cart(&cart.id).unwrap().0.status, "paid");
}

#[test]
fn second_fulfillment_is_idempotent() {
    let mut w = world();
    let now = parse_date("2026-06-26").unwrap();
    let (cart, _) = w.carts.get_or_create_open(Some("u-id"), now);
    w.carts.add_item(&cart.id, slot_item("2026-06-28T09:00:00Z", 3500), now).unwrap();
    w.carts.set_status(&cart.id, "checking_out", now).unwrap();
    let payment = w.payments.create_payment(&cart.id, "id@x.com", "landsbankinn", "ref-i", "pending", 3500, "ISK", None, now);
    fulfill_cart(&mut w.payments, &mut w.carts, &mut w.bookings, &cart.id, &payment.provider_ref, now).unwrap();
    fulfill_cart(&mut w.payments, &mut w.carts, &mut w.bookings, &cart.id, &payment.provider_ref, now).unwrap();
    assert_eq!(w.bookings.bookings_for_user("id@x.com").len(), 1);
}

#[test]
fn gift_card_item_is_issued() {
    let mut w = world();
    let now = parse_date("2026-06-26").unwrap();
    let (cart, _) = w.carts.get_or_create_open(Some("u-gc"), now);
    let gc = ResolvedItem {
        item_type: "gift_card".into(),
        ref_id: "gift-1".into(),
        name_snapshot: "Gjafabréf".into(),
        unit_price: 10000,
        quantity: 1,
        metadata: Meta::from_pairs(vec![("recipientEmail".into(), MetaValue::Str("friend@x.com".into()))]),
    };
    w.carts.add_item(&cart.id, gc, now).unwrap();
    w.carts.set_status(&cart.id, "checking_out", now).unwrap();
    let payment = w.payments.create_payment(&cart.id, "gc@x.com", "landsbankinn", "ref-g", "pending", 10000, "ISK", None, now);
    fulfill_cart(&mut w.payments, &mut w.carts, &mut w.bookings, &cart.id, &payment.provider_ref, now).unwrap();
    let issued = w.payments.gift_cards_for_cart(&cart.id);
    assert_eq!(issued.len(), 1);
    assert_eq!(issued[0].balance, 10000);
    assert_eq!(issued[0].recipient_email.as_deref(), Some("friend@x.com"));
}

#[test]
fn taken_slot_fails_fulfillment_with_its_code() {
    let mut w = world();
    let now = parse_date("2026-06-26").unwrap();
    let (cart, _) = w.carts.get_or_create_open(None, now);
    w.carts.add_item(&cart.id, slot_item("2026-06-27T10:00:00Z", 3500), now).unwrap();
    w.bookings.create_booking("someone", 1782554400000, "single", None, None, now).unwrap();
    let payment = w.payments.create_payment(&cart.id, "late@x.com", "landsbankinn", "ref-t", "pending", 3500, "ISK", None, now);
    let err = fulfill_cart(&mut w.payments, &mut w.carts, &mut w.bookings, &cart.id, &payment.provider_ref, now).unwrap_err();
    assert_eq!(err.code, "slot_taken_after_payment");
    mark_cart_failed(&mut w.payments, &mut w.carts, &cart.id, &payment.provider_ref, &err.code, now);
    assert_eq!(w.payments.payment_by_id(&payment.id).unwrap().status, "failed");
    assert_eq!(w.carts.load_cart(&cart.id).unwrap().0.status, "failed");
}

#[test]
fn checkout_refuses_get_guests_and_empty_carts() {
    let mut w = world();
    match begin_checkout(&mut w.carts, &mut w.payments, false, Some("u@x.com"), "c", false, 1) {
        CheckoutStep::Answer(Reply::Json { status, .. }) => assert_eq!(status, 405),
        _ => panic!("expected 405"),
    }
    match begin_checkout(&mut w.carts, &mut w.payments, true, None, "c", false, 1) {
        CheckoutStep::Answer(Reply::Json { status, body }) => {
            assert_eq!(status, 401);
            assert!(body.contains("\"loginRequired\":true"));
        }
        _ => panic!("expected 401"),
    }
    match begin_checkout(&mut w.carts, &mut w.payments, true, Some("u@x.com"), "c", false, 1) {
        CheckoutStep::Answer(Reply::Json { status, body }) => {
            assert_eq!(status, 400);
            assert_eq!(body, r#"{"error":"Cart is empty"}"#);
        }
        _ => panic!("expected 400"),
    }
}

#[test]
fn bank_transfer_checkout_records_pending_payment() {
    let mut w = world();
    let now = parse_date("2026-06-26").unwrap();
    let (cart, _) = w.carts.get_or_create_open(None, now);
    w.carts.add_item(&cart.id, package_item(10), now).unwrap();
    match begin_checkout(&mut w.carts, &mut w.payments, true, Some("b@x.com"), &cart.id, true, now) {
        CheckoutStep::Answer(Reply::Json { status, body }) => {
            assert_eq!(status, 200);
            assert!(body.contains("\"method\":\"bank_transfer\""));
            assert!(body.contains(&format!("/checkout/bank-transfer?cart={}", cart.id)));
        }
        _ => panic!("expected a bank transfer answer"),
    }
    assert_eq!(w.carts.load_cart(&cart.id).unwrap().0.status, "checking_out");
    let all = w.payments.all_payments();
    assert_eq!(all.len(), 1);
    assert_eq!(all[0].provider, "bank_transfer");
    assert_eq!(bank_transfer_amount(&w.payments, &cart.id, &all[0].provider_ref), 30000);
    assert_eq!(bank_transfer_amount(&w.payments, &cart.id, "nope"), 0);
}

#[test]
fn card_checkout_opens_session_then_settles() {
    let mut w = world();
    let now = parse_date("2026-06-26").unwrap();
    let (cart, _) = w.carts.get_or_create_open(None, now);
    w.carts.add_item(&cart.id, slot_item("2026-06-27T10:00:00Z", 3500), now).unwrap();
    let (amount, currency, cid, ret) = match begin_checkout(&mut w.carts, &mut w.payments, true, Some("c@x.com"), &cart.id, false, now) {
        CheckoutStep::OpenSession { amount, currency, cart_id, return_url, cancel_url } => {
            assert_eq!(cancel_url, format!("{return_url}&cancel=1"));
            (amount, currency, cart_id, return_url)
        }
        _ => panic!("expected a session request"),
    };
    assert_eq!(amount, 3500);
    assert_eq!(ret, format!("/api/payments/landsbankinn/callback?cart={cid}"));
    let session = mock_session(&cid, &ret);
    match finish_card_checkout(&mut w.carts, &mut w.payments, "c@x.com", &cid, amount, &currency, Ok(session), now) {
        Reply::Json { status, body } => {
            assert_eq!(status, 200);
            assert!(body.contains("\"mock\":true"));
        }
        _ => panic!("expected json"),
    }
    let (r, c) = callback_target(&w.payments, Some(&cid), None).unwrap();
    assert_eq!(r, format!("mock-{cid}"));
    assert_eq!(c, cid);
    let loc = settle_callback(&mut w.payments, &mut w.carts, &mut w.bookings, &c, &r, GatewayReport::Outcome(Outcome::Succeeded), now);
    assert_eq!(loc, format!("/checkout/success?cart={cid}"));
    assert_eq!(w.bookings.bookings_for_user("c@x.com").len(), 1);
}

#[test]
fn gateway_failure_and_cancellation() {
    let mut w = world();
    let now = parse_date("2026-06-26").unwrap();
    match finish_card_checkout(&mut w.carts, &mut w.payments, "u", "c", 1, "ISK", Err("down".into()), now) {
        Reply::Json { status, body } => {
            assert_eq!(status, 502);
            assert_eq!(body, r#"{"error":"Greiðsla mistókst: down"}"#);
        }
        _ => panic!("expected json"),
    }
    let (cart, _) = w.carts.get_or_create_open(None, now);
    let p = w.payments.create_payment(&cart.id, "u", "landsbankinn", "ref-c", "pending", 1, "ISK", None, now);
    let loc = settle_callback(&mut w.payments, &mut w.carts, &mut w.bookings, &cart.id, "ref-c", GatewayReport::Cancelled, now);
    assert_eq!(loc, format!("/checkout/cancel?cart={}&error=payment_cancelled", cart.id));
    assert_eq!(w.payments.payment_by_id(&p.id).unwrap().status, "failed");
    let loc = settle_callback(&mut w.payments, &mut w.carts, &mut w.bookings, &cart.id, "ref-c", GatewayReport::Outcome(Outcome::Pending), now);
    assert_eq!(loc, cancel_path(&cart.id, "payment_cancelled"));
    let loc = settle_callback(&mut w.payments, &mut w.carts, &mut w.bookings, &cart.id, "ref-c", GatewayReport::Unreachable, now);
    assert_eq!(loc, cancel_path(&cart.id, "payment_failed"));
    assert!(callback_target(&w.payments, None, None).is_none());
}

#[test]
fn gateway_words_classify() {
    assert_eq!(classify(" succeeded "), Outcome::Succeeded);
    assert_eq!(classify("AUTHORISED"), Outcome::Succeeded);
    assert_eq!(classify("declined"), Outcome::Failed);
    assert_eq!(classify("whatever"), Outcome::Pending);
}

#[test]
fn gateway_request_texts() {
    assert_eq!(
        checkout_request_body(3500, "ISK", "cart-1", "/r", "/c"),
        r#"{"amount":3500,"currency":"ISK","orderRef":"cart-1","returnUrl":"/r","cancelUrl":"/c"}"#
    );
    assert_eq!(outcome_path("abc"), "/payment/landsbankinn/checkout/abc");
    assert_eq!(sidecar_reply(b"HTTP/1.1 200 OK\r\n\r\n{}"), Ok("{}".to_string()));
    assert_eq!(
        sidecar_reply(b"HTTP/1.1 502 Bad\r\n\r\n"),
        Err("sidecar returned non-2xx: HTTP/1.1 502 Bad".to_string())
    );
}

#[test]
fn error_pages_by_code() {
    assert_eq!(error_presentation("payment_failed").0, "Greiðsla mistókst");
    assert_eq!(error_presentation("other").0, "Greiðsla hætt");
}
