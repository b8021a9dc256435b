use golfsetridak::giftcards::{delivery_plan, generate_code, Delivery, LookupError, Store, ALPHABET};

fn entropy(seed: u8) -> Vec<Vec<u8>> {
    (0..5u8)
        .map(|k| (0..12u8).map(|i| seed.wrapping_mul(31).wrapping_add(k * 12 + i)).collect())
        .collect()
}

fn issue(store: &mut Store, amount: i64, now: i64) -> (String, String) {
    store
        .issue(&entropy(1), amount, None, None, None, None, None, None, None, None, None, now)
        .unwrap()
}

#[test]
fn generate_code_format() {
    for seed in 0..=255u8 {
        let bytes: Vec<u8> = (0..12u8).map(|i| seed.wrapping_mul(7).wrapping_add(i.wrapping_mul(29))).collect();
        let code = generate_code(&bytes);
        assert!(code.starts_with("GOLF-"));
        assert_eq!(code.matches('-').count(), 3);
        assert!(code.chars().all(|c| c.is_ascii_uppercase() || c == '-'));
    }
}

#[test]
fn generated_codes_use_the_alphabet() {
    let bytes: Vec<u8> = (0..12u8).map(|i| i * 23 + 5).collect();
    let code = generate_code(&bytes);
    assert_eq!(code.len(), 19);
    for (i, c) in code.chars().enumerate() {
        if i == 4 || i == 9 || i == 14 {
            assert_eq!(c, '-');
        } else if i > 4 {
            assert!(ALPHABET.contains(c));
        }
    }
    // byte 5 picks `F`, 37 picks index 13 (`P`), 0 picks `A`, 31 picks index 7 (`H`)
    assert_eq!(&generate_code(&[5, 37, 0, 31, 0, 0, 0, 0, 0, 0, 0, 0])[5..9], "FPAH");
    // every byte value lands on a letter
    let all: Vec<u8> = (0..=255u8).collect();
    for chunk in all.chunks(12).filter(|c| c.len() == 12) {
        assert!(generate_code(chunk)[5..].chars().all(|c| c == '-' || ('A'..='Z').contains(&c)));
    }
}

#[test]
fn normalize_code() {
    assert_eq!(
        golfsetridak::giftcards::normalize_code("golf-abcd-efgh-jklm"),
        "GOLF-ABCD-EFGH-JKLM"
    );
    assert_eq!(golfsetridak::giftcards::normalize_code("  GOLF ABCD  "), "GOLFABCD");
}

#[test]
fn issue_lookup() {
    let mut store = Store::new();
    let now = 1000;
    let (id, code) = issue(&mut store, 5000, now);
    assert!(!id.is_empty());
    assert!(code.starts_with("GOLF-"));
    let card = store.lookup(&code, now).unwrap();
    assert_eq!(card.balance, 5000);
    assert_eq!(card.status, "active");
    // lookups ignore case and blanks
    let loose = code.to_lowercase().replace('-', " - ");
    assert_eq!(store.lookup(&loose, now).unwrap().id, id);
}

#[test]
fn redeem() {
    let mut store = Store::new();
    let now = 1000;
    let (_, code) = issue(&mut store, 5000, now);
    let result = store.redeem(&code, 2000, None, None, now).unwrap();
    assert_eq!(result.applied, 2000);
    assert_eq!(result.remaining_balance, 3000);
    assert_eq!(result.remaining_cart_total, 0);
    let card = store.lookup(&code, now).unwrap();
    assert_eq!(card.balance, 3000);
    assert_eq!(card.status, "active");
}

#[test]
fn redeem_caps_at_balance_and_records_use() {
    let mut store = Store::new();
    let now = 1000;
    let (id, code) = issue(&mut store, 5000, now);
    let result = store.redeem(&code, 8000, Some("cart-1"), None, now).unwrap();
    assert_eq!(result.applied, 5000);
    assert_eq!(result.remaining_balance, 0);
    assert_eq!(result.remaining_cart_total, 3000);
    let uses = store.redemptions_for_card(&id);
    assert_eq!(uses.len(), 1);
    assert_eq!(uses[0].amount, 5000);
    assert_eq!(uses[0].cart_id.as_deref(), Some("cart-1"));
}

#[test]
fn errors() {
    let mut store = Store::new();
    let now = 1000;
    assert!(matches!(store.lookup("GOLF-XXXX-XXXX-XXXX", now), Err(LookupError::NotFound)));
    let (_, code) = issue(&mut store, 5000, now);
    store.redeem(&code, 5000, None, None, now).unwrap();
    assert!(matches!(store.lookup(&code, now), Err(LookupError::Depleted)));
}

#[test]
fn expired_cards_are_refused() {
    let mut store = Store::new();
    let (_, code) = store
        .issue(&entropy(2), 1000, None, None, None, None, None, None, None, Some(500), None, 100)
        .unwrap();
    assert!(store.lookup(&code, 400).is_ok());
    assert!(matches!(store.lookup(&code, 600), Err(LookupError::Expired)));
    assert_eq!(LookupError::Expired.as_str(), "expired");
}

#[test]
fn colliding_entropy_gives_up_after_five_tries() {
    let mut store = Store::new();
    let same: Vec<Vec<u8>> = vec![vec![0u8; 12]; 5];
    store
        .issue(&same, 1000, None, None, None, None, None, None, None, None, None, 1)
        .unwrap();
    let err = store
        .issue(&same, 1000, None, None, None, None, None, None, None, None, None, 2)
        .unwrap_err();
    assert_eq!(err, "Failed to issue gift card after retries (too many collisions)");
}

#[test]
fn deliveries_are_due_once() {
    let mut store = Store::new();
    let (id, _) = store
        .issue(&entropy(3), 1000, None, None, None, Some("a@b.is"), None, Some("Anna"), None, None, Some(50), 10)
        .unwrap();
    assert_eq!(store.pending_deliveries(40).len(), 0);
    let due = store.pending_deliveries(60);
    assert_eq!(due.len(), 1);
    match delivery_plan(&due[0], true) {
        Delivery::Email { body } => {
            assert!(body.starts_with("{\"to\":\"a@b.is\""));
            assert!(body.contains("Hæ Anna!"));
        }
        _ => panic!("expected an email"),
    }
    match delivery_plan(&due[0], false) {
        Delivery::Log { text } => assert!(text.contains("Upphæð: 1000 ISK")),
        _ => panic!("expected a log line"),
    }
    store.mark_delivered(&id, 70).unwrap();
    assert_eq!(store.pending_deliveries(80).len(), 0);
}

#[test]
fn list_all_returns_every_card() {
    let mut store = Store::new();
    issue(&mut store, 1000, 1);
    store
        .issue(&entropy(9), 2000, None, None, None, None, None, None, None, None, None, 2)
        .unwrap();
    let all = store.list_all();
    assert_eq!(all.len(), 2);
    let mut amounts: Vec<i64> = all.iter().map(|c| c.amount).collect();
    amounts.sort();
    assert_eq!(amounts, vec![1000, 2000]);
    assert!(store.get_by_id(&all[0].id).is_some());
}

#[test]
fn redeem_refusals() {
    let mut store = Store::new();
    let (_, code) = issue(&mut store, 1000, 1);
    assert_eq!(store.redeem(&code, 0, None, None, 1).unwrap_err(), LookupError::Depleted);
    assert_eq!(store.redeem("GOLF-NONE-NONE-NONE", 10, None, None, 1).unwrap_err(), LookupError::NotFound);
    store.redeem(&code, 1000, None, None, 1).unwrap();
    assert_eq!(store.redeem(&code, 10, None, None, 1).unwrap_err(), LookupError::Inactive);
    assert_eq!(LookupError::Inactive.as_str(), "inactive");
    assert_eq!(LookupError::NotFound.as_str(), "not_found");
    assert_eq!(LookupError::Depleted.as_str(), "depleted");
}

#[test]
fn issued_codes_are_their_own_normal_form() {
    let mut store = Store::new();
    for seed in 0..20u8 {
        let (id, code) = store
            .issue(&entropy(seed), 1000, None, None, None, None, None, None, None, None, None, 5)
            .unwrap();
        assert_eq!(golfsetridak::giftcards::normalize_code(&code), code);
        assert_eq!(store.lookup(&code, 5).unwrap().id, id);
    }
}
