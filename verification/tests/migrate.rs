use golfsetridak::migrate::{
    auth_users_of, migration_writes, package_row, parse_date_ms, session_row, AllData, AuRow, BkRow, BtRow, CatRow, CiRow, GcRow, ProdRow, SmsRow, Target,
    UsRow, UsrRow, Write,
};

fn empty() -> AllData {
    AllData {
        product_categories: vec![],
        products: vec![],
        packages: vec![],
        subscriptions: vec![],
        pricing_rules: vec![],
        gift_cards: vec![],
        sms_templates: vec![],
        email_templates: vec![],
        bank_transfer: None,
        notifications: None,
        landsbankinn: None,
        payday: None,
        users: vec![],
        auth_users: vec![],
        auth_sessions: vec![],
        bookings: vec![],
        booking_users: vec![],
        user_packages: vec![],
        user_subs: vec![],
        sub_members: vec![],
        carts: vec![],
        cart_items: vec![],
        gc_redemptions: vec![],
        payments: vec![],
        sub_info: vec![],
    }
}

fn text(w: &Write) -> String {
    String::from_utf8(w.value.clone()).unwrap()
}

fn coll_key(name: &str, id: u64) -> Vec<u8> {
    let mut k = format!("coll:{name}:").into_bytes();
    k.extend_from_slice(&id.to_be_bytes());
    k
}

fn user(email: Option<&str>, role: &str) -> UsrRow {
    UsrRow {
        id: "u1".into(),
        name: "Jón".into(),
        email: email.map(|e| e.into()),
        phone: None,
        role: role.into(),
        fixed_price: Some(5000),
        kennitala: None,
        payday_customer_id: None,
        created_at: 3,
        updated_at: 4,
    }
}

#[test]
fn nothing_to_migrate() {
    assert!(migration_writes(&empty(), 100).is_empty());
}

#[test]
fn categories_then_products_renumbered() {
    let mut d = empty();
    d.product_categories.push(CatRow {
        id: "cat-a".into(),
        name: "Kylfur".into(),
        slug: "kylfur".into(),
        description: None,
        position: 1,
        active: true,
        created_at: 5,
        updated_at: 6,
    });
    d.products.push(ProdRow {
        name: "Pútter \"X\"".into(),
        description: Some("d".into()),
        price: 1000,
        image_url: None,
        category_id: Some("cat-a".into()),
        active: true,
        position: 2,
        created_at: 7,
        updated_at: 8,
    });
    d.products.push(ProdRow {
        name: "Bolti".into(),
        description: None,
        price: -1,
        image_url: Some("/b.png".into()),
        category_id: Some("unknown".into()),
        active: false,
        position: 3,
        created_at: 9,
        updated_at: 10,
    });
    let w = migration_writes(&d, 100);
    assert_eq!(w.len(), 6);
    assert_eq!(w[0].target, Target::Collections);
    assert_eq!(w[0].key, b"coll:product_categories:_seq".to_vec());
    assert_eq!(w[0].value, 1u64.to_be_bytes().to_vec());
    assert_eq!(w[1].key, coll_key("product_categories", 1));
    assert_eq!(
        text(&w[1]),
        r#"{"id":1,"created":100,"name":"Kylfur","slug":"kylfur","position":1,"active":true,"created_at":5,"updated_at":6}"#
    );
    assert_eq!(w[2].key, b"coll:products:_seq".to_vec());
    assert_eq!(w[2].value, 2u64.to_be_bytes().to_vec());
    assert_eq!(w[3].key, coll_key("products", 2));
    assert_eq!(
        text(&w[3]),
        r#"{"id":2,"created":100,"name":"Pútter \"X\"","price":1000,"active":true,"position":2,"created_at":7,"updated_at":8,"description":"d","category":1}"#
    );
    assert_eq!(w[5].key, coll_key("products", 3));
    assert_eq!(
        text(&w[5]),
        r#"{"id":3,"created":100,"name":"Bolti","price":-1,"active":false,"position":3,"created_at":9,"updated_at":10,"image_url":"/b.png"}"#
    );
}

#[test]
fn accounts_take_the_role_of_their_user() {
    let mut d = empty();
    d.users.push(user(Some("Jon@Example.is"), "admin"));
    d.auth_users.push(AuRow { email: "  JON@example.IS ".into() });
    d.auth_users.push(AuRow { email: "other@example.is".into() });
    let w = migration_writes(&d, 1);
    let accounts: Vec<&Write> = w.iter().filter(|x| x.target == Target::AuthUsers).collect();
    assert_eq!(accounts.len(), 2);
    assert_eq!(accounts[0].key, b"jon@example.is".to_vec());
    assert_eq!(text(accounts[0]), r#"{"email":"jon@example.is","role":"admin"}"#);
    assert_eq!(text(accounts[1]), r#"{"email":"other@example.is","role":"user"}"#);
    let users: Vec<&Write> = w.iter().filter(|x| x.target == Target::Collections).collect();
    assert_eq!(
        text(users[1]),
        r#"{"id":1,"created":1,"name":"Jón","role":"admin","created_at":3,"updated_at":4,"email":"Jon@Example.is","fixed_price":5000}"#
    );
}

#[test]
fn subscription_dates_and_limits() {
    let mut d = empty();
    d.sub_info.push(("plan".into(), 4));
    d.user_subs.push(UsRow {
        id: "us1".into(),
        user_id: "u1".into(),
        sub_id: "plan".into(),
        valid_from: "2025-01-01".into(),
        valid_until: "not a date".into(),
    });
    d.user_subs.push(UsRow {
        id: "us2".into(),
        user_id: "u2".into(),
        sub_id: "gone".into(),
        valid_from: "1970-01-01".into(),
        valid_until: "2025-12-31".into(),
    });
    let w = migration_writes(&d, 1);
    assert_eq!(w.len(), 2);
    assert_eq!(w[0].target, Target::UserSubscriptions);
    assert_eq!(w[0].key, b"us1".to_vec());
    assert_eq!(
        text(&w[0]),
        r#"{"id":"us1","user_id":"u1","valid_from":1735689600000,"valid_until":0,"daily_limit":4}"#
    );
    assert_eq!(
        text(&w[1]),
        r#"{"id":"us2","user_id":"u2","valid_from":0,"valid_until":1767139200000,"daily_limit":2}"#
    );
}

#[test]
fn stored_dates() {
    assert_eq!(parse_date_ms("2025-01-01"), Some(1_735_689_600_000));
    assert_eq!(parse_date_ms("2024-02-29"), Some(1_709_164_800_000));
    assert_eq!(parse_date_ms("1970-01-01"), Some(0));
    assert_eq!(parse_date_ms("2025-13-01"), Some(0));
    assert_eq!(parse_date_ms("2025-1-01"), Some(0));
    assert_eq!(parse_date_ms(" 2025-01-01"), Some(0));
    assert_eq!(parse_date_ms("nonsense"), Some(0));
    assert_eq!(parse_date_ms("1969-12-31"), None);
    assert_eq!(parse_date_ms("0000-01-01"), None);
}

#[test]
fn keyed_stores_and_admin_settings() {
    let mut d = empty();
    d.bookings.push(BkRow {
        id: "b1".into(),
        user_id: "u1".into(),
        starts_at: 1_750_000_000_000,
        status: "confirmed".into(),
        payment_type: "package".into(),
        price_paid: None,
        user_package_id: Some("up1".into()),
        user_subscription_id: None,
        notes: None,
        created_at: 2,
        cancelled_at: None,
    });
    d.cart_items.push(CiRow {
        id: "ci1".into(),
        cart_id: "c1".into(),
        itype: "product".into(),
        ref_id: "p1".into(),
        name_snapshot: "Bolti".into(),
        unit_price: 500,
        quantity: 2,
        metadata: Some(r#"{"size":"L"}"#.into()),
        created_at: 3,
    });
    d.gift_cards.push(GcRow {
        id: "gc1".into(),
        code: "GOLF-AAAA-BBBB-CCCC".into(),
        amount: 5000,
        balance: 4000,
        currency: "ISK".into(),
        status: "active".into(),
        expires_at: None,
        delivery_at: Some(9),
        delivered_at: None,
        purchased_by_user_id: None,
        cart_id: None,
        recipient_email: Some("a@b.is".into()),
        recipient_phone: None,
        recipient_name: None,
        message: None,
        created_at: 1,
        updated_at: 2,
    });
    d.bank_transfer = Some(BtRow {
        bank_name: "Landsbankinn".into(),
        account_holder: "Golfsetrið".into(),
        kennitala: "123".into(),
        account_number: "0101".into(),
        updated_at: 5,
    });
    d.sms_templates.push(SmsRow { key: "reminder".into(), body: "Hæ".into(), updated_at: 1 });
    let w = migration_writes(&d, 7);
    let booking = w.iter().find(|x| x.target == Target::Bookings).unwrap();
    assert_eq!(booking.key, 1_750_000_000_000i64.to_be_bytes().to_vec());
    assert_eq!(
        text(booking),
        r#"{"id":"b1","user_id":"u1","starts_at":1750000000000,"status":"confirmed","payment_type":"package","price_paid":null,"user_package_id":"up1","user_subscription_id":null,"notes":null,"created_at":2,"cancelled_at":null}"#
    );
    let item = w.iter().find(|x| x.target == Target::CartItems).unwrap();
    assert!(text(item).contains(r#""metadata":{"size":"L"},"#));
    let coll_card = w.iter().find(|x| x.key == coll_key("gift_cards", 1)).unwrap();
    assert_eq!(
        text(coll_card),
        r#"{"id":1,"created":7,"code":"GOLF-AAAA-BBBB-CCCC","amount":5000,"balance":4000,"currency":"ISK","status":"active","created_at":1,"updated_at":2,"delivery_at":9,"recipient_email":"a@b.is"}"#
    );
    let card = w.iter().find(|x| x.target == Target::GiftCards).unwrap();
    assert_eq!(card.key, b"gc1".to_vec());
    assert!(text(card).contains(r#""expires_at":null,"delivery_at":9,"#));
    let checkout = w.iter().find(|x| x.target == Target::CheckoutGiftCards).unwrap();
    assert_eq!(checkout.key, b"GOLF-AAAA-BBBB-CCCC".to_vec());
    assert_eq!(
        text(checkout),
        r#"{"code":"GOLF-AAAA-BBBB-CCCC","amount":5000,"balance":4000,"currency":"ISK","status":"active","recipient_email":"a@b.is","recipient_phone":null,"recipient_name":null,"message":null,"purchased_by_user_id":null,"cart_id":null,"created_at":1}"#
    );
    let admin: Vec<&Write> = w.iter().filter(|x| x.target == Target::AdminSettings).collect();
    assert_eq!(admin.len(), 2);
    assert_eq!(admin[0].key, b"bank_transfer".to_vec());
    assert_eq!(
        text(admin[0]),
        r#"{"bankName":"Landsbankinn","accountHolder":"Golfsetrið","kennitala":"123","accountNumber":"0101"}"#
    );
    assert_eq!(admin[1].key, "sms:reminder".as_bytes().to_vec());
    assert_eq!(text(admin[1]), r#"{"key":"reminder","body":"Hæ"}"#);
    let settings = w.iter().find(|x| x.key == coll_key("bank_transfer_settings", 1)).unwrap();
    assert!(text(settings).starts_with(r#"{"id":1,"created":7,"bank_name":"Landsbankinn""#));
}

#[test]
fn accounts_from_sign_ins_then_new_user_emails() {
    let ids = vec![("1".to_string(), "A@x.is".to_string())];
    let users = vec![
        user(Some("a@X.IS"), "user"),
        user(Some("b@x.is"), "user"),
        user(None, "user"),
        user(Some("B@X.is"), "admin"),
        user(Some("Þór@x.is"), "user"),
        user(Some("þÓR@X.IS"), "user"),
    ];
    let emails: Vec<String> = auth_users_of(&ids, &users).into_iter().map(|a| a.email).collect();
    assert_eq!(emails, vec!["A@x.is", "b@x.is", "Þór@x.is"]);
    assert!(auth_users_of(&vec![], &vec![]).is_empty());
}

#[test]
fn sessions_take_their_users_email_and_seconds() {
    let by_id = vec![("u1".to_string(), "a@x.is".to_string())];
    let user_email = vec![
        ("u2".to_string(), "b@x.is".to_string()),
        ("u2".to_string(), "c@x.is".to_string()),
        ("u1".to_string(), "site@x.is".to_string()),
    ];
    let s = session_row("t1".into(), "u1".into(), 2_500, -1_500, &by_id, &user_email);
    assert_eq!((s.token.as_str(), s.email.as_str(), s.created_sec, s.expires_sec), ("t1", "a@x.is", -1, 2));
    assert_eq!(session_row("t".into(), "u2".into(), 0, 999, &by_id, &user_email).email, "c@x.is");
    assert_eq!(session_row("t".into(), "u3".into(), 0, 0, &by_id, &user_email).email, "u3");
}

#[test]
fn held_packages_get_their_name_and_slots() {
    let pkgs = vec![
        ("p1".to_string(), "Klippikort".to_string(), 10),
        ("p1".to_string(), "Klippikort 12".to_string(), 12),
    ];
    let r = package_row("up1".into(), "u1".into(), "p1", 4, &pkgs);
    assert_eq!((r.id.as_str(), r.user_id.as_str(), r.remaining), ("up1", "u1", 4));
    assert_eq!((r.package_name.as_str(), r.slot_count), ("Klippikort 12", 12));
    let none = package_row("up2".into(), "u1".into(), "gone", 1, &pkgs);
    assert_eq!((none.package_name.as_str(), none.slot_count), ("", 0));
}
