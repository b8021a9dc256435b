use golfsetridak::admin::settings::{BankTransferSettings, NotificationSettings, Store};
use golfsetridak::checkout::Store as PaymentStore;
use golfsetridak::admin::{
    admin_booking_rows, admin_payment_rows, admin_stats_reply, booking_totals, checkbox_on, revenue_in_range, totals_value, BookingTotals,
};
use golfsetridak::booking::store::Booking;
use golfsetridak::checkout::Reply;

fn booking(status: &str, price: Option<i64>) -> Booking {
    Booking {
        id: "b".into(),
        user_id: "u".into(),
        starts_at: 0,
        status: status.into(),
        payment_type: "single".into(),
        price_paid: price,
        user_package_id: None,
        user_subscription_id: None,
        notes: None,
        created_at: 0,
        cancelled_at: None,
    }
}

#[test]
fn totals_empty() {
    assert_eq!(booking_totals(&[]), BookingTotals::default());
}

#[test]
fn totals_only_count_confirmed_revenue() {
    let bookings = vec![
        booking("confirmed", Some(3500)),
        booking("confirmed", Some(2000)),
        booking("pending", Some(9999)),
        booking("cancelled", Some(9999)),
        booking("confirmed", None),
    ];
    let totals = booking_totals(&bookings);
    assert_eq!(totals.total_bookings, 5);
    assert_eq!(totals.confirmed_bookings, 3);
    assert_eq!(totals.revenue, 5500);
}

#[test]
fn totals_value_keys() {
    let v = totals_value(&BookingTotals {
        total_bookings: 7,
        confirmed_bookings: 4,
        revenue: 12000,
    });
    assert_eq!(v, r#"{"totalBookings":7,"confirmedBookings":4,"revenue":12000}"#);
}

#[test]
fn stats_reply_gates_method_and_role() {
    let bookings = vec![booking("confirmed", Some(100))];
    match admin_stats_reply(false, true, &bookings) {
        Reply::Json { status, body } => {
            assert_eq!(status, 405);
            assert_eq!(body, r#"{"error":"method not allowed"}"#);
        }
        _ => panic!("expected json"),
    }
    match admin_stats_reply(true, false, &bookings) {
        Reply::Json { status, .. } => assert_eq!(status, 401),
        _ => panic!("expected json"),
    }
    match admin_stats_reply(true, true, &bookings) {
        Reply::Json { status, body } => {
            assert_eq!(status, 200);
            assert_eq!(body, r#"{"totalBookings":1,"confirmedBookings":1,"revenue":100}"#);
        }
        _ => panic!("expected json"),
    }
}

#[test]
fn booking_rows_latest_first() {
    let mut a = booking("confirmed", Some(3500));
    a.starts_at = 1_000;
    let mut b = booking("pending", None);
    b.starts_at = 2_000;
    let rows = admin_booking_rows(&vec![a, b]);
    assert_eq!(rows.len(), 2);
    assert_eq!(rows[0].status, "pending");
    assert_eq!(rows[1].status, "confirmed");
}

#[test]
fn checkbox_values() {
    assert!(checkbox_on(Some("on")));
    assert!(checkbox_on(Some("true")));
    assert!(checkbox_on(Some("1")));
    assert!(!checkbox_on(Some("yes")));
    assert!(!checkbox_on(None));
}

#[test]
fn bank_transfer_persists_across_reopen() {
    let mut store = Store::new();
    assert_eq!(store.bank_transfer(), BankTransferSettings::default());
    store
        .set_bank_transfer(&BankTransferSettings {
            bank_name: "  Landsbankinn ".into(),
            account_holder: "Golfsetrið".into(),
            kennitala: "5501234567".into(),
            account_number: "0133-26-001234".into(),
        })
        .unwrap();
    let s = store.bank_transfer();
    assert_eq!(s.bank_name, "Landsbankinn");
    assert_eq!(s.account_holder, "Golfsetrið");
    assert_eq!(s.kennitala, "5501234567");
    assert_eq!(s.account_number, "0133-26-001234");
}

#[test]
fn bank_transfer_rejects_blank_fields() {
    let mut store = Store::new();
    let err = store
        .set_bank_transfer(&BankTransferSettings {
            bank_name: "   ".into(),
            account_holder: "x".into(),
            kennitala: "x".into(),
            account_number: "x".into(),
        })
        .unwrap_err();
    assert!(err.contains("banka"));
    assert_eq!(store.bank_transfer(), BankTransferSettings::default());
}

#[test]
fn notifications_persist_and_default() {
    let mut store = Store::new();
    assert_eq!(store.notifications(), NotificationSettings::default());
    store
        .set_notifications(&NotificationSettings {
            admin_copy_enabled: true,
            admin_email: "admin@golf.is".into(),
            admin_phone: "+3545551234".into(),
        })
        .unwrap();
    let n = store.notifications();
    assert!(n.admin_copy_enabled);
    assert_eq!(n.admin_email, "admin@golf.is");
    assert_eq!(n.admin_phone, "+3545551234");
}

#[test]
fn sms_template_persists_and_validates() {
    let mut store = Store::new();
    assert!(store.sms_template("booking_confirmed").is_none());
    assert!(store.set_sms_template("booking_confirmed", "  ").is_err());
    assert!(store.set_sms_template("  ", "body").is_err());
    store
        .set_sms_template("booking_confirmed", "Bókun staðfest!")
        .unwrap();
    assert_eq!(
        store.sms_template("booking_confirmed").as_deref(),
        Some("Bókun staðfest!")
    );
}

#[test]
fn payment_rows_list_pending_bank_transfers_newest_first() {
    let mut store = PaymentStore::new();
    store.create_payment("c1", "a@x.is", "bank_transfer", "bank-1", "pending", 3500, "ISK", None, 0);
    store.create_payment("c2", "b@x.is", "landsbankinn", "ref-2", "pending", 1000, "ISK", None, 86_400_000);
    store.create_payment("c3", "c@x.is", "bank_transfer", "bank-3", "pending", 1234567, "ISK", None, 2 * 86_400_000);
    let p = store.create_payment("c4", "d@x.is", "bank_transfer", "bank-4", "pending", 10, "ISK", None, 3 * 86_400_000);
    store.mark_succeeded(&p.id, 3 * 86_400_000).unwrap();
    let rows = admin_payment_rows(&store.all_payments());
    assert_eq!(rows.len(), 2);
    assert_eq!(rows[0].provider_ref, "bank-3");
    assert_eq!(rows[0].amount_label, "1.234.567 kr");
    assert_eq!(rows[0].created_at, "1970-01-03");
    assert_eq!(rows[1].customer_name, "a@x.is");
}

#[test]
fn revenue_must_fit_an_i64() {
    let fine = vec![booking("confirmed", Some(i64::MAX)), booking("cancelled", Some(5)), booking("confirmed", None)];
    assert!(revenue_in_range(&fine));
    assert_eq!(booking_totals(&fine).revenue, i64::MAX);
    let over = vec![booking("confirmed", Some(i64::MAX)), booking("confirmed", Some(1))];
    assert!(!revenue_in_range(&over));
    let back = vec![booking("confirmed", Some(i64::MIN)), booking("confirmed", Some(-1)), booking("confirmed", Some(5))];
    assert!(!revenue_in_range(&back));
    assert!(revenue_in_range(&[]));
}
