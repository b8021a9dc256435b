use golfsetridak::booking::store::{Store, UserPackage, UserSubscription};
use golfsetridak::booking::subscription_sharing::UserSubscriptionMember;
use golfsetridak::booking::time::{add_days, day_start, parse_date, parse_instant, HOUR_MS};

#[test]
fn seeds_pricing_rules_on_first_open() {
    let store = Store::new();
    let rules = store.active_pricing_rules();
    assert_eq!(rules.len(), 3);
    assert_eq!(store.slot_price(10, None), 3500);
    assert_eq!(store.slot_price(3, None), 2000);
}

#[test]
fn single_booking_then_double_book_rejected() {
    let mut store = Store::new();
    let now = parse_date("2026-06-26").unwrap();
    let slot = parse_instant("2026-06-27T10:00:00Z").unwrap();
    let id = store
        .create_booking("u1", slot, "single", None, None, now)
        .expect("first booking succeeds");
    assert!(id.starts_with("bk-"));
    let err = store
        .create_booking("u2", slot, "single", None, None, now)
        .unwrap_err();
    assert_eq!(err, "Þessi tími er þegar bókaður");
}

#[test]
fn single_booking_records_effective_price() {
    let mut store = Store::new();
    store.put_user("vip", Some(1000));
    let now = parse_date("2026-06-26").unwrap();
    let slot = parse_instant("2026-06-27T10:00:00Z").unwrap();
    store
        .create_booking("vip", slot, "single", None, None, now)
        .unwrap();
    let b = store.bookings_for_user("vip");
    assert_eq!(b.len(), 1);
    assert_eq!(b[0].price_paid, Some(1000));
    assert_eq!(b[0].status, "confirmed");
}

#[test]
fn package_booking_decrements_and_guards_empty() {
    let mut store = Store::new();
    store.put_user_package(&UserPackage {
        id: "up1".into(),
        user_id: "u1".into(),
        remaining: 1,
        package_name: None,
        slot_count: None,
    });
    let now = parse_date("2026-06-26").unwrap();
    let slot1 = parse_instant("2026-06-27T10:00:00Z").unwrap();
    let slot2 = parse_instant("2026-06-27T11:00:00Z").unwrap();
    store
        .create_booking("u1", slot1, "package", Some("up1"), None, now)
        .expect("first package booking");
    assert_eq!(store.user_package("up1").unwrap().remaining, 0);
    let err = store
        .create_booking("u1", slot2, "package", Some("up1"), None, now)
        .unwrap_err();
    assert_eq!(err, "Engir tímar eftir á kortinu");
}

#[test]
fn package_not_found_for_wrong_owner() {
    let mut store = Store::new();
    store.put_user_package(&UserPackage {
        id: "up1".into(),
        user_id: "owner".into(),
        remaining: 5,
        package_name: None,
        slot_count: None,
    });
    let now = parse_date("2026-06-26").unwrap();
    let slot = parse_instant("2026-06-27T10:00:00Z").unwrap();
    let err = store
        .create_booking("intruder", slot, "package", Some("up1"), None, now)
        .unwrap_err();
    assert_eq!(err, "Package not found");
}

#[test]
fn subscription_daily_limit_enforced() {
    let mut store = Store::new();
    let from = parse_date("2026-06-01").unwrap();
    let until = parse_date("2026-06-30").unwrap();
    store.put_user_subscription(&UserSubscription {
        id: "us1".into(),
        user_id: "u1".into(),
        valid_from: from,
        valid_until: until,
        daily_limit: 2,
    });
    let now = parse_date("2026-06-10").unwrap();
    let base = parse_instant("2026-06-11T08:00:00Z").unwrap();
    store
        .create_booking("u1", base, "subscription", Some("us1"), None, now)
        .unwrap();
    store
        .create_booking("u1", base + HOUR_MS, "subscription", Some("us1"), None, now)
        .unwrap();
    let err = store
        .create_booking("u1", base + 2 * HOUR_MS, "subscription", Some("us1"), None, now)
        .unwrap_err();
    assert_eq!(err, "Dagskvóti áskriftar fullnýttur");
    let next = parse_instant("2026-06-12T08:00:00Z").unwrap();
    store
        .create_booking("u1", next, "subscription", Some("us1"), None, now)
        .expect("next day resets quota");
}

#[test]
fn subscription_outside_window_rejected() {
    let mut store = Store::new();
    store.put_user_subscription(&UserSubscription {
        id: "us1".into(),
        user_id: "u1".into(),
        valid_from: parse_date("2026-06-01").unwrap(),
        valid_until: parse_date("2026-06-05").unwrap(),
        daily_limit: 2,
    });
    let now = parse_date("2026-06-01").unwrap();
    let slot = parse_instant("2026-06-20T10:00:00Z").unwrap();
    let err = store
        .create_booking("u1", slot, "subscription", Some("us1"), None, now)
        .unwrap_err();
    assert_eq!(err, "Tími er utan gildistíma áskriftar");
}

#[test]
fn unknown_payment_type_is_refused_or_single() {
    let mut store = Store::new();
    let now = parse_date("2026-06-26").unwrap();
    let slot = parse_instant("2026-06-27T10:00:00Z").unwrap();
    let err = store
        .create_booking("u1", slot, "package", None, None, now)
        .unwrap_err();
    assert_eq!(err, "userPackageId is required for package bookings");
}

#[test]
fn cancel_frees_slot_and_refunds_package() {
    let mut store = Store::new();
    store.put_user_package(&UserPackage {
        id: "up1".into(),
        user_id: "u1".into(),
        remaining: 1,
        package_name: None,
        slot_count: None,
    });
    let now = parse_date("2026-06-26").unwrap();
    let slot = parse_instant("2026-06-27T10:00:00Z").unwrap();
    let id = store
        .create_booking("u1", slot, "package", Some("up1"), None, now)
        .unwrap();
    assert_eq!(store.user_package("up1").unwrap().remaining, 0);
    store.cancel_booking(&id, "u1", now).expect("cancel");
    assert_eq!(store.user_package("up1").unwrap().remaining, 1);
    store
        .create_booking("u2", slot, "single", None, None, now)
        .expect("slot freed after cancel");
}

#[test]
fn cancel_rejects_wrong_user_and_double_cancel() {
    let mut store = Store::new();
    let now = parse_date("2026-06-26").unwrap();
    let slot = parse_instant("2026-06-27T10:00:00Z").unwrap();
    let id = store
        .create_booking("u1", slot, "single", None, None, now)
        .unwrap();
    assert_eq!(
        store.cancel_booking(&id, "intruder", now).unwrap_err(),
        "Booking not found"
    );
    store.cancel_booking(&id, "u1", now).unwrap();
    assert_eq!(
        store.cancel_booking(&id, "u1", now).unwrap_err(),
        "Booking is already cancelled"
    );
}

#[test]
fn availability_marks_past_booked_available() {
    let mut store = Store::new();
    let now = parse_instant("2026-06-26T12:00:00Z").unwrap();
    let slot = parse_instant("2026-06-26T15:00:00Z").unwrap();
    store
        .create_booking("u1", slot, "single", None, None, now)
        .unwrap();
    let avail = store.availability(now, 1, None, now);
    assert_eq!(avail.len(), 1);
    let day = &avail[0];
    assert_eq!(day.date, "2026-06-26");
    assert_eq!(day.slots.len(), 24);
    assert_eq!(day.slots[8].status, "past");
    assert_eq!(day.slots[13].status, "available");
    assert_eq!(day.slots[15].status, "booked");
    assert_eq!(day.slots[15].starts_at, "2026-06-26T15:00:00.000Z");
    assert_eq!(day.slots[13].price, 3500);
    assert_eq!(day.slots[23].price, 2000);
}

#[test]
fn durable_across_reopen() {
    let mut store = Store::new();
    let now = parse_date("2026-06-26").unwrap();
    let slot = parse_instant("2026-06-27T10:00:00Z").unwrap();
    store
        .create_booking("u1", slot, "single", None, None, now)
        .unwrap();
    let err = store
        .create_booking("u2", slot, "single", None, None, now)
        .unwrap_err();
    assert_eq!(err, "Þessi tími er þegar bókaður");
    assert_eq!(store.all_bookings().len(), 1);
}

fn seed_sub(store: &mut Store, id: &str, owner: &str, now: i64) {
    let today = day_start(now);
    store.put_user_subscription(&UserSubscription {
        id: id.into(),
        user_id: owner.into(),
        valid_from: add_days(today, -1),
        valid_until: add_days(today, 60),
        daily_limit: 2,
    });
}

#[test]
fn invite_then_accept_makes_member_active() {
    let mut store = Store::new();
    let now = parse_date("2026-06-26").unwrap();
    seed_sub(&mut store, "sub1", "owner@x.is", now);
    let member = store
        .invite_subscription_member("owner@x.is", "sub1", "555 1234", now)
        .expect("invite ok");
    assert_eq!(member.status, "invited");
    assert_eq!(member.role, "member");
    assert_eq!(member.invited_phone.as_deref(), Some("+3545551234"));
    assert!(member.user_id.is_none());
    let listed = store.list_subscription_members("sub1");
    assert_eq!(listed.len(), 2);
    assert_eq!(listed[0].role, "owner");
    let n = store
        .accept_pending_subscription_invites("friend@x.is", Some("+354 555 1234"), now)
        .expect("accept ok");
    assert_eq!(n, 1);
    let m = store
        .list_subscription_members("sub1")
        .into_iter()
        .find(|m| m.id == member.id)
        .unwrap();
    assert_eq!(m.status, "active");
    assert_eq!(m.user_id.as_deref(), Some("friend@x.is"));
    assert!(store.can_use_subscription("friend@x.is", "sub1"));
}

#[test]
fn remove_marks_member_removed_and_revokes_access() {
    let mut store = Store::new();
    let now = parse_date("2026-06-26").unwrap();
    seed_sub(&mut store, "sub1", "owner@x.is", now);
    let member = store
        .invite_subscription_member("owner@x.is", "sub1", "5551234", now)
        .unwrap();
    store
        .accept_pending_subscription_invites("friend@x.is", Some("5551234"), now)
        .unwrap();
    assert!(store.can_use_subscription("friend@x.is", "sub1"));
    store
        .remove_subscription_member("owner@x.is", "sub1", &member.id, now)
        .expect("remove ok");
    let listed = store.list_subscription_members("sub1");
    assert_eq!(listed.len(), 1);
    assert_eq!(listed[0].role, "owner");
    assert!(!store.can_use_subscription("friend@x.is", "sub1"));
}

#[test]
fn daily_limit_is_shared_across_active_members() {
    let mut store = Store::new();
    let now = parse_date("2026-06-26").unwrap();
    seed_sub(&mut store, "sub1", "owner@x.is", now);
    let member = store
        .invite_subscription_member("owner@x.is", "sub1", "5551234", now)
        .unwrap();
    store
        .accept_pending_subscription_invites("friend@x.is", Some("5551234"), now)
        .unwrap();
    let slot1 = parse_instant("2026-06-27T10:00:00Z").unwrap();
    let slot2 = parse_instant("2026-06-27T11:00:00Z").unwrap();
    let slot3 = parse_instant("2026-06-27T12:00:00Z").unwrap();
    store
        .create_booking("owner@x.is", slot1, "subscription", Some("sub1"), None, now)
        .expect("owner books 1st");
    store
        .create_booking("friend@x.is", slot2, "subscription", Some("sub1"), None, now)
        .expect("member books 2nd");
    let err = store
        .create_booking("owner@x.is", slot3, "subscription", Some("sub1"), None, now)
        .unwrap_err();
    assert_eq!(err, "Dagskvóti áskriftar fullnýttur");
    let usage = store.shared_subscription_usage("sub1", slot1).unwrap();
    assert_eq!((usage.limit, usage.used, usage.remaining), (2, 2, 0));
    assert!(usage.exhausted);
    let _ = member;
}

#[test]
fn only_owner_can_invite_or_remove() {
    let mut store = Store::new();
    let now = parse_date("2026-06-26").unwrap();
    seed_sub(&mut store, "sub1", "owner@x.is", now);
    let err = store
        .invite_subscription_member("intruder@x.is", "sub1", "5551234", now)
        .unwrap_err();
    assert_eq!(err, "Aðeins eigandi getur deilt áskriftinni");
    let member = store
        .invite_subscription_member("owner@x.is", "sub1", "5551234", now)
        .unwrap();
    store
        .accept_pending_subscription_invites("friend@x.is", Some("5551234"), now)
        .unwrap();
    let err = store
        .remove_subscription_member("friend@x.is", "sub1", &member.id, now)
        .unwrap_err();
    assert_eq!(err, "Aðeins eigandi getur fjarlægt meðlimi");
}

#[test]
fn duplicate_open_invite_is_rejected() {
    let mut store = Store::new();
    let now = parse_date("2026-06-26").unwrap();
    seed_sub(&mut store, "sub1", "owner@x.is", now);
    store
        .invite_subscription_member("owner@x.is", "sub1", "5551234", now)
        .unwrap();
    let err = store
        .invite_subscription_member("owner@x.is", "sub1", "555 1234", now)
        .unwrap_err();
    assert_eq!(err, "Þessi aðili er þegar á áskriftinni eða með opið boð");
}

#[test]
fn accept_skips_duplicate_active_membership() {
    let mut store = Store::new();
    let now = parse_date("2026-06-26").unwrap();
    seed_sub(&mut store, "sub1", "owner@x.is", now);
    let first = store
        .invite_subscription_member("owner@x.is", "sub1", "5551234", now)
        .unwrap();
    store
        .accept_pending_subscription_invites("friend@x.is", Some("5551234"), now)
        .unwrap();
    let stale = UserSubscriptionMember {
        id: "usm-stale".into(),
        user_subscription_id: "sub1".into(),
        user_id: None,
        role: "member".into(),
        status: "invited".into(),
        invited_phone: Some("+3549999999".into()),
        invited_at: now,
        accepted_at: None,
        removed_at: None,
    };
    store.put_user_subscription_member(&stale);
    let n = store
        .accept_pending_subscription_invites("friend@x.is", Some("9999999"), now)
        .unwrap();
    assert_eq!(n, 0);
    let active_for_friend = store
        .list_subscription_members("sub1")
        .into_iter()
        .filter(|m| m.user_id.as_deref() == Some("friend@x.is") && m.status == "active")
        .count();
    assert_eq!(active_for_friend, 1);
    let _ = first;
}

#[test]
fn accessible_ids_include_owned_and_member_subs() {
    let mut store = Store::new();
    let now = parse_date("2026-06-26").unwrap();
    seed_sub(&mut store, "subA", "owner@x.is", now);
    seed_sub(&mut store, "subB", "other@x.is", now);
    store
        .invite_subscription_member("other@x.is", "subB", "5551234", now)
        .unwrap();
    store
        .accept_pending_subscription_invites("owner@x.is", Some("5551234"), now)
        .unwrap();
    let ids = store.accessible_user_subscription_ids("owner@x.is");
    assert_eq!(ids, vec!["subA".to_string(), "subB".to_string()]);
}

#[test]
fn list_user_packages_and_subscriptions() {
    let mut store = Store::new();
    store.put_user_package(&UserPackage {
        id: "up1".into(),
        user_id: "u1".into(),
        remaining: 5,
        package_name: Some("Package A".into()),
        slot_count: Some(10),
    });
    store.put_user_package(&UserPackage {
        id: "up2".into(),
        user_id: "u1".into(),
        remaining: 3,
        package_name: Some("Package B".into()),
        slot_count: Some(10),
    });
    store.put_user_package(&UserPackage {
        id: "up3".into(),
        user_id: "u2".into(),
        remaining: 7,
        package_name: Some("Package C".into()),
        slot_count: Some(20),
    });
    store.put_user_subscription(&UserSubscription {
        id: "us1".into(),
        user_id: "u1".into(),
        valid_from: 1000,
        valid_until: 2000,
        daily_limit: 2,
    });
    store.put_user_subscription(&UserSubscription {
        id: "us2".into(),
        user_id: "u2".into(),
        valid_from: 1000,
        valid_until: 2000,
        daily_limit: 3,
    });
    let u1_pkgs = store.user_packages_for_user("u1");
    assert_eq!(u1_pkgs.len(), 2);
    assert_eq!(u1_pkgs[0].id, "up1");
    assert_eq!(u1_pkgs[0].remaining, 5);
    assert_eq!(u1_pkgs[1].id, "up2");
    assert_eq!(u1_pkgs[1].remaining, 3);
    let u2_pkgs = store.user_packages_for_user("u2");
    assert_eq!(u2_pkgs.len(), 1);
    assert_eq!(u2_pkgs[0].id, "up3");
    assert_eq!(u2_pkgs[0].remaining, 7);
    let u1_subs = store.user_subscriptions_for_user("u1");
    assert_eq!(u1_subs.len(), 1);
    assert_eq!(u1_subs[0].id, "us1");
    assert_eq!(u1_subs[0].daily_limit, 2);
    let u2_subs = store.user_subscriptions_for_user("u2");
    assert_eq!(u2_subs.len(), 1);
    assert_eq!(u2_subs[0].id, "us2");
    assert_eq!(u2_subs[0].daily_limit, 3);
}
