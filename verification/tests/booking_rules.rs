use golfsetridak::booking::pricing::{effective_slot_price, slot_price, PricingRule};
use golfsetridak::booking::subscription::{covers_date, daily_usage};
use golfsetridak::booking::subscription_sharing::{
    get_member_status_label, mask_subscription_phone, normalize_subscription_invite_phone,
    summarize_shared_subscription_usage,
};
use golfsetridak::booking::time::{
    add_days, booking_window_end, date_string, day_start, floor_div, from_civil,
    generate_day_slots, hour_of, iso_string, parse_date, parse_instant, to_civil, weekday_index,
    Civil, DAY_MS, HOUR_MS,
};
use golfsetridak::booking::validation::validate_booking_request;

fn rules() -> Vec<PricingRule> {
    vec![
        PricingRule {
            name: "Síðdegi/Kvöld".into(),
            start_hour: 16,
            end_hour: 22,
            price: 3500,
        },
        PricingRule {
            name: "Daytime".into(),
            start_hour: 8,
            end_hour: 16,
            price: 3500,
        },
        PricingRule {
            name: "Off-hours".into(),
            start_hour: 22,
            end_hour: 8,
            price: 2000,
        },
    ]
}

#[test]
fn daytime_and_evening_match() {
    assert_eq!(slot_price(10, &rules()), 3500);
    assert_eq!(slot_price(18, &rules()), 3500);
}

#[test]
fn midnight_wrapping_off_hours_match() {
    assert_eq!(slot_price(23, &rules()), 2000);
    assert_eq!(slot_price(3, &rules()), 2000);
    assert_eq!(slot_price(0, &rules()), 2000);
}

#[test]
fn boundaries_are_half_open() {
    assert_eq!(slot_price(8, &rules()), 3500);
    assert_eq!(slot_price(16, &rules()), 3500);
    assert_eq!(slot_price(22, &rules()), 2000);
}

#[test]
fn no_rule_yields_zero() {
    assert_eq!(slot_price(10, &[]), 0);
}

#[test]
fn fixed_price_overrides_rules() {
    assert_eq!(effective_slot_price(10, &rules(), Some(0)), 0);
    assert_eq!(effective_slot_price(10, &rules(), Some(1500)), 1500);
    assert_eq!(effective_slot_price(10, &rules(), None), 3500);
}

#[test]
fn first_matching_rule_wins() {
    let r = vec![
        PricingRule { name: "a".into(), start_hour: 0, end_hour: 24, price: 1 },
        PricingRule { name: "b".into(), start_hour: 0, end_hour: 24, price: 2 },
    ];
    assert_eq!(slot_price(5, &r), 1);
}

#[test]
fn coverage_is_inclusive_on_both_ends() {
    let from = parse_date("2026-06-01").unwrap();
    let until = parse_date("2026-06-30").unwrap();
    assert!(covers_date(from, until, parse_instant("2026-06-01T08:00:00Z").unwrap()));
    assert!(covers_date(from, until, parse_instant("2026-06-30T23:00:00Z").unwrap()));
    assert!(covers_date(from, until, parse_instant("2026-06-15T12:00:00Z").unwrap()));
}

#[test]
fn coverage_excludes_outside_days() {
    let from = parse_date("2026-06-01").unwrap();
    let until = parse_date("2026-06-30").unwrap();
    assert!(!covers_date(from, until, parse_instant("2026-05-31T23:00:00Z").unwrap()));
    assert!(!covers_date(from, until, parse_instant("2026-07-01T00:00:00Z").unwrap()));
}

#[test]
fn usage_clamps_and_flags_exhaustion() {
    let u = daily_usage(2, 0);
    assert_eq!((u.used, u.remaining, u.exhausted), (0, 2, false));
    let u = daily_usage(2, 1);
    assert_eq!((u.used, u.remaining, u.exhausted), (1, 1, false));
    let u = daily_usage(2, 2);
    assert_eq!((u.remaining, u.exhausted), (0, true));
    let u = daily_usage(2, 5);
    assert_eq!((u.remaining, u.exhausted), (0, true));
    let u = daily_usage(-1, -3);
    assert_eq!((u.limit, u.used, u.exhausted), (0, 0, true));
}

#[test]
fn normalize_phone_basic_7_digits() {
    let result = normalize_subscription_invite_phone("5123456");
    assert_eq!(result, Ok("+3545123456".into()));
}

#[test]
fn normalize_phone_with_plus_354() {
    let result = normalize_subscription_invite_phone("+354 512 3456");
    assert_eq!(result, Ok("+3545123456".into()));
}

#[test]
fn normalize_phone_with_00354() {
    let result = normalize_subscription_invite_phone("00354 512 3456");
    assert_eq!(result, Ok("+3545123456".into()));
}

#[test]
fn normalize_phone_with_354_prefix() {
    let result = normalize_subscription_invite_phone("354 512 3456");
    assert_eq!(result, Ok("+3545123456".into()));
}

#[test]
fn normalize_phone_rejects_empty() {
    let result = normalize_subscription_invite_phone("");
    assert!(result.is_err());
}

#[test]
fn normalize_phone_rejects_wrong_length() {
    let result = normalize_subscription_invite_phone("512345");
    assert!(result.is_err());
}

#[test]
fn normalize_phone_rejects_non_numeric() {
    let result = normalize_subscription_invite_phone("5A23456");
    assert!(result.is_err());
}

#[test]
fn mask_phone_correctly() {
    let result = mask_subscription_phone("5123456").unwrap();
    assert_eq!(result, "+354****3456");
}

#[test]
fn mask_phone_rejects_invalid() {
    assert!(mask_subscription_phone("12").is_err());
}

#[test]
fn summarize_usage_basic() {
    let summary = summarize_shared_subscription_usage(5, 2);
    assert_eq!(summary.used, 2);
    assert_eq!(summary.limit, 5);
    assert_eq!(summary.remaining, 3);
    assert!(!summary.exhausted);
}

#[test]
fn summarize_usage_exhausted() {
    let summary = summarize_shared_subscription_usage(5, 5);
    assert_eq!(summary.remaining, 0);
    assert!(summary.exhausted);
}

#[test]
fn summarize_usage_clamps_negatives() {
    let summary = summarize_shared_subscription_usage(-1, -3);
    assert_eq!(summary.limit, 0);
    assert_eq!(summary.used, 0);
    assert!(summary.exhausted);
}

#[test]
fn get_status_label_active() {
    assert_eq!(get_member_status_label("active"), "Virkur");
}

#[test]
fn get_status_label_invited() {
    assert_eq!(get_member_status_label("invited"), "Boð sent");
}

#[test]
fn get_status_label_removed() {
    assert_eq!(get_member_status_label("removed"), "Fjarlægður");
}

#[test]
fn civil_round_trips_known_instant() {
    let c = Civil {
        year: 2026,
        month: 6,
        day: 26,
        hour: 13,
        minute: 0,
        second: 0,
        milli: 0,
    };
    let ms = from_civil(c);
    assert_eq!(ms, 1782478800000);
    assert_eq!(to_civil(ms), c);
    assert_eq!(date_string(ms), "2026-06-26");
    assert_eq!(iso_string(ms), "2026-06-26T13:00:00.000Z");
    assert_eq!(hour_of(ms), 13);
}

#[test]
fn epoch_zero_is_1970() {
    assert_eq!(date_string(0), "1970-01-01");
    assert_eq!(iso_string(0), "1970-01-01T00:00:00.000Z");
}

#[test]
fn negative_instants_floor_to_the_day_before() {
    assert_eq!(date_string(-1), "1969-12-31");
    assert_eq!(iso_string(-1), "1969-12-31T23:59:59.999Z");
    assert_eq!(floor_div(-1, DAY_MS), -1);
    assert_eq!(day_start(-1), -DAY_MS);
}

#[test]
fn day_start_floors_to_midnight() {
    let ms = parse_instant("2026-06-26T13:45:30.500Z").unwrap();
    assert_eq!(date_string(day_start(ms)), "2026-06-26");
    assert_eq!(hour_of(day_start(ms)), 0);
    assert_eq!(to_civil(day_start(ms)).minute, 0);
}

#[test]
fn parse_instant_accepts_iso_date_and_epoch() {
    let a = parse_instant("2026-06-26").unwrap();
    let b = parse_instant("2026-06-26T00:00:00.000Z").unwrap();
    assert_eq!(a, b);
    let c = parse_instant(&a.to_string()).unwrap();
    assert_eq!(a, c);
    assert!(parse_instant("not-a-date").is_none());
    assert!(parse_instant("2026-13-01").is_none());
}

#[test]
fn add_days_moves_by_whole_days() {
    let a = parse_date("2026-02-28").unwrap();
    assert_eq!(date_string(add_days(a, 1)), "2026-03-01");
}

#[test]
fn weekday_matches_known_dates() {
    assert_eq!(weekday_index(parse_date("2026-06-26").unwrap()), 5);
    assert_eq!(weekday_index(0), 4);
    assert_eq!(weekday_index(parse_date("2026-06-28").unwrap()), 0);
}

#[test]
fn generate_day_slots_yields_24_hourly_slots() {
    let day = parse_date("2026-06-26").unwrap();
    let slots = generate_day_slots(day + 9 * HOUR_MS);
    assert_eq!(slots.len(), 24);
    assert_eq!(slots[0].key, "2026-06-26T00:00:00.000Z");
    assert_eq!(slots[8].key, "2026-06-26T08:00:00.000Z");
    assert_eq!(hour_of(slots[23].starts_at), 23);
}

#[test]
fn window_is_14_days_default_30_with_package() {
    let now = parse_date("2026-06-01").unwrap();
    assert_eq!(date_string(booking_window_end(now, false, &[])), "2026-06-15");
    assert_eq!(date_string(booking_window_end(now, true, &[])), "2026-07-01");
}

#[test]
fn window_extends_to_subscription_end_when_later() {
    let now = parse_date("2026-06-01").unwrap();
    let sub_end = parse_date("2026-08-31").unwrap();
    let end = booking_window_end(now, false, &[sub_end]);
    assert_eq!(date_string(end), "2026-08-31");
    assert!(end >= parse_instant("2026-08-31T22:00:00.000Z").unwrap());
}

#[test]
fn window_ignores_earlier_subscription_than_base() {
    let now = parse_date("2026-06-01").unwrap();
    let sub_end = parse_date("2026-06-05").unwrap();
    assert_eq!(date_string(booking_window_end(now, false, &[sub_end])), "2026-06-15");
}

#[test]
fn rejects_past_slots() {
    let now = parse_instant("2026-06-26T12:00:00Z").unwrap();
    let past = now - HOUR_MS;
    assert!(validate_booking_request(past, false, now).is_err());
}

#[test]
fn accepts_slot_inside_window() {
    let now = parse_date("2026-06-01").unwrap();
    let slot = parse_instant("2026-06-10T18:00:00Z").unwrap();
    assert!(validate_booking_request(slot, false, now).is_ok());
}

#[test]
fn rejects_slot_beyond_default_window_but_package_extends() {
    let now = parse_date("2026-06-01").unwrap();
    let slot = parse_instant("2026-06-20T18:00:00Z").unwrap();
    assert!(validate_booking_request(slot, false, now).is_err());
    assert!(validate_booking_request(slot, true, now).is_ok());
}

#[test]
fn seven_digits_are_always_local() {
    assert_eq!(normalize_subscription_invite_phone("3541234"), Ok("+3543541234".to_string()));
    assert_eq!(normalize_subscription_invite_phone(" 0012345 "), Ok("+3540012345".to_string()));
    // with separators the country code is still stripped
    assert_eq!(normalize_subscription_invite_phone("354-512-3456"), Ok("+3545123456".to_string()));
    assert!(normalize_subscription_invite_phone("354 1234").is_err());
}

#[test]
fn written_dates_and_instants_read_back() {
    for text in ["2026-06-01", "2024-02-29", "0001-01-01", "9999-12-31", "1969-12-31"] {
        let ms = parse_date(text).unwrap();
        assert_eq!(day_start(ms), ms);
        assert_eq!(date_string(ms), text);
        assert_eq!(parse_date(&format!("  {text} ")), Some(ms));
    }
    for ms in [0i64, 1_750_896_000_123, -1, 86_399_999, 253_402_300_799_999, -62_135_596_800_000] {
        assert_eq!(parse_instant(&iso_string(ms)), Some(ms));
    }
}

#[test]
fn epoch_digits_and_dates_read_as_instants() {
    for ms in [0i64, 1_750_896_000_123, -1, i64::MAX, i64::MIN, 86_400_000] {
        assert_eq!(parse_instant(&ms.to_string()), Some(ms));
    }
    for ms in [0i64, 1_750_896_000_123, -1, 253_402_300_799_999] {
        assert_eq!(parse_instant(&date_string(ms)), Some(day_start(ms)));
    }
}

#[test]
fn parse_date_refuses_what_is_not_a_date() {
    assert_eq!(parse_date("2026-13-01"), None);
    assert_eq!(parse_date("2026-00-10"), None);
    assert_eq!(parse_date("2026-06-32"), None);
    assert_eq!(parse_date("2026-06-00"), None);
    assert_eq!(parse_date("not-a-date"), None);
    assert_eq!(parse_date("20260601"), None);
    assert_eq!(parse_date("2026-x-01"), None);
    assert_eq!(parse_date("\t2026-06-01\n"), parse_date("2026-06-01"));
}
