use paycalc::config::{Config, HourMinute, TimeWindow, Type, TypeForPickList};
use paycalc::failure::Failure;
use paycalc::record::{from_record, to_record, ConfigRecord, WindowRecord};
use paycalc::util::{comma_separated, str_lt, str_order, yen, StrOrder};

fn window(bh: u8, bm: u8, eh: u8, em: u8) -> TimeWindow {
    TimeWindow::from_hm(bh, bm, eh, em).unwrap()
}

#[test]
fn hour_minute_minutes() {
    let hm = HourMinute::from_hm(9, 30).unwrap();
    assert_eq!(hm.minutes(), 570);
    let hm = HourMinute::from_hm(0, 0).unwrap();
    assert_eq!(hm.minutes(), 0);
    let hm = HourMinute::from_hm(23, 59).unwrap();
    assert_eq!(hm.minutes(), 1439);
}

#[test]
fn hour_minute_rejects_out_of_range() {
    assert_eq!(HourMinute::from_hm(24, 0), Err(Failure::Duration));
    assert_eq!(HourMinute::from_hm(0, 60), Err(Failure::Duration));
    assert_eq!(HourMinute::from_hm(255, 255), Err(Failure::Duration));
    assert!(HourMinute::from_hm(23, 59).is_ok());
}

#[test]
fn duration_plain_and_overnight() {
    // A day shift: 09:00 to 17:00 is eight hours.
    assert_eq!(window(9, 0, 17, 0).duration_minutes(), 480);
    // A night shift crosses midnight: 22:00 to 06:00 is also eight hours.
    assert_eq!(window(22, 0, 6, 0).duration_minutes(), 480);
    assert_eq!(window(23, 30, 0, 15).duration_minutes(), 45);
    assert_eq!(window(0, 0, 0, 1).duration_minutes(), 1);
}

#[test]
fn duration_to_string_forms() {
    assert_eq!(Type::PerTime.duration_to_string(), "-");
    assert_eq!(Type::PerHour(window(9, 0, 17, 0)).duration_to_string(), " 8:00");
    assert_eq!(Type::PerHour(window(22, 0, 6, 30)).duration_to_string(), " 8:30");
    assert_eq!(Type::PerHour(window(0, 0, 10, 5)).duration_to_string(), "10:05");
}

#[test]
fn per_unit_valuation() {
    // A flat configuration at 1000 assigned to three cells pays 3000.
    let c = Config { rate_type: Type::PerTime, pay: 1000 };
    assert_eq!(c.sum(3), 3000);
    assert_eq!(c.sum(0), 0);
}

#[test]
fn per_hour_valuation() {
    // 1200 an hour over 09:00-17:00 on two cells: 1200 * 2 * 480 / 60.
    let c = Config { rate_type: Type::PerHour(window(9, 0, 17, 0)), pay: 1200 };
    assert_eq!(c.sum(2), 19200);
    assert_eq!(c.sum(0), 0);
    // Truncation goes toward zero: 45 minutes of 100 an hour is 75.
    let c = Config { rate_type: Type::PerHour(window(0, 0, 0, 45)), pay: 100 };
    assert_eq!(c.sum(1), 75);
    let c = Config { rate_type: Type::PerHour(window(0, 0, 0, 59)), pay: 1 };
    assert_eq!(c.sum(1), 0);
    // No overflow near the demanded precision: pay 10^7 on a full grid.
    let c = Config { rate_type: Type::PerHour(window(0, 0, 23, 59)), pay: 10_000_000 };
    assert_eq!(c.sum(42), 10_000_000u64 * 42 * 1439 / 60);
}

#[test]
fn pay_labels() {
    let c = Config { rate_type: Type::PerTime, pay: 1000 };
    assert_eq!(c.pay_to_string(), "1,000 \u{a5}/#");
    let c = Config { rate_type: Type::PerHour(window(9, 0, 17, 0)), pay: 1200 };
    assert_eq!(c.pay_to_string(), "1,200 \u{a5}/h");
    assert_eq!(TypeForPickList::PerTime.label(), "\u{a5}/#");
    assert_eq!(TypeForPickList::PerHour.label(), "\u{a5}/h");
    assert_eq!(TypeForPickList::from(Type::PerTime), TypeForPickList::PerTime);
    assert_eq!(
        TypeForPickList::from(Type::PerHour(window(1, 0, 2, 0))),
        TypeForPickList::PerHour
    );
}

#[test]
fn comma_separated_groups_digits() {
    assert_eq!(comma_separated(0), "0");
    assert_eq!(comma_separated(7), "7");
    assert_eq!(comma_separated(999), "999");
    assert_eq!(comma_separated(1000), "1,000");
    assert_eq!(comma_separated(123456), "123,456");
    assert_eq!(comma_separated(1234567), "1,234,567");
    assert_eq!(comma_separated(u32::MAX), "4,294,967,295");
}

#[test]
fn yen_appends_sign() {
    assert_eq!(yen(0), "0 \u{a5}");
    assert_eq!(yen(1234567), "1,234,567 \u{a5}");
}

#[test]
fn string_order_is_lexicographic() {
    assert!(str_lt("abc", "abd"));
    assert!(str_lt("ab", "abc"));
    assert!(!str_lt("abc", "abc"));
    assert!(!str_lt("b", "abc"));
    assert_eq!(str_order("a", "b"), StrOrder::Less);
    assert_eq!(str_order("b", "a"), StrOrder::Greater);
    assert_eq!(str_order("same", "same"), StrOrder::Equal);
    assert_eq!(str_order("", "a"), StrOrder::Less);
}

#[test]
fn record_round_trip_per_unit() {
    let c = Config { rate_type: Type::PerTime, pay: 5500 };
    let r = to_record(&c);
    assert_eq!(r.kind, TypeForPickList::PerTime);
    assert_eq!(r.pay, 5500);
    assert_eq!(r.window, None);
    let back = from_record(&r).unwrap();
    assert_eq!(back, c);
}

#[test]
fn record_round_trip_per_hour() {
    let c = Config { rate_type: Type::PerHour(window(22, 15, 6, 45)), pay: 1375 };
    let r = to_record(&c);
    assert_eq!(r.kind, TypeForPickList::PerHour);
    assert_eq!(r.pay, 1375);
    assert_eq!(
        r.window,
        Some(WindowRecord { begin_hour: 22, begin_minute: 15, end_hour: 6, end_minute: 45 })
    );
    let back = from_record(&r).unwrap();
    assert_eq!(back, c);
    assert_eq!(to_record(&back), r);
}

#[test]
fn record_rejects_bad_windows() {
    let r = ConfigRecord { kind: TypeForPickList::PerHour, pay: 10, window: None };
    assert_eq!(from_record(&r), Err(Failure::Duration));
    let r = ConfigRecord {
        kind: TypeForPickList::PerHour,
        pay: 10,
        window: Some(WindowRecord { begin_hour: 24, begin_minute: 0, end_hour: 1, end_minute: 0 }),
    };
    assert_eq!(from_record(&r), Err(Failure::Duration));
    let r = ConfigRecord {
        kind: TypeForPickList::PerHour,
        pay: 10,
        window: Some(WindowRecord { begin_hour: 1, begin_minute: 0, end_hour: 2, end_minute: 60 }),
    };
    assert_eq!(from_record(&r), Err(Failure::Duration));
}
