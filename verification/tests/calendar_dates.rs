use paycalc::calendar::{
    cell_date, first_sunday, highlight_begin, highlight_end, is_highlighted, show_month_label,
    AnchorSpec,
};
use paycalc::date::{short_month, short_weekday, weekday_to_column, Date, Month, Weekday};
use paycalc::failure::Failure;

#[test]
fn date_new_valid_julian_values() {
    // Known Julian day numbers, as the `time` documentation lists them.
    let d = Date::new(2000, 1, 1).unwrap();
    assert_eq!(d.julian, 2_451_545);
    let d = Date::new(2019, 1, 1).unwrap();
    assert_eq!(d.julian, 2_458_485);
    let d = Date::new(2019, 12, 31).unwrap();
    assert_eq!(d.julian, 2_458_849);
    let d = Date::new(-4713, 11, 24).unwrap();
    assert_eq!(d.julian, 0);
}

#[test]
fn date_new_rejects_invalid() {
    assert_eq!(Date::new(2019, 2, 29), Err(Failure::Date));
    assert_eq!(Date::new(2020, 2, 30), Err(Failure::Date));
    assert_eq!(Date::new(2024, 4, 31), Err(Failure::Date));
    assert_eq!(Date::new(2024, 13, 1), Err(Failure::Date));
    assert_eq!(Date::new(2024, 0, 1), Err(Failure::Date));
    assert_eq!(Date::new(2024, 1, 0), Err(Failure::Date));
    assert_eq!(Date::new(10000, 1, 1), Err(Failure::Date));
    assert!(Date::new(2020, 2, 29).is_ok());
    assert!(Date::new(2000, 2, 29).is_ok());
    assert_eq!(Date::new(1900, 2, 29), Err(Failure::Date));
}

#[test]
fn date_from_julian_round_trip() {
    let d = Date::from_julian(2_451_545).unwrap();
    assert_eq!((d.year, d.month, d.day), (2000, 1, 1));
    let d = Date::from_julian(0).unwrap();
    assert_eq!((d.year, d.month, d.day), (-4713, 11, 24));
    assert!(Date::from_julian(i32::MIN).is_err());
    assert!(Date::from_julian(i32::MAX).is_err());
}

#[test]
fn date_weekday_and_add_days() {
    // January 1 of 2024 is a Monday.
    let d = Date::new(2024, 1, 1).unwrap();
    assert_eq!(d.weekday(), Weekday::Monday);
    let e = d.add_days(5).unwrap();
    assert_eq!((e.year, e.month, e.day), (2024, 1, 6));
    assert_eq!(e.weekday(), Weekday::Saturday);
    let f = d.add_days(-1).unwrap();
    assert_eq!((f.year, f.month, f.day), (2023, 12, 31));
    assert_eq!(f.weekday(), Weekday::Sunday);
}

#[test]
fn month_next_and_numbers() {
    assert_eq!(Month::January.number(), 1);
    assert_eq!(Month::December.number(), 12);
    assert_eq!(Month::January.next(), Month::February);
    assert_eq!(Month::December.next(), Month::January);
    assert_eq!(Month::from_number(7), Some(Month::July));
    assert_eq!(Month::from_number(0), None);
    assert_eq!(Month::from_number(13), None);
}

#[test]
fn labels_and_columns() {
    assert_eq!(short_month(Month::September), "Sep");
    assert_eq!(short_month(Month::May), "May");
    assert_eq!(short_weekday(Weekday::Sunday), "Sun");
    assert_eq!(short_weekday(Weekday::Saturday), "Sat");
    assert_eq!(weekday_to_column(Weekday::Sunday), 0);
    assert_eq!(weekday_to_column(Weekday::Wednesday), 3);
    assert_eq!(weekday_to_column(Weekday::Saturday), 6);
}

#[test]
fn first_sunday_lands_on_sunday() {
    // The first grid day is always a Sunday, over a spread of anchors.
    for (year, month, offset) in [
        (2024, Month::January, 1),
        (2024, Month::February, 15),
        (1999, Month::December, 31),
        (2000, Month::February, 29),
        (1970, Month::June, 7),
    ] {
        let a = AnchorSpec { year, month, offset };
        let fs = first_sunday(&a).unwrap();
        assert_eq!(fs.weekday(), Weekday::Sunday);
        let begin = highlight_begin(&a).unwrap();
        assert!(fs.julian <= begin.julian);
        assert!(begin.julian - fs.julian < 7);
    }
}

#[test]
fn highlight_end_rolls_into_next_month() {
    let a = AnchorSpec { year: 2024, month: Month::March, offset: 10 };
    let end = highlight_end(&a).unwrap();
    assert_eq!((end.year, end.month, end.day), (2024, 4, 10));

    // December rolls the year over.
    let a = AnchorSpec { year: 2024, month: Month::December, offset: 5 };
    let end = highlight_end(&a).unwrap();
    assert_eq!((end.year, end.month, end.day), (2025, 1, 5));
}

#[test]
fn highlight_window_is_half_open() {
    let a = AnchorSpec { year: 2024, month: Month::March, offset: 10 };
    let begin = highlight_begin(&a).unwrap();
    let end = highlight_end(&a).unwrap();
    assert!(is_highlighted(&a, &begin));
    let last = end.add_days(-1).unwrap();
    assert!(is_highlighted(&a, &last));
    assert!(!is_highlighted(&a, &end));
    let before = begin.add_days(-1).unwrap();
    assert!(!is_highlighted(&a, &before));
}

#[test]
fn invalid_anchor_highlights_nothing() {
    // February 31 never constructs, so the window is empty.
    let a = AnchorSpec { year: 2024, month: Month::February, offset: 31 };
    assert_eq!(highlight_begin(&a), Err(Failure::Date));
    let d = Date::new(2024, 2, 15).unwrap();
    assert!(!is_highlighted(&a, &d));

    // January 30: the begin exists but the end (February 30) does not.
    let a = AnchorSpec { year: 2024, month: Month::January, offset: 30 };
    assert!(highlight_begin(&a).is_ok());
    assert_eq!(highlight_end(&a), Err(Failure::Date));
    let d = Date::new(2024, 1, 30).unwrap();
    assert!(!is_highlighted(&a, &d));
}

#[test]
fn cell_dates_step_one_day_from_first_sunday() {
    let a = AnchorSpec { year: 2024, month: Month::July, offset: 3 };
    let fs = first_sunday(&a).unwrap();
    for p in 0..42 {
        let d = cell_date(&a, p).unwrap();
        assert_eq!(d.julian, fs.julian + p as i32);
    }
}

#[test]
fn anchor_scenario_january_2024() {
    // Anchor (2024, January, offset 1): January 1 of 2024 is a Monday, so
    // the grid starts on the previous Sunday, December 31 of 2023.
    let a = AnchorSpec { year: 2024, month: Month::January, offset: 1 };
    let fs = first_sunday(&a).unwrap();
    assert_eq!((fs.year, fs.month, fs.day), (2023, 12, 31));

    let p0 = cell_date(&a, 0).unwrap();
    assert_eq!((p0.year, p0.month, p0.day), (2023, 12, 31));
    assert!(!is_highlighted(&a, &p0));

    let p1 = cell_date(&a, 1).unwrap();
    assert_eq!((p1.year, p1.month, p1.day), (2024, 1, 1));
    assert!(is_highlighted(&a, &p1));
    assert!(show_month_label(&a, 1));
}

#[test]
fn month_label_on_first_cell_and_month_starts() {
    let a = AnchorSpec { year: 2024, month: Month::January, offset: 1 };
    // The top-left cell always carries a label, even mid-month.
    assert!(show_month_label(&a, 0));
    // January 1 sits at position 1, February 1 at position 32.
    assert!(show_month_label(&a, 1));
    assert!(show_month_label(&a, 32));
    assert!(!show_month_label(&a, 2));
    assert!(!show_month_label(&a, 31));
}
