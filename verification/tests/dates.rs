use tortoise::date::date_sequence;
use tortoise::date::Date;

#[test]
fn from_ymd_opt_accepts_days_that_exist() {
    let d = Date::from_ymd_opt(2015, 3, 14).unwrap();
    assert_eq!((d.year(), d.month(), d.day()), (2015, 3, 14));
    assert!(Date::from_ymd_opt(2024, 2, 29).is_some());
    assert!(Date::from_ymd_opt(-4, 2, 29).is_some());
    assert!(Date::from_ymd_opt(2000, 2, 29).is_some());
}

#[test]
fn from_ymd_opt_rejects_days_that_do_not_exist() {
    assert!(Date::from_ymd_opt(2015, 0, 14).is_none());
    assert!(Date::from_ymd_opt(2015, 13, 1).is_none());
    assert!(Date::from_ymd_opt(2015, 2, 29).is_none());
    assert!(Date::from_ymd_opt(1900, 2, 29).is_none());
    assert!(Date::from_ymd_opt(2023, 4, 31).is_none());
    assert!(Date::from_ymd_opt(2023, 4, 0).is_none());
}

#[test]
fn from_ymd_opt_rejects_years_out_of_range() {
    assert!(Date::from_ymd_opt(400000, 1, 1).is_none());
    assert!(Date::from_ymd_opt(-400000, 1, 1).is_none());
    assert!(Date::from_ymd_opt(262_142, 12, 31).is_some());
    assert!(Date::from_ymd_opt(262_143, 1, 1).is_none());
    assert!(Date::from_ymd_opt(-262_143, 1, 1).is_some());
    assert!(Date::from_ymd_opt(-262_144, 12, 31).is_none());
}

#[test]
fn succ_opt_steps_within_a_month() {
    let d = Date::from_ymd_opt(2015, 6, 3).unwrap();
    assert_eq!(d.succ_opt(), Date::from_ymd_opt(2015, 6, 4));
}

#[test]
fn succ_opt_steps_over_the_end_of_a_month_and_a_year() {
    let d = Date::from_ymd_opt(2021, 4, 30).unwrap();
    assert_eq!(d.succ_opt(), Date::from_ymd_opt(2021, 5, 1));
    let d = Date::from_ymd_opt(2021, 12, 31).unwrap();
    assert_eq!(d.succ_opt(), Date::from_ymd_opt(2022, 1, 1));
}

#[test]
fn succ_opt_knows_leap_years() {
    let d = Date::from_ymd_opt(2020, 2, 28).unwrap();
    assert_eq!(d.succ_opt(), Date::from_ymd_opt(2020, 2, 29));
    let d = Date::from_ymd_opt(2021, 2, 28).unwrap();
    assert_eq!(d.succ_opt(), Date::from_ymd_opt(2021, 3, 1));
    let d = Date::from_ymd_opt(1900, 2, 28).unwrap();
    assert_eq!(d.succ_opt(), Date::from_ymd_opt(1900, 3, 1));
}

#[test]
fn succ_opt_ends_on_the_last_day() {
    let d = Date::from_ymd_opt(262_142, 12, 31).unwrap();
    assert_eq!(d.succ_opt(), None);
}

#[test]
fn dates_compare_by_year_month_and_day() {
    let a = Date::from_ymd_opt(2020, 12, 31).unwrap();
    let b = Date::from_ymd_opt(2021, 1, 1).unwrap();
    let c = Date::from_ymd_opt(2021, 1, 2).unwrap();
    assert!(a.is_before(&b));
    assert!(b.is_before(&c));
    assert!(!b.is_before(&a));
    assert!(!a.is_before(&a));
    assert!(a.is_not_after(&a));
    assert!(a.is_not_after(&b));
    assert!(!c.is_not_after(&b));
    assert!(a.is_same(&a));
    assert!(!a.is_same(&b));
}

#[test]
fn date_sequence_lists_the_days_of_a_window() {
    let ymd = |y, m, d| Date::from_ymd_opt(y, m, d).unwrap();
    assert_eq!(
        date_sequence(ymd(2020, 2, 27), ymd(2020, 3, 2)),
        vec![ymd(2020, 2, 27), ymd(2020, 2, 28), ymd(2020, 2, 29), ymd(2020, 3, 1), ymd(2020, 3, 2)]
    );
    assert_eq!(date_sequence(ymd(2021, 12, 31), ymd(2021, 12, 31)), vec![ymd(2021, 12, 31)]);
    assert!(date_sequence(ymd(2021, 12, 31), ymd(2021, 12, 30)).is_empty());
    assert_eq!(date_sequence(ymd(2024, 1, 1), ymd(2024, 12, 31)).len(), 366);
    assert_eq!(date_sequence(ymd(2023, 1, 1), ymd(2023, 12, 31)).len(), 365);
    assert_eq!(
        date_sequence(ymd(262_142, 12, 30), ymd(262_142, 12, 31)),
        vec![ymd(262_142, 12, 30), ymd(262_142, 12, 31)]
    );
}
