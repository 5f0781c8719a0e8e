use tortoise::cash::Frequency;
use tortoise::cash::Ratio;
use tortoise::date::Date;

fn ymd(y: i32, m: u32, d: u32) -> Date {
    Date::from_ymd_opt(y, m, d).unwrap()
}

#[test]
fn month_start_matches_first_of_month() {
    for year in [1900, 2019, 2020, 2021, 2024] {
        for month in 1..=12 {
            assert!(Frequency::MonthStart.matches(&ymd(year, month, 1), &None, &None));
            assert!(!Frequency::MonthStart.matches(&ymd(year, month, 2), &None, &None));
            assert!(!Frequency::MonthStart.matches(&ymd(year, month, 15), &None, &None));
            assert!(!Frequency::MonthStart.matches(&ymd(year, month, 28), &None, &None));
        }
    }
    assert!(!Frequency::MonthStart.matches(&ymd(2020, 2, 29), &None, &None));
}

#[test]
fn month_end_ignores_leap_day() {
    assert!(!Frequency::MonthEnd.matches(&ymd(2020, 2, 29), &None, &None));
    assert!(Frequency::MonthEnd.matches(&ymd(2020, 2, 28), &None, &None));
}

#[test]
fn month_end_matches_the_fixed_month_lengths() {
    let lengths = [31, 28, 31, 30, 31, 30, 31, 31, 30, 31, 30, 31];
    for month in 1..=12u32 {
        let last = lengths[(month - 1) as usize];
        assert!(Frequency::MonthEnd.matches(&ymd(2021, month, last), &None, &None));
        assert!(!Frequency::MonthEnd.matches(&ymd(2021, month, last - 1), &None, &None));
        assert!(!Frequency::MonthEnd.matches(&ymd(2021, month, 1), &None, &None));
    }
}

#[test]
fn semi_monthly_matches_the_15th_and_the_month_end() {
    assert!(Frequency::SemiMonthly.matches(&ymd(2024, 1, 15), &None, &None));
    assert!(Frequency::SemiMonthly.matches(&ymd(2024, 1, 31), &None, &None));
    assert!(Frequency::SemiMonthly.matches(&ymd(2024, 2, 28), &None, &None));
    assert!(!Frequency::SemiMonthly.matches(&ymd(2024, 2, 29), &None, &None));
    assert!(!Frequency::SemiMonthly.matches(&ymd(2024, 1, 1), &None, &None));
    assert!(!Frequency::SemiMonthly.matches(&ymd(2024, 1, 14), &None, &None));
    assert!(!Frequency::SemiMonthly.matches(&ymd(2024, 4, 31 - 1 - 1), &None, &None));
    assert!(Frequency::SemiMonthly.matches(&ymd(2024, 4, 30), &None, &None));
}

#[test]
fn once_matches_its_start_date_alone() {
    let start = Some(ymd(2024, 11, 5));
    assert!(Frequency::Once.matches(&ymd(2024, 11, 5), &start, &None));
    assert!(!Frequency::Once.matches(&ymd(2024, 11, 4), &start, &None));
    assert!(!Frequency::Once.matches(&ymd(2024, 11, 6), &start, &None));
    assert!(!Frequency::Once.matches(&ymd(2025, 11, 5), &start, &None));
}

#[test]
fn once_without_start_never_matches() {
    assert!(!Frequency::Once.matches(&ymd(2024, 11, 5), &None, &None));
    assert!(!Frequency::Once.matches(&ymd(2024, 1, 1), &None, &Some(ymd(2024, 12, 31))));
}

#[test]
fn once_is_cut_off_by_an_end_before_its_start() {
    let start = Some(ymd(2024, 11, 5));
    let end = Some(ymd(2024, 11, 4));
    assert!(!Frequency::Once.matches(&ymd(2024, 11, 5), &start, &end));
}

#[test]
fn annually_matches_month_and_day_of_the_start() {
    let start = Some(ymd(2020, 3, 10));
    assert!(Frequency::Annually.matches(&ymd(2020, 3, 10), &start, &None));
    assert!(Frequency::Annually.matches(&ymd(2021, 3, 10), &start, &None));
    assert!(Frequency::Annually.matches(&ymd(2035, 3, 10), &start, &None));
    assert!(!Frequency::Annually.matches(&ymd(2021, 3, 11), &start, &None));
    assert!(!Frequency::Annually.matches(&ymd(2021, 4, 10), &start, &None));
    assert!(!Frequency::Annually.matches(&ymd(2019, 3, 10), &start, &None));
}

#[test]
fn annually_from_a_leap_day_matches_leap_years_only() {
    let start = Some(ymd(2020, 2, 29));
    assert!(Frequency::Annually.matches(&ymd(2024, 2, 29), &start, &None));
    assert!(!Frequency::Annually.matches(&ymd(2021, 2, 28), &start, &None));
    assert!(!Frequency::Annually.matches(&ymd(2021, 3, 1), &start, &None));
}

#[test]
fn bounds_are_inclusive_and_reject_days_outside() {
    let start = Some(ymd(2020, 3, 1));
    let end = Some(ymd(2020, 5, 1));
    assert!(!Frequency::MonthStart.matches(&ymd(2020, 2, 1), &start, &end));
    assert!(Frequency::MonthStart.matches(&ymd(2020, 3, 1), &start, &end));
    assert!(Frequency::MonthStart.matches(&ymd(2020, 4, 1), &start, &end));
    assert!(Frequency::MonthStart.matches(&ymd(2020, 5, 1), &start, &end));
    assert!(!Frequency::MonthStart.matches(&ymd(2020, 6, 1), &start, &end));
    assert!(!Frequency::MonthStart.matches(&ymd(2020, 6, 1), &None, &end));
    assert!(Frequency::MonthStart.matches(&ymd(2019, 6, 1), &None, &end));
    assert!(Frequency::MonthStart.matches(&ymd(2030, 6, 1), &start, &None));
}

#[test]
fn fraction_is_the_part_of_a_year() {
    assert_eq!(Frequency::Once.fraction(), Ratio { numerator: 1, denominator: 1 });
    assert_eq!(Frequency::Annually.fraction(), Ratio { numerator: 1, denominator: 1 });
    assert_eq!(Frequency::MonthStart.fraction(), Ratio { numerator: 1, denominator: 12 });
    assert_eq!(Frequency::MonthEnd.fraction(), Ratio { numerator: 1, denominator: 12 });
    assert_eq!(Frequency::SemiMonthly.fraction(), Ratio { numerator: 1, denominator: 24 });
}
