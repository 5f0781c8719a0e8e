use std::hash::Hash;
use std::hash::Hasher;
use tortoise::account::Account;
use tortoise::cash::CashFlow;
use tortoise::cash::Frequency;
use tortoise::cash::Payment;
use tortoise::date::Date;

fn ymd(y: i32, m: u32, d: u32) -> Date {
    Date::from_ymd_opt(y, m, d).unwrap()
}

fn income() -> CashFlow {
    CashFlow::new(
        Some("Income".to_string()),
        5000,
        Some(Frequency::SemiMonthly),
        None,
        None,
        Some(200_000),
        Some(vec!["Income".to_string()]),
    )
}

#[test]
fn test_account_hash() {
    // test that the account hash is based on the name
    let account1 = Account::new(
        "Test Account".to_string(),
        0,
        vec![CashFlow::new(
            Some("Test Cash Flow".to_string()),
            100,
            Some(Frequency::MonthStart),
            None,
            None,
            None,
            None,
        )],
        Date::from_ymd_opt(2020, 1, 1).unwrap(),
        Date::from_ymd_opt(2020, 12, 31).unwrap(),
    );

    let account2 = Account::new(
        "Test Account 2".to_string(),
        0,
        vec![CashFlow::new(
            Some("Test Cash Flow".to_string()),
            100,
            Some(Frequency::MonthStart),
            None,
            None,
            None,
            None,
        )],
        Date::from_ymd_opt(2020, 1, 1).unwrap(),
        Date::from_ymd_opt(2020, 12, 31).unwrap(),
    );

    let mut hasher = std::collections::hash_map::DefaultHasher::new();
    account1.hash(&mut hasher);
    let hash1 = hasher.finish();

    let mut hasher = std::collections::hash_map::DefaultHasher::new();
    account2.hash(&mut hasher);
    let hash2 = hasher.finish();

    assert_ne!(hash1, hash2);
}

#[test]
fn account_hash_and_equality_go_by_the_name_alone() {
    let a = Account::new("Shared".to_string(), 0, vec![], ymd(2020, 1, 1), ymd(2020, 12, 31));
    let b = Account::new("Shared".to_string(), 500, vec![income()], ymd(2021, 1, 1), ymd(2021, 6, 30));
    let c = Account::new("Other".to_string(), 0, vec![], ymd(2020, 1, 1), ymd(2020, 12, 31));

    let mut hasher = std::collections::hash_map::DefaultHasher::new();
    a.hash(&mut hasher);
    let hash_a = hasher.finish();
    let mut hasher = std::collections::hash_map::DefaultHasher::new();
    b.hash(&mut hasher);
    let hash_b = hasher.finish();
    let mut hasher = std::collections::hash_map::DefaultHasher::new();
    "Shared".to_string().hash(&mut hasher);
    let hash_name = hasher.finish();

    assert_eq!(hash_a, hash_b);
    assert_eq!(hash_a, hash_name);
    assert!(a == b);
    assert!(a != c);
}

#[test]
fn cash_flow_new_fills_in_what_is_not_given() {
    let plain = CashFlow::new(None, 7, None, None, None, None, None);
    assert_eq!(plain.name, None);
    assert_eq!(plain.amount, 7);
    assert_eq!(plain.frequency, Frequency::Once);
    assert_eq!(plain.start_date, None);
    assert_eq!(plain.end_date, None);
    assert_eq!(plain.tax_rate, 0);
    assert_eq!(plain.tags, None);

    let full = CashFlow::new(
        Some("Rent".to_string()),
        -1200,
        Some(Frequency::MonthEnd),
        Some(ymd(2020, 1, 1)),
        Some(ymd(2020, 12, 31)),
        Some(250_000),
        Some(vec!["Home".to_string(), "Fixed".to_string()]),
    );
    assert_eq!(full.name, Some("Rent".to_string()));
    assert_eq!(full.amount, -1200);
    assert_eq!(full.frequency, Frequency::MonthEnd);
    assert_eq!(full.start_date, Some(ymd(2020, 1, 1)));
    assert_eq!(full.end_date, Some(ymd(2020, 12, 31)));
    assert_eq!(full.tax_rate, 250_000);
    assert_eq!(full.tags, Some(vec!["Home".to_string(), "Fixed".to_string()]));
}

#[test]
fn set_name_changes_the_name_alone() {
    let mut flow = income();
    flow.set_name("Salary".to_string());
    assert_eq!(flow.name, Some("Salary".to_string()));
    assert_eq!(flow.amount, 5000);
    assert_eq!(flow.frequency, Frequency::SemiMonthly);
    assert_eq!(flow.tax_rate, 200_000);
    assert_eq!(flow.tags, Some(vec!["Income".to_string()]));
}

#[test]
fn payment_new_keeps_its_parts() {
    let p = Payment::new(ymd(2024, 1, 15), -42, income());
    assert_eq!(p.date, ymd(2024, 1, 15));
    assert_eq!(p.amount, -42);
    assert_eq!(p.cash_flow.name, Some("Income".to_string()));
}

#[test]
fn cash_flow_validity() {
    assert!(income().is_valid());
    assert!(CashFlow::new(None, 1, None, None, None, None, None).is_valid());
    // a rate above 1
    assert!(!CashFlow::new(Some("x".to_string()), 1, None, None, None, Some(1_000_001), None)
        .is_valid());
    assert!(CashFlow::new(Some("x".to_string()), 1, None, None, None, Some(1_000_000), None)
        .is_valid());
    // yearly without a start date
    assert!(!CashFlow::new(None, 1, Some(Frequency::Annually), None, None, None, None).is_valid());
    assert!(CashFlow::new(None, 1, Some(Frequency::Annually), Some(ymd(2020, 1, 1)), None, None, None)
        .is_valid());
    // taxed without a name
    assert!(!CashFlow::new(None, 1, None, None, None, Some(10), None).is_valid());
    // an amount that cannot be negated
    assert!(!CashFlow::new(None, i64::MIN, None, None, None, None, None).is_valid());
}

#[test]
fn payments_walk_the_window_in_order() {
    let flow = income();
    let payments = flow.payments(ymd(2024, 1, 1), ymd(2024, 3, 31), false);
    let dates: Vec<Date> = payments.iter().map(|p| p.date).collect();
    assert_eq!(
        dates,
        vec![
            ymd(2024, 1, 15),
            ymd(2024, 1, 31),
            ymd(2024, 2, 15),
            ymd(2024, 2, 28),
            ymd(2024, 3, 15),
            ymd(2024, 3, 31),
        ]
    );
    for p in &payments {
        assert_eq!(p.amount, 5000);
        assert_eq!(p.cash_flow.name, Some("Income".to_string()));
        assert_eq!(p.cash_flow.amount, 5000);
        assert_eq!(p.cash_flow.tax_rate, 200_000);
        assert_eq!(p.cash_flow.tags, Some(vec!["Income".to_string()]));
    }
}

#[test]
fn payments_include_both_ends_of_the_window() {
    let flow = CashFlow::new(None, 10, Some(Frequency::MonthStart), None, None, None, None);
    assert_eq!(flow.payments(ymd(2024, 2, 1), ymd(2024, 3, 1), false).len(), 2);
    assert_eq!(flow.payments(ymd(2024, 2, 1), ymd(2024, 2, 1), false).len(), 1);
    assert_eq!(flow.payments(ymd(2024, 2, 2), ymd(2024, 2, 29), false).len(), 0);
}

#[test]
fn payments_of_an_empty_window_are_none() {
    let flow = CashFlow::new(None, 10, Some(Frequency::MonthStart), None, None, None, None);
    assert_eq!(flow.payments(ymd(2024, 3, 1), ymd(2024, 2, 1), false).len(), 0);
}

#[test]
fn payments_respect_the_bounds_of_the_cash_flow() {
    let flow = CashFlow::new(
        None,
        10,
        Some(Frequency::MonthStart),
        Some(ymd(2024, 3, 1)),
        Some(ymd(2024, 4, 15)),
        None,
        None,
    );
    let payments = flow.payments(ymd(2024, 1, 1), ymd(2024, 12, 31), false);
    let dates: Vec<Date> = payments.iter().map(|p| p.date).collect();
    assert_eq!(dates, vec![ymd(2024, 3, 1), ymd(2024, 4, 1)]);
}

#[test]
fn tax_payments_withhold_the_rate_under_the_tax_name() {
    let flow = income();
    let taxes = flow.payments(ymd(2024, 1, 1), ymd(2024, 1, 31), true);
    assert_eq!(taxes.len(), 2);
    assert_eq!(taxes[0].date, ymd(2024, 1, 15));
    assert_eq!(taxes[1].date, ymd(2024, 1, 31));
    for t in &taxes {
        assert_eq!(t.amount, -1000);
        assert_eq!(t.cash_flow.name, Some("Income Tax".to_string()));
        assert_eq!(t.cash_flow.amount, 5000);
        assert_eq!(t.cash_flow.tax_rate, 200_000);
    }
    // the cash flow itself keeps its name
    assert_eq!(flow.name, Some("Income".to_string()));
}

#[test]
fn tax_is_rounded_towards_zero() {
    let gain = CashFlow::new(
        Some("g".to_string()),
        7,
        Some(Frequency::MonthStart),
        None,
        None,
        Some(500_000),
        None,
    );
    assert_eq!(gain.payments(ymd(2024, 1, 1), ymd(2024, 1, 1), true)[0].amount, -3);
    let loss = CashFlow::new(
        Some("l".to_string()),
        -7,
        Some(Frequency::MonthStart),
        None,
        None,
        Some(500_000),
        None,
    );
    assert_eq!(loss.payments(ymd(2024, 1, 1), ymd(2024, 1, 1), true)[0].amount, 3);
    let whole = CashFlow::new(
        Some("w".to_string()),
        -250,
        Some(Frequency::MonthStart),
        None,
        None,
        Some(1_000_000),
        None,
    );
    assert_eq!(whole.payments(ymd(2024, 1, 1), ymd(2024, 1, 1), true)[0].amount, 250);
}

#[test]
fn tax_suppression() {
    let flow = CashFlow::new(
        Some("Mortgage".to_string()),
        -4000,
        Some(Frequency::MonthStart),
        None,
        None,
        Some(0),
        None,
    );
    assert!(flow.payments(ymd(2024, 1, 1), ymd(2024, 12, 31), true).is_empty());
    assert!(flow.payments(ymd(2024, 1, 1), ymd(2024, 1, 1), true).is_empty());
    assert!(flow.payments(ymd(1999, 1, 1), ymd(2001, 1, 1), true).is_empty());
    assert_eq!(flow.payments(ymd(2024, 1, 1), ymd(2024, 12, 31), false).len(), 12);
    let unnamed = CashFlow::new(None, 5, Some(Frequency::MonthEnd), None, None, None, None);
    assert!(unnamed.payments(ymd(2024, 1, 1), ymd(2024, 12, 31), true).is_empty());
}

#[test]
fn amounts_are_paid_whatever_the_withholding_is() {
    // no name for the withholding, and the amounts are paid all the same
    let unnamed =
        CashFlow::new(None, 10, Some(Frequency::MonthStart), None, None, Some(100_000), None);
    assert!(!unnamed.is_valid());
    let payments = unnamed.payments(ymd(2024, 1, 1), ymd(2024, 3, 1), false);
    assert_eq!(payments.len(), 3);
    assert_eq!(payments[2].amount, 10);
    assert_eq!(payments[2].cash_flow.name, None);
}

#[test]
fn copies_hold_the_same() {
    let flow = income();
    let copy = flow.clone();
    assert_eq!(copy.name, flow.name);
    assert_eq!(copy.amount, flow.amount);
    assert_eq!(copy.frequency, flow.frequency);
    assert_eq!(copy.start_date, flow.start_date);
    assert_eq!(copy.end_date, flow.end_date);
    assert_eq!(copy.tax_rate, flow.tax_rate);
    assert_eq!(copy.tags, flow.tags);
    let payment = Payment::new(ymd(2024, 1, 15), 5000, flow);
    let copy = payment.clone();
    assert_eq!(copy.date, payment.date);
    assert_eq!(copy.amount, payment.amount);
    assert_eq!(copy.cash_flow.name, payment.cash_flow.name);
}
