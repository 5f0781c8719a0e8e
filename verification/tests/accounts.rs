use tortoise::account::sum_amounts;
use tortoise::account::Account;
use tortoise::balance::get_account_balance_at;
use tortoise::balance::BalanceCache;
use tortoise::balance::BalanceError;
use tortoise::cash::CashFlow;
use tortoise::cash::Frequency;
use tortoise::date::Date;
use tortoise::examples::simple_account;

fn ymd(y: i32, m: u32, d: u32) -> Date {
    Date::from_ymd_opt(y, m, d).unwrap()
}

fn test_account() -> Account {
    Account::new(
        "Test Account".to_string(),
        0,
        vec![CashFlow::new(
            Some("Test Cash Flow".to_string()),
            100,
            Some(Frequency::MonthStart),
            None,
            None,
            None,
            None,
        )],
        Date::from_ymd_opt(2020, 1, 1).unwrap(),
        Date::from_ymd_opt(2020, 12, 31).unwrap(),
    )
}

#[test]
fn test_get_account_balance_at() {
    let account = Account::new(
        "Test Account".to_string(),
        0,
        vec![CashFlow::new(
            Some("Test Cash Flow".to_string()),
            100,
            Some(Frequency::MonthStart),
            None,
            None,
            None,
            None,
        )],
        Date::from_ymd_opt(2020, 1, 1).unwrap(),
        Date::from_ymd_opt(2020, 12, 31).unwrap(),
    );
    let balance =
        get_account_balance_at(account.clone(), Date::from_ymd_opt(2020, 1, 1).unwrap(), 1);
    assert_eq!(balance, Ok(vec![100]));
    let balance =
        get_account_balance_at(account.clone(), Date::from_ymd_opt(2020, 1, 2).unwrap(), 1);
    assert_eq!(balance, Ok(vec![100]));
    let balance =
        get_account_balance_at(account.clone(), Date::from_ymd_opt(2020, 1, 31).unwrap(), 1);
    assert_eq!(balance, Ok(vec![100]));
    let balance =
        get_account_balance_at(account.clone(), Date::from_ymd_opt(2020, 2, 1).unwrap(), 1);
    assert_eq!(balance, Ok(vec![200]));
    let balance =
        get_account_balance_at(account.clone(), Date::from_ymd_opt(2020, 2, 2).unwrap(), 1);
    assert_eq!(balance, Ok(vec![200]));
    let balance =
        get_account_balance_at(account.clone(), Date::from_ymd_opt(2020, 2, 29).unwrap(), 1);
    assert_eq!(balance, Ok(vec![200]));
    let balance =
        get_account_balance_at(account.clone(), Date::from_ymd_opt(2020, 3, 1).unwrap(), 1);
    assert_eq!(balance, Ok(vec![300]));
    let balance =
        get_account_balance_at(account.clone(), Date::from_ymd_opt(2020, 3, 2).unwrap(), 1);
    assert_eq!(balance, Ok(vec![300]));
    let balance =
        get_account_balance_at(account.clone(), Date::from_ymd_opt(2020, 3, 31).unwrap(), 1);
    assert_eq!(balance, Ok(vec![300]));
}

#[test]
fn balance_is_the_same_in_every_sample() {
    let balance = get_account_balance_at(test_account(), ymd(2020, 6, 30), 4);
    assert_eq!(balance, Ok(vec![600, 600, 600, 600]));
}

#[test]
fn balance_before_the_first_day_counts_that_day_alone() {
    let balance = get_account_balance_at(test_account(), ymd(2019, 12, 1), 1);
    assert_eq!(balance, Ok(vec![100]));
    let balance = get_account_balance_at(test_account(), ymd(2019, 12, 2), 1);
    assert_eq!(balance, Ok(vec![0]));
}

#[test]
fn balance_counts_the_withholding() {
    let account = simple_account();
    // 10 000 - 4 000 - 1 000 on the 1st
    assert_eq!(get_account_balance_at(account.clone(), ymd(2024, 1, 1), 1), Ok(vec![5000]));
    // + 5 000 - 1 000 on the 15th
    assert_eq!(get_account_balance_at(account.clone(), ymd(2024, 1, 15), 1), Ok(vec![9000]));
    // + 5 000 - 1 000 on the 31st
    assert_eq!(get_account_balance_at(account.clone(), ymd(2024, 1, 31), 1), Ok(vec![13000]));
    // the vacation on 2024-11-05
    let before = get_account_balance_at(account.clone(), ymd(2024, 11, 4), 1).unwrap();
    let after = get_account_balance_at(account.clone(), ymd(2024, 11, 5), 1).unwrap();
    assert_eq!(after[0] - before[0], -10_000);
}

#[test]
fn balance_rejects_no_samples() {
    assert_eq!(
        get_account_balance_at(test_account(), ymd(2020, 1, 1), 0),
        Err(BalanceError::NoSamples)
    );
    let mut cache = BalanceCache::new(test_account());
    assert_eq!(cache.balance_at(ymd(2020, 1, 1), 0), Err(BalanceError::NoSamples));
    assert_eq!(cache.days_computed(), 0);
}

#[test]
fn balance_reports_an_amount_too_large() {
    let account = Account::new(
        "Full".to_string(),
        i64::MAX - 150,
        vec![CashFlow::new(None, 100, Some(Frequency::MonthStart), None, None, None, None)],
        ymd(2020, 1, 1),
        ymd(2020, 12, 31),
    );
    assert_eq!(
        get_account_balance_at(account.clone(), ymd(2020, 1, 31), 1),
        Ok(vec![i64::MAX - 50])
    );
    assert_eq!(
        get_account_balance_at(account.clone(), ymd(2020, 2, 1), 1),
        Err(BalanceError::Overflow)
    );
    assert_eq!(
        get_account_balance_at(account.clone(), ymd(2020, 6, 1), 2),
        Err(BalanceError::Overflow)
    );
    assert_eq!(account.balance_at(ymd(2020, 1, 31)), Ok(i64::MAX - 50));
    assert_eq!(account.balance_at(ymd(2020, 2, 1)), Err(BalanceError::Overflow));
}

#[test]
fn cache_answers_a_repeated_query_without_new_work() {
    let mut cache = BalanceCache::new(test_account());
    assert_eq!(cache.days_computed(), 0);
    let first = cache.balance_at(ymd(2020, 3, 1), 3);
    let work = cache.days_computed();
    // one day of work for each day from 2020-01-01 to 2020-03-01
    assert_eq!(work, 31 + 29 + 1);
    let second = cache.balance_at(ymd(2020, 3, 1), 3);
    assert_eq!(first, Ok(vec![300, 300, 300]));
    assert_eq!(first, second);
    assert_eq!(cache.days_computed(), work);
}

#[test]
fn cache_answers_earlier_days_without_new_work() {
    let mut cache = BalanceCache::new(test_account());
    assert_eq!(cache.balance_at(ymd(2020, 3, 1), 1), Ok(vec![300]));
    let work = cache.days_computed();
    assert_eq!(cache.balance_at(ymd(2020, 1, 1), 1), Ok(vec![100]));
    assert_eq!(cache.balance_at(ymd(2020, 2, 10), 1), Ok(vec![200]));
    assert_eq!(cache.balance_at(ymd(2020, 2, 29), 5), Ok(vec![200; 5]));
    assert_eq!(cache.days_computed(), work);
    // a later day costs the days that are missing, and no more
    assert_eq!(cache.balance_at(ymd(2020, 3, 11), 1), Ok(vec![300]));
    assert_eq!(cache.days_computed(), work + 10);
}

#[test]
fn cache_agrees_with_a_cold_computation() {
    let mut cache = BalanceCache::new(simple_account());
    let mut d = ymd(2024, 1, 1);
    let end = ymd(2024, 4, 1);
    loop {
        let warm = cache.balance_at(d, 2);
        let cold = get_account_balance_at(simple_account(), d, 2);
        assert_eq!(warm, cold);
        assert_eq!(simple_account().balance_at(d), Ok(warm.unwrap()[0]));
        if d.is_same(&end) {
            break;
        }
        d = d.succ_opt().unwrap();
    }
}

#[test]
fn balance_at_adds_the_payments_since_the_first_day() {
    let account = test_account();
    assert_eq!(account.balance_at(ymd(2019, 6, 1)), Ok(0));
    assert_eq!(account.balance_at(ymd(2020, 1, 1)), Ok(100));
    assert_eq!(account.balance_at(ymd(2020, 3, 31)), Ok(300));
    assert_eq!(account.balance_at(ymd(2020, 12, 31)), Ok(1200));
    assert_eq!(account.balance_at(ymd(2021, 1, 1)), Ok(1300));
}

#[test]
fn flows_at_gives_each_amount_and_then_its_withholding() {
    let account = simple_account();
    let flows = account.flows_at(ymd(2024, 1, 15));
    assert_eq!(flows.len(), 2);
    assert_eq!(flows[0].amount, 5000);
    assert_eq!(flows[0].cash_flow.name, Some("Income".to_string()));
    assert_eq!(flows[1].amount, -1000);
    assert_eq!(flows[1].cash_flow.name, Some("Income Tax".to_string()));
    assert_eq!(flows[0].date, ymd(2024, 1, 15));
    assert_eq!(flows[1].date, ymd(2024, 1, 15));

    let flows = account.flows_at(ymd(2024, 2, 1));
    let names: Vec<Option<String>> = flows.iter().map(|p| p.cash_flow.name.clone()).collect();
    assert_eq!(names, vec![Some("Mortgage".to_string()), Some("Other Expenses".to_string())]);
    assert_eq!(sum_amounts(&flows), -5000);

    assert!(account.flows_at(ymd(2024, 2, 2)).is_empty());
    let flows = account.flows_at(ymd(2024, 11, 5));
    assert_eq!(flows.len(), 1);
    assert_eq!(flows[0].amount, -10_000);
}

#[test]
fn account_payments_come_in_the_order_of_the_days() {
    let account = simple_account();
    let payments = account.payments(ymd(2024, 1, 1), ymd(2024, 2, 15));
    let seen: Vec<(Date, i64)> = payments.iter().map(|p| (p.date, p.amount)).collect();
    assert_eq!(
        seen,
        vec![
            (ymd(2024, 1, 1), -4000),
            (ymd(2024, 1, 1), -1000),
            (ymd(2024, 1, 15), 5000),
            (ymd(2024, 1, 15), -1000),
            (ymd(2024, 1, 31), 5000),
            (ymd(2024, 1, 31), -1000),
            (ymd(2024, 2, 1), -4000),
            (ymd(2024, 2, 1), -1000),
            (ymd(2024, 2, 15), 5000),
            (ymd(2024, 2, 15), -1000),
        ]
    );
    assert!(account.payments(ymd(2024, 2, 15), ymd(2024, 1, 1)).is_empty());
}

#[test]
fn account_payments_hold_what_the_cash_flows_pay() {
    let account = simple_account();
    let from = ymd(2024, 1, 1);
    let to = ymd(2024, 12, 31);
    let all = account.payments(from, to);
    let mut count = 0;
    let mut sum: i64 = 0;
    for flow in &account.cash_flows {
        for p in flow.payments(from, to, false).iter().chain(flow.payments(from, to, true).iter()) {
            count += 1;
            sum += p.amount;
        }
    }
    assert_eq!(all.len(), count);
    assert_eq!(sum_amounts(&all), sum as i128);
    // 24 incomes with 24 withholdings, 12 + 12 expenses, 1 vacation
    assert_eq!(count, 24 + 24 + 12 + 12 + 1);
    assert_eq!(account.balance_at(to), Ok(10_000 + sum));
}

#[test]
fn account_default_is_empty() {
    let account = Account::default();
    assert_eq!(account.name, "Account");
    assert_eq!(account.balance, 0);
    assert!(account.cash_flows.is_empty());
    assert_eq!(account.start_date, ymd(2000, 1, 1));
    assert_eq!(account.end_date, ymd(2999, 12, 31));
    assert!(account.is_valid());
}

#[test]
fn add_cash_flow_appends() {
    let mut account = test_account();
    account.add_cash_flow(CashFlow::new(None, -30, Some(Frequency::MonthEnd), None, None, None, None));
    assert_eq!(account.cash_flows.len(), 2);
    assert_eq!(account.cash_flows[0].amount, 100);
    assert_eq!(account.cash_flows[1].amount, -30);
    assert_eq!(account.balance_at(ymd(2020, 1, 31)), Ok(70));
}

#[test]
fn account_validity_follows_its_cash_flows() {
    let mut account = test_account();
    assert!(account.is_valid());
    account.add_cash_flow(CashFlow::new(None, 1, Some(Frequency::Annually), None, None, None, None));
    assert!(!account.is_valid());
}

#[test]
fn cache_computes_no_day_twice() {
    let mut cache = BalanceCache::new(test_account());
    assert_eq!(cache.days_remembered(), 0);
    // a day before the first day is a day of its own
    assert_eq!(cache.balance_at(ymd(2019, 12, 1), 1), Ok(vec![100]));
    assert_eq!((cache.days_computed(), cache.days_remembered()), (1, 1));
    assert_eq!(cache.balance_at(ymd(2020, 1, 1), 1), Ok(vec![100]));
    assert_eq!((cache.days_computed(), cache.days_remembered()), (2, 2));
    assert_eq!(cache.balance_at(ymd(2020, 1, 3), 1), Ok(vec![100]));
    assert_eq!((cache.days_computed(), cache.days_remembered()), (4, 4));
    assert_eq!(cache.balance_at(ymd(2020, 1, 2), 1), Ok(vec![100]));
    assert_eq!(cache.balance_at(ymd(2019, 12, 1), 9), Ok(vec![100; 9]));
    assert_eq!((cache.days_computed(), cache.days_remembered()), (4, 4));
    assert_eq!(cache.balance_at(ymd(2020, 12, 31), 1), Ok(vec![1200]));
    assert_eq!(cache.days_computed(), 1 + 366);
    assert_eq!(cache.days_remembered(), 1 + 366);
}

#[test]
fn a_day_that_cannot_be_held_is_not_remembered() {
    let account = Account::new(
        "Full".to_string(),
        i64::MAX - 150,
        vec![CashFlow::new(None, 100, Some(Frequency::MonthStart), None, None, None, None)],
        ymd(2020, 1, 1),
        ymd(2020, 12, 31),
    );
    let mut cache = BalanceCache::new(account);
    assert_eq!(cache.balance_at(ymd(2020, 2, 5), 1), Err(BalanceError::Overflow));
    // the days of January are remembered, the first of February is not
    assert_eq!(cache.days_remembered(), 31);
    assert_eq!(cache.days_computed(), 32);
    assert_eq!(cache.balance_at(ymd(2020, 1, 31), 1), Ok(vec![i64::MAX - 50]));
    assert_eq!(cache.days_computed(), 32);
    assert_eq!(cache.balance_at(ymd(2020, 2, 1), 1), Err(BalanceError::Overflow));
    assert_eq!(cache.days_remembered(), 31);
    assert_eq!(cache.days_computed(), 33);
}
