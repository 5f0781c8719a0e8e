use tortoise::examples::simple_account;
use tortoise::examples::startup_tasks;
use tortoise::examples::two_account_scenario;
use tortoise::cash::Frequency;
use tortoise::date::Date;

/// Saves what `startup_tasks` asks for, as the program does when it starts.
fn run_startup(saved: &mut Vec<String>) {
    if let Some(account) = startup_tasks(saved) {
        saved.push(account.name.clone());
    }
}

#[test]
fn lib_test_startup_tasks() {
    let mut accounts: Vec<String> = vec![];
    run_startup(&mut accounts);
    assert!(accounts.contains(&"Example".to_string()));
}

#[test]
fn main_test_startup_tasks() {
    // a store that keeps its names in lower case
    let mut accounts: Vec<String> = vec![];
    if let Some(account) = startup_tasks(&accounts) {
        accounts.push(account.name.to_lowercase());
    }
    assert!(accounts.contains(&"example".to_string()));
}

#[test]
fn startup_saves_the_example_once() {
    let mut accounts: Vec<String> = vec!["Savings".to_string()];
    run_startup(&mut accounts);
    assert_eq!(accounts, vec!["Savings".to_string(), "Example".to_string()]);
    run_startup(&mut accounts);
    assert_eq!(accounts, vec!["Savings".to_string(), "Example".to_string()]);
    assert!(startup_tasks(&accounts).is_none());
}

#[test]
fn startup_goes_by_the_exact_name() {
    let accounts = vec!["example".to_string(), "Example ".to_string()];
    let account = startup_tasks(&accounts).unwrap();
    assert_eq!(account.name, "Example");
    assert_eq!(account.balance, 10_000);
}

#[test]
fn the_example_account_is_as_described() {
    let account = simple_account();
    assert_eq!(account.name, "Example");
    assert_eq!(account.balance, 10_000);
    assert_eq!(account.start_date, Date::from_ymd_opt(2024, 1, 1).unwrap());
    assert_eq!(account.end_date, Date::from_ymd_opt(2024, 12, 31).unwrap());
    assert!(account.is_valid());
    let names: Vec<Option<String>> = account.cash_flows.iter().map(|c| c.name.clone()).collect();
    assert_eq!(
        names,
        vec![
            Some("Income".to_string()),
            Some("Mortgage".to_string()),
            Some("Other Expenses".to_string()),
            Some("Vacation".to_string()),
        ]
    );
    let amounts: Vec<i64> = account.cash_flows.iter().map(|c| c.amount).collect();
    assert_eq!(amounts, vec![5000, -4000, -1000, -10_000]);
    let rates: Vec<u32> = account.cash_flows.iter().map(|c| c.tax_rate).collect();
    assert_eq!(rates, vec![200_000, 0, 0, 0]);
    assert_eq!(account.cash_flows[0].frequency, Frequency::SemiMonthly);
    assert_eq!(account.cash_flows[1].frequency, Frequency::MonthStart);
    assert_eq!(account.cash_flows[2].frequency, Frequency::MonthStart);
    assert_eq!(account.cash_flows[3].frequency, Frequency::Once);
    assert_eq!(account.cash_flows[3].start_date, Date::from_ymd_opt(2024, 11, 5));
    assert_eq!(account.cash_flows[0].tags, Some(vec!["Income".to_string()]));
    assert_eq!(account.cash_flows[1].tags, Some(vec!["Expenses".to_string()]));
    assert_eq!(account.cash_flows[2].tags, Some(vec!["Expenses".to_string()]));
    assert_eq!(account.cash_flows[3].tags, Some(vec!["Investment".to_string()]));
}

#[test]
fn the_example_scenario_is_as_described() {
    let scenario = two_account_scenario();
    assert_eq!(scenario.accounts.len(), 2);
    assert_eq!(scenario.accounts[0].account.name, "Example");
    assert_eq!(scenario.accounts[1].account.name, "Example");
    assert!(scenario.accounts[0].portfolio.is_none());
    assert!(scenario.accounts[1].portfolio.is_none());
    assert!(scenario.transfers.is_empty());
    assert_eq!(scenario.start_date, Date::from_ymd_opt(2024, 1, 1).unwrap());
    assert_eq!(scenario.end_date, Date::from_ymd_opt(2024, 12, 31).unwrap());
    assert_eq!(scenario.num_samples, 1);
}
