//! A ready-made account and scenario, and what is done with them when the
//! program starts.

use crate::account::cash_flow_views;
use crate::account::Account;
use crate::account::AccountView;
use crate::cash::texts;
use crate::cash::CashFlow;
use crate::cash::CashFlowView;
use crate::cash::Frequency;
use crate::date::CalendarDay;
use crate::date::Date;
use crate::scenario::invested_account_views;
use crate::scenario::InvestedAccount;
use crate::scenario::InvestedAccountView;
use crate::scenario::Scenario;
use vstd::prelude::*;

verus! {

/// The name of a cash flow or a tag, as an owned string.
fn text(s: &str) -> (r: String)
    ensures
        r@ == s@,
{
    s.to_string()
}

/// One tag.
fn one_tag(s: &str) -> (r: Option<Vec<String>>)
    ensures
        r is Some,
        r->Some_0@.len() == 1,
        r->Some_0@[0]@ == s@,
{
    let mut tags: Vec<String> = Vec::new();
    tags.push(text(s));
    Some(tags)
}

/// A cash flow of the example account: without bounds but for an
/// optional start date, and with one tag.
pub open spec fn example_flow(
    name: Seq<char>,
    amount: int,
    frequency: Frequency,
    start_date: Option<CalendarDay>,
    tax_rate: int,
    tag: Seq<char>,
) -> CashFlowView {
    CashFlowView {
        name: Some(name),
        amount,
        frequency,
        start_date,
        end_date: None,
        tax_rate,
        tags: Some(seq![tag]),
    }
}

/// The account "Example": 10 000 to begin with; an income of 5 000 twice a
/// month, of which a fifth is withheld; a mortgage of 4 000 and other
/// expenses of 1 000 at the start of each month; and a vacation of 10 000
/// on 2024-11-05. It runs over the year 2024.
pub open spec fn example_account() -> AccountView {
    AccountView {
        name: "Example"@,
        balance: 10_000,
        cash_flows: seq![
            example_flow("Income"@, 5000, Frequency::SemiMonthly, None, 200_000, "Income"@),
            example_flow("Mortgage"@, -4000, Frequency::MonthStart, None, 0, "Expenses"@),
            example_flow("Other Expenses"@, -1000, Frequency::MonthStart, None, 0, "Expenses"@),
            example_flow(
                "Vacation"@,
                -10_000,
                Frequency::Once,
                Some(CalendarDay { year: 2024, month: 11, day: 5 }),
                0,
                "Investment"@,
            ),
        ],
        start_date: CalendarDay { year: 2024, month: 1, day: 1 },
        end_date: CalendarDay { year: 2024, month: 12, day: 31 },
    }
}

/// A cash flow of the example account; see [`example_flow`].
fn flow(
    name: &str,
    amount: i64,
    frequency: Frequency,
    start_date: Option<Date>,
    tax_rate: u32,
    tag: &str,
) -> (r: CashFlow)
    ensures
        r@ == example_flow(
            name@,
            amount as int,
            frequency,
            crate::cash::day_of(start_date),
            tax_rate as int,
            tag@,
        ),
{
    let tags: Option<Vec<String>> = one_tag(tag);
    proof {
        assert(texts(tags->Some_0@) =~= seq![tag@]);
    }
    CashFlow::new(Some(text(name)), amount, Some(frequency), start_date, None, Some(tax_rate), tags)
}

/// The account "Example"; see [`example_account`].
pub fn simple_account() -> (r: Account)
    ensures
        r@ == example_account(),
        r@.is_valid(),
{
    let mut cash_flows: Vec<CashFlow> = Vec::new();
    cash_flows.push(flow("Income", 5000, Frequency::SemiMonthly, None, 200_000, "Income"));
    cash_flows.push(flow("Mortgage", -4000, Frequency::MonthStart, None, 0, "Expenses"));
    cash_flows.push(flow("Other Expenses", -1000, Frequency::MonthStart, None, 0, "Expenses"));
    cash_flows.push(
        flow("Vacation", -10_000, Frequency::Once, Date::from_ymd_opt(2024, 11, 5), 0, "Investment"),
    );
    let start: Option<Date> = Date::from_ymd_opt(2024, 1, 1);
    let end: Option<Date> = Date::from_ymd_opt(2024, 12, 31);
    proof {
        assert(cash_flow_views(cash_flows@) =~= example_account().cash_flows);
    }
    Account::new(text("Example"), 10_000, cash_flows, start.unwrap(), end.unwrap())
}

/// Two accounts like [`simple_account`], neither of them invested, over
/// the year 2024 in one sample.
pub fn two_account_scenario() -> (r: Scenario)
    ensures
        invested_account_views(r.accounts@) == seq![
            InvestedAccountView { account: example_account(), portfolio: None },
            InvestedAccountView { account: example_account(), portfolio: None },
        ],
        r.transfers@.len() == 0,
        r.start_date@ == (CalendarDay { year: 2024, month: 1, day: 1 }),
        r.end_date@ == (CalendarDay { year: 2024, month: 12, day: 31 }),
        r.num_samples == 1,
{
    let mut accounts: Vec<InvestedAccount> = Vec::new();
    accounts.push(InvestedAccount { account: simple_account(), portfolio: None });
    accounts.push(InvestedAccount { account: simple_account(), portfolio: None });
    let start: Option<Date> = Date::from_ymd_opt(2024, 1, 1);
    let end: Option<Date> = Date::from_ymd_opt(2024, 12, 31);
    proof {
        assert(invested_account_views(accounts@) =~= seq![
            InvestedAccountView { account: example_account(), portfolio: None },
            InvestedAccountView { account: example_account(), portfolio: None },
        ]);
    }
    Scenario {
        accounts,
        transfers: Vec::new(),
        start_date: start.unwrap(),
        end_date: end.unwrap(),
        num_samples: 1,
    }
}

/// Whether one of `names` is `wanted`.
pub open spec fn has_name(names: Seq<String>, wanted: Seq<char>) -> bool {
    exists|i: int| 0 <= i < names.len() && (#[trigger] names[i])@ == wanted
}

/// What is to be saved when the program starts, given the names of the
/// accounts that are saved already: the account [`simple_account`] unless
/// an account named "Example" is among them.
pub fn startup_tasks(saved: &Vec<String>) -> (r: Option<Account>)
    ensures
        has_name(saved@, "Example"@) <==> r is None,
        r is Some ==> r->Some_0@ == example_account() && r->Some_0@.is_valid(),
{
    let wanted: String = text("Example");
    let mut i: usize = 0;
    while i < saved.len()
        invariant
            i <= saved.len(),
            wanted@ == "Example"@,
            forall|k: int| 0 <= k < i ==> (#[trigger] saved@[k])@ != wanted@,
        decreases saved.len() - i,
    {
        if saved[i] == wanted {
            return None;
        }
        i = i + 1;
    }
    Some(simple_account())
}

} // verus!
