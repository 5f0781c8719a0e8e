//! Scenarios and results: what a simulation is given and what it gives
//! back.

use crate::account::Account;
use crate::account::AccountView;
use crate::cash::payment_views;
use crate::cash::Frequency;
use crate::cash::Payment;
use crate::cash::PaymentView;
use crate::date::CalendarDay;
use crate::date::Date;
use crate::portfolio::Portfolio;
use crate::portfolio::PortfolioView;
use vstd::prelude::*;

verus! {

/// An account with the portfolio that it is invested in, if any.
#[derive(Debug)]
pub struct InvestedAccount {
    pub account: Account,
    pub portfolio: Option<Portfolio>,
}

/// An amount that moves from one account to another on the days of a
/// frequency. A transfer is part of a scenario and changes no balance.
#[derive(Debug)]
pub struct Transfer {
    pub from: String,
    pub to: String,
    pub frequency: Frequency,
    pub start_date: Option<Date>,
    pub end_date: Option<Date>,
    pub amount: i64,
}

/// What is simulated: accounts, over a window of days, in a number of
/// samples.
#[derive(Debug)]
pub struct Scenario {
    pub accounts: Vec<InvestedAccount>,
    pub transfers: Vec<Transfer>,
    pub start_date: Date,
    pub end_date: Date,
    pub num_samples: usize,
}

/// The balance of an account on a day: the mean over the samples.
#[derive(Debug)]
pub struct AccountBalance {
    pub date: Date,
    pub account_name: String,
    pub balance: i64,
}

/// What a simulation gives for one account name.
#[derive(Debug)]
pub struct SimulationResult {
    /// Day by day the balance with the growth of the portfolio.
    pub balances: Vec<AccountBalance>,
    /// Day by day the balance that the cash flows alone give.
    pub uninvested_balances: Vec<AccountBalance>,
    /// The payments that were made.
    pub payments: Vec<Payment>,
}

/// What an invested account holds, as mathematical values.
pub struct InvestedAccountView {
    pub account: AccountView,
    pub portfolio: Option<PortfolioView>,
}

/// What a recorded balance holds, as mathematical values.
pub struct AccountBalanceView {
    pub date: CalendarDay,
    pub account_name: Seq<char>,
    pub balance: int,
}

/// What a result holds, as mathematical values.
pub struct SimulationResultView {
    pub balances: Seq<AccountBalanceView>,
    pub uninvested_balances: Seq<AccountBalanceView>,
    pub payments: Seq<PaymentView>,
}

impl View for InvestedAccount {
    type V = InvestedAccountView;

    open spec fn view(&self) -> InvestedAccountView {
        InvestedAccountView {
            account: self.account@,
            portfolio: match self.portfolio {
                Some(p) => Some(p@),
                None => None,
            },
        }
    }
}

impl View for AccountBalance {
    type V = AccountBalanceView;

    open spec fn view(&self) -> AccountBalanceView {
        AccountBalanceView {
            date: self.date@,
            account_name: self.account_name@,
            balance: self.balance as int,
        }
    }
}

/// The models of a list of recorded balances.
pub open spec fn balance_views(v: Seq<AccountBalance>) -> Seq<AccountBalanceView> {
    v.map_values(|b: AccountBalance| b@)
}

impl View for SimulationResult {
    type V = SimulationResultView;

    open spec fn view(&self) -> SimulationResultView {
        SimulationResultView {
            balances: balance_views(self.balances@),
            uninvested_balances: balance_views(self.uninvested_balances@),
            payments: payment_views(self.payments@),
        }
    }
}

/// The models of a list of invested accounts.
pub open spec fn invested_account_views(v: Seq<InvestedAccount>) -> Seq<InvestedAccountView> {
    v.map_values(|a: InvestedAccount| a@)
}

/// The model of an optional portfolio.
pub open spec fn portfolio_of(p: Option<Portfolio>) -> Option<PortfolioView> {
    match p {
        Some(portfolio) => Some(portfolio@),
        None => None,
    }
}

/// The models of a list of recorded balances that grew by one.
pub proof fn lemma_balance_views_push(v: Seq<AccountBalance>, b: AccountBalance)
    ensures
        balance_views(v.push(b)) == balance_views(v).push(b@),
{
    assert(balance_views(v.push(b)) =~= balance_views(v).push(b@));
}

impl Scenario {
    /// A scenario of the given accounts, none of them invested, without
    /// transfers.
    pub fn from_accounts(
        accounts: Vec<Account>,
        start_date: Date,
        end_date: Date,
        num_samples: usize,
    ) -> (r: Scenario)
        ensures
            r.accounts@.len() == accounts@.len(),
            forall|i: int|
                0 <= i < accounts@.len() ==> (#[trigger] r.accounts@[i])@ == (InvestedAccountView {
                    account: accounts@[i]@,
                    portfolio: None,
                }),
            r.transfers@.len() == 0,
            r.start_date == start_date,
            r.end_date == end_date,
            r.num_samples == num_samples,
    {
        let mut invested_accounts: Vec<InvestedAccount> = Vec::new();
        let mut i: usize = 0;
        while i < accounts.len()
            invariant
                i <= accounts.len(),
                invested_accounts@.len() == i,
                forall|k: int|
                    0 <= k < i ==> (#[trigger] invested_accounts@[k])@ == (InvestedAccountView {
                        account: accounts@[k]@,
                        portfolio: None,
                    }),
            decreases accounts.len() - i,
        {
            invested_accounts.push(
                InvestedAccount { account: accounts[i].clone(), portfolio: None },
            );
            i = i + 1;
        }
        Scenario {
            accounts: invested_accounts,
            start_date,
            end_date,
            transfers: Vec::new(),
            num_samples,
        }
    }
}

impl AccountBalance {
    /// The balance of the account `account_name` on `date`.
    pub fn new(date: Date, account_name: String, balance: i64) -> (r: AccountBalance)
        ensures
            r.date == date,
            r.account_name == account_name,
            r.balance == balance,
    {
        AccountBalance { date, account_name, balance }
    }
}

impl SimulationResult {
    /// A result of the given parts; a part that is not given is empty.
    pub fn new(
        balances: Option<Vec<AccountBalance>>,
        uninvested_balances: Option<Vec<AccountBalance>>,
        payments: Option<Vec<Payment>>,
    ) -> (r: SimulationResult)
        ensures
            r.balances@ == (match balances {
                Some(b) => b@,
                None => Seq::empty(),
            }),
            r.uninvested_balances@ == (match uninvested_balances {
                Some(u) => u@,
                None => Seq::empty(),
            }),
            r.payments@ == (match payments {
                Some(p) => p@,
                None => Seq::empty(),
            }),
    {
        let b: Vec<AccountBalance> = match balances {
            Some(b) => b,
            None => Vec::new(),
        };
        let u: Vec<AccountBalance> = match uninvested_balances {
            Some(u) => u,
            None => Vec::new(),
        };
        let p: Vec<Payment> = match payments {
            Some(p) => p,
            None => Vec::new(),
        };
        SimulationResult { balances: b, uninvested_balances: u, payments: p }
    }
}

/// Whether `window` is the window that `accounts` span: from the
/// earliest of their first days to the latest of their last days.
pub open spec fn spans(accounts: Seq<Account>, window: (Date, Date)) -> bool {
    &&& exists|i: int| 0 <= i < accounts.len() && (#[trigger] accounts[i]).start_date@ == window.0@
    &&& exists|i: int| 0 <= i < accounts.len() && (#[trigger] accounts[i]).end_date@ == window.1@
    &&& forall|i: int|
        0 <= i < accounts.len() ==> window.0@.not_after((#[trigger] accounts[i]).start_date@)
    &&& forall|i: int|
        0 <= i < accounts.len() ==> (#[trigger] accounts[i]).end_date@.not_after(window.1@)
}

/// The window that the accounts span: from the earliest of their first
/// days to the latest of their last days. Without accounts there is none.
pub fn window_of(accounts: &Vec<Account>) -> (r: Option<(Date, Date)>)
    ensures
        r is None <==> accounts@.len() == 0,
        r is Some ==> spans(accounts@, r->Some_0),
{
    if accounts.len() == 0 {
        return None;
    }
    let mut start: Date = accounts[0].start_date;
    let mut end: Date = accounts[0].end_date;
    let mut i: usize = 1;
    while i < accounts.len()
        invariant
            1 <= i <= accounts.len(),
            exists|k: int| 0 <= k < i && (#[trigger] accounts@[k]).start_date@ == start@,
            exists|k: int| 0 <= k < i && (#[trigger] accounts@[k]).end_date@ == end@,
            forall|k: int| 0 <= k < i ==> start@.not_after((#[trigger] accounts@[k]).start_date@),
            forall|k: int| 0 <= k < i ==> (#[trigger] accounts@[k]).end_date@.not_after(end@),
        decreases accounts.len() - i,
    {
        if accounts[i].start_date.is_before(&start) {
            start = accounts[i].start_date;
        }
        if end.is_before(&accounts[i].end_date) {
            end = accounts[i].end_date;
        }
        i = i + 1;
    }
    Some((start, end))
}

impl Clone for InvestedAccount {
    fn clone(&self) -> (r: InvestedAccount)
        ensures
            r@ == self@,
    {
        InvestedAccount {
            account: self.account.clone(),
            portfolio: match &self.portfolio {
                Some(p) => Some(p.clone()),
                None => None,
            },
        }
    }
}

impl Clone for Transfer {
    fn clone(&self) -> (r: Transfer)
        ensures
            r == *self,
    {
        Transfer {
            from: self.from.clone(),
            to: self.to.clone(),
            frequency: self.frequency,
            start_date: self.start_date,
            end_date: self.end_date,
            amount: self.amount,
        }
    }
}

impl Clone for AccountBalance {
    fn clone(&self) -> (r: AccountBalance)
        ensures
            r == *self,
    {
        AccountBalance {
            date: self.date,
            account_name: self.account_name.clone(),
            balance: self.balance,
        }
    }
}

/// A copy of a list of recorded balances.
fn copy_balances(v: &Vec<AccountBalance>) -> (r: Vec<AccountBalance>)
    ensures
        r@ == v@,
{
    let mut out: Vec<AccountBalance> = Vec::new();
    let mut i: usize = 0;
    while i < v.len()
        invariant
            i <= v.len(),
            out@ == v@.subrange(0, i as int),
        decreases v.len() - i,
    {
        out.push(v[i].clone());
        proof {
            assert(out@ =~= v@.subrange(0, i + 1));
        }
        i = i + 1;
    }
    proof {
        assert(v@.subrange(0, v.len() as int) =~= v@);
    }
    out
}

impl Clone for SimulationResult {
    fn clone(&self) -> (r: SimulationResult)
        ensures
            r@ == self@,
    {
        let mut payments: Vec<Payment> = Vec::new();
        let mut i: usize = 0;
        while i < self.payments.len()
            invariant
                i <= self.payments.len(),
                payment_views(payments@) == self@.payments.subrange(0, i as int),
            decreases self.payments.len() - i,
        {
            let copy: Payment = self.payments[i].clone();
            proof {
                crate::cash::lemma_payment_views_push(payments@, copy);
            }
            payments.push(copy);
            proof {
                assert(payment_views(payments@) =~= self@.payments.subrange(0, i + 1));
            }
            i = i + 1;
        }
        proof {
            assert(self@.payments.subrange(0, self.payments.len() as int) =~= self@.payments);
        }
        SimulationResult {
            balances: copy_balances(&self.balances),
            uninvested_balances: copy_balances(&self.uninvested_balances),
            payments,
        }
    }
}

impl Clone for Scenario {
    fn clone(&self) -> (r: Scenario)
        ensures
            invested_account_views(r.accounts@) == invested_account_views(self.accounts@),
            r.transfers@ == self.transfers@,
            r.start_date == self.start_date,
            r.end_date == self.end_date,
            r.num_samples == self.num_samples,
    {
        let ghost model = invested_account_views(self.accounts@);
        let mut accounts: Vec<InvestedAccount> = Vec::new();
        let mut i: usize = 0;
        while i < self.accounts.len()
            invariant
                i <= self.accounts.len(),
                model == invested_account_views(self.accounts@),
                invested_account_views(accounts@) == model.subrange(0, i as int),
            decreases self.accounts.len() - i,
        {
            let ghost before = accounts@;
            let copy: InvestedAccount = self.accounts[i].clone();
            accounts.push(copy);
            proof {
                assert(invested_account_views(before.push(copy)) =~= invested_account_views(
                    before,
                ).push(copy@));
                assert(invested_account_views(accounts@) =~= model.subrange(0, i + 1));
            }
            i = i + 1;
        }
        let mut transfers: Vec<Transfer> = Vec::new();
        let mut k: usize = 0;
        while k < self.transfers.len()
            invariant
                k <= self.transfers.len(),
                transfers@ == self.transfers@.subrange(0, k as int),
            decreases self.transfers.len() - k,
        {
            transfers.push(self.transfers[k].clone());
            proof {
                assert(transfers@ =~= self.transfers@.subrange(0, k + 1));
            }
            k = k + 1;
        }
        proof {
            assert(model.subrange(0, self.accounts.len() as int) =~= model);
            assert(self.transfers@.subrange(0, self.transfers.len() as int) =~= self.transfers@);
        }
        Scenario {
            accounts,
            transfers,
            start_date: self.start_date,
            end_date: self.end_date,
            num_samples: self.num_samples,
        }
    }
}

} // verus!
