//! The balance of an account on a day, computed day by day from the
//! account's first day and remembered, so that no day is computed twice.

use crate::account::sum_amounts;
use crate::account::total;
use crate::account::Account;
use crate::account::AccountView;
use crate::date::CalendarDay;
use crate::date::Date;
use crate::date::MIN_YEAR;
use std::collections::HashMap;
use vstd::prelude::*;

verus! {

broadcast use vstd::std_specs::hash::group_hash_axioms;

/// Why a balance could not be given.
#[derive(Clone, Copy, Debug, PartialEq, Eq, Structural)]
pub enum BalanceError {
    /// A balance was asked for over no samples at all.
    NoSamples,
    /// The balance of the day, or of a day before it, is too large to hold.
    Overflow,
}

/// The number under which the balance of the day `d` is remembered.
pub open spec fn day_key(d: CalendarDay) -> int {
    (d.year - MIN_YEAR) * 512 + d.month * 32 + d.day
}

/// Different days are remembered under different numbers.
pub proof fn lemma_day_key_distinct(a: CalendarDay, b: CalendarDay)
    requires
        a.is_valid(),
        b.is_valid(),
        day_key(a) == day_key(b),
    ensures
        a == b,
{
}

/// Balances that can be held up to the day `d` can be held up to any
/// day between the account's first day and `d`.
pub proof fn lemma_fit_earlier(account: AccountView, c: CalendarDay, d: CalendarDay)
    requires
        account.start_date.is_valid(),
        c.is_valid(),
        d.is_valid(),
        account.start_date.not_after(c),
        c.not_after(d),
        account.balances_fit(d),
    ensures
        account.balances_fit(c),
    decreases d.year - c.year, d.month, d.day,
{
    if c != d {
        crate::date::lemma_prev_day(d);
        lemma_fit_earlier(account, c, d.prev());
    }
}

/// The number under which the balance of `d` is remembered.
fn key_of(d: &Date) -> (k: u64)
    ensures
        k == day_key(d@),
        d@.is_valid(),
{
    let years: i64 = d.year() as i64 - MIN_YEAR as i64;
    (years as u64) * 512 + (d.month() as u64) * 32 + (d.day() as u64)
}

/// The sum of the payments that fall on `d`.
fn day_total(account: &Account, d: Date) -> (t: i128)
    requires
        account@.is_valid(),
    ensures
        t == total(account@.flows_at(d@)),
        -0x7fff_ffff_ffff_ffff_8000_0000_0000_0000 <= t <= 0x7fff_ffff_ffff_ffff_8000_0000_0000_0000,
{
    let flows = account.flows_at(d);
    sum_amounts(&flows)
}

/// `n` times the same amount.
fn repeat(value: i64, n: usize) -> (r: Vec<i64>)
    ensures
        r@ == Seq::new(n as nat, |i: int| value),
{
    let mut out: Vec<i64> = Vec::new();
    let mut i: usize = 0;
    while i < n
        invariant
            i <= n,
            out@ == Seq::new(i as nat, |k: int| value),
        decreases n - i,
    {
        out.push(value);
        proof {
            assert(out@ =~= Seq::new((i + 1) as nat, |k: int| value));
        }
        i = i + 1;
    }
    out
}

/// The balances of one account that have been computed so far, each
/// under its day.
pub struct BalanceCache {
    account: Account,
    known: HashMap<u64, i64>,
    frontier: Option<(Date, i64)>,
    work: u64,
}

impl BalanceCache {
    /// The account whose balances are remembered.
    pub closed spec fn account(&self) -> AccountView {
        self.account@
    }

    /// Whether the balance of the day `d` is remembered.
    pub closed spec fn holds(&self, d: CalendarDay) -> bool {
        d.is_valid() && self.known@.contains_key(day_key(d) as u64)
    }

    /// Of how many days the balance is remembered.
    pub closed spec fn remembered(&self) -> nat {
        self.known@.len()
    }

    /// How many days have been computed since the cache was made.
    pub closed spec fn work(&self) -> int {
        self.work as int
    }

    /// What is remembered is right: each balance is the balance of its
    /// day; no day was skipped between the account's first day and the
    /// latest day that was reached from it; and no later day is remembered.
    pub closed spec fn wf(&self) -> bool {
        &&& self.account@.is_valid()
        &&& forall|c: CalendarDay|
            c.is_valid() && self.known@.contains_key(#[trigger] day_key(c) as u64) ==> {
                &&& self.account@.balances_fit(c)
                &&& self.known@[day_key(c) as u64] == self.account@.balance_on(c)
                &&& self.account@.start_date.before(c) ==> self.frontier is Some
                    && c.not_after(self.frontier->Some_0.0@)
            }
        &&& match self.frontier {
            Some((f, b)) => {
                &&& f@.is_valid()
                &&& self.account@.start_date.not_after(f@)
                &&& self.known@.contains_key(day_key(f@) as u64)
                &&& b == self.account@.balance_on(f@)
                &&& forall|c: CalendarDay|
                    c.is_valid() && self.account@.start_date.not_after(c) && c.not_after(f@)
                        ==> self.known@.contains_key(#[trigger] day_key(c) as u64)
            },
            None => true,
        }
    }

    /// A cache for `account` that remembers nothing yet.
    pub fn new(account: Account) -> (r: BalanceCache)
        requires
            account@.is_valid(),
        ensures
            r.wf(),
            r.account() == account@,
            r.work() == 0,
            r.remembered() == 0,
            forall|d: CalendarDay| !r.holds(d),
    {
        BalanceCache { account, known: HashMap::new(), frontier: None, work: 0 }
    }

    /// The account whose balances are remembered.
    pub fn account_ref(&self) -> (r: &Account)
        requires
            self.wf(),
        ensures
            r@ == self.account(),
            r@.is_valid(),
    {
        &self.account
    }

    /// How many days have been computed since the cache was made.
    pub fn days_computed(&self) -> (r: u64)
        ensures
            r == self.work(),
    {
        self.work
    }

    /// Of how many days the balance is remembered.
    pub fn days_remembered(&self) -> (r: usize)
        ensures
            r == self.remembered(),
    {
        self.known.len()
    }

    /// Counts one more day as computed, up to the largest count that can be held.
    fn count_day(&mut self)
        requires
            old(self).wf(),
        ensures
            final(self).wf(),
            final(self).account == old(self).account,
            final(self).known == old(self).known,
            final(self).frontier == old(self).frontier,
            final(self).work == (if old(self).work < u64::MAX {
                old(self).work + 1
            } else {
                old(self).work as int
            }),
    {
        if self.work < u64::MAX {
            self.work = self.work + 1;
        }
    }

    /// Computes the balance of `d` from `carried`, the balance that `d`
    /// starts with, and remembers it. With `advance`, `d` is the next day
    /// of the days that follow each other from the account's first day.
    fn settle(&mut self, d: Date, carried: i64, advance: bool) -> (r: Result<i64, BalanceError>)
        requires
            old(self).wf(),
            !old(self).known@.contains_key(day_key(d@) as u64),
            carried + total(old(self).account@.flows_at(d@)) == old(self).account@.balance_on(d@),
            i64::MIN <= old(self).account@.balance_on(d@) <= i64::MAX
                ==> old(self).account@.balances_fit(d@),
            !advance ==> !old(self).account@.start_date.before(d@),
            advance ==> old(self).account@.start_date.not_after(d@),
            advance ==> forall|c: CalendarDay|
                c.is_valid() && old(self).account@.start_date.not_after(c) && c.before(d@)
                    ==> old(self).known@.contains_key(#[trigger] day_key(c) as u64),
            advance ==> forall|c: CalendarDay|
                c.is_valid() && old(self).known@.contains_key(#[trigger] day_key(c) as u64)
                    ==> c.not_after(d@),
        ensures
            final(self).wf(),
            final(self).account == old(self).account,
            old(self).work <= final(self).work <= old(self).work + 1,
            match r {
                Ok(b) => {
                    &&& b == old(self).account@.balance_on(d@)
                    &&& old(self).account@.balances_fit(d@)
                    &&& final(self).known@ == old(self).known@.insert(day_key(d@) as u64, b)
                    &&& final(self).known@.len() == old(self).known@.len() + 1
                    &&& final(self).frontier == (if advance {
                        Some((d, b))
                    } else {
                        old(self).frontier
                    })
                },
                Err(e) => {
                    &&& e == BalanceError::Overflow
                    &&& !(i64::MIN <= old(self).account@.balance_on(d@) <= i64::MAX)
                    &&& final(self).known@ == old(self).known@
                    &&& final(self).frontier == old(self).frontier
                },
            },
    {
        let t: i128 = day_total(&self.account, d);
        self.count_day();
        let wide: i128 = carried as i128 + t;
        if wide < i64::MIN as i128 || wide > i64::MAX as i128 {
            return Err(BalanceError::Overflow);
        }
        let b: i64 = wide as i64;
        let key: u64 = key_of(&d);
        proof {
            let after = self.known@.insert(key, b);
            assert(after.dom() =~= self.known@.dom().insert(key));
            assert forall|c: CalendarDay|
                c.is_valid() && after.contains_key(#[trigger] day_key(c) as u64) implies {
                &&& self.account@.balances_fit(c)
                &&& after[day_key(c) as u64] == self.account@.balance_on(c)
                &&& c == d@ || self.known@.contains_key(day_key(c) as u64)
            } by {
                if c != d@ {
                    if day_key(c) == day_key(d@) {
                        lemma_day_key_distinct(c, d@);
                    }
                }
            }
        }
        self.known.insert(key, b);
        if advance {
            self.frontier = Some((d, b));
        }
        Ok(b)
    }

    /// The balance of `date`, from the cache where it is remembered.
    fn balance_of(&mut self, date: Date) -> (r: Result<i64, BalanceError>)
        requires
            old(self).wf(),
        ensures
            final(self).wf(),
            final(self).account() == old(self).account(),
            match r {
                Ok(b) => {
                    &&& old(self).account().balances_fit(date@)
                    &&& b == old(self).account().balance_on(date@)
                    &&& final(self).holds(date@)
                },
                Err(e) => e == BalanceError::Overflow && !old(self).account().balances_fit(date@),
            },
            old(self).holds(date@) ==> r.is_ok() && final(self).work() == old(self).work()
                && final(self).remembered() == old(self).remembered(),
            old(self).work() <= final(self).work(),
            old(self).remembered() <= final(self).remembered(),
            final(self).work() - old(self).work() <= final(self).remembered() - old(
                self,
            ).remembered() + (if r is Err {
                1int
            } else {
                0int
            }),
            forall|d: CalendarDay| old(self).holds(d) ==> final(self).holds(d),
    {
        let ghost before = self.known@;
        let key: u64 = key_of(&date);
        match self.known.get(&key) {
            Some(v) => {
                return Ok(*v);
            },
            None => {},
        }
        let start: Date = self.account.start_date;
        if !start.is_before(&date) {
            let carried: i64 = self.account.balance;
            return self.settle(date, carried, false);
        }
        let mut d: Date = start;
        let mut b: i64 = 0;
        match self.frontier {
            Some((f, fb)) => {
                d = f;
                b = fb;
            },
            None => {
                let start_key: u64 = key_of(&start);
                let found: Option<i64> = match self.known.get(&start_key) {
                    Some(v) => Some(*v),
                    None => None,
                };
                match found {
                    Some(v) => {
                        proof {
                            assert forall|c: CalendarDay|
                                c.is_valid() && self.account@.start_date.not_after(c)
                                    && c.not_after(start@) implies self.known@.contains_key(
                                #[trigger] day_key(c) as u64,
                            ) by {
                                assert(c == start@);
                            }
                        }
                        self.frontier = Some((start, v));
                        b = v;
                    },
                    None => {
                        let carried: i64 = self.account.balance;
                        match self.settle(start, carried, true) {
                            Ok(v) => {
                                b = v;
                            },
                            Err(e) => {
                                proof {
                                    if self.account@.balances_fit(date@) {
                                        lemma_fit_earlier(self.account@, start@, date@);
                                    }
                                }
                                return Err(e);
                            },
                        }
                    },
                }
            },
        }
        while d.is_before(&date)
            invariant
                self.wf(),
                self.account == old(self).account,
                self.account@.is_valid(),
                start == self.account.start_date,
                start@.is_valid(),
                self.frontier == Some((d, b)),
                start@.not_after(d@),
                d@.not_after(date@),
                d@.is_valid(),
                date@.is_valid(),
                old(self).work <= self.work,
                before.len() <= self.known@.len(),
                self.work - old(self).work <= self.known@.len() - before.len(),
                before == old(self).known@,
                !before.contains_key(day_key(date@) as u64),
                forall|k: u64| before.contains_key(k) ==> self.known@.contains_key(k),
            decreases date@.year - d@.year, 12 - d@.month, 31 - d@.day,
        {
            proof {
                crate::date::lemma_before_not_last(d@, date@);
                crate::date::lemma_next_day(d@);
            }
            let next: Date = match d.succ_opt() {
                Some(n) => n,
                None => {
                    return Err(BalanceError::Overflow);
                },
            };
            proof {
                crate::date::lemma_prev_day(next@);
                assert forall|c: CalendarDay|
                    c.is_valid() && self.known@.contains_key(
                        #[trigger] day_key(c) as u64,
                    ) implies c.not_after(next@) by {
                    if self.account@.start_date.before(c) {
                        assert(c.not_after(d@));
                    }
                }
                if self.known@.contains_key(day_key(next@) as u64) {
                    assert(next@.not_after(d@));
                }
            }
            match self.settle(next, b, true) {
                Ok(v) => {
                    d = next;
                    b = v;
                },
                Err(e) => {
                    proof {
                        if self.account@.balances_fit(date@) {
                            lemma_fit_earlier(self.account@, next@, date@);
                        }
                    }
                    return Err(e);
                },
            }
        }
        Ok(b)
    }

    /// The balance of the account at the end of `date`, once for each of
    /// `num_samples` samples.
    ///
    /// A balance that is remembered is given back without computing any
    /// day. Otherwise the days that are missing are computed and
    /// remembered, and no day that is remembered is computed again: the
    /// count of computed days grows by no more than the number of
    /// remembered days does, but for the one day that ends the query where
    /// its balance cannot be held. The result depends on the account, the
    /// day and the number of samples alone.
    pub fn balance_at(&mut self, date: Date, num_samples: usize) -> (r: Result<
        Vec<i64>,
        BalanceError,
    >)
        requires
            old(self).wf(),
        ensures
            final(self).wf(),
            final(self).account() == old(self).account(),
            old(self).work() <= final(self).work(),
            old(self).remembered() <= final(self).remembered(),
            final(self).work() - old(self).work() <= final(self).remembered() - old(
                self,
            ).remembered() + (if r is Err {
                1int
            } else {
                0int
            }),
            forall|d: CalendarDay| old(self).holds(d) ==> final(self).holds(d),
            num_samples == 0 ==> r == Err::<Vec<i64>, BalanceError>(BalanceError::NoSamples)
                && final(self).work() == old(self).work() && final(self).remembered() == old(
                self,
            ).remembered(),
            num_samples > 0 ==> match r {
                Ok(v) => {
                    &&& old(self).account().balances_fit(date@)
                    &&& is_constant(v@, num_samples as nat, old(self).account().balance_on(date@))
                    &&& final(self).holds(date@)
                },
                Err(e) => e == BalanceError::Overflow && !old(self).account().balances_fit(date@),
            },
            num_samples > 0 && old(self).holds(date@) ==> r.is_ok() && final(self).work() == old(
                self,
            ).work() && final(self).remembered() == old(self).remembered(),
    {
        if num_samples == 0 {
            return Err(BalanceError::NoSamples);
        }
        match self.balance_of(date) {
            Ok(b) => Ok(repeat(b, num_samples)),
            Err(e) => Err(e),
        }
    }
}

/// Whether `v` holds `n` amounts, each of them `value`.
pub open spec fn is_constant(v: Seq<i64>, n: nat, value: int) -> bool {
    v.len() == n && forall|i: int| 0 <= i < n ==> v[i] == value
}

/// The balance of `account` at the end of `date`, once for each of
/// `num_samples` samples: on the account's first day the initial balance
/// and the payments of that day, on a later day the balance of the day
/// before and the payments of the day.
pub fn get_account_balance_at(account: Account, date: Date, num_samples: usize) -> (r: Result<
    Vec<i64>,
    BalanceError,
>)
    requires
        account@.is_valid(),
    ensures
        num_samples == 0 ==> r == Err::<Vec<i64>, BalanceError>(BalanceError::NoSamples),
        num_samples > 0 ==> match r {
            Ok(v) => {
                &&& account@.balances_fit(date@)
                &&& is_constant(v@, num_samples as nat, account@.balance_on(date@))
            },
            Err(e) => e == BalanceError::Overflow && !account@.balances_fit(date@),
        },
{
    let mut cache: BalanceCache = BalanceCache::new(account);
    cache.balance_at(date, num_samples)
}

impl Account {
    /// The initial balance and every payment from the account's first day
    /// to `date`, both included. Before the first day that is the initial
    /// balance alone.
    pub fn balance_at(&self, date: Date) -> (r: Result<i64, BalanceError>)
        requires
            self@.is_valid(),
        ensures
            date@.before(self@.start_date) ==> r == Ok::<i64, BalanceError>(self.balance),
            !date@.before(self@.start_date) ==> match r {
                Ok(b) => self@.balances_fit(date@) && b == self@.balance_on(date@),
                Err(e) => e == BalanceError::Overflow && !self@.balances_fit(date@),
            },
    {
        if date.is_before(&self.start_date) {
            return Ok(self.balance);
        }
        let mut d: Date = self.start_date;
        let first: i128 = self.balance as i128 + day_total(self, d);
        if first < i64::MIN as i128 || first > i64::MAX as i128 {
            proof {
                if self@.balances_fit(date@) {
                    lemma_fit_earlier(self@, d@, date@);
                }
            }
            return Err(BalanceError::Overflow);
        }
        let mut b: i64 = first as i64;
        while d.is_before(&date)
            invariant
                self@.is_valid(),
                self@.start_date.is_valid(),
                self@.start_date.not_after(d@),
                d@.not_after(date@),
                d@.is_valid(),
                date@.is_valid(),
                self@.balances_fit(d@),
                b == self@.balance_on(d@),
            decreases date@.year - d@.year, 12 - d@.month, 31 - d@.day,
        {
            proof {
                crate::date::lemma_before_not_last(d@, date@);
                crate::date::lemma_next_day(d@);
            }
            let next: Date = match d.succ_opt() {
                Some(n) => n,
                None => {
                    return Err(BalanceError::Overflow);
                },
            };
            let wide: i128 = b as i128 + day_total(self, next);
            if wide < i64::MIN as i128 || wide > i64::MAX as i128 {
                proof {
                    if self@.balances_fit(date@) {
                        lemma_fit_earlier(self@, next@, date@);
                    }
                }
                return Err(BalanceError::Overflow);
            }
            d = next;
            b = wide as i64;
        }
        Ok(b)
    }
}

/// Two answers to the same question are the same: the balances that
/// [`BalanceCache::balance_at`] gives depend on the account, the day and the
/// number of samples alone, not on what was asked before.
pub proof fn lemma_same_query_same_balances(
    account: AccountView,
    d: CalendarDay,
    n: nat,
    first: Seq<i64>,
    second: Seq<i64>,
)
    requires
        is_constant(first, n, account.balance_on(d)),
        is_constant(second, n, account.balance_on(d)),
    ensures
        first == second,
{
    assert(first =~= second);
}

} // verus!
