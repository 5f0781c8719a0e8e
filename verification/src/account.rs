//! Accounts: the payments that fall on a day or in a window of days, and
//! the balance that they leave.

use crate::cash::payment_views;
use crate::cash::CashFlow;
use crate::cash::CashFlowView;
use crate::cash::Payment;
use crate::cash::PaymentView;
use crate::date::CalendarDay;
use crate::date::Date;
use vstd::prelude::*;

verus! {

/// The sum of the amounts of a list of payments.
pub open spec fn total(payments: Seq<PaymentView>) -> int
    decreases payments.len(),
{
    if payments.len() == 0 {
        0
    } else {
        total(payments.drop_last()) + payments.last().amount
    }
}

/// The payments that a list of cash flows makes on the day `d`: cash flow
/// by cash flow in the order of the list, the amount before the withholding
/// on it.
pub open spec fn flows_on(flows: Seq<CashFlowView>, d: CalendarDay) -> Seq<PaymentView>
    decreases flows.len(),
{
    if flows.len() == 0 {
        Seq::empty()
    } else {
        flows_on(flows.drop_last(), d) + flows.last().payments(d, d, false) + flows.last().payments(
            d,
            d,
            true,
        )
    }
}

/// What an account holds, as mathematical values.
pub struct AccountView {
    pub name: Seq<char>,
    pub balance: int,
    pub cash_flows: Seq<CashFlowView>,
    pub start_date: CalendarDay,
    pub end_date: CalendarDay,
}

impl AccountView {
    /// Every cash flow of the account is one that payments can be drawn from.
    pub open spec fn is_valid(self) -> bool {
        forall|i: int| 0 <= i < self.cash_flows.len() ==> (#[trigger] self.cash_flows[i]).is_valid()
    }

    /// The payments of the day `d`.
    pub open spec fn flows_at(self, d: CalendarDay) -> Seq<PaymentView> {
        flows_on(self.cash_flows, d)
    }

    /// The payments of every day from `from` to `to`, both included, day
    /// by day.
    pub open spec fn payments(self, from: CalendarDay, to: CalendarDay) -> Seq<PaymentView>
        decreases to.year - from.year, to.month, to.day,
    {
        if !from.is_valid() || !to.is_valid() || to.before(from) {
            Seq::empty()
        } else if from == to {
            self.flows_at(to)
        } else {
            self.payments(from, to.prev()) + self.flows_at(to)
        }
    }

    /// The balance at the end of the day `d`: on the account's first day (or
    /// a day before it) the initial balance and the payments of `d`; on a
    /// later day the balance of the day before and the payments of `d`.
    pub open spec fn balance_on(self, d: CalendarDay) -> int
        decreases d.year - self.start_date.year, d.month, d.day,
    {
        if !self.start_date.is_valid() || !d.is_valid() || !self.start_date.before(d) {
            self.balance + total(self.flows_at(d))
        } else {
            self.balance_on(d.prev()) + total(self.flows_at(d))
        }
    }

    /// The balance of `d`, and of every day from the account's first day up
    /// to `d`, is an amount that can be held.
    pub open spec fn balances_fit(self, d: CalendarDay) -> bool
        decreases d.year - self.start_date.year, d.month, d.day,
    {
        &&& i64::MIN <= self.balance_on(d) <= i64::MAX
        &&& (self.start_date.is_valid() && d.is_valid() && self.start_date.before(d)
            ==> self.balances_fit(d.prev()))
    }
}

/// A named balance with the cash flows that change it.
#[derive(Debug)]
pub struct Account {
    pub name: String,
    pub balance: i64,
    pub cash_flows: Vec<CashFlow>,
    pub start_date: Date,
    pub end_date: Date,
}

/// The models of a list of cash flows.
pub open spec fn cash_flow_views(v: Seq<CashFlow>) -> Seq<CashFlowView> {
    v.map_values(|c: CashFlow| c@)
}

impl View for Account {
    type V = AccountView;

    open spec fn view(&self) -> AccountView {
        AccountView {
            name: self.name@,
            balance: self.balance as int,
            cash_flows: cash_flow_views(self.cash_flows@),
            start_date: self.start_date@,
            end_date: self.end_date@,
        }
    }
}

/// The payments of a list that grew by one cash flow.
pub proof fn lemma_flows_on_push(flows: Seq<CashFlowView>, last: CashFlowView, d: CalendarDay)
    ensures
        flows_on(flows.push(last), d) == flows_on(flows, d) + last.payments(d, d, false)
            + last.payments(d, d, true),
{
    assert(flows.push(last).drop_last() =~= flows);
}

/// The sum over two lists of payments joined is the sum of their sums.
pub proof fn lemma_total_add(a: Seq<PaymentView>, b: Seq<PaymentView>)
    ensures
        total(a + b) == total(a) + total(b),
    decreases b.len(),
{
    if b.len() == 0 {
        assert(a + b =~= a);
    } else {
        lemma_total_add(a, b.drop_last());
        assert((a + b).drop_last() =~= a + b.drop_last());
    }
}

/// The sum of the amounts of `v`; it cannot leave the range of `i128`.
pub fn sum_amounts(v: &Vec<Payment>) -> (r: i128)
    ensures
        r == total(payment_views(v@)),
        -(v.len() * 0x8000_0000_0000_0000) <= r <= v.len() * 0x8000_0000_0000_0000,
{
    let mut acc: i128 = 0;
    let mut i: usize = 0;
    while i < v.len()
        invariant
            i <= v.len(),
            acc == total(payment_views(v@.subrange(0, i as int))),
            -(i * 0x8000_0000_0000_0000) <= acc <= i * 0x8000_0000_0000_0000,
        decreases v.len() - i,
    {
        proof {
            let before = payment_views(v@.subrange(0, i as int));
            let after = payment_views(v@.subrange(0, i + 1));
            assert(after.drop_last() =~= before);
            assert(after.last() == v@[i as int]@);
        }
        acc = acc + v[i].amount as i128;
        i = i + 1;
    }
    proof {
        assert(v@.subrange(0, v.len() as int) =~= v@);
    }
    acc
}

impl Account {
    /// An account.
    pub fn new(
        name: String,
        balance: i64,
        cash_flows: Vec<CashFlow>,
        start_date: Date,
        end_date: Date,
    ) -> (r: Account)
        ensures
            r.name == name,
            r.balance == balance,
            r.cash_flows == cash_flows,
            r.start_date == start_date,
            r.end_date == end_date,
    {
        Account { name, balance, cash_flows, start_date, end_date }
    }

    /// Adds a cash flow behind those that the account has.
    pub fn add_cash_flow(&mut self, cash_flow: CashFlow)
        ensures
            final(self).cash_flows@ == old(self).cash_flows@.push(cash_flow),
            final(self).name == old(self).name,
            final(self).balance == old(self).balance,
            final(self).start_date == old(self).start_date,
            final(self).end_date == old(self).end_date,
    {
        self.cash_flows.push(cash_flow);
    }

    /// Whether every cash flow of the account is one that payments can be
    /// drawn from.
    pub fn is_valid(&self) -> (r: bool)
        ensures
            r == self@.is_valid(),
    {
        let mut i: usize = 0;
        while i < self.cash_flows.len()
            invariant
                i <= self.cash_flows.len(),
                forall|k: int| 0 <= k < i ==> (#[trigger] self@.cash_flows[k]).is_valid(),
            decreases self.cash_flows.len() - i,
        {
            if !self.cash_flows[i].is_valid() {
                proof {
                    assert(!self@.cash_flows[i as int].is_valid());
                }
                return false;
            }
            i = i + 1;
        }
        true
    }

    /// The payments that fall on `date`: for each cash flow in turn its
    /// amount, then the withholding on it.
    pub fn flows_at(&self, date: Date) -> (r: Vec<Payment>)
        requires
            self@.is_valid(),
        ensures
            payment_views(r@) == self@.flows_at(date@),
    {
        let mut flows: Vec<Payment> = Vec::new();
        let mut i: usize = 0;
        proof {
            assert(payment_views(flows@) =~= Seq::empty());
            assert(self@.cash_flows.subrange(0, 0) =~= Seq::empty());
        }
        while i < self.cash_flows.len()
            invariant
                i <= self.cash_flows.len(),
                self@.is_valid(),
                payment_views(flows@) == flows_on(self@.cash_flows.subrange(0, i as int), date@),
            decreases self.cash_flows.len() - i,
        {
            let cash_flow: &CashFlow = &self.cash_flows[i];
            proof {
                assert(cash_flow@ == self@.cash_flows[i as int]);
            }
            let mut payments: Vec<Payment> = cash_flow.payments(date, date, false);
            let mut taxes: Vec<Payment> = cash_flow.payments(date, date, true);
            proof {
                lemma_flows_on_push(self@.cash_flows.subrange(0, i as int), cash_flow@, date@);
                assert(self@.cash_flows.subrange(0, i as int).push(cash_flow@)
                    =~= self@.cash_flows.subrange(0, i + 1));
                crate::cash::lemma_payment_views_add(flows@, payments@);
                crate::cash::lemma_payment_views_add(flows@ + payments@, taxes@);
            }
            flows.append(&mut payments);
            flows.append(&mut taxes);
            i = i + 1;
        }
        proof {
            assert(self@.cash_flows.subrange(0, self.cash_flows.len() as int)
                =~= self@.cash_flows);
        }
        flows
    }

    /// The payments that fall on the days from `start_date` to `end_date`,
    /// both included, in the order of the days; within a day as
    /// [`Account::flows_at`] gives them.
    pub fn payments(&self, start_date: Date, end_date: Date) -> (r: Vec<Payment>)
        requires
            self@.is_valid(),
        ensures
            payment_views(r@) == self@.payments(start_date@, end_date@),
    {
        let mut out: Vec<Payment> = Vec::new();
        proof {
            assert(payment_views(out@) =~= Seq::empty());
        }
        if end_date.is_before(&start_date) {
            return out;
        }
        let mut d: Date = start_date;
        proof {
            crate::date::lemma_prev_day(start_date@);
        }
        loop
            invariant
                self@.is_valid(),
                start_date@.is_valid(),
                end_date@.is_valid(),
                d@.is_valid(),
                start_date@.not_after(d@),
                d@.not_after(end_date@),
                payment_views(out@) == self@.payments(start_date@, d@.prev()),
            decreases end_date@.year - d@.year, 12 - d@.month, 31 - d@.day,
        {
            let mut today: Vec<Payment> = self.flows_at(d);
            proof {
                crate::cash::lemma_payment_views_add(out@, today@);
            }
            out.append(&mut today);
            if d.is_same(&end_date) {
                return out;
            }
            proof {
                crate::date::lemma_before_not_last(d@, end_date@);
                crate::date::lemma_next_day(d@);
            }
            match d.succ_opt() {
                Some(next) => {
                    d = next;
                },
                None => {
                    return out;
                },
            }
        }
    }
}

impl Account {
    /// An empty account named "Account" that runs from 2000-01-01 to
    /// 2999-12-31.
    pub fn default() -> (r: Account)
        ensures
            r@.name == "Account"@,
            r@.balance == 0,
            r@.cash_flows == Seq::<CashFlowView>::empty(),
            r@.start_date == (CalendarDay { year: 2000, month: 1, day: 1 }),
            r@.end_date == (CalendarDay { year: 2999, month: 12, day: 31 }),
    {
        let start: Option<Date> = Date::from_ymd_opt(2000, 1, 1);
        let end: Option<Date> = Date::from_ymd_opt(2999, 12, 31);
        let cash_flows: Vec<CashFlow> = Vec::new();
        proof {
            assert(cash_flow_views(cash_flows@) =~= Seq::<CashFlowView>::empty());
        }
        Account {
            name: "Account".to_string(),
            balance: 0,
            cash_flows,
            start_date: start.unwrap(),
            end_date: end.unwrap(),
        }
    }
}

impl PartialEq for Account {
    /// Two accounts are the same account when they have the same name.
    fn eq(&self, other: &Account) -> (r: bool) {
        self.name == other.name
    }
}

impl Eq for Account {

}

impl vstd::std_specs::cmp::PartialEqSpecImpl for Account {
    open spec fn obeys_eq_spec() -> bool {
        true
    }

    open spec fn eq_spec(&self, other: &Account) -> bool {
        self.name@ == other.name@
    }
}

/// `Hash::hash` of a `String`: the text is fed to the hasher. Nothing is
/// claimed of the state that comes out, and nothing is proved of it.
pub assume_specification<H: std::hash::Hasher>[ <String as std::hash::Hash>::hash ](
    s: &String,
    state: &mut H,
);

impl std::hash::Hash for Account {
    /// An account is hashed by its name alone.
    fn hash<H: std::hash::Hasher>(&self, state: &mut H) {
        self.name.hash(state);
    }
}

impl Clone for Account {
    fn clone(&self) -> (r: Account)
        ensures
            r@ == self@,
    {
        let mut cash_flows: Vec<CashFlow> = Vec::new();
        let mut i: usize = 0;
        while i < self.cash_flows.len()
            invariant
                i <= self.cash_flows.len(),
                cash_flow_views(cash_flows@) == self@.cash_flows.subrange(0, i as int),
            decreases self.cash_flows.len() - i,
        {
            let ghost before = cash_flows@;
            let copy: CashFlow = self.cash_flows[i].clone();
            cash_flows.push(copy);
            proof {
                assert(cash_flow_views(before.push(copy)) =~= cash_flow_views(before).push(copy@));
                assert(cash_flow_views(cash_flows@) =~= self@.cash_flows.subrange(0, i + 1));
            }
            i = i + 1;
        }
        proof {
            assert(self@.cash_flows.subrange(0, self.cash_flows.len() as int)
                =~= self@.cash_flows);
        }
        Account {
            name: self.name.clone(),
            balance: self.balance,
            cash_flows,
            start_date: self.start_date,
            end_date: self.end_date,
        }
    }
}

/// The balance of the account's first day is the initial balance and the
/// payments of that day; the balance of a later day is the balance of the
/// day before and the payments of the day.
pub proof fn lemma_balance_recursion(account: AccountView, d: CalendarDay)
    requires
        account.start_date.is_valid(),
        d.is_valid(),
    ensures
        d == account.start_date ==> account.balance_on(d) == account.balance + total(
            account.flows_at(d),
        ),
        account.start_date.before(d) ==> account.balance_on(d) == account.balance_on(d.prev())
            + total(account.flows_at(d)),
{
}

/// Every payment of a day is dated that day.
pub proof fn lemma_flows_on_the_day(flows: Seq<CashFlowView>, d: CalendarDay)
    ensures
        forall|i: int| 0 <= i < flows_on(flows, d).len() ==> (#[trigger] flows_on(flows, d)[i]).date == d,
    decreases flows.len(),
{
    if flows.len() > 0 {
        lemma_flows_on_the_day(flows.drop_last(), d);
        let last = flows.last();
        crate::cash::lemma_payments_in_date_order(last, d, d, false);
        crate::cash::lemma_payments_in_date_order(last, d, d, true);
        let a = flows_on(flows.drop_last(), d);
        let b = last.payments(d, d, false);
        let c = last.payments(d, d, true);
        let all = flows_on(flows, d);
        assert(all == a + b + c);
        assert forall|i: int| 0 <= i < all.len() implies (#[trigger] all[i]).date == d by {
            if i < a.len() {
                assert(all[i] == a[i]);
            } else if i < a.len() + b.len() {
                assert(all[i] == b[i - a.len()]);
            } else {
                assert(all[i] == c[i - a.len() - b.len()]);
            }
        }
    }
}

/// The payments of an account over a window come in the order of their
/// days, and all within the window.
pub proof fn lemma_account_payments_in_date_order(
    account: AccountView,
    from: CalendarDay,
    to: CalendarDay,
)
    ensures
        forall|i: int|
            0 <= i < account.payments(from, to).len() ==> from.not_after(
                (#[trigger] account.payments(from, to)[i]).date,
            ) && account.payments(from, to)[i].date.not_after(to),
        forall|i: int, j: int|
            0 <= i < j < account.payments(from, to).len() ==> (#[trigger] account.payments(
                from,
                to,
            )[i]).date.not_after((#[trigger] account.payments(from, to)[j]).date),
    decreases to.year - from.year, to.month, to.day,
{
    if !from.is_valid() || !to.is_valid() || to.before(from) {
    } else {
        lemma_flows_on_the_day(account.cash_flows, to);
        let today = account.flows_at(to);
        if from == to {
        } else {
            crate::date::lemma_prev_day(to);
            lemma_account_payments_in_date_order(account, from, to.prev());
            let earlier = account.payments(from, to.prev());
            let all = account.payments(from, to);
            assert(all == earlier + today);
            assert forall|i: int| 0 <= i < all.len() implies from.not_after(
                (#[trigger] all[i]).date,
            ) && all[i].date.not_after(to) by {
                if i < earlier.len() {
                    assert(all[i] == earlier[i]);
                } else {
                    assert(all[i] == today[i - earlier.len()]);
                }
            }
            assert forall|i: int, j: int| 0 <= i < j < all.len() implies (
            #[trigger] all[i]).date.not_after((#[trigger] all[j]).date) by {
                if j < earlier.len() {
                    assert(all[i] == earlier[i]);
                    assert(all[j] == earlier[j]);
                } else {
                    assert(all[j] == today[j - earlier.len()]);
                    if i < earlier.len() {
                        assert(all[i] == earlier[i]);
                    } else {
                        assert(all[i] == today[i - earlier.len()]);
                    }
                }
            }
        }
    }
}

/// The payments of every cash flow over a window, cash flow after cash
/// flow: for each in turn its amounts in the order of the days, then the
/// withholdings on them.
pub open spec fn streams(flows: Seq<CashFlowView>, from: CalendarDay, to: CalendarDay) -> Seq<
    PaymentView,
>
    decreases flows.len(),
{
    if flows.len() == 0 {
        Seq::empty()
    } else {
        streams(flows.drop_last(), from, to) + flows.last().payments(from, to, false)
            + flows.last().payments(from, to, true)
    }
}

/// The payments of a cash flow up to a day are its payments up to the day
/// before and its payments of the day.
pub proof fn lemma_payments_split(
    flow: CashFlowView,
    from: CalendarDay,
    to: CalendarDay,
    tax: bool,
)
    requires
        from.is_valid(),
        to.is_valid(),
        from.before(to),
    ensures
        flow.payments(from, to, tax) == flow.payments(from, to.prev(), tax) + flow.payments(
            to,
            to,
            tax,
        ),
{
    if tax && flow.tax_rate == 0 {
        assert(flow.payments(from, to, tax) =~= flow.payments(from, to.prev(), tax)
            + flow.payments(to, to, tax));
    }
}

/// Over a window of one day the streams are the payments of that day.
pub proof fn lemma_streams_of_a_day(flows: Seq<CashFlowView>, d: CalendarDay)
    ensures
        streams(flows, d, d) == flows_on(flows, d),
    decreases flows.len(),
{
    if flows.len() > 0 {
        lemma_streams_of_a_day(flows.drop_last(), d);
    }
}

/// Over an empty window there are no streams.
pub proof fn lemma_streams_of_no_day(flows: Seq<CashFlowView>, from: CalendarDay, to: CalendarDay)
    requires
        !from.is_valid() || !to.is_valid() || to.before(from),
    ensures
        streams(flows, from, to) == Seq::<PaymentView>::empty(),
    decreases flows.len(),
{
    if flows.len() > 0 {
        lemma_streams_of_no_day(flows.drop_last(), from, to);
        assert(streams(flows, from, to) =~= Seq::<PaymentView>::empty());
    }
}

/// The streams up to a day hold what the streams up to the day before
/// hold, and the payments of the day.
pub proof fn lemma_streams_split(flows: Seq<CashFlowView>, from: CalendarDay, to: CalendarDay)
    requires
        from.is_valid(),
        to.is_valid(),
        from.before(to),
    ensures
        streams(flows, from, to).to_multiset() == streams(flows, from, to.prev()).to_multiset().add(
            flows_on(flows, to).to_multiset(),
        ),
    decreases flows.len(),
{
    if flows.len() == 0 {
        let none = Seq::<PaymentView>::empty();
        vstd::seq_lib::lemma_multiset_commutative(none, none);
        assert(none + none =~= none);
    } else {
        let rest = flows.drop_last();
        let last = flows.last();
        lemma_streams_split(rest, from, to);
        lemma_payments_split(last, from, to, false);
        lemma_payments_split(last, from, to, true);
        let streams_now = streams(rest, from, to);
        let streams_before = streams(rest, from, to.prev());
        let flows_today = flows_on(rest, to);
        let paid_before = last.payments(from, to.prev(), false);
        let paid_today = last.payments(to, to, false);
        let withheld_before = last.payments(from, to.prev(), true);
        let withheld_today = last.payments(to, to, true);
        vstd::seq_lib::lemma_multiset_commutative(streams_now, paid_before + paid_today);
        vstd::seq_lib::lemma_multiset_commutative(paid_before, paid_today);
        vstd::seq_lib::lemma_multiset_commutative(streams_now + (paid_before + paid_today), withheld_before + withheld_today);
        vstd::seq_lib::lemma_multiset_commutative(withheld_before, withheld_today);
        vstd::seq_lib::lemma_multiset_commutative(streams_before, paid_before);
        vstd::seq_lib::lemma_multiset_commutative(streams_before + paid_before, withheld_before);
        vstd::seq_lib::lemma_multiset_commutative(flows_today, paid_today);
        vstd::seq_lib::lemma_multiset_commutative(flows_today + paid_today, withheld_today);
        assert(streams(flows, from, to) == streams_now + (paid_before + paid_today) + (withheld_before + withheld_today));
        assert(streams(flows, from, to.prev()) == streams_before + paid_before + withheld_before);
        assert(flows_on(flows, to) == flows_today + paid_today + withheld_today);
        assert(streams(flows, from, to).to_multiset() =~= streams(
            flows,
            from,
            to.prev(),
        ).to_multiset().add(flows_on(flows, to).to_multiset()));
    }
}

/// The payments of an account over a window are the payments of its cash
/// flows over that window, put in the order of their days: they hold what
/// the streams hold, each payment as often.
pub proof fn lemma_account_payments_are_the_streams(
    account: AccountView,
    from: CalendarDay,
    to: CalendarDay,
)
    ensures
        account.payments(from, to).to_multiset() == streams(
            account.cash_flows,
            from,
            to,
        ).to_multiset(),
    decreases to.year - from.year, to.month, to.day,
{
    if !from.is_valid() || !to.is_valid() || to.before(from) {
        lemma_streams_of_no_day(account.cash_flows, from, to);
    } else if from == to {
        lemma_streams_of_a_day(account.cash_flows, to);
    } else {
        crate::date::lemma_prev_day(to);
        lemma_account_payments_are_the_streams(account, from, to.prev());
        lemma_streams_split(account.cash_flows, from, to);
        vstd::seq_lib::lemma_multiset_commutative(
            account.payments(from, to.prev()),
            account.flows_at(to),
        );
    }
}

/// From the account's first day on, the balance of a day is the initial
/// balance and every payment from the first day to that day.
pub proof fn lemma_balance_is_initial_and_payments(account: AccountView, d: CalendarDay)
    requires
        account.start_date.is_valid(),
        d.is_valid(),
        account.start_date.not_after(d),
    ensures
        account.balance_on(d) == account.balance + total(account.payments(account.start_date, d)),
    decreases d.year - account.start_date.year, d.month, d.day,
{
    if d != account.start_date {
        crate::date::lemma_prev_day(d);
        lemma_balance_is_initial_and_payments(account, d.prev());
        lemma_total_add(account.payments(account.start_date, d.prev()), account.flows_at(d));
    }
}

} // verus!
