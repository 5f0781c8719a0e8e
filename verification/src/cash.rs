//! Cash flows: the recurrence rules that decide on which days a cash flow
//! pays, and the payments that a cash flow makes over a window of days.
//!
//! Money is held as a signed whole number of the smallest unit of the
//! currency. A rate is held in millionths: [`RATE_SCALE`] stands for 1.

use crate::date::CalendarDay;
use crate::date::Date;
use vstd::prelude::*;

verus! {

/// The rate that stands for 1 (the whole): rates are held in millionths.
pub const RATE_SCALE: u32 = 1_000_000;

/// The length of `month` (1 to 12) in a year without a 29th of February.
pub open spec fn common_month_length(month: int) -> int {
    if month == 2 {
        28
    } else if month == 4 || month == 6 || month == 9 || month == 11 {
        30
    } else {
        31
    }
}

/// The model of an optional date.
pub open spec fn day_of(d: Option<Date>) -> Option<CalendarDay> {
    match d {
        Some(date) => Some(date@),
        None => None,
    }
}

/// A part of a year, as a ratio of two whole numbers.
#[derive(Clone, Copy, Debug, PartialEq, Eq, Structural)]
pub struct Ratio {
    pub numerator: u32,
    pub denominator: u32,
}

/// How often a cash flow recurs.
#[derive(Clone, Copy, Debug, PartialEq, Eq, Structural, Hash)]
pub enum Frequency {
    Once,
    MonthStart,
    MonthEnd,
    SemiMonthly,
    Annually,
}

impl Frequency {
    /// How many periods of this frequency make up a year.
    pub open spec fn periods_per_year(self) -> int {
        match self {
            Frequency::Once => 1,
            Frequency::MonthStart => 12,
            Frequency::MonthEnd => 12,
            Frequency::SemiMonthly => 24,
            Frequency::Annually => 1,
        }
    }

    /// Whether the rule can only be applied with a start date.
    pub open spec fn needs_start(self) -> bool {
        self == Frequency::Annually
    }

    /// Whether the rule pays on `d`, given the optional first and last day
    /// on which the cash flow runs.
    ///
    /// A day outside the bounds never matches. Within them, `Once` matches
    /// the start day alone (and nothing without one), `MonthStart` the first
    /// of each month, `MonthEnd` the day whose number is the month's length in
    /// a year without a 29th of February, `SemiMonthly` that day and the 15th,
    /// and `Annually` the month and day of the start date in every year.
    pub open spec fn spec_matches(
        self,
        d: CalendarDay,
        start: Option<CalendarDay>,
        end: Option<CalendarDay>,
    ) -> bool {
        &&& start matches Some(s) ==> s.not_after(d)
        &&& end matches Some(e) ==> d.not_after(e)
        &&& match self {
            Frequency::Once => start == Some(d),
            Frequency::MonthStart => d.day == 1,
            Frequency::MonthEnd => d.day == common_month_length(d.month),
            Frequency::SemiMonthly => d.day == 15 || d.day == common_month_length(d.month),
            Frequency::Annually => start matches Some(s) && s.month == d.month && s.day == d.day,
        }
    }

    /// The part of a year that one period of this frequency covers.
    pub fn fraction(&self) -> (r: Ratio)
        ensures
            r.numerator == 1,
            r.denominator == self.periods_per_year(),
    {
        match self {
            Frequency::Once => Ratio { numerator: 1, denominator: 1 },
            Frequency::MonthStart => Ratio { numerator: 1, denominator: 12 },
            Frequency::MonthEnd => Ratio { numerator: 1, denominator: 12 },
            Frequency::SemiMonthly => Ratio { numerator: 1, denominator: 24 },
            Frequency::Annually => Ratio { numerator: 1, denominator: 1 },
        }
    }

    /// Whether the rule pays on `d`; see [`Frequency::spec_matches`].
    pub fn matches(&self, d: &Date, start_date: &Option<Date>, end_date: &Option<Date>) -> (r:
        bool)
        requires
            self.needs_start() ==> start_date.is_some(),
        ensures
            r == self.spec_matches(d@, day_of(*start_date), day_of(*end_date)),
    {
        if let Some(start) = start_date {
            if d.is_before(start) {
                return false;
            }
        }
        if let Some(end) = end_date {
            if end.is_before(d) {
                return false;
            }
        }
        let day: u32 = d.day();
        let month: u32 = d.month();
        match self {
            Frequency::Once => match start_date {
                Some(start) => start.is_same(d),
                None => false,
            },
            Frequency::MonthStart => day == 1,
            Frequency::MonthEnd => day == month_end_day(month),
            Frequency::SemiMonthly => day == 15 || day == month_end_day(month),
            Frequency::Annually => match start_date {
                Some(start) => start.month() == month && start.day() == day,
                None => false,
            },
        }
    }
}

/// The day number on which a month ends in a year without a 29th of February.
fn month_end_day(month: u32) -> (r: u32)
    requires
        1 <= month <= 12,
    ensures
        r == common_month_length(month as int),
{
    if month == 2 {
        28
    } else if month == 4 || month == 6 || month == 9 || month == 11 {
        30
    } else {
        31
    }
}

/// `String::push_str`, taken from its documentation without proof: the
/// text grows by `string` at its end.
pub assume_specification[ String::push_str ](s: &mut String, string: &str)
    ensures
        final(s)@ == old(s)@ + string@,
;

/// The texts that a list of strings holds.
pub open spec fn texts(v: Seq<String>) -> Seq<Seq<char>> {
    v.map_values(|s: String| s@)
}

/// A copy of a list of strings.
fn copy_strings(v: &Vec<String>) -> (r: Vec<String>)
    ensures
        r@ == v@,
{
    let mut out: Vec<String> = Vec::new();
    let mut i: usize = 0;
    while i < v.len()
        invariant
            i <= v.len(),
            out@ == v@.subrange(0, i as int),
        decreases v.len() - i,
    {
        out.push(v[i].clone());
        proof {
            assert(out@ =~= v@.subrange(0, i + 1));
        }
        i = i + 1;
    }
    proof {
        assert(v@.subrange(0, v.len() as int) =~= v@);
    }
    out
}

/// The amount withheld from one payment of `amount` at `rate` millionths,
/// as a payment of its own: it has the opposite sign, and what is left of
/// a smallest unit is dropped.
pub open spec fn tax_amount(amount: int, rate: int) -> int {
    if amount >= 0 {
        -((amount * rate) / (RATE_SCALE as int))
    } else {
        ((-amount) * rate) / (RATE_SCALE as int)
    }
}

/// The withholding never exceeds the payment it is taken from.
pub proof fn lemma_tax_amount_bounded(amount: int, rate: int)
    requires
        0 <= rate <= RATE_SCALE,
    ensures
        amount >= 0 ==> -amount <= tax_amount(amount, rate) <= 0,
        amount < 0 ==> 0 <= tax_amount(amount, rate) <= -amount,
{
    let m: int = if amount >= 0 {
        amount
    } else {
        -amount
    };
    assert(0 <= m * rate <= m * (RATE_SCALE as int)) by (nonlinear_arith)
        requires
            0 <= m,
            0 <= rate <= RATE_SCALE,
    ;
    assert(0 <= (m * rate) / (RATE_SCALE as int) <= m) by (nonlinear_arith)
        requires
            0 <= m * rate <= m * (RATE_SCALE as int),
            RATE_SCALE == 1_000_000,
    ;
}

/// The amount withheld from one payment; see [`tax_amount`].
fn withheld(amount: i64, rate: u32) -> (r: i64)
    requires
        rate <= RATE_SCALE,
        amount > i64::MIN,
    ensures
        r == tax_amount(amount as int, rate as int),
{
    proof {
        lemma_tax_amount_bounded(amount as int, rate as int);
    }
    if amount >= 0 {
        let wide: u128 = (amount as u128) * (rate as u128);
        let part: u128 = wide / 1_000_000;
        -(part as i64)
    } else {
        let size: u128 = (-(amount as i128)) as u128;
        let wide: u128 = size * (rate as u128);
        let part: u128 = wide / 1_000_000;
        part as i64
    }
}

/// What a cash flow holds, as mathematical values.
pub struct CashFlowView {
    pub name: Option<Seq<char>>,
    pub amount: int,
    pub frequency: Frequency,
    pub start_date: Option<CalendarDay>,
    pub end_date: Option<CalendarDay>,
    pub tax_rate: int,
    pub tags: Option<Seq<Seq<char>>>,
}

/// What a payment holds, as mathematical values.
pub struct PaymentView {
    pub cash_flow: CashFlowView,
    pub date: CalendarDay,
    pub amount: int,
}

impl CashFlowView {
    /// What a cash flow must meet before payments can be drawn from it: the
    /// tax rate is at most 1, the amount can be negated, a rule that needs a
    /// start date has one, and a taxed cash flow has a name.
    pub open spec fn is_valid(self) -> bool {
        &&& 0 <= self.tax_rate <= RATE_SCALE
        &&& i64::MIN < self.amount <= i64::MAX
        &&& self.frequency.needs_start() ==> self.start_date.is_some()
        &&& self.tax_rate != 0 ==> self.name.is_some()
    }

    /// What a cash flow must meet before its payments of one mode can be
    /// drawn: a rule that needs a start date has one, and in tax mode a
    /// cash flow with withholding is valid as a whole.
    pub open spec fn can_pay(self, tax: bool) -> bool {
        &&& self.frequency.needs_start() ==> self.start_date.is_some()
        &&& tax && self.tax_rate != 0 ==> self.is_valid()
    }

    /// Whether the cash flow pays on `d`.
    pub open spec fn pays_on(self, d: CalendarDay) -> bool {
        self.frequency.spec_matches(d, self.start_date, self.end_date)
    }

    /// The cash flow under the name of its withholding: its own name
    /// followed by " Tax".
    pub open spec fn as_tax(self) -> CashFlowView {
        CashFlowView {
            name: Some(self.name.unwrap() + " Tax"@),
            amount: self.amount,
            frequency: self.frequency,
            start_date: self.start_date,
            end_date: self.end_date,
            tax_rate: self.tax_rate,
            tags: self.tags,
        }
    }

    /// The payment of `d`: the amount itself, or in tax mode the
    /// withholding on it under the withholding's name.
    pub open spec fn payment_on(self, d: CalendarDay, tax: bool) -> PaymentView {
        if tax {
            PaymentView {
                cash_flow: self.as_tax(),
                date: d,
                amount: tax_amount(self.amount, self.tax_rate),
            }
        } else {
            PaymentView { cash_flow: self, date: d, amount: self.amount }
        }
    }

    /// The payments of the single day `d`: one if the cash flow pays on
    /// it, else none.
    pub open spec fn occurrence(self, d: CalendarDay, tax: bool) -> Seq<PaymentView> {
        if self.pays_on(d) {
            seq![self.payment_on(d, tax)]
        } else {
            Seq::empty()
        }
    }

    /// The payments of every day from `from` to `to`, both included, in
    /// the order of the days.
    pub open spec fn occurrences(self, from: CalendarDay, to: CalendarDay, tax: bool) -> Seq<
        PaymentView,
    >
        decreases to.year - from.year, to.month, to.day,
    {
        if !from.is_valid() || !to.is_valid() || to.before(from) {
            Seq::empty()
        } else if from == to {
            self.occurrence(to, tax)
        } else {
            self.occurrences(from, to.prev(), tax) + self.occurrence(to, tax)
        }
    }

    /// The payments over a window of days. In tax mode a cash flow
    /// without withholding makes none.
    pub open spec fn payments(self, from: CalendarDay, to: CalendarDay, tax: bool) -> Seq<
        PaymentView,
    > {
        if tax && self.tax_rate == 0 {
            Seq::empty()
        } else {
            self.occurrences(from, to, tax)
        }
    }
}

/// A recurring or one-off amount that moves into or out of an account.
#[derive(Debug)]
pub struct CashFlow {
    pub name: Option<String>,
    pub amount: i64,
    pub frequency: Frequency,
    pub start_date: Option<Date>,
    pub end_date: Option<Date>,
    /// The part withheld as tax, in millionths; 0 for none.
    pub tax_rate: u32,
    pub tags: Option<Vec<String>>,
}

/// One dated payment of a cash flow.
#[derive(Debug)]
pub struct Payment {
    pub cash_flow: CashFlow,
    pub date: Date,
    pub amount: i64,
}

impl View for CashFlow {
    type V = CashFlowView;

    open spec fn view(&self) -> CashFlowView {
        CashFlowView {
            name: match self.name {
                Some(n) => Some(n@),
                None => None,
            },
            amount: self.amount as int,
            frequency: self.frequency,
            start_date: day_of(self.start_date),
            end_date: day_of(self.end_date),
            tax_rate: self.tax_rate as int,
            tags: match self.tags {
                Some(t) => Some(texts(t@)),
                None => None,
            },
        }
    }
}

impl View for Payment {
    type V = PaymentView;

    open spec fn view(&self) -> PaymentView {
        PaymentView { cash_flow: self.cash_flow@, date: self.date@, amount: self.amount as int }
    }
}

/// The models of a list of payments.
pub open spec fn payment_views(v: Seq<Payment>) -> Seq<PaymentView> {
    v.map_values(|p: Payment| p@)
}

impl Clone for CashFlow {
    fn clone(&self) -> (r: CashFlow)
        ensures
            r@ == self@,
    {
        CashFlow {
            name: match &self.name {
                Some(n) => Some(n.clone()),
                None => None,
            },
            amount: self.amount,
            frequency: self.frequency,
            start_date: self.start_date,
            end_date: self.end_date,
            tax_rate: self.tax_rate,
            tags: match &self.tags {
                Some(t) => Some(copy_strings(t)),
                None => None,
            },
        }
    }
}

impl Clone for Payment {
    fn clone(&self) -> (r: Payment)
        ensures
            r@ == self@,
    {
        Payment { cash_flow: self.cash_flow.clone(), date: self.date, amount: self.amount }
    }
}

impl Payment {
    /// A payment of `amount` on `date`, made by `cash_flow`.
    pub fn new(date: Date, amount: i64, cash_flow: CashFlow) -> (r: Payment)
        ensures
            r.date == date,
            r.amount == amount,
            r.cash_flow == cash_flow,
    {
        Payment { date, amount, cash_flow }
    }
}

/// The models of a list that grew by one payment.
pub proof fn lemma_payment_views_push(v: Seq<Payment>, p: Payment)
    ensures
        payment_views(v.push(p)) == payment_views(v).push(p@),
{
    assert(payment_views(v.push(p)) =~= payment_views(v).push(p@));
}

/// The models of two lists of payments joined.
pub proof fn lemma_payment_views_add(a: Seq<Payment>, b: Seq<Payment>)
    ensures
        payment_views(a + b) == payment_views(a) + payment_views(b),
{
    assert(payment_views(a + b) =~= payment_views(a) + payment_views(b));
}

impl CashFlow {
    /// A cash flow. Without a frequency it pays once; without a tax rate
    /// nothing is withheld.
    pub fn new(
        name: Option<String>,
        amount: i64,
        frequency: Option<Frequency>,
        start_date: Option<Date>,
        end_date: Option<Date>,
        tax_rate: Option<u32>,
        tags: Option<Vec<String>>,
    ) -> (r: CashFlow)
        ensures
            r.name == name,
            r.amount == amount,
            r.frequency == (match frequency {
                Some(f) => f,
                None => Frequency::Once,
            }),
            r.start_date == start_date,
            r.end_date == end_date,
            r.tax_rate == (match tax_rate {
                Some(t) => t,
                None => 0u32,
            }),
            r.tags == tags,
    {
        CashFlow {
            name,
            amount,
            frequency: match frequency {
                Some(f) => f,
                None => Frequency::Once,
            },
            start_date,
            end_date,
            tax_rate: match tax_rate {
                Some(t) => t,
                None => 0,
            },
            tags,
        }
    }

    /// Gives the cash flow the name `name`.
    pub fn set_name(&mut self, name: String)
        ensures
            final(self).name == Some(name),
            final(self).amount == old(self).amount,
            final(self).frequency == old(self).frequency,
            final(self).start_date == old(self).start_date,
            final(self).end_date == old(self).end_date,
            final(self).tax_rate == old(self).tax_rate,
            final(self).tags == old(self).tags,
    {
        self.name = Some(name);
    }

    /// Whether payments can be drawn from the cash flow; see
    /// [`CashFlowView::is_valid`].
    pub fn is_valid(&self) -> (r: bool)
        ensures
            r == self@.is_valid(),
    {
        self.tax_rate <= RATE_SCALE && self.amount > i64::MIN && (match self.frequency {
            Frequency::Annually => self.start_date.is_some(),
            _ => true,
        }) && (self.tax_rate == 0 || self.name.is_some())
    }

    /// The payment that the cash flow makes on `d`, where it pays on `d`.
    fn payment_on(&self, d: Date, tax: bool) -> (p: Payment)
        requires
            self@.can_pay(tax),
            tax ==> self.tax_rate != 0,
        ensures
            p@ == self@.payment_on(d@, tax),
    {
        if tax {
            let mut flow: CashFlow = self.clone();
            let mut label: String = match &self.name {
                Some(n) => n.clone(),
                None => String::new(),
            };
            label.push_str(" Tax");
            flow.set_name(label);
            Payment::new(d, withheld(self.amount, self.tax_rate), flow)
        } else {
            Payment::new(d, self.amount, self.clone())
        }
    }

    /// The payments that the cash flow makes from `start_date` to
    /// `end_date`, both included, in the order of the days: its amounts,
    /// or in tax mode the withholdings on them.
    pub fn payments(&self, start_date: Date, end_date: Date, tax_payments: bool) -> (r: Vec<
        Payment,
    >)
        requires
            self@.can_pay(tax_payments),
        ensures
            payment_views(r@) == self@.payments(start_date@, end_date@, tax_payments),
    {
        let mut out: Vec<Payment> = Vec::new();
        if (tax_payments && self.tax_rate == 0) || end_date.is_before(&start_date) {
            proof {
                assert(payment_views(out@) =~= Seq::empty());
            }
            return out;
        }
        let mut d: Date = start_date;
        proof {
            assert(payment_views(out@) =~= Seq::empty());
            crate::date::lemma_prev_day(start_date@);
        }
        loop
            invariant
                self@.can_pay(tax_payments),
                !(tax_payments && self.tax_rate == 0),
                start_date@.is_valid(),
                end_date@.is_valid(),
                d@.is_valid(),
                start_date@.not_after(d@),
                d@.not_after(end_date@),
                payment_views(out@) == self@.occurrences(start_date@, d@.prev(), tax_payments),
            decreases end_date@.year - d@.year, 12 - d@.month, 31 - d@.day,
        {
            if self.frequency.matches(&d, &self.start_date, &self.end_date) {
                let p: Payment = self.payment_on(d, tax_payments);
                proof {
                    lemma_payment_views_push(out@, p);
                }
                out.push(p);
            }
            proof {
                assert(payment_views(out@) =~= self@.occurrences(
                    start_date@,
                    d@,
                    tax_payments,
                ));
            }
            if d.is_same(&end_date) {
                return out;
            }
            proof {
                crate::date::lemma_before_not_last(d@, end_date@);
                crate::date::lemma_next_day(d@);
            }
            match d.succ_opt() {
                Some(next) => {
                    d = next;
                },
                None => {
                    return out;
                },
            }
        }
    }
}

/// Without bounds, the rule `MonthStart` pays on the first day of every
/// month of every year and on no other day.
pub proof fn lemma_month_start_unbounded(d: CalendarDay)
    ensures
        Frequency::MonthStart.spec_matches(d, None, None) <==> d.day == 1,
{
}

/// Without bounds, the rule `MonthEnd` pays on the 28th of February of
/// every year and never on the 29th: the month lengths that it goes by are
/// those of a year without a 29th of February.
pub proof fn lemma_month_end_february(year: int)
    ensures
        Frequency::MonthEnd.spec_matches(CalendarDay { year, month: 2, day: 28 }, None, None),
        !Frequency::MonthEnd.spec_matches(CalendarDay { year, month: 2, day: 29 }, None, None),
{
}

/// A cash flow without withholding makes no payment in tax mode, whatever
/// the window.
pub proof fn lemma_untaxed_pays_no_tax(flow: CashFlowView, from: CalendarDay, to: CalendarDay)
    requires
        flow.tax_rate == 0,
    ensures
        flow.payments(from, to, true) == Seq::<PaymentView>::empty(),
{
}

/// The payments of a cash flow over a window come in the order of their
/// days, no two on the same day, and all within the window.
pub proof fn lemma_payments_in_date_order(
    flow: CashFlowView,
    from: CalendarDay,
    to: CalendarDay,
    tax: bool,
)
    ensures
        forall|i: int|
            0 <= i < flow.payments(from, to, tax).len() ==> from.not_after(
                (#[trigger] flow.payments(from, to, tax)[i]).date,
            ) && flow.payments(from, to, tax)[i].date.not_after(to),
        forall|i: int, j: int|
            0 <= i < j < flow.payments(from, to, tax).len() ==> (#[trigger] flow.payments(
                from,
                to,
                tax,
            )[i]).date.before((#[trigger] flow.payments(from, to, tax)[j]).date),
{
    lemma_occurrences_in_date_order(flow, from, to, tax);
}

/// The step of [`lemma_payments_in_date_order`]: the same for the payments
/// of every day of the window.
pub proof fn lemma_occurrences_in_date_order(
    flow: CashFlowView,
    from: CalendarDay,
    to: CalendarDay,
    tax: bool,
)
    ensures
        forall|i: int|
            0 <= i < flow.occurrences(from, to, tax).len() ==> from.not_after(
                (#[trigger] flow.occurrences(from, to, tax)[i]).date,
            ) && flow.occurrences(from, to, tax)[i].date.not_after(to),
        forall|i: int, j: int|
            0 <= i < j < flow.occurrences(from, to, tax).len() ==> (#[trigger] flow.occurrences(
                from,
                to,
                tax,
            )[i]).date.before((#[trigger] flow.occurrences(from, to, tax)[j]).date),
    decreases to.year - from.year, to.month, to.day,
{
    if !from.is_valid() || !to.is_valid() || to.before(from) {
    } else if from == to {
    } else {
        crate::date::lemma_prev_day(to);
        lemma_occurrences_in_date_order(flow, from, to.prev(), tax);
        let earlier = flow.occurrences(from, to.prev(), tax);
        let all = flow.occurrences(from, to, tax);
        assert(all == earlier + flow.occurrence(to, tax));
        assert forall|i: int| 0 <= i < all.len() implies from.not_after((#[trigger] all[i]).date)
            && all[i].date.not_after(to) by {
            if i < earlier.len() {
                assert(all[i] == earlier[i]);
            }
        }
        assert forall|i: int, j: int| 0 <= i < j < all.len() implies (#[trigger] all[i]).date.before(
            (#[trigger] all[j]).date,
        ) by {
            assert(all[i] == earlier[i]);
            if j < earlier.len() {
                assert(all[j] == earlier[j]);
            }
        }
    }
}

} // verus!
