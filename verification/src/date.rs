//! Calendar dates of the proleptic Gregorian calendar.
//!
//! A [`Date`] is a plain year, month and day that is known to exist. The
//! calendar itself (which days exist, which day follows which) is taken from
//! `chrono`; the contracts state it over [`CalendarDay`], the mathematical
//! model of a date.

use chrono::Datelike;
use chrono::NaiveDate;
use vstd::prelude::*;

verus! {

/// The first year that a [`Date`] can hold.
pub const MIN_YEAR: i32 = -262_143;

/// The last year that a [`Date`] can hold.
pub const MAX_YEAR: i32 = 262_142;

/// Whether `year` has a 29th of February.
pub open spec fn is_leap_year(year: int) -> bool {
    year % 4 == 0 && (year % 100 != 0 || year % 400 == 0)
}

/// The number of days of `month` (1 to 12) in `year`.
pub open spec fn month_length(year: int, month: int) -> int {
    if month == 2 {
        if is_leap_year(year) {
            29
        } else {
            28
        }
    } else if month == 4 || month == 6 || month == 9 || month == 11 {
        30
    } else {
        31
    }
}

/// The mathematical model of a date: a year, a month and a day of the month.
pub struct CalendarDay {
    pub year: int,
    pub month: int,
    pub day: int,
}

impl CalendarDay {
    /// The day exists in the calendar and its year is one that a [`Date`] can hold.
    pub open spec fn is_valid(self) -> bool {
        &&& MIN_YEAR <= self.year <= MAX_YEAR
        &&& 1 <= self.month <= 12
        &&& 1 <= self.day <= month_length(self.year, self.month)
    }

    /// The last day that a [`Date`] can hold.
    pub open spec fn is_last(self) -> bool {
        self.year == MAX_YEAR && self.month == 12 && self.day == 31
    }

    /// The day after this one.
    pub open spec fn next(self) -> CalendarDay {
        if self.day < month_length(self.year, self.month) {
            CalendarDay { year: self.year, month: self.month, day: self.day + 1 }
        } else if self.month < 12 {
            CalendarDay { year: self.year, month: self.month + 1, day: 1 }
        } else {
            CalendarDay { year: self.year + 1, month: 1, day: 1 }
        }
    }

    /// The day before this one.
    pub open spec fn prev(self) -> CalendarDay {
        if self.day > 1 {
            CalendarDay { year: self.year, month: self.month, day: self.day - 1 }
        } else if self.month > 1 {
            CalendarDay {
                year: self.year,
                month: self.month - 1,
                day: month_length(self.year, self.month - 1),
            }
        } else {
            CalendarDay { year: self.year - 1, month: 12, day: 31 }
        }
    }

    /// This day is strictly earlier than `other`.
    pub open spec fn before(self, other: CalendarDay) -> bool {
        self.year < other.year || (self.year == other.year && (self.month < other.month || (
        self.month == other.month && self.day < other.day)))
    }

    /// This day is `other` or earlier.
    pub open spec fn not_after(self, other: CalendarDay) -> bool {
        self == other || self.before(other)
    }
}

/// A date that exists: its model is always a valid [`CalendarDay`].
#[derive(Clone, Copy, Debug, PartialEq, Eq, Hash)]
pub struct Date {
    year: i32,
    month: u32,
    day: u32,
}

impl View for Date {
    type V = CalendarDay;

    closed spec fn view(&self) -> CalendarDay {
        CalendarDay { year: self.year as int, month: self.month as int, day: self.day as int }
    }
}

/// `chrono::NaiveDate::from_ymd_opt`, with the date read back through
/// `Datelike::year`, `month` and `day`. Claimed of it: the result is `Some`
/// exactly for a day that exists and whose year lies between [`MIN_YEAR`] and
/// [`MAX_YEAR`], and then holds that year, month and day unchanged.
#[verifier::external_body]
fn chrono_from_ymd(year: i32, month: u32, day: u32) -> (r: Option<(i32, u32, u32)>)
    ensures
        r == (if (CalendarDay { year: year as int, month: month as int, day: day as int }).is_valid() {
            Some((year, month, day))
        } else {
            None
        }),
{
    match NaiveDate::from_ymd_opt(year, month, day) {
        Some(d) => Some((d.year(), d.month(), d.day())),
        None => None,
    }
}

/// `chrono::NaiveDate::succ_opt`, on the date built by
/// `NaiveDate::from_ymd_opt` and read back through `Datelike`. Claimed of it:
/// the result is the next day of the calendar, and `None` only on the last
/// day that can be held.
#[verifier::external_body]
fn chrono_succ(year: i32, month: u32, day: u32) -> (r: Option<(i32, u32, u32)>)
    requires
        (CalendarDay { year: year as int, month: month as int, day: day as int }).is_valid(),
    ensures
        ({
            let c = CalendarDay { year: year as int, month: month as int, day: day as int };
            match r {
                Some(n) => !c.is_last() && c.next() == (CalendarDay {
                    year: n.0 as int,
                    month: n.1 as int,
                    day: n.2 as int,
                }),
                None => c.is_last(),
            }
        }),
{
    match NaiveDate::from_ymd_opt(year, month, day) {
        Some(d) => match d.succ_opt() {
            Some(n) => Some((n.year(), n.month(), n.day())),
            None => None,
        },
        None => None,
    }
}

impl Date {
    #[verifier::type_invariant]
    spec fn well_formed(self) -> bool {
        self@.is_valid()
    }

    /// The date of the given year, month and day, if that day exists.
    pub fn from_ymd_opt(year: i32, month: u32, day: u32) -> (r: Option<Date>)
        ensures
            (CalendarDay { year: year as int, month: month as int, day: day as int }).is_valid()
                <==> r.is_some(),
            r.is_some() ==> r.unwrap()@ == (CalendarDay {
                year: year as int,
                month: month as int,
                day: day as int,
            }),
    {
        match chrono_from_ymd(year, month, day) {
            Some(ymd) => Some(Date { year: ymd.0, month: ymd.1, day: ymd.2 }),
            None => None,
        }
    }

    /// The year.
    pub fn year(&self) -> (r: i32)
        ensures
            r == self@.year,
            self@.is_valid(),
    {
        proof {
            use_type_invariant(self);
        }
        self.year
    }

    /// The month, from 1 to 12.
    pub fn month(&self) -> (r: u32)
        ensures
            r == self@.month,
            self@.is_valid(),
    {
        proof {
            use_type_invariant(self);
        }
        self.month
    }

    /// The day of the month, from 1.
    pub fn day(&self) -> (r: u32)
        ensures
            r == self@.day,
            self@.is_valid(),
    {
        proof {
            use_type_invariant(self);
        }
        self.day
    }

    /// The next day, or `None` on the last day that can be held.
    pub fn succ_opt(&self) -> (r: Option<Date>)
        ensures
            self@.is_valid(),
            r.is_none() <==> self@.is_last(),
            r.is_some() ==> r.unwrap()@ == self@.next() && r.unwrap()@.is_valid(),
    {
        proof {
            use_type_invariant(self);
        }
        match chrono_succ(self.year, self.month, self.day) {
            Some(ymd) => {
                let next = Date { year: ymd.0, month: ymd.1, day: ymd.2 };
                Some(next)
            },
            None => None,
        }
    }

    /// Whether this date is strictly earlier than `other`.
    pub fn is_before(&self, other: &Date) -> (r: bool)
        ensures
            r == self@.before(other@),
            self@.is_valid(),
            other@.is_valid(),
    {
        proof {
            use_type_invariant(self);
            use_type_invariant(other);
        }
        self.year < other.year || (self.year == other.year && (self.month < other.month || (
        self.month == other.month && self.day < other.day)))
    }

    /// Whether this date is `other` or earlier.
    pub fn is_not_after(&self, other: &Date) -> (r: bool)
        ensures
            r == self@.not_after(other@),
            self@.is_valid(),
            other@.is_valid(),
    {
        !other.is_before(self)
    }

    /// Whether the two dates are the same day.
    pub fn is_same(&self, other: &Date) -> (r: bool)
        ensures
            r == (self@ == other@),
            self@.is_valid(),
            other@.is_valid(),
    {
        proof {
            use_type_invariant(self);
            use_type_invariant(other);
        }
        self.year == other.year && self.month == other.month && self.day == other.day
    }
}

/// Stepping to the next day and back gives the same day, and the next day
/// is the first one after it.
pub proof fn lemma_next_day(d: CalendarDay)
    requires
        d.is_valid(),
        !d.is_last(),
    ensures
        d.next().is_valid(),
        d.next().prev() == d,
        d.before(d.next()),
        forall|e: CalendarDay| e.is_valid() && d.before(e) ==> #[trigger] d.next().not_after(e),
{
}

/// Stepping to the previous day and forward gives the same day, and the
/// previous day is the last one before it.
pub proof fn lemma_prev_day(d: CalendarDay)
    requires
        d.is_valid(),
    ensures
        d.prev().next() == d,
        d.prev().before(d),
        d.prev().year >= MIN_YEAR ==> d.prev().is_valid(),
        forall|e: CalendarDay| e.is_valid() && e.before(d) ==> #[trigger] e.not_after(d.prev()),
{
}

/// A day that has a valid day after it is not the last day.
pub proof fn lemma_before_not_last(d: CalendarDay, e: CalendarDay)
    requires
        d.before(e),
        e.is_valid(),
    ensures
        !d.is_last(),
{
}

/// The days from `from` to `to`, both included, in their order; none
/// where `to` is before `from`.
pub open spec fn days_between(from: CalendarDay, to: CalendarDay) -> Seq<CalendarDay>
    decreases to.year - from.year, to.month, to.day,
{
    if !from.is_valid() || !to.is_valid() || to.before(from) {
        Seq::empty()
    } else if from == to {
        seq![to]
    } else {
        days_between(from, to.prev()).push(to)
    }
}

/// The models of a list of dates.
pub open spec fn date_views(v: Seq<Date>) -> Seq<CalendarDay> {
    v.map_values(|d: Date| d@)
}

/// The dates from `start` to `end`, both included, in their order.
pub fn date_sequence(start: Date, end: Date) -> (r: Vec<Date>)
    ensures
        date_views(r@) == days_between(start@, end@),
{
    let mut dates: Vec<Date> = Vec::new();
    proof {
        assert(date_views(dates@) =~= Seq::empty());
    }
    if end.is_before(&start) {
        return dates;
    }
    let mut current: Date = start;
    proof {
        lemma_prev_day(start@);
    }
    loop
        invariant
            start@.is_valid(),
            end@.is_valid(),
            current@.is_valid(),
            start@.not_after(current@),
            current@.not_after(end@),
            date_views(dates@) == days_between(start@, current@.prev()),
        decreases end@.year - current@.year, 12 - current@.month, 31 - current@.day,
    {
        proof {
            assert(date_views(dates@.push(current)) =~= date_views(dates@).push(current@));
        }
        dates.push(current);
        if current.is_same(&end) {
            return dates;
        }
        proof {
            lemma_before_not_last(current@, end@);
            lemma_next_day(current@);
        }
        match current.succ_opt() {
            Some(next) => {
                current = next;
            },
            None => {
                return dates;
            },
        }
    }
}

} // verus!
