//! The simulation: day by day and account by account, the balance that
//! the cash flows alone give, the balance that also grows with the
//! account's portfolio, and the payments of the day.

use crate::account::sum_amounts;
use crate::account::total;
use crate::account::Account;
use crate::balance::BalanceCache;
use crate::cash::Frequency;
use crate::cash::Payment;
use crate::cash::PaymentView;
use crate::date::CalendarDay;
use crate::date::Date;
use crate::portfolio::amounts;
use crate::portfolio::draw_views;
use crate::portfolio::invest_error;
use crate::portfolio::invested;
use crate::portfolio::Invest;
use crate::portfolio::InvestError;
use crate::portfolio::Portfolio;
use crate::scenario::invested_account_views;
use crate::scenario::lemma_balance_views_push;
use crate::scenario::portfolio_of;
use crate::scenario::AccountBalance;
use crate::scenario::AccountBalanceView;
use crate::scenario::InvestedAccount;
use crate::scenario::InvestedAccountView;
use crate::scenario::Scenario;
use crate::scenario::SimulationResult;
use crate::scenario::SimulationResultView;
use vstd::prelude::*;

verus! {

/// Why a simulation could not be run to its end.
#[derive(Clone, Copy, Debug, PartialEq, Eq, Structural)]
pub enum SimError {
    /// The scenario asks for no samples at all.
    NoSamples,
    /// An account has a cash flow from which no payments can be drawn.
    InvalidAccount,
    /// A portfolio has an asset with a negative spread.
    InvalidPortfolio,
    /// The scenario ends on the last day that can be held, so that the day
    /// after it cannot be reached.
    DateOutOfRange,
    /// A balance is too large to hold.
    Overflow,
    /// The portfolio of an account could not be applied.
    Invest(InvestError),
}

/// The state of the simulation for one account name: the result so far
/// and the invested balance of each sample after the last step, if there
/// was one.
pub struct TrackView {
    pub name: Seq<char>,
    pub result: SimulationResultView,
    pub prev: Option<Seq<int>>,
}

/// The sum of a list of amounts.
pub open spec fn sum(v: Seq<int>) -> int
    decreases v.len(),
{
    if v.len() == 0 {
        0
    } else {
        sum(v.drop_last()) + v.last()
    }
}

/// The mean of a list of amounts, rounded towards 0; 0 for an empty list.
pub open spec fn mean(v: Seq<int>) -> int {
    if v.len() == 0 {
        0
    } else if sum(v) >= 0 {
        sum(v) / (v.len() as int)
    } else {
        -((-sum(v)) / (v.len() as int))
    }
}

/// The place of the first track named `name`, or the number of tracks
/// where none has that name.
pub open spec fn find(tracks: Seq<TrackView>, name: Seq<char>) -> int
    decreases tracks.len(),
{
    if tracks.len() == 0 {
        0
    } else {
        let k = find(tracks.drop_last(), name);
        if k < tracks.len() - 1 {
            k
        } else if tracks.last().name == name {
            tracks.len() - 1
        } else {
            tracks.len() as int
        }
    }
}

/// The tracks before the first day, for the first `k` accounts: one
/// empty track for each name, in the order in which the names first occur.
pub open spec fn initial_tracks(accounts: Seq<InvestedAccountView>, k: int) -> Seq<TrackView>
    decreases k,
{
    if k <= 0 {
        Seq::empty()
    } else {
        let before = initial_tracks(accounts, k - 1);
        let name = accounts[k - 1].account.name;
        if find(before, name) < before.len() {
            before
        } else {
            before.push(
                TrackView {
                    name,
                    result: SimulationResultView {
                        balances: Seq::empty(),
                        uninvested_balances: Seq::empty(),
                        payments: Seq::empty(),
                    },
                    prev: None,
                },
            )
        }
    }
}

/// Whether every amount of the list can be held.
pub open spec fn all_fit(v: Seq<int>) -> bool {
    forall|j: int| 0 <= j < v.len() ==> i64::MIN <= #[trigger] v[j] <= i64::MAX
}

/// The balance that a step starts from, sample by sample: after an
/// earlier step the balance that it left and the payments of the day; on
/// the first step the balance that the cash flows alone give.
pub open spec fn carried(prev: Option<Seq<int>>, flow: int, base: int, n: int) -> Seq<int> {
    match prev {
        Some(p) => Seq::new(p.len(), |j: int| p[j] + flow),
        None => Seq::new(n as nat, |j: int| base),
    }
}

/// The tracks after the track at `k` took up one day of the account
/// `name`: the mean of `bd` as the invested balance, the mean of
/// `uninvested` as the balance of the cash flows alone, and the payments of
/// the day; `bd` is what the next step starts from.
pub open spec fn record(
    tracks: Seq<TrackView>,
    k: int,
    name: Seq<char>,
    d: CalendarDay,
    uninvested: Seq<int>,
    bd: Seq<int>,
    flows: Seq<PaymentView>,
) -> Seq<TrackView> {
    tracks.update(
        k,
        TrackView {
            name: tracks[k].name,
            result: SimulationResultView {
                balances: tracks[k].result.balances.push(
                    AccountBalanceView { date: d, account_name: name, balance: mean(bd) },
                ),
                uninvested_balances: tracks[k].result.uninvested_balances.push(
                    AccountBalanceView { date: d, account_name: name, balance: mean(uninvested) },
                ),
                payments: tracks[k].result.payments + flows,
            },
            prev: Some(bd),
        },
    )
}

/// One step: the account `ia` on the day `d`, in `n` samples.
///
/// The step starts from the balance that the track of the account's name
/// holds from the step before and the payments of the day, or on the first
/// step of that name from the balance that the cash flows alone give. With
/// a portfolio that balance grows by the returns of the day. The step
/// fails where a balance cannot be held or the portfolio cannot be applied.
pub open spec fn step_account(
    tracks: Seq<TrackView>,
    ia: InvestedAccountView,
    d: CalendarDay,
    n: int,
    period: Frequency,
    draws: Seq<Seq<int>>,
) -> Result<Seq<TrackView>, SimError> {
    let k = find(tracks, ia.account.name);
    let base = ia.account.balance_on(d);
    let flows = ia.account.flows_at(d);
    let uninvested = Seq::new(n as nat, |j: int| base);
    let bd = carried(tracks[k].prev, total(flows), base, n);
    if !ia.account.balances_fit(d) || !all_fit(bd) {
        Err(SimError::Overflow)
    } else {
        match ia.portfolio {
            Some(p) => match invest_error(bd, p, n, period, draws) {
                Some(e) => Err(SimError::Invest(e)),
                None => Ok(
                    record(
                        tracks,
                        k,
                        ia.account.name,
                        d,
                        uninvested,
                        invested(bd, p, period, draws),
                        flows,
                    ),
                ),
            },
            None => Ok(record(tracks, k, ia.account.name, d, uninvested, bd, flows)),
        }
    }
}

/// The draws for the account at `a` among the draws of one day; none
/// where the day has no draws for it.
pub open spec fn account_draws(day: Seq<Seq<Seq<int>>>, a: int) -> Seq<Seq<int>> {
    if 0 <= a < day.len() {
        day[a]
    } else {
        Seq::empty()
    }
}

/// The draws of the day at `k` among the draws of a run; none where the
/// run has no draws for it.
pub open spec fn day_draws(draws: Seq<Seq<Seq<Seq<int>>>>, k: int) -> Seq<Seq<Seq<int>>> {
    if 0 <= k < draws.len() {
        draws[k]
    } else {
        Seq::empty()
    }
}

/// One day: the steps of the first `a` accounts, in the order of the
/// scenario. The first step that fails ends the day.
pub open spec fn run_day(
    tracks: Seq<TrackView>,
    accounts: Seq<InvestedAccountView>,
    a: int,
    d: CalendarDay,
    n: int,
    period: Frequency,
    draws: Seq<Seq<Seq<int>>>,
) -> Result<Seq<TrackView>, SimError>
    decreases a,
{
    if a <= 0 {
        Ok(tracks)
    } else {
        match run_day(tracks, accounts, a - 1, d, n, period, draws) {
            Ok(t) => step_account(t, accounts[a - 1], d, n, period, account_draws(draws, a - 1)),
            Err(e) => Err(e),
        }
    }
}

/// The days from `start` to `d`, both included: the tracks after them, or
/// the first failure, and the number of days.
pub open spec fn run_through(
    accounts: Seq<InvestedAccountView>,
    start: CalendarDay,
    d: CalendarDay,
    n: int,
    period: Frequency,
    draws: Seq<Seq<Seq<Seq<int>>>>,
) -> (Result<Seq<TrackView>, SimError>, int)
    decreases d.year - start.year, d.month, d.day,
{
    if !start.is_valid() || !d.is_valid() || d.before(start) {
        (Ok(initial_tracks(accounts, accounts.len() as int)), 0)
    } else {
        let (before, days) = if d == start {
            (Ok(initial_tracks(accounts, accounts.len() as int)), 0)
        } else {
            run_through(accounts, start, d.prev(), n, period, draws)
        };
        (
            match before {
                Ok(t) => run_day(
                    t,
                    accounts,
                    accounts.len() as int,
                    d,
                    n,
                    period,
                    day_draws(draws, days),
                ),
                Err(e) => Err(e),
            },
            days + 1,
        )
    }
}

/// The state of a run for one account name.
pub struct Track {
    pub name: String,
    pub result: SimulationResult,
    pub prev: Option<Vec<i64>>,
}

impl View for Track {
    type V = TrackView;

    open spec fn view(&self) -> TrackView {
        TrackView {
            name: self.name@,
            result: self.result@,
            prev: match self.prev {
                Some(p) => Some(amounts(p@)),
                None => None,
            },
        }
    }
}

/// The models of a list of tracks.
pub open spec fn track_views(v: Seq<Track>) -> Seq<TrackView> {
    v.map_values(|t: Track| t@)
}

/// Every track that has a balance from an earlier step has one for each
/// of `n` samples.
pub open spec fn tracks_ready(tracks: Seq<TrackView>, n: int) -> bool {
    forall|k: int|
        0 <= k < tracks.len() && (#[trigger] tracks[k]).prev is Some ==> tracks[k].prev->Some_0.len()
            == n
}

/// What [`find`] gives: a place within the list or its length; at the
/// place stands a track of the name, and no earlier track has it.
pub proof fn lemma_find(tracks: Seq<TrackView>, name: Seq<char>)
    ensures
        0 <= find(tracks, name) <= tracks.len(),
        find(tracks, name) < tracks.len() ==> tracks[find(tracks, name)].name == name,
        forall|i: int| 0 <= i < find(tracks, name) ==> (#[trigger] tracks[i]).name != name,
    decreases tracks.len(),
{
    if tracks.len() > 0 {
        lemma_find(tracks.drop_last(), name);
        let k = find(tracks.drop_last(), name);
        assert forall|i: int| 0 <= i < find(tracks, name) implies (#[trigger] tracks[i]).name
            != name by {
            if i < tracks.len() - 1 {
                assert(tracks[i] == tracks.drop_last()[i]);
            }
        }
        if k < tracks.len() - 1 {
            assert(tracks[k] == tracks.drop_last()[k]);
        }
    }
}

/// The place of the first track named `name`; see [`find`].
fn find_track(tracks: &Vec<Track>, name: &String) -> (k: usize)
    ensures
        k == find(track_views(tracks@), name@),
{
    let ghost model = track_views(tracks@);
    let mut i: usize = 0;
    while i < tracks.len()
        invariant
            i <= tracks.len(),
            model == track_views(tracks@),
            forall|j: int| 0 <= j < i ==> (#[trigger] model[j]).name != name@,
        decreases tracks.len() - i,
    {
        if tracks[i].name == *name {
            proof {
                lemma_find(model, name@);
                assert(model[i as int].name == name@);
            }
            return i;
        }
        i = i + 1;
    }
    proof {
        lemma_find(model, name@);
    }
    i
}

/// The sum of a list that grew by one amount.
pub proof fn lemma_sum_push(v: Seq<int>, x: int)
    ensures
        sum(v.push(x)) == sum(v) + x,
{
    assert(v.push(x).drop_last() =~= v);
}

/// The mean of a list of amounts; see [`mean`].
pub fn mean_of(v: &Vec<i64>) -> (r: i64)
    requires
        v.len() > 0,
    ensures
        r == mean(amounts(v@)),
{
    let n: usize = v.len();
    let mut acc: i128 = 0;
    let mut i: usize = 0;
    while i < n
        invariant
            i <= n,
            n == v.len(),
            acc == sum(amounts(v@.subrange(0, i as int))),
            -(i * 0x8000_0000_0000_0000) <= acc <= i * 0x7fff_ffff_ffff_ffff,
        decreases n - i,
    {
        proof {
            lemma_sum_push(amounts(v@.subrange(0, i as int)), v@[i as int] as int);
            assert(amounts(v@.subrange(0, i as int)).push(v@[i as int] as int) =~= amounts(
                v@.subrange(0, i + 1),
            ));
        }
        acc = acc + v[i] as i128;
        i = i + 1;
    }
    proof {
        assert(v@.subrange(0, n as int) =~= v@);
    }
    if acc >= 0 {
        let q: u128 = (acc as u128) / (n as u128);
        proof {
            assert(q <= 0x7fff_ffff_ffff_ffff) by (nonlinear_arith)
                requires
                    q == (acc as int) / (n as int),
                    0 <= acc <= n * 0x7fff_ffff_ffff_ffff,
                    n > 0,
            ;
        }
        q as i64
    } else {
        let q: u128 = ((-acc) as u128) / (n as u128);
        proof {
            assert(q <= 0x8000_0000_0000_0000) by (nonlinear_arith)
                requires
                    q == (-(acc as int)) / (n as int),
                    0 <= -acc <= n * 0x8000_0000_0000_0000,
                    n > 0,
            ;
        }
        (-(q as i128)) as i64
    }
}

/// The balance that a step starts from; see [`carried`]. `None` where an
/// amount of it cannot be held.
fn carry(prev: &Option<Vec<i64>>, flow: i128, uninvested: &Vec<i64>) -> (r: Option<Vec<i64>>)
    requires
        -0x7fff_ffff_ffff_ffff_8000_0000_0000_0000 <= flow
            <= 0x7fff_ffff_ffff_ffff_8000_0000_0000_0000,
    ensures
        ({
            let model = match *prev {
                Some(p) => Seq::new(p@.len(), |j: int| p@[j] + flow),
                None => amounts(uninvested@),
            };
            match r {
                Some(v) => all_fit(model) && amounts(v@) == model,
                None => !all_fit(model),
            }
        }),
{
    let mut out: Vec<i64> = Vec::new();
    match prev {
        Some(p) => {
            let mut j: usize = 0;
            while j < p.len()
                invariant
                    j <= p.len(),
                    *prev == Some(*p),
                    -0x7fff_ffff_ffff_ffff_8000_0000_0000_0000 <= flow
                        <= 0x7fff_ffff_ffff_ffff_8000_0000_0000_0000,
                    out@.len() == j,
                    forall|k: int| 0 <= k < j ==> (#[trigger] out@[k]) == p@[k] + flow,
                decreases p.len() - j,
            {
                let wide: i128 = p[j] as i128 + flow;
                if wide < i64::MIN as i128 || wide > i64::MAX as i128 {
                    proof {
                        let model = Seq::new(p@.len(), |k: int| p@[k] + flow);
                        assert(!(i64::MIN <= model[j as int] <= i64::MAX));
                    }
                    return None;
                }
                out.push(wide as i64);
                j = j + 1;
            }
            proof {
                assert(amounts(out@) =~= Seq::new(p@.len(), |k: int| p@[k] + flow));
            }
        },
        None => {
            let mut j: usize = 0;
            while j < uninvested.len()
                invariant
                    j <= uninvested.len(),
                    out@ == uninvested@.subrange(0, j as int),
                decreases uninvested.len() - j,
            {
                out.push(uninvested[j]);
                proof {
                    assert(out@ =~= uninvested@.subrange(0, j + 1));
                }
                j = j + 1;
            }
            proof {
                assert(uninvested@.subrange(0, uninvested.len() as int) =~= uninvested@);
            }
        },
    }
    Some(out)
}

/// One step of the account that `cache` holds, on the day `d`; see
/// [`step_account`].
fn step(
    tracks: &mut Vec<Track>,
    cache: &mut BalanceCache,
    portfolio: &Option<Portfolio>,
    d: Date,
    n: usize,
    period: &Frequency,
    draws: &Vec<Vec<i32>>,
) -> (r: Result<(), SimError>)
    requires
        old(cache).wf(),
        n > 0,
        find(track_views(old(tracks)@), old(cache).account().name) < old(tracks)@.len(),
        tracks_ready(track_views(old(tracks)@), n as int),
    ensures
        final(cache).wf(),
        final(cache).account() == old(cache).account(),
        match step_account(
            track_views(old(tracks)@),
            InvestedAccountView {
                account: old(cache).account(),
                portfolio: portfolio_of(*portfolio),
            },
            d@,
            n as int,
            *period,
            draw_views(draws@),
        ) {
            Ok(t) => {
                &&& r is Ok
                &&& track_views(final(tracks)@) == t
                &&& tracks_ready(t, n as int)
                &&& t.len() == old(tracks)@.len()
                &&& forall|i: int|
                    0 <= i < t.len() ==> (#[trigger] t[i]).name == track_views(old(tracks)@)[i].name
            },
            Err(e) => r == Err::<(), SimError>(e),
        },
{
    let ghost before = track_views(tracks@);
    let ghost account_model = cache.account();
    let uninvested: Vec<i64> = match cache.balance_at(d, n) {
        Ok(v) => v,
        Err(_) => {
            return Err(SimError::Overflow);
        },
    };
    let account: &Account = cache.account_ref();
    let mut flows: Vec<Payment> = account.flows_at(d);
    let flow: i128 = sum_amounts(&flows);
    let k: usize = find_track(tracks, &account.name);
    let ghost base = account_model.balance_on(d@);
    let ghost start = carried(before[k as int].prev, flow as int, base, n as int);
    proof {
        assert(before[k as int] == tracks@[k as int]@);
        assert(amounts(uninvested@) =~= Seq::new(n as nat, |j: int| base));
        match tracks@[k as int].prev {
            Some(p) => {
                assert(Seq::new(p@.len(), |j: int| p@[j] + flow) =~= start);
            },
            None => {},
        }
    }
    let bd0: Vec<i64> = match carry(&tracks[k].prev, flow, &uninvested) {
        Some(v) => v,
        None => {
            return Err(SimError::Overflow);
        },
    };
    let bd: Vec<i64> = match portfolio {
        Some(p) => match account.invest(&bd0, p, &n, period, draws) {
            Ok(v) => v,
            Err(e) => {
                return Err(SimError::Invest(e));
            },
        },
        None => bd0,
    };
    let invested_mean: i64 = mean_of(&bd);
    let uninvested_mean: i64 = mean_of(&uninvested);
    let plain: AccountBalance = AccountBalance {
        date: d,
        account_name: account.name.clone(),
        balance: uninvested_mean,
    };
    let grown: AccountBalance = AccountBalance {
        date: d,
        account_name: account.name.clone(),
        balance: invested_mean,
    };
    proof {
        lemma_balance_views_push(tracks@[k as int].result.uninvested_balances@, plain);
        lemma_balance_views_push(tracks@[k as int].result.balances@, grown);
        crate::cash::lemma_payment_views_add(tracks@[k as int].result.payments@, flows@);
    }
    tracks[k].result.uninvested_balances.push(plain);
    tracks[k].result.balances.push(grown);
    tracks[k].result.payments.append(&mut flows);
    tracks[k].prev = Some(bd);
    proof {
        let after = record(
            before,
            k as int,
            account_model.name,
            d@,
            amounts(uninvested@),
            amounts(bd@),
            account_model.flows_at(d@),
        );
        assert(track_views(tracks@) =~= after);
    }
    Ok(())
}

/// Where a name is found depends on the names of the tracks alone.
pub proof fn lemma_find_by_names(a: Seq<TrackView>, b: Seq<TrackView>, name: Seq<char>)
    requires
        a.len() == b.len(),
        forall|i: int| 0 <= i < a.len() ==> (#[trigger] a[i]).name == b[i].name,
    ensures
        find(a, name) == find(b, name),
    decreases a.len(),
{
    if a.len() > 0 {
        assert forall|i: int| 0 <= i < a.drop_last().len() implies (#[trigger] a.drop_last()[i]).name
            == b.drop_last()[i].name by {
            assert(a.drop_last()[i] == a[i]);
            assert(b.drop_last()[i] == b[i]);
        }
        lemma_find_by_names(a.drop_last(), b.drop_last(), name);
    }
}

/// A name that has a track keeps its place when a track is added, and the
/// name of the added track has a track.
pub proof fn lemma_find_push(tracks: Seq<TrackView>, added: TrackView, name: Seq<char>)
    ensures
        find(tracks, name) < tracks.len() ==> find(tracks.push(added), name) == find(tracks, name),
        added.name == name ==> find(tracks.push(added), name) < tracks.len() + 1,
{
    assert(tracks.push(added).drop_last() =~= tracks);
    lemma_find(tracks, name);
}

/// Every account among the first `k` has a track before the first day,
/// and no track has a balance from an earlier step.
pub proof fn lemma_initial_tracks(accounts: Seq<InvestedAccountView>, k: int, n: int)
    requires
        0 <= k <= accounts.len(),
    ensures
        tracks_ready(initial_tracks(accounts, k), n),
        forall|i: int|
            0 <= i < k ==> find(initial_tracks(accounts, k), (#[trigger] accounts[i]).account.name)
                < initial_tracks(accounts, k).len(),
    decreases k,
{
    if k > 0 {
        lemma_initial_tracks(accounts, k - 1, n);
        let before = initial_tracks(accounts, k - 1);
        let after = initial_tracks(accounts, k);
        let name = accounts[k - 1].account.name;
        if find(before, name) < before.len() {
        } else {
            let added = after.last();
            assert(after == before.push(added));
            assert forall|i: int| 0 <= i < k implies find(
                after,
                (#[trigger] accounts[i]).account.name,
            ) < after.len() by {
                lemma_find_push(before, added, accounts[i].account.name);
            }
            assert forall|j: int| 0 <= j < after.len() && (#[trigger] after[j]).prev is Some implies after[j].prev->Some_0.len()
                == n by {
                if j < before.len() {
                    assert(after[j] == before[j]);
                }
            }
        }
    }
}

/// A day that failed for the first `a` accounts failed for all of them.
pub proof fn lemma_day_failure(
    tracks: Seq<TrackView>,
    accounts: Seq<InvestedAccountView>,
    a: int,
    b: int,
    d: CalendarDay,
    n: int,
    period: Frequency,
    draws: Seq<Seq<Seq<int>>>,
)
    requires
        0 <= a <= b,
        run_day(tracks, accounts, a, d, n, period, draws) is Err,
    ensures
        run_day(tracks, accounts, b, d, n, period, draws) == run_day(
            tracks,
            accounts,
            a,
            d,
            n,
            period,
            draws,
        ),
    decreases b - a,
{
    if a < b {
        lemma_day_failure(tracks, accounts, a, b - 1, d, n, period, draws);
    }
}

/// A run that failed up to the day `d` failed up to any later day.
pub proof fn lemma_run_failure(
    accounts: Seq<InvestedAccountView>,
    start: CalendarDay,
    d: CalendarDay,
    end: CalendarDay,
    n: int,
    period: Frequency,
    draws: Seq<Seq<Seq<Seq<int>>>>,
)
    requires
        start.is_valid(),
        d.is_valid(),
        end.is_valid(),
        start.not_after(d),
        d.not_after(end),
        run_through(accounts, start, d, n, period, draws).0 is Err,
    ensures
        run_through(accounts, start, end, n, period, draws).0 == run_through(
            accounts,
            start,
            d,
            n,
            period,
            draws,
        ).0,
    decreases end.year - d.year, end.month, end.day,
{
    if d != end {
        crate::date::lemma_prev_day(end);
        lemma_run_failure(accounts, start, d, end.prev(), n, period, draws);
    }
}

/// The tracks before the first day, with a cache for each account.
fn prepare(accounts: &Vec<InvestedAccount>, n: usize) -> (r: (Vec<Track>, Vec<BalanceCache>))
    requires
        forall|i: int| 0 <= i < accounts@.len() ==> (#[trigger] accounts@[i]).account@.is_valid(),
    ensures
        track_views(r.0@) == initial_tracks(
            invested_account_views(accounts@),
            accounts@.len() as int,
        ),
        r.1@.len() == accounts@.len(),
        forall|i: int|
            0 <= i < accounts@.len() ==> (#[trigger] r.1@[i]).wf() && r.1@[i].account()
                == accounts@[i].account@,
{
    let ghost model = invested_account_views(accounts@);
    let mut tracks: Vec<Track> = Vec::new();
    let mut caches: Vec<BalanceCache> = Vec::new();
    let mut i: usize = 0;
    proof {
        assert(track_views(tracks@) =~= initial_tracks(model, 0));
    }
    while i < accounts.len()
        invariant
            i <= accounts.len(),
            model == invested_account_views(accounts@),
            forall|k: int|
                0 <= k < accounts@.len() ==> (#[trigger] accounts@[k]).account@.is_valid(),
            track_views(tracks@) == initial_tracks(model, i as int),
            caches@.len() == i,
            forall|k: int|
                0 <= k < i ==> (#[trigger] caches@[k]).wf() && caches@[k].account()
                    == accounts@[k].account@,
        decreases accounts.len() - i,
    {
        let account: &Account = &accounts[i].account;
        proof {
            assert(model[i as int].account == account@);
        }
        let k: usize = find_track(&tracks, &account.name);
        if k >= tracks.len() {
            let track: Track = Track {
                name: account.name.clone(),
                result: SimulationResult {
                    balances: Vec::new(),
                    uninvested_balances: Vec::new(),
                    payments: Vec::new(),
                },
                prev: None,
            };
            proof {
                assert(track@.result.balances =~= Seq::empty());
                assert(track@.result.uninvested_balances =~= Seq::empty());
                assert(track@.result.payments =~= Seq::empty());
                assert(track_views(tracks@.push(track)) =~= track_views(tracks@).push(track@));
            }
            tracks.push(track);
        }
        caches.push(BalanceCache::new(account.clone()));
        i = i + 1;
    }
    (tracks, caches)
}

/// The draws of one day, as mathematical values.
pub open spec fn day_views(day: Seq<Vec<Vec<i32>>>) -> Seq<Seq<Seq<int>>> {
    day.map_values(|a: Vec<Vec<i32>>| draw_views(a@))
}

/// The draws of a run, as mathematical values.
pub open spec fn table_views(table: Seq<Vec<Vec<Vec<i32>>>>) -> Seq<Seq<Seq<Seq<int>>>> {
    table.map_values(|d: Vec<Vec<Vec<i32>>>| day_views(d@))
}

/// Whether every account is one whose cash flows can all be paid out.
pub open spec fn all_valid(accounts: Seq<InvestedAccountView>) -> bool {
    forall|i: int| 0 <= i < accounts.len() ==> (#[trigger] accounts[i]).account.is_valid()
}

/// Whether every portfolio is one whose assets are all valid.
pub open spec fn all_invested_well(accounts: Seq<InvestedAccountView>) -> bool {
    forall|i: int|
        0 <= i < accounts.len() && (#[trigger] accounts[i]).portfolio is Some
            ==> accounts[i].portfolio->Some_0.is_valid()
}

/// The whole run: a failure before the first day for no samples, for an
/// account that is not valid, for a portfolio that is not valid, and for a
/// window that ends on the last day that can be held, in that order; else
/// the days of the window, one after the other.
pub open spec fn simulate(
    accounts: Seq<InvestedAccountView>,
    start: CalendarDay,
    end: CalendarDay,
    n: int,
    period: Frequency,
    draws: Seq<Seq<Seq<Seq<int>>>>,
) -> Result<Seq<TrackView>, SimError> {
    if n == 0 {
        Err(SimError::NoSamples)
    } else if !all_valid(accounts) {
        Err(SimError::InvalidAccount)
    } else if !all_invested_well(accounts) {
        Err(SimError::InvalidPortfolio)
    } else if end.is_last() && !end.before(start) {
        Err(SimError::DateOutOfRange)
    } else {
        run_through(accounts, start, end, n, period, draws).0
    }
}

/// The name and the result of each track.
pub open spec fn outcomes(tracks: Seq<TrackView>) -> Seq<(Seq<char>, SimulationResultView)> {
    tracks.map_values(|t: TrackView| (t.name, t.result))
}

/// The models of a list of named results.
pub open spec fn outcome_views(v: Seq<(String, SimulationResult)>) -> Seq<
    (Seq<char>, SimulationResultView),
> {
    v.map_values(|p: (String, SimulationResult)| (p.0@, p.1@))
}

/// The name and the result of each track, in the order of the tracks.
fn finish(tracks: Vec<Track>) -> (r: Vec<(String, SimulationResult)>)
    ensures
        outcome_views(r@) == outcomes(track_views(tracks@)),
{
    let ghost before = tracks@;
    let mut tracks = tracks;
    let mut reversed: Vec<(String, SimulationResult)> = Vec::new();
    while tracks.len() > 0
        invariant
            tracks@.len() + reversed@.len() == before.len(),
            tracks@ == before.subrange(0, tracks@.len() as int),
            forall|i: int|
                0 <= i < reversed@.len() ==> (#[trigger] reversed@[i]).0 == before[before.len() - 1
                    - i].name && reversed@[i].1 == before[before.len() - 1 - i].result,
        decreases tracks@.len(),
    {
        match tracks.pop() {
            Some(t) => {
                reversed.push((t.name, t.result));
            },
            None => {},
        }
    }
    let ghost mid = reversed@;
    let mut out: Vec<(String, SimulationResult)> = Vec::new();
    while reversed.len() > 0
        invariant
            mid.len() == before.len(),
            reversed@.len() + out@.len() == mid.len(),
            reversed@ == mid.subrange(0, reversed@.len() as int),
            forall|i: int| 0 <= i < out@.len() ==> (#[trigger] out@[i]) == mid[mid.len() - 1 - i],
        decreases reversed@.len(),
    {
        match reversed.pop() {
            Some(p) => {
                out.push(p);
            },
            None => {},
        }
    }
    proof {
        assert(outcome_views(out@) =~= outcomes(track_views(before)));
    }
    out
}

/// Runs the scenario: for each day of its window and each of its accounts
/// in turn, the balance that the cash flows alone give, the balance that
/// also grows with the account's portfolio, and the payments of the day;
/// see [`simulate`]. The results stand under the account names, in the
/// order in which the names first occur.
///
/// `period` is the part of a year by which the yearly returns are scaled
/// at each step. `draws[k][a][i]` holds, for the day `k` of the window and
/// the account `a`, one return in millionths for each sample of the asset
/// `i`; it is read only for an asset with a spread. Transfers change no
/// balance.
pub fn run_simulation(
    scenario: Scenario,
    period: Frequency,
    draws: &Vec<Vec<Vec<Vec<i32>>>>,
) -> (r: Result<Vec<(String, SimulationResult)>, SimError>)
    ensures
        match simulate(
            invested_account_views(scenario.accounts@),
            scenario.start_date@,
            scenario.end_date@,
            scenario.num_samples as int,
            period,
            table_views(draws@),
        ) {
            Ok(t) => r is Ok && outcome_views(r->Ok_0@) == outcomes(t),
            Err(e) => r == Err::<Vec<(String, SimulationResult)>, SimError>(e),
        },
{
    let ghost model = invested_account_views(scenario.accounts@);
    let ghost table = table_views(draws@);
    let n: usize = scenario.num_samples;
    if n == 0 {
        return Err(SimError::NoSamples);
    }
    let mut i: usize = 0;
    while i < scenario.accounts.len()
        invariant
            i <= scenario.accounts.len(),
            scenario.num_samples != 0,
            model == invested_account_views(scenario.accounts@),
            forall|k: int| 0 <= k < i ==> (#[trigger] model[k]).account.is_valid(),
        decreases scenario.accounts.len() - i,
    {
        if !scenario.accounts[i].account.is_valid() {
            proof {
                assert(!model[i as int].account.is_valid());
            }
            return Err(SimError::InvalidAccount);
        }
        i = i + 1;
    }
    let mut i: usize = 0;
    while i < scenario.accounts.len()
        invariant
            i <= scenario.accounts.len(),
            scenario.num_samples != 0,
            model == invested_account_views(scenario.accounts@),
            all_valid(model),
            forall|k: int|
                0 <= k < i && (#[trigger] model[k]).portfolio is Some
                    ==> model[k].portfolio->Some_0.is_valid(),
        decreases scenario.accounts.len() - i,
    {
        proof {
            assert(model[i as int] == scenario.accounts@[i as int]@);
        }
        match &scenario.accounts[i].portfolio {
            Some(p) => {
                if !p.is_valid() {
                    proof {
                        assert(model[i as int].portfolio is Some);
                        assert(!model[i as int].portfolio->Some_0.is_valid());
                    }
                    return Err(SimError::InvalidPortfolio);
                }
            },
            None => {},
        }
        i = i + 1;
    }
    let start: Date = scenario.start_date;
    let end: Date = scenario.end_date;
    let reversed: bool = end.is_before(&start);
    if !reversed && end.succ_opt().is_none() {
        return Err(SimError::DateOutOfRange);
    }
    proof {
        assert forall|k: int| 0 <= k < scenario.accounts@.len() implies (
        #[trigger] scenario.accounts@[k]).account@.is_valid() by {
            assert(model[k].account.is_valid());
        }
    }
    let prepared: (Vec<Track>, Vec<BalanceCache>) = prepare(&scenario.accounts, n);
    let mut tracks: Vec<Track> = prepared.0;
    let mut caches: Vec<BalanceCache> = prepared.1;
    proof {
        lemma_initial_tracks(model, model.len() as int, n as int);
    }
    if reversed {
        return Ok(finish(tracks));
    }
    let no_day: Vec<Vec<Vec<i32>>> = Vec::new();
    let no_account: Vec<Vec<i32>> = Vec::new();
    let mut d: Date = start;
    let mut day_index: usize = 0;
    let ghost mut days: int = 0;
    proof {
        crate::date::lemma_prev_day(start@);
    }
    loop
        invariant
            n == scenario.num_samples,
            n > 0,
            model == invested_account_views(scenario.accounts@),
            table == table_views(draws@),
            all_valid(model),
            all_invested_well(model),
            start == scenario.start_date,
            end == scenario.end_date,
            start@.is_valid(),
            end@.is_valid(),
            d@.is_valid(),
            !end@.is_last(),
            start@.not_after(d@),
            d@.not_after(end@),
            no_day@.len() == 0,
            no_account@.len() == 0,
            days >= 0,
            day_index == (if days <= usize::MAX {
                days
            } else {
                usize::MAX as int
            }),
            (Ok::<Seq<TrackView>, SimError>(track_views(tracks@)), days) == run_through(
                model,
                start@,
                d@.prev(),
                n as int,
                period,
                table,
            ),
            tracks_ready(track_views(tracks@), n as int),
            forall|k: int|
                0 <= k < model.len() ==> find(
                    track_views(tracks@),
                    (#[trigger] model[k]).account.name,
                ) < tracks@.len(),
            caches@.len() == scenario.accounts@.len(),
            forall|k: int|
                0 <= k < caches@.len() ==> (#[trigger] caches@[k]).wf() && caches@[k].account()
                    == model[k].account,
        decreases end@.year - d@.year, 12 - d@.month, 31 - d@.day,
    {
        let ghost t0 = track_views(tracks@);
        let today: &Vec<Vec<Vec<i32>>> = if day_index < draws.len() {
            &draws[day_index]
        } else {
            &no_day
        };
        let ghost dd = day_draws(table, days);
        proof {
            assert(dd =~= day_views(today@));
        }
        let mut a: usize = 0;
        while a < scenario.accounts.len()
            invariant
                a <= scenario.accounts.len(),
                n > 0,
                model == invested_account_views(scenario.accounts@),
                dd == day_views(today@),
                no_account@.len() == 0,
                Ok::<Seq<TrackView>, SimError>(track_views(tracks@)) == run_day(
                    t0,
                    model,
                    a as int,
                    d@,
                    n as int,
                    period,
                    dd,
                ),
                tracks_ready(track_views(tracks@), n as int),
                forall|k: int|
                    0 <= k < model.len() ==> find(
                        track_views(tracks@),
                        (#[trigger] model[k]).account.name,
                    ) < tracks@.len(),
                caches@.len() == scenario.accounts@.len(),
                forall|k: int|
                    0 <= k < caches@.len() ==> (#[trigger] caches@[k]).wf()
                        && caches@[k].account() == model[k].account,
                start@.is_valid(),
                end@.is_valid(),
                d@.is_valid(),
                start@.not_after(d@),
                d@.not_after(end@),
                !end@.is_last(),
                (Ok::<Seq<TrackView>, SimError>(t0), days) == run_through(
                    model,
                    start@,
                    d@.prev(),
                    n as int,
                    period,
                    table,
                ),
                dd == day_draws(table, days),
                start == scenario.start_date,
                end == scenario.end_date,
                n == scenario.num_samples,
                table == table_views(draws@),
                all_valid(model),
                all_invested_well(model),
            decreases scenario.accounts.len() - a,
        {
            let own: &Vec<Vec<i32>> = if a < today.len() {
                &today[a]
            } else {
                &no_account
            };
            let ghost before = track_views(tracks@);
            proof {
                assert(account_draws(dd, a as int) =~= draw_views(own@));
                assert(model[a as int] == scenario.accounts@[a as int]@);
                assert(caches@[a as int].wf());
            }
            match step(
                &mut tracks,
                &mut caches[a],
                &scenario.accounts[a].portfolio,
                d,
                n,
                &period,
                own,
            ) {
                Ok(()) => {
                    proof {
                        let after = track_views(tracks@);
                        assert forall|k: int| 0 <= k < model.len() implies find(
                            after,
                            (#[trigger] model[k]).account.name,
                        ) < tracks@.len() by {
                            lemma_find_by_names(after, before, model[k].account.name);
                        }
                    }
                },
                Err(e) => {
                    proof {
                        lemma_day_failure(
                            t0,
                            model,
                            a + 1,
                            model.len() as int,
                            d@,
                            n as int,
                            period,
                            dd,
                        );
                        crate::date::lemma_prev_day(d@);
                        lemma_run_failure(model, start@, d@, end@, n as int, period, table);
                    }
                    return Err(e);
                },
            }
            a = a + 1;
        }
        proof {
            crate::date::lemma_prev_day(d@);
            days = days + 1;
        }
        if d.is_same(&end) {
            return Ok(finish(tracks));
        }
        proof {
            crate::date::lemma_before_not_last(d@, end@);
            crate::date::lemma_next_day(d@);
        }
        match d.succ_opt() {
            Some(next) => {
                d = next;
            },
            None => {
                return Err(SimError::DateOutOfRange);
            },
        }
        if day_index < usize::MAX {
            day_index = day_index + 1;
        }
    }
}

/// No two tracks have the same name.
pub open spec fn distinct_names(tracks: Seq<TrackView>) -> bool {
    forall|i: int, j: int|
        0 <= i < j < tracks.len() ==> (#[trigger] tracks[i]).name != (#[trigger] tracks[j]).name
}

/// The two lists have the same names at the same places.
pub open spec fn same_names(a: Seq<TrackView>, b: Seq<TrackView>) -> bool {
    a.len() == b.len() && forall|i: int| 0 <= i < a.len() ==> (#[trigger] a[i]).name == b[i].name
}

/// Before the first day no two tracks have the same name.
pub proof fn lemma_initial_names_distinct(accounts: Seq<InvestedAccountView>, k: int)
    ensures
        distinct_names(initial_tracks(accounts, k)),
    decreases k,
{
    if k > 0 {
        lemma_initial_names_distinct(accounts, k - 1);
        let before = initial_tracks(accounts, k - 1);
        let name = accounts[k - 1].account.name;
        lemma_find(before, name);
        let after = initial_tracks(accounts, k);
        assert forall|i: int, j: int| 0 <= i < j < after.len() implies (#[trigger] after[i]).name != (
        #[trigger] after[j]).name by {
            if j < before.len() {
                assert(after[i] == before[i]);
                assert(after[j] == before[j]);
            } else {
                assert(after[i] == before[i]);
            }
        }
    }
}

/// A step changes no name.
pub proof fn lemma_step_keeps_names(
    tracks: Seq<TrackView>,
    ia: InvestedAccountView,
    d: CalendarDay,
    n: int,
    period: Frequency,
    draws: Seq<Seq<int>>,
)
    requires
        find(tracks, ia.account.name) < tracks.len(),
        step_account(tracks, ia, d, n, period, draws) is Ok,
    ensures
        same_names(step_account(tracks, ia, d, n, period, draws)->Ok_0, tracks),
{
    lemma_find(tracks, ia.account.name);
}

/// A day changes no name.
pub proof fn lemma_day_keeps_names(
    tracks: Seq<TrackView>,
    accounts: Seq<InvestedAccountView>,
    a: int,
    d: CalendarDay,
    n: int,
    period: Frequency,
    draws: Seq<Seq<Seq<int>>>,
)
    requires
        0 <= a <= accounts.len(),
        forall|i: int|
            0 <= i < accounts.len() ==> find(tracks, (#[trigger] accounts[i]).account.name)
                < tracks.len(),
        run_day(tracks, accounts, a, d, n, period, draws) is Ok,
    ensures
        same_names(run_day(tracks, accounts, a, d, n, period, draws)->Ok_0, tracks),
    decreases a,
{
    if a > 0 {
        lemma_day_keeps_names(tracks, accounts, a - 1, d, n, period, draws);
        let before = run_day(tracks, accounts, a - 1, d, n, period, draws)->Ok_0;
        let ia = accounts[a - 1];
        lemma_find_by_names(before, tracks, ia.account.name);
        lemma_step_keeps_names(before, ia, d, n, period, account_draws(draws, a - 1));
    }
}

/// A run changes no name: the tracks after it have the names of the
/// tracks before the first day.
pub proof fn lemma_run_keeps_names(
    accounts: Seq<InvestedAccountView>,
    start: CalendarDay,
    d: CalendarDay,
    n: int,
    period: Frequency,
    draws: Seq<Seq<Seq<Seq<int>>>>,
)
    requires
        run_through(accounts, start, d, n, period, draws).0 is Ok,
    ensures
        same_names(
            run_through(accounts, start, d, n, period, draws).0->Ok_0,
            initial_tracks(accounts, accounts.len() as int),
        ),
    decreases d.year - start.year, d.month, d.day,
{
    let first = initial_tracks(accounts, accounts.len() as int);
    lemma_initial_tracks(accounts, accounts.len() as int, n);
    if !start.is_valid() || !d.is_valid() || d.before(start) {
    } else {
        let (before, days) = if d == start {
            (Ok::<Seq<TrackView>, SimError>(first), 0int)
        } else {
            run_through(accounts, start, d.prev(), n, period, draws)
        };
        if d != start {
            lemma_run_keeps_names(accounts, start, d.prev(), n, period, draws);
        }
        let t = before->Ok_0;
        assert forall|i: int| 0 <= i < accounts.len() implies find(
            t,
            (#[trigger] accounts[i]).account.name,
        ) < t.len() by {
            lemma_find_by_names(t, first, accounts[i].account.name);
        }
        lemma_day_keeps_names(
            t,
            accounts,
            accounts.len() as int,
            d,
            n,
            period,
            day_draws(draws, days),
        );
    }
}

/// In what a simulation gives, every account name of the scenario stands
/// once: each account finds its result under its name, and no name stands
/// twice.
pub proof fn lemma_result_names(
    accounts: Seq<InvestedAccountView>,
    start: CalendarDay,
    end: CalendarDay,
    n: int,
    period: Frequency,
    draws: Seq<Seq<Seq<Seq<int>>>>,
)
    requires
        simulate(accounts, start, end, n, period, draws) is Ok,
    ensures
        distinct_names(simulate(accounts, start, end, n, period, draws)->Ok_0),
        forall|i: int|
            0 <= i < accounts.len() ==> find(
                simulate(accounts, start, end, n, period, draws)->Ok_0,
                (#[trigger] accounts[i]).account.name,
            ) < simulate(accounts, start, end, n, period, draws)->Ok_0.len(),
{
    let first = initial_tracks(accounts, accounts.len() as int);
    let last = simulate(accounts, start, end, n, period, draws)->Ok_0;
    lemma_initial_names_distinct(accounts, accounts.len() as int);
    lemma_initial_tracks(accounts, accounts.len() as int, n);
    lemma_run_keeps_names(accounts, start, end, n, period, draws);
    assert forall|i: int, j: int| 0 <= i < j < last.len() implies (#[trigger] last[i]).name != (
    #[trigger] last[j]).name by {
        assert(last[i].name == first[i].name);
        assert(last[j].name == first[j].name);
    }
    assert forall|i: int| 0 <= i < accounts.len() implies find(
        last,
        (#[trigger] accounts[i]).account.name,
    ) < last.len() by {
        lemma_find_by_names(last, first, accounts[i].account.name);
    }
}

/// The sum of `n` times the same amount.
pub proof fn lemma_sum_of_constant(n: nat, value: int)
    ensures
        sum(Seq::new(n, |j: int| value)) == n * value,
    decreases n,
{
    let all = Seq::new(n, |j: int| value);
    if n > 0 {
        lemma_sum_of_constant((n - 1) as nat, value);
        assert(all.drop_last() =~= Seq::new((n - 1) as nat, |j: int| value));
        assert(all.last() == value);
        assert(n * value == (n - 1) * value + value) by (nonlinear_arith);
    } else {
        assert(all.len() == 0);
        assert(n * value == 0) by (nonlinear_arith)
            requires
                n == 0,
        ;
    }
}

/// The mean of the same amount in every sample is that amount: what is
/// recorded as the balance of the cash flows alone is the balance of the
/// day.
pub proof fn lemma_mean_of_constant(n: nat, value: int)
    requires
        n > 0,
    ensures
        mean(Seq::new(n, |j: int| value)) == value,
{
    lemma_sum_of_constant(n, value);
    let m = n as int;
    if value >= 0 {
        assert(m * value >= 0 && (m * value) / m == value) by (nonlinear_arith)
            requires
                m > 0,
                value >= 0,
        ;
    } else {
        assert(m * value < 0 && (-(m * value)) / m == -value) by (nonlinear_arith)
            requires
                m > 0,
                value < 0,
        ;
    }
}

} // verus!
