//! Portfolios: the growth that a weighted set of assets gives to a balance
//! over one period, sample by sample.
//!
//! Returns and weights are held in millionths. The return of an asset
//! whose spread is 0 is its mean return for the period; the return of any
//! other asset is drawn by the caller and handed in, one draw per sample.

use crate::account::Account;
use crate::cash::Frequency;
use crate::cash::RATE_SCALE;
use vstd::prelude::*;

verus! {

/// The product of `a` and `b` millionths, rounded towards 0.
pub open spec fn scaled(a: int, b: int) -> int {
    if a * b >= 0 {
        (a * b) / (RATE_SCALE as int)
    } else {
        -((-(a * b)) / (RATE_SCALE as int))
    }
}

/// The part of the yearly return `mean` that falls to one period, rounded
/// towards 0.
pub open spec fn expected(mean: int, period: Frequency) -> int {
    if mean >= 0 {
        mean / period.periods_per_year()
    } else {
        -((-mean) / period.periods_per_year())
    }
}

/// A balance after it grew by `rate` millionths of itself.
pub open spec fn grown(balance: int, rate: int) -> int {
    balance + scaled(balance, rate)
}

/// What an asset holds, as mathematical values.
pub struct AssetView {
    pub name: Seq<char>,
    pub mean_return: int,
    pub std_dev: int,
}

/// What a portfolio holds, as mathematical values.
pub struct PortfolioView {
    pub assets: Seq<AssetView>,
    pub weights: Seq<int>,
}

impl AssetView {
    /// The spread of the asset is not negative.
    pub open spec fn is_valid(self) -> bool {
        self.std_dev >= 0
    }

    /// The return of the asset over one period in the sample `j`: the
    /// expected return where the asset has no spread, else the draw.
    pub open spec fn sample(self, period: Frequency, draws: Seq<int>, j: int) -> int {
        if self.std_dev == 0 {
            expected(self.mean_return, period)
        } else {
            draws[j]
        }
    }
}

impl PortfolioView {
    /// Every asset of the portfolio is valid.
    pub open spec fn is_valid(self) -> bool {
        forall|i: int| 0 <= i < self.assets.len() ==> (#[trigger] self.assets[i]).is_valid()
    }

    /// The number of assets that have a weight: where one list is longer
    /// than the other, what it holds beyond the shorter one is not used.
    pub open spec fn pairs(self) -> int {
        if self.assets.len() <= self.weights.len() {
            self.assets.len() as int
        } else {
            self.weights.len() as int
        }
    }

    /// Whether the asset `i` needs a draw for each sample.
    pub open spec fn needs_draws(self, i: int) -> bool {
        self.assets[i].std_dev != 0
    }

    /// Whether `draws` holds `nsamples` draws for each asset that needs them.
    pub open spec fn has_draws(self, nsamples: int, draws: Seq<Seq<int>>) -> bool {
        forall|i: int|
            0 <= i < self.pairs() && #[trigger] self.needs_draws(i) ==> i < draws.len()
                && draws[i].len() == nsamples
    }

    /// The weighted return of the asset `i` in the sample `j`.
    pub open spec fn weighted_return(self, period: Frequency, draws: Seq<Seq<int>>, i: int, j: int)
        -> int {
        scaled(self.weights[i], self.assets[i].sample(period, draws[i], j))
    }

    /// The sum of the weighted returns of the first `k` assets in the
    /// sample `j`.
    pub open spec fn partial_return(
        self,
        period: Frequency,
        draws: Seq<Seq<int>>,
        k: int,
        j: int,
    ) -> int
        decreases k,
    {
        if k <= 0 {
            0
        } else {
            self.partial_return(period, draws, k - 1, j) + self.weighted_return(
                period,
                draws,
                k - 1,
                j,
            )
        }
    }

    /// The return of the whole portfolio in the sample `j`.
    pub open spec fn total_return(self, period: Frequency, draws: Seq<Seq<int>>, j: int) -> int {
        self.partial_return(period, draws, self.pairs(), j)
    }
}

/// Something to invest in, with its yearly mean return and the yearly
/// spread of its return (the standard deviation), both in millionths.
#[derive(Debug)]
pub struct Asset {
    pub name: String,
    pub mean_return: i32,
    pub std_dev: i32,
}

/// Assets and the part of a balance that is invested in each, in
/// millionths: `weights[i]` belongs to `assets[i]`.
#[derive(Debug)]
pub struct Portfolio {
    pub assets: Vec<Asset>,
    pub weights: Vec<i32>,
}

impl View for Asset {
    type V = AssetView;

    open spec fn view(&self) -> AssetView {
        AssetView {
            name: self.name@,
            mean_return: self.mean_return as int,
            std_dev: self.std_dev as int,
        }
    }
}

impl View for Portfolio {
    type V = PortfolioView;

    open spec fn view(&self) -> PortfolioView {
        PortfolioView {
            assets: self.assets@.map_values(|a: Asset| a@),
            weights: ints(self.weights@),
        }
    }
}

/// A list of rates, as mathematical values.
pub open spec fn ints(v: Seq<i32>) -> Seq<int> {
    v.map_values(|x: i32| x as int)
}

/// The draws of each asset, as mathematical values.
pub open spec fn draw_views(draws: Seq<Vec<i32>>) -> Seq<Seq<int>> {
    draws.map_values(|v: Vec<i32>| ints(v@))
}

impl Clone for Asset {
    fn clone(&self) -> (r: Asset)
        ensures
            r@ == self@,
    {
        Asset { name: self.name.clone(), mean_return: self.mean_return, std_dev: self.std_dev }
    }
}

impl Clone for Portfolio {
    fn clone(&self) -> (r: Portfolio)
        ensures
            r@ == self@,
    {
        let mut assets: Vec<Asset> = Vec::new();
        let mut i: usize = 0;
        while i < self.assets.len()
            invariant
                i <= self.assets.len(),
                assets@.map_values(|a: Asset| a@) == self@.assets.subrange(0, i as int),
            decreases self.assets.len() - i,
        {
            let ghost before = assets@;
            let copy: Asset = self.assets[i].clone();
            assets.push(copy);
            proof {
                assert(before.push(copy).map_values(|a: Asset| a@) =~= before.map_values(
                    |a: Asset| a@,
                ).push(copy@));
                assert(assets@.map_values(|a: Asset| a@) =~= self@.assets.subrange(0, i + 1));
            }
            i = i + 1;
        }
        let mut weights: Vec<i32> = Vec::new();
        let mut k: usize = 0;
        while k < self.weights.len()
            invariant
                k <= self.weights.len(),
                ints(weights@) == self@.weights.subrange(0, k as int),
            decreases self.weights.len() - k,
        {
            let ghost before = weights@;
            weights.push(self.weights[k]);
            proof {
                assert(ints(before.push(self.weights@[k as int])) =~= ints(before).push(
                    self.weights@[k as int] as int,
                ));
                assert(ints(weights@) =~= self@.weights.subrange(0, k + 1));
            }
            k = k + 1;
        }
        proof {
            assert(self@.assets.subrange(0, self.assets.len() as int) =~= self@.assets);
            assert(self@.weights.subrange(0, self.weights.len() as int) =~= self@.weights);
        }
        Portfolio { assets, weights }
    }
}

impl Asset {
    /// An asset.
    pub fn new(name: String, mean_return: i32, std_dev: i32) -> (r: Asset)
        ensures
            r.name == name,
            r.mean_return == mean_return,
            r.std_dev == std_dev,
    {
        Asset { name, mean_return, std_dev }
    }

    /// The part of the yearly mean return that falls to one period.
    pub fn expected_return(&self, period: &Frequency) -> (r: i32)
        ensures
            r == expected(self@.mean_return, *period),
    {
        let periods: u32 = period.fraction().denominator;
        if self.mean_return >= 0 {
            ((self.mean_return as u32) / periods) as i32
        } else {
            let size: u32 = (-(self.mean_return as i64)) as u32;
            -((size / periods) as i64) as i32
        }
    }
}

impl Portfolio {
    /// A portfolio.
    pub fn new(assets: Vec<Asset>, weights: Vec<i32>) -> (r: Portfolio)
        ensures
            r.assets == assets,
            r.weights == weights,
    {
        Portfolio { assets, weights }
    }

    /// Whether no asset of the portfolio has a negative spread.
    pub fn is_valid(&self) -> (r: bool)
        ensures
            r == self@.is_valid(),
    {
        let mut i: usize = 0;
        while i < self.assets.len()
            invariant
                i <= self.assets.len(),
                forall|k: int| 0 <= k < i ==> (#[trigger] self@.assets[k]).is_valid(),
            decreases self.assets.len() - i,
        {
            if self.assets[i].std_dev < 0 {
                proof {
                    assert(!self@.assets[i as int].is_valid());
                }
                return false;
            }
            i = i + 1;
        }
        true
    }

    /// The number of assets that have a weight.
    pub fn pairs(&self) -> (r: usize)
        ensures
            r == self@.pairs(),
    {
        if self.assets.len() <= self.weights.len() {
            self.assets.len()
        } else {
            self.weights.len()
        }
    }
}

/// The product of `a` and `b` millionths; see [`scaled`].
pub fn scale(a: i64, b: i64) -> (r: i128)
    ensures
        r == scaled(a as int, b as int),
        -0x4000_0000_0000_0000_0000_0000_0000_0000 <= r <= 0x4000_0000_0000_0000_0000_0000_0000_0000,
{
    proof {
        assert(-0x4000_0000_0000_0000_0000_0000_0000_0000 <= a * b
            <= 0x4000_0000_0000_0000_0000_0000_0000_0000) by (nonlinear_arith)
            requires
                -0x8000_0000_0000_0000 <= a <= 0x7fff_ffff_ffff_ffff,
                -0x8000_0000_0000_0000 <= b <= 0x7fff_ffff_ffff_ffff,
        ;
    }
    let wide: i128 = (a as i128) * (b as i128);
    if wide >= 0 {
        ((wide as u128) / 1_000_000) as i128
    } else {
        -((((-wide) as u128) / 1_000_000) as i128)
    }
}

/// The product of two rates in millionths; see [`scaled`].
fn scale_rate(a: i32, b: i32) -> (r: i64)
    ensures
        r == scaled(a as int, b as int),
        -0x800_0000_0000 <= r <= 0x800_0000_0000,
{
    proof {
        assert(-0x4000_0000_0000_0000 <= a * b <= 0x4000_0000_0000_0000) by (nonlinear_arith)
            requires
                -0x8000_0000 <= a <= 0x7fff_ffff,
                -0x8000_0000 <= b <= 0x7fff_ffff,
        ;
    }
    let wide: i64 = (a as i64) * (b as i64);
    if wide >= 0 {
        ((wide as u64) / 1_000_000) as i64
    } else {
        -((((-wide) as u64) / 1_000_000) as i64)
    }
}

/// Why a balance could not be invested.
#[derive(Clone, Copy, Debug, PartialEq, Eq, Structural)]
pub enum InvestError {
    /// The number of samples is 0.
    NoSamples,
    /// An asset has a negative spread.
    InvalidPortfolio,
    /// The starting balance does not hold one amount for each sample.
    Shape,
    /// An asset with a spread has no draws, or not one for each sample.
    MissingDraws,
    /// A return or a balance is too large to hold.
    Overflow,
}

/// Whether a balance and the rate by which it grows give a balance that
/// can be held.
pub open spec fn growth_fits(balance: int, rate: int) -> bool {
    &&& i64::MIN <= rate <= i64::MAX
    &&& i64::MIN <= grown(balance, rate) <= i64::MAX
}

/// What investing one asset gives: an error without samples, for a
/// negative spread and without the draws that the asset needs, in that
/// order; else its weighted return in each sample.
pub open spec fn asset_outcome(
    asset: AssetView,
    weight: int,
    nsamples: int,
    period: Frequency,
    draws: Seq<int>,
    r: Result<Vec<i64>, InvestError>,
) -> bool {
    if nsamples == 0 {
        r == Err::<Vec<i64>, InvestError>(InvestError::NoSamples)
    } else if !asset.is_valid() {
        r == Err::<Vec<i64>, InvestError>(InvestError::InvalidPortfolio)
    } else if asset.std_dev != 0 && draws.len() != nsamples {
        r == Err::<Vec<i64>, InvestError>(InvestError::MissingDraws)
    } else {
        &&& r is Ok
        &&& r->Ok_0@.len() == nsamples
        &&& forall|j: int|
            0 <= j < nsamples ==> (#[trigger] r->Ok_0@[j]) == scaled(
                weight,
                asset.sample(period, draws, j),
            )
    }
}

/// A list of amounts, as mathematical values.
pub open spec fn amounts(v: Seq<i64>) -> Seq<int> {
    v.map_values(|x: i64| x as int)
}

/// Why investing fails, if it does: no samples, an asset with a negative
/// spread, a starting balance of another length than the number of
/// samples, missing draws, or an amount too large to hold, in that order.
pub open spec fn invest_error(
    balances: Seq<int>,
    portfolio: PortfolioView,
    nsamples: int,
    period: Frequency,
    draws: Seq<Seq<int>>,
) -> Option<InvestError> {
    if nsamples == 0 {
        Some(InvestError::NoSamples)
    } else if !portfolio.is_valid() {
        Some(InvestError::InvalidPortfolio)
    } else if balances.len() != nsamples {
        Some(InvestError::Shape)
    } else if !portfolio.has_draws(nsamples, draws) {
        Some(InvestError::MissingDraws)
    } else if exists|j: int|
        0 <= j < nsamples && !#[trigger] growth_fits(
            balances[j],
            portfolio.total_return(period, draws, j),
        ) {
        Some(InvestError::Overflow)
    } else {
        None
    }
}

/// In each sample the balance grown by the return of the portfolio.
pub open spec fn invested(
    balances: Seq<int>,
    portfolio: PortfolioView,
    period: Frequency,
    draws: Seq<Seq<int>>,
) -> Seq<int> {
    Seq::new(
        balances.len(),
        |j: int| grown(balances[j], portfolio.total_return(period, draws, j)),
    )
}

/// What investing a balance gives: the error of [`invest_error`] where
/// there is one, else the balances of [`invested`].
pub open spec fn invest_outcome(
    balances: Seq<i64>,
    portfolio: PortfolioView,
    nsamples: int,
    period: Frequency,
    draws: Seq<Seq<int>>,
    r: Result<Vec<i64>, InvestError>,
) -> bool {
    match invest_error(amounts(balances), portfolio, nsamples, period, draws) {
        Some(e) => r == Err::<Vec<i64>, InvestError>(e),
        None => r is Ok && amounts(r->Ok_0@) == invested(
            amounts(balances),
            portfolio,
            period,
            draws,
        ),
    }
}

/// Growth of a balance under a portfolio over one period.
pub trait Invest {
    /// The balance of each sample after one period in `portfolio`; see
    /// [`invest_outcome`].
    fn invest(
        &self,
        starting_balance: &Vec<i64>,
        portfolio: &Portfolio,
        nsamples: &usize,
        period: &Frequency,
        draws: &Vec<Vec<i32>>,
    ) -> (r: Result<Vec<i64>, InvestError>)
        ensures
            invest_outcome(
                starting_balance@,
                portfolio@,
                *nsamples as int,
                *period,
                draw_views(draws@),
                r,
            ),
    ;

    /// The return of one asset in each sample, scaled by its weight; see
    /// [`asset_outcome`].
    fn invest_asset(
        &self,
        asset: &Asset,
        weight: &i32,
        nsamples: &usize,
        period: &Frequency,
        draws: &Vec<i32>,
    ) -> (r: Result<Vec<i64>, InvestError>)
        ensures
            asset_outcome(asset@, *weight as int, *nsamples as int, *period, ints(draws@), r),
            r is Ok ==> forall|j: int|
                0 <= j < *nsamples ==> -0x800_0000_0000 <= (#[trigger] r->Ok_0@[j])
                    <= 0x800_0000_0000,
    ;
}

/// `n` returns of 0.
fn no_returns(n: usize) -> (r: Vec<i128>)
    ensures
        r@.len() == n,
        forall|j: int| 0 <= j < n ==> r@[j] == 0,
{
    let mut out: Vec<i128> = Vec::new();
    let mut j: usize = 0;
    while j < n
        invariant
            j <= n,
            out@.len() == j,
            forall|k: int| 0 <= k < j ==> out@[k] == 0,
        decreases n - j,
    {
        out.push(0);
        j = j + 1;
    }
    out
}

impl Invest for Account {
    fn invest(
        &self,
        starting_balance: &Vec<i64>,
        portfolio: &Portfolio,
        nsamples: &usize,
        period: &Frequency,
        draws: &Vec<Vec<i32>>,
    ) -> (r: Result<Vec<i64>, InvestError>) {
        let n: usize = *nsamples;
        if n == 0 {
            return Err(InvestError::NoSamples);
        }
        if !portfolio.is_valid() {
            return Err(InvestError::InvalidPortfolio);
        }
        if starting_balance.len() != n {
            return Err(InvestError::Shape);
        }
        let ghost model = portfolio@;
        let ghost drawn = draw_views(draws@);
        let pairs: usize = portfolio.pairs();
        let none: Vec<i32> = Vec::new();
        let mut ret: Vec<i128> = no_returns(n);
        let mut i: usize = 0;
        while i < pairs
            invariant
                i <= pairs,
                pairs == model.pairs(),
                model == portfolio@,
                drawn == draw_views(draws@),
                n == *nsamples,
                n > 0,
                model.is_valid(),
                starting_balance@.len() == n,
                none@.len() == 0,
                ret@.len() == n,
                forall|j: int|
                    0 <= j < n ==> (#[trigger] ret@[j]) == model.partial_return(
                        *period,
                        drawn,
                        i as int,
                        j,
                    ),
                forall|j: int|
                    0 <= j < n ==> -(i * 0x800_0000_0000) <= (#[trigger] ret@[j]) <= i
                        * 0x800_0000_0000,
                forall|k: int|
                    0 <= k < i && #[trigger] model.needs_draws(k) ==> k < drawn.len()
                        && drawn[k].len() == n,
            decreases pairs - i,
        {
            let d: &Vec<i32> = if i < draws.len() {
                &draws[i]
            } else {
                &none
            };
            proof {
                assert(model.assets[i as int] == portfolio.assets@[i as int]@);
                assert(model.weights[i as int] == portfolio.weights@[i as int] as int);
                if i < draws.len() {
                    assert(drawn[i as int] == ints(d@));
                }
            }
            let weighted: Vec<i64> = match self.invest_asset(
                &portfolio.assets[i],
                &portfolio.weights[i],
                nsamples,
                period,
                d,
            ) {
                Ok(w) => w,
                Err(e) => {
                    proof {
                        assert(model.needs_draws(i as int));
                        assert(!model.has_draws(n as int, drawn));
                    }
                    return Err(InvestError::MissingDraws);
                },
            };
            let mut j: usize = 0;
            while j < n
                invariant
                    j <= n,
                    i < pairs,
                    ret@.len() == n,
                    weighted@.len() == n,
                    forall|k: int|
                        0 <= k < n ==> -0x800_0000_0000 <= (#[trigger] weighted@[k])
                            <= 0x800_0000_0000,
                    forall|k: int|
                        0 <= k < n ==> (#[trigger] weighted@[k]) == model.weighted_return(
                            *period,
                            drawn,
                            i as int,
                            k,
                        ),
                    forall|k: int|
                        j <= k < n ==> (#[trigger] ret@[k]) == model.partial_return(
                            *period,
                            drawn,
                            i as int,
                            k,
                        ),
                    forall|k: int|
                        j <= k < n ==> -(i * 0x800_0000_0000) <= (#[trigger] ret@[k]) <= i
                            * 0x800_0000_0000,
                    forall|k: int|
                        0 <= k < j ==> (#[trigger] ret@[k]) == model.partial_return(
                            *period,
                            drawn,
                            i + 1,
                            k,
                        ),
                    forall|k: int|
                        0 <= k < j ==> -((i + 1) * 0x800_0000_0000) <= (#[trigger] ret@[k]) <= (i
                            + 1) * 0x800_0000_0000,
                decreases n - j,
            {
                let sum: i128 = ret[j] + weighted[j] as i128;
                ret.set(j, sum);
                j = j + 1;
            }
            i = i + 1;
        }
        let mut out: Vec<i64> = Vec::new();
        let mut j: usize = 0;
        while j < n
            invariant
                j <= n,
                n == *nsamples,
                starting_balance@.len() == n,
                ret@.len() == n,
                out@.len() == j,
                model == portfolio@,
                model.is_valid(),
                drawn == draw_views(draws@),
                model.has_draws(n as int, drawn),
                forall|k: int|
                    0 <= k < n ==> (#[trigger] ret@[k]) == model.total_return(*period, drawn, k),
                forall|k: int|
                    0 <= k < j ==> growth_fits(
                        amounts(starting_balance@)[k],
                        model.total_return(*period, drawn, k),
                    ),
                forall|k: int|
                    0 <= k < j ==> (#[trigger] out@[k]) == grown(
                        amounts(starting_balance@)[k],
                        model.total_return(*period, drawn, k),
                    ),
            decreases n - j,
        {
            let rate: i128 = ret[j];
            if rate < i64::MIN as i128 || rate > i64::MAX as i128 {
                proof {
                    assert(!growth_fits(
                        amounts(starting_balance@)[j as int],
                        model.total_return(*period, drawn, j as int),
                    ));
                }
                return Err(InvestError::Overflow);
            }
            let balance: i64 = starting_balance[j];
            let wide: i128 = balance as i128 + scale(balance, rate as i64);
            if wide < i64::MIN as i128 || wide > i64::MAX as i128 {
                proof {
                    assert(!growth_fits(
                        amounts(starting_balance@)[j as int],
                        model.total_return(*period, drawn, j as int),
                    ));
                }
                return Err(InvestError::Overflow);
            }
            out.push(wide as i64);
            j = j + 1;
        }
        proof {
            assert(amounts(out@) =~= invested(amounts(starting_balance@), model, *period, drawn));
        }
        Ok(out)
    }

    fn invest_asset(
        &self,
        asset: &Asset,
        weight: &i32,
        nsamples: &usize,
        period: &Frequency,
        draws: &Vec<i32>,
    ) -> (r: Result<Vec<i64>, InvestError>) {
        let n: usize = *nsamples;
        if n == 0 {
            return Err(InvestError::NoSamples);
        }
        if asset.std_dev < 0 {
            return Err(InvestError::InvalidPortfolio);
        }
        let certain: bool = asset.std_dev == 0;
        if !certain && draws.len() != n {
            return Err(InvestError::MissingDraws);
        }
        let fixed: i32 = asset.expected_return(period);
        let mut out: Vec<i64> = Vec::new();
        let mut j: usize = 0;
        while j < n
            invariant
                j <= n,
                certain == (asset.std_dev == 0),
                !certain ==> draws@.len() == n,
                fixed == expected(asset@.mean_return, *period),
                out@.len() == j,
                forall|k: int|
                    0 <= k < j ==> (#[trigger] out@[k]) == scaled(
                        *weight as int,
                        asset@.sample(*period, ints(draws@), k),
                    ),
                forall|k: int|
                    0 <= k < j ==> -0x800_0000_0000 <= (#[trigger] out@[k]) <= 0x800_0000_0000,
            decreases n - j,
        {
            let sample: i32 = if certain {
                fixed
            } else {
                draws[j]
            };
            out.push(scale_rate(*weight, sample));
            j = j + 1;
        }
        Ok(out)
    }
}

/// The sum of the weighted expected returns of the first `k` assets.
pub open spec fn certain_return(portfolio: PortfolioView, period: Frequency, k: int) -> int
    decreases k,
{
    if k <= 0 {
        0
    } else {
        certain_return(portfolio, period, k - 1) + scaled(
            portfolio.weights[k - 1],
            expected(portfolio.assets[k - 1].mean_return, period),
        )
    }
}

/// Where no asset has a spread, nothing is left to chance: whatever the
/// draws, the return of the portfolio is in every sample the sum of the
/// weighted expected returns, and the balance grows by that rate.
pub proof fn lemma_certain_growth(
    balances: Seq<int>,
    portfolio: PortfolioView,
    period: Frequency,
    draws: Seq<Seq<int>>,
    j: int,
)
    requires
        forall|i: int| 0 <= i < portfolio.pairs() ==> (#[trigger] portfolio.assets[i]).std_dev == 0,
        0 <= j < balances.len(),
    ensures
        portfolio.total_return(period, draws, j) == certain_return(
            portfolio,
            period,
            portfolio.pairs(),
        ),
        invested(balances, portfolio, period, draws)[j] == grown(
            balances[j],
            certain_return(portfolio, period, portfolio.pairs()),
        ),
{
    lemma_certain_partial(portfolio, period, draws, portfolio.pairs(), j);
}

/// The step of [`lemma_certain_growth`]: the same for the first `k` assets.
pub proof fn lemma_certain_partial(
    portfolio: PortfolioView,
    period: Frequency,
    draws: Seq<Seq<int>>,
    k: int,
    j: int,
)
    requires
        k <= portfolio.pairs(),
        forall|i: int| 0 <= i < portfolio.pairs() ==> (#[trigger] portfolio.assets[i]).std_dev == 0,
    ensures
        portfolio.partial_return(period, draws, k, j) == certain_return(portfolio, period, k),
    decreases k,
{
    if k > 0 {
        lemma_certain_partial(portfolio, period, draws, k - 1, j);
        assert(portfolio.assets[k - 1].std_dev == 0);
    }
}

} // verus!
