//! The supply controller: on each tick it compares the price of a stable
//! currency with its peg and, where the gap is large enough and enough time has
//! passed, expands or contracts the supply in proportion, paying or charging
//! the serper in native currency at the quoted price.
use vstd::prelude::*;

use crate::price::{rational_price, Price, PRICE_ONE};
use crate::serp_market::{
    can_contract, can_expand, contract_supply, expand_supply, pay_serpdown_by_quoted, pay_serpup_by_quoted,
    quoted_amount_result, SerpDirection,
};
use crate::stp258::{AccountId, Balance, CurrencyId, Error, Ledger, LedgerView};

verus! {

/// A logical clock: a block number or an epoch counter.
pub type Moment = u64;

/// A source of the price of one currency in terms of another.
pub trait SerpTesPriceProvider<CurrencyId, Price> {
    fn get_price(base: CurrencyId, quote: CurrencyId) -> Option<Price>;
}

/// The frequency of adjustments for the Currency supply.
#[derive(Clone, Copy, Debug, PartialEq, Eq)]
pub struct ElastAdjustmentFrequency<BlockNumber> {
    /// Number of blocks for adjustment frequency.
    pub adjustment_frequency: BlockNumber,
}

/// A price oracle that reports one tracked value.
pub trait FetchPrice<Balance> {
    fn fetch_price() -> Balance;
}

/// How one stable currency is held to its peg.
#[derive(Clone, Copy, Debug)]
pub struct SerpConfig {
    /// The external reference that prices are quoted against.
    pub peg_currency_id: CurrencyId,
    /// The price that means "one peg unit".
    pub peg_unit: Balance,
    /// Gaps from the peg smaller than this are left alone.
    pub tolerance: Balance,
    /// How much more than the market price serpers are quoted, in [0, 1].
    pub incentive_rate: Price,
    /// The least number of ticks between two adjustments.
    pub frequency: ElastAdjustmentFrequency<Moment>,
}

/// A stable currency under control, with the tick of its last adjustment.
#[derive(Clone, Copy, Debug)]
pub struct StableCurrency {
    pub currency_id: CurrencyId,
    pub config: SerpConfig,
    pub last_adjusted: Option<Moment>,
}

/// Why a tick left the supply alone.
#[derive(Clone, Copy, Debug, PartialEq, Eq, Structural)]
pub enum NoOpReason {
    /// A price was missing.
    PriceUnavailable,
    /// The native currency, in which serpers are paid, has a price of zero.
    NoQuotableMarket,
    /// Too few ticks since the last adjustment.
    FrequencyNotMet,
    /// The price is too close to the peg to move the supply.
    ToleranceNotMet,
}

/// What a tick did.
#[derive(Clone, Copy, Debug, PartialEq, Eq, Structural)]
pub enum SerpOutcome {
    Skipped(NoOpReason),
    Adjusted { direction: SerpDirection, stable_amount: Balance, native_amount: Balance },
}

pub open spec fn valid_config(config: SerpConfig) -> bool {
    &&& config.peg_unit > 0
    &&& config.frequency.adjustment_frequency >= 1
    &&& config.incentive_rate.inner <= PRICE_ONE
}

/// Whether enough ticks have passed since the last adjustment.
pub open spec fn frequency_met(config: SerpConfig, last_adjusted: Option<Moment>, now: Moment) -> bool {
    match last_adjusted {
        None => true,
        Some(t) => now >= t && now - t >= config.frequency.adjustment_frequency,
    }
}

/// The proportional change: `issuance * distance / peg_unit` rounded down,
/// and never more than the issuance.
pub open spec fn supply_change_result(issuance: Balance, distance: Balance, peg_unit: Balance) -> Result<Balance, Error> {
    if distance >= peg_unit {
        Ok(issuance)
    } else if issuance * distance > u128::MAX {
        Err(Error::Overflow)
    } else {
        Ok((issuance * distance / (peg_unit as int)) as Balance)
    }
}

pub open spec fn price_distance(stable_price: Balance, peg_unit: Balance) -> Balance {
    if stable_price >= peg_unit {
        (stable_price - peg_unit) as Balance
    } else {
        (peg_unit - stable_price) as Balance
    }
}

/// The adjustment that `stable_price` calls for, before any balance is consulted.
pub open spec fn planned_adjustment(config: SerpConfig, issuance: Balance, stable_price: Balance) -> Result<SerpOutcome, Error> {
    let distance = price_distance(stable_price, config.peg_unit);
    if distance == 0 || distance < config.tolerance {
        Ok(SerpOutcome::Skipped(NoOpReason::ToleranceNotMet))
    } else {
        match supply_change_result(issuance, distance, config.peg_unit) {
            Err(e) => Err(e),
            Ok(change) => if change == 0 {
                Ok(SerpOutcome::Skipped(NoOpReason::ToleranceNotMet))
            } else {
                match rational_price(stable_price, config.peg_unit) {
                    None => Err(Error::Overflow),
                    Some(market) => {
                        let direction = if stable_price > config.peg_unit {
                            SerpDirection::Expansion
                        } else {
                            SerpDirection::Contraction
                        };
                        match quoted_amount_result(change, market, config.incentive_rate, direction) {
                            Err(e) => Err(e),
                            Ok(native_amount) => Ok(
                                SerpOutcome::Adjusted { direction, stable_amount: change, native_amount },
                            ),
                        }
                    },
                }
            },
        }
    }
}

/// Whether the ledger can carry out `outcome` for `serper`.
pub open spec fn can_settle(v: LedgerView, native: CurrencyId, stable: CurrencyId, serper: AccountId, outcome: SerpOutcome) -> bool {
    match outcome {
        SerpOutcome::Skipped(_) => true,
        SerpOutcome::Adjusted { direction, stable_amount, native_amount } => match direction {
            SerpDirection::Expansion => can_expand(v, native, stable, stable_amount, native_amount),
            SerpDirection::Contraction => can_contract(v, native, stable, stable_amount, native_amount, serper),
        },
    }
}

/// The failure of an adjustment that the ledger cannot carry out.
pub open spec fn settle_error(direction: SerpDirection) -> Error {
    match direction {
        SerpDirection::Expansion => Error::Overflow,
        SerpDirection::Contraction => Error::InsufficientBalance,
    }
}

/// The ledger after `outcome`: both legs minted or both burnt.
pub open spec fn settled(v: LedgerView, native: CurrencyId, stable: CurrencyId, serper: AccountId, outcome: SerpOutcome) -> LedgerView {
    match outcome {
        SerpOutcome::Skipped(_) => v,
        SerpOutcome::Adjusted { direction, stable_amount, native_amount } => match direction {
            SerpDirection::Expansion => v.deposited(stable, serper, stable_amount).deposited(native, serper, native_amount),
            SerpDirection::Contraction => v.withdrawn(stable, serper, stable_amount).withdrawn(native, serper, native_amount),
        },
    }
}

/// The position of the last entry for `c`, or -1.
pub open spec fn stable_index(s: Seq<StableCurrency>, c: CurrencyId) -> int
    decreases s.len(),
{
    if s.len() == 0 {
        -1
    } else if s.last().currency_id == c {
        s.len() - 1
    } else {
        stable_index(s.drop_last(), c)
    }
}

/// The controller as plain values.
pub struct SerpTesView {
    pub native_currency_id: CurrencyId,
    pub serper: AccountId,
    pub stables: Seq<StableCurrency>,
}

/// The result of one tick and the state that it leaves.
pub struct SerpStep {
    pub result: Result<SerpOutcome, Error>,
    pub ledger: LedgerView,
    pub controller: SerpTesView,
}

impl SerpTesView {
    /// Each stable currency once, never the native one, each with a valid
    /// configuration.
    pub open spec fn wf(self) -> bool {
        &&& forall|i: int, j: int|
            0 <= i < j < self.stables.len() ==> #[trigger] self.stables[i].currency_id
                != #[trigger] self.stables[j].currency_id
        &&& forall|i: int| 0 <= i < self.stables.len() ==> #[trigger] self.stables[i].currency_id != self.native_currency_id
        &&& forall|i: int| 0 <= i < self.stables.len() ==> valid_config(#[trigger] self.stables[i].config)
    }

    pub open spec fn index_of(self, c: CurrencyId) -> int {
        stable_index(self.stables, c)
    }

    pub open spec fn config_of(self, c: CurrencyId) -> SerpConfig {
        self.stables[self.index_of(c)].config
    }

    pub open spec fn with_adjusted(self, c: CurrencyId, now: Moment) -> SerpTesView {
        let i = self.index_of(c);
        let e = self.stables[i];
        SerpTesView {
            native_currency_id: self.native_currency_id,
            serper: self.serper,
            stables: self.stables.update(i, StableCurrency { currency_id: e.currency_id, config: e.config, last_adjusted: Some(now) }),
        }
    }

    /// An adjustment of `c` at `stable_price`, without the gates of a tick.
    pub open spec fn elast_step(self, v: LedgerView, c: CurrencyId, stable_price: Balance) -> (Result<SerpOutcome, Error>, LedgerView) {
        if self.index_of(c) < 0 {
            (Err(Error::UnknownCurrency), v)
        } else {
            match planned_adjustment(self.config_of(c), v.total_issuance(c), stable_price) {
                Err(e) => (Err(e), v),
                Ok(outcome) => if can_settle(v, self.native_currency_id, c, self.serper, outcome) {
                    (Ok(outcome), settled(v, self.native_currency_id, c, self.serper, outcome))
                } else {
                    (Err(settle_error(outcome->direction)), v)
                },
            }
        }
    }

    /// One tick for `c`: skipped where a price is missing, the native price is
    /// zero or the last adjustment is too recent, else an adjustment, whose
    /// tick is recorded.
    pub open spec fn block_step(
        self,
        v: LedgerView,
        now: Moment,
        c: CurrencyId,
        stable_price: Option<Balance>,
        native_price: Option<Balance>,
    ) -> SerpStep {
        if self.index_of(c) < 0 {
            SerpStep { result: Err(Error::UnknownCurrency), ledger: v, controller: self }
        } else if stable_price is None || native_price is None {
            SerpStep { result: Ok(SerpOutcome::Skipped(NoOpReason::PriceUnavailable)), ledger: v, controller: self }
        } else if native_price == Some(0u128) {
            SerpStep { result: Ok(SerpOutcome::Skipped(NoOpReason::NoQuotableMarket)), ledger: v, controller: self }
        } else if !frequency_met(self.config_of(c), self.stables[self.index_of(c)].last_adjusted, now) {
            SerpStep { result: Ok(SerpOutcome::Skipped(NoOpReason::FrequencyNotMet)), ledger: v, controller: self }
        } else {
            let (result, ledger) = self.elast_step(v, c, stable_price->Some_0);
            SerpStep {
                result,
                ledger,
                controller: if result matches Ok(SerpOutcome::Adjusted { .. }) {
                    self.with_adjusted(c, now)
                } else {
                    self
                },
            }
        }
    }
}

proof fn lemma_stable_index_update(s: Seq<StableCurrency>, i: int, x: StableCurrency, c: CurrencyId)
    requires
        i == stable_index(s, c),
        i >= 0,
        x.currency_id == c,
    ensures
        stable_index(s.update(i, x), c) == i,
    decreases s.len(),
{
    lemma_stable_index(s, c);
    let t = s.update(i, x);
    if i < s.len() - 1 {
        assert(t.drop_last() =~= s.drop_last().update(i, x));
        lemma_stable_index_update(s.drop_last(), i, x, c);
    }
}

/// Two ticks of one currency in immediate succession, with unchanged prices,
/// never adjust twice: the second leaves the ledger and the controller as the
/// first left them, and where the first succeeded the second is skipped.
pub proof fn tick_twice_adjusts_once(
    controller: SerpTesView,
    ledger: LedgerView,
    now: Moment,
    c: CurrencyId,
    stable_price: Option<Balance>,
    native_price: Option<Balance>,
)
    requires
        controller.wf(),
    ensures
        ({
            let first = controller.block_step(ledger, now, c, stable_price, native_price);
            let second = first.controller.block_step(first.ledger, now, c, stable_price, native_price);
            &&& second.ledger == first.ledger
            &&& second.controller == first.controller
            &&& first.result is Ok ==> second.result matches Ok(SerpOutcome::Skipped(_))
        }),
{
    let first = controller.block_step(ledger, now, c, stable_price, native_price);
    if first.result matches Ok(SerpOutcome::Adjusted { .. }) {
        let i = controller.index_of(c);
        lemma_stable_index(controller.stables, c);
        let e = controller.stables[i];
        let x = StableCurrency { currency_id: e.currency_id, config: e.config, last_adjusted: Some(now) };
        lemma_stable_index_update(controller.stables, i, x, c);
        assert(first.controller.index_of(c) == i);
        assert(first.controller.stables[i] == x);
        assert(valid_config(e.config));
    }
}

/// The stable currency supply change that `stable_price` calls for.
pub fn supply_change(issuance: Balance, stable_price: Balance, peg_unit: Balance) -> (r: Result<Balance, Error>)
    requires
        peg_unit > 0,
    ensures
        r == supply_change_result(issuance, price_distance(stable_price, peg_unit), peg_unit),
        r matches Ok(change) ==> change <= issuance,
        stable_price == peg_unit ==> r == Ok::<Balance, Error>(0),
{
    let distance = if stable_price >= peg_unit {
        stable_price - peg_unit
    } else {
        peg_unit - stable_price
    };
    if distance >= peg_unit {
        Ok(issuance)
    } else if distance != 0 && issuance > u128::MAX / distance {
        proof {
            assert(issuance * distance > u128::MAX) by (nonlinear_arith)
                requires
                    distance > 0,
                    issuance > u128::MAX / distance,
            ;
        }
        Err(Error::Overflow)
    } else {
        proof {
            assert(issuance * distance <= u128::MAX) by (nonlinear_arith)
                requires
                    distance == 0 || issuance <= u128::MAX / distance,
            ;
            assert(issuance * distance / (peg_unit as int) <= issuance) by (nonlinear_arith)
                requires
                    distance < peg_unit,
                    peg_unit > 0,
            ;
        }
        Ok(issuance * distance / peg_unit)
    }
}

/// The adjustment that `stable_price` calls for under `config`.
pub fn plan_adjustment(config: &SerpConfig, issuance: Balance, stable_price: Balance) -> (r: Result<SerpOutcome, Error>)
    requires
        valid_config(*config),
    ensures
        r == planned_adjustment(*config, issuance, stable_price),
{
    let peg_unit = config.peg_unit;
    let distance = if stable_price >= peg_unit {
        stable_price - peg_unit
    } else {
        peg_unit - stable_price
    };
    if distance == 0 || distance < config.tolerance {
        return Ok(SerpOutcome::Skipped(NoOpReason::ToleranceNotMet));
    }
    let change = match supply_change(issuance, stable_price, peg_unit) {
        Ok(change) => change,
        Err(e) => return Err(e),
    };
    if change == 0 {
        return Ok(SerpOutcome::Skipped(NoOpReason::ToleranceNotMet));
    }
    let market = match Price::checked_from_rational(stable_price, peg_unit) {
        Some(p) => p,
        None => return Err(Error::Overflow),
    };
    if stable_price > peg_unit {
        match pay_serpup_by_quoted(change, market, config.incentive_rate) {
            Ok(native_amount) => Ok(
                SerpOutcome::Adjusted { direction: SerpDirection::Expansion, stable_amount: change, native_amount },
            ),
            Err(e) => Err(e),
        }
    } else {
        match pay_serpdown_by_quoted(change, market, config.incentive_rate) {
            Ok(native_amount) => Ok(
                SerpOutcome::Adjusted { direction: SerpDirection::Contraction, stable_amount: change, native_amount },
            ),
            Err(e) => Err(e),
        }
    }
}

/// The supply controller of the stable currencies, which pays and charges one
/// serper account in the native currency.
pub struct SerpTes {
    native_currency_id: CurrencyId,
    serper: AccountId,
    stables: Vec<StableCurrency>,
}

proof fn lemma_stable_index(s: Seq<StableCurrency>, c: CurrencyId)
    ensures
        -1 <= stable_index(s, c) < s.len(),
        stable_index(s, c) >= 0 ==> s[stable_index(s, c)].currency_id == c,
        stable_index(s, c) == -1 ==> forall|i: int| 0 <= i < s.len() ==> #[trigger] s[i].currency_id != c,
    decreases s.len(),
{
    if s.len() > 0 {
        lemma_stable_index(s.drop_last(), c);
        if stable_index(s, c) == -1 {
            assert forall|i: int| 0 <= i < s.len() implies #[trigger] s[i].currency_id != c by {
                if i < s.len() - 1 {
                    assert(s.drop_last()[i] == s[i]);
                }
            }
        }
    }
}

impl SerpTes {
    pub closed spec fn view(&self) -> SerpTesView {
        SerpTesView { native_currency_id: self.native_currency_id, serper: self.serper, stables: self.stables@ }
    }

    pub open spec fn wf(&self) -> bool {
        self@.wf()
    }

    /// A controller of no stable currency yet.
    pub fn new(native_currency_id: CurrencyId, serper: AccountId) -> (r: SerpTes)
        ensures
            r.wf(),
            r@.native_currency_id == native_currency_id,
            r@.serper == serper,
            r@.stables == Seq::<StableCurrency>::empty(),
    {
        SerpTes { native_currency_id, serper, stables: Vec::new() }
    }

    pub fn native_currency_id(&self) -> (r: CurrencyId)
        ensures
            r == self@.native_currency_id,
    {
        self.native_currency_id
    }

    pub fn serper(&self) -> (r: AccountId)
        ensures
            r == self@.serper,
    {
        self.serper
    }

    fn find_stable(&self, currency_id: CurrencyId) -> (r: Option<usize>)
        ensures
            match r {
                Some(i) => i == self@.index_of(currency_id) && i < self.stables.len(),
                None => self@.index_of(currency_id) == -1,
            },
    {
        let mut k: usize = self.stables.len();
        assert(self.stables@.take(k as int) =~= self.stables@);
        while k > 0
            invariant
                k <= self.stables.len(),
                stable_index(self.stables@, currency_id) == stable_index(self.stables@.take(k as int), currency_id),
            decreases k,
        {
            proof {
                assert(self.stables@.take(k as int).drop_last() =~= self.stables@.take(k - 1));
            }
            if self.stables[k - 1].currency_id == currency_id {
                return Some(k - 1);
            }
            k = k - 1;
        }
        None
    }

    /// The tick of the last adjustment of `currency_id`, if any.
    pub fn last_adjusted(&self, currency_id: CurrencyId) -> (r: Result<Option<Moment>, Error>)
        ensures
            self@.index_of(currency_id) < 0 ==> r == Err::<Option<Moment>, Error>(Error::UnknownCurrency),
            self@.index_of(currency_id) >= 0 ==> r == Ok::<Option<Moment>, Error>(self@.stables[self@.index_of(currency_id)].last_adjusted),
    {
        match self.find_stable(currency_id) {
            Some(i) => Ok(self.stables[i].last_adjusted),
            None => Err(Error::UnknownCurrency),
        }
    }

    /// Puts `currency_id` under control with `config`. Refused where the
    /// configuration is invalid, the currency is the native one, or it is
    /// already controlled.
    pub fn add_stable_currency(&mut self, currency_id: CurrencyId, config: SerpConfig) -> (r: Result<(), Error>)
        requires
            old(self).wf(),
        ensures
            final(self).wf(),
            r is Ok <==> (valid_config(config) && currency_id != old(self)@.native_currency_id
                && old(self)@.index_of(currency_id) < 0),
            r is Ok ==> final(self)@ == (SerpTesView {
                native_currency_id: old(self)@.native_currency_id,
                serper: old(self)@.serper,
                stables: old(self)@.stables.push(StableCurrency { currency_id, config, last_adjusted: None }),
            }),
            r is Err ==> r == Err::<(), Error>(Error::InvalidConfig) && final(self)@ == old(self)@,
    {
        if config.peg_unit == 0 || config.frequency.adjustment_frequency == 0 || config.incentive_rate.inner > PRICE_ONE
            || currency_id == self.native_currency_id {
            return Err(Error::InvalidConfig);
        }
        if self.find_stable(currency_id).is_some() {
            return Err(Error::InvalidConfig);
        }
        proof {
            lemma_stable_index(self.stables@, currency_id);
        }
        self.stables.push(StableCurrency { currency_id, config, last_adjusted: None });
        Ok(())
    }

    /// Expands or contracts the supply of `stable_currency_id` as
    /// `stable_price` calls for, both legs or neither; no gate of a tick
    /// applies and no tick is recorded.
    pub fn serp_elast(&self, ledger: &mut Ledger, stable_currency_id: CurrencyId, stable_price: Balance) -> (r: Result<SerpOutcome, Error>)
        requires
            self.wf(),
            old(ledger).wf(),
        ensures
            final(ledger).wf(),
            (r, final(ledger)@) == self@.elast_step(old(ledger)@, stable_currency_id, stable_price),
    {
        let i = match self.find_stable(stable_currency_id) {
            Some(i) => i,
            None => return Err(Error::UnknownCurrency),
        };
        proof {
            lemma_stable_index(self.stables@, stable_currency_id);
        }
        let config = self.stables[i].config;
        let issuance = ledger.total_issuance(stable_currency_id);
        let outcome = match plan_adjustment(&config, issuance, stable_price) {
            Ok(outcome) => outcome,
            Err(e) => return Err(e),
        };
        match outcome {
            SerpOutcome::Skipped(_) => Ok(outcome),
            SerpOutcome::Adjusted { direction, stable_amount, native_amount } => {
                let settled = match direction {
                    SerpDirection::Expansion => expand_supply(
                        ledger,
                        self.native_currency_id,
                        stable_currency_id,
                        stable_amount,
                        native_amount,
                        &self.serper,
                    ),
                    SerpDirection::Contraction => contract_supply(
                        ledger,
                        self.native_currency_id,
                        stable_currency_id,
                        stable_amount,
                        native_amount,
                        &self.serper,
                    ),
                };
                match settled {
                    Ok(()) => Ok(outcome),
                    Err(e) => Err(e),
                }
            },
        }
    }

    /// One tick for `stable_currency_id` at `now`, with the prices of the
    /// stable and the native currency as the oracle gave them. A missing price,
    /// a native price of zero or a too recent adjustment skips the tick; a
    /// failure of the ledger leaves everything as it was.
    pub fn on_serp_block(
        &mut self,
        ledger: &mut Ledger,
        now: Moment,
        stable_currency_id: CurrencyId,
        stable_currency_price: Option<Balance>,
        native_currency_price: Option<Balance>,
    ) -> (r: Result<SerpOutcome, Error>)
        requires
            old(self).wf(),
            old(ledger).wf(),
        ensures
            final(self).wf(),
            final(ledger).wf(),
            ({
                let step = old(self)@.block_step(old(ledger)@, now, stable_currency_id, stable_currency_price, native_currency_price);
                &&& r == step.result
                &&& final(ledger)@ == step.ledger
                &&& final(self)@ == step.controller
            }),
            r is Err ==> final(ledger)@ == old(ledger)@ && final(self)@ == old(self)@,
            stable_currency_price == Some(old(self)@.config_of(stable_currency_id).peg_unit) ==> final(ledger)@ == old(ledger)@,
    {
        let i = match self.find_stable(stable_currency_id) {
            Some(i) => i,
            None => return Err(Error::UnknownCurrency),
        };
        proof {
            lemma_stable_index(self.stables@, stable_currency_id);
        }
        let (stable_price, native_price) = match (stable_currency_price, native_currency_price) {
            (Some(s), Some(n)) => (s, n),
            _ => return Ok(SerpOutcome::Skipped(NoOpReason::PriceUnavailable)),
        };
        if native_price == 0 {
            return Ok(SerpOutcome::Skipped(NoOpReason::NoQuotableMarket));
        }
        let entry = self.stables[i];
        let due = match entry.last_adjusted {
            None => true,
            Some(t) => now >= t && now - t >= entry.config.frequency.adjustment_frequency,
        };
        if !due {
            return Ok(SerpOutcome::Skipped(NoOpReason::FrequencyNotMet));
        }
        let r = self.serp_elast(ledger, stable_currency_id, stable_price);
        if let Ok(SerpOutcome::Adjusted { .. }) = r {
            self.stables.set(i, StableCurrency { currency_id: entry.currency_id, config: entry.config, last_adjusted: Some(now) });
            proof {
                assert forall|a: int, b: int| 0 <= a < b < self.stables.len() implies #[trigger] self.stables@[a].currency_id
                    != #[trigger] self.stables@[b].currency_id by {
                    assert(self.stables@[a].currency_id == old(self).stables@[a].currency_id);
                    assert(self.stables@[b].currency_id == old(self).stables@[b].currency_id);
                }
                assert forall|a: int| 0 <= a < self.stables.len() implies #[trigger] self.stables@[a].currency_id != self@.native_currency_id by {
                    assert(self.stables@[a].currency_id == old(self).stables@[a].currency_id);
                }
                assert forall|a: int| 0 <= a < self.stables.len() implies valid_config(#[trigger] self.stables@[a].config) by {
                    assert(self.stables@[a].config == old(self).stables@[a].config);
                }
            }
        }
        r
    }

    /// One tick for `stable_currency_id` at `now`, with the prices asked of
    /// `P`: that of the stable and that of the native currency, both against
    /// the peg reference.
    pub fn on_tick<P: SerpTesPriceProvider<CurrencyId, Balance>>(
        &mut self,
        ledger: &mut Ledger,
        now: Moment,
        stable_currency_id: CurrencyId,
    ) -> (r: Result<SerpOutcome, Error>)
        requires
            old(self).wf(),
            old(ledger).wf(),
        ensures
            final(self).wf(),
            final(ledger).wf(),
            exists|stable_price: Option<Balance>, native_price: Option<Balance>|
                #[trigger] tick_matches(*old(self), *old(ledger), now, stable_currency_id, stable_price, native_price, r, *final(self), *final(ledger)),
    {
        let i = match self.find_stable(stable_currency_id) {
            Some(i) => i,
            None => {
                proof {
                    assert(tick_matches(*old(self), *old(ledger), now, stable_currency_id, None, None, Err(Error::UnknownCurrency), *self, *ledger));
                }
                return Err(Error::UnknownCurrency);
            },
        };
        let peg_currency_id = self.stables[i].config.peg_currency_id;
        let stable_price = P::get_price(stable_currency_id, peg_currency_id);
        let native_price = P::get_price(self.native_currency_id, peg_currency_id);
        let r = self.on_serp_block(ledger, now, stable_currency_id, stable_price, native_price);
        proof {
            assert(tick_matches(*old(self), *old(ledger), now, stable_currency_id, stable_price, native_price, r, *self, *ledger));
        }
        r
    }
}

/// The tick at `now` with these two prices turns the old controller and
/// ledger into the new ones and gives `r`.
pub open spec fn tick_matches(
    old_controller: SerpTes,
    old_ledger: Ledger,
    now: Moment,
    c: CurrencyId,
    stable_price: Option<Balance>,
    native_price: Option<Balance>,
    r: Result<SerpOutcome, Error>,
    new_controller: SerpTes,
    new_ledger: Ledger,
) -> bool {
    let step = old_controller@.block_step(old_ledger@, now, c, stable_price, native_price);
    &&& r == step.result
    &&& new_ledger@ == step.ledger
    &&& new_controller@ == step.controller
}

} // verus!
