use stp258_traits::serp_tes::{plan_adjustment, supply_change};
use stp258_traits::{
    ElastAdjustmentFrequency, Error, Ledger, NoOpReason, Price, SerpConfig, SerpDirection, SerpOutcome, SerpTes,
    SerpTesPriceProvider,
};

const NATIVE: u32 = 0;
const STABLE: u32 = 1;
const USD: u32 = 100;
const HOLDER: u64 = 7;
const SERPER: u64 = 9;

fn config(tolerance: u128) -> SerpConfig {
    SerpConfig {
        peg_currency_id: USD,
        peg_unit: 1_000,
        tolerance,
        incentive_rate: Price::checked_from_rational(1, 100).unwrap(),
        frequency: ElastAdjustmentFrequency { adjustment_frequency: 1 },
    }
}

fn setup(tolerance: u128) -> (SerpTes, Ledger) {
    let mut serp = SerpTes::new(NATIVE, SERPER);
    serp.add_stable_currency(STABLE, config(tolerance)).unwrap();
    let mut ledger = Ledger::new();
    ledger.deposit(STABLE, &HOLDER, 1_000_000).unwrap();
    (serp, ledger)
}

fn expanded(stable_amount: u128, native_amount: u128) -> Result<SerpOutcome, Error> {
    Ok(SerpOutcome::Adjusted { direction: SerpDirection::Expansion, stable_amount, native_amount })
}

#[test]
fn supply_change_is_proportional() {
    assert_eq!(supply_change(1_000_000, 1_100, 1_000), Ok(100_000));
    assert_eq!(supply_change(1_000_000, 900, 1_000), Ok(100_000));
    assert_eq!(supply_change(1_000_000, 1_000, 1_000), Ok(0));
    assert_eq!(supply_change(5, 1_001, 1_000), Ok(0));
}

#[test]
fn supply_change_never_exceeds_issuance() {
    assert_eq!(supply_change(1_000_000, 3_000, 1_000), Ok(1_000_000));
    assert_eq!(supply_change(1_000_000, 0, 1_000), Ok(1_000_000));
}

#[test]
fn supply_change_overflow() {
    assert_eq!(supply_change(u128::MAX, 1_002, 1_000), Err(Error::Overflow));
}

#[test]
fn expansion_scenario_above_peg() {
    let (mut serp, mut ledger) = setup(0);
    let r = serp.on_serp_block(&mut ledger, 10, STABLE, Some(1_100), Some(10_000));
    // change 1_000_000 * 100 / 1_000; incentive 100_000 / 1.102
    assert_eq!(r, expanded(100_000, 90_744));
    assert_eq!(ledger.free_balance(STABLE, &SERPER), 100_000);
    assert_eq!(ledger.free_balance(NATIVE, &SERPER), 90_744);
    assert_eq!(ledger.total_issuance(STABLE), 1_100_000);
    assert_eq!(ledger.total_issuance(NATIVE), 90_744);
    assert_eq!(serp.last_adjusted(STABLE), Ok(Some(10)));
}

#[test]
fn plan_for_the_expansion_scenario() {
    assert_eq!(plan_adjustment(&config(0), 1_000_000, 1_100), expanded(100_000, 90_744));
}

#[test]
fn contraction_below_peg_burns_from_the_serper() {
    let mut serp = SerpTes::new(NATIVE, SERPER);
    serp.add_stable_currency(STABLE, config(0)).unwrap();
    let mut ledger = Ledger::new();
    ledger.deposit(STABLE, &SERPER, 1_000_000).unwrap();
    ledger.deposit(NATIVE, &SERPER, 500_000).unwrap();
    let r = serp.on_serp_block(&mut ledger, 3, STABLE, Some(900), Some(10_000));
    // 100_000 / 0.902 = 110_864.7...
    assert_eq!(
        r,
        Ok(SerpOutcome::Adjusted { direction: SerpDirection::Contraction, stable_amount: 100_000, native_amount: 110_864 })
    );
    assert_eq!(ledger.free_balance(STABLE, &SERPER), 900_000);
    assert_eq!(ledger.total_issuance(STABLE), 900_000);
    assert_eq!(ledger.free_balance(NATIVE, &SERPER), 389_136);
}

#[test]
fn contraction_fails_whole_when_the_serper_is_short() {
    let mut serp = SerpTes::new(NATIVE, SERPER);
    serp.add_stable_currency(STABLE, config(0)).unwrap();
    let mut ledger = Ledger::new();
    ledger.deposit(STABLE, &SERPER, 1_000_000).unwrap();
    let r = serp.on_serp_block(&mut ledger, 3, STABLE, Some(900), Some(10_000));
    assert_eq!(r, Err(Error::InsufficientBalance));
    assert_eq!(ledger.free_balance(STABLE, &SERPER), 1_000_000);
    assert_eq!(ledger.total_issuance(STABLE), 1_000_000);
    assert_eq!(serp.last_adjusted(STABLE), Ok(None));
}

#[test]
fn price_at_peg_changes_nothing() {
    let (mut serp, mut ledger) = setup(0);
    let r = serp.on_serp_block(&mut ledger, 10, STABLE, Some(1_000), Some(10_000));
    assert_eq!(r, Ok(SerpOutcome::Skipped(NoOpReason::ToleranceNotMet)));
    assert_eq!(ledger.total_issuance(STABLE), 1_000_000);
    assert_eq!(ledger.free_balance(STABLE, &SERPER), 0);
    assert_eq!(ledger.total_issuance(NATIVE), 0);
    assert_eq!(serp.last_adjusted(STABLE), Ok(None));
}

#[test]
fn native_leg_overflow_leaves_the_stable_leg_unapplied() {
    let (mut serp, mut ledger) = setup(0);
    ledger.deposit(NATIVE, &HOLDER, u128::MAX - 10).unwrap();
    let r = serp.on_serp_block(&mut ledger, 10, STABLE, Some(1_100), Some(10_000));
    assert_eq!(r, Err(Error::Overflow));
    assert_eq!(ledger.free_balance(STABLE, &SERPER), 0);
    assert_eq!(ledger.total_issuance(STABLE), 1_000_000);
    assert_eq!(ledger.free_balance(NATIVE, &SERPER), 0);
    assert_eq!(serp.last_adjusted(STABLE), Ok(None));
}

#[test]
fn second_tick_at_the_same_moment_is_skipped() {
    let (mut serp, mut ledger) = setup(50);
    assert_eq!(serp.on_serp_block(&mut ledger, 10, STABLE, Some(1_100), Some(10_000)), expanded(100_000, 90_744));
    let r = serp.on_serp_block(&mut ledger, 10, STABLE, Some(1_100), Some(10_000));
    assert_eq!(r, Ok(SerpOutcome::Skipped(NoOpReason::FrequencyNotMet)));
    assert_eq!(ledger.free_balance(STABLE, &SERPER), 100_000);
    assert_eq!(ledger.total_issuance(STABLE), 1_100_000);
    // one tick later the frequency of one is met again: 1_100_000 * 100 / 1_000
    assert_eq!(serp.on_serp_block(&mut ledger, 11, STABLE, Some(1_100), Some(10_000)), expanded(110_000, 99_818));
}

#[test]
fn small_deviation_within_tolerance_is_skipped() {
    let (mut serp, mut ledger) = setup(200);
    let r = serp.on_serp_block(&mut ledger, 10, STABLE, Some(1_100), Some(10_000));
    assert_eq!(r, Ok(SerpOutcome::Skipped(NoOpReason::ToleranceNotMet)));
    assert_eq!(ledger.total_issuance(STABLE), 1_000_000);
}

#[test]
fn missing_price_is_skipped() {
    let (mut serp, mut ledger) = setup(0);
    assert_eq!(
        serp.on_serp_block(&mut ledger, 10, STABLE, None, Some(10_000)),
        Ok(SerpOutcome::Skipped(NoOpReason::PriceUnavailable))
    );
    assert_eq!(
        serp.on_serp_block(&mut ledger, 10, STABLE, Some(1_100), None),
        Ok(SerpOutcome::Skipped(NoOpReason::PriceUnavailable))
    );
    assert_eq!(ledger.total_issuance(STABLE), 1_000_000);
}

#[test]
fn zero_native_price_is_skipped() {
    let (mut serp, mut ledger) = setup(0);
    assert_eq!(
        serp.on_serp_block(&mut ledger, 10, STABLE, Some(1_100), Some(0)),
        Ok(SerpOutcome::Skipped(NoOpReason::NoQuotableMarket))
    );
    assert_eq!(ledger.total_issuance(STABLE), 1_000_000);
    assert_eq!(serp.last_adjusted(STABLE), Ok(None));
}

#[test]
fn unknown_currency_is_an_error() {
    let (mut serp, mut ledger) = setup(0);
    assert_eq!(serp.on_serp_block(&mut ledger, 10, 42, Some(1_100), Some(10_000)), Err(Error::UnknownCurrency));
    assert_eq!(serp.serp_elast(&mut ledger, 42, 1_100), Err(Error::UnknownCurrency));
    assert_eq!(serp.last_adjusted(42), Err(Error::UnknownCurrency));
}

#[test]
fn invalid_configurations_are_refused() {
    let mut serp = SerpTes::new(NATIVE, SERPER);
    assert_eq!(serp.add_stable_currency(NATIVE, config(0)), Err(Error::InvalidConfig));
    let mut zero_peg = config(0);
    zero_peg.peg_unit = 0;
    assert_eq!(serp.add_stable_currency(STABLE, zero_peg), Err(Error::InvalidConfig));
    let mut no_frequency = config(0);
    no_frequency.frequency.adjustment_frequency = 0;
    assert_eq!(serp.add_stable_currency(STABLE, no_frequency), Err(Error::InvalidConfig));
    let mut rate_above_one = config(0);
    rate_above_one.incentive_rate = Price::from_inner(Price::one().into_inner() + 1);
    assert_eq!(serp.add_stable_currency(STABLE, rate_above_one), Err(Error::InvalidConfig));
    assert_eq!(serp.add_stable_currency(STABLE, config(0)), Ok(()));
    assert_eq!(serp.add_stable_currency(STABLE, config(0)), Err(Error::InvalidConfig));
    assert_eq!(serp.native_currency_id(), NATIVE);
    assert_eq!(serp.serper(), SERPER);
}

#[test]
fn serp_elast_adjusts_without_recording_the_tick() {
    let (serp, mut ledger) = setup(0);
    assert_eq!(serp.serp_elast(&mut ledger, STABLE, 1_100), expanded(100_000, 90_744));
    assert_eq!(serp.last_adjusted(STABLE), Ok(None));
    assert_eq!(ledger.total_issuance(STABLE), 1_100_000);
}

struct FixedOracle;

impl SerpTesPriceProvider<u32, u128> for FixedOracle {
    fn get_price(base: u32, quote: u32) -> Option<u128> {
        match (base, quote) {
            (STABLE, USD) => Some(1_100),
            (NATIVE, USD) => Some(10_000),
            _ => None,
        }
    }
}

struct SilentOracle;

impl SerpTesPriceProvider<u32, u128> for SilentOracle {
    fn get_price(_base: u32, _quote: u32) -> Option<u128> {
        None
    }
}

#[test]
fn on_tick_asks_the_oracle() {
    let (mut serp, mut ledger) = setup(0);
    assert_eq!(serp.on_tick::<FixedOracle>(&mut ledger, 10, STABLE), expanded(100_000, 90_744));
    assert_eq!(ledger.free_balance(STABLE, &SERPER), 100_000);
}

#[test]
fn on_tick_without_prices_is_skipped() {
    let (mut serp, mut ledger) = setup(0);
    assert_eq!(
        serp.on_tick::<SilentOracle>(&mut ledger, 10, STABLE),
        Ok(SerpOutcome::Skipped(NoOpReason::PriceUnavailable))
    );
    assert_eq!(serp.on_tick::<SilentOracle>(&mut ledger, 10, 42), Err(Error::UnknownCurrency));
}
