//! Multi-currency ledger and supply-elasticity controller for peg-tracking
//! currencies, with the incentive market that prices each adjustment.
use vstd::prelude::*;

pub mod balance_sums;
pub mod price;
pub mod serp_market;
pub mod serp_tes;
pub mod stp258;

pub use price::Price;
pub use serp_market::{
    contract_supply, expand_supply, market_price, native_amount_for, pay_serpdown_by_quoted, pay_serpup_by_quoted,
    serp_quote, SerpDirection,
};
pub use serp_tes::{
    ElastAdjustmentFrequency, FetchPrice, NoOpReason, SerpConfig, SerpOutcome, SerpTes, SerpTesPriceProvider,
};
pub use stp258::{
    AccountId, Amount, Balance, BalanceLock, BalanceStatus, CurrencyId, Error, Ledger, LockIdentifier, OnDust,
};

verus! {

/// New data handler
pub trait OnNewData<AccountId, Key, Value> {
    /// New data is available
    fn on_new_data(who: &AccountId, key: &Key, value: &Value);
}

impl<AccountId, Key, Value> OnNewData<AccountId, Key, Value> for () {
    fn on_new_data(_who: &AccountId, _key: &Key, _value: &Value) {
    }
}

impl<AccountId, Key, Value, A: OnNewData<AccountId, Key, Value>> OnNewData<AccountId, Key, Value> for (A,) {
    fn on_new_data(who: &AccountId, key: &Key, value: &Value) {
        A::on_new_data(who, key, value);
    }
}

impl<AccountId, Key, Value, A: OnNewData<AccountId, Key, Value>, B: OnNewData<AccountId, Key, Value>> OnNewData<
    AccountId,
    Key,
    Value,
> for (A, B) {
    fn on_new_data(who: &AccountId, key: &Key, value: &Value) {
        A::on_new_data(who, key, value);
        B::on_new_data(who, key, value);
    }
}

/// Combine data provided by operators
pub trait CombineData<Key, Timestamped> {
    /// Combine data provided by operators
    fn combine_data(key: &Key, values: Vec<Timestamped>, prev_value: Option<Timestamped>) -> Option<Timestamped>;
}

/// Indicate if should change a value
#[derive(Clone, Debug, PartialEq, Eq)]
pub enum Change<Value> {
    /// No change.
    NoChange,
    /// Changed to new value.
    NewValue(Value),
}

/// A value with the moment at which it was observed.
#[derive(Clone, Copy, Debug, PartialEq, Eq, PartialOrd, Ord)]
pub struct TimestampedValue<Value: Ord + PartialOrd, Moment> {
    pub value: Value,
    pub timestamp: Moment,
}

/// Handler of an event.
pub trait Happened<T> {
    fn happened(t: &T);
}

impl<T> Happened<T> for () {
    fn happened(_t: &T) {
    }
}

impl<T, A: Happened<T>> Happened<T> for (A,) {
    fn happened(t: &T) {
        A::happened(t);
    }
}

impl<T, A: Happened<T>, B: Happened<T>> Happened<T> for (A, B) {
    fn happened(t: &T) {
        A::happened(t);
        B::happened(t);
    }
}

} // verus!
