//! The incentive market: the price ratio of a currency pair, the quote at which
//! serpers are paid or charged for an adjustment, the native amount that this
//! quote gives, and the two-legged supply changes that settle it.
use vstd::prelude::*;

use crate::price::{rational_price, Price, PRICE_ONE};
use crate::stp258::{AccountId, Balance, CurrencyId, Error, Ledger, LedgerView};

verus! {

/// Which way the supply of a stable currency moves.
#[derive(Clone, Copy, Debug, PartialEq, Eq, Structural)]
pub enum SerpDirection {
    /// The price is above the peg: supply grows.
    Expansion,
    /// The price is below the peg: supply shrinks.
    Contraction,
}

/// How far `market` lies from 1, in raw units.
pub open spec fn peg_distance(market: Price) -> int {
    if market.inner >= PRICE_ONE {
        market.inner - PRICE_ONE
    } else {
        PRICE_ONE - market.inner
    }
}

/// The incentive-adjusted price. The deviation from 1 is scaled by twice the
/// rate (its magnitude rounded down); an expansion adds the signed result to
/// the market price and a contraction subtracts it.
pub open spec fn serp_quote_result(market: Price, rate: Price, direction: SerpDirection) -> Result<Price, Error> {
    let two_rate = rate.inner + rate.inner;
    let distance = peg_distance(market);
    if two_rate > u128::MAX || distance * two_rate > u128::MAX {
        Err(Error::Overflow)
    } else {
        let quotation = distance * two_rate / (PRICE_ONE as int);
        let adds = (market.inner >= PRICE_ONE) == (direction == SerpDirection::Expansion);
        let quoted = if adds {
            market.inner + quotation
        } else {
            market.inner - quotation
        };
        if quoted > u128::MAX {
            Err(Error::Overflow)
        } else if quoted < 0 {
            Err(Error::Underflow)
        } else {
            Ok(Price { inner: quoted as u128 })
        }
    }
}

/// `requested_change / quoted`, rounded down in favour of the protocol.
pub open spec fn native_amount_result(quoted: Price, requested_change: Balance) -> Result<Balance, Error> {
    if quoted.inner == 0 {
        Err(Error::DivisionByZero)
    } else if requested_change * PRICE_ONE > u128::MAX {
        Err(Error::Overflow)
    } else {
        Ok((requested_change * PRICE_ONE / (quoted.inner as int)) as Balance)
    }
}

/// The native amount for `change` at the quote of `market` and `rate`.
pub open spec fn quoted_amount_result(change: Balance, market: Price, rate: Price, direction: SerpDirection) -> Result<Balance, Error> {
    match serp_quote_result(market, rate, direction) {
        Ok(quoted) => native_amount_result(quoted, change),
        Err(e) => Err(e),
    }
}

/// `base_price / quote_price`; `None` where the quote side is zero (no market
/// to quote) or the ratio cannot be formed.
pub fn market_price(base_price: Balance, quote_price: Balance) -> (r: Option<Price>)
    ensures
        r == rational_price(base_price, quote_price),
        quote_price == 0 ==> r is None,
{
    Price::checked_from_rational(base_price, quote_price)
}

/// The price at which serpers are paid (expansion) or charged (contraction).
pub fn serp_quote(market_price: Price, rate: Price, direction: SerpDirection) -> (r: Result<Price, Error>)
    ensures
        r == serp_quote_result(market_price, rate, direction),
{
    let two_rate = match rate.checked_add(rate) {
        Some(p) => p,
        None => return Err(Error::Overflow),
    };
    let above = market_price.inner >= PRICE_ONE;
    let distance = if above {
        market_price.inner - PRICE_ONE
    } else {
        PRICE_ONE - market_price.inner
    };
    let quotation = match Price::from_inner(distance).checked_mul(two_rate) {
        Some(p) => p,
        None => return Err(Error::Overflow),
    };
    let adds = match direction {
        SerpDirection::Expansion => above,
        SerpDirection::Contraction => !above,
    };
    if adds {
        match market_price.checked_add(quotation) {
            Some(p) => Ok(p),
            None => Err(Error::Overflow),
        }
    } else {
        match market_price.checked_sub(quotation) {
            Some(p) => Ok(p),
            None => Err(Error::Underflow),
        }
    }
}

/// The native amount worth `requested_change` at `quoted_price`, rounded down.
pub fn native_amount_for(quoted_price: Price, requested_change: Balance) -> (r: Result<Balance, Error>)
    ensures
        r == native_amount_result(quoted_price, requested_change),
{
    if quoted_price.inner == 0 {
        Err(Error::DivisionByZero)
    } else if requested_change > u128::MAX / PRICE_ONE {
        Err(Error::Overflow)
    } else {
        Ok(requested_change * PRICE_ONE / quoted_price.inner)
    }
}

/// The native amount minted for serpers who expand the supply by `expand_by`.
pub fn pay_serpup_by_quoted(expand_by: Balance, market_price: Price, rate: Price) -> (r: Result<Balance, Error>)
    ensures
        r == quoted_amount_result(expand_by, market_price, rate, SerpDirection::Expansion),
{
    match serp_quote(market_price, rate, SerpDirection::Expansion) {
        Ok(quoted) => native_amount_for(quoted, expand_by),
        Err(e) => Err(e),
    }
}

/// The native amount charged to serpers who contract the supply by `contract_by`.
pub fn pay_serpdown_by_quoted(contract_by: Balance, market_price: Price, rate: Price) -> (r: Result<Balance, Error>)
    ensures
        r == quoted_amount_result(contract_by, market_price, rate, SerpDirection::Contraction),
{
    match serp_quote(market_price, rate, SerpDirection::Contraction) {
        Ok(quoted) => native_amount_for(quoted, contract_by),
        Err(e) => Err(e),
    }
}

/// Whether both legs of an expansion can be minted.
pub open spec fn can_expand(v: LedgerView, native: CurrencyId, stable: CurrencyId, expand_by: Balance, pay: Balance) -> bool {
    v.can_deposit(stable, expand_by) && v.can_deposit(native, pay)
}

/// Whether both legs of a contraction can be burnt from `serper`.
pub open spec fn can_contract(
    v: LedgerView,
    native: CurrencyId,
    stable: CurrencyId,
    contract_by: Balance,
    pay: Balance,
    serper: AccountId,
) -> bool {
    v.can_withdraw(stable, serper, contract_by) && v.can_withdraw(native, serper, pay)
}

/// Mints `expand_by` of the stable currency and `pay_by_quoted` of the native
/// currency to `serpers`: both legs, or neither where either would overflow.
pub fn expand_supply(
    ledger: &mut Ledger,
    native_currency_id: CurrencyId,
    stable_currency_id: CurrencyId,
    expand_by: Balance,
    pay_by_quoted: Balance,
    serpers: &AccountId,
) -> (r: Result<(), Error>)
    requires
        old(ledger).wf(),
        native_currency_id != stable_currency_id,
    ensures
        final(ledger).wf(),
        r is Ok <==> can_expand(old(ledger)@, native_currency_id, stable_currency_id, expand_by, pay_by_quoted),
        r is Ok ==> final(ledger)@ == old(ledger)@.deposited(stable_currency_id, *serpers, expand_by).deposited(
            native_currency_id,
            *serpers,
            pay_by_quoted,
        ),
        r is Err ==> r == Err::<(), Error>(Error::Overflow) && final(ledger)@ == old(ledger)@,
{
    let stable_total = ledger.total_issuance(stable_currency_id);
    let native_total = ledger.total_issuance(native_currency_id);
    if expand_by > Balance::MAX - stable_total || pay_by_quoted > Balance::MAX - native_total {
        return Err(Error::Overflow);
    }
    let stable_leg = ledger.deposit(stable_currency_id, serpers, expand_by);
    let native_leg = ledger.deposit(native_currency_id, serpers, pay_by_quoted);
    proof {
        assert(stable_leg is Ok && native_leg is Ok);
    }
    Ok(())
}

/// Burns `contract_by` of the stable currency and `pay_by_quoted` of the
/// native currency from `serpers`: both legs, or neither where either cannot
/// be spent.
pub fn contract_supply(
    ledger: &mut Ledger,
    native_currency_id: CurrencyId,
    stable_currency_id: CurrencyId,
    contract_by: Balance,
    pay_by_quoted: Balance,
    serpers: &AccountId,
) -> (r: Result<(), Error>)
    requires
        old(ledger).wf(),
        native_currency_id != stable_currency_id,
    ensures
        final(ledger).wf(),
        r is Ok <==> can_contract(old(ledger)@, native_currency_id, stable_currency_id, contract_by, pay_by_quoted, *serpers),
        r is Ok ==> final(ledger)@ == old(ledger)@.withdrawn(stable_currency_id, *serpers, contract_by).withdrawn(
            native_currency_id,
            *serpers,
            pay_by_quoted,
        ),
        r is Err ==> r == Err::<(), Error>(Error::InsufficientBalance) && final(ledger)@ == old(ledger)@,
{
    if let Err(e) = ledger.ensure_can_withdraw(stable_currency_id, serpers, contract_by) {
        return Err(e);
    }
    if let Err(e) = ledger.ensure_can_withdraw(native_currency_id, serpers, pay_by_quoted) {
        return Err(e);
    }
    let stable_leg = ledger.withdraw(stable_currency_id, serpers, contract_by);
    let native_leg = ledger.withdraw(native_currency_id, serpers, pay_by_quoted);
    proof {
        assert(stable_leg is Ok && native_leg is Ok);
    }
    Ok(())
}

} // verus!
