//! Sums of account balances per currency, and how they change when one record
//! of the ledger changes.
use vstd::prelude::*;

use crate::stp258::{AccountEntry, CurrencyId};

verus! {

/// What one record adds to the outstanding amount of `currency_id`.
pub open spec fn contribution(e: AccountEntry, currency_id: CurrencyId) -> int {
    if e.currency_id == currency_id {
        e.free + e.reserved
    } else {
        0
    }
}

/// The sum of `free + reserved` over the records of `currency_id`.
pub open spec fn balance_sum(s: Seq<AccountEntry>, currency_id: CurrencyId) -> int
    decreases s.len(),
{
    if s.len() == 0 {
        0
    } else {
        balance_sum(s.drop_last(), currency_id) + contribution(s.last(), currency_id)
    }
}

pub proof fn lemma_sum_nonnegative(s: Seq<AccountEntry>, c: CurrencyId)
    ensures
        balance_sum(s, c) >= 0,
    decreases s.len(),
{
    if s.len() > 0 {
        lemma_sum_nonnegative(s.drop_last(), c);
    }
}

pub proof fn lemma_sum_push(s: Seq<AccountEntry>, e: AccountEntry, c: CurrencyId)
    ensures
        balance_sum(s.push(e), c) == balance_sum(s, c) + contribution(e, c),
{
    assert(s.push(e).drop_last() =~= s);
}

pub proof fn lemma_sum_update(s: Seq<AccountEntry>, i: int, e: AccountEntry, c: CurrencyId)
    requires
        0 <= i < s.len(),
    ensures
        balance_sum(s.update(i, e), c) == balance_sum(s, c) - contribution(s[i], c)
            + contribution(e, c),
    decreases s.len(),
{
    let t = s.update(i, e);
    if i == s.len() - 1 {
        assert(t.drop_last() =~= s.drop_last());
    } else {
        assert(t.drop_last() =~= s.drop_last().update(i, e));
        lemma_sum_update(s.drop_last(), i, e, c);
    }
}

pub proof fn lemma_contribution_bounded(s: Seq<AccountEntry>, i: int, c: CurrencyId)
    requires
        0 <= i < s.len(),
    ensures
        contribution(s[i], c) <= balance_sum(s, c),
    decreases s.len(),
{
    lemma_sum_nonnegative(s.drop_last(), c);
    if i < s.len() - 1 {
        lemma_contribution_bounded(s.drop_last(), i, c);
    }
}

pub proof fn lemma_two_contributions_bounded(s: Seq<AccountEntry>, i: int, j: int, c: CurrencyId)
    requires
        0 <= i < s.len(),
        0 <= j < s.len(),
        i != j,
    ensures
        contribution(s[i], c) + contribution(s[j], c) <= balance_sum(s, c),
    decreases s.len(),
{
    let n = s.len() - 1;
    if i == n {
        lemma_contribution_bounded(s.drop_last(), j, c);
    } else if j == n {
        lemma_contribution_bounded(s.drop_last(), i, c);
    } else {
        lemma_two_contributions_bounded(s.drop_last(), i, j, c);
    }
}

} // verus!
