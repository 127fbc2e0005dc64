//! The multi-currency ledger: per account and currency a free balance, a
//! reserved balance and a set of named locks, and per currency its total
//! issuance.
use vstd::prelude::*;

use crate::balance_sums::{
    balance_sum, contribution, lemma_contribution_bounded, lemma_sum_push,
    lemma_sum_update, lemma_two_contributions_bounded,
};

pub use crate::serp_tes::SerpTesPriceProvider;

verus! {

/// Handler for account which has dust, need to burn or recycle it
pub trait OnDust<AccountId, CurrencyId, Balance> {
    fn on_dust(who: &AccountId, currency_id: CurrencyId, amount: Balance);
}

impl<AccountId, CurrencyId, Balance> OnDust<AccountId, CurrencyId, Balance> for () {
    fn on_dust(_who: &AccountId, _currency_id: CurrencyId, _amount: Balance) {
    }
}

/// Identifies an account.
pub type AccountId = u64;

/// Identifies a currency; the native currency and the peg-tracking ones alike.
pub type CurrencyId = u32;

/// A non-negative amount of some currency.
pub type Balance = u128;

/// A signed change of a balance.
pub type Amount = i128;

/// Names a lock on an account.
pub type LockIdentifier = [u8; 8];

/// Where funds moved out of a reserved balance end up.
#[derive(Clone, Copy, Debug, PartialEq, Eq, Structural)]
pub enum BalanceStatus {
    Free,
    Reserved,
}

/// The hard failures of the ledger and of the supply controller.
#[derive(Clone, Copy, Debug, PartialEq, Eq, Structural)]
pub enum Error {
    /// A withdrawal, transfer or reservation exceeds what the account may spend.
    InsufficientBalance,
    /// A result would not fit in its type.
    Overflow,
    /// A result would be negative.
    Underflow,
    /// A price of zero was used as a divisor.
    DivisionByZero,
    /// The currency is not one that the controller adjusts.
    UnknownCurrency,
    /// A stable currency's settings are out of range, or it cannot be added.
    InvalidConfig,
}

/// A named hold on an account's free balance.
#[derive(Clone, Copy, Debug)]
pub struct BalanceLock {
    pub id: LockIdentifier,
    pub amount: Balance,
}

/// What the ledger holds for one account in one currency.
pub struct AccountModel {
    pub free: Balance,
    pub reserved: Balance,
    /// The locks in the order in which they were first set.
    pub locks: Seq<BalanceLock>,
}

/// The largest amount among `locks`, or zero without any.
pub open spec fn max_lock(locks: Seq<BalanceLock>) -> Balance
    decreases locks.len(),
{
    if locks.len() == 0 {
        0
    } else {
        let rest = max_lock(locks.drop_last());
        if locks.last().amount > rest {
            locks.last().amount
        } else {
            rest
        }
    }
}

/// The position of the last lock named `id`, or -1.
pub open spec fn lock_index(locks: Seq<BalanceLock>, id: LockIdentifier) -> int
    decreases locks.len(),
{
    if locks.len() == 0 {
        -1
    } else if locks.last().id@ == id@ {
        locks.len() - 1
    } else {
        lock_index(locks.drop_last(), id)
    }
}

/// The locks after the lock `id` is made to hold `amount`.
pub open spec fn locks_after_set(locks: Seq<BalanceLock>, id: LockIdentifier, amount: Balance) -> Seq<
    BalanceLock,
> {
    let j = lock_index(locks, id);
    if j >= 0 {
        locks.update(j, BalanceLock { id: locks[j].id, amount })
    } else {
        locks.push(BalanceLock { id, amount })
    }
}

/// The locks after the lock `id` is made to hold at least `amount`.
pub open spec fn locks_after_extend(locks: Seq<BalanceLock>, id: LockIdentifier, amount: Balance) -> Seq<
    BalanceLock,
> {
    let j = lock_index(locks, id);
    if j >= 0 {
        let kept = locks[j].amount;
        locks.update(j, BalanceLock { id: locks[j].id, amount: if kept > amount { kept } else { amount } })
    } else {
        locks.push(BalanceLock { id, amount })
    }
}

/// The locks after the lock `id` is taken away.
pub open spec fn locks_after_remove(locks: Seq<BalanceLock>, id: LockIdentifier) -> Seq<BalanceLock> {
    let j = lock_index(locks, id);
    if j >= 0 {
        locks.remove(j)
    } else {
        locks
    }
}

impl AccountModel {
    pub open spec fn empty() -> AccountModel {
        AccountModel { free: 0, reserved: 0, locks: Seq::empty() }
    }

    /// The binding hold: the largest lock, not their sum.
    pub open spec fn effective_lock(self) -> Balance {
        max_lock(self.locks)
    }

    pub open spec fn total(self) -> int {
        self.free + self.reserved
    }

    /// `amount` can leave the free balance without breaking the effective lock.
    pub open spec fn can_withdraw(self, amount: Balance) -> bool {
        self.free >= amount + self.effective_lock()
    }

    pub open spec fn with_free(self, free: Balance) -> AccountModel {
        AccountModel { free, reserved: self.reserved, locks: self.locks }
    }

    pub open spec fn with_balances(self, free: Balance, reserved: Balance) -> AccountModel {
        AccountModel { free, reserved, locks: self.locks }
    }

    pub open spec fn with_locks(self, locks: Seq<BalanceLock>) -> AccountModel {
        AccountModel { free: self.free, reserved: self.reserved, locks }
    }
}

/// The whole ledger as two total maps: every (currency, account) pair has a
/// record, zero and without locks where nothing was ever put, and every currency
/// has an issuance, zero where nothing was ever minted.
pub struct LedgerView {
    pub accounts: Map<(CurrencyId, AccountId), AccountModel>,
    pub issuance: Map<CurrencyId, Balance>,
}

impl LedgerView {
    pub open spec fn account(self, currency_id: CurrencyId, who: AccountId) -> AccountModel {
        self.accounts[(currency_id, who)]
    }

    pub open spec fn free(self, currency_id: CurrencyId, who: AccountId) -> Balance {
        self.account(currency_id, who).free
    }

    pub open spec fn reserved(self, currency_id: CurrencyId, who: AccountId) -> Balance {
        self.account(currency_id, who).reserved
    }

    pub open spec fn effective_lock(self, currency_id: CurrencyId, who: AccountId) -> Balance {
        self.account(currency_id, who).effective_lock()
    }

    pub open spec fn total_issuance(self, currency_id: CurrencyId) -> Balance {
        self.issuance[currency_id]
    }

    pub open spec fn set_account(self, currency_id: CurrencyId, who: AccountId, a: AccountModel) -> LedgerView {
        LedgerView { accounts: self.accounts.insert((currency_id, who), a), issuance: self.issuance }
    }

    pub open spec fn set_issuance(self, currency_id: CurrencyId, total: Balance) -> LedgerView {
        LedgerView { accounts: self.accounts, issuance: self.issuance.insert(currency_id, total) }
    }

    /// Mints `amount` into the free balance of `who`.
    pub open spec fn deposited(self, currency_id: CurrencyId, who: AccountId, amount: Balance) -> LedgerView {
        let a = self.account(currency_id, who);
        self.set_account(currency_id, who, a.with_free((a.free + amount) as Balance)).set_issuance(
            currency_id,
            (self.total_issuance(currency_id) + amount) as Balance,
        )
    }

    /// Burns `amount` from the free balance of `who`.
    pub open spec fn withdrawn(self, currency_id: CurrencyId, who: AccountId, amount: Balance) -> LedgerView {
        let a = self.account(currency_id, who);
        self.set_account(currency_id, who, a.with_free((a.free - amount) as Balance)).set_issuance(
            currency_id,
            (self.total_issuance(currency_id) - amount) as Balance,
        )
    }

    /// Moves `amount` of free balance from `from` to `to`.
    pub open spec fn transferred(self, currency_id: CurrencyId, from: AccountId, to: AccountId, amount: Balance) -> LedgerView {
        let a = self.account(currency_id, from);
        let b = self.account(currency_id, to);
        self.set_account(currency_id, from, a.with_free((a.free - amount) as Balance)).set_account(
            currency_id,
            to,
            b.with_free((b.free + amount) as Balance),
        )
    }

    /// What `slash` takes: from the free balance first, then from the reserved one.
    pub open spec fn slash_taken(self, currency_id: CurrencyId, who: AccountId, amount: Balance) -> int {
        let a = self.account(currency_id, who);
        let from_free = if amount <= a.free { amount as int } else { a.free as int };
        let rest = amount - from_free;
        let from_reserved = if rest <= a.reserved { rest } else { a.reserved as int };
        from_free + from_reserved
    }

    pub open spec fn slashed(self, currency_id: CurrencyId, who: AccountId, amount: Balance) -> LedgerView {
        let a = self.account(currency_id, who);
        let from_free = if amount <= a.free { amount as int } else { a.free as int };
        let taken = self.slash_taken(currency_id, who, amount);
        self.set_account(
            currency_id,
            who,
            a.with_balances((a.free - from_free) as Balance, (a.reserved - (taken - from_free)) as Balance),
        ).set_issuance(currency_id, (self.total_issuance(currency_id) - taken) as Balance)
    }

    pub open spec fn can_deposit(self, currency_id: CurrencyId, amount: Balance) -> bool {
        self.total_issuance(currency_id) + amount <= Balance::MAX
    }

    pub open spec fn can_withdraw(self, currency_id: CurrencyId, who: AccountId, amount: Balance) -> bool {
        self.account(currency_id, who).can_withdraw(amount)
    }
}

/// The stored record of one account in one currency.
pub struct AccountEntry {
    pub currency_id: CurrencyId,
    pub who: AccountId,
    pub free: Balance,
    pub reserved: Balance,
    pub locks: Vec<BalanceLock>,
}

#[derive(Clone, Copy)]
struct IssuanceEntry {
    currency_id: CurrencyId,
    total: Balance,
}

pub open spec fn entry_model(e: AccountEntry) -> AccountModel {
    AccountModel { free: e.free, reserved: e.reserved, locks: e.locks@ }
}

/// The position of the record of `(currency_id, who)`, or -1.
pub open spec fn account_index(s: Seq<AccountEntry>, currency_id: CurrencyId, who: AccountId) -> int
    decreases s.len(),
{
    if s.len() == 0 {
        -1
    } else if s.last().currency_id == currency_id && s.last().who == who {
        s.len() - 1
    } else {
        account_index(s.drop_last(), currency_id, who)
    }
}

spec fn issuance_index(s: Seq<IssuanceEntry>, currency_id: CurrencyId) -> int
    decreases s.len(),
{
    if s.len() == 0 {
        -1
    } else if s.last().currency_id == currency_id {
        s.len() - 1
    } else {
        issuance_index(s.drop_last(), currency_id)
    }
}

/// No (currency, account) pair has two records.
pub open spec fn keys_unique(s: Seq<AccountEntry>) -> bool {
    forall|i: int, j: int|
        0 <= i < j < s.len() ==> !(#[trigger] s[i].currency_id == #[trigger] s[j].currency_id
            && s[i].who == s[j].who)
}

spec fn same_key(a: AccountEntry, b: AccountEntry) -> bool {
    a.currency_id == b.currency_id && a.who == b.who
}

proof fn lemma_index_unique(s: Seq<AccountEntry>, i: int)
    requires
        keys_unique(s),
        0 <= i < s.len(),
    ensures
        account_index(s, s[i].currency_id, s[i].who) == i,
{
    let e = s[i];
    lemma_account_index(s, e.currency_id, e.who);
    let k = account_index(s, e.currency_id, e.who);
    if k != i {
        if k < i {
            assert(s[k].currency_id == s[i].currency_id);
        } else {
            assert(s[i].currency_id == s[k].currency_id);
        }
    }
}

/// Rewriting a record in place, under the same key, moves no other record.
proof fn lemma_update_keeps_index(s: Seq<AccountEntry>, i: int, e: AccountEntry, c: CurrencyId, who: AccountId)
    requires
        keys_unique(s),
        0 <= i < s.len(),
        same_key(e, s[i]),
    ensures
        keys_unique(s.update(i, e)),
        account_index(s.update(i, e), c, who) == account_index(s, c, who),
{
    let t = s.update(i, e);
    assert forall|a: int, b: int| 0 <= a < b < t.len() implies !(#[trigger] t[a].currency_id
        == #[trigger] t[b].currency_id && t[a].who == t[b].who) by {
        assert(same_key(t[a], s[a]) && same_key(t[b], s[b]));
        assert(s[a].currency_id == s[b].currency_id ==> s[a].who != s[b].who);
    }
    lemma_account_index(s, c, who);
    lemma_account_index(t, c, who);
    let j = account_index(s, c, who);
    if j >= 0 {
        assert(same_key(t[j], s[j]));
        lemma_index_unique(t, j);
    } else if account_index(t, c, who) >= 0 {
        let r = account_index(t, c, who);
        assert(same_key(t[r], s[r]));
    }
}

/// Appending a record under a new key moves no other record.
proof fn lemma_push_index(s: Seq<AccountEntry>, e: AccountEntry, c: CurrencyId, who: AccountId)
    requires
        keys_unique(s),
        account_index(s, e.currency_id, e.who) == -1,
    ensures
        keys_unique(s.push(e)),
        account_index(s.push(e), c, who) == if e.currency_id == c && e.who == who {
            s.len() as int
        } else {
            account_index(s, c, who)
        },
{
    let t = s.push(e);
    assert(t.drop_last() =~= s);
    lemma_account_index(s, e.currency_id, e.who);
    assert forall|a: int, b: int| 0 <= a < b < t.len() implies !(#[trigger] t[a].currency_id
        == #[trigger] t[b].currency_id && t[a].who == t[b].who) by {
        if b == s.len() {
            assert(t[a] == s[a]);
            assert(!(s[a].currency_id == e.currency_id && s[a].who == e.who));
        } else {
            assert(t[a] == s[a] && t[b] == s[b]);
        }
    }
}

proof fn lemma_account_index(s: Seq<AccountEntry>, c: CurrencyId, who: AccountId)
    ensures
        -1 <= account_index(s, c, who) < s.len(),
        account_index(s, c, who) >= 0 ==> s[account_index(s, c, who)].currency_id == c
            && s[account_index(s, c, who)].who == who,
        account_index(s, c, who) == -1 ==> forall|i: int|
            0 <= i < s.len() ==> !(#[trigger] s[i].currency_id == c && s[i].who == who),
    decreases s.len(),
{
    if s.len() > 0 {
        lemma_account_index(s.drop_last(), c, who);
        if account_index(s, c, who) == -1 {
            assert forall|i: int| 0 <= i < s.len() implies !(#[trigger] s[i].currency_id == c
                && s[i].who == who) by {
                if i < s.len() - 1 {
                    assert(s.drop_last()[i] == s[i]);
                }
            }
        }
    }
}

proof fn lemma_issuance_index(s: Seq<IssuanceEntry>, c: CurrencyId)
    ensures
        -1 <= issuance_index(s, c) < s.len(),
        issuance_index(s, c) >= 0 ==> s[issuance_index(s, c)].currency_id == c,
        issuance_index(s, c) == -1 ==> forall|i: int| 0 <= i < s.len() ==> #[trigger] s[i].currency_id != c,
    decreases s.len(),
{
    if s.len() > 0 {
        lemma_issuance_index(s.drop_last(), c);
        if issuance_index(s, c) == -1 {
            assert forall|i: int| 0 <= i < s.len() implies #[trigger] s[i].currency_id != c by {
                if i < s.len() - 1 {
                    assert(s.drop_last()[i] == s[i]);
                }
            }
        }
    }
}

/// The sum of `free + reserved` of `c` over the pairs `keys`.
pub open spec fn sum_of_balances(v: LedgerView, keys: Seq<(CurrencyId, AccountId)>, c: CurrencyId) -> int
    decreases keys.len(),
{
    if keys.len() == 0 {
        0
    } else {
        let k = keys.last();
        sum_of_balances(v, keys.drop_last(), c) + if k.0 == c {
            v.accounts[k].total()
        } else {
            0
        }
    }
}

/// After every operation of the ledger, the issuance of each currency is the
/// sum of `free + reserved` over all accounts that hold any of it: `holders`
/// lists each pair at most once and includes every pair with a non-zero balance.
pub proof fn issuance_equals_balance_sum(ledger: &Ledger, c: CurrencyId)
    requires
        ledger.wf(),
    ensures
        ledger.holders().no_duplicates(),
        forall|k: (CurrencyId, AccountId)| #[trigger] ledger@.accounts[k].total() > 0 ==> ledger.holders().contains(k),
        ledger@.total_issuance(c) == sum_of_balances(ledger@, ledger.holders(), c),
{
    ledger.lemma_holders(c);
}

/// Extending one lock twice, with `a` and then `b`, leaves as binding hold the
/// largest of the old one, `a` and `b`; on an account without locks, the larger
/// of `a` and `b`, never their sum.
pub proof fn extend_lock_twice(locks: Seq<BalanceLock>, id: LockIdentifier, a: Balance, b: Balance)
    ensures
        ({
            let m = if a > b { a } else { b };
            &&& max_lock(locks_after_extend(locks_after_extend(locks, id, a), id, b)) == if m > max_lock(locks) {
                m
            } else {
                max_lock(locks)
            }
            &&& locks.len() == 0 ==> max_lock(locks_after_extend(locks_after_extend(locks, id, a), id, b)) == m
        }),
{
    lemma_extend_effective(locks, id, a);
    lemma_extend_effective(locks_after_extend(locks, id, a), id, b);
}

/// A lock that is made to hold at least `amount` leaves as binding hold the
/// larger of the old binding hold and `amount`.
pub proof fn lemma_extend_effective(locks: Seq<BalanceLock>, id: LockIdentifier, amount: Balance)
    ensures
        max_lock(locks_after_extend(locks, id, amount)) == if amount > max_lock(locks) {
            amount
        } else {
            max_lock(locks)
        },
{
    let j = lock_index(locks, id);
    lemma_lock_index_bounds(locks, id);
    if j >= 0 {
        let kept = locks[j].amount;
        let x = BalanceLock { id: locks[j].id, amount: if kept > amount { kept } else { amount } };
        lemma_max_lock_raise(locks, j, x);
        lemma_max_lock_bounds(locks, j);
    } else {
        assert(locks.push(BalanceLock { id, amount }).drop_last() =~= locks);
    }
}

proof fn lemma_lock_index_bounds(locks: Seq<BalanceLock>, id: LockIdentifier)
    ensures
        -1 <= lock_index(locks, id) < locks.len(),
    decreases locks.len(),
{
    if locks.len() > 0 {
        lemma_lock_index_bounds(locks.drop_last(), id);
    }
}

proof fn lemma_max_lock_bounds(locks: Seq<BalanceLock>, j: int)
    requires
        0 <= j < locks.len(),
    ensures
        locks[j].amount <= max_lock(locks),
    decreases locks.len(),
{
    if j < locks.len() - 1 {
        lemma_max_lock_bounds(locks.drop_last(), j);
    }
}

/// Raising one lock to `x.amount` makes the largest lock the larger of the old
/// largest and `x.amount`.
proof fn lemma_max_lock_raise(locks: Seq<BalanceLock>, j: int, x: BalanceLock)
    requires
        0 <= j < locks.len(),
        x.amount >= locks[j].amount,
    ensures
        max_lock(locks.update(j, x)) == if x.amount > max_lock(locks) {
            x.amount
        } else {
            max_lock(locks)
        },
    decreases locks.len(),
{
    let t = locks.update(j, x);
    if j == locks.len() - 1 {
        assert(t.drop_last() =~= locks.drop_last());
    } else {
        assert(t.drop_last() =~= locks.drop_last().update(j, x));
        lemma_max_lock_raise(locks.drop_last(), j, x);
    }
}

/// Whether two lock names are the same.
pub fn same_lock_id(a: &LockIdentifier, b: &LockIdentifier) -> (r: bool)
    ensures
        r == (a@ == b@),
{
    let mut i: usize = 0;
    while i < 8
        invariant
            i <= 8,
            a@.len() == 8,
            b@.len() == 8,
            forall|k: int| 0 <= k < i ==> a@[k] == b@[k],
        decreases 8 - i,
    {
        if a[i] != b[i] {
            return false;
        }
        i = i + 1;
    }
    assert(a@ =~= b@);
    true
}

/// The largest amount among `locks`, or zero.
fn largest_lock(locks: &Vec<BalanceLock>) -> (r: Balance)
    ensures
        r == max_lock(locks@),
{
    let mut m: Balance = 0;
    let mut k: usize = 0;
    while k < locks.len()
        invariant
            k <= locks.len(),
            m == max_lock(locks@.take(k as int)),
        decreases locks.len() - k,
    {
        proof {
            assert(locks@.take(k as int + 1).drop_last() =~= locks@.take(k as int));
        }
        if locks[k].amount > m {
            m = locks[k].amount;
        }
        k = k + 1;
    }
    assert(locks@.take(k as int) =~= locks@);
    m
}

/// The position of the last lock named `id`.
fn find_lock(locks: &Vec<BalanceLock>, id: &LockIdentifier) -> (r: Option<usize>)
    ensures
        match r {
            Some(j) => j == lock_index(locks@, *id) && j < locks.len(),
            None => lock_index(locks@, *id) == -1,
        },
{
    let mut k: usize = locks.len();
    assert(locks@.take(k as int) =~= locks@);
    while k > 0
        invariant
            k <= locks.len(),
            lock_index(locks@, *id) == lock_index(locks@.take(k as int), *id),
        decreases k,
    {
        proof {
            assert(locks@.take(k as int).drop_last() =~= locks@.take(k - 1));
        }
        if same_lock_id(&locks[k - 1].id, id) {
            return Some(k - 1);
        }
        k = k - 1;
    }
    None
}

/// An owned store of balances and issuance.
pub struct Ledger {
    accounts: Vec<AccountEntry>,
    issuance: Vec<IssuanceEntry>,
}

impl Ledger {
    spec fn account_at(&self, c: CurrencyId, who: AccountId) -> AccountModel {
        let i = account_index(self.accounts@, c, who);
        if i >= 0 {
            entry_model(self.accounts@[i])
        } else {
            AccountModel::empty()
        }
    }

    spec fn issuance_at(&self, c: CurrencyId) -> Balance {
        let k = issuance_index(self.issuance@, c);
        if k >= 0 {
            self.issuance@[k].total
        } else {
            0
        }
    }

    pub closed spec fn view(&self) -> LedgerView {
        LedgerView {
            accounts: Map::new(
                |k: (CurrencyId, AccountId)| true,
                |k: (CurrencyId, AccountId)| self.account_at(k.0, k.1),
            ),
            issuance: Map::new(|c: CurrencyId| true, |c: CurrencyId| self.issuance_at(c)),
        }
    }

    /// The issuance of each currency equals the sum of the balances of its
    /// records, and no pair or currency is stored twice.
    pub closed spec fn wf(&self) -> bool {
        &&& keys_unique(self.accounts@)
        &&& forall|i: int, j: int|
            0 <= i < j < self.issuance.len() ==> #[trigger] self.issuance@[i].currency_id
                != #[trigger] self.issuance@[j].currency_id
        &&& forall|c: CurrencyId| #[trigger] self.issuance_at(c) == balance_sum(self.accounts@, c)
    }

    proof fn lemma_view_entry(&self, i: int)
        requires
            self.wf(),
            0 <= i < self.accounts.len(),
        ensures
            self@.account(self.accounts@[i].currency_id, self.accounts@[i].who) == entry_model(self.accounts@[i]),
            entry_model(self.accounts@[i]).total() <= self@.total_issuance(self.accounts@[i].currency_id),
    {
        let e = self.accounts@[i];
        lemma_index_unique(self.accounts@, i);
        lemma_contribution_bounded(self.accounts@, i, e.currency_id);
        assert(self.issuance_at(e.currency_id) == balance_sum(self.accounts@, e.currency_id));
    }

    /// The (currency, account) pairs that have a stored record.
    pub closed spec fn holders(&self) -> Seq<(CurrencyId, AccountId)> {
        self.accounts@.map_values(|e: AccountEntry| (e.currency_id, e.who))
    }

    proof fn lemma_holders_prefix(&self, c: CurrencyId, n: int)
        requires
            self.wf(),
            0 <= n <= self.accounts.len(),
        ensures
            sum_of_balances(self@, self.holders().take(n), c) == balance_sum(self.accounts@.take(n), c),
        decreases n,
    {
        if n > 0 {
            self.lemma_holders_prefix(c, n - 1);
            assert(self.holders().take(n).drop_last() =~= self.holders().take(n - 1));
            assert(self.accounts@.take(n).drop_last() =~= self.accounts@.take(n - 1));
            self.lemma_view_entry(n - 1);
        }
    }

    proof fn lemma_holders(&self, c: CurrencyId)
        requires
            self.wf(),
        ensures
            self.holders().no_duplicates(),
            forall|k: (CurrencyId, AccountId)| #[trigger] self@.accounts[k].total() > 0 ==> self.holders().contains(k),
            self@.total_issuance(c) == sum_of_balances(self@, self.holders(), c),
    {
        let h = self.holders();
        let s = self.accounts@;
        assert forall|a: int, b: int| 0 <= a < h.len() && 0 <= b < h.len() && a != b implies h[a] != h[b] by {
            if a < b {
                assert(!(s[a].currency_id == s[b].currency_id && s[a].who == s[b].who));
            } else {
                assert(!(s[b].currency_id == s[a].currency_id && s[b].who == s[a].who));
            }
        }
        assert forall|k: (CurrencyId, AccountId)| #[trigger] self@.accounts[k].total() > 0 implies h.contains(k) by {
            lemma_account_index(s, k.0, k.1);
            let i = account_index(s, k.0, k.1);
            if i >= 0 {
                assert(h[i] == k);
            }
        }
        self.lemma_holders_prefix(c, s.len() as int);
        let n = s.len() as int;
        assert(h.take(n) =~= h);
        assert(s.take(n) =~= s);
        assert(self.issuance_at(c) == balance_sum(s, c));
    }

    /// An empty ledger: no balances, no issuance.
    pub fn new() -> (r: Ledger)
        ensures
            r.wf(),
            r@.accounts == Map::new(|k: (CurrencyId, AccountId)| true, |k: (CurrencyId, AccountId)| AccountModel::empty()),
            r@.issuance == Map::new(|c: CurrencyId| true, |c: CurrencyId| 0 as Balance),
    {
        let r = Ledger { accounts: Vec::new(), issuance: Vec::new() };
        assert(r@.accounts =~= Map::new(|k: (CurrencyId, AccountId)| true, |k: (CurrencyId, AccountId)| AccountModel::empty()));
        assert(r@.issuance =~= Map::new(|c: CurrencyId| true, |c: CurrencyId| 0 as Balance));
        r
    }

    fn find_account(&self, currency_id: CurrencyId, who: AccountId) -> (r: Option<usize>)
        requires
            self.wf(),
        ensures
            match r {
                Some(i) => i == account_index(self.accounts@, currency_id, who) && i < self.accounts.len(),
                None => account_index(self.accounts@, currency_id, who) == -1,
            },
    {
        let mut i: usize = 0;
        while i < self.accounts.len()
            invariant
                self.wf(),
                i <= self.accounts.len(),
                forall|k: int| 0 <= k < i ==> !(#[trigger] self.accounts@[k].currency_id == currency_id
                    && self.accounts@[k].who == who),
            decreases self.accounts.len() - i,
        {
            if self.accounts[i].currency_id == currency_id && self.accounts[i].who == who {
                proof {
                    lemma_index_unique(self.accounts@, i as int);
                }
                return Some(i);
            }
            i = i + 1;
        }
        proof {
            lemma_account_index(self.accounts@, currency_id, who);
        }
        None
    }

    fn find_issuance(&self, currency_id: CurrencyId) -> (r: Option<usize>)
        requires
            self.wf(),
        ensures
            match r {
                Some(k) => k == issuance_index(self.issuance@, currency_id) && k < self.issuance.len(),
                None => issuance_index(self.issuance@, currency_id) == -1,
            },
    {
        let mut k: usize = 0;
        while k < self.issuance.len()
            invariant
                self.wf(),
                k <= self.issuance.len(),
                forall|j: int| 0 <= j < k ==> #[trigger] self.issuance@[j].currency_id != currency_id,
            decreases self.issuance.len() - k,
        {
            if self.issuance[k].currency_id == currency_id {
                proof {
                    lemma_issuance_index(self.issuance@, currency_id);
                    let f = issuance_index(self.issuance@, currency_id);
                    if f != k {
                        if f < k {
                            assert(self.issuance@[f].currency_id != self.issuance@[k as int].currency_id);
                        } else {
                            assert(self.issuance@[k as int].currency_id != self.issuance@[f].currency_id);
                        }
                    }
                }
                return Some(k);
            }
            k = k + 1;
        }
        proof {
            lemma_issuance_index(self.issuance@, currency_id);
        }
        None
    }

    /// The effective lock of `who` in `currency_id`: the largest of its locks.
    pub fn effective_lock(&self, currency_id: CurrencyId, who: &AccountId) -> (r: Balance)
        requires
            self.wf(),
        ensures
            r == self@.effective_lock(currency_id, *who),
    {
        match self.find_account(currency_id, *who) {
            Some(i) => {
                proof {
                    lemma_account_index(self.accounts@, currency_id, *who);
                }
                largest_lock(&self.accounts[i].locks)
            },
            None => 0,
        }
    }

    /// Whether `amount` may leave the free balance of `who`: the free balance
    /// less `amount` must still cover the effective lock.
    pub fn ensure_can_withdraw(&self, currency_id: CurrencyId, who: &AccountId, amount: Balance) -> (r: Result<(), Error>)
        requires
            self.wf(),
        ensures
            r is Ok <==> self@.can_withdraw(currency_id, *who, amount),
            r is Err ==> r == Err::<(), Error>(Error::InsufficientBalance),
    {
        let free = self.free_balance(currency_id, who);
        let lock = self.effective_lock(currency_id, who);
        if free >= lock && free - lock >= amount {
            Ok(())
        } else {
            Err(Error::InsufficientBalance)
        }
    }

    /// Mints `amount` into the free balance of `who`; fails, changing nothing,
    /// where the issuance would overflow.
    pub fn deposit(&mut self, currency_id: CurrencyId, who: &AccountId, amount: Balance) -> (r: Result<(), Error>)
        requires
            old(self).wf(),
        ensures
            final(self).wf(),
            r is Ok <==> old(self)@.can_deposit(currency_id, amount),
            r is Ok ==> final(self)@ == old(self)@.deposited(currency_id, *who, amount),
            r is Err ==> r == Err::<(), Error>(Error::Overflow) && final(self)@ == old(self)@,
    {
        let total = self.total_issuance(currency_id);
        if amount > Balance::MAX - total {
            return Err(Error::Overflow);
        }
        let i = self.entry_for(currency_id, *who);
        proof {
            self.lemma_view_entry(i as int);
        }
        let free = self.accounts[i].free;
        let reserved = self.accounts[i].reserved;
        self.put_balances(i, free + amount, reserved);
        Ok(())
    }

    /// Burns `amount` from the free balance of `who`; fails, changing nothing,
    /// where the effective lock would not stay covered.
    pub fn withdraw(&mut self, currency_id: CurrencyId, who: &AccountId, amount: Balance) -> (r: Result<(), Error>)
        requires
            old(self).wf(),
        ensures
            final(self).wf(),
            r is Ok <==> old(self)@.can_withdraw(currency_id, *who, amount),
            r is Ok ==> final(self)@ == old(self)@.withdrawn(currency_id, *who, amount),
            r is Err ==> r == Err::<(), Error>(Error::InsufficientBalance) && final(self)@ == old(self)@,
    {
        if let Err(e) = self.ensure_can_withdraw(currency_id, who, amount) {
            return Err(e);
        }
        let i = self.entry_for(currency_id, *who);
        proof {
            self.lemma_view_entry(i as int);
        }
        let free = self.accounts[i].free;
        let reserved = self.accounts[i].reserved;
        self.put_balances(i, free - amount, reserved);
        Ok(())
    }

    /// Moves `amount` from the free balance of `from` to that of `to`. A
    /// transfer to oneself changes nothing and succeeds.
    pub fn transfer(&mut self, currency_id: CurrencyId, from: &AccountId, to: &AccountId, amount: Balance) -> (r: Result<(), Error>)
        requires
            old(self).wf(),
        ensures
            final(self).wf(),
            r is Ok <==> (*from == *to || old(self)@.can_withdraw(currency_id, *from, amount)),
            r is Err ==> r == Err::<(), Error>(Error::InsufficientBalance) && final(self)@ == old(self)@,
            r is Ok && *from != *to ==> final(self)@ == old(self)@.transferred(currency_id, *from, *to, amount),
            *from == *to ==> final(self)@ == old(self)@,
            final(self)@.free(currency_id, *from) + final(self)@.free(currency_id, *to)
                == old(self)@.free(currency_id, *from) + old(self)@.free(currency_id, *to),
            final(self)@.issuance == old(self)@.issuance,
    {
        if *from == *to {
            return Ok(());
        }
        if let Err(e) = self.ensure_can_withdraw(currency_id, from, amount) {
            return Err(e);
        }
        let i = self.entry_for(currency_id, *from);
        let j = self.entry_for(currency_id, *to);
        proof {
            self.lemma_view_entry(i as int);
            self.lemma_view_entry(j as int);
            lemma_two_contributions_bounded(self.accounts@, i as int, j as int, currency_id);
            assert(self.issuance_at(currency_id) == balance_sum(self.accounts@, currency_id));
        }
        let from_free = self.accounts[i].free;
        let from_reserved = self.accounts[i].reserved;
        let to_free = self.accounts[j].free;
        let to_reserved = self.accounts[j].reserved;
        self.put_balances(i, from_free - amount, from_reserved);
        proof {
            self.lemma_view_entry(j as int);
        }
        self.put_balances(j, to_free + amount, to_reserved);
        proof {
            assert(self@.issuance =~= old(self)@.issuance);
        }
        Ok(())
    }

    /// Same answer as `slash` would give of being paid in full from the free
    /// balance alone, without its effects.
    pub fn can_slash(&self, currency_id: CurrencyId, who: &AccountId, value: Balance) -> (r: bool)
        requires
            self.wf(),
        ensures
            r == (self@.free(currency_id, *who) >= value),
    {
        self.free_balance(currency_id, who) >= value
    }

    /// Takes up to `amount` from `who`, from the free balance first and then
    /// from the reserved one, and burns it; locks are not consulted. Returns
    /// what could not be taken.
    pub fn slash(&mut self, currency_id: CurrencyId, who: &AccountId, amount: Balance) -> (r: Balance)
        requires
            old(self).wf(),
        ensures
            final(self).wf(),
            final(self)@ == old(self)@.slashed(currency_id, *who, amount),
            r == amount - old(self)@.slash_taken(currency_id, *who, amount),
            r <= amount,
            old(self)@.slash_taken(currency_id, *who, amount) == if amount <= old(self)@.account(currency_id, *who).total() {
                amount as int
            } else {
                old(self)@.account(currency_id, *who).total()
            },
    {
        let i = self.entry_for(currency_id, *who);
        proof {
            self.lemma_view_entry(i as int);
        }
        let free = self.accounts[i].free;
        let reserved = self.accounts[i].reserved;
        let from_free = if amount <= free { amount } else { free };
        let rest = amount - from_free;
        let from_reserved = if rest <= reserved { rest } else { reserved };
        self.put_balances(i, free - from_free, reserved - from_reserved);
        rest - from_reserved
    }

    /// Whether `value` could move from the free to the reserved balance.
    pub fn can_reserve(&self, currency_id: CurrencyId, who: &AccountId, value: Balance) -> (r: bool)
        requires
            self.wf(),
        ensures
            r == self@.can_withdraw(currency_id, *who, value),
    {
        self.ensure_can_withdraw(currency_id, who, value).is_ok()
    }

    /// Moves `value` from the free to the reserved balance of `who`; fails,
    /// changing nothing, where the free balance cannot spare it.
    pub fn reserve(&mut self, currency_id: CurrencyId, who: &AccountId, value: Balance) -> (r: Result<(), Error>)
        requires
            old(self).wf(),
        ensures
            final(self).wf(),
            r is Ok <==> old(self)@.can_withdraw(currency_id, *who, value),
            r is Ok ==> final(self)@ == old(self)@.set_account(
                currency_id,
                *who,
                old(self)@.account(currency_id, *who).with_balances(
                    (old(self)@.free(currency_id, *who) - value) as Balance,
                    (old(self)@.reserved(currency_id, *who) + value) as Balance,
                ),
            ),
            r is Err ==> r == Err::<(), Error>(Error::InsufficientBalance) && final(self)@ == old(self)@,
    {
        if let Err(e) = self.ensure_can_withdraw(currency_id, who, value) {
            return Err(e);
        }
        let i = self.entry_for(currency_id, *who);
        proof {
            self.lemma_view_entry(i as int);
        }
        let free = self.accounts[i].free;
        let reserved = self.accounts[i].reserved;
        self.put_balances(i, free - value, reserved + value);
        proof {
            assert(self@.issuance =~= old(self)@.issuance);
        }
        Ok(())
    }

    /// Moves up to `value` from the reserved to the free balance of `who`.
    /// Returns what could not be moved.
    pub fn unreserve(&mut self, currency_id: CurrencyId, who: &AccountId, value: Balance) -> (r: Balance)
        requires
            old(self).wf(),
        ensures
            final(self).wf(),
            ({
                let a = old(self)@.account(currency_id, *who);
                let moved = if value <= a.reserved { value } else { a.reserved };
                &&& r == value - moved
                &&& final(self)@ == old(self)@.set_account(
                    currency_id,
                    *who,
                    a.with_balances((a.free + moved) as Balance, (a.reserved - moved) as Balance),
                )
            }),
    {
        let i = self.entry_for(currency_id, *who);
        proof {
            self.lemma_view_entry(i as int);
        }
        let free = self.accounts[i].free;
        let reserved = self.accounts[i].reserved;
        let moved = if value <= reserved { value } else { reserved };
        self.put_balances(i, free + moved, reserved - moved);
        proof {
            assert(self@.issuance =~= old(self)@.issuance);
        }
        value - moved
    }

    /// Burns up to `value` from the reserved balance of `who`. Returns what
    /// could not be burnt.
    pub fn slash_reserved(&mut self, currency_id: CurrencyId, who: &AccountId, value: Balance) -> (r: Balance)
        requires
            old(self).wf(),
        ensures
            final(self).wf(),
            ({
                let a = old(self)@.account(currency_id, *who);
                let taken = if value <= a.reserved { value } else { a.reserved };
                &&& r == value - taken
                &&& final(self)@ == old(self)@.set_account(
                    currency_id,
                    *who,
                    a.with_balances(a.free, (a.reserved - taken) as Balance),
                ).set_issuance(currency_id, (old(self)@.total_issuance(currency_id) - taken) as Balance)
            }),
    {
        let i = self.entry_for(currency_id, *who);
        proof {
            self.lemma_view_entry(i as int);
        }
        let free = self.accounts[i].free;
        let reserved = self.accounts[i].reserved;
        let taken = if value <= reserved { value } else { reserved };
        self.put_balances(i, free, reserved - taken);
        value - taken
    }

    /// Records that the lock at record `i` changed from `l0` to `l1` and
    /// nothing else did.
    proof fn lemma_locks_rewritten(l0: Ledger, l1: Ledger, i: int)
        requires
            l0.wf(),
            0 <= i < l0.accounts.len(),
            l1.issuance@ == l0.issuance@,
            l1.accounts.len() == l0.accounts.len(),
            forall|k: int| 0 <= k < l0.accounts.len() && k != i ==> #[trigger] l1.accounts@[k] == l0.accounts@[k],
            l1.accounts@[i].currency_id == l0.accounts@[i].currency_id,
            l1.accounts@[i].who == l0.accounts@[i].who,
            l1.accounts@[i].free == l0.accounts@[i].free,
            l1.accounts@[i].reserved == l0.accounts@[i].reserved,
        ensures
            l1.wf(),
            ({
                let e = l0.accounts@[i];
                l1@ == l0@.set_account(e.currency_id, e.who, l0@.account(e.currency_id, e.who).with_locks(l1.accounts@[i].locks@))
            }),
    {
        let s0 = l0.accounts@;
        let e0 = s0[i];
        let e1 = l1.accounts@[i];
        assert(l1.accounts@ =~= s0.update(i, e1));
        assert(same_key(e1, e0));
        assert(contribution(e1, e0.currency_id) == contribution(e0, e0.currency_id));
        assert forall|d: CurrencyId| #[trigger] l1.issuance_at(d) == balance_sum(l1.accounts@, d) by {
            lemma_sum_update(s0, i, e1, d);
            assert(l0.issuance_at(d) == balance_sum(s0, d));
            assert(l1.issuance_at(d) == l0.issuance_at(d));
        }
        lemma_update_keeps_index(s0, i, e1, e0.currency_id, e0.who);
        assert forall|d: CurrencyId, v: AccountId| #[trigger] l1.account_at(d, v) == if d == e0.currency_id && v == e0.who {
            entry_model(e1)
        } else {
            l0.account_at(d, v)
        } by {
            lemma_update_keeps_index(s0, i, e1, d, v);
            lemma_account_index(s0, d, v);
        }
        lemma_index_unique(s0, i);
        let target = l0@.set_account(e0.currency_id, e0.who, l0@.account(e0.currency_id, e0.who).with_locks(e1.locks@));
        assert(l1@.accounts =~= target.accounts);
        assert(l1@.issuance =~= target.issuance);
    }

    /// Makes the lock `lock_id` of `who` hold `amount`, whatever it held before;
    /// the balance is not consulted.
    pub fn set_lock(&mut self, lock_id: LockIdentifier, currency_id: CurrencyId, who: &AccountId, amount: Balance) -> (r: Result<(), Error>)
        requires
            old(self).wf(),
        ensures
            final(self).wf(),
            r == Ok::<(), Error>(()),
            ({
                let a = old(self)@.account(currency_id, *who);
                final(self)@ == old(self)@.set_account(currency_id, *who, a.with_locks(locks_after_set(a.locks, lock_id, amount)))
            }),
    {
        let i = self.entry_for(currency_id, *who);
        proof {
            self.lemma_view_entry(i as int);
        }
        let ghost l0 = *self;
        match find_lock(&self.accounts[i].locks, &lock_id) {
            Some(j) => {
                let id = self.accounts[i].locks[j].id;
                self.accounts[i].locks.set(j, BalanceLock { id, amount });
            },
            None => {
                self.accounts[i].locks.push(BalanceLock { id: lock_id, amount });
            },
        }
        proof {
            Self::lemma_locks_rewritten(l0, *self, i as int);
        }
        Ok(())
    }

    /// Makes the lock `lock_id` of `who` hold at least `amount`: it only ever
    /// tightens.
    pub fn extend_lock(&mut self, lock_id: LockIdentifier, currency_id: CurrencyId, who: &AccountId, amount: Balance) -> (r: Result<(), Error>)
        requires
            old(self).wf(),
        ensures
            final(self).wf(),
            r == Ok::<(), Error>(()),
            ({
                let a = old(self)@.account(currency_id, *who);
                final(self)@ == old(self)@.set_account(currency_id, *who, a.with_locks(locks_after_extend(a.locks, lock_id, amount)))
            }),
            final(self)@.effective_lock(currency_id, *who) == if amount > old(self)@.effective_lock(currency_id, *who) {
                amount
            } else {
                old(self)@.effective_lock(currency_id, *who)
            },
    {
        let i = self.entry_for(currency_id, *who);
        proof {
            self.lemma_view_entry(i as int);
        }
        let ghost l0 = *self;
        match find_lock(&self.accounts[i].locks, &lock_id) {
            Some(j) => {
                let id = self.accounts[i].locks[j].id;
                let kept = self.accounts[i].locks[j].amount;
                let tighter = if kept > amount { kept } else { amount };
                self.accounts[i].locks.set(j, BalanceLock { id, amount: tighter });
            },
            None => {
                self.accounts[i].locks.push(BalanceLock { id: lock_id, amount });
            },
        }
        proof {
            Self::lemma_locks_rewritten(l0, *self, i as int);
            lemma_extend_effective(old(self)@.account(currency_id, *who).locks, lock_id, amount);
        }
        Ok(())
    }

    /// Takes the lock `lock_id` off `who`.
    pub fn remove_lock(&mut self, lock_id: LockIdentifier, currency_id: CurrencyId, who: &AccountId) -> (r: Result<(), Error>)
        requires
            old(self).wf(),
        ensures
            final(self).wf(),
            r == Ok::<(), Error>(()),
            ({
                let a = old(self)@.account(currency_id, *who);
                final(self)@ == old(self)@.set_account(currency_id, *who, a.with_locks(locks_after_remove(a.locks, lock_id)))
            }),
    {
        let i = self.entry_for(currency_id, *who);
        proof {
            self.lemma_view_entry(i as int);
        }
        let ghost l0 = *self;
        match find_lock(&self.accounts[i].locks, &lock_id) {
            Some(j) => {
                self.accounts[i].locks.remove(j);
            },
            None => {},
        }
        proof {
            Self::lemma_locks_rewritten(l0, *self, i as int);
        }
        Ok(())
    }

    /// Moves up to `value` from the reserved balance of `slashed` to the free
    /// or reserved balance of `beneficiary`, as `status` says. Returns what
    /// could not be moved.
    pub fn repatriate_reserved(
        &mut self,
        currency_id: CurrencyId,
        slashed: &AccountId,
        beneficiary: &AccountId,
        value: Balance,
        status: BalanceStatus,
    ) -> (r: Result<Balance, Error>)
        requires
            old(self).wf(),
        ensures
            final(self).wf(),
            ({
                let a = old(self)@.account(currency_id, *slashed);
                let moved = if value <= a.reserved { value } else { a.reserved };
                &&& r == Ok::<Balance, Error>((value - moved) as Balance)
                &&& *slashed == *beneficiary && status == BalanceStatus::Free ==> final(self)@ == old(self)@.set_account(
                    currency_id,
                    *slashed,
                    a.with_balances((a.free + moved) as Balance, (a.reserved - moved) as Balance),
                )
                &&& *slashed == *beneficiary && status == BalanceStatus::Reserved ==> final(self)@ == old(self)@
                &&& *slashed != *beneficiary ==> {
                    let b = old(self)@.account(currency_id, *beneficiary);
                    final(self)@ == old(self)@.set_account(
                        currency_id,
                        *slashed,
                        a.with_balances(a.free, (a.reserved - moved) as Balance),
                    ).set_account(
                        currency_id,
                        *beneficiary,
                        match status {
                            BalanceStatus::Free => b.with_free((b.free + moved) as Balance),
                            BalanceStatus::Reserved => b.with_balances(b.free, (b.reserved + moved) as Balance),
                        },
                    )
                }
            }),
    {
        if *slashed == *beneficiary {
            return match status {
                BalanceStatus::Free => Ok(self.unreserve(currency_id, slashed, value)),
                BalanceStatus::Reserved => {
                    let reserved = self.reserved_balance(currency_id, slashed);
                    Ok(if value <= reserved { 0 } else { value - reserved })
                },
            };
        }
        let i = self.entry_for(currency_id, *slashed);
        let j = self.entry_for(currency_id, *beneficiary);
        proof {
            self.lemma_view_entry(i as int);
            self.lemma_view_entry(j as int);
            lemma_two_contributions_bounded(self.accounts@, i as int, j as int, currency_id);
            assert(self.issuance_at(currency_id) == balance_sum(self.accounts@, currency_id));
        }
        let from_free = self.accounts[i].free;
        let from_reserved = self.accounts[i].reserved;
        let to_free = self.accounts[j].free;
        let to_reserved = self.accounts[j].reserved;
        let moved = if value <= from_reserved { value } else { from_reserved };
        self.put_balances(i, from_free, from_reserved - moved);
        proof {
            self.lemma_view_entry(j as int);
        }
        match status {
            BalanceStatus::Free => self.put_balances(j, to_free + moved, to_reserved),
            BalanceStatus::Reserved => self.put_balances(j, to_free, to_reserved + moved),
        }
        proof {
            assert(self@.issuance =~= old(self)@.issuance);
        }
        Ok(value - moved)
    }

    /// Adds `by_amount` to the free balance of `who` where it is positive, as
    /// `deposit` does, and takes its magnitude away where it is negative, as
    /// `withdraw` does.
    pub fn update_balance(&mut self, currency_id: CurrencyId, who: &AccountId, by_amount: Amount) -> (r: Result<(), Error>)
        requires
            old(self).wf(),
        ensures
            final(self).wf(),
            by_amount >= 0 ==> {
                &&& r is Ok <==> old(self)@.can_deposit(currency_id, by_amount as Balance)
                &&& r is Ok ==> final(self)@ == old(self)@.deposited(currency_id, *who, by_amount as Balance)
                &&& r is Err ==> r == Err::<(), Error>(Error::Overflow) && final(self)@ == old(self)@
            },
            by_amount < 0 ==> {
                &&& r is Ok <==> old(self)@.can_withdraw(currency_id, *who, (-by_amount) as Balance)
                &&& r is Ok ==> final(self)@ == old(self)@.withdrawn(currency_id, *who, (-by_amount) as Balance)
                &&& r is Err ==> r == Err::<(), Error>(Error::InsufficientBalance) && final(self)@ == old(self)@
            },
    {
        if by_amount >= 0 {
            self.deposit(currency_id, who, by_amount as Balance)
        } else {
            let magnitude: Balance = (-(by_amount + 1)) as Balance + 1;
            self.withdraw(currency_id, who, magnitude)
        }
    }

    /// The position of the record of `(currency_id, who)`; an empty one is
    /// added where there was none, which changes nothing that the view shows.
    fn entry_for(&mut self, currency_id: CurrencyId, who: AccountId) -> (i: usize)
        requires
            old(self).wf(),
        ensures
            final(self).wf(),
            final(self)@ == old(self)@,
            final(self).issuance@ == old(self).issuance@,
            i < final(self).accounts.len(),
            i == account_index(final(self).accounts@, currency_id, who),
            final(self).accounts@[i as int].currency_id == currency_id,
            final(self).accounts@[i as int].who == who,
            final(self).accounts.len() >= old(self).accounts.len(),
            forall|k: int| 0 <= k < old(self).accounts.len() ==> #[trigger] final(self).accounts@[k] == old(self).accounts@[k],
    {
        match self.find_account(currency_id, who) {
            Some(i) => {
                proof {
                    lemma_account_index(self.accounts@, currency_id, who);
                }
                i
            },
            None => {
                let ghost s0 = self.accounts@;
                let e = AccountEntry { currency_id, who, free: 0, reserved: 0, locks: Vec::new() };
                proof {
                    lemma_push_index(s0, e, currency_id, who);
                }
                self.accounts.push(e);
                proof {
                    assert(self.accounts@ == s0.push(e));
                    assert forall|c: CurrencyId, w: AccountId| #[trigger] self.account_at(c, w) == old(self).account_at(c, w) by {
                        lemma_push_index(s0, e, c, w);
                        lemma_account_index(s0, c, w);
                        let j = account_index(s0, c, w);
                        if j >= 0 {
                            assert(self.accounts@[j] == s0[j]);
                        } else if c == currency_id && w == who {
                            assert(self.accounts@[s0.len() as int] == e);
                            assert(e.locks@ =~= Seq::<BalanceLock>::empty());
                        }
                    }
                    assert(self@.accounts =~= old(self)@.accounts);
                    assert(self@.issuance =~= old(self)@.issuance);
                    assert forall|c: CurrencyId| #[trigger] self.issuance_at(c) == balance_sum(self.accounts@, c) by {
                        lemma_sum_push(s0, e, c);
                        assert(old(self).issuance_at(c) == balance_sum(s0, c));
                    }
                    lemma_push_index(s0, e, currency_id, who);
                    lemma_account_index(self.accounts@, currency_id, who);
                }
                self.accounts.len() - 1
            },
        }
    }

    /// Gives the record at `i` the balances `free` and `reserved`, and moves the
    /// issuance of its currency by the difference.
    fn put_balances(&mut self, i: usize, free: Balance, reserved: Balance)
        requires
            old(self).wf(),
            i < old(self).accounts.len(),
            old(self)@.total_issuance(old(self).accounts@[i as int].currency_id) - old(self).accounts@[i as int].free
                - old(self).accounts@[i as int].reserved + free + reserved <= Balance::MAX,
        ensures
            final(self).wf(),
            final(self).accounts.len() == old(self).accounts.len(),
            ({
                let e = old(self).accounts@[i as int];
                let a = old(self)@.account(e.currency_id, e.who);
                final(self)@ == old(self)@.set_account(e.currency_id, e.who, a.with_balances(free, reserved)).set_issuance(
                    e.currency_id,
                    (old(self)@.total_issuance(e.currency_id) - e.free - e.reserved + free + reserved) as Balance,
                )
            }),
            forall|k: int| 0 <= k < final(self).accounts.len() ==> same_key(#[trigger] final(self).accounts@[k], old(self).accounts@[k]),
    {
        let ghost s0 = self.accounts@;
        let ghost e0 = s0[i as int];
        let ghost c = e0.currency_id;
        let ghost w = e0.who;
        proof {
            lemma_index_unique(s0, i as int);
            lemma_contribution_bounded(s0, i as int, c);
            assert(old(self).issuance_at(c) == balance_sum(s0, c));
        }
        let currency_id = self.accounts[i].currency_id;
        let old_free = self.accounts[i].free;
        let old_reserved = self.accounts[i].reserved;
        let k = self.find_issuance(currency_id);
        let current: Balance = match k {
            Some(k) => self.issuance[k].total,
            None => 0,
        };
        let total = current - old_free - old_reserved + free + reserved;
        self.accounts[i].free = free;
        self.accounts[i].reserved = reserved;
        let ghost e1 = self.accounts@[i as int];
        proof {
            assert(self.accounts@ == s0.update(i as int, e1));
            assert(same_key(e1, e0));
        }
        let ghost iss0 = self.issuance@;
        match k {
            Some(k) => {
                self.issuance.set(k, IssuanceEntry { currency_id, total });
            },
            None => {
                if total > 0 {
                    self.issuance.push(IssuanceEntry { currency_id, total });
                }
            },
        }
        proof {
            lemma_issuance_index(iss0, c);
            assert forall|a: int, b: int| 0 <= a < b < self.issuance.len() implies #[trigger] self.issuance@[a].currency_id
                != #[trigger] self.issuance@[b].currency_id by {
                if b >= iss0.len() {
                    assert(self.issuance@[a] == iss0[a]);
                } else {
                    assert(self.issuance@[a].currency_id == iss0[a].currency_id);
                    assert(self.issuance@[b].currency_id == iss0[b].currency_id);
                }
            }
            assert forall|d: CurrencyId| #[trigger] self.issuance_at(d) == if d == c { total } else { old(self).issuance_at(d) } by {
                lemma_issuance_index(iss0, d);
                lemma_issuance_index(self.issuance@, d);
                let f0 = issuance_index(iss0, d);
                let f1 = issuance_index(self.issuance@, d);
                if f1 >= 0 && f0 >= 0 && f1 != f0 {
                    assert(self.issuance@[f0].currency_id == d);
                    if f0 < f1 {
                        assert(self.issuance@[f0].currency_id != self.issuance@[f1].currency_id);
                    } else {
                        assert(self.issuance@[f1].currency_id != self.issuance@[f0].currency_id);
                    }
                }
                if f1 >= 0 && f0 < 0 && f1 < iss0.len() {
                    assert(self.issuance@[f1] == iss0[f1]);
                }
                if f0 >= 0 && f1 < 0 {
                    assert(self.issuance@[f0].currency_id == d);
                }
            }
            assert forall|d: CurrencyId| #[trigger] self.issuance_at(d) == balance_sum(self.accounts@, d) by {
                lemma_sum_update(s0, i as int, e1, d);
                assert(old(self).issuance_at(d) == balance_sum(s0, d));
            }
            assert forall|d: CurrencyId, v: AccountId| #[trigger] self.account_at(d, v) == if d == c && v == w {
                entry_model(e1)
            } else {
                old(self).account_at(d, v)
            } by {
                lemma_update_keeps_index(s0, i as int, e1, d, v);
                lemma_account_index(s0, d, v);
                let j = account_index(s0, d, v);
                if j >= 0 && j != i {
                    assert(self.accounts@[j] == s0[j]);
                }
            }
            lemma_update_keeps_index(s0, i as int, e1, c, w);
            let a = old(self)@.account(c, w);
            let target = old(self)@.set_account(c, w, a.with_balances(free, reserved)).set_issuance(c, total);
            assert(self@.accounts =~= target.accounts);
            assert(self@.issuance =~= target.issuance);
        }
    }

    /// The total amount of `currency_id` in existence.
    pub fn total_issuance(&self, currency_id: CurrencyId) -> (r: Balance)
        requires
            self.wf(),
        ensures
            r == self@.total_issuance(currency_id),
    {
        match self.find_issuance(currency_id) {
            Some(k) => self.issuance[k].total,
            None => 0,
        }
    }

    /// The free balance of `who` in `currency_id`.
    pub fn free_balance(&self, currency_id: CurrencyId, who: &AccountId) -> (r: Balance)
        requires
            self.wf(),
        ensures
            r == self@.free(currency_id, *who),
    {
        match self.find_account(currency_id, *who) {
            Some(i) => self.accounts[i].free,
            None => 0,
        }
    }

    /// The reserved balance of `who` in `currency_id`.
    pub fn reserved_balance(&self, currency_id: CurrencyId, who: &AccountId) -> (r: Balance)
        requires
            self.wf(),
        ensures
            r == self@.reserved(currency_id, *who),
    {
        match self.find_account(currency_id, *who) {
            Some(i) => self.accounts[i].reserved,
            None => 0,
        }
    }

    /// Free plus reserved balance of `who`; it never overflows, since it is part
    /// of the issuance.
    pub fn total_balance(&self, currency_id: CurrencyId, who: &AccountId) -> (r: Balance)
        requires
            self.wf(),
        ensures
            r == self@.account(currency_id, *who).total(),
    {
        match self.find_account(currency_id, *who) {
            Some(i) => {
                proof {
                    lemma_account_index(self.accounts@, currency_id, *who);
                    lemma_contribution_bounded(self.accounts@, i as int, currency_id);
                    assert(self.issuance_at(currency_id) == balance_sum(self.accounts@, currency_id));
                }
                self.accounts[i].free + self.accounts[i].reserved
            },
            None => 0,
        }
    }
}

} // verus!
