use stp258_traits::stp258::same_lock_id;
use stp258_traits::{BalanceStatus, Error, Ledger};

const DOT: u32 = 1;
const BTC: u32 = 2;
const ALICE: u64 = 1;
const BOB: u64 = 2;
const CAROL: u64 = 3;
const ID_1: [u8; 8] = *b"1       ";
const ID_2: [u8; 8] = *b"2       ";

#[test]
fn new_ledger_is_empty() {
    let ledger = Ledger::new();
    assert_eq!(ledger.total_issuance(DOT), 0);
    assert_eq!(ledger.free_balance(DOT, &ALICE), 0);
    assert_eq!(ledger.reserved_balance(DOT, &ALICE), 0);
    assert_eq!(ledger.total_balance(DOT, &ALICE), 0);
    assert_eq!(ledger.effective_lock(DOT, &ALICE), 0);
}

#[test]
fn deposit_raises_free_balance_and_issuance() {
    let mut ledger = Ledger::new();
    assert_eq!(ledger.deposit(DOT, &ALICE, 100), Ok(()));
    assert_eq!(ledger.deposit(DOT, &BOB, 50), Ok(()));
    assert_eq!(ledger.free_balance(DOT, &ALICE), 100);
    assert_eq!(ledger.free_balance(DOT, &BOB), 50);
    assert_eq!(ledger.total_issuance(DOT), 150);
    assert_eq!(ledger.total_issuance(BTC), 0);
}

#[test]
fn deposit_of_zero_changes_nothing() {
    let mut ledger = Ledger::new();
    assert_eq!(ledger.deposit(DOT, &ALICE, 0), Ok(()));
    assert_eq!(ledger.free_balance(DOT, &ALICE), 0);
    assert_eq!(ledger.total_issuance(DOT), 0);
}

#[test]
fn deposit_that_would_overflow_issuance_fails() {
    let mut ledger = Ledger::new();
    assert_eq!(ledger.deposit(DOT, &ALICE, u128::MAX - 5), Ok(()));
    assert_eq!(ledger.deposit(DOT, &BOB, 6), Err(Error::Overflow));
    assert_eq!(ledger.free_balance(DOT, &BOB), 0);
    assert_eq!(ledger.total_issuance(DOT), u128::MAX - 5);
    assert_eq!(ledger.deposit(DOT, &BOB, 5), Ok(()));
    assert_eq!(ledger.total_issuance(DOT), u128::MAX);
}

#[test]
fn withdraw_lowers_free_balance_and_issuance() {
    let mut ledger = Ledger::new();
    ledger.deposit(DOT, &ALICE, 100).unwrap();
    assert_eq!(ledger.withdraw(DOT, &ALICE, 30), Ok(()));
    assert_eq!(ledger.free_balance(DOT, &ALICE), 70);
    assert_eq!(ledger.total_issuance(DOT), 70);
    assert_eq!(ledger.withdraw(DOT, &ALICE, 71), Err(Error::InsufficientBalance));
    assert_eq!(ledger.free_balance(DOT, &ALICE), 70);
    assert_eq!(ledger.total_issuance(DOT), 70);
}

#[test]
fn withdraw_respects_the_effective_lock() {
    let mut ledger = Ledger::new();
    ledger.deposit(DOT, &ALICE, 100).unwrap();
    ledger.set_lock(ID_1, DOT, &ALICE, 60).unwrap();
    assert_eq!(ledger.ensure_can_withdraw(DOT, &ALICE, 41), Err(Error::InsufficientBalance));
    assert_eq!(ledger.withdraw(DOT, &ALICE, 41), Err(Error::InsufficientBalance));
    assert_eq!(ledger.ensure_can_withdraw(DOT, &ALICE, 40), Ok(()));
    assert_eq!(ledger.withdraw(DOT, &ALICE, 40), Ok(()));
    assert_eq!(ledger.free_balance(DOT, &ALICE), 60);
}

#[test]
fn transfer_keeps_the_sum_of_both_free_balances() {
    let mut ledger = Ledger::new();
    ledger.deposit(DOT, &ALICE, 100).unwrap();
    ledger.deposit(DOT, &BOB, 20).unwrap();
    assert_eq!(ledger.transfer(DOT, &ALICE, &BOB, 30), Ok(()));
    assert_eq!(ledger.free_balance(DOT, &ALICE), 70);
    assert_eq!(ledger.free_balance(DOT, &BOB), 50);
    assert_eq!(ledger.total_issuance(DOT), 120);
}

#[test]
fn transfer_fails_when_the_lock_would_be_broken() {
    let mut ledger = Ledger::new();
    ledger.deposit(DOT, &ALICE, 100).unwrap();
    ledger.set_lock(ID_1, DOT, &ALICE, 50).unwrap();
    assert_eq!(ledger.transfer(DOT, &ALICE, &BOB, 51), Err(Error::InsufficientBalance));
    assert_eq!(ledger.free_balance(DOT, &ALICE), 100);
    assert_eq!(ledger.free_balance(DOT, &BOB), 0);
    assert_eq!(ledger.transfer(DOT, &ALICE, &BOB, 50), Ok(()));
    assert_eq!(ledger.free_balance(DOT, &BOB), 50);
}

#[test]
fn transfer_to_oneself_always_succeeds() {
    let mut ledger = Ledger::new();
    assert_eq!(ledger.transfer(DOT, &ALICE, &ALICE, 1_000), Ok(()));
    assert_eq!(ledger.free_balance(DOT, &ALICE), 0);
}

#[test]
fn slash_takes_free_balance_first() {
    let mut ledger = Ledger::new();
    ledger.deposit(DOT, &ALICE, 50).unwrap();
    ledger.reserve(DOT, &ALICE, 20).unwrap();
    assert_eq!(ledger.slash(DOT, &ALICE, 40), 0);
    assert_eq!(ledger.free_balance(DOT, &ALICE), 0);
    assert_eq!(ledger.reserved_balance(DOT, &ALICE), 10);
    assert_eq!(ledger.total_issuance(DOT), 10);
}

#[test]
fn slash_returns_what_it_could_not_take() {
    let mut ledger = Ledger::new();
    ledger.deposit(DOT, &ALICE, 50).unwrap();
    ledger.reserve(DOT, &ALICE, 20).unwrap();
    assert_eq!(ledger.slash(DOT, &ALICE, 100), 50);
    assert_eq!(ledger.total_balance(DOT, &ALICE), 0);
    assert_eq!(ledger.total_issuance(DOT), 0);
    assert_eq!(ledger.slash(DOT, &BOB, 7), 7);
}

#[test]
fn slash_ignores_locks() {
    let mut ledger = Ledger::new();
    ledger.deposit(DOT, &ALICE, 50).unwrap();
    ledger.set_lock(ID_1, DOT, &ALICE, 50).unwrap();
    assert_eq!(ledger.slash(DOT, &ALICE, 20), 0);
    assert_eq!(ledger.free_balance(DOT, &ALICE), 30);
}

#[test]
fn can_slash_looks_at_the_free_balance() {
    let mut ledger = Ledger::new();
    ledger.deposit(DOT, &ALICE, 50).unwrap();
    ledger.reserve(DOT, &ALICE, 20).unwrap();
    assert!(ledger.can_slash(DOT, &ALICE, 30));
    assert!(!ledger.can_slash(DOT, &ALICE, 31));
    assert!(ledger.can_slash(DOT, &BOB, 0));
}

#[test]
fn reserve_moves_free_to_reserved() {
    let mut ledger = Ledger::new();
    ledger.deposit(DOT, &ALICE, 50).unwrap();
    assert!(ledger.can_reserve(DOT, &ALICE, 50));
    assert!(!ledger.can_reserve(DOT, &ALICE, 51));
    assert_eq!(ledger.reserve(DOT, &ALICE, 51), Err(Error::InsufficientBalance));
    assert_eq!(ledger.reserved_balance(DOT, &ALICE), 0);
    assert_eq!(ledger.reserve(DOT, &ALICE, 30), Ok(()));
    assert_eq!(ledger.free_balance(DOT, &ALICE), 20);
    assert_eq!(ledger.reserved_balance(DOT, &ALICE), 30);
    assert_eq!(ledger.total_balance(DOT, &ALICE), 50);
    assert_eq!(ledger.total_issuance(DOT), 50);
}

#[test]
fn unreserve_moves_back_what_it_can() {
    let mut ledger = Ledger::new();
    ledger.deposit(DOT, &ALICE, 50).unwrap();
    ledger.reserve(DOT, &ALICE, 30).unwrap();
    assert_eq!(ledger.unreserve(DOT, &ALICE, 10), 0);
    assert_eq!(ledger.reserved_balance(DOT, &ALICE), 20);
    assert_eq!(ledger.free_balance(DOT, &ALICE), 30);
    assert_eq!(ledger.unreserve(DOT, &ALICE, 25), 5);
    assert_eq!(ledger.reserved_balance(DOT, &ALICE), 0);
    assert_eq!(ledger.free_balance(DOT, &ALICE), 50);
}

#[test]
fn slash_reserved_burns_what_it_can() {
    let mut ledger = Ledger::new();
    ledger.deposit(DOT, &ALICE, 50).unwrap();
    ledger.reserve(DOT, &ALICE, 30).unwrap();
    assert_eq!(ledger.slash_reserved(DOT, &ALICE, 40), 10);
    assert_eq!(ledger.reserved_balance(DOT, &ALICE), 0);
    assert_eq!(ledger.free_balance(DOT, &ALICE), 20);
    assert_eq!(ledger.total_issuance(DOT), 20);
}

#[test]
fn repatriate_reserved_to_free_and_to_reserved() {
    let mut ledger = Ledger::new();
    ledger.deposit(DOT, &ALICE, 100).unwrap();
    ledger.reserve(DOT, &ALICE, 60).unwrap();
    assert_eq!(ledger.repatriate_reserved(DOT, &ALICE, &BOB, 20, BalanceStatus::Free), Ok(0));
    assert_eq!(ledger.free_balance(DOT, &BOB), 20);
    assert_eq!(ledger.reserved_balance(DOT, &ALICE), 40);
    assert_eq!(ledger.repatriate_reserved(DOT, &ALICE, &CAROL, 50, BalanceStatus::Reserved), Ok(10));
    assert_eq!(ledger.reserved_balance(DOT, &CAROL), 40);
    assert_eq!(ledger.reserved_balance(DOT, &ALICE), 0);
    assert_eq!(ledger.total_issuance(DOT), 100);
}

#[test]
fn repatriate_reserved_to_oneself() {
    let mut ledger = Ledger::new();
    ledger.deposit(DOT, &ALICE, 100).unwrap();
    ledger.reserve(DOT, &ALICE, 60).unwrap();
    assert_eq!(ledger.repatriate_reserved(DOT, &ALICE, &ALICE, 70, BalanceStatus::Reserved), Ok(10));
    assert_eq!(ledger.reserved_balance(DOT, &ALICE), 60);
    assert_eq!(ledger.repatriate_reserved(DOT, &ALICE, &ALICE, 70, BalanceStatus::Free), Ok(10));
    assert_eq!(ledger.reserved_balance(DOT, &ALICE), 0);
    assert_eq!(ledger.free_balance(DOT, &ALICE), 100);
}

#[test]
fn effective_lock_is_the_largest_lock() {
    let mut ledger = Ledger::new();
    ledger.set_lock(ID_1, DOT, &ALICE, 30).unwrap();
    ledger.set_lock(ID_2, DOT, &ALICE, 70).unwrap();
    assert_eq!(ledger.effective_lock(DOT, &ALICE), 70);
    ledger.set_lock(ID_2, DOT, &ALICE, 10).unwrap();
    assert_eq!(ledger.effective_lock(DOT, &ALICE), 30);
    ledger.remove_lock(ID_1, DOT, &ALICE).unwrap();
    assert_eq!(ledger.effective_lock(DOT, &ALICE), 10);
    ledger.remove_lock(ID_2, DOT, &ALICE).unwrap();
    assert_eq!(ledger.effective_lock(DOT, &ALICE), 0);
    assert_eq!(ledger.effective_lock(BTC, &ALICE), 0);
}

#[test]
fn extend_lock_twice_keeps_the_larger_amount() {
    let mut ledger = Ledger::new();
    assert_eq!(ledger.extend_lock(ID_1, DOT, &ALICE, 50), Ok(()));
    assert_eq!(ledger.extend_lock(ID_1, DOT, &ALICE, 30), Ok(()));
    assert_eq!(ledger.effective_lock(DOT, &ALICE), 50);
    assert_eq!(ledger.extend_lock(ID_1, DOT, &ALICE, 80), Ok(()));
    assert_eq!(ledger.effective_lock(DOT, &ALICE), 80);
}

#[test]
fn locks_do_not_consult_the_balance() {
    let mut ledger = Ledger::new();
    assert_eq!(ledger.set_lock(ID_1, DOT, &ALICE, 1_000), Ok(()));
    assert_eq!(ledger.free_balance(DOT, &ALICE), 0);
    assert_eq!(ledger.total_issuance(DOT), 0);
    assert_eq!(ledger.ensure_can_withdraw(DOT, &ALICE, 0), Err(Error::InsufficientBalance));
}

#[test]
fn update_balance_adds_and_removes() {
    let mut ledger = Ledger::new();
    assert_eq!(ledger.update_balance(DOT, &ALICE, 100), Ok(()));
    assert_eq!(ledger.free_balance(DOT, &ALICE), 100);
    assert_eq!(ledger.update_balance(DOT, &ALICE, -40), Ok(()));
    assert_eq!(ledger.free_balance(DOT, &ALICE), 60);
    assert_eq!(ledger.total_issuance(DOT), 60);
    assert_eq!(ledger.update_balance(DOT, &ALICE, -61), Err(Error::InsufficientBalance));
    assert_eq!(ledger.update_balance(DOT, &ALICE, i128::MIN), Err(Error::InsufficientBalance));
    assert_eq!(ledger.update_balance(DOT, &ALICE, 0), Ok(()));
    assert_eq!(ledger.free_balance(DOT, &ALICE), 60);
}

#[test]
fn issuance_is_the_sum_of_all_balances() {
    let mut ledger = Ledger::new();
    ledger.deposit(DOT, &ALICE, 100).unwrap();
    ledger.deposit(DOT, &BOB, 40).unwrap();
    ledger.deposit(BTC, &ALICE, 9).unwrap();
    ledger.transfer(DOT, &ALICE, &CAROL, 25).unwrap();
    ledger.reserve(DOT, &BOB, 15).unwrap();
    ledger.slash(DOT, &BOB, 30);
    ledger.repatriate_reserved(DOT, &BOB, &ALICE, 5, BalanceStatus::Reserved).unwrap();
    ledger.withdraw(DOT, &CAROL, 5).unwrap();
    let sum: u128 = [ALICE, BOB, CAROL].iter().map(|who| ledger.total_balance(DOT, who)).sum();
    assert_eq!(ledger.total_issuance(DOT), sum);
    assert_eq!(ledger.total_issuance(DOT), 105);
    assert_eq!(ledger.total_issuance(BTC), 9);
}

#[test]
fn lock_names_compare_byte_by_byte() {
    assert!(same_lock_id(&ID_1, &ID_1));
    assert!(!same_lock_id(&ID_1, &ID_2));
}
