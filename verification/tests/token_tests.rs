use idavoll::token::TokenLedger;
use idavoll::errors::Error;

#[test]
fn issuing_asset_units_to_issuer_should_work() {
    let mut ledger = TokenLedger::new();
    assert_eq!(ledger.create_token(1, 100), 0);
    assert_eq!(ledger.free_balance(0, 1), 100);
    assert_eq!(ledger.total_balance(0, 1), 100);
    assert_eq!(ledger.create_token(1, 100), 1);
    assert_eq!(ledger.free_balance(1, 1), 100);
    assert_eq!(ledger.total_balance(1, 1), 100);
    assert_eq!(ledger.create_token(2, 300), 2);
    assert_eq!(ledger.free_balance(2, 2), 300);
    assert_eq!(ledger.total_balance(2, 2), 300);
}

#[test]
fn base_transfer_should_work() {
    let mut ledger = TokenLedger::new();
    assert_eq!(ledger.create_token(1, 100), 0);
    assert_eq!(ledger.free_balance(0, 1), 100);
    assert_eq!(ledger.total_balance(0, 1), 100);
    assert!(ledger.base_transfer(0, 1, 2, 50).is_ok());
    assert_eq!(ledger.free_balance(0, 1), 50);
    assert_eq!(ledger.free_balance(0, 2), 50);
    assert!(ledger.base_transfer(0, 2, 3, 31).is_ok());
    assert_eq!(ledger.free_balance(0, 1), 50);
    assert_eq!(ledger.free_balance(0, 2), 19);
    assert_eq!(ledger.free_balance(0, 3), 31);
    assert_eq!(ledger.total_issuances(0), 100);
}

#[test]
fn burn_and_mint_should_work() {
    let mut ledger = TokenLedger::new();
    assert_eq!(ledger.create_token(1, 100), 0);
    assert_eq!(ledger.free_balance(0, 1), 100);
    assert_eq!(ledger.total_balance(0, 1), 100);
    assert!(ledger.base_transfer(0, 1, 2, 50).is_ok());
    assert!(ledger.base_mint(0, 1, 100).is_ok());
    assert_eq!(ledger.total_issuances(0), 200);
    assert_eq!(ledger.base_mint(0, 2, 100), Err(Error::NoPermission));
    assert!(ledger.base_burn(0, 1, 20).is_ok());
    assert_eq!(ledger.total_issuances(0), 180);
    assert_eq!(ledger.base_burn(0, 2, 100), Err(Error::NoPermission));
    assert_eq!(ledger.base_burn(0, 1, 1000), Err(Error::BalanceLow));
}

#[test]
fn lock_and_unlock_should_not_work() {
    let mut ledger = TokenLedger::new();
    assert_eq!(ledger.create_token(1, 100), 0);
    assert_eq!(ledger.free_balance(0, 1), 100);
    assert!(ledger.base_transfer(0, 1, 2, 40).is_ok());
    assert_eq!(ledger.free_balance(0, 1), 60);
    assert_eq!(ledger.free_balance(0, 2), 40);
    assert!(ledger.base_lock(0, 1, 20).is_ok());
    assert_eq!(ledger.free_balance(0, 1), 40);
    assert_eq!(ledger.total_balance(0, 1), 60);
    assert!(ledger.base_unlock(0, 1, 20).is_ok());
    assert_eq!(ledger.free_balance(0, 1), 60);
    assert_eq!(ledger.total_balance(0, 1), 60);
    assert!(ledger.base_lock(0, 1, 60).is_ok());
    assert_eq!(ledger.free_balance(0, 1), 0);
    assert_eq!(ledger.total_balance(0, 1), 60);
    assert!(ledger.base_unlock(0, 1, 20).is_ok());
    assert_eq!(ledger.free_balance(0, 1), 20);
    assert_eq!(ledger.total_balance(0, 1), 60);
    assert_eq!(ledger.base_lock(0, 2, 50), Err(Error::BalanceLow));
    assert_eq!(ledger.free_balance(0, 2), 40);
    assert_eq!(ledger.base_unlock(0, 2, 50), Err(Error::BalanceLow));
    assert_eq!(ledger.free_balance(0, 2), 40);
}

#[test]
fn lock_then_unlock_restores_balances() {
    // lock round-trip on concrete values: free and frozen return to their
    // pre-lock values when the locked amount is within the free balance
    let mut ledger = TokenLedger::new();
    assert_eq!(ledger.create_token(7, 500), 0);
    assert!(ledger.base_lock(0, 7, 120).is_ok());
    assert_eq!(ledger.free_balance(0, 7), 380);
    assert_eq!(ledger.unlock(0, 7, 120), 0);
    assert_eq!(ledger.free_balance(0, 7), 500);
    assert_eq!(ledger.total_balance(0, 7), 500);
    assert_eq!(ledger.lock_balance_of(0, 7), 0);
}

#[test]
fn unlock_is_best_effort_and_returns_remainder() {
    let mut ledger = TokenLedger::new();
    assert_eq!(ledger.create_token(7, 100), 0);
    assert!(ledger.base_lock(0, 7, 30).is_ok());
    // asking for more than is frozen releases what is frozen and returns
    // the unsatisfied remainder instead of failing
    assert_eq!(ledger.unlock(0, 7, 50), 20);
    assert_eq!(ledger.free_balance(0, 7), 100);
    assert_eq!(ledger.lock_balance_of(0, 7), 0);
    // nothing frozen: the whole request comes back
    assert_eq!(ledger.unlock(0, 9, 50), 50);
}

#[test]
fn conservation_holds_after_operations() {
    // supply equals the sum of free + frozen over all accounts, after a
    // sequence of mint, burn, transfer, lock and unlock calls
    let mut ledger = TokenLedger::new();
    assert_eq!(ledger.create_token(1, 100), 0);
    assert!(ledger.base_transfer(0, 1, 2, 30).is_ok());
    assert!(ledger.base_mint(0, 1, 50).is_ok());
    assert!(ledger.base_lock(0, 2, 10).is_ok());
    assert!(ledger.base_burn(0, 1, 40).is_ok());
    assert_eq!(ledger.unlock(0, 2, 5), 0);
    assert_eq!(ledger.total_issuances(0), 110);
    assert_eq!(ledger.sum_account_balances(0), 110);
    // a second asset is conserved independently
    assert_eq!(ledger.create_token(2, 77), 1);
    assert!(ledger.base_transfer(1, 2, 1, 7).is_ok());
    assert_eq!(ledger.sum_account_balances(1), 77);
    assert_eq!(ledger.sum_account_balances(0), 110);
}

#[test]
fn transfer_rejects_zero_and_self_transfer_is_noop() {
    let mut ledger = TokenLedger::new();
    assert_eq!(ledger.create_token(1, 100), 0);
    assert_eq!(ledger.base_transfer(0, 1, 2, 0), Err(Error::AmountZero));
    assert!(ledger.base_transfer(0, 1, 1, 40).is_ok());
    assert_eq!(ledger.free_balance(0, 1), 100);
    assert_eq!(ledger.base_transfer(0, 2, 3, 10), Err(Error::BalanceLow));
}

#[test]
fn token_handler_surface_matches_base_operations() {
    let mut ledger = TokenLedger::new();
    assert_eq!(ledger.create(1, 100), 0);
    assert_eq!(ledger.total(0), 100);
    assert!(ledger.transfer(0, 1, 2, 40).is_ok());
    assert_eq!(ledger.free_balance_of(0, 2), 40);
    assert!(ledger.lock(0, 2, 15).is_ok());
    assert_eq!(ledger.free_balance_of(0, 2), 25);
    assert_eq!(ledger.total_balance_of(0, 2), 40);
    assert!(ledger.mint(0, 1, 10).is_ok());
    assert_eq!(ledger.total(0), 110);
    assert!(ledger.burn(0, 1, 30).is_ok());
    assert_eq!(ledger.total(0), 80);
    assert_eq!(ledger.sum_account_balances(0), 80);
}

#[test]
fn mint_rejects_unknown_asset_and_overflow() {
    let mut ledger = TokenLedger::new();
    assert_eq!(ledger.base_mint(9, 1, 10), Err(Error::Unknown));
    assert_eq!(ledger.base_burn(9, 1, 10), Err(Error::Unknown));
    assert_eq!(ledger.create_token(1, u64::MAX - 5), 0);
    assert_eq!(ledger.base_mint(0, 1, 6), Err(Error::Overflow));
    assert!(ledger.base_mint(0, 1, 5).is_ok());
    assert_eq!(ledger.total_issuances(0), u64::MAX);
}
