use idavoll::finance::{account_id, bounty_account_id, Finance};
use idavoll::errors::Error;

const A: u64 = 100;
const B: u64 = 200;
const ORGID: u64 = 1000;
const ORGID2: u64 = 2000;

fn funded() -> Finance {
    let mut finance = Finance::new();
    assert!(finance.endow(A, 100).is_ok());
    assert!(finance.endow(B, 200).is_ok());
    finance
}

#[test]
#[allow(non_snake_case)]
fn Vault_transfer_and_balance_should_not_work() {
    let mut finance = funded();
    assert_eq!(finance.vault_balance_of(ORGID), Err(Error::UnknownOwnerID));
    assert!(finance.transfer_to_vault(ORGID, A, 30).is_ok());
    assert_eq!(finance.vault_balance_of(ORGID), Ok(30));
    assert_eq!(finance.free_balance(account_id()), 30);
    assert_eq!(finance.free_balance(A), 70);
    assert_eq!(finance.transfer_to_vault(ORGID, 1, 50), Err(Error::BalanceLow));
    assert_eq!(finance.transfer_to_vault(ORGID, A, 100), Err(Error::BalanceLow));
    assert!(finance.transfer_to_vault(ORGID2, B, 60).is_ok());
    assert_eq!(finance.vault_balance_of(ORGID2), Ok(60));
    assert_eq!(finance.free_balance(account_id()), 90);
    assert_eq!(finance.free_balance(B), 140);
    // spend the vault
    assert_eq!(finance.spend_organization_vault(ORGID, 1, 60), Err(Error::BalanceLow));
    assert_eq!(finance.spend_organization_vault(2, 1, 60), Err(Error::UnknownOwnerID));
    assert!(finance.spend_organization_vault(ORGID, 1, 10).is_ok());
    assert_eq!(finance.vault_balance_of(ORGID), Ok(20));
    assert_eq!(finance.free_balance(account_id()), 80);
    assert_eq!(finance.free_balance(1), 10);

    assert!(finance.spend_organization_vault(ORGID2, 2, 30).is_ok());
    assert_eq!(finance.vault_balance_of(ORGID2), Ok(30));
    assert_eq!(finance.free_balance(account_id()), 50);
    assert_eq!(finance.free_balance(2), 30);
}

#[test]
fn lock_and_unlock_balance_stake_round_trip() {
    // the proposal-creation stake enters and leaves the same vault entry
    let mut finance = funded();
    assert!(finance.transfer_to_vault(ORGID, A, 30).is_ok());
    assert!(finance.lock_balance(ORGID, B, 5).is_ok());
    assert_eq!(finance.vault_balance_of(ORGID), Ok(35));
    assert_eq!(finance.free_balance(B), 195);
    assert!(finance.unlock_balance(ORGID, B, 5).is_ok());
    assert_eq!(finance.vault_balance_of(ORGID), Ok(35 - 5));
    assert_eq!(finance.free_balance(B), 200);
    // a drained vault entry stays, distinct from one never funded
    assert!(finance.spend_organization_vault(ORGID, A, 30).is_ok());
    assert_eq!(finance.vault_balance_of(ORGID), Ok(0));
    assert_eq!(finance.vault_balance_of(ORGID2), Err(Error::UnknownOwnerID));
}

#[test]
fn endow_rejects_total_overflow() {
    let mut finance = Finance::new();
    assert!(finance.endow(A, u64::MAX - 10).is_ok());
    assert_eq!(finance.endow(B, 11), Err(Error::Overflow));
    assert!(finance.endow(B, 10).is_ok());
}

#[test]
fn derived_accounts_are_fixed_and_distinct() {
    assert_eq!(account_id(), account_id());
    assert_ne!(bounty_account_id(1), bounty_account_id(2));
    assert_ne!(account_id(), bounty_account_id(0));
}
