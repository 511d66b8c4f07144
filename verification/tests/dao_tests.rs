use idavoll::codec::{encode_action, Action};
use idavoll::dao::{Module, Event};
use idavoll::errors::Error;
use idavoll::organization::{OrgInfo, Proposal, ProposalDetail};
use idavoll::rules::OrgRuleParam;

const A: u64 = 100;
const B: u64 = 200;
const OWNER: u64 = 88;
const RECEIVER: u64 = 77;

fn new_test_dao() -> Module {
    let mut dao = Module::new(0);
    assert!(dao.finance.endow(A, 100000).is_ok());
    assert!(dao.finance.endow(B, 200000).is_ok());
    dao
}

fn get_rule() -> OrgRuleParam {
    OrgRuleParam::new(60, 5, 0)
}

fn create_org() -> OrgInfo {
    let mut org = OrgInfo::new();
    org.members = vec![];
    org.param = get_rule();
    org
}

fn make_transfer_proposal(value: u64) -> Vec<u8> {
    encode_action(&Action::VaultTransfer { dest: RECEIVER, value })
}

fn create_proposal_without_storage(id: u64, cur: u64, expire: u64, call: Vec<u8>) -> Proposal {
    Proposal { org: id, call, detail: ProposalDetail::new(OWNER, cur + expire, get_rule()) }
}

fn create_new_organization(dao: &mut Module, creator: u64, total: u64) -> u64 {
    let info = create_org();
    let c = dao.counter_of();
    match dao.create_organization(creator, total, info) {
        Ok(_) => Module::counter_2_orgid(c),
        Err(_) => u64::MAX,
    }
}

#[test]
fn it_works_for_create_organization() {
    let mut dao = new_test_dao();
    for i in 1..10u64 {
        let c = dao.counter_of();
        let org_id = create_new_organization(&mut dao, i, 100 * i);
        assert_ne!(org_id, u64::MAX);
        let asset_id = dao.get_token_id_by_oid(org_id).unwrap();
        assert_eq!(dao.get_total_token_by_oid(org_id), Ok(100 * i));
        assert!(dao.deposit_to_organization(A, c, 10 + i).is_ok());
        assert_eq!(dao.get_count_members(org_id), 1);
        assert_eq!(dao.finance.vault_balance_of(org_id), Ok(10 + i));
        assert_eq!(dao.ledger.free_balance(asset_id, i), 100 * i);
        assert_eq!(dao.get_local_balance(org_id), Ok(10 + i));
    }
}

#[test]
fn it_works_for_add_member() {
    let mut dao = new_test_dao();
    let c = dao.counter_of();
    let org_id = create_new_organization(&mut dao, OWNER, 100);
    assert_ne!(org_id, u64::MAX);
    let asset_id = dao.get_token_id_by_oid(org_id).unwrap();
    assert_eq!(dao.get_total_token_by_oid(org_id), Ok(100));
    assert!(dao.deposit_to_organization(A, c, 10).is_ok());
    assert_eq!(dao.get_count_members(org_id), 1);
    assert_eq!(dao.finance.vault_balance_of(org_id), Ok(10));
    assert_eq!(dao.ledger.free_balance(asset_id, OWNER), 100);
    assert_eq!(dao.get_local_balance(org_id), Ok(10));

    // add members '1' and '2' by the owner of the organization
    assert!(dao.add_member_by_onwer(OWNER, 1, c).is_ok());
    assert_eq!(dao.get_count_members(org_id), 2);
    assert!(dao.add_member_by_onwer(OWNER, 2, c).is_ok());
    assert_eq!(dao.get_count_members(org_id), 3);
    // add members '3' and '4' by the '1' account
    assert!(dao.add_member_by_onwer(1, 3, c).is_ok());
    assert_eq!(dao.get_count_members(org_id), 4);
    assert!(dao.add_member_by_onwer(1, 4, c).is_ok());
    assert_eq!(dao.get_count_members(org_id), 5);

    // transfer the voting token from the owner; the total issuance was 100
    assert_eq!(dao.ledger.total_issuances(asset_id), 100);
    assert_eq!(dao.ledger.free_balance(asset_id, OWNER), 100);
    // transfer 10 tokens to each member
    assert!(dao.ledger.base_transfer(asset_id, OWNER, 1, 10).is_ok());
    assert!(dao.ledger.base_transfer(asset_id, OWNER, 2, 10).is_ok());
    assert!(dao.ledger.base_transfer(asset_id, OWNER, 3, 10).is_ok());
    assert!(dao.ledger.base_transfer(asset_id, OWNER, 4, 10).is_ok());

    assert_eq!(dao.ledger.free_balance(asset_id, OWNER), 60);
    assert_eq!(dao.ledger.free_balance(asset_id, 1), 10);
    assert_eq!(dao.ledger.free_balance(asset_id, 2), 10);
    assert_eq!(dao.ledger.free_balance(asset_id, 3), 10);
    assert_eq!(dao.ledger.free_balance(asset_id, 4), 10);
}

#[test]
fn it_works_for_first_dao() {
    let mut dao = new_test_dao();
    let c = dao.counter_of();
    let org_id = create_new_organization(&mut dao, OWNER, 100);
    assert_ne!(org_id, u64::MAX);
    assert!(dao.deposit_to_organization(A, c, 200).is_ok());
    assert_eq!(dao.get_count_members(org_id), 1);
    assert_eq!(dao.finance.vault_balance_of(org_id), Ok(200));

    let height = 1u64;
    // make the proposal and its id: transfer 10 from the vault
    let call = make_transfer_proposal(10);
    let tmp_proposal = create_proposal_without_storage(org_id, height, 5, call.clone());
    let proposal_id = Module::make_proposal_id(&tmp_proposal);

    assert!(dao
        .create_proposal(OWNER, c, 5, tmp_proposal.detail.sub_param, call, height)
        .is_ok());
    // the proposal sits in storage under its content identity
    assert_eq!(dao.get_proposal_by_id(&proposal_id), Ok(tmp_proposal.clone()));

    assert_eq!(dao.finance.free_balance(RECEIVER), 0);
    // vote on the proposal; 80 of 100 total supply passes the 60% rule
    assert!(dao.vote_proposal(OWNER, &proposal_id, 80, true, height).is_ok());
    // the receiver holds the transferred value and the vault shrank by it
    assert_eq!(dao.finance.free_balance(RECEIVER), 10);
    assert_eq!(dao.finance.vault_balance_of(org_id), Ok(190));
    // the proposal record is deleted and the voter's lock released
    assert_eq!(dao.get_proposal_by_id(&proposal_id), Err(Error::ProposalNotFound));
    let asset_id = dao.get_token_id_by_oid(org_id).unwrap();
    assert_eq!(dao.ledger.free_balance(asset_id, OWNER), 100);
    assert_eq!(dao.ledger.lock_balance_of(asset_id, OWNER), 0);
    assert_eq!(dao.events.last(), Some(&Event::ProposalPassed { org: org_id }));
}

#[test]
fn it_works_for_dao_of_token_balance_change() {
    let mut dao = new_test_dao();
    let c = dao.counter_of();
    let org_id = create_new_organization(&mut dao, OWNER, 100);
    assert_ne!(org_id, u64::MAX);
    assert!(dao.deposit_to_organization(A, c, 200).is_ok());
    assert_eq!(dao.get_count_members(org_id), 1);
    assert_eq!(dao.finance.vault_balance_of(org_id), Ok(200));

    let height = 1u64;
    let call = make_transfer_proposal(10);
    let tmp_proposal = create_proposal_without_storage(org_id, height, 5, call.clone());
    let proposal_id = Module::make_proposal_id(&tmp_proposal);

    assert!(dao
        .create_proposal(OWNER, c, 5, tmp_proposal.detail.sub_param, call, height)
        .is_ok());
    assert_eq!(dao.get_proposal_by_id(&proposal_id), Ok(tmp_proposal.clone()));

    // the owner holds all 100 tokens from creating the organization
    let asset_id = dao.get_token_id_by_oid(org_id).unwrap();
    assert_eq!(dao.ledger.free_balance(asset_id, OWNER), 100);
    assert_eq!(dao.finance.free_balance(RECEIVER), 0);

    // voting with 20 weight locks 20
    assert!(dao.vote_proposal(OWNER, &proposal_id, 20, true, height).is_ok());
    assert_eq!(dao.ledger.free_balance(asset_id, OWNER), 80);
    assert_eq!(dao.ledger.total_balance(asset_id, OWNER), 100);
    // voting 10 more accumulates a lock of 30
    assert!(dao.vote_proposal(OWNER, &proposal_id, 10, true, height).is_ok());
    assert_eq!(dao.ledger.free_balance(asset_id, OWNER), 70);
    assert_eq!(dao.ledger.total_balance(asset_id, OWNER), 100);
    // voting 30 more accumulates a lock of 60
    assert!(dao.vote_proposal(OWNER, &proposal_id, 30, true, height).is_ok());
    assert_eq!(dao.ledger.free_balance(asset_id, OWNER), 40);
    assert_eq!(dao.ledger.total_balance(asset_id, OWNER), 100);
    // 20 more reaches 80% yes: the proposal passes, closes, and the whole
    // lock is released
    assert!(dao.vote_proposal(OWNER, &proposal_id, 20, true, height).is_ok());
    assert_eq!(dao.ledger.free_balance(asset_id, OWNER), 100);
    assert_eq!(dao.ledger.total_balance(asset_id, OWNER), 100);

    assert_eq!(dao.finance.free_balance(RECEIVER), 10);
    assert_eq!(dao.finance.vault_balance_of(org_id), Ok(190));
}

#[test]
fn it_works_for_5_members_vote_pass() {
    let mut dao = new_test_dao();
    let c = dao.counter_of();
    let org_id = create_new_organization(&mut dao, OWNER, 100);
    let asset_id = dao.get_token_id_by_oid(org_id).unwrap();
    assert_ne!(org_id, u64::MAX);
    assert!(dao.deposit_to_organization(A, c, 200).is_ok());
    assert_eq!(dao.get_count_members(org_id), 1);
    assert_eq!(dao.finance.vault_balance_of(org_id), Ok(200));
    // add 4 members
    assert!(dao.add_member_by_onwer(OWNER, 1, c).is_ok());
    assert!(dao.add_member_by_onwer(OWNER, 2, c).is_ok());
    assert!(dao.add_member_by_onwer(OWNER, 3, c).is_ok());
    assert!(dao.add_member_by_onwer(OWNER, 4, c).is_ok());
    assert_eq!(dao.get_count_members(org_id), 5);
    // assign tokens for voting
    assert!(dao.ledger.base_transfer(asset_id, OWNER, 1, 5).is_ok());
    assert!(dao.ledger.base_transfer(asset_id, OWNER, 2, 10).is_ok());
    assert!(dao.ledger.base_transfer(asset_id, OWNER, 3, 20).is_ok());
    assert!(dao.ledger.base_transfer(asset_id, OWNER, 4, 25).is_ok());
    assert_eq!(dao.ledger.free_balance(asset_id, OWNER), 40);

    let height = 1u64;
    let call = make_transfer_proposal(30);
    let tmp_proposal = create_proposal_without_storage(org_id, height, 5, call.clone());
    let proposal_id = Module::make_proposal_id(&tmp_proposal);

    assert!(dao
        .create_proposal(OWNER, c, 5, tmp_proposal.detail.sub_param, call, height)
        .is_ok());
    assert_eq!(dao.get_proposal_by_id(&proposal_id), Ok(tmp_proposal.clone()));

    assert_eq!(dao.finance.free_balance(RECEIVER), 0);
    // everyone votes yes: 71 of 100 passes the 60% rule with no dissent
    assert!(dao.vote_proposal(OWNER, &proposal_id, 20, true, height).is_ok());
    assert!(dao.vote_proposal(1, &proposal_id, 3, true, height).is_ok());
    assert!(dao.vote_proposal(2, &proposal_id, 8, true, height).is_ok());
    assert!(dao.vote_proposal(3, &proposal_id, 20, true, height).is_ok());
    assert!(dao.vote_proposal(4, &proposal_id, 20, true, height).is_ok());

    assert_eq!(dao.finance.free_balance(RECEIVER), 30);
    assert_eq!(dao.finance.vault_balance_of(org_id), Ok(170));
}

#[test]
fn it_works_for_5_members_vote_fail() {
    let mut dao = new_test_dao();
    let c = dao.counter_of();
    let org_id = create_new_organization(&mut dao, OWNER, 100);
    let asset_id = dao.get_token_id_by_oid(org_id).unwrap();
    assert_ne!(org_id, u64::MAX);
    assert!(dao.deposit_to_organization(A, c, 200).is_ok());
    assert_eq!(dao.get_count_members(org_id), 1);
    assert_eq!(dao.finance.vault_balance_of(org_id), Ok(200));
    // add 4 members
    assert!(dao.add_member_by_onwer(OWNER, 1, c).is_ok());
    assert!(dao.add_member_by_onwer(OWNER, 2, c).is_ok());
    assert!(dao.add_member_by_onwer(OWNER, 3, c).is_ok());
    assert!(dao.add_member_by_onwer(OWNER, 4, c).is_ok());
    assert_eq!(dao.get_count_members(org_id), 5);
    // assign tokens for voting
    assert!(dao.ledger.base_transfer(asset_id, OWNER, 1, 5).is_ok());
    assert!(dao.ledger.base_transfer(asset_id, OWNER, 2, 10).is_ok());
    assert!(dao.ledger.base_transfer(asset_id, OWNER, 3, 20).is_ok());
    assert!(dao.ledger.base_transfer(asset_id, OWNER, 4, 25).is_ok());
    assert_eq!(dao.ledger.free_balance(asset_id, OWNER), 40);

    let height = 1u64;
    let call = make_transfer_proposal(30);
    let tmp_proposal = create_proposal_without_storage(org_id, height, 5, call.clone());
    let proposal_id = Module::make_proposal_id(&tmp_proposal);

    assert!(dao
        .create_proposal(OWNER, c, 5, tmp_proposal.detail.sub_param, call, height)
        .is_ok());
    assert_eq!(dao.get_proposal_by_id(&proposal_id), Ok(tmp_proposal.clone()));

    assert_eq!(dao.finance.free_balance(RECEIVER), 0);
    // one dissent of 8 exceeds the 5% ceiling: the proposal never passes
    assert!(dao.vote_proposal(OWNER, &proposal_id, 20, true, height).is_ok());
    assert!(dao.vote_proposal(1, &proposal_id, 3, true, height).is_ok());
    assert!(dao.vote_proposal(2, &proposal_id, 8, false, height).is_ok());
    assert!(dao.vote_proposal(3, &proposal_id, 20, true, height).is_ok());
    assert!(dao.vote_proposal(4, &proposal_id, 20, true, height).is_ok());

    assert_eq!(dao.finance.free_balance(RECEIVER), 0);
    assert_eq!(dao.finance.vault_balance_of(org_id), Ok(200));
    // the proposal stays open and the locks stay held
    assert!(dao.get_proposal_by_id(&proposal_id).is_ok());
    assert_eq!(dao.ledger.lock_balance_of(asset_id, OWNER), 20);
}

#[test]
fn expiry_without_quorum_refuses_and_moves_nothing() {
    // nobody votes before the height passes the expiry: the next explicit
    // close observes it, deletes the proposal, emits a refusal, and no
    // funds move
    let mut dao = new_test_dao();
    let c = dao.counter_of();
    let org_id = create_new_organization(&mut dao, OWNER, 100);
    assert!(dao.deposit_to_organization(A, c, 200).is_ok());
    let height = 1u64;
    let call = make_transfer_proposal(10);
    let tmp_proposal = create_proposal_without_storage(org_id, height, 5, call.clone());
    let proposal_id = Module::make_proposal_id(&tmp_proposal);
    assert!(dao
        .create_proposal(OWNER, c, 5, tmp_proposal.detail.sub_param, call, height)
        .is_ok());

    // past the expiry height of 6
    let late = 7u64;
    assert!(dao.veto_proposal(&proposal_id, late).is_ok());
    assert_eq!(dao.get_proposal_by_id(&proposal_id), Err(Error::ProposalNotFound));
    assert_eq!(dao.finance.vault_balance_of(org_id), Ok(200));
    assert_eq!(dao.finance.free_balance(RECEIVER), 0);
    assert_eq!(dao.events.last(), Some(&Event::ProposalRefused { org: org_id }));
}

#[test]
fn vote_after_expiry_closes_and_reports_expired() {
    let mut dao = new_test_dao();
    let c = dao.counter_of();
    let org_id = create_new_organization(&mut dao, OWNER, 100);
    assert!(dao.deposit_to_organization(A, c, 200).is_ok());
    let height = 1u64;
    let call = make_transfer_proposal(10);
    let tmp_proposal = create_proposal_without_storage(org_id, height, 5, call.clone());
    let proposal_id = Module::make_proposal_id(&tmp_proposal);
    assert!(dao
        .create_proposal(OWNER, c, 5, tmp_proposal.detail.sub_param, call, height)
        .is_ok());

    // a vote after expiry never registers: it cleans up and reports
    let late = 9u64;
    assert_eq!(
        dao.vote_proposal(OWNER, &proposal_id, 80, true, late),
        Err(Error::ProposalExpired)
    );
    assert_eq!(dao.get_proposal_by_id(&proposal_id), Err(Error::ProposalNotFound));
    assert_eq!(dao.finance.vault_balance_of(org_id), Ok(200));
    assert_eq!(dao.finance.free_balance(RECEIVER), 0);
    let asset_id = dao.get_token_id_by_oid(org_id).unwrap();
    assert_eq!(dao.ledger.lock_balance_of(asset_id, OWNER), 0);
}

#[test]
fn create_proposal_rejects_duplicates_and_bad_rules() {
    let mut dao = new_test_dao();
    let c = dao.counter_of();
    let org_id = create_new_organization(&mut dao, OWNER, 100);
    let height = 1u64;
    let call = make_transfer_proposal(10);
    assert!(dao
        .create_proposal(OWNER, c, 5, get_rule(), call.clone(), height)
        .is_ok());
    // byte-identical content before the first is closed: a duplicate
    assert_eq!(
        dao.create_proposal(OWNER, c, 5, get_rule(), call.clone(), height),
        Err(Error::ProposalDuplicate)
    );
    // a weaker sub-rule than the organization baseline is invalid
    assert_eq!(
        dao.create_proposal(OWNER, c, 5, OrgRuleParam::new(59, 5, 0), call.clone(), height),
        Err(Error::WrongRuleParam)
    );
    assert_eq!(
        dao.create_proposal(OWNER, c, 5, OrgRuleParam::new(60, 6, 0), call.clone(), height),
        Err(Error::WrongRuleParam)
    );
    // a non-member cannot create proposals
    assert_eq!(
        dao.create_proposal(55, c, 5, get_rule(), call.clone(), height),
        Err(Error::NotMemberInOrg)
    );
    assert_eq!(dao.get_count_members(org_id), 1);
}

#[test]
fn proposal_stake_is_taken_and_refunded() {
    // with a nonzero stake, creating a proposal moves the stake into the
    // organization's vault entry and closing returns it to the creator
    let mut dao = Module::new(5);
    assert!(dao.finance.endow(OWNER, 50).is_ok());
    assert!(dao.finance.endow(A, 1000).is_ok());
    let c = dao.counter_of();
    let org_id = create_new_organization(&mut dao, OWNER, 100);
    assert!(dao.deposit_to_organization(A, c, 200).is_ok());
    let height = 1u64;
    let call = make_transfer_proposal(10);
    let tmp_proposal = create_proposal_without_storage(org_id, height, 5, call.clone());
    let proposal_id = Module::make_proposal_id(&tmp_proposal);
    assert!(dao
        .create_proposal(OWNER, c, 5, tmp_proposal.detail.sub_param, call, height)
        .is_ok());
    assert_eq!(dao.finance.free_balance(OWNER), 45);
    assert_eq!(dao.finance.vault_balance_of(org_id), Ok(205));
    // the proposal passes: the vault pays 10, and the stake of 5 returns
    assert!(dao.vote_proposal(OWNER, &proposal_id, 80, true, height).is_ok());
    assert_eq!(dao.finance.free_balance(OWNER), 50);
    assert_eq!(dao.finance.vault_balance_of(org_id), Ok(190));
    assert_eq!(dao.finance.free_balance(RECEIVER), 10);
}

#[test]
fn insufficient_stake_blocks_creation() {
    let mut dao = Module::new(5);
    assert!(dao.finance.endow(A, 1000).is_ok());
    let c = dao.counter_of();
    let org_id = create_new_organization(&mut dao, OWNER, 100);
    let call = make_transfer_proposal(10);
    // the creator holds no base currency to stake
    assert_eq!(
        dao.create_proposal(OWNER, c, 5, get_rule(), call, 1),
        Err(Error::BalanceLow)
    );
    assert_eq!(dao.count_of_proposals(), 0);
    let _ = org_id;
}

#[test]
fn exhausted_counter_reports_storage_overflow() {
    let mut dao = Module::new(0);
    dao.counter = u32::MAX;
    let org = create_org();
    assert_eq!(dao.storage_new_organization(org), Err(Error::StorageOverflow));
    let info = create_org();
    assert_eq!(dao.create_organization(OWNER, 100, info), Err(Error::StorageOverflow));
}

#[test]
fn unknown_organization_is_reported() {
    let mut dao = new_test_dao();
    assert_eq!(dao.get_orginfo_by_id(12345), Err(Error::OrganizationNotFound));
    assert_eq!(dao.deposit_to_organization(A, 3, 10), Err(Error::OrganizationNotFound));
    assert_eq!(
        dao.on_add_member_and_assigned_token(OWNER, 1, 3, 0),
        Err(Error::OrganizationNotFound)
    );
    assert_eq!(
        dao.create_proposal(OWNER, 3, 5, get_rule(), make_transfer_proposal(1), 1),
        Err(Error::OrganizationNotFound)
    );
}

#[test]
fn passing_close_emits_finalized_unlock_and_passed() {
    let mut dao = new_test_dao();
    let c = dao.counter_of();
    let org_id = create_new_organization(&mut dao, OWNER, 100);
    assert!(dao.deposit_to_organization(A, c, 200).is_ok());
    let height = 1u64;
    let call = make_transfer_proposal(10);
    let tmp_proposal = create_proposal_without_storage(org_id, height, 5, call.clone());
    let proposal_id = Module::make_proposal_id(&tmp_proposal);
    assert!(dao
        .create_proposal(OWNER, c, 5, tmp_proposal.detail.sub_param, call, height)
        .is_ok());
    let asset_id = dao.get_token_id_by_oid(org_id).unwrap();
    let before = dao.events.len();
    assert!(dao.vote_proposal(OWNER, &proposal_id, 80, true, height).is_ok());
    // the vote locked, the action ran, the lock was released, and the
    // proposal passed — in that order
    assert_eq!(
        &dao.events[before..],
        &[
            Event::Locked { asset: asset_id, who: OWNER, amount: 80 },
            Event::ProposalFinalized { org: org_id, success: true },
            Event::UnLocked { asset: asset_id, who: OWNER, amount: 80 },
            Event::ProposalPassed { org: org_id },
        ]
    );
}

#[test]
fn ledger_calls_emit_their_events() {
    let mut dao = Module::new(0);
    let asset = dao.create_new_token(1, 100);
    assert!(dao.base_mint(asset, 1, 10).is_ok());
    assert!(dao.base_burn(asset, 1, 5).is_ok());
    assert!(dao.base_transfer(asset, 1, 1, 7).is_ok());
    assert!(dao.base_lock(asset, 1, 20).is_ok());
    assert!(dao.base_unlock(asset, 1, 20).is_ok());
    // a failing call emits nothing
    assert_eq!(dao.base_mint(asset, 2, 1), Err(Error::NoPermission));
    assert_eq!(
        dao.events,
        vec![
            Event::Issued { asset, owner: 1, total: 100 },
            Event::Minted { asset, issuer: 1, amount: 10 },
            Event::Burned { asset, issuer: 1, amount: 5 },
            Event::Transferred { asset, from: 1, to: 1, amount: 7 },
            Event::Locked { asset, who: 1, amount: 20 },
            Event::UnLocked { asset, who: 1, amount: 20 },
        ]
    );
    assert_eq!(dao.ledger.total_issuances(asset), 105);
    assert_eq!(dao.ledger.free_balance(asset, 1), 105);
}

#[test]
fn vote_rejects_non_members_and_overdrawn_weight() {
    let mut dao = new_test_dao();
    let c = dao.counter_of();
    let org_id = create_new_organization(&mut dao, OWNER, 100);
    assert!(dao.deposit_to_organization(A, c, 200).is_ok());
    let height = 1u64;
    let call = make_transfer_proposal(10);
    let tmp_proposal = create_proposal_without_storage(org_id, height, 5, call.clone());
    let proposal_id = Module::make_proposal_id(&tmp_proposal);
    assert!(dao
        .create_proposal(OWNER, c, 5, tmp_proposal.detail.sub_param, call, height)
        .is_ok());

    assert_eq!(
        dao.vote_proposal(55, &proposal_id, 10, true, height),
        Err(Error::NotMemberInOrg)
    );
    // weight beyond the voter's free balance cannot lock
    assert_eq!(
        dao.vote_proposal(OWNER, &proposal_id, 101, true, height),
        Err(Error::BalanceLow)
    );
    let absent = vec![1u8, 2, 3];
    assert_eq!(
        dao.vote_proposal(OWNER, &absent, 10, true, height),
        Err(Error::ProposalNotFound)
    );
}
