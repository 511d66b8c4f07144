use idavoll::codec::{encode_action, Action};
use idavoll::dao::Module;
use idavoll::errors::Error;
use idavoll::organization::{Proposal, ProposalDetail};
use idavoll::rules::OrgRuleParam;

const OWNER: u64 = 88;
const RECEIVER: u64 = 77;
const A: u64 = 100;
const ORGID: u64 = 1000;

/// Action bytes for a vault transfer the dispatcher can perform.
fn make_transfer_proposal(value: u64) -> Vec<u8> {
    encode_action(&Action::VaultTransfer { dest: RECEIVER, value })
}

/// Action bytes for a vault transfer far beyond any vault funded here, so
/// that its execution fails and is only recorded, never surfaced.
fn make_transfer_fail_proposal(value: u64) -> Vec<u8> {
    encode_action(&Action::VaultTransfer { dest: RECEIVER, value: value + 1_000_000 })
}

fn create_proposal(oid: u64, value: u64, owner: u64) -> Proposal {
    let sub_param = OrgRuleParam::new(60, 5, 0);
    Proposal {
        org: oid,
        call: make_transfer_fail_proposal(value),
        detail: ProposalDetail::new(owner, 5, sub_param),
    }
}

fn create_proposal2(call: Vec<u8>) -> Proposal {
    let sub_param = OrgRuleParam::new(60, 5, 0);
    Proposal { org: ORGID, call, detail: ProposalDetail::new(OWNER, 5, sub_param) }
}

fn create_proposal3(id: u64, call: Vec<u8>) -> Proposal {
    let sub_param = OrgRuleParam::new(60, 5, 0);
    Proposal { org: id, call, detail: ProposalDetail::new(OWNER, 5, sub_param) }
}

#[test]
fn base_proposal_01_should_work() {
    let mut dao = Module::new(1);
    let org_id = Module::counter_2_orgid(0);
    let proposal = create_proposal(org_id, 20, OWNER);
    assert!(dao.base_create_proposal(org_id, proposal.clone()).is_ok());
    // staging an identical proposal again is rejected
    assert_eq!(
        dao.base_create_proposal(org_id, proposal.clone()),
        Err(Error::ProposalDuplicate)
    );
    let proposal_id = Module::make_proposal_id(&proposal);
    assert_eq!(dao.get_proposal_by_id(&proposal_id), Ok(proposal.clone()));
    let pid2 = vec![0u8; 4];
    assert_eq!(dao.get_proposal_by_id(&pid2), Err(Error::ProposalNotFound));
    // remove proposal
    dao.remove_proposal_by_id(&proposal_id);
    assert_eq!(dao.get_proposal_by_id(&proposal_id), Err(Error::ProposalNotFound));
}

#[test]
fn base_proposal_02_should_work() {
    let mut dao = Module::new(1);
    for i in 0..10u32 {
        let org_id = Module::counter_2_orgid(i);
        let proposal = create_proposal(org_id, i as u64 * 100, OWNER);
        assert!(dao.base_create_proposal(org_id, proposal.clone()).is_ok());
        let proposal_id = Module::make_proposal_id(&proposal);
        assert_eq!(dao.get_proposal_by_id(&proposal_id), Ok(proposal.clone()));
        assert_eq!(proposal.detail.creator(), OWNER);
        let height = i as u64;
        if height > 5 {
            assert_eq!(proposal.detail.is_expire(height), true);
        } else {
            assert_eq!(proposal.detail.is_expire(height), false);
        }
    }
    assert_eq!(dao.count_of_proposals(), 10);
}

#[test]
fn base_proposal_03_should_work() {
    // vote on a single free-standing proposal; passing takes more than 60%
    // 'yes' weight and at most 5% 'no' weight of the total supply
    let mut dao = Module::new(1);
    let _asset_id = dao.create_new_token(100, 100);
    let mut proposal = create_proposal(100, 10, OWNER);

    // decision 1
    for i in 0..10 {
        proposal.detail.vote(i, 7, true);
    }
    for i in 10..15 {
        proposal.detail.vote(i, 5, false);
    }
    assert_eq!(proposal.detail.summary(), (70, 25));
    assert_eq!(proposal.detail.pass(100), false);

    // decision 2
    proposal.detail.votes = Vec::new();
    for i in 0..10 {
        proposal.detail.vote(i, 7, true);
    }
    for i in 10..13 {
        proposal.detail.vote(i, 1, false);
    }
    assert_eq!(proposal.detail.summary(), (70, 3));
    assert_eq!(proposal.detail.pass(100), true);

    // decision 3
    proposal.detail.votes = Vec::new();
    for i in 0..10 {
        proposal.detail.vote(i, 8, true);
    }
    for i in 10..15 {
        proposal.detail.vote(i, 1, false);
    }
    assert_eq!(proposal.detail.summary(), (80, 5));
    assert_eq!(proposal.detail.pass(100), true);

    // decision 4
    proposal.detail.votes = Vec::new();
    for i in 0..10 {
        proposal.detail.vote(i, 6, true);
    }
    for i in 10..12 {
        proposal.detail.vote(i, 1, false);
    }
    assert_eq!(proposal.detail.summary(), (60, 2));
    assert_eq!(proposal.detail.pass(100), false);

    // decision 5
    proposal.detail.votes = Vec::new();
    for i in 0..10 {
        proposal.detail.vote(i, 7, true);
    }
    for i in 10..16 {
        proposal.detail.vote(i, 1, false);
    }
    assert_eq!(proposal.detail.summary(), (70, 6));
    assert_eq!(proposal.detail.pass(100), false);

    // decision 6
    proposal.detail.votes = Vec::new();
    for i in 0..10 {
        proposal.detail.vote(i, 6, true);
    }
    for i in 10..15 {
        proposal.detail.vote(i, 1, false);
    }
    assert_eq!(proposal.detail.summary(), (60, 5));
    assert_eq!(proposal.detail.pass(100), false);
}

#[test]
fn base_dispatch_01_should_work() {
    let mut dao = Module::new(1);
    assert!(dao.finance.endow(A, 100000).is_ok());
    let proposal = create_proposal2(make_transfer_fail_proposal(10));
    assert!(dao.base_create_proposal(ORGID, proposal.clone()).is_ok());
    assert!(dao.reserve_to_vault(ORGID, A, 30).is_ok());
    assert_eq!(dao.get_local_balance(ORGID), Ok(30));

    // the real funds sit in the custodial pot, not under the organization id
    assert_eq!(dao.finance.free_balance(ORGID), 0);
    assert_eq!(dao.get_local_balance(RECEIVER), Err(Error::UnknownOwnerID));

    // dispatching an action the vault cannot cover reports failure in an
    // event and moves nothing
    let proposal_id = Module::make_proposal_id(&proposal);
    assert!(dao.base_call_dispatch(&proposal_id, &proposal).is_ok());
    assert_eq!(dao.get_local_balance(RECEIVER), Err(Error::UnknownOwnerID));
    assert_eq!(dao.get_local_balance(ORGID), Ok(30));
    assert_eq!(dao.finance.free_balance(ORGID), 0);
    assert_eq!(dao.finance.free_balance(RECEIVER), 0);
}

#[test]
fn base_dispatch_02_should_work() {
    let mut dao = Module::new(1);
    assert!(dao.finance.endow(A, 100000).is_ok());
    let proposal = create_proposal2(make_transfer_proposal(10));
    assert!(dao.base_create_proposal(ORGID, proposal.clone()).is_ok());
    assert!(dao.reserve_to_vault(ORGID, A, 30).is_ok());
    assert_eq!(dao.get_local_balance(ORGID), Ok(30));
    assert_eq!(dao.finance.free_balance(ORGID), 0);

    // transfer from the organization's vault succeeds
    let proposal_id = Module::make_proposal_id(&proposal);
    assert!(dao.base_call_dispatch(&proposal_id, &proposal).is_ok());
    assert_eq!(dao.get_local_balance(ORGID), Ok(20));
    assert_eq!(dao.finance.free_balance(RECEIVER), 10);
    // only organizations' balances live in the vault table
    assert_eq!(dao.get_local_balance(RECEIVER), Err(Error::UnknownOwnerID));
}

#[test]
fn base_dispatch_03_should_work() {
    let mut dao = Module::new(1);
    assert!(dao.finance.endow(A, 100000).is_ok());
    let mut sum = 0u64;
    for i in 10..100u64 {
        let proposal = create_proposal3(i, make_transfer_proposal(i));
        assert!(dao.base_create_proposal(i, proposal.clone()).is_ok());
        assert!(dao.reserve_to_vault(i, A, i).is_ok());
        assert_eq!(dao.get_local_balance(i), Ok(i));

        sum += i;
        let proposal_id = Module::make_proposal_id(&proposal);
        assert!(dao.base_call_dispatch(&proposal_id, &proposal).is_ok());
        assert_eq!(dao.finance.free_balance(RECEIVER), sum);
        // the receiver gains no vault entry — until the loop passes the
        // organization id that coincides with the receiver's account id,
        // whose own (drained) entry then exists
        if i < RECEIVER {
            assert_eq!(dao.get_local_balance(RECEIVER), Err(Error::UnknownOwnerID));
        } else {
            assert_eq!(dao.get_local_balance(RECEIVER), Ok(0));
        }
    }
}

#[test]
fn repeated_votes_accumulate_toward_latest_direction() {
    // a voter's influence is their total locked stake, counted entirely
    // toward whichever direction they most recently chose
    let mut detail = ProposalDetail::new(OWNER, 5, OrgRuleParam::new(60, 5, 0));
    detail.vote(1, 10, true);
    assert_eq!(detail.summary(), (10, 0));
    detail.vote(1, 5, false);
    assert_eq!(detail.summary(), (0, 15));
    detail.vote(1, 2, true);
    assert_eq!(detail.summary(), (17, 0));
    // a second voter tallies independently
    detail.vote(2, 4, false);
    assert_eq!(detail.summary(), (17, 4));
}

#[test]
fn vote_weights_saturate_instead_of_overflowing() {
    let mut detail = ProposalDetail::new(OWNER, 5, OrgRuleParam::new(60, 5, 0));
    detail.vote(1, u64::MAX, true);
    detail.vote(1, 5, true);
    assert_eq!(detail.summary(), (u64::MAX, 0));
    detail.vote(2, u64::MAX, true);
    assert_eq!(detail.summary(), (u64::MAX, 0));
}

#[test]
fn dispatch_rejects_undecodable_action() {
    let mut dao = Module::new(1);
    let proposal = create_proposal2(vec![9u8, 9, 9]);
    let proposal_id = Module::make_proposal_id(&proposal);
    assert_eq!(
        dao.base_call_dispatch(&proposal_id, &proposal),
        Err(Error::ProposalDecodeFailed)
    );
}

#[test]
fn action_codec_round_trip() {
    // exact little-endian layout: one tag byte, destination, value
    let small = Action::VaultTransfer { dest: 3, value: 259 };
    assert_eq!(
        encode_action(&small),
        vec![1u8, 3, 0, 0, 0, 0, 0, 0, 0, 3, 1, 0, 0, 0, 0, 0, 0]
    );
    let a = Action::VaultTransfer { dest: RECEIVER, value: 0x1234_5678_9abc_def0 };
    let bytes = encode_action(&a);
    assert_eq!(bytes.len(), 17);
    assert_eq!(idavoll::codec::decode_action(&bytes), Some(a));
    // junk of the wrong length or tag decodes to nothing
    assert_eq!(idavoll::codec::decode_action(&vec![1u8; 16]), None);
    assert_eq!(idavoll::codec::decode_action(&vec![0u8; 17]), None);
}

#[test]
fn proposal_identity_is_content_determined() {
    let p1 = create_proposal2(make_transfer_proposal(10));
    let p2 = create_proposal2(make_transfer_proposal(10));
    let p3 = create_proposal2(make_transfer_proposal(11));
    assert_eq!(Module::make_proposal_id(&p1), Module::make_proposal_id(&p2));
    assert_ne!(Module::make_proposal_id(&p1), Module::make_proposal_id(&p3));
}
