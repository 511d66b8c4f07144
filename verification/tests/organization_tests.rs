use idavoll::dao::Module;
use idavoll::errors::Error;
use idavoll::organization::OrgInfo;
use idavoll::rules::OrgRuleParam;

const OWNER: u64 = 88;

fn create_org(members: Vec<u64>) -> OrgInfo {
    let mut org = OrgInfo::new();
    org.members = members;
    org.param = OrgRuleParam::new(60, 5, 0);
    org
}

#[test]
fn base_orgid_function_should_work() {
    assert_ne!(Module::counter_2_orgid(100), Module::counter_2_orgid(101));
    assert_ne!(Module::counter_2_orgid(0), Module::counter_2_orgid(1));
    assert_eq!(Module::counter_2_orgid(7), Module::counter_2_orgid(7));
}

#[test]
fn base_organization_01_should_work() {
    let mut dao = Module::new(1);
    let mut org = create_org(vec![OWNER, 1, 2, 3]);
    let asset_id = dao.create_new_token(OWNER, 100);
    assert_eq!(asset_id, 0);
    org.set_asset_id(asset_id);
    assert!(dao.storage_new_organization(org.clone()).is_ok());
    assert_eq!(dao.get_orginfo_by_id(Module::counter_2_orgid(0)), Ok(org.clone()));

    assert_eq!(dao.is_member(Module::counter_2_orgid(0), &OWNER), true);
    assert_eq!(dao.is_member(Module::counter_2_orgid(0), &1), true);
    assert_eq!(dao.is_member(Module::counter_2_orgid(0), &9), false);

    for _i in 0..100 {
        let org = create_org(vec![OWNER, 1, 2, 3]);
        assert!(dao.storage_new_organization(org.clone()).is_ok());
    }
    assert_eq!(dao.count_of_organizations(), 100 + 1);
}

#[test]
fn base_organization_02_should_work() {
    let mut dao = Module::new(1);
    let mut org = create_org(vec![OWNER, 1, 2, 3]);
    let asset_id = dao.create_new_token(OWNER, 100);
    assert_eq!(asset_id, 0);
    org.set_asset_id(asset_id);
    let org_id = Module::counter_2_orgid(0);
    assert!(dao.storage_new_organization(org.clone()).is_ok());
    assert_eq!(dao.get_orginfo_by_id(org_id), Ok(org.clone()));
    assert_eq!(dao.get_count_members(org_id), 4);
    // add members to the organization
    assert_eq!(dao.on_add_member_and_assigned_token(22, 2, 0, 0), Err(Error::NotMemberInOrg));
    assert_eq!(dao.on_add_member_and_assigned_token(1, 2, 0, 0), Err(Error::MemberDuplicate));
    assert_eq!(dao.on_add_member_and_assigned_token(1, 2, 0, 22), Err(Error::TokenBalanceLow));

    assert!(dao.on_add_member_and_assigned_token(OWNER, 22, 0, 22).is_ok());
    assert_eq!(dao.ledger.free_balance(asset_id, OWNER), 78);
    assert_eq!(dao.ledger.free_balance(asset_id, 22), 22);
    assert_eq!(dao.get_count_members(org_id), 5);

    assert!(dao.on_add_member_and_assigned_token(OWNER, 23, 0, 8).is_ok());
    assert_eq!(dao.get_count_members(org_id), 6);
    assert_eq!(dao.ledger.free_balance(asset_id, OWNER), 70);
    assert_eq!(dao.ledger.free_balance(asset_id, 23), 8);
}

#[test]
fn member_duplicate_leaves_balances_unchanged() {
    // adding an existing member fails without moving any tokens, even with
    // an assignment amount attached
    let mut dao = Module::new(1);
    let mut org = create_org(vec![OWNER]);
    let asset_id = dao.create_new_token(OWNER, 100);
    org.set_asset_id(asset_id);
    assert!(dao.storage_new_organization(org).is_ok());
    let org_id = Module::counter_2_orgid(0);
    assert!(dao.on_add_member_and_assigned_token(OWNER, 5, 0, 22).is_ok());
    assert_eq!(dao.ledger.free_balance(asset_id, OWNER), 78);
    assert_eq!(dao.ledger.free_balance(asset_id, 5), 22);
    assert_eq!(dao.get_count_members(org_id), 2);
    assert_eq!(dao.on_add_member_and_assigned_token(OWNER, 5, 0, 10), Err(Error::MemberDuplicate));
    assert_eq!(dao.ledger.free_balance(asset_id, OWNER), 78);
    assert_eq!(dao.ledger.free_balance(asset_id, 5), 22);
    assert_eq!(dao.get_count_members(org_id), 2);
}

#[test]
fn base_rule_param_should_work() {
    let mut param = OrgRuleParam::default();
    // passed by 'min_affirmative', 'max_dissenting' and 'abstention'
    param.min_affirmative = 70;
    param.max_dissenting = 0;
    param.abstention = 0;
    assert_eq!(param.is_pass(69, 0, 0, 100), false);
    assert_eq!(param.is_pass(70, 0, 0, 100), false);
    assert_eq!(param.is_pass(71, 0, 0, 100), true);
    assert_eq!(param.is_pass(69, 10, 10, 100), false);
    assert_eq!(param.is_pass(70, 10, 10, 100), false);
    assert_eq!(param.is_pass(71, 10, 10, 100), true);

    param.min_affirmative = 70;
    param.max_dissenting = 10;
    param.abstention = 0;
    assert_eq!(param.is_pass(69, 10, 1, 100), false);
    assert_eq!(param.is_pass(70, 10, 1, 100), false);
    assert_eq!(param.is_pass(71, 10, 1, 100), true);
    assert_eq!(param.is_pass(69, 9, 1, 100), false);
    assert_eq!(param.is_pass(70, 10, 1, 100), false);
    assert_eq!(param.is_pass(71, 11, 1, 100), false);
    assert_eq!(param.is_pass(71, 9, 1, 100), true);
    assert_eq!(param.is_pass(71, 10, 1, 100), true);
    assert_eq!(param.is_pass(71, 9, 10, 100), true);
    assert_eq!(param.is_pass(71, 10, 10, 100), true);

    param.min_affirmative = 70;
    param.max_dissenting = 10;
    param.abstention = 3;
    assert_eq!(param.is_pass(69, 10, 2, 100), false);
    assert_eq!(param.is_pass(70, 10, 3, 100), false);
    assert_eq!(param.is_pass(71, 10, 4, 100), false);
    assert_eq!(param.is_pass(71, 9, 2, 100), true);
    assert_eq!(param.is_pass(71, 9, 3, 100), true);
    assert_eq!(param.is_pass(71, 9, 4, 100), false);

    // sub param
    param.min_affirmative = 70;
    param.max_dissenting = 10;
    param.abstention = 3;
    let mut sub = OrgRuleParam::default();
    sub.min_affirmative = 70;
    sub.max_dissenting = 10;
    sub.abstention = 3;
    assert_eq!(param.inherit_valid(sub.clone()), true);  // same as the param

    sub.min_affirmative = 69;
    sub.max_dissenting = 10;
    sub.abstention = 3;
    assert_eq!(param.inherit_valid(sub.clone()), false);
    sub.min_affirmative = 71;
    sub.max_dissenting = 10;
    sub.abstention = 3;
    assert_eq!(param.inherit_valid(sub.clone()), true);

    sub.min_affirmative = 70;
    sub.max_dissenting = 9;
    sub.abstention = 3;
    assert_eq!(param.inherit_valid(sub.clone()), true);
    sub.min_affirmative = 70;
    sub.max_dissenting = 11;
    sub.abstention = 3;
    assert_eq!(param.inherit_valid(sub.clone()), false);

    sub.min_affirmative = 70;
    sub.max_dissenting = 10;
    sub.abstention = 2;
    assert_eq!(param.inherit_valid(sub.clone()), true);
    sub.min_affirmative = 70;
    sub.max_dissenting = 10;
    sub.abstention = 4;
    assert_eq!(param.inherit_valid(sub.clone()), false);
}

#[test]
fn sort_orders_members_and_keeps_them() {
    let mut org = create_org(vec![9, 3, 88, 1, 42]);
    org.sort();
    assert_eq!(org.members, vec![1, 3, 9, 42, 88]);
    let mut empty = create_org(vec![]);
    empty.sort();
    assert_eq!(empty.members, Vec::<u64>::new());
}

#[test]
fn percent_thresholds_saturate_at_one_hundred() {
    let param = OrgRuleParam::new(200, 0, 0);
    // a threshold above 100 percent behaves as 100 percent
    assert_eq!(param.is_pass(100, 0, 0, 100), false);
    let strict = OrgRuleParam::new(100, 0, 0);
    assert_eq!(strict.is_pass(100, 0, 0, 100), false);
    assert_eq!(strict.is_pass(100, 0, 0, 99), true);
}
