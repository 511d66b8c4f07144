//! The assembled core: organization registry, proposal engine and voting
//! engine over the token ledger and the vault. One `Module` value holds the
//! whole state; every entry point takes the authenticated caller and, where
//! expiry matters, the current height, and appends its domain events to the
//! event log.

use vstd::prelude::*;
use crate::{AccountId, AssetId, Balance, BlockNumber, OrgCount};
use crate::codec::{
    action_decoded, bytes_eq, decode_action, proposal_id_bytes, proposal_id_parts,
    proposal_id_spec, Action,
};
use crate::organization::clone_bytes;
use crate::errors::Error;
use crate::finance::{Finance, VAULT_ACCOUNT};
use crate::organization::{tally, OrgInfo, Proposal, ProposalDetail, VoteRecord};
use crate::rules::{rule_inherit_valid, rule_pass, OrgRuleParam};
use crate::token::{lock_tr, unlock_easy_tr, TokenLedger};

verus! {

/// Base from which organization ids are derived: a fixed system constant
/// plus the counter value, pure and collision-free.
pub const ORG_ACCOUNT_BASE: AccountId = 0x6f72_6761_0000_0000;

/// A domain event, appended to the log by every mutating call.
#[derive(Clone, Copy, PartialEq, Eq, Structural, Debug)]
pub enum Event {
    /// A new asset class was issued.
    Issued { asset: AssetId, owner: AccountId, total: Balance },
    /// Free balance moved between two accounts.
    Transferred { asset: AssetId, from: AccountId, to: AccountId, amount: Balance },
    /// The supply grew by a mint.
    Minted { asset: AssetId, issuer: AccountId, amount: Balance },
    /// The supply shrank by a burn.
    Burned { asset: AssetId, issuer: AccountId, amount: Balance },
    /// Free balance was frozen for voting.
    Locked { asset: AssetId, who: AccountId, amount: Balance },
    /// Frozen balance was released.
    UnLocked { asset: AssetId, who: AccountId, amount: Balance },
    /// An organization was created under the given id and counter value.
    OrganizationCreated { org: AccountId, number: OrgCount },
    /// A proposal was staged for the organization by the creator.
    ProposalCreated { org: AccountId, creator: AccountId },
    /// A passed proposal's action was executed, with the given outcome.
    ProposalFinalized { org: AccountId, success: bool },
    /// A proposal passed and was closed.
    ProposalPassed { org: AccountId },
    /// A proposal expired without passing and was closed.
    ProposalRefused { org: AccountId },
}

/// One row of the organization registry.
pub struct OrgEntry {
    pub oid: AccountId,
    pub info: OrgInfo,
}

/// One row of the proposal store, keyed by the creation-time identity.
pub struct ProposalEntry {
    pub id: Vec<u8>,
    pub proposal: Proposal,
}

/// Last-match lookup of an organization.
pub open spec fn org_at(s: Seq<OrgEntry>, oid: AccountId) -> Option<OrgInfo>
    decreases s.len(),
{
    if s.len() == 0 {
        None
    } else if s.last().oid == oid {
        Some(s.last().info)
    } else {
        org_at(s.drop_last(), oid)
    }
}

pub open spec fn orgs_unique(s: Seq<OrgEntry>) -> bool {
    forall|i: int, j: int| 0 <= i < j < s.len() ==> (#[trigger] s[i]).oid != (#[trigger] s[j]).oid
}

/// Last-match lookup of a proposal by identity bytes.
pub open spec fn prop_at(s: Seq<ProposalEntry>, id: Seq<u8>) -> Option<Proposal>
    decreases s.len(),
{
    if s.len() == 0 {
        None
    } else if s.last().id@ == id {
        Some(s.last().proposal)
    } else {
        prop_at(s.drop_last(), id)
    }
}

pub open spec fn props_unique(s: Seq<ProposalEntry>) -> bool {
    forall|i: int, j: int| 0 <= i < j < s.len() ==> (#[trigger] s[i]).id@ != (#[trigger] s[j]).id@
}

pub proof fn lemma_org_at_index(s: Seq<OrgEntry>, i: int)
    requires
        orgs_unique(s),
        0 <= i < s.len(),
    ensures
        org_at(s, s[i].oid) == Some(s[i].info),
    decreases s.len(),
{
    if i < s.len() - 1 {
        assert(orgs_unique(s.drop_last())) by {
            assert(forall|x: int, y: int|
                0 <= x < y < s.drop_last().len() ==> s.drop_last()[x] == s[x] && s.drop_last()[y]
                    == s[y]);
        }
        lemma_org_at_index(s.drop_last(), i);
    }
}

pub proof fn lemma_org_at_absent(s: Seq<OrgEntry>, oid: AccountId)
    requires
        forall|i: int| 0 <= i < s.len() ==> (#[trigger] s[i]).oid != oid,
    ensures
        org_at(s, oid) is None,
    decreases s.len(),
{
    if s.len() > 0 {
        lemma_org_at_absent(s.drop_last(), oid);
    }
}

pub proof fn lemma_org_at_update(s: Seq<OrgEntry>, i: int, e: OrgEntry)
    requires
        orgs_unique(s),
        0 <= i < s.len(),
        e.oid == s[i].oid,
    ensures
        orgs_unique(s.update(i, e)),
        forall|o: AccountId|
            #[trigger] org_at(s.update(i, e), o) == if o == e.oid {
                Some(e.info)
            } else {
                org_at(s, o)
            },
    decreases s.len(),
{
    let t = s.update(i, e);
    assert(orgs_unique(t)) by {
        assert(forall|x: int| 0 <= x < t.len() && x != i ==> t[x] == s[x]);
    }
    if i == s.len() - 1 {
        assert(t.drop_last() =~= s.drop_last());
        assert(t.last() == e);
    } else {
        assert(orgs_unique(s.drop_last())) by {
            assert(forall|x: int, y: int|
                0 <= x < y < s.drop_last().len() ==> s.drop_last()[x] == s[x] && s.drop_last()[y]
                    == s[y]);
        }
        assert(t.drop_last() =~= s.drop_last().update(i, e));
        lemma_org_at_update(s.drop_last(), i, e);
        assert forall|o: AccountId|
            #[trigger] org_at(t, o) == if o == e.oid {
                Some(e.info)
            } else {
                org_at(s, o)
            } by {
            assert(t.last() == s.last());
            assert(org_at(t.drop_last(), o) == org_at(s.drop_last().update(i, e), o));
            if o == e.oid {
                assert(s[i].oid != s.last().oid);
                assert(org_at(s.drop_last().update(i, e), o) == Some(e.info));
            } else {
                assert(org_at(s.drop_last().update(i, e), o) == org_at(s.drop_last(), o));
            }
        }
    }
}

pub proof fn lemma_org_at_push(s: Seq<OrgEntry>, e: OrgEntry)
    requires
        orgs_unique(s),
        forall|i: int| 0 <= i < s.len() ==> (#[trigger] s[i]).oid != e.oid,
    ensures
        orgs_unique(s.push(e)),
        forall|o: AccountId|
            #[trigger] org_at(s.push(e), o) == if o == e.oid {
                Some(e.info)
            } else {
                org_at(s, o)
            },
{
    let t = s.push(e);
    assert(orgs_unique(t)) by {
        assert(forall|x: int| 0 <= x < s.len() ==> t[x] == s[x]);
        assert(t[t.len() - 1] == e);
    }
    assert(t.drop_last() =~= s);
    assert(t.last() == e);
}

pub proof fn lemma_prop_at_index(s: Seq<ProposalEntry>, i: int)
    requires
        props_unique(s),
        0 <= i < s.len(),
    ensures
        prop_at(s, s[i].id@) == Some(s[i].proposal),
    decreases s.len(),
{
    if i < s.len() - 1 {
        assert(props_unique(s.drop_last())) by {
            assert(forall|x: int, y: int|
                0 <= x < y < s.drop_last().len() ==> s.drop_last()[x] == s[x] && s.drop_last()[y]
                    == s[y]);
        }
        lemma_prop_at_index(s.drop_last(), i);
    }
}

pub proof fn lemma_prop_at_absent(s: Seq<ProposalEntry>, id: Seq<u8>)
    requires
        forall|i: int| 0 <= i < s.len() ==> (#[trigger] s[i]).id@ != id,
    ensures
        prop_at(s, id) is None,
    decreases s.len(),
{
    if s.len() > 0 {
        lemma_prop_at_absent(s.drop_last(), id);
    }
}

pub proof fn lemma_prop_at_update(s: Seq<ProposalEntry>, i: int, e: ProposalEntry)
    requires
        props_unique(s),
        0 <= i < s.len(),
        e.id@ == s[i].id@,
    ensures
        props_unique(s.update(i, e)),
        forall|x: Seq<u8>|
            #[trigger] prop_at(s.update(i, e), x) == if x == e.id@ {
                Some(e.proposal)
            } else {
                prop_at(s, x)
            },
    decreases s.len(),
{
    let t = s.update(i, e);
    assert(props_unique(t)) by {
        assert(forall|x: int| 0 <= x < t.len() && x != i ==> t[x] == s[x]);
    }
    if i == s.len() - 1 {
        assert(t.drop_last() =~= s.drop_last());
        assert(t.last() == e);
    } else {
        assert(props_unique(s.drop_last())) by {
            assert(forall|x: int, y: int|
                0 <= x < y < s.drop_last().len() ==> s.drop_last()[x] == s[x] && s.drop_last()[y]
                    == s[y]);
        }
        assert(t.drop_last() =~= s.drop_last().update(i, e));
        lemma_prop_at_update(s.drop_last(), i, e);
        assert forall|x: Seq<u8>|
            #[trigger] prop_at(t, x) == if x == e.id@ {
                Some(e.proposal)
            } else {
                prop_at(s, x)
            } by {
            assert(t.last() == s.last());
            assert(prop_at(t.drop_last(), x) == prop_at(s.drop_last().update(i, e), x));
            if x == e.id@ {
                assert(s[i].id@ != s.last().id@);
                assert(prop_at(s.drop_last().update(i, e), x) == Some(e.proposal));
            } else {
                assert(prop_at(s.drop_last().update(i, e), x) == prop_at(s.drop_last(), x));
            }
        }
    }
}

pub proof fn lemma_prop_at_push(s: Seq<ProposalEntry>, e: ProposalEntry)
    requires
        props_unique(s),
        forall|i: int| 0 <= i < s.len() ==> (#[trigger] s[i]).id@ != e.id@,
    ensures
        props_unique(s.push(e)),
        forall|x: Seq<u8>|
            #[trigger] prop_at(s.push(e), x) == if x == e.id@ {
                Some(e.proposal)
            } else {
                prop_at(s, x)
            },
{
    let t = s.push(e);
    assert(props_unique(t)) by {
        assert(forall|x: int| 0 <= x < s.len() ==> t[x] == s[x]);
        assert(t[t.len() - 1] == e);
    }
    assert(t.drop_last() =~= s);
    assert(t.last() == e);
}

/// Removing index `i` keeps the other keys' lookups and drops row `i`'s.
pub proof fn lemma_prop_at_remove(s: Seq<ProposalEntry>, i: int)
    requires
        props_unique(s),
        0 <= i < s.len(),
    ensures
        props_unique(s.remove(i)),
        forall|x: Seq<u8>|
            #[trigger] prop_at(s.remove(i), x) == if x == s[i].id@ {
                None::<Proposal>
            } else {
                prop_at(s, x)
            },
    decreases s.len(),
{
    let t = s.remove(i);
    assert(props_unique(t)) by {
        assert(forall|x: int| 0 <= x < i ==> t[x] == s[x]);
        assert(forall|x: int| i <= x < t.len() ==> t[x] == s[x + 1]);
    }
    if i == s.len() - 1 {
        assert(t =~= s.drop_last());
        assert forall|x: Seq<u8>|
            #[trigger] prop_at(t, x) == if x == s[i].id@ {
                None::<Proposal>
            } else {
                prop_at(s, x)
            } by {
            if x == s[i].id@ {
                assert(forall|k: int| 0 <= k < t.len() ==> t[k] == s[k]);
                assert(forall|k: int| 0 <= k < t.len() ==> (#[trigger] t[k]).id@ != x);
                lemma_prop_at_absent(t, x);
            }
        }
    } else {
        assert(props_unique(s.drop_last())) by {
            assert(forall|x: int, y: int|
                0 <= x < y < s.drop_last().len() ==> s.drop_last()[x] == s[x] && s.drop_last()[y]
                    == s[y]);
        }
        assert(t.drop_last() =~= s.drop_last().remove(i));
        lemma_prop_at_remove(s.drop_last(), i);
        assert forall|x: Seq<u8>|
            #[trigger] prop_at(t, x) == if x == s[i].id@ {
                None::<Proposal>
            } else {
                prop_at(s, x)
            } by {
            assert(t.last() == s.last());
            assert(prop_at(t.drop_last(), x) == prop_at(s.drop_last().remove(i), x));
            if x == s[i].id@ {
                assert(s[i].id@ != s.last().id@);
                assert(prop_at(s.drop_last().remove(i), x) is None);
            } else {
                assert(prop_at(s.drop_last().remove(i), x) == prop_at(s.drop_last(), x));
            }
        }
    }
}

/// The balance map after releasing every recorded voter's full locked
/// weight, best-effort, in stored order.
pub open spec fn unlock_all_tr(
    m: Map<(AssetId, AccountId), (int, int)>,
    aid: AssetId,
    votes: Seq<VoteRecord>,
) -> Map<(AssetId, AccountId), (int, int)>
    decreases votes.len(),
{
    if votes.len() == 0 {
        m
    } else {
        unlock_easy_tr(
            unlock_all_tr(m, aid, votes.drop_last()),
            aid,
            votes.last().voter,
            votes.last().amount,
        )
    }
}

/// The events of that release: one per recorded voter, in stored order.
pub open spec fn unlock_events(aid: AssetId, votes: Seq<VoteRecord>) -> Seq<Event>
    decreases votes.len(),
{
    if votes.len() == 0 {
        Seq::empty()
    } else {
        unlock_events(aid, votes.drop_last()).push(
            Event::UnLocked {
                asset: aid,
                who: votes.last().voter,
                amount: votes.last().amount,
            },
        )
    }
}

/// The exact relation between the state before and after a close attempt
/// on the proposal under `pid`, with result `r`: the stake is refunded from
/// the vault under `oid`, and voter locks are released on asset `aid`.
///
/// - An absent proposal fails with `ProposalNotFound`, changing nothing.
/// - A proposal neither passed nor expired stays open, changing nothing.
/// - A passed, live proposal whose action bytes decode to no known command
///   fails with `ProposalDecodeFailed`, changing nothing.
/// - When the stake cannot be refunded after the prospective spend, the
///   close fails (`UnknownOwnerID` or `BalanceLow`), changing nothing.
/// - Otherwise the close succeeds: a passed, live proposal's vault transfer
///   is applied when the vault covers it (a shortfall is recorded in the
///   `ProposalFinalized` event, not an error); every voter's lock is
///   released best-effort; the stake returns to the creator; the proposal
///   is deleted; and the events record the outcome.
pub open spec fn close_post(
    pre: Module,
    post: Module,
    r: Result<(), Error>,
    oid: AccountId,
    aid: AssetId,
    pid: Seq<u8>,
    height: BlockNumber,
) -> bool {
    match pre.prop_of(pid) {
        None => r == Err::<(), Error>(Error::ProposalNotFound) && post == pre,
        Some(p) => {
            let expired = height > p.detail.end_dt;
            let passed = pre.proposal_passed(p);
            if !expired && !passed {
                r == Ok::<(), Error>(()) && post == pre
            } else if passed && !expired && action_decoded(p.call@) is None {
                r == Err::<(), Error>(Error::ProposalDecodeFailed) && post == pre
            } else {
                let dispatching = passed && !expired;
                let a = action_decoded(p.call@)->Some_0;
                let value = a->VaultTransfer_value;
                let dest = a->VaultTransfer_dest;
                let spend_ok = dispatching && pre.finance.vault_of(p.org) is Some
                    && pre.finance.vault_of(p.org)->Some_0 >= value;
                let vault1 = if spend_ok && p.org == oid {
                    Some((pre.finance.vault_of(oid)->Some_0 - value) as u64)
                } else {
                    pre.finance.vault_of(oid)
                };
                if vault1 is None {
                    r == Err::<(), Error>(Error::UnknownOwnerID) && post == pre
                } else if vault1->Some_0 < pre.stake {
                    r == Err::<(), Error>(Error::BalanceLow) && post == pre
                } else {
                    &&& r == Ok::<(), Error>(())
                    &&& forall|x: Seq<u8>|
                        #[trigger] post.prop_of(x) == if x == pid {
                            None::<Proposal>
                        } else {
                            pre.prop_of(x)
                        }
                    &&& post.ledger.accounts_map() == unlock_all_tr(
                        pre.ledger.accounts_map(),
                        aid,
                        p.detail.votes@,
                    )
                    &&& post.ledger.assets == pre.ledger.assets
                    &&& post.ledger.next_asset_id == pre.ledger.next_asset_id
                    &&& forall|w: AccountId|
                        #[trigger] post.finance.bal_of(w) == pre.finance.bal_of(w) + (if spend_ok {
                            (if w == dest {
                                value as int
                            } else {
                                0int
                            }) - (if w == VAULT_ACCOUNT {
                                value as int
                            } else {
                                0int
                            })
                        } else {
                            0int
                        }) + (if w == p.detail.creator {
                            pre.stake as int
                        } else {
                            0int
                        }) - (if w == VAULT_ACCOUNT {
                            pre.stake as int
                        } else {
                            0int
                        })
                    &&& forall|o: AccountId|
                        #[trigger] post.finance.vault_of(o) == (if o == oid {
                            Some((vault1->Some_0 - pre.stake) as u64)
                        } else if spend_ok && o == p.org {
                            Some((pre.finance.vault_of(p.org)->Some_0 - value) as u64)
                        } else {
                            pre.finance.vault_of(o)
                        })
                    &&& post.finance.total == pre.finance.total
                    &&& post.orgs == pre.orgs
                    &&& post.counter == pre.counter
                    &&& post.stake == pre.stake
                    &&& post.events@ == pre.events@ + (if dispatching {
                        seq![Event::ProposalFinalized { org: p.org, success: spend_ok }]
                    } else {
                        Seq::<Event>::empty()
                    }) + unlock_events(aid, p.detail.votes@) + (if expired {
                        seq![Event::ProposalRefused { org: p.org }]
                    } else {
                        Seq::<Event>::empty()
                    }) + (if passed {
                        seq![Event::ProposalPassed { org: p.org }]
                    } else {
                        Seq::<Event>::empty()
                    })
                }
            }
        },
    }
}

/// The state `mid` that follows `pre` after one successful lock-and-merge
/// of a vote: `value` moved from free to frozen for `voter` on asset `aid`,
/// the vote merged into the proposal under `pid`, one `Locked` event
/// appended, and nothing else changed.
pub open spec fn voted_state(
    pre: Module,
    mid: Module,
    aid: AssetId,
    pid: Seq<u8>,
    voter: AccountId,
    value: Balance,
    vote_for: bool,
) -> bool {
    &&& mid.wf()
    &&& mid.ledger.accounts_map() == lock_tr(pre.ledger.accounts_map(), aid, voter, value)
    &&& mid.ledger.assets == pre.ledger.assets
    &&& mid.ledger.next_asset_id == pre.ledger.next_asset_id
    &&& mid.finance == pre.finance
    &&& mid.orgs == pre.orgs
    &&& mid.counter == pre.counter
    &&& mid.stake == pre.stake
    &&& mid.events@ == pre.events@.push(Event::Locked { asset: aid, who: voter, amount: value })
    &&& pre.prop_of(pid) is Some
    &&& mid.prop_of(pid) is Some
    &&& {
        let p = pre.prop_of(pid)->Some_0;
        let q = mid.prop_of(pid)->Some_0;
        &&& q.org == p.org
        &&& q.call@ == p.call@
        &&& q.detail.creator == p.detail.creator
        &&& q.detail.end_dt == p.detail.end_dt
        &&& q.detail.sub_param == p.detail.sub_param
        &&& q.detail.votes@ == crate::organization::merge_vote(
            p.detail.votes@,
            voter,
            value,
            vote_for,
        )
    }
    &&& forall|x: Seq<u8>| x != pid ==> #[trigger] mid.prop_of(x) == pre.prop_of(x)
}

/// The exact relation between the state before and after a vote call, with
/// result `r`. A non-member's vote, a vote on an unknown proposal, a vote
/// beyond the voter's free balance, and a close that cannot complete all
/// fail and change nothing; a vote after expiry performs the expiry close
/// and fails with `ProposalExpired`; an accepted vote locks its weight,
/// merges the vote, and closes the proposal exactly when the merged tally
/// passes.
pub open spec fn vote_post(
    pre: Module,
    post: Module,
    r: Result<(), Error>,
    oid: AccountId,
    pid: Seq<u8>,
    voter: AccountId,
    value: Balance,
    vote_for: bool,
    height: BlockNumber,
) -> bool {
    if !pre.member_spec(oid, voter) {
        r == Err::<(), Error>(Error::NotMemberInOrg) && post == pre
    } else {
        let aid = pre.org_of(oid)->Some_0.asset.id;
        match pre.prop_of(pid) {
            None => r == Err::<(), Error>(Error::ProposalNotFound) && post == pre,
            Some(p) => {
                if height > p.detail.end_dt {
                    ||| r == Err::<(), Error>(Error::ProposalExpired) && close_post(
                        pre,
                        post,
                        Ok::<(), Error>(()),
                        oid,
                        aid,
                        pid,
                        height,
                    )
                    ||| r != Err::<(), Error>(Error::ProposalExpired) && r is Err && close_post(
                        pre,
                        post,
                        r,
                        oid,
                        aid,
                        pid,
                        height,
                    )
                } else if pre.ledger.free_of(aid, voter) < value {
                    r == Err::<(), Error>(Error::BalanceLow) && post == pre
                } else {
                    let merged = crate::organization::merge_vote(
                        p.detail.votes@,
                        voter,
                        value,
                        vote_for,
                    );
                    if !pre.tally_passes(p, merged) {
                        r == Ok::<(), Error>(()) && voted_state(
                            pre,
                            post,
                            aid,
                            pid,
                            voter,
                            value,
                            vote_for,
                        )
                    } else if action_decoded(p.call@) is None {
                        r == Err::<(), Error>(Error::ProposalDecodeFailed) && post == pre
                    } else {
                        let a = action_decoded(p.call@)->Some_0;
                        let sv = a->VaultTransfer_value;
                        let spend_ok = pre.finance.vault_of(p.org) is Some
                            && pre.finance.vault_of(p.org)->Some_0 >= sv;
                        let vault1 = if spend_ok && p.org == oid {
                            Some((pre.finance.vault_of(oid)->Some_0 - sv) as u64)
                        } else {
                            pre.finance.vault_of(oid)
                        };
                        if vault1 is None {
                            r == Err::<(), Error>(Error::UnknownOwnerID) && post == pre
                        } else if vault1->Some_0 < pre.stake {
                            r == Err::<(), Error>(Error::BalanceLow) && post == pre
                        } else {
                            &&& r == Ok::<(), Error>(())
                            &&& exists|mid: Module|
                                #[trigger] voted_state(pre, mid, aid, pid, voter, value, vote_for)
                                    && close_post(
                                    mid,
                                    post,
                                    Ok::<(), Error>(()),
                                    oid,
                                    aid,
                                    pid,
                                    height,
                                )
                        }
                    }
                }
            },
        }
    }
}

/// The whole core state.
pub struct Module {
    pub ledger: TokenLedger,
    pub finance: Finance,
    /// The next organization counter value; never reused.
    pub counter: OrgCount,
    pub orgs: Vec<OrgEntry>,
    pub proposals: Vec<ProposalEntry>,
    /// The flat base-currency deposit staked per proposal creation.
    pub stake: Balance,
    /// The append-only event log.
    pub events: Vec<Event>,
}

impl Module {
    pub open spec fn org_of(self, oid: AccountId) -> Option<OrgInfo> {
        org_at(self.orgs@, oid)
    }

    pub open spec fn prop_of(self, id: Seq<u8>) -> Option<Proposal> {
        prop_at(self.proposals@, id)
    }

    /// Whether `who` is a member of the organization under `oid`.
    pub open spec fn member_spec(self, oid: AccountId, who: AccountId) -> bool {
        match self.org_of(oid) {
            Some(org) => org.members@.contains(who),
            None => false,
        }
    }

    /// Well-formedness of the assembled state: both ledgers well-formed,
    /// unique registry keys, and every stored organization and proposal
    /// internally well-formed.
    pub open spec fn wf(self) -> bool {
        &&& self.ledger.wf()
        &&& self.finance.wf()
        &&& orgs_unique(self.orgs@)
        &&& forall|i: int| 0 <= i < self.orgs@.len() ==> (#[trigger] self.orgs@[i]).info.wf()
        &&& props_unique(self.proposals@)
        &&& forall|i: int|
            0 <= i < self.proposals@.len() ==> (#[trigger] self.proposals@[i]).proposal.wf()
    }

    /// A fresh core with the given proposal-creation stake and nothing else.
    pub fn new(stake: Balance) -> (r: Self)
        ensures
            r.wf(),
            r.counter == 0,
            r.stake == stake,
            r.ledger.next_asset_id == 0,
            r.finance.total == 0,
            r.orgs@.len() == 0,
            r.proposals@.len() == 0,
            r.events@.len() == 0,
            forall|o: AccountId| #[trigger] r.org_of(o) is None,
            forall|x: Seq<u8>| #[trigger] r.prop_of(x) is None,
            forall|id: AssetId| !(#[trigger] r.ledger.has_asset(id)),
            forall|w: AccountId| #[trigger] r.finance.bal_of(w) == 0,
            forall|o: AccountId| #[trigger] r.finance.vault_of(o) is None,
    {
        Module {
            ledger: TokenLedger::new(),
            finance: Finance::new(),
            counter: 0,
            orgs: Vec::new(),
            proposals: Vec::new(),
            stake,
            events: Vec::new(),
        }
    }

    /// The custodial pooled-fund account id.
    pub fn account_id() -> (r: AccountId)
        ensures
            r == VAULT_ACCOUNT,
    {
        crate::finance::account_id()
    }

    /// The account id of a bounty sub-account.
    pub fn bounty_account_id(id: u32) -> (r: AccountId)
        ensures
            r == crate::finance::BOUNTY_ACCOUNT_BASE + id,
    {
        crate::finance::bounty_account_id(id)
    }

    /// Free voting-token balance of `who` in asset `id`.
    pub fn free_balance(&self, id: AssetId, who: AccountId) -> (r: Balance)
        requires
            self.wf(),
        ensures
            r as int == self.ledger.free_of(id, who),
    {
        self.ledger.free_balance(id, who)
    }

    /// Total (free plus frozen) voting-token balance of `who` in asset `id`.
    pub fn total_balance(&self, id: AssetId, who: AccountId) -> (r: Balance)
        requires
            self.wf(),
        ensures
            r as int == crate::token::sat_add(
                crate::token::acct_at(self.ledger.accounts@, id, who).free,
                crate::token::acct_at(self.ledger.accounts@, id, who).frozen,
            ),
    {
        self.ledger.total_balance(id, who)
    }

    /// Move free balance of asset `id` between holders, emitting a
    /// `Transferred` event — even for a transfer to oneself, which changes
    /// no balance.
    pub fn base_transfer(
        &mut self,
        id: AssetId,
        origin: AccountId,
        target: AccountId,
        amount: Balance,
    ) -> (r: Result<(), Error>)
        requires
            old(self).wf(),
        ensures
            final(self).wf(),
            r == if amount == 0 {
                Err::<(), Error>(Error::AmountZero)
            } else if origin == target {
                Ok::<(), Error>(())
            } else if old(self).ledger.free_of(id, origin) < amount {
                Err::<(), Error>(Error::BalanceLow)
            } else {
                Ok::<(), Error>(())
            },
            r is Err ==> *final(self) == *old(self),
            r is Ok ==> final(self).events@ == old(self).events@.push(
                Event::Transferred { asset: id, from: origin, to: target, amount },
            ),
            r is Ok && origin != target ==> final(self).ledger.accounts_map()
                == crate::token::transfer_tr(
                old(self).ledger.accounts_map(),
                id,
                origin,
                target,
                amount,
            ),
            origin == target ==> final(self).ledger == old(self).ledger,
            final(self).ledger.assets == old(self).ledger.assets,
            final(self).ledger.next_asset_id == old(self).ledger.next_asset_id,
            final(self).finance == old(self).finance,
            final(self).counter == old(self).counter,
            final(self).orgs == old(self).orgs,
            final(self).proposals == old(self).proposals,
            final(self).stake == old(self).stake,
    {
        let r = self.ledger.base_transfer(id, origin, target, amount);
        if r.is_ok() {
            self.events.push(Event::Transferred { asset: id, from: origin, to: target, amount });
        }
        r
    }

    /// Mint new units of asset `id` to its issuer, emitting a `Minted`
    /// event.
    pub fn base_mint(&mut self, id: AssetId, issuer: AccountId, amount: Balance) -> (r: Result<
        (),
        Error,
    >)
        requires
            old(self).wf(),
        ensures
            final(self).wf(),
            r == if !old(self).ledger.has_asset(id) {
                Err::<(), Error>(Error::Unknown)
            } else if issuer != old(self).ledger.issuer_of(id) {
                Err::<(), Error>(Error::NoPermission)
            } else if old(self).ledger.supply_of(id) + amount > u64::MAX {
                Err::<(), Error>(Error::Overflow)
            } else {
                Ok::<(), Error>(())
            },
            r is Err ==> *final(self) == *old(self),
            r is Ok ==> {
                &&& crate::token::asset_at(final(self).ledger.assets@, id) == Some(
                    crate::token::AssetDetails {
                        issuer,
                        supply: (old(self).ledger.supply_of(id) + amount) as u64,
                    },
                )
                &&& crate::token::acct_at(final(self).ledger.accounts@, id, issuer)
                    == (crate::token::AccountAssetMetadata {
                    free: (old(self).ledger.free_of(id, issuer) + amount) as u64,
                    frozen: crate::token::acct_at(old(self).ledger.accounts@, id, issuer).frozen,
                })
                &&& final(self).events@ == old(self).events@.push(
                    Event::Minted { asset: id, issuer, amount },
                )
            },
            forall|x: AssetId|
                x != id ==> #[trigger] crate::token::asset_at(final(self).ledger.assets@, x)
                    == crate::token::asset_at(old(self).ledger.assets@, x),
            forall|a: AssetId, w: AccountId|
                (a != id || w != issuer) ==> #[trigger] crate::token::acct_at(
                    final(self).ledger.accounts@,
                    a,
                    w,
                ) == crate::token::acct_at(old(self).ledger.accounts@, a, w),
            final(self).finance == old(self).finance,
            final(self).counter == old(self).counter,
            final(self).orgs == old(self).orgs,
            final(self).proposals == old(self).proposals,
            final(self).stake == old(self).stake,
    {
        let r = self.ledger.base_mint(id, issuer, amount);
        if r.is_ok() {
            self.events.push(Event::Minted { asset: id, issuer, amount });
        }
        r
    }

    /// Burn units of asset `id` from its issuer, emitting a `Burned` event.
    pub fn base_burn(&mut self, id: AssetId, issuer: AccountId, amount: Balance) -> (r: Result<
        (),
        Error,
    >)
        requires
            old(self).wf(),
        ensures
            final(self).wf(),
            r == if !old(self).ledger.has_asset(id) {
                Err::<(), Error>(Error::Unknown)
            } else if issuer != old(self).ledger.issuer_of(id) {
                Err::<(), Error>(Error::NoPermission)
            } else if old(self).ledger.free_of(id, issuer) < amount {
                Err::<(), Error>(Error::BalanceLow)
            } else {
                Ok::<(), Error>(())
            },
            r is Err ==> *final(self) == *old(self),
            r is Ok ==> {
                &&& crate::token::asset_at(final(self).ledger.assets@, id) == Some(
                    crate::token::AssetDetails {
                        issuer,
                        supply: (old(self).ledger.supply_of(id) - amount) as u64,
                    },
                )
                &&& crate::token::acct_at(final(self).ledger.accounts@, id, issuer)
                    == (crate::token::AccountAssetMetadata {
                    free: (old(self).ledger.free_of(id, issuer) - amount) as u64,
                    frozen: crate::token::acct_at(old(self).ledger.accounts@, id, issuer).frozen,
                })
                &&& final(self).events@ == old(self).events@.push(
                    Event::Burned { asset: id, issuer, amount },
                )
            },
            forall|x: AssetId|
                x != id ==> #[trigger] crate::token::asset_at(final(self).ledger.assets@, x)
                    == crate::token::asset_at(old(self).ledger.assets@, x),
            forall|a: AssetId, w: AccountId|
                (a != id || w != issuer) ==> #[trigger] crate::token::acct_at(
                    final(self).ledger.accounts@,
                    a,
                    w,
                ) == crate::token::acct_at(old(self).ledger.accounts@, a, w),
            final(self).finance == old(self).finance,
            final(self).counter == old(self).counter,
            final(self).orgs == old(self).orgs,
            final(self).proposals == old(self).proposals,
            final(self).stake == old(self).stake,
    {
        let r = self.ledger.base_burn(id, issuer, amount);
        if r.is_ok() {
            self.events.push(Event::Burned { asset: id, issuer, amount });
        }
        r
    }

    /// Freeze `amount` of `who`'s free balance, emitting a `Locked` event.
    pub fn base_lock(&mut self, id: AssetId, who: AccountId, amount: Balance) -> (r: Result<
        (),
        Error,
    >)
        requires
            old(self).wf(),
        ensures
            final(self).wf(),
            r == if old(self).ledger.free_of(id, who) < amount {
                Err::<(), Error>(Error::BalanceLow)
            } else {
                Ok::<(), Error>(())
            },
            r is Err ==> *final(self) == *old(self),
            r is Ok ==> final(self).ledger.accounts_map() == lock_tr(
                old(self).ledger.accounts_map(),
                id,
                who,
                amount,
            ) && final(self).events@ == old(self).events@.push(
                Event::Locked { asset: id, who, amount },
            ),
            final(self).ledger.assets == old(self).ledger.assets,
            final(self).ledger.next_asset_id == old(self).ledger.next_asset_id,
            final(self).finance == old(self).finance,
            final(self).counter == old(self).counter,
            final(self).orgs == old(self).orgs,
            final(self).proposals == old(self).proposals,
            final(self).stake == old(self).stake,
    {
        let r = self.ledger.base_lock(id, who, amount);
        if r.is_ok() {
            self.events.push(Event::Locked { asset: id, who, amount });
        }
        r
    }

    /// Release exactly `amount` of `who`'s frozen balance, emitting an
    /// `UnLocked` event; fails when less than `amount` is frozen.
    pub fn base_unlock(&mut self, id: AssetId, who: AccountId, amount: Balance) -> (r: Result<
        (),
        Error,
    >)
        requires
            old(self).wf(),
        ensures
            final(self).wf(),
            r == if old(self).ledger.frozen_of(id, who) < amount {
                Err::<(), Error>(Error::BalanceLow)
            } else {
                Ok::<(), Error>(())
            },
            r is Err ==> *final(self) == *old(self),
            r is Ok ==> final(self).ledger.accounts_map() == crate::token::unlock_strict_tr(
                old(self).ledger.accounts_map(),
                id,
                who,
                amount,
            ) && final(self).events@ == old(self).events@.push(
                Event::UnLocked { asset: id, who, amount },
            ),
            final(self).ledger.assets == old(self).ledger.assets,
            final(self).ledger.next_asset_id == old(self).ledger.next_asset_id,
            final(self).finance == old(self).finance,
            final(self).counter == old(self).counter,
            final(self).orgs == old(self).orgs,
            final(self).proposals == old(self).proposals,
            final(self).stake == old(self).stake,
    {
        let r = self.ledger.base_unlock(id, who, amount);
        if r.is_ok() {
            self.events.push(Event::UnLocked { asset: id, who, amount });
        }
        r
    }

    /// Derive the organization id for a counter value: the fixed seed plus
    /// the counter — pure, and injective over the whole counter range.
    pub fn counter_2_orgid(c: OrgCount) -> (r: AccountId)
        ensures
            r == ORG_ACCOUNT_BASE + c,
    {
        ORG_ACCOUNT_BASE + (c as u64)
    }

    /// The current organization counter.
    pub fn counter_of(&self) -> (r: OrgCount)
        ensures
            r == self.counter,
    {
        self.counter
    }

    /// How many proposals are stored, truncated to the counter width.
    pub fn count_of_proposals(&self) -> (r: u32)
        ensures
            r == self.proposals@.len() as u32,
    {
        #[verifier::truncate] (self.proposals.len() as u32)
    }

    /// How many organizations are stored, truncated to the counter width.
    pub fn count_of_organizations(&self) -> (r: u32)
        ensures
            r == self.orgs@.len() as u32,
    {
        #[verifier::truncate] (self.orgs.len() as u32)
    }

    /// Index of the organization row under `oid`.
    fn find_org(&self, oid: AccountId) -> (r: Option<usize>)
        requires
            orgs_unique(self.orgs@),
        ensures
            match r {
                Some(i) => i < self.orgs@.len() && self.orgs@[i as int].oid == oid && org_at(
                    self.orgs@,
                    oid,
                ) == Some(self.orgs@[i as int].info),
                None => org_at(self.orgs@, oid) is None && forall|i: int|
                    0 <= i < self.orgs@.len() ==> (#[trigger] self.orgs@[i]).oid != oid,
            },
    {
        let n = self.orgs.len();
        let mut i: usize = 0;
        while i < n
            invariant
                n == self.orgs@.len(),
                i <= n,
                orgs_unique(self.orgs@),
                forall|j: int| 0 <= j < i ==> (#[trigger] self.orgs@[j]).oid != oid,
            decreases n - i,
        {
            if self.orgs[i].oid == oid {
                proof {
                    lemma_org_at_index(self.orgs@, i as int);
                }
                return Some(i);
            }
            i = i + 1;
        }
        proof {
            lemma_org_at_absent(self.orgs@, oid);
        }
        None
    }

    /// Index of the proposal row under `pid`.
    fn find_proposal(&self, pid: &Vec<u8>) -> (r: Option<usize>)
        requires
            props_unique(self.proposals@),
        ensures
            match r {
                Some(i) => i < self.proposals@.len() && self.proposals@[i as int].id@ == pid@
                    && prop_at(self.proposals@, pid@) == Some(self.proposals@[i as int].proposal),
                None => prop_at(self.proposals@, pid@) is None && forall|i: int|
                    0 <= i < self.proposals@.len() ==> (#[trigger] self.proposals@[i]).id@ != pid@,
            },
    {
        let n = self.proposals.len();
        let mut i: usize = 0;
        while i < n
            invariant
                n == self.proposals@.len(),
                i <= n,
                props_unique(self.proposals@),
                forall|j: int| 0 <= j < i ==> (#[trigger] self.proposals@[j]).id@ != pid@,
            decreases n - i,
        {
            if bytes_eq(&self.proposals[i].id, pid) {
                proof {
                    lemma_prop_at_index(self.proposals@, i as int);
                }
                return Some(i);
            }
            i = i + 1;
        }
        proof {
            lemma_prop_at_absent(self.proposals@, pid@);
        }
        None
    }

    /// The stored organization under `oid`, or `OrganizationNotFound`.
    pub fn get_orginfo_by_id(&self, oid: AccountId) -> (r: Result<OrgInfo, Error>)
        requires
            self.wf(),
        ensures
            match r {
                Ok(info) => self.org_of(oid) is Some && info.members@ == self.org_of(
                    oid,
                )->Some_0.members@ && info.param == self.org_of(oid)->Some_0.param && info.asset
                    == self.org_of(oid)->Some_0.asset,
                Err(e) => e == Error::OrganizationNotFound && self.org_of(oid) is None,
            },
    {
        match self.find_org(oid) {
            Some(i) => Ok(self.orgs[i].info.clone()),
            None => Err(Error::OrganizationNotFound),
        }
    }

    /// Whether `who` belongs to the organization under `oid`; an unknown
    /// organization has no members.
    pub fn is_member(&self, oid: AccountId, who: &AccountId) -> (r: bool)
        requires
            self.wf(),
        ensures
            r == self.member_spec(oid, *who),
    {
        match self.find_org(oid) {
            Some(i) => self.orgs[i].info.is_member(*who),
            None => false,
        }
    }

    /// The stored proposal under `pid`, or `ProposalNotFound`.
    pub fn get_proposal_by_id(&self, pid: &Vec<u8>) -> (r: Result<Proposal, Error>)
        requires
            self.wf(),
        ensures
            match r {
                Ok(p) => self.prop_of(pid@) is Some && {
                    let q = self.prop_of(pid@)->Some_0;
                    p.org == q.org && p.call@ == q.call@ && p.detail.votes@ == q.detail.votes@
                        && p.detail.creator == q.detail.creator && p.detail.end_dt == q.detail.end_dt
                        && p.detail.sub_param == q.detail.sub_param
                },
                Err(e) => e == Error::ProposalNotFound && self.prop_of(pid@) is None,
            },
    {
        match self.find_proposal(pid) {
            Some(i) => Ok(self.proposals[i].proposal.clone()),
            None => Err(Error::ProposalNotFound),
        }
    }

    /// A proposal's identity: the canonical encoding of its content.
    pub fn make_proposal_id(proposal: &Proposal) -> (r: Vec<u8>)
        ensures
            r@ == proposal_id_spec(*proposal),
    {
        proposal_id_bytes(proposal)
    }

    /// Member count of the organization under `oid`; zero when unknown.
    pub fn get_count_members(&self, oid: AccountId) -> (r: u32)
        requires
            self.wf(),
        ensures
            r == match self.org_of(oid) {
                Some(org) => org.members@.len() as u32,
                None => 0u32,
            },
    {
        match self.find_org(oid) {
            Some(i) => self.orgs[i].info.counts(),
            None => 0,
        }
    }

    /// The voting-token id of the organization under `oid`.
    pub fn get_token_id_by_oid(&self, oid: AccountId) -> (r: Result<AssetId, Error>)
        requires
            self.wf(),
        ensures
            r == match self.org_of(oid) {
                Some(org) => Ok::<AssetId, Error>(org.asset.id),
                None => Err::<AssetId, Error>(Error::OrganizationNotFound),
            },
    {
        match self.find_org(oid) {
            Some(i) => Ok(self.orgs[i].info.get_asset_id()),
            None => Err(Error::OrganizationNotFound),
        }
    }

    /// The total supply of the organization's voting token.
    pub fn get_total_token_by_oid(&self, oid: AccountId) -> (r: Result<Balance, Error>)
        requires
            self.wf(),
        ensures
            r == match self.org_of(oid) {
                Some(org) => Ok::<Balance, Error>(
                    self.ledger.supply_of(org.asset.id) as u64,
                ),
                None => Err::<Balance, Error>(Error::OrganizationNotFound),
            },
    {
        match self.find_org(oid) {
            Some(i) => Ok(self.ledger.total_issuances(self.orgs[i].info.asset.id)),
            None => Err(Error::OrganizationNotFound),
        }
    }

    /// A member's free voting-token balance in the organization under `oid`.
    pub fn get_free_balance_on_token_by_user(&self, oid: AccountId, who: AccountId) -> (r: Result<
        Balance,
        Error,
    >)
        requires
            self.wf(),
        ensures
            r == match self.org_of(oid) {
                Some(org) => Ok::<Balance, Error>(
                    self.ledger.free_of(org.asset.id, who) as u64,
                ),
                None => Err::<Balance, Error>(Error::OrganizationNotFound),
            },
    {
        match self.find_org(oid) {
            Some(i) => Ok(self.ledger.free_balance(self.orgs[i].info.asset.id, who)),
            None => Err(Error::OrganizationNotFound),
        }
    }

    /// Create the voting token of a new organization: `total` units issued
    /// to `owner`.
    pub fn create_new_token(&mut self, owner: AccountId, total: Balance) -> (id: AssetId)
        requires
            old(self).wf(),
            old(self).ledger.next_asset_id < u64::MAX,
        ensures
            final(self).wf(),
            id == old(self).ledger.next_asset_id,
            final(self).ledger.next_asset_id == old(self).ledger.next_asset_id + 1,
            !old(self).ledger.has_asset(id),
            final(self).ledger.has_asset(id),
            final(self).ledger.issuer_of(id) == owner,
            final(self).ledger.supply_of(id) == total,
            forall|x: AssetId|
                x != id ==> #[trigger] crate::token::asset_at(final(self).ledger.assets@, x)
                    == crate::token::asset_at(old(self).ledger.assets@, x),
            crate::token::acct_at(final(self).ledger.accounts@, id, owner)
                == (crate::token::AccountAssetMetadata { free: total, frozen: 0 }),
            forall|a: AssetId, w: AccountId|
                (a != id || w != owner) ==> #[trigger] crate::token::acct_at(
                    final(self).ledger.accounts@,
                    a,
                    w,
                ) == crate::token::acct_at(old(self).ledger.accounts@, a, w),
            final(self).finance == old(self).finance,
            final(self).counter == old(self).counter,
            final(self).orgs == old(self).orgs,
            final(self).proposals == old(self).proposals,
            final(self).stake == old(self).stake,
            final(self).events@ == old(self).events@.push(
                Event::Issued { asset: id, owner, total },
            ),
    {
        let id = self.ledger.create_token(owner, total);
        self.events.push(Event::Issued { asset: id, owner, total });
        id
    }

    /// Persist a new organization under the next counter value. Fails only
    /// on counter exhaustion; the id is derived from the counter and never
    /// reused.
    pub fn storage_new_organization(&mut self, oinfo: OrgInfo) -> (r: Result<(), Error>)
        requires
            old(self).wf(),
            oinfo.wf(),
        ensures
            final(self).wf(),
            r == if old(self).counter == u32::MAX {
                Err::<(), Error>(Error::StorageOverflow)
            } else {
                Ok::<(), Error>(())
            },
            r is Err ==> *final(self) == *old(self),
            r is Ok ==> {
                &&& final(self).counter == old(self).counter + 1
                &&& final(self).org_of((ORG_ACCOUNT_BASE + old(self).counter) as u64) == Some(oinfo)
                &&& forall|o: AccountId|
                    o != ORG_ACCOUNT_BASE + old(self).counter ==> #[trigger] final(self).org_of(o)
                        == old(self).org_of(o)
                &&& final(self).events@ == old(self).events@.push(
                    Event::OrganizationCreated {
                        org: (ORG_ACCOUNT_BASE + old(self).counter) as u64,
                        number: old(self).counter,
                    },
                )
            },
            final(self).ledger == old(self).ledger,
            final(self).finance == old(self).finance,
            final(self).proposals == old(self).proposals,
            final(self).stake == old(self).stake,
    {
        if self.counter == u32::MAX {
            return Err(Error::StorageOverflow);
        }
        let counter = self.counter;
        let oid = Self::counter_2_orgid(counter);
        let ghost orgs0 = self.orgs@;
        match self.find_org(oid) {
            Some(i) => {
                let entry = OrgEntry { oid, info: oinfo };
                proof {
                    lemma_org_at_update(orgs0, i as int, entry);
                }
                self.orgs.set(i, entry);
            },
            None => {
                let entry = OrgEntry { oid, info: oinfo };
                proof {
                    lemma_org_at_push(orgs0, entry);
                }
                self.orgs.push(entry);
            },
        }
        self.counter = counter + 1;
        self.events.push(Event::OrganizationCreated { org: oid, number: counter });
        Ok(())
    }

    /// Add `member_id` to the organization under `oid`. An unknown
    /// organization and an existing member are both quiet no-ops, as in a
    /// keyed-store mutate that finds nothing to change.
    pub fn base_add_member_by_orgid(&mut self, oid: AccountId, member_id: AccountId) -> (r: Result<
        (),
        Error,
    >)
        requires
            old(self).wf(),
        ensures
            final(self).wf(),
            r is Ok,
            match old(self).org_of(oid) {
                None => *final(self) == *old(self),
                Some(org) => {
                    &&& final(self).org_of(oid) is Some
                    &&& final(self).org_of(oid)->Some_0.members@ == if org.members@.contains(
                        member_id,
                    ) {
                        org.members@
                    } else {
                        org.members@.push(member_id)
                    }
                    &&& final(self).org_of(oid)->Some_0.param == org.param
                    &&& final(self).org_of(oid)->Some_0.asset == org.asset
                    &&& forall|o: AccountId|
                        o != oid ==> #[trigger] final(self).org_of(o) == old(self).org_of(o)
                    &&& final(self).ledger == old(self).ledger
                    &&& final(self).finance == old(self).finance
                    &&& final(self).counter == old(self).counter
                    &&& final(self).proposals == old(self).proposals
                    &&& final(self).stake == old(self).stake
                    &&& final(self).events == old(self).events
                },
            },
    {
        let ghost orgs0 = self.orgs@;
        match self.find_org(oid) {
            Some(i) => {
                let mut info = self.orgs[i].info.clone();
                let res = info.add_member(member_id);
                let entry = OrgEntry { oid, info };
                proof {
                    lemma_org_at_update(orgs0, i as int, entry);
                }
                self.orgs.set(i, entry);
                res
            },
            None => Ok(()),
        }
    }

    /// Delete the proposal under `pid`; removing an absent proposal is a
    /// no-op.
    pub fn remove_proposal_by_id(&mut self, pid: &Vec<u8>)
        requires
            old(self).wf(),
        ensures
            final(self).wf(),
            forall|x: Seq<u8>|
                #[trigger] final(self).prop_of(x) == if x == pid@ {
                    None::<Proposal>
                } else {
                    old(self).prop_of(x)
                },
            final(self).ledger == old(self).ledger,
            final(self).finance == old(self).finance,
            final(self).counter == old(self).counter,
            final(self).orgs == old(self).orgs,
            final(self).stake == old(self).stake,
            final(self).events == old(self).events,
    {
        let ghost props0 = self.proposals@;
        match self.find_proposal(pid) {
            Some(i) => {
                proof {
                    lemma_prop_at_remove(props0, i as int);
                }
                self.proposals.remove(i);
            },
            None => {},
        }
    }

    /// Stage a proposal under its content identity. A byte-identical
    /// proposal already staged is rejected as a duplicate — and nothing
    /// else is, since distinct content encodes to distinct identities.
    pub fn base_create_proposal(&mut self, oid: AccountId, proposal: Proposal) -> (r: Result<
        (),
        Error,
    >)
        requires
            old(self).wf(),
            proposal.wf(),
        ensures
            final(self).wf(),
            r == if old(self).prop_of(proposal_id_spec(proposal)) is Some {
                Err::<(), Error>(Error::ProposalDuplicate)
            } else {
                Ok::<(), Error>(())
            },
            r is Err ==> *final(self) == *old(self),
            r is Ok ==> {
                &&& final(self).prop_of(proposal_id_spec(proposal)) == Some(proposal)
                &&& forall|x: Seq<u8>|
                    x != proposal_id_spec(proposal) ==> #[trigger] final(self).prop_of(x) == old(
                        self,
                    ).prop_of(x)
                &&& final(self).events@ == old(self).events@.push(
                    Event::ProposalCreated { org: oid, creator: proposal.detail.creator },
                )
            },
            final(self).ledger == old(self).ledger,
            final(self).finance == old(self).finance,
            final(self).counter == old(self).counter,
            final(self).orgs == old(self).orgs,
            final(self).stake == old(self).stake,
    {
        let pid = proposal_id_bytes(&proposal);
        let ghost props0 = self.proposals@;
        match self.find_proposal(&pid) {
            Some(_) => Err(Error::ProposalDuplicate),
            None => {
                let creator = proposal.detail.creator;
                let entry = ProposalEntry { id: pid, proposal };
                proof {
                    lemma_prop_at_push(props0, entry);
                }
                self.proposals.push(entry);
                self.events.push(Event::ProposalCreated { org: oid, creator });
                Ok(())
            },
        }
    }

    /// Merge a vote into the stored proposal. A missing proposal is a quiet
    /// no-op, as in a keyed-store mutate.
    pub fn base_vote_on_proposal(
        &mut self,
        pid: &Vec<u8>,
        voter: AccountId,
        value: Balance,
        vote_for: bool,
    ) -> (r: Result<(), Error>)
        requires
            old(self).wf(),
        ensures
            final(self).wf(),
            r is Ok,
            match old(self).prop_of(pid@) {
                None => *final(self) == *old(self),
                Some(p) => {
                    &&& final(self).prop_of(pid@) is Some
                    &&& {
                        let q = final(self).prop_of(pid@)->Some_0;
                        q.org == p.org && q.call@ == p.call@ && q.detail.creator
                            == p.detail.creator && q.detail.end_dt == p.detail.end_dt
                            && q.detail.sub_param == p.detail.sub_param && q.detail.votes@
                            == crate::organization::merge_vote(
                            p.detail.votes@,
                            voter,
                            value,
                            vote_for,
                        )
                    }
                    &&& forall|x: Seq<u8>|
                        x != pid@ ==> #[trigger] final(self).prop_of(x) == old(self).prop_of(x)
                    &&& final(self).ledger == old(self).ledger
                    &&& final(self).finance == old(self).finance
                    &&& final(self).counter == old(self).counter
                    &&& final(self).orgs == old(self).orgs
                    &&& final(self).stake == old(self).stake
                    &&& final(self).events == old(self).events
                },
            },
    {
        let ghost props0 = self.proposals@;
        match self.find_proposal(pid) {
            Some(i) => {
                let mut p = self.proposals[i].proposal.clone();
                p.detail.vote(voter, value, vote_for);
                let id = clone_bytes(&self.proposals[i].id);
                let entry = ProposalEntry { id, proposal: p };
                proof {
                    lemma_prop_at_update(props0, i as int, entry);
                }
                self.proposals.set(i, entry);
                Ok(())
            },
            None => Ok(()),
        }
    }

    /// Hand a passed proposal's action to the dispatcher: decode the bytes
    /// into the closed command set and execute. A failing command is
    /// recorded in the `ProposalFinalized` event, never surfaced as an
    /// error; bytes outside the command set fail the close with
    /// `ProposalDecodeFailed`.
    pub fn base_call_dispatch(&mut self, pid: &Vec<u8>, proposal: &Proposal) -> (r: Result<
        (),
        Error,
    >)
        requires
            old(self).wf(),
        ensures
            final(self).wf(),
            r == if action_decoded(proposal.call@) is None {
                Err::<(), Error>(Error::ProposalDecodeFailed)
            } else {
                Ok::<(), Error>(())
            },
            r is Err ==> *final(self) == *old(self),
            r is Ok ==> {
                let a = action_decoded(proposal.call@)->Some_0;
                let dest = a->VaultTransfer_dest;
                let value = a->VaultTransfer_value;
                let success = old(self).finance.vault_of(proposal.org) is Some && old(
                    self,
                ).finance.vault_of(proposal.org)->Some_0 >= value;
                &&& final(self).events@ == old(self).events@.push(
                    Event::ProposalFinalized { org: proposal.org, success },
                )
                &&& (success ==> {
                    &&& forall|w: AccountId|
                        #[trigger] final(self).finance.bal_of(w) == old(self).finance.bal_of(w) - (
                        if w == VAULT_ACCOUNT {
                            value as int
                        } else {
                            0int
                        }) + (if w == dest {
                            value as int
                        } else {
                            0int
                        })
                    &&& forall|o: AccountId|
                        #[trigger] final(self).finance.vault_of(o) == if o == proposal.org {
                            Some((old(self).finance.vault_of(proposal.org)->Some_0 - value) as u64)
                        } else {
                            old(self).finance.vault_of(o)
                        }
                })
                &&& (!success ==> final(self).finance == old(self).finance)
            },
            final(self).finance.total == old(self).finance.total,
            final(self).ledger == old(self).ledger,
            final(self).counter == old(self).counter,
            final(self).orgs == old(self).orgs,
            final(self).proposals == old(self).proposals,
            final(self).stake == old(self).stake,
    {
        let action = match decode_action(&proposal.call) {
            Some(a) => a,
            None => {
                return Err(Error::ProposalDecodeFailed);
            },
        };
        match action {
            Action::VaultTransfer { dest, value } => {
                let res = self.finance.spend_organization_vault(proposal.org, dest, value);
                let success = res.is_ok();
                self.events.push(Event::ProposalFinalized { org: proposal.org, success });
                Ok(())
            },
        }
    }

    /// Whether the stored tally of `proposal` clears its own rule against
    /// the total supply of its organization's voting token; an unknown
    /// organization never passes.
    pub fn is_pass(&self, proposal: &Proposal) -> (r: bool)
        requires
            self.wf(),
        ensures
            r == self.proposal_passed(*proposal),
    {
        let total_balance = match self.get_total_token_by_oid(proposal.org) {
            Ok(b) => b,
            Err(_) => {
                return false;
            },
        };
        proof {
            crate::organization::lemma_tally_bounds(proposal.detail.votes@);
        }
        proposal.detail.pass(total_balance)
    }

    /// Whether a hypothetical vote list would clear proposal `p`'s rule in
    /// this state: `p`'s organization must exist, and the tally must pass
    /// the rule measured against the voting token's supply.
    pub open spec fn tally_passes(self, p: Proposal, votes: Seq<VoteRecord>) -> bool {
        match self.org_of(p.org) {
            Some(org) => rule_pass(
                p.detail.sub_param,
                tally(votes).0 as u64,
                tally(votes).1 as u64,
                0,
                self.ledger.supply_of(org.asset.id) as u64,
            ),
            None => false,
        }
    }

    /// The pass decision of a proposal against the current state: its
    /// organization must exist, and the stored tally must clear the
    /// proposal's rule measured against the voting token's supply.
    pub open spec fn proposal_passed(self, p: Proposal) -> bool {
        self.tally_passes(p, p.detail.votes@)
    }

    /// Move `value` from `who` into the vault of `oid`.
    pub fn reserve_to_vault(&mut self, oid: AccountId, who: AccountId, value: Balance) -> (r:
        Result<(), Error>)
        requires
            old(self).wf(),
            who != VAULT_ACCOUNT,
        ensures
            final(self).wf(),
            r == if old(self).finance.bal_of(who) < value {
                Err::<(), Error>(Error::BalanceLow)
            } else {
                Ok::<(), Error>(())
            },
            r is Err ==> *final(self) == *old(self),
            r is Ok ==> forall|w: AccountId|
                #[trigger] final(self).finance.bal_of(w) == old(self).finance.bal_of(w) - (if w
                    == who {
                    value as int
                } else {
                    0int
                }) + (if w == VAULT_ACCOUNT {
                    value as int
                } else {
                    0int
                }),
            r is Ok ==> forall|o: AccountId|
                #[trigger] final(self).finance.vault_of(o) == if o == oid {
                    Some(
                        ((match old(self).finance.vault_of(oid) {
                            Some(v) => v as int,
                            None => 0int,
                        }) + value) as u64,
                    )
                } else {
                    old(self).finance.vault_of(o)
                },
            final(self).finance.total == old(self).finance.total,
            final(self).ledger == old(self).ledger,
            final(self).counter == old(self).counter,
            final(self).orgs == old(self).orgs,
            final(self).proposals == old(self).proposals,
            final(self).stake == old(self).stake,
            final(self).events == old(self).events,
    {
        self.finance.transfer_to_vault(oid, who, value)
    }

    /// Deposit into the vault of the organization numbered `id`; the
    /// organization must exist.
    pub fn on_reserve_to_vault(&mut self, id: OrgCount, who: AccountId, value: Balance) -> (r:
        Result<(), Error>)
        requires
            old(self).wf(),
            who != VAULT_ACCOUNT,
        ensures
            final(self).wf(),
            r == if old(self).org_of((ORG_ACCOUNT_BASE + id) as u64) is None {
                Err::<(), Error>(Error::OrganizationNotFound)
            } else if old(self).finance.bal_of(who) < value {
                Err::<(), Error>(Error::BalanceLow)
            } else {
                Ok::<(), Error>(())
            },
            r is Err ==> *final(self) == *old(self),
            r is Ok ==> forall|w: AccountId|
                #[trigger] final(self).finance.bal_of(w) == old(self).finance.bal_of(w) - (if w
                    == who {
                    value as int
                } else {
                    0int
                }) + (if w == VAULT_ACCOUNT {
                    value as int
                } else {
                    0int
                }),
            r is Ok ==> forall|o: AccountId|
                #[trigger] final(self).finance.vault_of(o) == if o == ORG_ACCOUNT_BASE + id {
                    Some(
                        ((match old(self).finance.vault_of((ORG_ACCOUNT_BASE + id) as u64) {
                            Some(v) => v as int,
                            None => 0int,
                        }) + value) as u64,
                    )
                } else {
                    old(self).finance.vault_of(o)
                },
            final(self).finance.total == old(self).finance.total,
            final(self).ledger == old(self).ledger,
            final(self).counter == old(self).counter,
            final(self).orgs == old(self).orgs,
            final(self).proposals == old(self).proposals,
            final(self).stake == old(self).stake,
            final(self).events == old(self).events,
    {
        let oid = Self::counter_2_orgid(id);
        match self.find_org(oid) {
            Some(_) => self.reserve_to_vault(oid, who, value),
            None => Err(Error::OrganizationNotFound),
        }
    }

    /// Transfer from the vault of `oid` to `to`, as a passed proposal's
    /// decision directs.
    pub fn handle_transfer_by_decision(&mut self, oid: AccountId, to: AccountId, value: Balance) -> (r:
        Result<(), Error>)
        requires
            old(self).wf(),
        ensures
            final(self).wf(),
            r == if old(self).finance.vault_of(oid) is None {
                Err::<(), Error>(Error::UnknownOwnerID)
            } else if old(self).finance.vault_of(oid)->Some_0 < value {
                Err::<(), Error>(Error::BalanceLow)
            } else {
                Ok::<(), Error>(())
            },
            r is Err ==> *final(self) == *old(self),
            r is Ok ==> forall|w: AccountId|
                #[trigger] final(self).finance.bal_of(w) == old(self).finance.bal_of(w) - (if w
                    == VAULT_ACCOUNT {
                    value as int
                } else {
                    0int
                }) + (if w == to {
                    value as int
                } else {
                    0int
                }),
            r is Ok ==> forall|o: AccountId|
                #[trigger] final(self).finance.vault_of(o) == if o == oid {
                    Some((old(self).finance.vault_of(oid)->Some_0 - value) as u64)
                } else {
                    old(self).finance.vault_of(o)
                },
            final(self).finance.total == old(self).finance.total,
            final(self).ledger == old(self).ledger,
            final(self).counter == old(self).counter,
            final(self).orgs == old(self).orgs,
            final(self).proposals == old(self).proposals,
            final(self).stake == old(self).stake,
            final(self).events == old(self).events,
    {
        self.finance.spend_organization_vault(oid, to, value)
    }

    /// Release every recorded voter's full locked weight, best-effort, and
    /// append one `UnLocked` event per voter.
    fn unlock_voters(&mut self, aid: AssetId, votes: &Vec<VoteRecord>)
        requires
            old(self).wf(),
        ensures
            final(self).wf(),
            final(self).ledger.accounts_map() == unlock_all_tr(
                old(self).ledger.accounts_map(),
                aid,
                votes@,
            ),
            final(self).ledger.assets == old(self).ledger.assets,
            final(self).ledger.next_asset_id == old(self).ledger.next_asset_id,
            final(self).finance == old(self).finance,
            final(self).counter == old(self).counter,
            final(self).orgs == old(self).orgs,
            final(self).proposals == old(self).proposals,
            final(self).stake == old(self).stake,
            final(self).events@ == old(self).events@ + unlock_events(aid, votes@),
    {
        let ghost m0 = self.ledger.accounts_map();
        let ghost e0 = self.events@;
        let n = votes.len();
        proof {
            assert(votes@.subrange(0, 0) =~= Seq::<VoteRecord>::empty());
            assert(self.events@ =~= e0 + unlock_events(aid, votes@.subrange(0, 0)));
        }
        let mut i: usize = 0;
        while i < n
            invariant
                self.wf(),
                n == votes@.len(),
                i <= n,
                self.ledger.accounts_map() == unlock_all_tr(m0, aid, votes@.subrange(0, i as int)),
                self.ledger.assets == old(self).ledger.assets,
                self.ledger.next_asset_id == old(self).ledger.next_asset_id,
                self.finance == old(self).finance,
                self.counter == old(self).counter,
                self.orgs == old(self).orgs,
                self.proposals == old(self).proposals,
                self.stake == old(self).stake,
                self.events@ == e0 + unlock_events(aid, votes@.subrange(0, i as int)),
                m0 == old(self).ledger.accounts_map(),
                e0 == old(self).events@,
            decreases n - i,
        {
            let rec = votes[i];
            let _ = self.ledger.unlock(aid, rec.voter, rec.amount);
            self.events.push(Event::UnLocked { asset: aid, who: rec.voter, amount: rec.amount });
            proof {
                assert(votes@.subrange(0, i + 1).drop_last() =~= votes@.subrange(0, i as int));
                assert(votes@.subrange(0, i + 1).last() == rec);
                assert(self.events@ =~= e0 + unlock_events(aid, votes@.subrange(0, i + 1)));
            }
            i = i + 1;
        }
        proof {
            assert(votes@.subrange(0, n as int) =~= votes@);
        }
    }

    /// Try to close the proposal under `pid`: decide expiry against
    /// `height` and the tally against the proposal's rule; a passed, live
    /// proposal dispatches its action; a passed or expired proposal is
    /// removed, every voter's lock released, and the creation stake
    /// refunded to the creator from the vault under `oid`. A proposal that
    /// is neither passed nor expired stays open, untouched.
    pub fn try_close_proposal(
        &mut self,
        oid: AccountId,
        aid: AssetId,
        pid: &Vec<u8>,
        height: BlockNumber,
    ) -> (r: Result<(), Error>)
        requires
            old(self).wf(),
        ensures
            final(self).wf(),
            close_post(*old(self), *final(self), r, oid, aid, pid@, height),
    {
        let i = match self.find_proposal(pid) {
            Some(i) => i,
            None => {
                return Err(Error::ProposalNotFound);
            },
        };
        let p = self.proposals[i].proposal.clone();
        let is_expired = p.detail.is_expire(height);
        let is_passed = self.is_pass(&p);
        if !is_expired && !is_passed {
            return Ok(());
        }
        let dispatching = is_passed && !is_expired;
        let mut spend_ok = false;
        let mut spend_value: Balance = 0;
        if dispatching {
            match decode_action(&p.call) {
                Some(Action::VaultTransfer { dest: _, value }) => {
                    spend_value = value;
                    spend_ok = match self.finance.vault_balance_of(p.org) {
                        Ok(v) => v >= value,
                        Err(_) => false,
                    };
                },
                None => {
                    return Err(Error::ProposalDecodeFailed);
                },
            }
        }
        // the vault under `oid` as it will stand after the prospective spend
        let vault1: Option<Balance> = match self.finance.vault_balance_of(oid) {
            Ok(v) => if spend_ok && p.org == oid {
                Some(v - spend_value)
            } else {
                Some(v)
            },
            Err(_) => None,
        };
        match vault1 {
            None => {
                return Err(Error::UnknownOwnerID);
            },
            Some(v) => {
                if v < self.stake {
                    return Err(Error::BalanceLow);
                }
            },
        }
        if dispatching {
            let dres = self.base_call_dispatch(pid, &p);
            proof {
                assert(dres is Ok);
            }
        }
        let ghost s1 = *self;
        self.remove_proposal_by_id(pid);
        let ghost s2 = *self;
        self.unlock_voters(aid, &p.detail.votes);
        let ghost s3 = *self;
        let stake = self.stake;
        let refund = self.finance.unlock_balance(oid, p.detail.creator, stake);
        proof {
            assert(refund is Ok);
        }
        let ghost s4 = *self;
        if is_expired {
            self.events.push(Event::ProposalRefused { org: p.org });
        }
        if is_passed {
            self.events.push(Event::ProposalPassed { org: p.org });
        }
        proof {
            let pre0 = *old(self);
            assert forall|x: Seq<u8>|
                #[trigger] self.prop_of(x) == if x == pid@ {
                    None::<Proposal>
                } else {
                    pre0.prop_of(x)
                } by {
                assert(s2.prop_of(x) == if x == pid@ {
                    None::<Proposal>
                } else {
                    s1.prop_of(x)
                });
                assert(s1.prop_of(x) == pre0.prop_of(x));
                assert(self.prop_of(x) == s2.prop_of(x));
            }
            assert forall|w: AccountId| #[trigger] self.finance.bal_of(w) == s4.finance.bal_of(
                w,
            ) by {}
            assert forall|o: AccountId| #[trigger] self.finance.vault_of(o) == s4.finance.vault_of(
                o,
            ) by {}
            assert forall|w: AccountId| s1.finance.bal_of(w) == s3.finance.bal_of(w) by {}
            assert forall|o: AccountId| s1.finance.vault_of(o) == s3.finance.vault_of(o) by {}
            let pre = *old(self);
            let pv = pre.prop_of(pid@)->Some_0;
            let a = action_decoded(pv.call@)->Some_0;
            assert(self.events@ =~= pre.events@ + (if dispatching {
                seq![
                    Event::ProposalFinalized {
                        org: pv.org,
                        success: pre.finance.vault_of(pv.org) is Some && pre.finance.vault_of(
                            pv.org,
                        )->Some_0 >= a->VaultTransfer_value,
                    },
                ]
            } else {
                Seq::<Event>::empty()
            }) + unlock_events(aid, pv.detail.votes@) + (if is_expired {
                seq![Event::ProposalRefused { org: pv.org }]
            } else {
                Seq::<Event>::empty()
            }) + (if is_passed {
                seq![Event::ProposalPassed { org: pv.org }]
            } else {
                Seq::<Event>::empty()
            }));
        }
        Ok(())
    }

    /// Vote on the proposal under `pid` in the organization under `oid`:
    /// lock `value` of the voting token from the voter's free balance,
    /// merge the vote, and then attempt to close.
    ///
    /// Voting after expiry performs the expiry close and fails with
    /// `ProposalExpired` — the vote itself never registers. Any other
    /// failure leaves the state untouched.
    pub fn vote_on_proposal(
        &mut self,
        oid: AccountId,
        pid: &Vec<u8>,
        voter: AccountId,
        value: Balance,
        vote_for: bool,
        height: BlockNumber,
    ) -> (r: Result<(), Error>)
        requires
            old(self).wf(),
        ensures
            final(self).wf(),
            vote_post(*old(self), *final(self), r, oid, pid@, voter, value, vote_for, height),
    {
        if !self.is_member(oid, &voter) {
            return Err(Error::NotMemberInOrg);
        }
        let aid = match self.find_org(oid) {
            Some(j) => self.orgs[j].info.get_asset_id(),
            None => {
                // a member implies the organization exists
                return Err(Error::OrganizationNotFound);
            },
        };
        let i = match self.find_proposal(pid) {
            Some(i) => i,
            None => {
                return Err(Error::ProposalNotFound);
            },
        };
        let p = self.proposals[i].proposal.clone();
        if p.detail.is_expire(height) {
            let res = self.try_close_proposal(oid, aid, pid, height);
            return match res {
                Ok(_) => Err(Error::ProposalExpired),
                Err(e) => Err(e),
            };
        }
        if self.ledger.free_balance(aid, voter) < value {
            return Err(Error::BalanceLow);
        }
        // decide ahead whether the merged vote closes the proposal, so that
        // a close that cannot complete leaves the state untouched
        let mut p2 = p;
        p2.detail.vote(voter, value, vote_for);
        let will_pass = self.is_pass(&p2);
        if will_pass {
            match decode_action(&p2.call) {
                Some(Action::VaultTransfer { dest: _, value: spend_value }) => {
                    let spend_ok = match self.finance.vault_balance_of(p2.org) {
                        Ok(v) => v >= spend_value,
                        Err(_) => false,
                    };
                    let vault1: Option<Balance> = match self.finance.vault_balance_of(oid) {
                        Ok(v) => if spend_ok && p2.org == oid {
                            Some(v - spend_value)
                        } else {
                            Some(v)
                        },
                        Err(_) => None,
                    };
                    match vault1 {
                        None => {
                            return Err(Error::UnknownOwnerID);
                        },
                        Some(v) => {
                            if v < self.stake {
                                return Err(Error::BalanceLow);
                            }
                        },
                    }
                },
                None => {
                    return Err(Error::ProposalDecodeFailed);
                },
            }
        }
        let lres = self.ledger.base_lock(aid, voter, value);
        proof {
            assert(lres is Ok);
        }
        self.events.push(Event::Locked { asset: aid, who: voter, amount: value });
        let vres = self.base_vote_on_proposal(pid, voter, value, vote_for);
        proof {
            assert(vres is Ok);
        }
        let ghost mid = *self;
        let cres = self.try_close_proposal(oid, aid, pid, height);
        proof {
            assert(voted_state(*old(self), mid, aid, pid@, voter, value, vote_for));
            assert(cres is Ok);
        }
        Ok(())
    }

    /// Vote on the proposal under `pid`, resolving the organization from
    /// the stored proposal itself.
    pub fn on_vote_proposal(
        &mut self,
        pid: &Vec<u8>,
        who: AccountId,
        value: Balance,
        yesorno: bool,
        cur: BlockNumber,
    ) -> (r: Result<(), Error>)
        requires
            old(self).wf(),
        ensures
            final(self).wf(),
            match old(self).prop_of(pid@) {
                None => r == Err::<(), Error>(Error::ProposalNotFound) && *final(self) == *old(
                    self,
                ),
                Some(p) => vote_post(
                    *old(self),
                    *final(self),
                    r,
                    p.org,
                    pid@,
                    who,
                    value,
                    yesorno,
                    cur,
                ),
            },
    {
        match self.find_proposal(pid) {
            Some(i) => {
                let org = self.proposals[i].proposal.org;
                self.vote_on_proposal(org, pid, who, value, yesorno, cur)
            },
            None => Err(Error::ProposalNotFound),
        }
    }

    /// Create a proposal in the organization numbered `id`: the sub-rule
    /// must be inheritance-valid against the organization's baseline, the
    /// creator must be a member and able to stake the flat creation
    /// deposit, and no byte-identical proposal may already be staged.
    pub fn on_create_proposal(
        &mut self,
        id: OrgCount,
        who: AccountId,
        expire: BlockNumber,
        sub_param: OrgRuleParam,
        call: Vec<u8>,
    ) -> (r: Result<(), Error>)
        requires
            old(self).wf(),
            who != VAULT_ACCOUNT,
        ensures
            final(self).wf(),
            ({
                let oid = (ORG_ACCOUNT_BASE + id) as u64;
                let theid = proposal_id_parts(
                    oid,
                    call@,
                    who,
                    expire,
                    sub_param,
                    Seq::<VoteRecord>::empty(),
                );
                match old(self).org_of(oid) {
                    None => r == Err::<(), Error>(Error::OrganizationNotFound) && *final(self)
                        == *old(self),
                    Some(org) => {
                        if !rule_inherit_valid(org.param, sub_param) {
                            r == Err::<(), Error>(Error::WrongRuleParam) && *final(self) == *old(
                                self,
                            )
                        } else if !org.members@.contains(who) {
                            r == Err::<(), Error>(Error::NotMemberInOrg) && *final(self) == *old(
                                self,
                            )
                        } else if old(self).finance.bal_of(who) < old(self).stake {
                            r == Err::<(), Error>(Error::BalanceLow) && *final(self) == *old(self)
                        } else if old(self).prop_of(theid) is Some {
                            r == Err::<(), Error>(Error::ProposalDuplicate) && *final(self)
                                == *old(self)
                        } else {
                            &&& r == Ok::<(), Error>(())
                            &&& final(self).prop_of(theid) is Some
                            &&& {
                                let q = final(self).prop_of(theid)->Some_0;
                                q.org == oid && q.call@ == call@ && q.detail.creator == who
                                    && q.detail.end_dt == expire && q.detail.sub_param == sub_param
                                    && q.detail.votes@.len() == 0
                            }
                            &&& forall|x: Seq<u8>|
                                x != theid ==> #[trigger] final(self).prop_of(x) == old(
                                    self,
                                ).prop_of(x)
                            &&& forall|w: AccountId|
                                #[trigger] final(self).finance.bal_of(w) == old(
                                    self,
                                ).finance.bal_of(w) - (if w == who {
                                    old(self).stake as int
                                } else {
                                    0int
                                }) + (if w == VAULT_ACCOUNT {
                                    old(self).stake as int
                                } else {
                                    0int
                                })
                            &&& forall|o: AccountId|
                                #[trigger] final(self).finance.vault_of(o) == if o == oid {
                                    Some(
                                        ((match old(self).finance.vault_of(oid) {
                                            Some(v) => v as int,
                                            None => 0int,
                                        }) + old(self).stake) as u64,
                                    )
                                } else {
                                    old(self).finance.vault_of(o)
                                }
                            &&& final(self).finance.total == old(self).finance.total
                            &&& final(self).ledger == old(self).ledger
                            &&& final(self).orgs == old(self).orgs
                            &&& final(self).counter == old(self).counter
                            &&& final(self).stake == old(self).stake
                            &&& final(self).events@ == old(self).events@.push(
                                Event::ProposalCreated { org: oid, creator: who },
                            )
                        }
                    },
                }
            }),
    {
        let oid = Self::counter_2_orgid(id);
        let org = match self.get_orginfo_by_id(oid) {
            Ok(o) => o,
            Err(e) => {
                return Err(e);
            },
        };
        if !org.param.inherit_valid(sub_param) {
            return Err(Error::WrongRuleParam);
        }
        if !self.is_member(oid, &who) {
            return Err(Error::NotMemberInOrg);
        }
        let stake = self.stake;
        if self.finance.free_balance(who) < stake {
            return Err(Error::BalanceLow);
        }
        let proposal = Proposal { org: oid, call, detail: ProposalDetail::new(who, expire, sub_param) };
        proof {
            assert(proposal.detail.votes@ =~= Seq::<VoteRecord>::empty());
        }
        // check for a duplicate before staking, so that a rejected creation
        // leaves no stake behind
        let pid = proposal_id_bytes(&proposal);
        match self.find_proposal(&pid) {
            Some(_) => {
                return Err(Error::ProposalDuplicate);
            },
            None => {},
        }
        let lres = self.finance.lock_balance(oid, who, stake);
        proof {
            assert(lres is Ok);
        }
        let cres = self.base_create_proposal(oid, proposal);
        proof {
            assert(cres is Ok);
        }
        Ok(())
    }

    /// Add `who` to the organization numbered `id` and, when `value` is
    /// positive, transfer that much of the acting member's voting-token
    /// balance to the new member — one atomic step: if anything fails,
    /// nothing changes.
    pub fn on_add_member_and_assigned_token(
        &mut self,
        owner: AccountId,
        who: AccountId,
        id: OrgCount,
        value: Balance,
    ) -> (r: Result<(), Error>)
        requires
            old(self).wf(),
        ensures
            final(self).wf(),
            ({
                let oid = (ORG_ACCOUNT_BASE + id) as u64;
                match old(self).org_of(oid) {
                    None => r == Err::<(), Error>(Error::OrganizationNotFound) && *final(self)
                        == *old(self),
                    Some(org) => {
                        let asset = org.asset.id;
                        if old(self).ledger.free_of(asset, owner) < value {
                            r == Err::<(), Error>(Error::TokenBalanceLow) && *final(self) == *old(
                                self,
                            )
                        } else if !org.members@.contains(owner) {
                            r == Err::<(), Error>(Error::NotMemberInOrg) && *final(self) == *old(
                                self,
                            )
                        } else if org.members@.contains(who) {
                            r == Err::<(), Error>(Error::MemberDuplicate) && *final(self) == *old(
                                self,
                            )
                        } else {
                            &&& r == Ok::<(), Error>(())
                            &&& final(self).org_of(oid) is Some
                            &&& final(self).org_of(oid)->Some_0.members@ == org.members@.push(who)
                            &&& final(self).org_of(oid)->Some_0.param == org.param
                            &&& final(self).org_of(oid)->Some_0.asset == org.asset
                            &&& forall|o: AccountId|
                                o != oid ==> #[trigger] final(self).org_of(o) == old(self).org_of(
                                    o,
                                )
                            &&& (value > 0 ==> {
                                &&& crate::token::acct_at(final(self).ledger.accounts@, asset, owner)
                                    == (crate::token::AccountAssetMetadata {
                                    free: (old(self).ledger.free_of(asset, owner) - value) as u64,
                                    frozen: crate::token::acct_at(
                                        old(self).ledger.accounts@,
                                        asset,
                                        owner,
                                    ).frozen,
                                })
                                &&& crate::token::acct_at(final(self).ledger.accounts@, asset, who)
                                    == (crate::token::AccountAssetMetadata {
                                    free: (old(self).ledger.free_of(asset, who) + value) as u64,
                                    frozen: crate::token::acct_at(
                                        old(self).ledger.accounts@,
                                        asset,
                                        who,
                                    ).frozen,
                                })
                                &&& forall|a: AssetId, w: AccountId|
                                    ((a != asset || (w != owner && w != who)) ==> #[trigger]
                                    crate::token::acct_at(final(self).ledger.accounts@, a, w)
                                        == crate::token::acct_at(old(self).ledger.accounts@, a, w))
                                &&& final(self).events@ == old(self).events@.push(
                                    Event::Transferred { asset, from: owner, to: who, amount: value },
                                )
                            })
                            &&& (value == 0 ==> final(self).ledger == old(self).ledger
                                && final(self).events == old(self).events)
                            &&& final(self).ledger.assets == old(self).ledger.assets
                            &&& final(self).ledger.next_asset_id == old(self).ledger.next_asset_id
                            &&& final(self).finance == old(self).finance
                            &&& final(self).counter == old(self).counter
                            &&& final(self).proposals == old(self).proposals
                            &&& final(self).stake == old(self).stake
                        }
                    },
                }
            }),
    {
        let oid = Self::counter_2_orgid(id);
        let asset_id = match self.get_token_id_by_oid(oid) {
            Ok(a) => a,
            Err(e) => {
                return Err(e);
            },
        };
        let free = self.ledger.free_balance(asset_id, owner);
        if free < value {
            return Err(Error::TokenBalanceLow);
        }
        if !self.is_member(oid, &owner) {
            return Err(Error::NotMemberInOrg);
        }
        if self.is_member(oid, &who) {
            return Err(Error::MemberDuplicate);
        }
        let ares = self.base_add_member_by_orgid(oid, who);
        proof {
            assert(ares is Ok);
        }
        let ghost s1 = *self;
        proof {
            assert forall|o: AccountId|
                o != oid implies #[trigger] s1.org_of(o) == old(self).org_of(o) by {}
        }
        if value > 0 {
            let tres = self.ledger.base_transfer(asset_id, owner, who, value);
            proof {
                assert(tres is Ok);
            }
            let ghost s2 = *self;
            self.events.push(
                Event::Transferred { asset: asset_id, from: owner, to: who, amount: value },
            );
            proof {
                assert(s1.ledger == old(self).ledger);
                assert(self.ledger == s2.ledger);
                assert forall|a: AssetId, w: AccountId|
                    (a != asset_id || (w != owner && w != who)) implies #[trigger]
                    crate::token::acct_at(self.ledger.accounts@, a, w) == crate::token::acct_at(
                        old(self).ledger.accounts@,
                        a,
                        w,
                    ) by {
                    assert(crate::token::acct_at(s2.ledger.accounts@, a, w) == if a == asset_id
                        && w == owner {
                        crate::token::acct_at(s2.ledger.accounts@, a, w)
                    } else if a == asset_id && w == who {
                        crate::token::acct_at(s2.ledger.accounts@, a, w)
                    } else {
                        crate::token::acct_at(s1.ledger.accounts@, a, w)
                    });
                }
            }
        }
        proof {
            assert forall|o: AccountId|
                o != oid implies #[trigger] self.org_of(o) == s1.org_of(o) by {
                assert(self.orgs == s1.orgs);
            }
        }
        Ok(())
    }

    /// Add `target` to the organization numbered `id` without assigning any
    /// tokens; any member may add a new member.
    pub fn add_member_by_onwer(&mut self, owner: AccountId, target: AccountId, id: OrgCount) -> (r:
        Result<(), Error>)
        requires
            old(self).wf(),
        ensures
            final(self).wf(),
            ({
                let oid = (ORG_ACCOUNT_BASE + id) as u64;
                match old(self).org_of(oid) {
                    None => r == Err::<(), Error>(Error::OrganizationNotFound) && *final(self)
                        == *old(self),
                    Some(org) => {
                        if !org.members@.contains(owner) {
                            r == Err::<(), Error>(Error::NotMemberInOrg) && *final(self) == *old(
                                self,
                            )
                        } else if org.members@.contains(target) {
                            r == Err::<(), Error>(Error::MemberDuplicate) && *final(self) == *old(
                                self,
                            )
                        } else {
                            &&& r == Ok::<(), Error>(())
                            &&& final(self).org_of(oid) is Some
                            &&& final(self).org_of(oid)->Some_0.members@ == org.members@.push(
                                target,
                            )
                            &&& final(self).org_of(oid)->Some_0.param == org.param
                            &&& final(self).org_of(oid)->Some_0.asset == org.asset
                            &&& forall|o: AccountId|
                                o != oid ==> #[trigger] final(self).org_of(o) == old(self).org_of(
                                    o,
                                )
                            &&& final(self).ledger == old(self).ledger
                            &&& final(self).finance == old(self).finance
                            &&& final(self).counter == old(self).counter
                            &&& final(self).proposals == old(self).proposals
                            &&& final(self).stake == old(self).stake
                            &&& final(self).events == old(self).events
                        }
                    },
                }
            }),
    {
        self.on_add_member_and_assigned_token(owner, target, id, 0)
    }

    /// Create an organization: issue a new voting token of `total` units to
    /// `owner`, insert `owner` as a member, and persist the record under
    /// the next counter value.
    pub fn create_organization(&mut self, owner: AccountId, total: Balance, info: OrgInfo) -> (r:
        Result<(), Error>)
        requires
            old(self).wf(),
            info.wf(),
        ensures
            final(self).wf(),
            r == if old(self).counter == u32::MAX || old(self).ledger.next_asset_id == u64::MAX {
                Err::<(), Error>(Error::StorageOverflow)
            } else {
                Ok::<(), Error>(())
            },
            r is Err ==> *final(self) == *old(self),
            r is Ok ==> ({
                let oid = (ORG_ACCOUNT_BASE + old(self).counter) as u64;
                let aid = old(self).ledger.next_asset_id;
                &&& final(self).counter == old(self).counter + 1
                &&& final(self).org_of(oid) is Some
                &&& final(self).org_of(oid)->Some_0.members@ == (if info.members@.contains(owner) {
                    info.members@
                } else {
                    info.members@.push(owner)
                })
                &&& final(self).org_of(oid)->Some_0.param == info.param
                &&& final(self).org_of(oid)->Some_0.asset.id == aid
                &&& forall|o: AccountId|
                    o != oid ==> #[trigger] final(self).org_of(o) == old(self).org_of(o)
                &&& final(self).ledger.next_asset_id == aid + 1
                &&& final(self).ledger.has_asset(aid)
                &&& final(self).ledger.issuer_of(aid) == owner
                &&& final(self).ledger.supply_of(aid) == total
                &&& forall|x: AssetId|
                    x != aid ==> #[trigger] crate::token::asset_at(final(self).ledger.assets@, x)
                        == crate::token::asset_at(old(self).ledger.assets@, x)
                &&& crate::token::acct_at(final(self).ledger.accounts@, aid, owner)
                    == (crate::token::AccountAssetMetadata { free: total, frozen: 0 })
                &&& forall|a: AssetId, w: AccountId|
                    (a != aid || w != owner) ==> #[trigger] crate::token::acct_at(
                        final(self).ledger.accounts@,
                        a,
                        w,
                    ) == crate::token::acct_at(old(self).ledger.accounts@, a, w)
                &&& final(self).finance == old(self).finance
                &&& final(self).proposals == old(self).proposals
                &&& final(self).stake == old(self).stake
                &&& final(self).events@ == old(self).events@.push(
                    Event::Issued { asset: aid, owner, total },
                ).push(Event::OrganizationCreated { org: oid, number: old(self).counter })
            }),
    {
        if self.counter == u32::MAX || self.ledger.next_asset_id == u64::MAX {
            // either id allocator exhausted: no record may be half-created
            return Err(Error::StorageOverflow);
        }
        let asset_id = self.create_new_token(owner, total);
        let mut info = info;
        let ares = info.add_member(owner);
        proof {
            assert(ares is Ok);
        }
        info.set_asset_id(asset_id);
        let sres = self.storage_new_organization(info);
        proof {
            assert(sres is Ok);
        }
        Ok(())
    }

    /// Deposit `value` base currency from `who` into the vault of the
    /// organization numbered `id`.
    pub fn deposit_to_organization(&mut self, who: AccountId, id: OrgCount, value: Balance) -> (r:
        Result<(), Error>)
        requires
            old(self).wf(),
            who != VAULT_ACCOUNT,
        ensures
            final(self).wf(),
            r == if old(self).org_of((ORG_ACCOUNT_BASE + id) as u64) is None {
                Err::<(), Error>(Error::OrganizationNotFound)
            } else if old(self).finance.bal_of(who) < value {
                Err::<(), Error>(Error::BalanceLow)
            } else {
                Ok::<(), Error>(())
            },
            r is Err ==> *final(self) == *old(self),
            r is Ok ==> forall|w: AccountId|
                #[trigger] final(self).finance.bal_of(w) == old(self).finance.bal_of(w) - (if w
                    == who {
                    value as int
                } else {
                    0int
                }) + (if w == VAULT_ACCOUNT {
                    value as int
                } else {
                    0int
                }),
            r is Ok ==> forall|o: AccountId|
                #[trigger] final(self).finance.vault_of(o) == if o == ORG_ACCOUNT_BASE + id {
                    Some(
                        ((match old(self).finance.vault_of((ORG_ACCOUNT_BASE + id) as u64) {
                            Some(v) => v as int,
                            None => 0int,
                        }) + value) as u64,
                    )
                } else {
                    old(self).finance.vault_of(o)
                },
            final(self).finance.total == old(self).finance.total,
            final(self).ledger == old(self).ledger,
            final(self).counter == old(self).counter,
            final(self).orgs == old(self).orgs,
            final(self).proposals == old(self).proposals,
            final(self).stake == old(self).stake,
            final(self).events == old(self).events,
    {
        self.on_reserve_to_vault(id, who, value)
    }

    /// Vote on the proposal under `pid` as the dispatch surface does: the
    /// organization comes from the stored proposal, the height from the
    /// caller's clock.
    pub fn vote_proposal(
        &mut self,
        who: AccountId,
        pid: &Vec<u8>,
        value: Balance,
        vote_for: bool,
        height: BlockNumber,
    ) -> (r: Result<(), Error>)
        requires
            old(self).wf(),
        ensures
            final(self).wf(),
            match old(self).prop_of(pid@) {
                None => r == Err::<(), Error>(Error::ProposalNotFound) && *final(self) == *old(
                    self,
                ),
                Some(p) => vote_post(
                    *old(self),
                    *final(self),
                    r,
                    p.org,
                    pid@,
                    who,
                    value,
                    vote_for,
                    height,
                ),
            },
    {
        self.on_vote_proposal(pid, who, value, vote_for, height)
    }

    /// Create a proposal expiring `length` blocks after the current height
    /// `cur` (saturating), staking the flat creation deposit.
    pub fn create_proposal(
        &mut self,
        who: AccountId,
        id: OrgCount,
        length: BlockNumber,
        sub_param: OrgRuleParam,
        call: Vec<u8>,
        cur: BlockNumber,
    ) -> (r: Result<(), Error>)
        requires
            old(self).wf(),
            who != VAULT_ACCOUNT,
        ensures
            final(self).wf(),
            ({
                let oid = (ORG_ACCOUNT_BASE + id) as u64;
                let expire = if cur + length > u64::MAX {
                    u64::MAX
                } else {
                    (cur + length) as u64
                };
                let theid = proposal_id_parts(
                    oid,
                    call@,
                    who,
                    expire,
                    sub_param,
                    Seq::<VoteRecord>::empty(),
                );
                match old(self).org_of(oid) {
                    None => r == Err::<(), Error>(Error::OrganizationNotFound) && *final(self)
                        == *old(self),
                    Some(org) => {
                        if !rule_inherit_valid(org.param, sub_param) {
                            r == Err::<(), Error>(Error::WrongRuleParam) && *final(self) == *old(
                                self,
                            )
                        } else if !org.members@.contains(who) {
                            r == Err::<(), Error>(Error::NotMemberInOrg) && *final(self) == *old(
                                self,
                            )
                        } else if old(self).finance.bal_of(who) < old(self).stake {
                            r == Err::<(), Error>(Error::BalanceLow) && *final(self) == *old(self)
                        } else if old(self).prop_of(theid) is Some {
                            r == Err::<(), Error>(Error::ProposalDuplicate) && *final(self)
                                == *old(self)
                        } else {
                            &&& r == Ok::<(), Error>(())
                            &&& final(self).prop_of(theid) is Some
                            &&& {
                                let q = final(self).prop_of(theid)->Some_0;
                                q.org == oid && q.call@ == call@ && q.detail.creator == who
                                    && q.detail.end_dt == expire && q.detail.sub_param == sub_param
                                    && q.detail.votes@.len() == 0
                            }
                            &&& forall|x: Seq<u8>|
                                x != theid ==> #[trigger] final(self).prop_of(x) == old(
                                    self,
                                ).prop_of(x)
                        }
                    },
                }
            }),
    {
        let expire = if length > u64::MAX - cur {
            u64::MAX
        } else {
            cur + length
        };
        self.on_create_proposal(id, who, expire, sub_param, call)
    }

    /// Explicitly attempt to close the proposal under `pid` — the path by
    /// which anyone sweeps up an expired proposal.
    pub fn veto_proposal(&mut self, pid: &Vec<u8>, height: BlockNumber) -> (r: Result<(), Error>)
        requires
            old(self).wf(),
        ensures
            final(self).wf(),
            match old(self).prop_of(pid@) {
                None => r == Err::<(), Error>(Error::ProposalNotFound) && *final(self) == *old(
                    self,
                ),
                Some(p) => match old(self).org_of(p.org) {
                    None => r == Err::<(), Error>(Error::OrganizationNotFound) && *final(self)
                        == *old(self),
                    Some(org) => close_post(
                        *old(self),
                        *final(self),
                        r,
                        p.org,
                        org.asset.id,
                        pid@,
                        height,
                    ),
                },
            },
    {
        let i = match self.find_proposal(pid) {
            Some(i) => i,
            None => {
                return Err(Error::ProposalNotFound);
            },
        };
        let org_id = self.proposals[i].proposal.org;
        let aid = match self.get_token_id_by_oid(org_id) {
            Ok(a) => a,
            Err(e) => {
                return Err(e);
            },
        };
        self.try_close_proposal(org_id, aid, pid, height)
    }

    /// The vault balance recorded for `id`.
    pub fn get_local_balance(&self, id: AccountId) -> (r: Result<Balance, Error>)
        requires
            self.wf(),
        ensures
            r == match self.finance.vault_of(id) {
                Some(v) => Ok::<Balance, Error>(v),
                None => Err::<Balance, Error>(Error::UnknownOwnerID),
            },
    {
        self.finance.vault_balance_of(id)
    }
}

} // verus!
