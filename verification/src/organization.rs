//! The organization and proposal data model: membership, the associated
//! voting token, and per-proposal vote records with their tally.

use vstd::prelude::*;
use crate::{AccountId, AssetId, Balance, BlockNumber};
use crate::errors::Error;
use crate::rules::{rule_pass, OrgRuleParam};

verus! {

/// The one asset an organization votes with.
#[derive(Clone, Copy, PartialEq, Eq, Structural, Debug)]
pub struct AssetInfo {
    /// Kind of asset.
    pub id: AssetId,
}

impl AssetInfo {
    pub fn id(&self) -> (r: AssetId)
        ensures
            r == self.id,
    {
        self.id
    }

    pub fn set_id(&mut self, id: AssetId)
        ensures
            final(self).id == id,
    {
        self.id = id;
    }
}

/// One recorded vote: the voter's accumulated locked weight and their
/// latest stance.
#[derive(Clone, Copy, PartialEq, Eq, Structural, Debug)]
pub struct VoteRecord {
    pub voter: AccountId,
    /// Accumulated locked amount over all of this voter's calls.
    pub amount: Balance,
    /// The latest direction; the whole weight counts toward it.
    pub approve: bool,
}

/// Last-match lookup of a voter's record.
pub open spec fn vote_at(s: Seq<VoteRecord>, voter: AccountId) -> Option<VoteRecord>
    decreases s.len(),
{
    if s.len() == 0 {
        None
    } else if s.last().voter == voter {
        Some(s.last())
    } else {
        vote_at(s.drop_last(), voter)
    }
}

/// No two records belong to the same voter.
pub open spec fn votes_unique(s: Seq<VoteRecord>) -> bool {
    forall|i: int, j: int|
        0 <= i < j < s.len() ==> (#[trigger] s[i]).voter != (#[trigger] s[j]).voter
}

/// `a + b` saturated at `u64::MAX`, over the integers.
pub open spec fn sat_add_int(a: int, b: int) -> int {
    if a + b > u64::MAX {
        u64::MAX as int
    } else {
        a + b
    }
}

/// The tally of a vote list: accumulated yes and no weight, each sum
/// saturating as the executable accumulation does.
pub open spec fn tally(s: Seq<VoteRecord>) -> (int, int)
    decreases s.len(),
{
    if s.len() == 0 {
        (0, 0)
    } else {
        let prev = tally(s.drop_last());
        if s.last().approve {
            (sat_add_int(prev.0, s.last().amount as int), prev.1)
        } else {
            (prev.0, sat_add_int(prev.1, s.last().amount as int))
        }
    }
}

pub proof fn lemma_tally_bounds(s: Seq<VoteRecord>)
    ensures
        0 <= tally(s).0 <= u64::MAX,
        0 <= tally(s).1 <= u64::MAX,
    decreases s.len(),
{
    if s.len() > 0 {
        lemma_tally_bounds(s.drop_last());
    }
}

pub proof fn lemma_vote_at_index(s: Seq<VoteRecord>, i: int)
    requires
        votes_unique(s),
        0 <= i < s.len(),
    ensures
        vote_at(s, s[i].voter) == Some(s[i]),
    decreases s.len(),
{
    if i < s.len() - 1 {
        assert(votes_unique(s.drop_last())) by {
            assert(forall|x: int, y: int|
                0 <= x < y < s.drop_last().len() ==> s.drop_last()[x] == s[x] && s.drop_last()[y]
                    == s[y]);
        }
        lemma_vote_at_index(s.drop_last(), i);
    }
}

pub proof fn lemma_vote_at_absent(s: Seq<VoteRecord>, voter: AccountId)
    requires
        forall|i: int| 0 <= i < s.len() ==> (#[trigger] s[i]).voter != voter,
    ensures
        vote_at(s, voter) is None,
    decreases s.len(),
{
    if s.len() > 0 {
        lemma_vote_at_absent(s.drop_last(), voter);
    }
}

pub proof fn lemma_vote_at_update(s: Seq<VoteRecord>, i: int, e: VoteRecord)
    requires
        votes_unique(s),
        0 <= i < s.len(),
        e.voter == s[i].voter,
    ensures
        votes_unique(s.update(i, e)),
        forall|v: AccountId|
            #[trigger] vote_at(s.update(i, e), v) == if v == e.voter {
                Some(e)
            } else {
                vote_at(s, v)
            },
    decreases s.len(),
{
    let t = s.update(i, e);
    assert(votes_unique(t)) by {
        assert(forall|x: int| 0 <= x < t.len() && x != i ==> t[x] == s[x]);
    }
    if i == s.len() - 1 {
        assert(t.drop_last() =~= s.drop_last());
        assert(t.last() == e);
    } else {
        assert(votes_unique(s.drop_last())) by {
            assert(forall|x: int, y: int|
                0 <= x < y < s.drop_last().len() ==> s.drop_last()[x] == s[x] && s.drop_last()[y]
                    == s[y]);
        }
        assert(t.drop_last() =~= s.drop_last().update(i, e));
        lemma_vote_at_update(s.drop_last(), i, e);
        assert forall|v: AccountId|
            #[trigger] vote_at(t, v) == if v == e.voter {
                Some(e)
            } else {
                vote_at(s, v)
            } by {
            assert(t.last() == s.last());
            assert(vote_at(t.drop_last(), v) == vote_at(s.drop_last().update(i, e), v));
            if v == e.voter {
                assert(s[i].voter != s.last().voter);
                assert(vote_at(s.drop_last().update(i, e), v) == Some(e));
            } else {
                assert(vote_at(s.drop_last().update(i, e), v) == vote_at(s.drop_last(), v));
            }
        }
    }
}

pub proof fn lemma_vote_at_push(s: Seq<VoteRecord>, e: VoteRecord)
    requires
        votes_unique(s),
        forall|i: int| 0 <= i < s.len() ==> (#[trigger] s[i]).voter != e.voter,
    ensures
        votes_unique(s.push(e)),
        forall|v: AccountId|
            #[trigger] vote_at(s.push(e), v) == if v == e.voter {
                Some(e)
            } else {
                vote_at(s, v)
            },
{
    let t = s.push(e);
    assert(votes_unique(t)) by {
        assert(forall|x: int| 0 <= x < s.len() ==> t[x] == s[x]);
        assert(t[t.len() - 1] == e);
    }
    assert(t.drop_last() =~= s);
    assert(t.last() == e);
}

/// The vote list after one vote call: the unique record of `voter` gets the
/// accumulated (saturating) amount and the latest direction; a first-time
/// voter's record is appended.
pub open spec fn merge_vote(
    s: Seq<VoteRecord>,
    voter: AccountId,
    value: Balance,
    yesorno: bool,
) -> Seq<VoteRecord>
    decreases s.len(),
{
    if s.len() == 0 {
        seq![VoteRecord { voter, amount: value, approve: yesorno }]
    } else if s.last().voter == voter {
        s.drop_last().push(
            VoteRecord {
                voter,
                amount: sat_add_int(s.last().amount as int, value as int) as u64,
                approve: yesorno,
            },
        )
    } else if vote_at(s.drop_last(), voter) is Some {
        merge_vote(s.drop_last(), voter, value, yesorno).push(s.last())
    } else {
        s.push(VoteRecord { voter, amount: value, approve: yesorno })
    }
}

/// With unique voters, merging at the matching row is an in-place update.
pub proof fn lemma_merge_vote_at(s: Seq<VoteRecord>, i: int, value: Balance, yesorno: bool)
    requires
        votes_unique(s),
        0 <= i < s.len(),
    ensures
        merge_vote(s, s[i].voter, value, yesorno) == s.update(
            i,
            VoteRecord {
                voter: s[i].voter,
                amount: sat_add_int(s[i].amount as int, value as int) as u64,
                approve: yesorno,
            },
        ),
    decreases s.len(),
{
    let voter = s[i].voter;
    let rec = VoteRecord {
        voter,
        amount: sat_add_int(s[i].amount as int, value as int) as u64,
        approve: yesorno,
    };
    if i == s.len() - 1 {
        assert(merge_vote(s, voter, value, yesorno) =~= s.update(i, rec));
    } else {
        assert(s.last().voter != voter);
        assert(votes_unique(s.drop_last())) by {
            assert(forall|x: int, y: int|
                0 <= x < y < s.drop_last().len() ==> s.drop_last()[x] == s[x] && s.drop_last()[y]
                    == s[y]);
        }
        assert(s.drop_last()[i] == s[i]);
        lemma_vote_at_index(s.drop_last(), i);
        lemma_merge_vote_at(s.drop_last(), i, value, yesorno);
        assert(merge_vote(s, voter, value, yesorno) =~= s.update(i, rec));
    }
}

/// A first-time voter's merge is an append.
pub proof fn lemma_merge_vote_absent(s: Seq<VoteRecord>, voter: AccountId, value: Balance, yesorno: bool)
    requires
        forall|i: int| 0 <= i < s.len() ==> (#[trigger] s[i]).voter != voter,
    ensures
        merge_vote(s, voter, value, yesorno) == s.push(
            VoteRecord { voter, amount: value, approve: yesorno },
        ),
    decreases s.len(),
{
    if s.len() == 0 {
        assert(merge_vote(s, voter, value, yesorno) =~= s.push(
            VoteRecord { voter, amount: value, approve: yesorno },
        ));
    } else {
        lemma_vote_at_absent(s.drop_last(), voter);
    }
}

/// A staked, time-bounded governance request's voting state: the vote
/// records, the creator, the expiry height, and the proposal's own rule.
#[derive(PartialEq, Eq, Debug)]
pub struct ProposalDetail {
    /// One record per voter.
    pub votes: Vec<VoteRecord>,
    /// The account that created the proposal.
    pub creator: AccountId,
    /// The proposal lapses once the height passes this value.
    pub end_dt: BlockNumber,
    /// The proposal's rule; inheritance-valid against the organization's.
    pub sub_param: OrgRuleParam,
}

impl Clone for ProposalDetail {
    fn clone(&self) -> (r: Self)
        ensures
            r.votes@ == self.votes@,
            r.creator == self.creator,
            r.end_dt == self.end_dt,
            r.sub_param == self.sub_param,
    {
        ProposalDetail {
            votes: clone_votes(&self.votes),
            creator: self.creator,
            end_dt: self.end_dt,
            sub_param: self.sub_param,
        }
    }
}

/// Element-wise copy of a vote list.
fn clone_votes(v: &Vec<VoteRecord>) -> (r: Vec<VoteRecord>)
    ensures
        r@ == v@,
{
    let n = v.len();
    let mut r: Vec<VoteRecord> = Vec::new();
    let mut i: usize = 0;
    while i < n
        invariant
            n == v@.len(),
            i <= n,
            r@ == v@.subrange(0, i as int),
        decreases n - i,
    {
        r.push(v[i]);
        proof {
            assert(r@ =~= v@.subrange(0, i + 1));
        }
        i = i + 1;
    }
    proof {
        assert(r@ =~= v@);
    }
    r
}

impl ProposalDetail {
    /// Per-voter uniqueness of the records.
    pub open spec fn wf(self) -> bool {
        votes_unique(self.votes@)
    }

    /// A fresh detail with no votes.
    pub fn new(who: AccountId, end: BlockNumber, subparam: OrgRuleParam) -> (r: Self)
        ensures
            r.wf(),
            r.votes@.len() == 0,
            r.creator == who,
            r.end_dt == end,
            r.sub_param == subparam,
    {
        ProposalDetail { votes: Vec::new(), creator: who, end_dt: end, sub_param: subparam }
    }

    /// Record or merge a vote: a repeated vote accumulates the locked
    /// amount (saturating), and the stored direction becomes the latest
    /// call's direction — a voter's whole weight counts toward their most
    /// recent stance.
    pub fn vote(&mut self, voter: AccountId, value: Balance, yesorno: bool)
        requires
            old(self).wf(),
        ensures
            final(self).wf(),
            final(self).creator == old(self).creator,
            final(self).end_dt == old(self).end_dt,
            final(self).sub_param == old(self).sub_param,
            final(self).votes@ == merge_vote(old(self).votes@, voter, value, yesorno),
            vote_at(final(self).votes@, voter) == Some(
                VoteRecord {
                    voter,
                    amount: (sat_add_int(
                        match vote_at(old(self).votes@, voter) {
                            Some(rec) => rec.amount as int,
                            None => 0int,
                        },
                        value as int,
                    )) as u64,
                    approve: yesorno,
                },
            ),
            forall|v: AccountId|
                v != voter ==> #[trigger] vote_at(final(self).votes@, v) == vote_at(
                    old(self).votes@,
                    v,
                ),
    {
        let ghost s0 = self.votes@;
        let n = self.votes.len();
        let mut i: usize = 0;
        while i < n
            invariant
                n == self.votes@.len(),
                i <= n,
                self.votes@ == s0,
                s0 == old(self).votes@,
                self.creator == old(self).creator,
                self.end_dt == old(self).end_dt,
                self.sub_param == old(self).sub_param,
                votes_unique(s0),
                forall|j: int| 0 <= j < i ==> (#[trigger] s0[j]).voter != voter,
            decreases n - i,
        {
            if self.votes[i].voter == voter {
                let prev = self.votes[i];
                let summed = if value > u64::MAX - prev.amount {
                    u64::MAX
                } else {
                    value + prev.amount
                };
                let rec = VoteRecord { voter, amount: summed, approve: yesorno };
                proof {
                    lemma_vote_at_index(s0, i as int);
                    lemma_vote_at_update(s0, i as int, rec);
                    lemma_merge_vote_at(s0, i as int, value, yesorno);
                }
                self.votes.set(i, rec);
                return ;
            }
            i = i + 1;
        }
        let rec = VoteRecord { voter, amount: value, approve: yesorno };
        proof {
            lemma_vote_at_absent(s0, voter);
            lemma_vote_at_push(s0, rec);
            lemma_merge_vote_absent(s0, voter, value, yesorno);
        }
        self.votes.push(rec);
    }

    /// Tally the recorded weights by direction: `(yes, no)`, each sum
    /// saturating at the balance maximum.
    pub fn summary(&self) -> (r: (Balance, Balance))
        ensures
            r.0 as int == tally(self.votes@).0,
            r.1 as int == tally(self.votes@).1,
    {
        let n = self.votes.len();
        let mut yes: Balance = 0;
        let mut no: Balance = 0;
        proof {
            assert(self.votes@.subrange(0, 0) =~= Seq::<VoteRecord>::empty());
        }
        let mut i: usize = 0;
        while i < n
            invariant
                n == self.votes@.len(),
                i <= n,
                yes as int == tally(self.votes@.subrange(0, i as int)).0,
                no as int == tally(self.votes@.subrange(0, i as int)).1,
            decreases n - i,
        {
            let rec = self.votes[i];
            proof {
                assert(self.votes@.subrange(0, i + 1).drop_last() =~= self.votes@.subrange(
                    0,
                    i as int,
                ));
                assert(self.votes@.subrange(0, i + 1).last() == rec);
            }
            if rec.approve {
                yes = if rec.amount > u64::MAX - yes {
                    u64::MAX
                } else {
                    yes + rec.amount
                };
            } else {
                no = if rec.amount > u64::MAX - no {
                    u64::MAX
                } else {
                    no + rec.amount
                };
            }
            i = i + 1;
        }
        proof {
            assert(self.votes@.subrange(0, n as int) =~= self.votes@);
        }
        (yes, no)
    }

    /// A proposal lapses strictly after its expiry height.
    pub fn is_expire(&self, current: BlockNumber) -> (r: bool)
        ensures
            r == (current > self.end_dt),
    {
        current > self.end_dt
    }

    /// Decide the tally against the proposal's own rule; abstention weight
    /// is always zero, as no abstain action exists.
    pub fn pass(&self, total_balance: Balance) -> (r: bool)
        ensures
            r == rule_pass(
                self.sub_param,
                tally(self.votes@).0 as u64,
                tally(self.votes@).1 as u64,
                0,
                total_balance,
            ),
    {
        let (yes_balance, no_balance) = self.summary();
        proof {
            lemma_tally_bounds(self.votes@);
        }
        self.sub_param.is_pass(yes_balance, no_balance, 0, total_balance)
    }

    /// The account that created the proposal.
    pub fn creator(&self) -> (r: AccountId)
        ensures
            r == self.creator,
    {
        self.creator
    }
}

/// Ascending order over a member list.
pub open spec fn sorted(s: Seq<AccountId>) -> bool {
    forall|i: int, j: int| 0 <= i < j < s.len() ==> s[i] <= s[j]
}

/// Swapping two positions keeps the multiset of elements.
pub proof fn lemma_swap_preserves_multiset(s: Seq<AccountId>, a: int, b: int)
    requires
        0 <= a < b < s.len(),
    ensures
        s.update(a, s[b]).update(b, s[a]).to_multiset() == s.to_multiset(),
{
    broadcast use vstd::seq_lib::group_seq_properties;
    broadcast use vstd::multiset::group_multiset_axioms;

    let t1 = s.update(a, s[b]);
    vstd::seq_lib::to_multiset_update(s, a, s[b]);
    vstd::seq_lib::to_multiset_update(t1, b, s[a]);
    assert(t1[b] == s[b]);
    s.to_multiset_ensures();
    assert(s.contains(s[a]) && s.contains(s[b]));
    assert(t1.update(b, s[a]).to_multiset() =~= s.to_multiset());
}

/// Two lists with the same multiset of elements are duplicate-free
/// together: a permutation of a duplicate-free list is duplicate-free.
pub proof fn lemma_permutation_keeps_no_duplicates(s: Seq<AccountId>, t: Seq<AccountId>)
    requires
        s.to_multiset() == t.to_multiset(),
        forall|i: int, j: int| 0 <= i < j < s.len() ==> s[i] != s[j],
    ensures
        forall|i: int, j: int| 0 <= i < j < t.len() ==> t[i] != t[j],
{
    assert(s.no_duplicates());
    s.lemma_multiset_has_no_duplicates();
    t.lemma_multiset_has_no_duplicates_conv();
    assert(t.no_duplicates());
}

/// Metadata of one organization: its members, its rule baseline, and its
/// voting token.
#[derive(PartialEq, Eq, Debug)]
pub struct OrgInfo {
    /// The member accounts, insertion-ordered and duplicate-free.
    pub members: Vec<AccountId>,
    /// The rule baseline set at creation.
    pub param: OrgRuleParam,
    /// The one voting asset of the organization.
    pub asset: AssetInfo,
}

impl Clone for OrgInfo {
    fn clone(&self) -> (r: Self)
        ensures
            r.members@ == self.members@,
            r.param == self.param,
            r.asset == self.asset,
    {
        OrgInfo { members: clone_members(&self.members), param: self.param, asset: self.asset }
    }
}

/// Element-wise copy of a member list.
fn clone_members(v: &Vec<AccountId>) -> (r: Vec<AccountId>)
    ensures
        r@ == v@,
{
    let n = v.len();
    let mut r: Vec<AccountId> = Vec::new();
    let mut i: usize = 0;
    while i < n
        invariant
            n == v@.len(),
            i <= n,
            r@ == v@.subrange(0, i as int),
        decreases n - i,
    {
        r.push(v[i]);
        proof {
            assert(r@ =~= v@.subrange(0, i + 1));
        }
        i = i + 1;
    }
    proof {
        assert(r@ =~= v@);
    }
    r
}

impl OrgInfo {
    /// Duplicate-free membership.
    pub open spec fn wf(self) -> bool {
        forall|i: int, j: int|
            0 <= i < j < self.members@.len() ==> self.members@[i] != self.members@[j]
    }

    /// An empty organization: no members, the all-zero rule, asset zero.
    pub fn new() -> (r: Self)
        ensures
            r.wf(),
            r.members@.len() == 0,
            r.param == (OrgRuleParam { min_affirmative: 0, max_dissenting: 0, abstention: 0 }),
            r.asset.id == 0,
    {
        OrgInfo {
            members: Vec::new(),
            param: OrgRuleParam::default(),
            asset: AssetInfo { id: 0 },
        }
    }

    /// Whether `mid` is a member.
    pub fn is_member(&self, mid: AccountId) -> (r: bool)
        ensures
            r == self.members@.contains(mid),
    {
        let n = self.members.len();
        let mut i: usize = 0;
        while i < n
            invariant
                n == self.members@.len(),
                i <= n,
                forall|j: int| 0 <= j < i ==> self.members@[j] != mid,
            decreases n - i,
        {
            if self.members[i] == mid {
                return true;
            }
            i = i + 1;
        }
        false
    }

    pub fn get_asset_id(&self) -> (r: AssetId)
        ensures
            r == self.asset.id,
    {
        self.asset.id()
    }

    pub fn set_asset_id(&mut self, id: AssetId)
        ensures
            final(self).asset.id == id,
            final(self).members == old(self).members,
            final(self).param == old(self).param,
    {
        self.asset.set_id(id)
    }

    /// Append `member` unless already present; adding an existing member is
    /// a successful no-op.
    pub fn add_member(&mut self, member: AccountId) -> (r: Result<(), Error>)
        requires
            old(self).wf(),
        ensures
            final(self).wf(),
            r is Ok,
            final(self).param == old(self).param,
            final(self).asset == old(self).asset,
            final(self).members@ == if old(self).members@.contains(member) {
                old(self).members@
            } else {
                old(self).members@.push(member)
            },
    {
        if !self.is_member(member) {
            self.members.push(member);
        }
        Ok(())
    }

    /// Sort the member list ascending, in place: a permutation of the same
    /// accounts, and still duplicate-free if it was.
    pub fn sort(&mut self)
        ensures
            sorted(final(self).members@),
            final(self).members@.to_multiset() == old(self).members@.to_multiset(),
            final(self).param == old(self).param,
            final(self).asset == old(self).asset,
            old(self).wf() ==> final(self).wf(),
    {
        let n = self.members.len();
        let mut i: usize = 1;
        while i < n
            invariant
                n == self.members@.len(),
                1 <= i,
                i <= n || n == 0,
                forall|x: int, y: int| 0 <= x < y < i && y < n ==> self.members@[x]
                    <= self.members@[y],
                self.members@.to_multiset() == old(self).members@.to_multiset(),
                self.param == old(self).param,
                self.asset == old(self).asset,
            decreases n - i,
        {
            let mut j: usize = i;
            while j > 0 && self.members[j - 1] > self.members[j]
                invariant
                    n == self.members@.len(),
                    i < n,
                    j <= i,
                    // sorted up to i + 1 everywhere except at position j,
                    // where the inserted element is still sinking
                    forall|x: int, y: int|
                        0 <= x < y < i + 1 && y != j ==> self.members@[x] <= self.members@[y],
                    self.members@.to_multiset() == old(self).members@.to_multiset(),
                    self.param == old(self).param,
                    self.asset == old(self).asset,
                decreases j,
            {
                let lo = self.members[j - 1];
                let hi = self.members[j];
                let ghost pre = self.members@;
                self.members.set(j - 1, hi);
                self.members.set(j, lo);
                proof {
                    lemma_swap_preserves_multiset(pre, j as int - 1, j as int);
                }
                j = j - 1;
            }
            proof {
                assert forall|x: int, y: int| 0 <= x < y < i + 1 implies self.members@[x]
                    <= self.members@[y] by {
                    if y == j && j > 0 {
                        assert(self.members@[j - 1] <= self.members@[j as int]);
                        if x < j - 1 {
                            assert(self.members@[x] <= self.members@[j - 1]);
                        }
                    }
                }
            }
            i = i + 1;
        }
        proof {
            assert(sorted(self.members@));
            if old(self).wf() {
                // a permutation of a duplicate-free list is duplicate-free
                lemma_permutation_keeps_no_duplicates(old(self).members@, self.members@);
            }
        }
    }

    /// The number of members, truncated to the counter width.
    pub fn counts(&self) -> (r: u32)
        ensures
            r == self.members@.len() as u32,
    {
        #[verifier::truncate] (self.members.len() as u32)
    }
}

/// A proposal as stored: the organization it belongs to, the bundled action
/// bytes, and the voting detail.
#[derive(PartialEq, Eq, Debug)]
pub struct Proposal {
    /// The organization id.
    pub org: AccountId,
    /// Opaque action bytes, decoded only when the proposal passes.
    pub call: Vec<u8>,
    pub detail: ProposalDetail,
}

impl Clone for Proposal {
    fn clone(&self) -> (r: Self)
        ensures
            r.org == self.org,
            r.call@ == self.call@,
            r.detail.votes@ == self.detail.votes@,
            r.detail.creator == self.detail.creator,
            r.detail.end_dt == self.detail.end_dt,
            r.detail.sub_param == self.detail.sub_param,
    {
        Proposal { org: self.org, call: clone_bytes(&self.call), detail: self.detail.clone() }
    }
}

/// Element-wise copy of a byte string.
pub fn clone_bytes(v: &Vec<u8>) -> (r: Vec<u8>)
    ensures
        r@ == v@,
{
    let n = v.len();
    let mut r: Vec<u8> = Vec::new();
    let mut i: usize = 0;
    while i < n
        invariant
            n == v@.len(),
            i <= n,
            r@ == v@.subrange(0, i as int),
        decreases n - i,
    {
        r.push(v[i]);
        proof {
            assert(r@ =~= v@.subrange(0, i + 1));
        }
        i = i + 1;
    }
    proof {
        assert(r@ =~= v@);
    }
    r
}

impl Proposal {
    pub open spec fn wf(self) -> bool {
        self.detail.wf()
    }

    pub fn new(id: AccountId, calldata: Vec<u8>, info: ProposalDetail) -> (r: Self)
        ensures
            r.org == id,
            r.call == calldata,
            r.detail == info,
    {
        Proposal { org: id, call: calldata, detail: info }
    }

    /// The account that created the proposal.
    pub fn creator(&self) -> (r: AccountId)
        ensures
            r == self.detail.creator,
    {
        self.detail.creator()
    }
}

} // verus!
