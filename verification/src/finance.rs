//! The organizations' pooled funds: a base-currency ledger and the
//! per-organization vault entries. All organizations' funds share one
//! physical custodial account, derived from a fixed system constant; the
//! per-organization vault entries alone tell them apart. Well-formedness
//! keeps the custodial account's real balance at least the sum of all vault
//! entries, and the base currency conserved against its recorded total.

use vstd::prelude::*;
use crate::{AccountId, Balance};
use crate::errors::Error;

verus! {

/// The custodial account holding every organization's pooled funds, derived
/// once from a fixed module identifier — never from any member.
pub const VAULT_ACCOUNT: AccountId = 0x7661_756c_7400_0000;

/// Base of the bounty account range, a second fixed derivation seed.
pub const BOUNTY_ACCOUNT_BASE: AccountId = 0x626f_756e_7479_0000;

/// The account id of the pooled-fund pot.
pub fn account_id() -> (r: AccountId)
    ensures
        r == VAULT_ACCOUNT,
{
    VAULT_ACCOUNT
}

/// The account id of a bounty sub-account: the fixed seed plus the index,
/// a pure and injective derivation.
pub fn bounty_account_id(id: u32) -> (r: AccountId)
    ensures
        r == BOUNTY_ACCOUNT_BASE + id,
{
    BOUNTY_ACCOUNT_BASE + (id as u64)
}

/// One row of the base-currency ledger.
#[derive(Clone, Copy, PartialEq, Eq, Structural, Debug)]
pub struct BalanceEntry {
    pub account: AccountId,
    pub amount: Balance,
}

/// One vault row: funds reserved to one organization inside the custodial
/// account. Absence of a row is distinct from a zero balance.
#[derive(Clone, Copy, PartialEq, Eq, Structural, Debug)]
pub struct VaultEntry {
    pub org: AccountId,
    pub amount: Balance,
}

/// Last-match lookup in the base ledger; an absent row reads as zero.
pub open spec fn bal_at(s: Seq<BalanceEntry>, who: AccountId) -> Balance
    decreases s.len(),
{
    if s.len() == 0 {
        0
    } else if s.last().account == who {
        s.last().amount
    } else {
        bal_at(s.drop_last(), who)
    }
}

/// Last-match lookup in the vault table; `None` when the organization was
/// never funded.
pub open spec fn vault_at(s: Seq<VaultEntry>, org: AccountId) -> Option<Balance>
    decreases s.len(),
{
    if s.len() == 0 {
        None
    } else if s.last().org == org {
        Some(s.last().amount)
    } else {
        vault_at(s.drop_last(), org)
    }
}

/// Sum of every base-ledger row.
pub open spec fn sum_bal(s: Seq<BalanceEntry>) -> int
    decreases s.len(),
{
    if s.len() == 0 {
        0
    } else {
        sum_bal(s.drop_last()) + s.last().amount
    }
}

/// Sum of every vault row.
pub open spec fn sum_vaults(s: Seq<VaultEntry>) -> int
    decreases s.len(),
{
    if s.len() == 0 {
        0
    } else {
        sum_vaults(s.drop_last()) + s.last().amount
    }
}

pub open spec fn balances_unique(s: Seq<BalanceEntry>) -> bool {
    forall|i: int, j: int|
        0 <= i < j < s.len() ==> (#[trigger] s[i]).account != (#[trigger] s[j]).account
}

pub open spec fn vaults_unique(s: Seq<VaultEntry>) -> bool {
    forall|i: int, j: int| 0 <= i < j < s.len() ==> (#[trigger] s[i]).org != (#[trigger] s[j]).org
}

pub proof fn lemma_sum_bal_nonneg(s: Seq<BalanceEntry>)
    ensures
        sum_bal(s) >= 0,
    decreases s.len(),
{
    if s.len() > 0 {
        lemma_sum_bal_nonneg(s.drop_last());
    }
}

pub proof fn lemma_bal_row_le_sum(s: Seq<BalanceEntry>, i: int)
    requires
        0 <= i < s.len(),
    ensures
        s[i].amount <= sum_bal(s),
    decreases s.len(),
{
    if i == s.len() - 1 {
        lemma_sum_bal_nonneg(s.drop_last());
    } else {
        lemma_bal_row_le_sum(s.drop_last(), i);
    }
}

pub proof fn lemma_bal_two_rows_le_sum(s: Seq<BalanceEntry>, i: int, j: int)
    requires
        0 <= i < s.len(),
        0 <= j < s.len(),
        i != j,
    ensures
        s[i].amount + s[j].amount <= sum_bal(s),
    decreases s.len(),
{
    if i == s.len() - 1 {
        lemma_bal_row_le_sum(s.drop_last(), j);
    } else if j == s.len() - 1 {
        lemma_bal_row_le_sum(s.drop_last(), i);
    } else {
        lemma_bal_two_rows_le_sum(s.drop_last(), i, j);
    }
}

pub proof fn lemma_sum_bal_update(s: Seq<BalanceEntry>, i: int, e: BalanceEntry)
    requires
        0 <= i < s.len(),
    ensures
        sum_bal(s.update(i, e)) == sum_bal(s) - s[i].amount + e.amount,
    decreases s.len(),
{
    if i == s.len() - 1 {
        assert(s.update(i, e).drop_last() =~= s.drop_last());
    } else {
        assert(s.update(i, e).drop_last() =~= s.drop_last().update(i, e));
        lemma_sum_bal_update(s.drop_last(), i, e);
    }
}

pub proof fn lemma_sum_bal_push(s: Seq<BalanceEntry>, e: BalanceEntry)
    ensures
        sum_bal(s.push(e)) == sum_bal(s) + e.amount,
{
    assert(s.push(e).drop_last() =~= s);
}

/// With unique accounts, the lookup at row `i`'s account reads row `i`.
pub proof fn lemma_bal_at_index(s: Seq<BalanceEntry>, i: int)
    requires
        balances_unique(s),
        0 <= i < s.len(),
    ensures
        bal_at(s, s[i].account) == s[i].amount,
    decreases s.len(),
{
    if i < s.len() - 1 {
        assert(balances_unique(s.drop_last())) by {
            assert(forall|x: int, y: int|
                0 <= x < y < s.drop_last().len() ==> s.drop_last()[x] == s[x] && s.drop_last()[y]
                    == s[y]);
        }
        lemma_bal_at_index(s.drop_last(), i);
    }
}

pub proof fn lemma_bal_at_absent(s: Seq<BalanceEntry>, who: AccountId)
    requires
        forall|i: int| 0 <= i < s.len() ==> (#[trigger] s[i]).account != who,
    ensures
        bal_at(s, who) == 0,
    decreases s.len(),
{
    if s.len() > 0 {
        lemma_bal_at_absent(s.drop_last(), who);
    }
}

pub proof fn lemma_bal_at_update(s: Seq<BalanceEntry>, i: int, e: BalanceEntry)
    requires
        balances_unique(s),
        0 <= i < s.len(),
        e.account == s[i].account,
    ensures
        balances_unique(s.update(i, e)),
        forall|w: AccountId|
            #[trigger] bal_at(s.update(i, e), w) == if w == e.account {
                e.amount
            } else {
                bal_at(s, w)
            },
    decreases s.len(),
{
    let t = s.update(i, e);
    assert(balances_unique(t)) by {
        assert(forall|x: int| 0 <= x < t.len() && x != i ==> t[x] == s[x]);
    }
    if i == s.len() - 1 {
        assert(t.drop_last() =~= s.drop_last());
        assert(t.last() == e);
    } else {
        assert(balances_unique(s.drop_last())) by {
            assert(forall|x: int, y: int|
                0 <= x < y < s.drop_last().len() ==> s.drop_last()[x] == s[x] && s.drop_last()[y]
                    == s[y]);
        }
        assert(t.drop_last() =~= s.drop_last().update(i, e));
        lemma_bal_at_update(s.drop_last(), i, e);
        assert forall|w: AccountId|
            #[trigger] bal_at(t, w) == if w == e.account {
                e.amount
            } else {
                bal_at(s, w)
            } by {
            assert(t.last() == s.last());
            assert(bal_at(t.drop_last(), w) == bal_at(s.drop_last().update(i, e), w));
            if w == e.account {
                assert(s[i].account != s.last().account);
                assert(bal_at(s.drop_last().update(i, e), w) == e.amount);
            } else {
                assert(bal_at(s.drop_last().update(i, e), w) == bal_at(s.drop_last(), w));
            }
        }
    }
}

pub proof fn lemma_bal_at_push(s: Seq<BalanceEntry>, e: BalanceEntry)
    requires
        balances_unique(s),
        forall|i: int| 0 <= i < s.len() ==> (#[trigger] s[i]).account != e.account,
    ensures
        balances_unique(s.push(e)),
        forall|w: AccountId|
            #[trigger] bal_at(s.push(e), w) == if w == e.account {
                e.amount
            } else {
                bal_at(s, w)
            },
{
    let t = s.push(e);
    assert(balances_unique(t)) by {
        assert(forall|x: int| 0 <= x < s.len() ==> t[x] == s[x]);
        assert(t[t.len() - 1] == e);
    }
    assert(t.drop_last() =~= s);
    assert(t.last() == e);
}

pub proof fn lemma_vault_sum_nonneg(s: Seq<VaultEntry>)
    ensures
        sum_vaults(s) >= 0,
    decreases s.len(),
{
    if s.len() > 0 {
        lemma_vault_sum_nonneg(s.drop_last());
    }
}

pub proof fn lemma_vault_row_le_sum(s: Seq<VaultEntry>, i: int)
    requires
        0 <= i < s.len(),
    ensures
        s[i].amount <= sum_vaults(s),
    decreases s.len(),
{
    if i == s.len() - 1 {
        lemma_vault_sum_nonneg(s.drop_last());
    } else {
        lemma_vault_row_le_sum(s.drop_last(), i);
    }
}

pub proof fn lemma_sum_vaults_update(s: Seq<VaultEntry>, i: int, e: VaultEntry)
    requires
        0 <= i < s.len(),
    ensures
        sum_vaults(s.update(i, e)) == sum_vaults(s) - s[i].amount + e.amount,
    decreases s.len(),
{
    if i == s.len() - 1 {
        assert(s.update(i, e).drop_last() =~= s.drop_last());
    } else {
        assert(s.update(i, e).drop_last() =~= s.drop_last().update(i, e));
        lemma_sum_vaults_update(s.drop_last(), i, e);
    }
}

pub proof fn lemma_sum_vaults_push(s: Seq<VaultEntry>, e: VaultEntry)
    ensures
        sum_vaults(s.push(e)) == sum_vaults(s) + e.amount,
{
    assert(s.push(e).drop_last() =~= s);
}

pub proof fn lemma_vault_at_index(s: Seq<VaultEntry>, i: int)
    requires
        vaults_unique(s),
        0 <= i < s.len(),
    ensures
        vault_at(s, s[i].org) == Some(s[i].amount),
    decreases s.len(),
{
    if i < s.len() - 1 {
        assert(vaults_unique(s.drop_last())) by {
            assert(forall|x: int, y: int|
                0 <= x < y < s.drop_last().len() ==> s.drop_last()[x] == s[x] && s.drop_last()[y]
                    == s[y]);
        }
        lemma_vault_at_index(s.drop_last(), i);
    }
}

pub proof fn lemma_vault_at_absent(s: Seq<VaultEntry>, org: AccountId)
    requires
        forall|i: int| 0 <= i < s.len() ==> (#[trigger] s[i]).org != org,
    ensures
        vault_at(s, org) is None,
    decreases s.len(),
{
    if s.len() > 0 {
        lemma_vault_at_absent(s.drop_last(), org);
    }
}

pub proof fn lemma_vault_at_update(s: Seq<VaultEntry>, i: int, e: VaultEntry)
    requires
        vaults_unique(s),
        0 <= i < s.len(),
        e.org == s[i].org,
    ensures
        vaults_unique(s.update(i, e)),
        forall|o: AccountId|
            #[trigger] vault_at(s.update(i, e), o) == if o == e.org {
                Some(e.amount)
            } else {
                vault_at(s, o)
            },
    decreases s.len(),
{
    let t = s.update(i, e);
    assert(vaults_unique(t)) by {
        assert(forall|x: int| 0 <= x < t.len() && x != i ==> t[x] == s[x]);
    }
    if i == s.len() - 1 {
        assert(t.drop_last() =~= s.drop_last());
        assert(t.last() == e);
    } else {
        assert(vaults_unique(s.drop_last())) by {
            assert(forall|x: int, y: int|
                0 <= x < y < s.drop_last().len() ==> s.drop_last()[x] == s[x] && s.drop_last()[y]
                    == s[y]);
        }
        assert(t.drop_last() =~= s.drop_last().update(i, e));
        lemma_vault_at_update(s.drop_last(), i, e);
        assert forall|o: AccountId|
            #[trigger] vault_at(t, o) == if o == e.org {
                Some(e.amount)
            } else {
                vault_at(s, o)
            } by {
            assert(t.last() == s.last());
            assert(vault_at(t.drop_last(), o) == vault_at(s.drop_last().update(i, e), o));
            if o == e.org {
                assert(s[i].org != s.last().org);
                assert(vault_at(s.drop_last().update(i, e), o) == Some(e.amount));
            } else {
                assert(vault_at(s.drop_last().update(i, e), o) == vault_at(s.drop_last(), o));
            }
        }
    }
}

pub proof fn lemma_vault_at_push(s: Seq<VaultEntry>, e: VaultEntry)
    requires
        vaults_unique(s),
        forall|i: int| 0 <= i < s.len() ==> (#[trigger] s[i]).org != e.org,
    ensures
        vaults_unique(s.push(e)),
        forall|o: AccountId|
            #[trigger] vault_at(s.push(e), o) == if o == e.org {
                Some(e.amount)
            } else {
                vault_at(s, o)
            },
{
    let t = s.push(e);
    assert(vaults_unique(t)) by {
        assert(forall|x: int| 0 <= x < s.len() ==> t[x] == s[x]);
        assert(t[t.len() - 1] == e);
    }
    assert(t.drop_last() =~= s);
    assert(t.last() == e);
}

/// Base-currency ledger and vault table.
pub struct Finance {
    /// Total base currency ever endowed; conserved across transfers.
    pub total: Balance,
    pub balances: Vec<BalanceEntry>,
    pub vaults: Vec<VaultEntry>,
}

impl Finance {
    /// Base-currency balance of `who`; zero when no row exists.
    pub open spec fn bal_of(self, who: AccountId) -> int {
        bal_at(self.balances@, who) as int
    }

    /// Vault balance of organization `oid`; `None` when never funded.
    pub open spec fn vault_of(self, oid: AccountId) -> Option<Balance> {
        vault_at(self.vaults@, oid)
    }

    /// Well-formedness: unique rows, base-currency conservation against the
    /// recorded total, and the custodial account covering every vault entry.
    pub open spec fn wf(self) -> bool {
        &&& balances_unique(self.balances@)
        &&& vaults_unique(self.vaults@)
        &&& sum_bal(self.balances@) == self.total
        &&& sum_vaults(self.vaults@) <= self.bal_of(VAULT_ACCOUNT)
    }

    /// A fresh ledger with nothing endowed and no vault.
    pub fn new() -> (r: Self)
        ensures
            r.wf(),
            r.total == 0,
            forall|w: AccountId| #[trigger] r.bal_of(w) == 0,
            forall|o: AccountId| #[trigger] r.vault_of(o) is None,
    {
        Finance { total: 0, balances: Vec::new(), vaults: Vec::new() }
    }

    /// Replace `who`'s base balance row with `newval`, inserting the row if
    /// absent.
    fn bal_upsert(&mut self, who: AccountId, newval: Balance)
        requires
            balances_unique(old(self).balances@),
        ensures
            balances_unique(final(self).balances@),
            forall|w: AccountId|
                #[trigger] bal_at(final(self).balances@, w) == if w == who {
                    newval
                } else {
                    bal_at(old(self).balances@, w)
                },
            sum_bal(final(self).balances@) == sum_bal(old(self).balances@) - old(self).bal_of(who)
                + newval,
            final(self).vaults == old(self).vaults,
            final(self).total == old(self).total,
    {
        let ghost s0 = self.balances@;
        match self.find_bal(who) {
            Some(i) => {
                let e = BalanceEntry { account: who, amount: newval };
                proof {
                    lemma_bal_at_update(s0, i as int, e);
                    lemma_sum_bal_update(s0, i as int, e);
                }
                self.balances.set(i, e);
            },
            None => {
                let e = BalanceEntry { account: who, amount: newval };
                proof {
                    lemma_bal_at_push(s0, e);
                    lemma_sum_bal_push(s0, e);
                }
                self.balances.push(e);
            },
        }
    }

    /// Replace organization `oid`'s vault row with `newval`, inserting the
    /// row if absent.
    fn vault_upsert(&mut self, oid: AccountId, newval: Balance)
        requires
            vaults_unique(old(self).vaults@),
        ensures
            vaults_unique(final(self).vaults@),
            forall|o: AccountId|
                #[trigger] vault_at(final(self).vaults@, o) == if o == oid {
                    Some(newval)
                } else {
                    vault_at(old(self).vaults@, o)
                },
            sum_vaults(final(self).vaults@) == sum_vaults(old(self).vaults@) - (match vault_at(
                old(self).vaults@,
                oid,
            ) {
                Some(v) => v as int,
                None => 0,
            }) + newval,
            final(self).balances == old(self).balances,
            final(self).total == old(self).total,
    {
        let ghost s0 = self.vaults@;
        match self.find_vault(oid) {
            Some(i) => {
                let e = VaultEntry { org: oid, amount: newval };
                proof {
                    lemma_vault_at_update(s0, i as int, e);
                    lemma_sum_vaults_update(s0, i as int, e);
                }
                self.vaults.set(i, e);
            },
            None => {
                let e = VaultEntry { org: oid, amount: newval };
                proof {
                    lemma_vault_at_push(s0, e);
                    lemma_sum_vaults_push(s0, e);
                }
                self.vaults.push(e);
            },
        }
    }

    /// Index of `who`'s base balance row.
    fn find_bal(&self, who: AccountId) -> (r: Option<usize>)
        requires
            balances_unique(self.balances@),
        ensures
            match r {
                Some(i) => i < self.balances@.len() && self.balances@[i as int].account == who
                    && bal_at(self.balances@, who) == self.balances@[i as int].amount,
                None => bal_at(self.balances@, who) == 0 && forall|i: int|
                    0 <= i < self.balances@.len() ==> (#[trigger] self.balances@[i]).account
                        != who,
            },
    {
        let n = self.balances.len();
        let mut i: usize = 0;
        while i < n
            invariant
                n == self.balances@.len(),
                i <= n,
                balances_unique(self.balances@),
                forall|j: int| 0 <= j < i ==> (#[trigger] self.balances@[j]).account != who,
            decreases n - i,
        {
            if self.balances[i].account == who {
                proof {
                    lemma_bal_at_index(self.balances@, i as int);
                }
                return Some(i);
            }
            i = i + 1;
        }
        proof {
            lemma_bal_at_absent(self.balances@, who);
        }
        None
    }

    /// Index of organization `oid`'s vault row.
    fn find_vault(&self, oid: AccountId) -> (r: Option<usize>)
        requires
            vaults_unique(self.vaults@),
        ensures
            match r {
                Some(i) => i < self.vaults@.len() && self.vaults@[i as int].org == oid && vault_at(
                    self.vaults@,
                    oid,
                ) == Some(self.vaults@[i as int].amount),
                None => vault_at(self.vaults@, oid) is None && forall|i: int|
                    0 <= i < self.vaults@.len() ==> (#[trigger] self.vaults@[i]).org != oid,
            },
    {
        let n = self.vaults.len();
        let mut i: usize = 0;
        while i < n
            invariant
                n == self.vaults@.len(),
                i <= n,
                vaults_unique(self.vaults@),
                forall|j: int| 0 <= j < i ==> (#[trigger] self.vaults@[j]).org != oid,
            decreases n - i,
        {
            if self.vaults[i].org == oid {
                proof {
                    lemma_vault_at_index(self.vaults@, i as int);
                }
                return Some(i);
            }
            i = i + 1;
        }
        proof {
            lemma_vault_at_absent(self.vaults@, oid);
        }
        None
    }

    /// Base-currency balance of `who`.
    pub fn free_balance(&self, who: AccountId) -> (r: Balance)
        requires
            self.wf(),
        ensures
            r as int == self.bal_of(who),
    {
        match self.find_bal(who) {
            Some(i) => self.balances[i].amount,
            None => 0,
        }
    }

    /// Endow `who` with `value` new base currency, as the host's genesis or
    /// external deposits would. Fails only when the recorded total would
    /// overflow.
    pub fn endow(&mut self, who: AccountId, value: Balance) -> (r: Result<(), Error>)
        requires
            old(self).wf(),
        ensures
            final(self).wf(),
            r == if old(self).total + value > u64::MAX {
                Err::<(), Error>(Error::Overflow)
            } else {
                Ok::<(), Error>(())
            },
            r is Err ==> *final(self) == *old(self),
            r is Ok ==> final(self).total == old(self).total + value,
            r is Ok ==> forall|w: AccountId|
                #[trigger] final(self).bal_of(w) == old(self).bal_of(w) + if w == who {
                    value as int
                } else {
                    0int
                },
            final(self).vaults == old(self).vaults,
    {
        if value > u64::MAX - self.total {
            return Err(Error::Overflow);
        }
        let ghost s0 = self.balances@;
        let cur = self.free_balance(who);
        proof {
            match_bal_row_bound(s0, who);
        }
        self.bal_upsert(who, cur + value);
        self.total = self.total + value;
        Ok(())
    }

    /// Vault balance of organization `oid`; an organization never funded has
    /// no entry and reports `UnknownOwnerID`.
    pub fn vault_balance_of(&self, oid: AccountId) -> (r: Result<Balance, Error>)
        requires
            self.wf(),
        ensures
            r == match self.vault_of(oid) {
                Some(v) => Ok::<Balance, Error>(v),
                None => Err::<Balance, Error>(Error::UnknownOwnerID),
            },
    {
        match self.find_vault(oid) {
            Some(i) => Ok(self.vaults[i].amount),
            None => Err(Error::UnknownOwnerID),
        }
    }

    /// Move `value` base currency from `who` into the custodial account and
    /// credit organization `oid`'s vault entry, creating it if absent.
    ///
    /// The custodial account is system-owned and never an authenticated
    /// caller, so `who` is always a different account.
    pub fn transfer_to_vault(&mut self, oid: AccountId, who: AccountId, value: Balance) -> (r:
        Result<(), Error>)
        requires
            old(self).wf(),
            who != VAULT_ACCOUNT,
        ensures
            final(self).wf(),
            r == if old(self).bal_of(who) < value {
                Err::<(), Error>(Error::BalanceLow)
            } else {
                Ok::<(), Error>(())
            },
            r is Err ==> *final(self) == *old(self),
            final(self).total == old(self).total,
            r is Ok ==> forall|w: AccountId|
                #[trigger] final(self).bal_of(w) == old(self).bal_of(w) - (if w == who {
                    value as int
                } else {
                    0int
                }) + (if w == VAULT_ACCOUNT {
                    value as int
                } else {
                    0int
                }),
            r is Ok ==> forall|o: AccountId|
                #[trigger] final(self).vault_of(o) == if o == oid {
                    Some(
                        ((match old(self).vault_of(oid) {
                            Some(v) => v as int,
                            None => 0int,
                        }) + value) as u64,
                    )
                } else {
                    old(self).vault_of(o)
                },
    {
        let ghost s0 = self.balances@;
        let who_bal = self.free_balance(who);
        if who_bal < value {
            return Err(Error::BalanceLow);
        }
        let pot = self.free_balance(VAULT_ACCOUNT);
        proof {
            // distinct rows are jointly bounded by the conserved total, so
            // the custodial credit fits
            two_bal_bound(s0, who, VAULT_ACCOUNT);
        }
        self.bal_upsert(who, who_bal - value);
        self.bal_upsert(VAULT_ACCOUNT, pot + value);
        let cur = match self.vault_balance_of(oid) {
            Ok(v) => v,
            Err(_) => 0,
        };
        proof {
            match vault_at(self.vaults@, oid) {
                Some(_) => {
                    match_vault_row_bound(self.vaults@, oid);
                },
                None => {
                    lemma_vault_sum_nonneg(self.vaults@);
                },
            }
        }
        self.vault_upsert(oid, cur + value);
        Ok(())
    }

    /// Spend `value` from organization `oid`'s vault: debit the vault entry
    /// and move the funds from the custodial account to `to`.
    pub fn spend_organization_vault(&mut self, oid: AccountId, to: AccountId, value: Balance) -> (r:
        Result<(), Error>)
        requires
            old(self).wf(),
        ensures
            final(self).wf(),
            r == if old(self).vault_of(oid) is None {
                Err::<(), Error>(Error::UnknownOwnerID)
            } else if old(self).vault_of(oid)->Some_0 < value {
                Err::<(), Error>(Error::BalanceLow)
            } else {
                Ok::<(), Error>(())
            },
            r is Err ==> *final(self) == *old(self),
            final(self).total == old(self).total,
            r is Ok ==> forall|w: AccountId|
                #[trigger] final(self).bal_of(w) == old(self).bal_of(w) - (if w == VAULT_ACCOUNT {
                    value as int
                } else {
                    0int
                }) + (if w == to {
                    value as int
                } else {
                    0int
                }),
            r is Ok ==> forall|o: AccountId|
                #[trigger] final(self).vault_of(o) == if o == oid {
                    Some((old(self).vault_of(oid)->Some_0 - value) as u64)
                } else {
                    old(self).vault_of(o)
                },
    {
        let ghost s0 = self.balances@;
        let ghost v0 = self.vaults@;
        let vault_bal = match self.vault_balance_of(oid) {
            Ok(v) => v,
            Err(e) => {
                return Err(e);
            },
        };
        if vault_bal < value {
            return Err(Error::BalanceLow);
        }
        proof {
            // the custodial account covers the whole vault sum, hence this
            // entry, hence `value`
            match_vault_row_bound(v0, oid);
        }
        let pot = self.free_balance(VAULT_ACCOUNT);
        let to_bal = self.free_balance(to);
        proof {
            if to != VAULT_ACCOUNT {
                two_bal_bound(s0, to, VAULT_ACCOUNT);
            }
        }
        if to == VAULT_ACCOUNT {
            // debit and credit meet on the same row; the balance is unchanged
            self.vault_upsert(oid, vault_bal - value);
        } else {
            self.bal_upsert(VAULT_ACCOUNT, pot - value);
            self.bal_upsert(to, to_bal + value);
            self.vault_upsert(oid, vault_bal - value);
        }
        Ok(())
    }

    /// Stake `value` of `who`'s base currency into organization `oid`'s
    /// vault entry: the per-proposal creation deposit reuses the vault row.
    pub fn lock_balance(&mut self, oid: AccountId, who: AccountId, value: Balance) -> (r: Result<
        (),
        Error,
    >)
        requires
            old(self).wf(),
            who != VAULT_ACCOUNT,
        ensures
            final(self).wf(),
            r == if old(self).bal_of(who) < value {
                Err::<(), Error>(Error::BalanceLow)
            } else {
                Ok::<(), Error>(())
            },
            r is Err ==> *final(self) == *old(self),
            final(self).total == old(self).total,
            r is Ok ==> forall|w: AccountId|
                #[trigger] final(self).bal_of(w) == old(self).bal_of(w) - (if w == who {
                    value as int
                } else {
                    0int
                }) + (if w == VAULT_ACCOUNT {
                    value as int
                } else {
                    0int
                }),
            r is Ok ==> forall|o: AccountId|
                #[trigger] final(self).vault_of(o) == if o == oid {
                    Some(
                        ((match old(self).vault_of(oid) {
                            Some(v) => v as int,
                            None => 0int,
                        }) + value) as u64,
                    )
                } else {
                    old(self).vault_of(o)
                },
    {
        self.transfer_to_vault(oid, who, value)
    }

    /// Release `value` from organization `oid`'s vault entry back to `who`:
    /// the stake refund on proposal closure.
    pub fn unlock_balance(&mut self, oid: AccountId, who: AccountId, value: Balance) -> (r: Result<
        (),
        Error,
    >)
        requires
            old(self).wf(),
        ensures
            final(self).wf(),
            r == if old(self).vault_of(oid) is None {
                Err::<(), Error>(Error::UnknownOwnerID)
            } else if old(self).vault_of(oid)->Some_0 < value {
                Err::<(), Error>(Error::BalanceLow)
            } else {
                Ok::<(), Error>(())
            },
            r is Err ==> *final(self) == *old(self),
            final(self).total == old(self).total,
            r is Ok ==> forall|w: AccountId|
                #[trigger] final(self).bal_of(w) == old(self).bal_of(w) - (if w == VAULT_ACCOUNT {
                    value as int
                } else {
                    0int
                }) + (if w == who {
                    value as int
                } else {
                    0int
                }),
            r is Ok ==> forall|o: AccountId|
                #[trigger] final(self).vault_of(o) == if o == oid {
                    Some((old(self).vault_of(oid)->Some_0 - value) as u64)
                } else {
                    old(self).vault_of(o)
                },
    {
        self.spend_organization_vault(oid, who, value)
    }
}

impl Finance {
    /// The vault balance of an organization — the vault surface of
    /// [`Finance::vault_balance_of`].
    pub fn balance_of(&self, oid: AccountId) -> (r: Result<Balance, Error>)
        requires
            self.wf(),
        ensures
            r == match self.vault_of(oid) {
                Some(v) => Ok::<Balance, Error>(v),
                None => Err::<Balance, Error>(Error::UnknownOwnerID),
            },
    {
        self.vault_balance_of(oid)
    }

    /// Donate member funds into an organization's vault — the vault surface
    /// of [`Finance::transfer_to_vault`].
    pub fn reserve_to_org(&mut self, oid: AccountId, who: AccountId, value: Balance) -> (r: Result<
        (),
        Error,
    >)
        requires
            old(self).wf(),
            who != VAULT_ACCOUNT,
        ensures
            final(self).wf(),
            r == if old(self).bal_of(who) < value {
                Err::<(), Error>(Error::BalanceLow)
            } else {
                Ok::<(), Error>(())
            },
            r is Err ==> *final(self) == *old(self),
            final(self).total == old(self).total,
            r is Ok ==> forall|w: AccountId|
                #[trigger] final(self).bal_of(w) == old(self).bal_of(w) - (if w == who {
                    value as int
                } else {
                    0int
                }) + (if w == VAULT_ACCOUNT {
                    value as int
                } else {
                    0int
                }),
            r is Ok ==> forall|o: AccountId|
                #[trigger] final(self).vault_of(o) == if o == oid {
                    Some(
                        ((match old(self).vault_of(oid) {
                            Some(v) => v as int,
                            None => 0int,
                        }) + value) as u64,
                    )
                } else {
                    old(self).vault_of(o)
                },
    {
        self.transfer_to_vault(oid, who, value)
    }

    /// Pay out of an organization's vault — the vault surface of
    /// [`Finance::spend_organization_vault`].
    pub fn transfer_by_vault(&mut self, oid: AccountId, to: AccountId, value: Balance) -> (r:
        Result<(), Error>)
        requires
            old(self).wf(),
        ensures
            final(self).wf(),
            r == if old(self).vault_of(oid) is None {
                Err::<(), Error>(Error::UnknownOwnerID)
            } else if old(self).vault_of(oid)->Some_0 < value {
                Err::<(), Error>(Error::BalanceLow)
            } else {
                Ok::<(), Error>(())
            },
            r is Err ==> *final(self) == *old(self),
            final(self).total == old(self).total,
            r is Ok ==> forall|w: AccountId|
                #[trigger] final(self).bal_of(w) == old(self).bal_of(w) - (if w == VAULT_ACCOUNT {
                    value as int
                } else {
                    0int
                }) + (if w == to {
                    value as int
                } else {
                    0int
                }),
            r is Ok ==> forall|o: AccountId|
                #[trigger] final(self).vault_of(o) == if o == oid {
                    Some((old(self).vault_of(oid)->Some_0 - value) as u64)
                } else {
                    old(self).vault_of(o)
                },
    {
        self.spend_organization_vault(oid, to, value)
    }
}

/// The row holding `who`, when one exists, is bounded by the whole sum.
proof fn match_bal_row_bound(s: Seq<BalanceEntry>, who: AccountId)
    ensures
        bal_at(s, who) <= sum_bal(s),
    decreases s.len(),
{
    lemma_sum_bal_nonneg(s);
    if s.len() > 0 {
        if s.last().account == who {
            lemma_sum_bal_nonneg(s.drop_last());
        } else {
            match_bal_row_bound(s.drop_last(), who);
        }
    }
}

/// The rows of two distinct accounts are jointly bounded by the whole sum.
proof fn two_bal_bound(s: Seq<BalanceEntry>, a: AccountId, b: AccountId)
    requires
        a != b,
    ensures
        bal_at(s, a) + bal_at(s, b) <= sum_bal(s),
    decreases s.len(),
{
    if s.len() == 0 {
    } else if s.last().account == a {
        match_bal_row_bound(s.drop_last(), b);
    } else if s.last().account == b {
        match_bal_row_bound(s.drop_last(), a);
    } else {
        two_bal_bound(s.drop_last(), a, b);
    }
}

/// The vault row of `oid`, when one exists, is bounded by the vault sum.
proof fn match_vault_row_bound(s: Seq<VaultEntry>, oid: AccountId)
    ensures
        (match vault_at(s, oid) {
            Some(v) => v as int,
            None => 0int,
        }) <= sum_vaults(s),
    decreases s.len(),
{
    lemma_vault_sum_nonneg(s);
    if s.len() > 0 {
        if s.last().org == oid {
            lemma_vault_sum_nonneg(s.drop_last());
        } else {
            match_vault_row_bound(s.drop_last(), oid);
        }
    }
}

} // verus!
