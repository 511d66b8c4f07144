//! Fungible-token ledger with free/frozen accounting: per-(asset, account)
//! balances, per-asset issuance, and the mint/burn/transfer/lock/unlock
//! operations. The well-formedness predicate [`TokenLedger::wf`] carries the
//! conservation law: for every asset, the recorded supply equals the sum of
//! `free + frozen` over all accounts.

use vstd::prelude::*;
use crate::{AccountId, AssetId, Balance};
use crate::errors::Error;

verus! {

/// Free and frozen balance of one account in one asset.
#[derive(Clone, Copy, PartialEq, Eq, Structural, Debug)]
pub struct AccountAssetMetadata {
    /// The spendable balance.
    pub free: Balance,
    /// The balance locked for voting; moved only by lock and unlock.
    pub frozen: Balance,
}

/// Issuance record of one asset.
#[derive(Clone, Copy, PartialEq, Eq, Structural, Debug)]
pub struct AssetDetails {
    /// The account allowed to mint and burn.
    pub issuer: AccountId,
    /// The total supply across all accounts.
    pub supply: Balance,
}

/// One row of the issuance table.
#[derive(Clone, Copy, PartialEq, Eq, Structural, Debug)]
pub struct AssetEntry {
    pub id: AssetId,
    pub details: AssetDetails,
}

/// One row of the balance table, keyed by `(asset, account)`.
#[derive(Clone, Copy, PartialEq, Eq, Structural, Debug)]
pub struct AccountEntry {
    pub asset: AssetId,
    pub account: AccountId,
    pub meta: AccountAssetMetadata,
}

/// `a + b` saturated at `u64::MAX`.
pub open spec fn sat_add(a: Balance, b: Balance) -> int {
    if a + b > u64::MAX { u64::MAX as int } else { a + b }
}

impl AccountAssetMetadata {
    /// The account's total balance: voting / spendable power.
    pub fn total(&self) -> (r: Balance)
        ensures
            r as int == sat_add(self.free, self.frozen),
    {
        if self.free > u64::MAX - self.frozen {
            u64::MAX
        } else {
            self.free + self.frozen
        }
    }

    /// The spendable part alone.
    pub fn valid(&self) -> (r: Balance)
        ensures
            r == self.free,
    {
        self.free
    }
}

/// Last-match lookup in the issuance table; `None` when the asset was never
/// created.
pub open spec fn asset_at(s: Seq<AssetEntry>, id: AssetId) -> Option<AssetDetails>
    decreases s.len(),
{
    if s.len() == 0 {
        None
    } else if s.last().id == id {
        Some(s.last().details)
    } else {
        asset_at(s.drop_last(), id)
    }
}

/// Last-match lookup in the balance table; an absent row reads as zero
/// balances, mirroring a keyed store with a default value.
pub open spec fn acct_at(s: Seq<AccountEntry>, a: AssetId, w: AccountId) -> AccountAssetMetadata
    decreases s.len(),
{
    if s.len() == 0 {
        AccountAssetMetadata { free: 0, frozen: 0 }
    } else if s.last().asset == a && s.last().account == w {
        s.last().meta
    } else {
        acct_at(s.drop_last(), a, w)
    }
}

/// What one balance row contributes to the sum for asset `id`.
pub open spec fn row_total(e: AccountEntry, id: AssetId) -> int {
    if e.asset == id {
        e.meta.free + e.meta.frozen
    } else {
        0
    }
}

/// Sum of `free + frozen` over all rows of asset `id`.
pub open spec fn sum_for(s: Seq<AccountEntry>, id: AssetId) -> int
    decreases s.len(),
{
    if s.len() == 0 {
        0
    } else {
        sum_for(s.drop_last(), id) + row_total(s.last(), id)
    }
}

/// No two rows of the issuance table share an asset id.
pub open spec fn assets_unique(s: Seq<AssetEntry>) -> bool {
    forall|i: int, j: int| 0 <= i < j < s.len() ==> (#[trigger] s[i]).id != (#[trigger] s[j]).id
}

/// No two rows of the balance table share an `(asset, account)` key.
pub open spec fn accounts_unique(s: Seq<AccountEntry>) -> bool {
    forall|i: int, j: int|
        0 <= i < j < s.len() ==> ((#[trigger] s[i]).asset != (#[trigger] s[j]).asset
            || s[i].account != s[j].account)
}

/// The ledger: an issuance table, a balance table, and the id the next
/// created asset will take.
pub struct TokenLedger {
    pub next_asset_id: AssetId,
    pub assets: Vec<AssetEntry>,
    pub accounts: Vec<AccountEntry>,
}

impl TokenLedger {
    /// Supply of asset `id`; zero when the asset was never created.
    pub open spec fn supply_of(self, id: AssetId) -> int {
        match asset_at(self.assets@, id) {
            Some(d) => d.supply as int,
            None => 0,
        }
    }

    pub open spec fn has_asset(self, id: AssetId) -> bool {
        asset_at(self.assets@, id) is Some
    }

    pub open spec fn issuer_of(self, id: AssetId) -> AccountId {
        asset_at(self.assets@, id)->Some_0.issuer
    }

    pub open spec fn free_of(self, a: AssetId, w: AccountId) -> int {
        acct_at(self.accounts@, a, w).free as int
    }

    pub open spec fn frozen_of(self, a: AssetId, w: AccountId) -> int {
        acct_at(self.accounts@, a, w).frozen as int
    }

    /// The balance table as a total map from `(asset, account)` to
    /// `(free, frozen)`; keys never read default to `(0, 0)`.
    pub open spec fn accounts_map(self) -> Map<(AssetId, AccountId), (int, int)> {
        Map::new(
            |k: (AssetId, AccountId)| true,
            |k: (AssetId, AccountId)| (self.free_of(k.0, k.1), self.frozen_of(k.0, k.1)),
        )
    }

    /// Well-formedness: unique keys, asset ids below the allocation counter,
    /// and conservation — for every asset id, the sum of `free + frozen`
    /// over all rows equals the recorded supply (zero for assets never
    /// created).
    pub open spec fn wf(self) -> bool {
        &&& assets_unique(self.assets@)
        &&& accounts_unique(self.accounts@)
        &&& forall|i: int|
            0 <= i < self.assets@.len() ==> (#[trigger] self.assets@[i]).id < self.next_asset_id
        &&& forall|id: AssetId| #[trigger] sum_for(self.accounts@, id) == self.supply_of(id)
    }

    /// A fresh, empty ledger.
    pub fn new() -> (r: Self)
        ensures
            r.wf(),
            r.next_asset_id == 0,
            forall|id: AssetId| !(#[trigger] r.has_asset(id)),
            r.accounts_map() =~= Map::new(|k: (AssetId, AccountId)| true, |k: (AssetId, AccountId)| (0int, 0int)),
    {
        TokenLedger { next_asset_id: 0, assets: Vec::new(), accounts: Vec::new() }
    }
}

/// The sum for any asset is never negative.
pub proof fn lemma_sum_nonneg(s: Seq<AccountEntry>, id: AssetId)
    ensures
        sum_for(s, id) >= 0,
    decreases s.len(),
{
    if s.len() > 0 {
        lemma_sum_nonneg(s.drop_last(), id);
    }
}

/// One row's contribution is bounded by the whole sum.
pub proof fn lemma_row_le_sum(s: Seq<AccountEntry>, i: int, id: AssetId)
    requires
        0 <= i < s.len(),
    ensures
        row_total(s[i], id) <= sum_for(s, id),
    decreases s.len(),
{
    if i == s.len() - 1 {
        lemma_sum_nonneg(s.drop_last(), id);
    } else {
        lemma_row_le_sum(s.drop_last(), i, id);
    }
}

/// Two distinct rows together contribute at most the whole sum.
pub proof fn lemma_two_rows_le_sum(s: Seq<AccountEntry>, i: int, j: int, id: AssetId)
    requires
        0 <= i < s.len(),
        0 <= j < s.len(),
        i != j,
    ensures
        row_total(s[i], id) + row_total(s[j], id) <= sum_for(s, id),
    decreases s.len(),
{
    if i == s.len() - 1 {
        lemma_row_le_sum(s.drop_last(), j, id);
    } else if j == s.len() - 1 {
        lemma_row_le_sum(s.drop_last(), i, id);
    } else {
        lemma_two_rows_le_sum(s.drop_last(), i, j, id);
    }
}

/// Replacing row `i` changes each asset's sum by the difference of the two
/// rows' contributions.
pub proof fn lemma_sum_update(s: Seq<AccountEntry>, i: int, e: AccountEntry, id: AssetId)
    requires
        0 <= i < s.len(),
    ensures
        sum_for(s.update(i, e), id) == sum_for(s, id) - row_total(s[i], id) + row_total(e, id),
    decreases s.len(),
{
    if i == s.len() - 1 {
        assert(s.update(i, e).drop_last() =~= s.drop_last());
    } else {
        assert(s.update(i, e).drop_last() =~= s.drop_last().update(i, e));
        lemma_sum_update(s.drop_last(), i, e, id);
    }
}

/// Appending a row adds exactly its contribution to each asset's sum.
pub proof fn lemma_sum_push(s: Seq<AccountEntry>, e: AccountEntry, id: AssetId)
    ensures
        sum_for(s.push(e), id) == sum_for(s, id) + row_total(e, id),
{
    assert(s.push(e).drop_last() =~= s);
}

/// Whatever the lookup reads at a key is bounded by that asset's sum.
pub proof fn lemma_acct_le_sum(s: Seq<AccountEntry>, a: AssetId, w: AccountId)
    ensures
        acct_at(s, a, w).free + acct_at(s, a, w).frozen <= sum_for(s, a),
    decreases s.len(),
{
    lemma_sum_nonneg(s, a);
    if s.len() > 0 {
        if s.last().asset == a && s.last().account == w {
            lemma_sum_nonneg(s.drop_last(), a);
        } else {
            lemma_acct_le_sum(s.drop_last(), a, w);
        }
    }
}

/// With unique keys, the lookup at row `i`'s key reads exactly row `i`.
pub proof fn lemma_acct_at_index(s: Seq<AccountEntry>, i: int)
    requires
        accounts_unique(s),
        0 <= i < s.len(),
    ensures
        acct_at(s, s[i].asset, s[i].account) == s[i].meta,
    decreases s.len(),
{
    if i < s.len() - 1 {
        assert(accounts_unique(s.drop_last())) by {
            assert(forall|x: int, y: int|
                0 <= x < y < s.drop_last().len() ==> s.drop_last()[x] == s[x] && s.drop_last()[y]
                    == s[y]);
        }
        lemma_acct_at_index(s.drop_last(), i);
    }
}

/// A key present in no row reads as the zero metadata.
pub proof fn lemma_acct_at_absent(s: Seq<AccountEntry>, a: AssetId, w: AccountId)
    requires
        forall|i: int|
            0 <= i < s.len() ==> ((#[trigger] s[i]).asset != a || s[i].account != w),
    ensures
        acct_at(s, a, w) == (AccountAssetMetadata { free: 0, frozen: 0 }),
    decreases s.len(),
{
    if s.len() > 0 {
        lemma_acct_at_absent(s.drop_last(), a, w);
    }
}

/// Replacing row `i` by a row with the same key changes the lookup at that
/// key alone, and keeps the keys unique.
pub proof fn lemma_acct_at_update(s: Seq<AccountEntry>, i: int, e: AccountEntry)
    requires
        accounts_unique(s),
        0 <= i < s.len(),
        e.asset == s[i].asset,
        e.account == s[i].account,
    ensures
        accounts_unique(s.update(i, e)),
        forall|a: AssetId, w: AccountId|
            #[trigger] acct_at(s.update(i, e), a, w) == if a == e.asset && w == e.account {
                e.meta
            } else {
                acct_at(s, a, w)
            },
    decreases s.len(),
{
    let t = s.update(i, e);
    assert(accounts_unique(t)) by {
        assert(forall|x: int| 0 <= x < t.len() && x != i ==> t[x] == s[x]);
    }
    if i == s.len() - 1 {
        assert(t.drop_last() =~= s.drop_last());
        assert forall|a: AssetId, w: AccountId|
            #[trigger] acct_at(t, a, w) == if a == e.asset && w == e.account {
                e.meta
            } else {
                acct_at(s, a, w)
            } by {
            if a == e.asset && w == e.account {
                assert(t.last() == e);
            } else {
                assert(acct_at(t, a, w) == acct_at(t.drop_last(), a, w));
            }
        }
    } else {
        assert(accounts_unique(s.drop_last())) by {
            assert(forall|x: int, y: int|
                0 <= x < y < s.drop_last().len() ==> s.drop_last()[x] == s[x] && s.drop_last()[y]
                    == s[y]);
        }
        assert(t.drop_last() =~= s.drop_last().update(i, e));
        lemma_acct_at_update(s.drop_last(), i, e);
        assert forall|a: AssetId, w: AccountId|
            #[trigger] acct_at(t, a, w) == if a == e.asset && w == e.account {
                e.meta
            } else {
                acct_at(s, a, w)
            } by {
            assert(t.last() == s.last());
            assert(acct_at(t.drop_last(), a, w) == acct_at(s.drop_last().update(i, e), a, w));
            if a == e.asset && w == e.account {
                // row i and the last row have distinct keys, so the last row
                // does not match this key
                assert(s[i].asset != s.last().asset || s[i].account != s.last().account);
                assert(acct_at(s.drop_last().update(i, e), a, w) == e.meta);
            } else {
                assert(acct_at(s.drop_last().update(i, e), a, w) == acct_at(s.drop_last(), a, w));
            }
        }
    }
}

/// Appending a row with a fresh key changes the lookup at that key alone,
/// and keeps the keys unique.
pub proof fn lemma_acct_at_push(s: Seq<AccountEntry>, e: AccountEntry)
    requires
        accounts_unique(s),
        forall|i: int|
            0 <= i < s.len() ==> ((#[trigger] s[i]).asset != e.asset || s[i].account != e.account),
    ensures
        accounts_unique(s.push(e)),
        forall|a: AssetId, w: AccountId|
            #[trigger] acct_at(s.push(e), a, w) == if a == e.asset && w == e.account {
                e.meta
            } else {
                acct_at(s, a, w)
            },
{
    let t = s.push(e);
    assert(accounts_unique(t)) by {
        assert(forall|x: int| 0 <= x < s.len() ==> t[x] == s[x]);
        assert(t[t.len() - 1] == e);
    }
    assert(t.drop_last() =~= s);
    assert(t.last() == e);
}

/// With unique ids, the lookup at row `i`'s id reads exactly row `i`.
pub proof fn lemma_asset_at_index(s: Seq<AssetEntry>, i: int)
    requires
        assets_unique(s),
        0 <= i < s.len(),
    ensures
        asset_at(s, s[i].id) == Some(s[i].details),
    decreases s.len(),
{
    if i < s.len() - 1 {
        assert(assets_unique(s.drop_last())) by {
            assert(forall|x: int, y: int|
                0 <= x < y < s.drop_last().len() ==> s.drop_last()[x] == s[x] && s.drop_last()[y]
                    == s[y]);
        }
        lemma_asset_at_index(s.drop_last(), i);
    }
}

/// An id present in no row reads as `None`.
pub proof fn lemma_asset_at_absent(s: Seq<AssetEntry>, id: AssetId)
    requires
        forall|i: int| 0 <= i < s.len() ==> (#[trigger] s[i]).id != id,
    ensures
        asset_at(s, id) is None,
    decreases s.len(),
{
    if s.len() > 0 {
        lemma_asset_at_absent(s.drop_last(), id);
    }
}

/// Replacing row `i` by a row with the same id changes the lookup at that id
/// alone, and keeps the ids unique.
pub proof fn lemma_asset_at_update(s: Seq<AssetEntry>, i: int, e: AssetEntry)
    requires
        assets_unique(s),
        0 <= i < s.len(),
        e.id == s[i].id,
    ensures
        assets_unique(s.update(i, e)),
        forall|id: AssetId|
            #[trigger] asset_at(s.update(i, e), id) == if id == e.id {
                Some(e.details)
            } else {
                asset_at(s, id)
            },
    decreases s.len(),
{
    let t = s.update(i, e);
    assert(assets_unique(t)) by {
        assert(forall|x: int| 0 <= x < t.len() && x != i ==> t[x] == s[x]);
    }
    if i == s.len() - 1 {
        assert(t.drop_last() =~= s.drop_last());
        assert(t.last() == e);
    } else {
        assert(assets_unique(s.drop_last())) by {
            assert(forall|x: int, y: int|
                0 <= x < y < s.drop_last().len() ==> s.drop_last()[x] == s[x] && s.drop_last()[y]
                    == s[y]);
        }
        assert(t.drop_last() =~= s.drop_last().update(i, e));
        lemma_asset_at_update(s.drop_last(), i, e);
        assert forall|id: AssetId|
            #[trigger] asset_at(t, id) == if id == e.id {
                Some(e.details)
            } else {
                asset_at(s, id)
            } by {
            assert(t.last() == s.last());
            assert(asset_at(t.drop_last(), id) == asset_at(s.drop_last().update(i, e), id));
            if id == e.id {
                assert(s[i].id != s.last().id);
                assert(asset_at(s.drop_last().update(i, e), id) == Some(e.details));
            } else {
                assert(asset_at(s.drop_last().update(i, e), id) == asset_at(s.drop_last(), id));
            }
        }
    }
}

/// Appending a row with a fresh id changes the lookup at that id alone, and
/// keeps the ids unique.
pub proof fn lemma_asset_at_push(s: Seq<AssetEntry>, e: AssetEntry)
    requires
        assets_unique(s),
        forall|i: int| 0 <= i < s.len() ==> (#[trigger] s[i]).id != e.id,
    ensures
        assets_unique(s.push(e)),
        forall|id: AssetId|
            #[trigger] asset_at(s.push(e), id) == if id == e.id {
                Some(e.details)
            } else {
                asset_at(s, id)
            },
{
    let t = s.push(e);
    assert(assets_unique(t)) by {
        assert(forall|x: int| 0 <= x < s.len() ==> t[x] == s[x]);
        assert(t[t.len() - 1] == e);
    }
    assert(t.drop_last() =~= s);
    assert(t.last() == e);
}

impl TokenLedger {
    /// Index of the issuance row of `id`, if the asset was created.
    fn find_asset(&self, id: AssetId) -> (r: Option<usize>)
        requires
            assets_unique(self.assets@),
        ensures
            match r {
                Some(i) => i < self.assets@.len() && self.assets@[i as int].id == id
                    && asset_at(self.assets@, id) == Some(self.assets@[i as int].details),
                None => !self.has_asset(id) && forall|i: int|
                    0 <= i < self.assets@.len() ==> (#[trigger] self.assets@[i]).id != id,
            },
    {
        let n = self.assets.len();
        let mut i: usize = 0;
        while i < n
            invariant
                n == self.assets@.len(),
                i <= n,
                assets_unique(self.assets@),
                forall|j: int| 0 <= j < i ==> (#[trigger] self.assets@[j]).id != id,
            decreases n - i,
        {
            if self.assets[i].id == id {
                proof {
                    lemma_asset_at_index(self.assets@, i as int);
                }
                return Some(i);
            }
            i = i + 1;
        }
        proof {
            lemma_asset_at_absent(self.assets@, id);
        }
        None
    }

    /// Index of the balance row of `(a, w)`, if one exists.
    fn find_account(&self, a: AssetId, w: AccountId) -> (r: Option<usize>)
        requires
            accounts_unique(self.accounts@),
        ensures
            match r {
                Some(i) => i < self.accounts@.len() && self.accounts@[i as int].asset == a
                    && self.accounts@[i as int].account == w
                    && acct_at(self.accounts@, a, w) == self.accounts@[i as int].meta,
                None => acct_at(self.accounts@, a, w) == (AccountAssetMetadata { free: 0, frozen: 0 })
                    && forall|i: int|
                    0 <= i < self.accounts@.len() ==> ((#[trigger] self.accounts@[i]).asset != a
                        || self.accounts@[i].account != w),
            },
    {
        let n = self.accounts.len();
        let mut i: usize = 0;
        while i < n
            invariant
                n == self.accounts@.len(),
                i <= n,
                accounts_unique(self.accounts@),
                forall|j: int|
                    0 <= j < i ==> ((#[trigger] self.accounts@[j]).asset != a
                        || self.accounts@[j].account != w),
            decreases n - i,
        {
            if self.accounts[i].asset == a && self.accounts[i].account == w {
                proof {
                    lemma_acct_at_index(self.accounts@, i as int);
                }
                return Some(i);
            }
            i = i + 1;
        }
        proof {
            lemma_acct_at_absent(self.accounts@, a, w);
        }
        None
    }
}

/// Transition of the balance map by a lock: `v` moves from free to frozen at
/// one key.
pub open spec fn lock_tr(
    m: Map<(AssetId, AccountId), (int, int)>,
    a: AssetId,
    w: AccountId,
    v: Balance,
) -> Map<(AssetId, AccountId), (int, int)> {
    m.insert((a, w), (m[(a, w)].0 - v, m[(a, w)].1 + v))
}

/// Transition of the balance map by a strict unlock: `v` moves from frozen
/// back to free at one key.
pub open spec fn unlock_strict_tr(
    m: Map<(AssetId, AccountId), (int, int)>,
    a: AssetId,
    w: AccountId,
    v: Balance,
) -> Map<(AssetId, AccountId), (int, int)> {
    m.insert((a, w), (m[(a, w)].0 + v, m[(a, w)].1 - v))
}

/// Transition of the balance map by a best-effort unlock: only what is
/// actually frozen moves, never failing.
pub open spec fn unlock_easy_tr(
    m: Map<(AssetId, AccountId), (int, int)>,
    a: AssetId,
    w: AccountId,
    v: Balance,
) -> Map<(AssetId, AccountId), (int, int)> {
    let moved = if v <= m[(a, w)].1 { v as int } else { m[(a, w)].1 };
    m.insert((a, w), (m[(a, w)].0 + moved, m[(a, w)].1 - moved))
}

/// Transition of the balance map by a transfer between two distinct
/// accounts: debit at `(a, from)`, credit at `(a, to)`.
pub open spec fn transfer_tr(
    m: Map<(AssetId, AccountId), (int, int)>,
    a: AssetId,
    from: AccountId,
    to: AccountId,
    v: Balance,
) -> Map<(AssetId, AccountId), (int, int)> {
    m.insert((a, from), (m[(a, from)].0 - v, m[(a, from)].1)).insert(
        (a, to),
        (m[(a, to)].0 + v, m[(a, to)].1),
    )
}

impl TokenLedger {
    /// Issue a new asset class: `total` units, all credited as free balance
    /// to `owner`, who becomes the issuer. The asset takes the next id.
    pub fn create_token(&mut self, owner: AccountId, total: Balance) -> (id: AssetId)
        requires
            old(self).wf(),
            old(self).next_asset_id < u64::MAX,
        ensures
            final(self).wf(),
            id == old(self).next_asset_id,
            final(self).next_asset_id == old(self).next_asset_id + 1,
            !old(self).has_asset(id),
            final(self).has_asset(id),
            final(self).issuer_of(id) == owner,
            final(self).supply_of(id) == total,
            forall|x: AssetId|
                x != id ==> #[trigger] asset_at(final(self).assets@, x) == asset_at(
                    old(self).assets@,
                    x,
                ),
            acct_at(final(self).accounts@, id, owner) == (AccountAssetMetadata {
                free: total,
                frozen: 0,
            }),
            forall|a: AssetId, w: AccountId|
                (a != id || w != owner) ==> #[trigger] acct_at(final(self).accounts@, a, w)
                    == acct_at(old(self).accounts@, a, w),
            final(self).accounts_map() == old(self).accounts_map().insert(
                (id, owner),
                (total as int, 0int),
            ),
    {
        let id = self.next_asset_id;
        proof {
            assert(forall|i: int| 0 <= i < self.assets@.len() ==> (#[trigger] self.assets@[i]).id != id);
            lemma_asset_at_absent(self.assets@, id);
        }
        self.next_asset_id = id + 1;
        let ghost assets0 = self.assets@;
        let ghost accounts0 = self.accounts@;
        let entry = AssetEntry { id, details: AssetDetails { issuer: owner, supply: total } };
        proof {
            lemma_asset_at_push(assets0, entry);
        }
        self.assets.push(entry);
        let row = AccountEntry {
            asset: id,
            account: owner,
            meta: AccountAssetMetadata { free: total, frozen: 0 },
        };
        match self.find_account(id, owner) {
            Some(i) => {
                proof {
                    // the pre-existing row of a never-created asset holds zero
                    lemma_sum_nonneg(accounts0.drop_last(), id);
                    lemma_row_le_sum(accounts0, i as int, id);
                    assert(sum_for(accounts0, id) == 0);
                    lemma_acct_at_update(accounts0, i as int, row);
                }
                let ghost oldrow = self.accounts@[i as int];
                self.accounts.set(i, row);
                proof {
                    assert forall|x: AssetId| #[trigger] sum_for(self.accounts@, x)
                        == self.supply_of(x) by {
                        lemma_sum_update(accounts0, i as int, row, x);
                    }
                }
            },
            None => {
                proof {
                    lemma_acct_at_push(accounts0, row);
                }
                self.accounts.push(row);
                proof {
                    assert forall|x: AssetId| #[trigger] sum_for(self.accounts@, x)
                        == self.supply_of(x) by {
                        lemma_sum_push(accounts0, row, x);
                    }
                }
            },
        }
        proof {
            assert(self.accounts_map() =~= old(self).accounts_map().insert(
                (id, owner),
                (total as int, 0int),
            ));
        }
        id
    }

    /// Move `amount` of free balance of asset `id` from `origin` to
    /// `target`. A transfer to oneself succeeds without change; a zero
    /// amount is rejected. The credit side cannot overflow in a well-formed
    /// ledger, because both balances are bounded by the asset's supply.
    pub fn base_transfer(
        &mut self,
        id: AssetId,
        origin: AccountId,
        target: AccountId,
        amount: Balance,
    ) -> (r: Result<(), Error>)
        requires
            old(self).wf(),
        ensures
            final(self).wf(),
            r == if amount == 0 {
                Err::<(), Error>(Error::AmountZero)
            } else if origin == target {
                Ok::<(), Error>(())
            } else if old(self).free_of(id, origin) < amount {
                Err::<(), Error>(Error::BalanceLow)
            } else {
                Ok::<(), Error>(())
            },
            r is Err || origin == target ==> *final(self) == *old(self),
            final(self).assets == old(self).assets,
            final(self).next_asset_id == old(self).next_asset_id,
            r is Ok && origin != target ==> final(self).accounts_map() == transfer_tr(
                old(self).accounts_map(),
                id,
                origin,
                target,
                amount,
            ),
            r is Ok && origin != target ==> acct_at(final(self).accounts@, id, origin)
                == (AccountAssetMetadata {
                free: (old(self).free_of(id, origin) - amount) as u64,
                frozen: acct_at(old(self).accounts@, id, origin).frozen,
            }) && acct_at(final(self).accounts@, id, target) == (AccountAssetMetadata {
                free: (old(self).free_of(id, target) + amount) as u64,
                frozen: acct_at(old(self).accounts@, id, target).frozen,
            }),
            forall|a: AssetId, w: AccountId|
                ((a != id || (w != origin && w != target)) ==> #[trigger] acct_at(
                    final(self).accounts@,
                    a,
                    w,
                ) == acct_at(old(self).accounts@, a, w)),
    {
        if amount == 0 {
            return Err(Error::AmountZero);
        }
        if origin == target {
            return Ok(());
        }
        let ghost accounts0 = self.accounts@;
        let i = match self.find_account(id, origin) {
            Some(i) => i,
            None => {
                return Err(Error::BalanceLow);
            },
        };
        let from_meta = self.accounts[i].meta;
        if from_meta.free < amount {
            return Err(Error::BalanceLow);
        }
        let new_from = AccountEntry {
            asset: id,
            account: origin,
            meta: AccountAssetMetadata { free: from_meta.free - amount, frozen: from_meta.frozen },
        };
        proof {
            lemma_acct_at_update(accounts0, i as int, new_from);
        }
        self.accounts.set(i, new_from);
        let ghost accounts1 = self.accounts@;
        match self.find_account(id, target) {
            Some(j) => {
                let to_meta = self.accounts[j].meta;
                proof {
                    // both rows are bounded by the supply, so the credit fits
                    assert(i != j);
                    lemma_two_rows_le_sum(accounts0, i as int, j as int, id);
                    assert(accounts1[j as int] == accounts0[j as int]);
                    assert(row_total(accounts0[i as int], id) + row_total(accounts0[j as int], id)
                        <= old(self).supply_of(id));
                }
                let new_to = AccountEntry {
                    asset: id,
                    account: target,
                    meta: AccountAssetMetadata {
                        free: to_meta.free + amount,
                        frozen: to_meta.frozen,
                    },
                };
                proof {
                    lemma_acct_at_update(accounts1, j as int, new_to);
                }
                self.accounts.set(j, new_to);
                proof {
                    assert forall|x: AssetId| #[trigger] sum_for(self.accounts@, x)
                        == self.supply_of(x) by {
                        lemma_sum_update(accounts0, i as int, new_from, x);
                        lemma_sum_update(accounts1, j as int, new_to, x);
                    }
                }
            },
            None => {
                let new_to = AccountEntry {
                    asset: id,
                    account: target,
                    meta: AccountAssetMetadata { free: amount, frozen: 0 },
                };
                proof {
                    lemma_acct_at_push(accounts1, new_to);
                }
                self.accounts.push(new_to);
                proof {
                    assert forall|x: AssetId| #[trigger] sum_for(self.accounts@, x)
                        == self.supply_of(x) by {
                        lemma_sum_update(accounts0, i as int, new_from, x);
                        lemma_sum_push(accounts1, new_to, x);
                    }
                }
            },
        }
        proof {
            assert(self.accounts_map() =~= transfer_tr(
                old(self).accounts_map(),
                id,
                origin,
                target,
                amount,
            ));
        }
        Ok(())
    }

    /// Mint `amount` new units of asset `id` to its issuer's free balance.
    /// Only the issuer may mint; the supply addition must not overflow.
    pub fn base_mint(&mut self, id: AssetId, issuer: AccountId, amount: Balance) -> (r: Result<
        (),
        Error,
    >)
        requires
            old(self).wf(),
        ensures
            final(self).wf(),
            r == if !old(self).has_asset(id) {
                Err::<(), Error>(Error::Unknown)
            } else if issuer != old(self).issuer_of(id) {
                Err::<(), Error>(Error::NoPermission)
            } else if old(self).supply_of(id) + amount > u64::MAX {
                Err::<(), Error>(Error::Overflow)
            } else {
                Ok::<(), Error>(())
            },
            r is Err ==> *final(self) == *old(self),
            final(self).next_asset_id == old(self).next_asset_id,
            r is Ok ==> asset_at(final(self).assets@, id) == Some(
                AssetDetails { issuer, supply: (old(self).supply_of(id) + amount) as u64 },
            ) && acct_at(final(self).accounts@, id, issuer) == (AccountAssetMetadata {
                free: (old(self).free_of(id, issuer) + amount) as u64,
                frozen: acct_at(old(self).accounts@, id, issuer).frozen,
            }),
            forall|x: AssetId|
                x != id ==> #[trigger] asset_at(final(self).assets@, x) == asset_at(
                    old(self).assets@,
                    x,
                ),
            forall|a: AssetId, w: AccountId|
                (a != id || w != issuer) ==> #[trigger] acct_at(final(self).accounts@, a, w)
                    == acct_at(old(self).accounts@, a, w),
    {
        let ghost assets0 = self.assets@;
        let ghost accounts0 = self.accounts@;
        let ai = match self.find_asset(id) {
            Some(ai) => ai,
            None => {
                return Err(Error::Unknown);
            },
        };
        let details = self.assets[ai].details;
        if issuer != details.issuer {
            return Err(Error::NoPermission);
        }
        if amount > u64::MAX - details.supply {
            return Err(Error::Overflow);
        }
        let new_asset = AssetEntry {
            id,
            details: AssetDetails { issuer, supply: details.supply + amount },
        };
        proof {
            lemma_asset_at_update(assets0, ai as int, new_asset);
        }
        self.assets.set(ai, new_asset);
        match self.find_account(id, issuer) {
            Some(i) => {
                let meta = self.accounts[i].meta;
                proof {
                    lemma_row_le_sum(accounts0, i as int, id);
                }
                let row = AccountEntry {
                    asset: id,
                    account: issuer,
                    meta: AccountAssetMetadata { free: meta.free + amount, frozen: meta.frozen },
                };
                proof {
                    lemma_acct_at_update(accounts0, i as int, row);
                }
                self.accounts.set(i, row);
                proof {
                    assert forall|x: AssetId| #[trigger] sum_for(self.accounts@, x)
                        == self.supply_of(x) by {
                        lemma_sum_update(accounts0, i as int, row, x);
                    }
                }
            },
            None => {
                let row = AccountEntry {
                    asset: id,
                    account: issuer,
                    meta: AccountAssetMetadata { free: amount, frozen: 0 },
                };
                proof {
                    lemma_acct_at_push(accounts0, row);
                }
                self.accounts.push(row);
                proof {
                    assert forall|x: AssetId| #[trigger] sum_for(self.accounts@, x)
                        == self.supply_of(x) by {
                        lemma_sum_push(accounts0, row, x);
                    }
                }
            },
        }
        Ok(())
    }

    /// Burn `amount` units from the issuer's free balance, reducing the
    /// supply by the same amount. Only the issuer may burn.
    pub fn base_burn(&mut self, id: AssetId, issuer: AccountId, amount: Balance) -> (r: Result<
        (),
        Error,
    >)
        requires
            old(self).wf(),
        ensures
            final(self).wf(),
            r == if !old(self).has_asset(id) {
                Err::<(), Error>(Error::Unknown)
            } else if issuer != old(self).issuer_of(id) {
                Err::<(), Error>(Error::NoPermission)
            } else if old(self).free_of(id, issuer) < amount {
                Err::<(), Error>(Error::BalanceLow)
            } else {
                Ok::<(), Error>(())
            },
            r is Err ==> *final(self) == *old(self),
            final(self).next_asset_id == old(self).next_asset_id,
            r is Ok ==> asset_at(final(self).assets@, id) == Some(
                AssetDetails { issuer, supply: (old(self).supply_of(id) - amount) as u64 },
            ) && acct_at(final(self).accounts@, id, issuer) == (AccountAssetMetadata {
                free: (old(self).free_of(id, issuer) - amount) as u64,
                frozen: acct_at(old(self).accounts@, id, issuer).frozen,
            }),
            forall|x: AssetId|
                x != id ==> #[trigger] asset_at(final(self).assets@, x) == asset_at(
                    old(self).assets@,
                    x,
                ),
            forall|a: AssetId, w: AccountId|
                (a != id || w != issuer) ==> #[trigger] acct_at(final(self).accounts@, a, w)
                    == acct_at(old(self).accounts@, a, w),
    {
        let ghost assets0 = self.assets@;
        let ghost accounts0 = self.accounts@;
        let ai = match self.find_asset(id) {
            Some(ai) => ai,
            None => {
                return Err(Error::Unknown);
            },
        };
        let details = self.assets[ai].details;
        if issuer != details.issuer {
            return Err(Error::NoPermission);
        }
        let i = match self.find_account(id, issuer) {
            Some(i) => i,
            None => {
                if amount == 0 {
                    // an absent row reads as zero, and burning zero changes nothing
                    return Ok(());
                }
                return Err(Error::BalanceLow);
            },
        };
        let meta = self.accounts[i].meta;
        if meta.free < amount {
            return Err(Error::BalanceLow);
        }
        proof {
            // the issuer's row is bounded by the supply, so the supply
            // subtraction cannot underflow
            lemma_row_le_sum(accounts0, i as int, id);
        }
        let new_asset = AssetEntry {
            id,
            details: AssetDetails { issuer, supply: details.supply - amount },
        };
        proof {
            lemma_asset_at_update(assets0, ai as int, new_asset);
        }
        self.assets.set(ai, new_asset);
        let row = AccountEntry {
            asset: id,
            account: issuer,
            meta: AccountAssetMetadata { free: meta.free - amount, frozen: meta.frozen },
        };
        proof {
            lemma_acct_at_update(accounts0, i as int, row);
        }
        self.accounts.set(i, row);
        proof {
            assert forall|x: AssetId| #[trigger] sum_for(self.accounts@, x) == self.supply_of(
                x,
            ) by {
                lemma_sum_update(accounts0, i as int, row, x);
            }
        }
        Ok(())
    }
}

impl TokenLedger {
    /// Move `amount` from `who`'s free balance into the frozen balance.
    /// This is the only path that increases `frozen`.
    pub fn base_lock(&mut self, id: AssetId, who: AccountId, amount: Balance) -> (r: Result<
        (),
        Error,
    >)
        requires
            old(self).wf(),
        ensures
            final(self).wf(),
            r == if old(self).free_of(id, who) < amount {
                Err::<(), Error>(Error::BalanceLow)
            } else {
                Ok::<(), Error>(())
            },
            r is Err ==> *final(self) == *old(self),
            final(self).assets == old(self).assets,
            final(self).next_asset_id == old(self).next_asset_id,
            r is Ok ==> final(self).accounts_map() == lock_tr(
                old(self).accounts_map(),
                id,
                who,
                amount,
            ),
            r is Ok ==> acct_at(final(self).accounts@, id, who) == (AccountAssetMetadata {
                free: (old(self).free_of(id, who) - amount) as u64,
                frozen: (old(self).frozen_of(id, who) + amount) as u64,
            }),
            forall|a: AssetId, w: AccountId|
                (a != id || w != who) ==> #[trigger] acct_at(final(self).accounts@, a, w)
                    == acct_at(old(self).accounts@, a, w),
    {
        let ghost accounts0 = self.accounts@;
        let i = match self.find_account(id, who) {
            Some(i) => i,
            None => {
                if amount == 0 {
                    // an absent row reads as zero; locking zero changes
                    // nothing, and the map transition inserts the value the
                    // key already reads
                    proof {
                        assert(self.accounts_map() =~= lock_tr(
                            old(self).accounts_map(),
                            id,
                            who,
                            0,
                        ));
                    }
                    return Ok(());
                }
                return Err(Error::BalanceLow);
            },
        };
        let meta = self.accounts[i].meta;
        if meta.free < amount {
            return Err(Error::BalanceLow);
        }
        proof {
            // free + frozen is bounded by the supply, so the frozen side fits
            lemma_row_le_sum(accounts0, i as int, id);
        }
        let row = AccountEntry {
            asset: id,
            account: who,
            meta: AccountAssetMetadata { free: meta.free - amount, frozen: meta.frozen + amount },
        };
        proof {
            lemma_acct_at_update(accounts0, i as int, row);
        }
        self.accounts.set(i, row);
        proof {
            assert forall|x: AssetId| #[trigger] sum_for(self.accounts@, x) == self.supply_of(
                x,
            ) by {
                lemma_sum_update(accounts0, i as int, row, x);
            }
            assert(self.accounts_map() =~= lock_tr(old(self).accounts_map(), id, who, amount));
        }
        Ok(())
    }

    /// Move `amount` from `who`'s frozen balance back to free, failing when
    /// less than `amount` is frozen.
    pub fn base_unlock(&mut self, id: AssetId, who: AccountId, amount: Balance) -> (r: Result<
        (),
        Error,
    >)
        requires
            old(self).wf(),
        ensures
            final(self).wf(),
            r == if old(self).frozen_of(id, who) < amount {
                Err::<(), Error>(Error::BalanceLow)
            } else {
                Ok::<(), Error>(())
            },
            r is Err ==> *final(self) == *old(self),
            final(self).assets == old(self).assets,
            final(self).next_asset_id == old(self).next_asset_id,
            r is Ok ==> final(self).accounts_map() == unlock_strict_tr(
                old(self).accounts_map(),
                id,
                who,
                amount,
            ),
            r is Ok ==> acct_at(final(self).accounts@, id, who) == (AccountAssetMetadata {
                free: (old(self).free_of(id, who) + amount) as u64,
                frozen: (old(self).frozen_of(id, who) - amount) as u64,
            }),
            forall|a: AssetId, w: AccountId|
                (a != id || w != who) ==> #[trigger] acct_at(final(self).accounts@, a, w)
                    == acct_at(old(self).accounts@, a, w),
    {
        let ghost accounts0 = self.accounts@;
        let i = match self.find_account(id, who) {
            Some(i) => i,
            None => {
                if amount == 0 {
                    proof {
                        assert(self.accounts_map() =~= unlock_strict_tr(
                            old(self).accounts_map(),
                            id,
                            who,
                            0,
                        ));
                    }
                    return Ok(());
                }
                return Err(Error::BalanceLow);
            },
        };
        let meta = self.accounts[i].meta;
        if meta.frozen < amount {
            return Err(Error::BalanceLow);
        }
        proof {
            lemma_row_le_sum(accounts0, i as int, id);
        }
        let row = AccountEntry {
            asset: id,
            account: who,
            meta: AccountAssetMetadata { free: meta.free + amount, frozen: meta.frozen - amount },
        };
        proof {
            lemma_acct_at_update(accounts0, i as int, row);
        }
        self.accounts.set(i, row);
        proof {
            assert forall|x: AssetId| #[trigger] sum_for(self.accounts@, x) == self.supply_of(
                x,
            ) by {
                lemma_sum_update(accounts0, i as int, row, x);
            }
            assert(self.accounts_map() =~= unlock_strict_tr(
                old(self).accounts_map(),
                id,
                who,
                amount,
            ));
        }
        Ok(())
    }

    /// Best-effort unlock: move `min(value, frozen)` from frozen to free
    /// and return the unsatisfied remainder. This operation never fails.
    pub fn unlock(&mut self, id: AssetId, who: AccountId, value: Balance) -> (remainder: Balance)
        requires
            old(self).wf(),
        ensures
            final(self).wf(),
            remainder as int == if value <= old(self).frozen_of(id, who) {
                0int
            } else {
                value - old(self).frozen_of(id, who)
            },
            final(self).assets == old(self).assets,
            final(self).next_asset_id == old(self).next_asset_id,
            final(self).accounts_map() == unlock_easy_tr(old(self).accounts_map(), id, who, value),
            acct_at(final(self).accounts@, id, who) == (AccountAssetMetadata {
                free: (old(self).free_of(id, who) + if value <= old(self).frozen_of(id, who) {
                    value as int
                } else {
                    old(self).frozen_of(id, who)
                }) as u64,
                frozen: (old(self).frozen_of(id, who) - if value <= old(self).frozen_of(id, who) {
                    value as int
                } else {
                    old(self).frozen_of(id, who)
                }) as u64,
            }),
            forall|a: AssetId, w: AccountId|
                (a != id || w != who) ==> #[trigger] acct_at(final(self).accounts@, a, w)
                    == acct_at(old(self).accounts@, a, w),
    {
        let ghost accounts0 = self.accounts@;
        let i = match self.find_account(id, who) {
            Some(i) => i,
            None => {
                // an absent row reads as zero: nothing is frozen, nothing moves
                proof {
                    assert(self.accounts_map() =~= unlock_easy_tr(
                        old(self).accounts_map(),
                        id,
                        who,
                        value,
                    ));
                }
                return value;
            },
        };
        let meta = self.accounts[i].meta;
        let moved = if value <= meta.frozen {
            value
        } else {
            meta.frozen
        };
        proof {
            lemma_row_le_sum(accounts0, i as int, id);
        }
        let row = AccountEntry {
            asset: id,
            account: who,
            meta: AccountAssetMetadata { free: meta.free + moved, frozen: meta.frozen - moved },
        };
        proof {
            lemma_acct_at_update(accounts0, i as int, row);
        }
        self.accounts.set(i, row);
        proof {
            assert forall|x: AssetId| #[trigger] sum_for(self.accounts@, x) == self.supply_of(
                x,
            ) by {
                lemma_sum_update(accounts0, i as int, row, x);
            }
            assert(self.accounts_map() =~= unlock_easy_tr(
                old(self).accounts_map(),
                id,
                who,
                value,
            ));
        }
        value - moved
    }

    /// Free balance of `who` in asset `id`; zero when no row exists.
    pub fn free_balance(&self, id: AssetId, who: AccountId) -> (r: Balance)
        requires
            self.wf(),
        ensures
            r as int == self.free_of(id, who),
    {
        match self.find_account(id, who) {
            Some(i) => self.accounts[i].meta.free,
            None => 0,
        }
    }

    /// Total (free plus frozen) balance of `who` in asset `id`.
    pub fn total_balance(&self, id: AssetId, who: AccountId) -> (r: Balance)
        requires
            self.wf(),
        ensures
            r as int == sat_add(
                acct_at(self.accounts@, id, who).free,
                acct_at(self.accounts@, id, who).frozen,
            ),
    {
        match self.find_account(id, who) {
            Some(i) => self.accounts[i].meta.total(),
            None => 0,
        }
    }

    /// Frozen balance of `who` in asset `id`.
    pub fn lock_balance_of(&self, id: AssetId, who: AccountId) -> (r: Balance)
        requires
            self.wf(),
        ensures
            r as int == self.frozen_of(id, who),
    {
        match self.find_account(id, who) {
            Some(i) => self.accounts[i].meta.frozen,
            None => 0,
        }
    }

    /// Total supply of asset `id`; zero when the asset was never created.
    pub fn total_issuances(&self, id: AssetId) -> (r: Balance)
        requires
            self.wf(),
        ensures
            r as int == self.supply_of(id),
    {
        match self.find_asset(id) {
            Some(i) => self.assets[i].details.supply,
            None => 0,
        }
    }

    /// Sum `free + frozen` of asset `id` over every account, by scanning the
    /// balance table. In a well-formed ledger this equals the recorded
    /// supply — the conservation law, checked here by execution as well.
    pub fn sum_account_balances(&self, id: AssetId) -> (r: Balance)
        requires
            self.wf(),
        ensures
            r as int == sum_for(self.accounts@, id),
            r as int == self.supply_of(id),
    {
        let n = self.accounts.len();
        let mut i: usize = 0;
        let mut acc: u64 = 0;
        proof {
            assert(self.accounts@.subrange(0, 0) =~= Seq::<AccountEntry>::empty());
        }
        while i < n
            invariant
                self.wf(),
                n == self.accounts@.len(),
                i <= n,
                acc as int == sum_for(self.accounts@.subrange(0, i as int), id),
                acc as int <= self.supply_of(id),
            decreases n - i,
        {
            let ghost pre = self.accounts@.subrange(0, i as int);
            let e = self.accounts[i];
            proof {
                assert(self.accounts@.subrange(0, i as int + 1) =~= pre.push(e));
                lemma_sum_push(pre, e, id);
                // the prefix sum plus this row stays within the full sum
                lemma_sum_split(self.accounts@, i as int + 1, id);
                lemma_sum_nonneg(self.accounts@.subrange(i as int + 1, n as int), id);
            }
            if e.asset == id {
                acc = acc + e.meta.free;
                acc = acc + e.meta.frozen;
            }
            i = i + 1;
        }
        proof {
            assert(self.accounts@.subrange(0, n as int) =~= self.accounts@);
        }
        acc
    }
}

impl TokenLedger {
    /// Issue a new asset class — the token-handler surface of
    /// [`TokenLedger::create_token`].
    pub fn create(&mut self, owner: AccountId, total: Balance) -> (id: AssetId)
        requires
            old(self).wf(),
            old(self).next_asset_id < u64::MAX,
        ensures
            final(self).wf(),
            id == old(self).next_asset_id,
            final(self).next_asset_id == old(self).next_asset_id + 1,
            !old(self).has_asset(id),
            final(self).has_asset(id),
            final(self).issuer_of(id) == owner,
            final(self).supply_of(id) == total,
            forall|x: AssetId|
                x != id ==> #[trigger] asset_at(final(self).assets@, x) == asset_at(
                    old(self).assets@,
                    x,
                ),
            final(self).accounts_map() == old(self).accounts_map().insert(
                (id, owner),
                (total as int, 0int),
            ),
    {
        self.create_token(owner, total)
    }

    /// The total supply of an asset — the token-handler surface of
    /// [`TokenLedger::total_issuances`].
    pub fn total(&self, aid: AssetId) -> (r: Balance)
        requires
            self.wf(),
        ensures
            r as int == self.supply_of(aid),
    {
        self.total_issuances(aid)
    }

    /// The free balance of one account.
    pub fn free_balance_of(&self, aid: AssetId, who: AccountId) -> (r: Balance)
        requires
            self.wf(),
        ensures
            r as int == self.free_of(aid, who),
    {
        self.free_balance(aid, who)
    }

    /// The total balance of one account.
    pub fn total_balance_of(&self, aid: AssetId, who: AccountId) -> (r: Balance)
        requires
            self.wf(),
        ensures
            r as int == sat_add(
                acct_at(self.accounts@, aid, who).free,
                acct_at(self.accounts@, aid, who).frozen,
            ),
    {
        self.total_balance(aid, who)
    }

    /// Reduce the supply and the issuer's free balance by `amount` — the
    /// token-handler surface of [`TokenLedger::base_burn`].
    pub fn burn(&mut self, aid: AssetId, who: AccountId, amount: Balance) -> (r: Result<(), Error>)
        requires
            old(self).wf(),
        ensures
            final(self).wf(),
            r == if !old(self).has_asset(aid) {
                Err::<(), Error>(Error::Unknown)
            } else if who != old(self).issuer_of(aid) {
                Err::<(), Error>(Error::NoPermission)
            } else if old(self).free_of(aid, who) < amount {
                Err::<(), Error>(Error::BalanceLow)
            } else {
                Ok::<(), Error>(())
            },
            r is Err ==> *final(self) == *old(self),
            r is Ok ==> asset_at(final(self).assets@, aid) == Some(
                AssetDetails { issuer: who, supply: (old(self).supply_of(aid) - amount) as u64 },
            ) && final(self).accounts_map() == old(self).accounts_map().insert(
                (aid, who),
                (old(self).free_of(aid, who) - amount, old(self).frozen_of(aid, who)),
            ),
    {
        let r = self.base_burn(aid, who, amount);
        proof {
            if r is Ok {
                assert(self.accounts_map() =~= old(self).accounts_map().insert(
                    (aid, who),
                    (old(self).free_of(aid, who) - amount, old(self).frozen_of(aid, who)),
                ));
            }
        }
        r
    }

    /// Grow the supply and the issuer's free balance by `amount` — the
    /// token-handler surface of [`TokenLedger::base_mint`].
    pub fn mint(&mut self, aid: AssetId, who: AccountId, amount: Balance) -> (r: Result<(), Error>)
        requires
            old(self).wf(),
        ensures
            final(self).wf(),
            r == if !old(self).has_asset(aid) {
                Err::<(), Error>(Error::Unknown)
            } else if who != old(self).issuer_of(aid) {
                Err::<(), Error>(Error::NoPermission)
            } else if old(self).supply_of(aid) + amount > u64::MAX {
                Err::<(), Error>(Error::Overflow)
            } else {
                Ok::<(), Error>(())
            },
            r is Err ==> *final(self) == *old(self),
            r is Ok ==> asset_at(final(self).assets@, aid) == Some(
                AssetDetails { issuer: who, supply: (old(self).supply_of(aid) + amount) as u64 },
            ) && final(self).accounts_map() == old(self).accounts_map().insert(
                (aid, who),
                (old(self).free_of(aid, who) + amount, old(self).frozen_of(aid, who)),
            ),
    {
        let r = self.base_mint(aid, who, amount);
        proof {
            if r is Ok {
                // the issuer's row is bounded by the supply, so the credit
                // stayed within the balance type
                lemma_acct_le_sum(old(self).accounts@, aid, who);
                assert(self.accounts_map() =~= old(self).accounts_map().insert(
                    (aid, who),
                    (old(self).free_of(aid, who) + amount, old(self).frozen_of(aid, who)),
                ));
            }
        }
        r
    }

    /// Move free balance between holders — the token-handler surface of
    /// [`TokenLedger::base_transfer`].
    pub fn transfer(&mut self, aid: AssetId, from: AccountId, to: AccountId, value: Balance) -> (r:
        Result<(), Error>)
        requires
            old(self).wf(),
        ensures
            final(self).wf(),
            r == if value == 0 {
                Err::<(), Error>(Error::AmountZero)
            } else if from == to {
                Ok::<(), Error>(())
            } else if old(self).free_of(aid, from) < value {
                Err::<(), Error>(Error::BalanceLow)
            } else {
                Ok::<(), Error>(())
            },
            r is Err || from == to ==> *final(self) == *old(self),
            final(self).assets == old(self).assets,
            final(self).next_asset_id == old(self).next_asset_id,
            r is Ok && from != to ==> final(self).accounts_map() == transfer_tr(
                old(self).accounts_map(),
                aid,
                from,
                to,
                value,
            ),
    {
        self.base_transfer(aid, from, to, value)
    }

    /// Freeze `value` of `who`'s free balance — the token-handler surface
    /// of [`TokenLedger::base_lock`].
    pub fn lock(&mut self, aid: AssetId, who: AccountId, value: Balance) -> (r: Result<(), Error>)
        requires
            old(self).wf(),
        ensures
            final(self).wf(),
            r == if old(self).free_of(aid, who) < value {
                Err::<(), Error>(Error::BalanceLow)
            } else {
                Ok::<(), Error>(())
            },
            r is Err ==> *final(self) == *old(self),
            final(self).assets == old(self).assets,
            final(self).next_asset_id == old(self).next_asset_id,
            r is Ok ==> final(self).accounts_map() == lock_tr(
                old(self).accounts_map(),
                aid,
                who,
                value,
            ),
    {
        self.base_lock(aid, who, value)
    }
}

/// Splitting the table at `k` splits the sum.
pub proof fn lemma_sum_split(s: Seq<AccountEntry>, k: int, id: AssetId)
    requires
        0 <= k <= s.len(),
    ensures
        sum_for(s, id) == sum_for(s.subrange(0, k), id) + sum_for(s.subrange(k, s.len() as int), id),
    decreases s.len() - k,
{
    if k == s.len() {
        assert(s.subrange(0, k) =~= s);
        assert(sum_for(s.subrange(k, s.len() as int), id) == 0);
    } else {
        lemma_sum_split(s, k + 1, id);
        let hi = s.subrange(k, s.len() as int);
        assert(s.subrange(0, k + 1) =~= s.subrange(0, k).push(s[k]));
        lemma_sum_push(s.subrange(0, k), s[k], id);
        lemma_sum_first(hi, id);
        assert(hi.drop_first() =~= s.subrange(k + 1, s.len() as int));
        assert(hi.first() == s[k]);
    }
}

/// The sum equals the first row's contribution plus the rest.
pub proof fn lemma_sum_first(s: Seq<AccountEntry>, id: AssetId)
    requires
        s.len() > 0,
    ensures
        sum_for(s, id) == row_total(s.first(), id) + sum_for(s.drop_first(), id),
    decreases s.len(),
{
    if s.len() == 1 {
        assert(s.drop_first() =~= Seq::<AccountEntry>::empty());
        assert(s.drop_last() =~= Seq::<AccountEntry>::empty());
    } else {
        lemma_sum_first(s.drop_last(), id);
        assert(s.drop_last().drop_first() =~= s.drop_first().drop_last());
        assert(s.drop_last().first() == s.first());
        assert(s.drop_first().last() == s.last());
    }
}

/// Conservation law: in every well-formed ledger — and every operation
/// ensures well-formedness — each asset's recorded supply equals the sum of
/// `free + frozen` over all accounts, for every asset id.
pub proof fn lemma_conservation(l: TokenLedger, id: AssetId)
    requires
        l.wf(),
    ensures
        sum_for(l.accounts@, id) == l.supply_of(id),
{
}

/// Lock round-trip law: locking `v` and then unlocking `v` (best-effort)
/// restores the balance map exactly, whenever `v` was within the free
/// balance and the frozen balance was not negative — as every reachable
/// ledger state guarantees.
pub proof fn lemma_lock_unlock_roundtrip(
    m: Map<(AssetId, AccountId), (int, int)>,
    a: AssetId,
    w: AccountId,
    v: Balance,
)
    requires
        m.dom().contains((a, w)),
        v <= m[(a, w)].0,
        m[(a, w)].1 >= 0,
    ensures
        unlock_easy_tr(lock_tr(m, a, w, v), a, w, v) == m,
{
    let locked = lock_tr(m, a, w, v);
    assert(locked[(a, w)].1 == m[(a, w)].1 + v);
    assert(unlock_easy_tr(locked, a, w, v) =~= m);
}

/// The same round trip through the strict unlock: after the lock, at least
/// `v` is frozen, so the strict unlock also restores the map.
pub proof fn lemma_lock_unlock_strict_roundtrip(
    m: Map<(AssetId, AccountId), (int, int)>,
    a: AssetId,
    w: AccountId,
    v: Balance,
)
    requires
        m.dom().contains((a, w)),
        v <= m[(a, w)].0,
        m[(a, w)].1 >= 0,
    ensures
        unlock_strict_tr(lock_tr(m, a, w, v), a, w, v) == m,
{
    assert(unlock_strict_tr(lock_tr(m, a, w, v), a, w, v) =~= m);
}

} // verus!
