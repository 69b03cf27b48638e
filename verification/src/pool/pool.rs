//! Fee-payer pools and the chain-wide count and balance of them.

use crate::assoc_map::lemma_first_index;
use crate::pubkey::Keypair;
use vstd::prelude::*;

verus! {

/// Chain-wide count of active fee-payer pools and their total balance.
#[derive(Debug)]
pub struct ChainPoolsInfo {
    pub num_of_active_fee_payer_pools: u64,
    pub total_global_balance: u64,
}

/// One fee-payer pool: its id, balance and paying key pair.
#[derive(Debug)]
pub struct TxFeePayerPool {
    pub pool_id: u64,
    pub balance: u64,
    pub key: Keypair,
}

/// All fee-payer pools, in creation order.
#[derive(Debug)]
pub struct TxFeePayerPools {
    pub pools: Vec<TxFeePayerPool>,
}

/// The sum of the balances of the pools.
pub open spec fn total_balance(s: Seq<TxFeePayerPool>) -> int
    decreases s.len(),
{
    if s.len() == 0 {
        0
    } else {
        total_balance(s.drop_last()) + s.last().balance
    }
}

/// The position of the first pool with id `id`, if any.
pub open spec fn first_pool_with_id(s: Seq<TxFeePayerPool>, id: u64) -> Option<int> {
    if exists|i: int| 0 <= i < s.len() && s[i].pool_id == id {
        Some(
            choose|i: int|
                0 <= i < s.len() && s[i].pool_id == id && forall|j: int|
                    0 <= j < i ==> s[j].pool_id != id,
        )
    } else {
        None
    }
}

/// A list of pools that holds id `id` has a first pool with it.
proof fn lemma_first_pool_exists(s: Seq<TxFeePayerPool>, id: u64)
    requires
        exists|i: int| 0 <= i < s.len() && s[i].pool_id == id,
    ensures
        exists|i: int|
            0 <= i < s.len() && s[i].pool_id == id && forall|j: int| 0 <= j < i ==> s[j].pool_id != id,
{
    let p = |x: TxFeePayerPool| x.pool_id == id;
    let k = choose|i: int| 0 <= i < s.len() && s[i].pool_id == id;
    assert(p(s[k]));
    lemma_first_index(s, p);
}

/// The sum over a prefix never exceeds the sum over the whole.
proof fn lemma_total_prefix(s: Seq<TxFeePayerPool>, i: int)
    requires
        0 <= i <= s.len(),
    ensures
        0 <= total_balance(s.take(i)) <= total_balance(s),
    decreases s.len(),
{
    if i == s.len() {
        assert(s.take(i) =~= s);
        lemma_total_nonneg(s);
    } else {
        lemma_total_prefix(s.drop_last(), i);
        assert(s.drop_last().take(i) =~= s.take(i));
    }
}

proof fn lemma_total_nonneg(s: Seq<TxFeePayerPool>)
    ensures
        total_balance(s) >= 0,
    decreases s.len(),
{
    if s.len() > 0 {
        lemma_total_nonneg(s.drop_last());
    }
}

/// Replacing one pool changes the sum by the difference of the balances.
pub proof fn lemma_total_update(s: Seq<TxFeePayerPool>, i: int, p: TxFeePayerPool)
    requires
        0 <= i < s.len(),
    ensures
        total_balance(s.update(i, p)) == total_balance(s) - s[i].balance + p.balance,
    decreases s.len(),
{
    if i < s.len() - 1 {
        lemma_total_update(s.drop_last(), i, p);
        assert(s.update(i, p).drop_last() =~= s.drop_last().update(i, p));
    } else {
        assert(s.update(i, p).drop_last() =~= s.drop_last());
    }
}

impl ChainPoolsInfo {
    /// Records one more active pool and adds its balance to the total.
    pub fn update_info(&mut self, new_added_balance: u64)
        requires
            old(self).num_of_active_fee_payer_pools < u64::MAX,
            old(self).total_global_balance + new_added_balance <= u64::MAX,
        ensures
            final(self).num_of_active_fee_payer_pools == old(self).num_of_active_fee_payer_pools + 1,
            final(self).total_global_balance == old(self).total_global_balance + new_added_balance,
    {
        self.num_of_active_fee_payer_pools = self.num_of_active_fee_payer_pools + 1;
        self.total_global_balance = self.total_global_balance + new_added_balance
    }
}

impl TxFeePayerPool {
    /// Creates an empty pool with a fresh key pair and adds it to `pools`.
    ///
    /// Its id is the count of active pools before, bitwise-or 1.
    pub fn create_new_pool(chain_pool_info: &mut ChainPoolsInfo, pools: &mut TxFeePayerPools)
        requires
            old(chain_pool_info).num_of_active_fee_payer_pools < u64::MAX,
        ensures
            final(chain_pool_info).num_of_active_fee_payer_pools == old(
                chain_pool_info,
            ).num_of_active_fee_payer_pools + 1,
            final(chain_pool_info).total_global_balance == old(chain_pool_info).total_global_balance,
            final(pools).pools@.len() == old(pools).pools@.len() + 1,
            forall|i: int| 0 <= i < old(pools).pools@.len() ==> final(pools).pools@[i] == old(pools).pools@[i],
            final(pools).pools@.last().pool_id == (old(chain_pool_info).num_of_active_fee_payer_pools | 1u64),
            final(pools).pools@.last().balance == 0,
    {
        let pool_id = chain_pool_info.num_of_active_fee_payer_pools | 0 + 1;
        chain_pool_info.num_of_active_fee_payer_pools = chain_pool_info.num_of_active_fee_payer_pools + 1;
        let new_pool = TxFeePayerPool { pool_id: pool_id, balance: 0, key: Keypair::new() };
        pools.add_new_created_pool_in_global_configs(new_pool);
    }
}

impl TxFeePayerPools {
    /// The first pool with id `id`, if any.
    pub fn get_specific_pool(&mut self, id: u64) -> (r: Option<&TxFeePayerPool>)
        ensures
            *final(self) == *old(self),
            match first_pool_with_id(old(self).pools@, id) {
                Some(i) => r == Some(&old(self).pools@[i]),
                None => r is None,
            },
    {
        let mut i: usize = 0;
        while i < self.pools.len()
            invariant
                *self == *old(self),
                i <= self.pools@.len(),
                forall|j: int| 0 <= j < i ==> self.pools@[j].pool_id != id,
            decreases self.pools@.len() - i,
        {
            if self.pools[i].pool_id == id {
                proof {
                    lemma_first_pool_exists(self.pools@, id);
                    let f = first_pool_with_id(self.pools@, id).unwrap();
                    assert(f == i);
                }
                return Some(&self.pools[i]);
            }
            i = i + 1;
        }
        None
    }

    /// The sum of the balances of all pools.
    pub fn global_balance(&mut self) -> (total: u64)
        requires
            total_balance(old(self).pools@) <= u64::MAX,
        ensures
            *final(self) == *old(self),
            total == total_balance(old(self).pools@),
    {
        let mut total: u64 = 0;
        let mut i: usize = 0;
        while i < self.pools.len()
            invariant
                *self == *old(self),
                total_balance(self.pools@) <= u64::MAX,
                i <= self.pools@.len(),
                total == total_balance(self.pools@.take(i as int)),
            decreases self.pools@.len() - i,
        {
            proof {
                assert(self.pools@.take(i + 1).drop_last() =~= self.pools@.take(i as int));
                lemma_total_prefix(self.pools@, i + 1);
            }
            total = total + self.pools[i].balance;
            i = i + 1;
        }
        assert(self.pools@.take(i as int) =~= self.pools@);
        total
    }

    /// Adds a pool at the end.
    pub fn add_new_created_pool_in_global_configs(&mut self, pool: TxFeePayerPool)
        ensures
            final(self).pools@ == old(self).pools@.push(pool),
    {
        self.pools.push(pool);
    }

    /// Adds `new_balance` to the first pool with id `id` and returns its new
    /// balance; `None` when no pool has that id.
    pub fn add_funds_in_a_specific_pool(&mut self, id: u64, new_balance: u64) -> (r: Option<u64>)
        requires
            first_pool_with_id(old(self).pools@, id) matches Some(i) ==> old(self).pools@[i].balance
                + new_balance <= u64::MAX,
        ensures
            match first_pool_with_id(old(self).pools@, id) {
                Some(i) => {
                    &&& r == Some((old(self).pools@[i].balance + new_balance) as u64)
                    &&& final(self).pools@ == old(self).pools@.update(
                        i,
                        TxFeePayerPool {
                            pool_id: id,
                            balance: (old(self).pools@[i].balance + new_balance) as u64,
                            key: old(self).pools@[i].key,
                        },
                    )
                },
                None => r is None && final(self).pools@ == old(self).pools@,
            },
    {
        let mut i: usize = 0;
        while i < self.pools.len()
            invariant
                first_pool_with_id(old(self).pools@, id) matches Some(k) ==> old(self).pools@[k].balance
                    + new_balance <= u64::MAX,
                *self == *old(self),
                i <= self.pools@.len(),
                forall|j: int| 0 <= j < i ==> self.pools@[j].pool_id != id,
            decreases self.pools@.len() - i,
        {
            if self.pools[i].pool_id == id {
                proof {
                    lemma_first_pool_exists(self.pools@, id);
                    let f = first_pool_with_id(self.pools@, id).unwrap();
                    assert(f == i);
                }
                let updated_balance = self.pools[i].balance + new_balance;
                self.pools[i].balance = updated_balance;
                return Some(updated_balance);
            }
            i = i + 1;
        }
        None
    }

    /// Removes the first pool with id `id`, whose balance must be empty, by
    /// moving the last pool into its place; nothing happens when no pool has that id.
    pub fn deactive_pool(&mut self, id: u64)
        requires
            first_pool_with_id(old(self).pools@, id) matches Some(i) ==> old(self).pools@[i].balance == 0,
        ensures
            match first_pool_with_id(old(self).pools@, id) {
                Some(i) => final(self).pools@ == old(self).pools@.update(i, old(self).pools@.last()).drop_last(),
                None => final(self).pools@ == old(self).pools@,
            },
    {
        let mut i: usize = 0;
        while i < self.pools.len()
            invariant
                *self == *old(self),
                i <= self.pools@.len(),
                forall|j: int| 0 <= j < i ==> self.pools@[j].pool_id != id,
            decreases self.pools@.len() - i,
        {
            if self.pools[i].pool_id == id {
                proof {
                    lemma_first_pool_exists(self.pools@, id);
                    let f = first_pool_with_id(self.pools@, id).unwrap();
                    assert(f == i);
                }
                self.pools.swap_remove(i);
                return;
            }
            i = i + 1;
        }
    }
}

/// Adding funds to a pool raises the total balance of all pools by exactly that amount.
pub proof fn law_add_funds_raises_total(s: Seq<TxFeePayerPool>, i: int, amount: u64)
    requires
        0 <= i < s.len(),
    ensures
        total_balance(
            s.update(
                i,
                TxFeePayerPool {
                    pool_id: s[i].pool_id,
                    balance: (s[i].balance + amount) as u64,
                    key: s[i].key,
                },
            ),
        ) == total_balance(s) + ((s[i].balance + amount) as u64 - s[i].balance),
{
    lemma_total_update(
        s,
        i,
        TxFeePayerPool { pool_id: s[i].pool_id, balance: (s[i].balance + amount) as u64, key: s[i].key },
    );
}

/// Deactivating a pool (which must be empty) leaves the total balance unchanged.
pub proof fn law_deactivation_keeps_total(s: Seq<TxFeePayerPool>, i: int)
    requires
        0 <= i < s.len(),
        s[i].balance == 0,
    ensures
        total_balance(s.update(i, s.last()).drop_last()) == total_balance(s),
{
    lemma_total_update(s, i, s.last());
    let t = s.update(i, s.last());
    assert(t.last() == s.last());
}

} // verus!
