use rollup_core::pool::pool::{ChainPoolsInfo, TxFeePayerPool, TxFeePayerPools};
use rollup_core::pubkey::Keypair;

#[test]
fn test_create_new_pool() {
    let mut chain_pool_info = ChainPoolsInfo { num_of_active_fee_payer_pools: 0, total_global_balance: 0 };

    let mut pools = TxFeePayerPools { pools: Vec::new() };

    TxFeePayerPool::create_new_pool(&mut chain_pool_info, &mut pools);

    assert_eq!(chain_pool_info.num_of_active_fee_payer_pools, 1);
    assert_eq!(pools.pools.len(), 1)
}

fn pool(id: u64, balance: u64) -> TxFeePayerPool {
    TxFeePayerPool { pool_id: id, balance, key: Keypair::new() }
}

#[test]
fn funds_and_deactivation_move_the_global_balance() {
    let mut pools = TxFeePayerPools { pools: Vec::new() };
    pools.add_new_created_pool_in_global_configs(pool(1, 10));
    pools.add_new_created_pool_in_global_configs(pool(2, 20));
    assert_eq!(pools.global_balance(), 30);
    assert_eq!(pools.add_funds_in_a_specific_pool(2, 5), Some(25));
    assert_eq!(pools.global_balance(), 35);
    assert_eq!(pools.add_funds_in_a_specific_pool(7, 5), None);
    assert_eq!(pools.get_specific_pool(1).map(|p| p.balance), Some(10));
    assert!(pools.get_specific_pool(9).is_none());
    pools.add_new_created_pool_in_global_configs(pool(3, 0));
    pools.deactive_pool(3);
    assert_eq!(pools.pools.len(), 2);
    assert_eq!(pools.global_balance(), 35);
}

#[test]
fn update_info_counts_a_pool_and_its_balance() {
    let mut info = ChainPoolsInfo { num_of_active_fee_payer_pools: 2, total_global_balance: 40 };
    info.update_info(60);
    assert_eq!(info.num_of_active_fee_payer_pools, 3);
    assert_eq!(info.total_global_balance, 100);
}

#[test]
fn new_pool_ids_are_odd_and_follow_the_count() {
    let mut info = ChainPoolsInfo { num_of_active_fee_payer_pools: 4, total_global_balance: 0 };
    let mut pools = TxFeePayerPools { pools: Vec::new() };
    TxFeePayerPool::create_new_pool(&mut info, &mut pools);
    assert_eq!(pools.pools[0].pool_id, 5);
    assert_eq!(pools.pools[0].balance, 0);
    assert_eq!(info.num_of_active_fee_payer_pools, 5);
}
