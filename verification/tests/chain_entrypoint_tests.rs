use rollup_core::chain_entrypoint::transaction_context::{InstructionAccount, InstructionContext, TransactionContext};
use rollup_core::chain_entrypoint::tx_entrypoint::{
    get_all_transaction_metadata_from_transaction, prepare_account_for_the_transaction, prepare_key_for_trnasactions,
    AccountsMeta, ChainTransaction, TransactionsOnThread, SENDER_ACCOUNT_LAMPORTS,
};
use rollup_core::line_up_queue::line_up_queue::{AccountInvolvedInTransaction, LineUpQueue};
use rollup_core::processor::transaction::{TransactionMetadata, TransactionType};
use rollup_core::pubkey::{Keypair, Pubkey};
use rollup_core::scheduler::read_write_locks::{ThreadAwareLocks, ThreadLoadCounter};
use rollup_core::users_handler::user_handler::AppUserBase;

fn unique_key() -> Pubkey {
    Pubkey::new_from_array(solana_sdk::pubkey::Pubkey::new_unique().to_bytes())
}

fn transfer(payer: Pubkey, from: Pubkey, to: Pubkey, amount: u64) -> TransactionMetadata {
    TransactionMetadata {
        txs_type: TransactionType::Transfer,
        keys: vec![Some(payer), None, Some(from), Some(to), Some(payer)],
        args: vec![amount, 99],
    }
}

fn meta(key: Pubkey, is_writeable: bool) -> AccountsMeta {
    AccountsMeta { key, is_writeable, is_signer: false }
}

#[test]
fn account_metas_split_by_privilege_in_order() {
    let mut chain = ChainTransaction::default();
    let (a, b, c) = (unique_key(), unique_key(), unique_key());
    let accs = chain.convert_account_meta_to_acc_inv_txs(vec![meta(a, true), meta(b, false), meta(c, true)]);
    assert_eq!(accs.is_writeable_accounts, vec![a, c]);
    assert_eq!(accs.non_writeable_accounts, vec![b]);
    let signer = AccountsMeta::create_new_meta_with_signer(a, false);
    assert!(signer.is_signer && !signer.is_writeable && signer.key == a);
}

#[test]
fn test_full_flow() {
    let mut chain_trnasaction = ChainTransaction::default();
    let mut app_user_base = AppUserBase::default();
    let mut thread_load_counter = ThreadLoadCounter::default();

    let program_id = Keypair::new().pubkey();
    app_user_base.register_app(program_id);
    app_user_base.add_new_user_to_app(program_id);

    assert_eq!(app_user_base.app_user_base.get(&program_id).unwrap().users.len(), 1);

    let user_key = app_user_base.get_keypair_from_user_name(program_id, "user1".to_string());

    let _w_account = Keypair::new().pubkey();
    let r_account = Keypair::new().pubkey();
    let to = Keypair::new();

    // a transfer of 10_000_000 from the user to `to`, with no mint
    let transaction_metadata = transfer(user_key.pubkey(), user_key.pubkey(), to.pubkey(), 10_000_000);
    let transaction_metadata_2 = transfer(user_key.pubkey(), user_key.pubkey(), to.pubkey(), 10_000_000);
    let transaction_metadata_3 = transfer(user_key.pubkey(), user_key.pubkey(), to.pubkey(), 10_000_000);

    // reads r_account, reads r_account, writes r_account
    let transaction_accounts = vec![meta(r_account, false)];
    let transaction_accounts_2 = vec![meta(r_account, false)];
    let transaction_accounts_3 = vec![meta(r_account, true)];

    let mut lineup_queue: LineUpQueue<AccountInvolvedInTransaction> = LineUpQueue::default();
    let mut thread_aware_locks = ThreadAwareLocks::new(4);
    let mut transaction_on_thread = TransactionsOnThread::default();

    chain_trnasaction.push_new_transaction_with_id(
        1,
        &mut lineup_queue,
        transaction_accounts,
        transaction_metadata,
        &mut app_user_base,
        program_id,
        "user1".to_string(),
    );
    chain_trnasaction.push_new_transaction_with_id(
        2,
        &mut lineup_queue,
        transaction_accounts_2,
        transaction_metadata_2,
        &mut app_user_base,
        program_id,
        "user1".to_string(),
    );
    chain_trnasaction.push_new_transaction_with_id(
        3,
        &mut lineup_queue,
        transaction_accounts_3,
        transaction_metadata_3,
        &mut app_user_base,
        program_id,
        "user1".to_string(),
    );

    chain_trnasaction.put_all_the_transaction_in_the_lineup_queue(&mut lineup_queue);

    chain_trnasaction.sort_transaction_in_lineup_queue_by_priority(&mut lineup_queue);

    assert_eq!(lineup_queue.lineup_queue.len(), 3);

    assert_eq!(chain_trnasaction.chain_transaction.len(), 3);

    chain_trnasaction.take_out_individual_transaction_and_apply_RWlocks(
        &mut lineup_queue,
        &mut thread_aware_locks,
        &mut transaction_on_thread,
        &mut thread_load_counter,
    );

    assert_eq!(transaction_on_thread.trnasaction_on_thread.len(), 2);

    assert_eq!(lineup_queue.reschedable_txs.len(), 1);

    println!("tx_on_test{:?}", chain_trnasaction.chain_transaction);
    println!("len{:?}", transaction_on_thread.trnasaction_on_thread);

    println!("thread_load_counter {:?}", thread_load_counter.load_counter)
}

#[test]
fn readers_spread_over_threads_and_a_writer_of_their_account_waits() {
    let mut chain = ChainTransaction::default();
    let mut users = AppUserBase::default();
    let program_id = Keypair::new().pubkey();
    users.register_app(program_id);
    users.add_new_user_to_app(program_id);
    let user_key = users.get_keypair_from_user_name(program_id, "user1".to_string());
    let payer = Keypair::new();
    let to = Keypair::new();
    let r_account = unique_key();
    let mut lineup_queue: LineUpQueue<AccountInvolvedInTransaction> = LineUpQueue::default();
    let mut locks = ThreadAwareLocks::new(4);
    let mut on_thread = TransactionsOnThread::default();
    let mut load = ThreadLoadCounter::default();
    for (id, write) in [(1u64, false), (2u64, false), (3u64, true)] {
        chain.push_new_transaction_with_id(
            id,
            &mut lineup_queue,
            vec![meta(r_account, write)],
            transfer(payer.pubkey(), user_key.pubkey(), to.pubkey(), 10_000_000),
            &mut users,
            program_id,
            "user1".to_string(),
        );
    }
    assert!(lineup_queue.main_queue.iter().all(|t| t.priority == 1));
    chain.put_all_the_transaction_in_the_lineup_queue(&mut lineup_queue);
    assert_eq!(lineup_queue.main_queue.len(), 0);
    chain.take_out_individual_transaction_and_apply_RWlocks(&mut lineup_queue, &mut locks, &mut on_thread, &mut load);
    // the readers go to the least loaded threads, 1 and then 2
    assert_eq!(on_thread.get_all_tx_ids_for_thread(1), vec![1]);
    assert_eq!(on_thread.get_all_tx_ids_for_thread(2), vec![2]);
    assert_eq!(load.load_counter, [0, 1, 1, 0]);
    // the writer conflicts with readers on two threads and waits
    assert_eq!(lineup_queue.reschedable_txs.len(), 1);
    assert_eq!(lineup_queue.reschedable_txs[0].id, 3);
    assert_eq!(lineup_queue.lineup_queue.len(), 3);

    let placed = chain.get_all_transaction_on_a_thread(on_thread.clone(), 2);
    assert_eq!(placed.iter().map(|t| t.id).collect::<Vec<u64>>(), vec![2]);
    let kept = get_all_transaction_metadata_from_transaction(placed.clone());
    assert_eq!(kept[0].keys, vec![Some(payer.pubkey()), None, Some(user_key.pubkey()), Some(to.pubkey())]);
    assert_eq!(kept[0].args, vec![10_000_000]);
    let funded = prepare_account_for_the_transaction(placed.clone());
    assert_eq!(funded.len(), 1);
    assert_eq!(funded[0].0, user_key.pubkey());
    assert_eq!(funded[0].1.lamports, SENDER_ACCOUNT_LAMPORTS);
    assert!(funded[0].1.data.is_empty());
    assert_eq!(funded[0].1.owner.to_bytes(), [0u8; 32]);
    let keys = prepare_key_for_trnasactions(placed, payer.insecure_clone());
    assert_eq!(keys.len(), 2);
    assert_eq!(keys[0].pubkey(), payer.pubkey());
    assert_eq!(keys[1].pubkey(), user_key.pubkey());

    chain.clear_lineup_queue(&mut lineup_queue);
    assert!(lineup_queue.lineup_queue.is_empty());
}

#[test]
fn a_writer_joins_the_thread_of_its_accounts_writer() {
    let mut locks = ThreadAwareLocks::new(4);
    let mut load = ThreadLoadCounter::default();
    let (a, b) = (unique_key(), unique_key());
    locks.write_lock_account(a, 3);
    // `b` is free, `a` is written on thread 3: the transaction goes to 3
    assert_eq!(locks.try_lock_account_or_defer(vec![b], vec![a], &mut load), Some(3));
    assert_eq!(load.load_counter, [0, 0, 0, 1]);
    // a thread outside the worker count is refused and nothing is counted
    let mut two = ThreadAwareLocks::new(2);
    let c = unique_key();
    two.write_lock_account(c, 3);
    assert_eq!(two.try_lock_account_or_defer(vec![c], vec![], &mut load), None);
    assert_eq!(load.load_counter, [0, 0, 0, 1]);
}

#[test]
fn created_transaction_is_recorded_and_returned() {
    let mut chain = ChainTransaction::default();
    let mut users = AppUserBase::default();
    let program_id = unique_key();
    users.register_app(program_id);
    users.add_new_user_to_app(program_id);
    let accs = AccountInvolvedInTransaction { is_writeable_accounts: vec![unique_key()], non_writeable_accounts: vec![] };
    let m = transfer(unique_key(), unique_key(), unique_key(), 5);
    let t = chain.create_new_transaction(7, accs, 4, m, &mut users, program_id, "user1".to_string());
    assert_eq!((t.id, t.priority_level), (7, 4));
    let stored = chain.get_single_transaction_on_a_particular_thread(7);
    assert_eq!(stored.from_key.pubkey(), t.from_key.pubkey());
    assert_eq!(stored.accounts.is_writeable_accounts, t.accounts.is_writeable_accounts);
    assert_eq!(stored.transaction_metadata.keys.len(), 5);
}

#[test]
fn hashed_ids_follow_the_metadata() {
    let mut chain = ChainTransaction::default();
    let mut users = AppUserBase::default();
    let program_id = unique_key();
    users.register_app(program_id);
    users.add_new_user_to_app(program_id);
    let (p, f, t) = (unique_key(), unique_key(), unique_key());
    let mut q: LineUpQueue<AccountInvolvedInTransaction> = LineUpQueue::default();
    for amount in [5u64, 5, 6] {
        chain.push_new_transaction_to_the_main_queue(
            &mut q,
            vec![meta(f, true)],
            transfer(p, f, t, amount),
            &mut users,
            program_id,
            "user1".to_string(),
        );
    }
    assert_eq!(q.main_queue.len(), 3);
    assert_eq!(q.main_queue[0].id, q.main_queue[1].id);
    assert_ne!(q.main_queue[0].id, q.main_queue[2].id);
    assert_eq!(chain.chain_transaction.len(), 2);
    let h = chain.create_hash(transfer(p, f, t, 6));
    assert_eq!(h, q.main_queue[2].id);
}

#[test]
fn sorting_a_full_line_up_puts_high_priority_first() {
    let mut chain = ChainTransaction::default();
    let mut q: LineUpQueue<AccountInvolvedInTransaction> = LineUpQueue::default();
    for i in 0..10u64 {
        q.add_to_main_tx_queue(
            i,
            AccountInvolvedInTransaction { is_writeable_accounts: vec![], non_writeable_accounts: vec![] },
            i % 3,
        );
    }
    chain.put_all_the_transaction_in_the_lineup_queue(&mut q);
    chain.sort_transaction_in_lineup_queue_by_priority(&mut q);
    let ids: Vec<u64> = q.lineup_queue.iter().map(|t| t.id).collect();
    assert_eq!(ids, vec![2, 5, 8, 1, 4, 7, 0, 3, 6, 9]);
}

#[test]
fn test_transaction_context_flow() {
    let mut instruction_context = InstructionContext::default();
    let mut transaction_context = TransactionContext::default();

    let kp1 = Keypair::new().pubkey();
    let kp2 = Keypair::new().pubkey();

    let transaction_accounts = vec![kp1, kp2, kp1];

    transaction_context.fill_accounts(transaction_accounts.clone());
    transaction_context.main(&mut instruction_context, transaction_accounts);
}

#[test]
fn distinct_accounts_get_native_signer_entries() {
    let mut ic = InstructionContext::default();
    let mut tc = TransactionContext::default();
    let (k1, k2) = (unique_key(), unique_key());
    tc.fill_accounts(vec![k1, k2]);
    tc.main(&mut ic, vec![k1, k2]);
    assert_eq!(ic.get_context_stack_height(), 2);
    let first = ic.instruction_accounts[1];
    assert_eq!(
        (first.index_in_transaction, first.index_in_caller, first.index_in_callee, first.is_signer, first.is_writeable),
        (1, 0, None, true, true)
    );
    assert_eq!(tc.get_index_of_transaction(&k2), 1);
}

#[test]
fn repeated_account_gets_a_main_entry_without_signer() {
    let mut ic = InstructionContext::default();
    let mut tc = TransactionContext::default();
    let (k1, k2) = (unique_key(), unique_key());
    tc.fill_accounts(vec![k1, k2, k1]);
    tc.create_native_and_main_ins_account(vec![k1, k2, k1], &mut ic);
    assert_eq!(ic.instruction_accounts.len(), 3);
    let third = ic.instruction_accounts[2];
    assert_eq!(
        (third.index_in_transaction, third.index_in_caller, third.index_in_callee, third.is_signer, third.is_writeable),
        (0, 2, Some(0), false, true)
    );
    let native = tc.get_native_ins_account(ic.clone(), k1).unwrap();
    assert!(native.is_signer && native.index_in_callee.is_none() && native.index_in_transaction == 0);
    // the repeated account is the one whose privileges differ
    assert_ne!(native.is_signer, third.is_signer);
}

#[test]
fn instruction_accounts_are_added_in_order() {
    let mut ic = InstructionContext::default();
    ic.create_native_instruction_account_for_transaction(3, false, true);
    ic.create_main_instruction_account_for_transaction(3, true, false, 1);
    ic.add_instruction_context(InstructionAccount {
        index_in_transaction: 9,
        index_in_caller: 0,
        index_in_callee: None,
        is_writeable: false,
        is_signer: false,
    });
    assert_eq!(ic.get_context_stack_height(), 3);
    assert_eq!(ic.instruction_accounts[0].index_in_callee, None);
    assert_eq!(ic.instruction_accounts[1].index_in_caller, 1);
    assert_eq!(ic.instruction_accounts[1].index_in_callee, Some(0));
    assert_eq!(ic.instruction_accounts[2].index_in_transaction, 9);
}
