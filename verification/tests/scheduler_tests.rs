use rollup_core::pubkey::Pubkey;
use rollup_core::scheduler::read_write_locks::{ThreadAwareLocks, ThreadLoadCounter, ANY_THREAD, UNCONSTRAINED_THREAD};

fn unique_key() -> Pubkey {
    Pubkey::new_from_array(solana_sdk::pubkey::Pubkey::new_unique().to_bytes())
}

#[test]
fn test_account_read_locks() {
    const TEST_NUM_THREADS: usize = 4;
    const SELECTED_THREAD: usize = 1;
    let mut locks = ThreadAwareLocks::new(TEST_NUM_THREADS);
    let pk1 = unique_key();
    locks.read_account_lock(pk1, 1);
    locks.read_account_lock(pk1, 1);

    assert_eq!(
        locks.locks.get(&pk1).unwrap().read_lock.as_ref().unwrap().lock_count[SELECTED_THREAD],
        2
    );
    println!("{:?}", locks);
}

#[test]
fn test_account_write_lock() {
    const TEST_NUM_THREADS: usize = 4;
    let mut locks = ThreadAwareLocks::new(TEST_NUM_THREADS);

    let pk1 = unique_key();
    locks.write_lock_account(pk1, 1);
    println!("{:?}", locks);

    assert_eq!(locks.locks.get(&pk1).unwrap().write_lock.as_ref().unwrap().lock_count, 1)
}

#[test]
fn test_account_write_lock_multiple() {
    const TEST_NUM_THREADS: usize = 4;
    let mut locks = ThreadAwareLocks::new(TEST_NUM_THREADS);

    let pk1 = unique_key();
    locks.write_lock_account(pk1, 1);
    locks.write_lock_account(pk1, 1);
    println!("{:?}", locks);

    assert_eq!(locks.locks.get(&pk1).unwrap().write_lock.as_ref().unwrap().lock_count, 2)
}

#[test]
fn test_schedule_on_thread_with_only_write() {
    const TEST_NUM_THREADS: usize = 4;
    let mut locks = ThreadAwareLocks::new(TEST_NUM_THREADS);

    let pk1 = unique_key();
    locks.write_lock_account(pk1, 1);

    let schedulable_thread = locks.schedule_on_threads(pk1, true);
    println!("{:?}", schedulable_thread)
}

#[test]
fn test_schedule_on_thread_with_read_and_write() {
    const TEST_NUM_THREADS: usize = 4;
    let mut locks = ThreadAwareLocks::new(TEST_NUM_THREADS);

    let pk1 = unique_key();
    locks.write_lock_account(pk1, 1);
    locks.read_account_lock(pk1, 1);
    let schedulable_thread = locks.schedule_on_threads(pk1, true);
    assert_eq!(schedulable_thread, Some(1));
    println!("{:?}", schedulable_thread)
}

#[test]
fn test_accounts_schedulable_threads_1() {
    let pk1 = unique_key();
    let pk2 = unique_key();

    const TEST_NUM_THREADS: usize = 4;
    let mut locks = ThreadAwareLocks::new(TEST_NUM_THREADS);

    locks.read_account_lock(pk1, 2);
    let scheduable_thread_for_new_tsx = locks.accounts_schedulable_threads(vec![pk1, pk2], vec![]);

    assert_eq!(locks.simplefy_threads(scheduable_thread_for_new_tsx.clone()).len(), 1);
    assert_eq!(locks.simplefy_threads(scheduable_thread_for_new_tsx.clone())[0], 2);

    println!("{:?}", locks.simplefy_threads(scheduable_thread_for_new_tsx))
}

#[test]
fn test_accounts_schedulable_threads_2() {
    let pk1 = unique_key();
    let pk2 = unique_key();
    let any_thread: usize = 1;
    const TEST_NUM_THREADS: usize = 4;
    let mut locks = ThreadAwareLocks::new(TEST_NUM_THREADS);

    locks.read_account_lock(pk1, 2);
    let scheduable_thread_for_new_tsx = locks.accounts_schedulable_threads(vec![], vec![pk1, pk2]);

    assert_eq!(locks.simplefy_threads(scheduable_thread_for_new_tsx.clone()).len(), 1);
    assert_eq!(locks.simplefy_threads(scheduable_thread_for_new_tsx.clone())[0], any_thread);

    println!("{:?}", locks.simplefy_threads(scheduable_thread_for_new_tsx))
}

#[test]
fn test_try_lock_account_with_no_conflict() {
    let pk1 = unique_key();
    let pk2 = unique_key();
    const TEST_NUM_THREADS: usize = 4;
    let mut locks = ThreadAwareLocks::new(TEST_NUM_THREADS);

    locks.write_lock_account(pk1, 2);

    assert_eq!(locks.try_lock_account(vec![pk1], vec![pk2]), 2)
}

#[test]
fn unlocked_account_schedules_anywhere() {
    let mut locks = ThreadAwareLocks::new(4);
    let pk1 = unique_key();
    assert_eq!(locks.schedule_on_threads(pk1, true), Some(UNCONSTRAINED_THREAD));
    assert_eq!(locks.simplefy_threads(vec![UNCONSTRAINED_THREAD, UNCONSTRAINED_THREAD]), vec![ANY_THREAD]);
    assert_eq!(locks.simplefy_threads(vec![UNCONSTRAINED_THREAD, 3, UNCONSTRAINED_THREAD, 2]), vec![3, 2]);
}

#[test]
fn read_locks_on_two_threads_block_a_writer_only() {
    let mut locks = ThreadAwareLocks::new(4);
    let mut load = ThreadLoadCounter::default();
    let pk1 = unique_key();
    let pk2 = unique_key();
    locks.read_account_lock(pk1, 2);
    locks.read_account_lock(pk1, 3);
    assert!(!locks.schedule_permitted(&pk1, true));
    assert!(locks.schedule_permitted(&pk1, false));
    assert_eq!(locks.schedule_on_threads(pk1, false), Some(ANY_THREAD));
    assert_eq!(locks.try_lock_account_or_defer(vec![pk1], vec![pk2], &mut load), None);
    // the refused request leaves the table and the loads as they were
    assert!(locks.locks.get(&pk2).is_none());
    assert_eq!(load.load_counter, [0, 0, 0, 0]);
    let read = locks.locks.get(&pk1).unwrap().read_lock.as_ref().unwrap();
    assert_eq!(read.lock_count, [0, 0, 1, 1]);
    // a reader of that account is placed on the least loaded thread
    assert_eq!(locks.try_lock_account_or_defer(vec![], vec![pk1], &mut load), Some(ANY_THREAD));
    assert_eq!(locks.try_lock_account_or_defer(vec![], vec![pk1], &mut load), Some(2));
    assert_eq!(load.load_counter, [0, 1, 1, 0]);
    let read = locks.locks.get(&pk1).unwrap().read_lock.as_ref().unwrap();
    assert_eq!(read.lock_count, [0, 1, 2, 1]);
}

#[test]
fn writer_and_reader_on_one_thread_schedule_there() {
    let mut locks = ThreadAwareLocks::new(4);
    let pk1 = unique_key();
    locks.write_lock_account(pk1, 2);
    locks.read_account_lock(pk1, 2);
    assert_eq!(locks.schedule_on_threads(pk1, true), Some(2));
    assert_eq!(locks.schedule_on_threads(pk1, false), Some(2));
    assert!(locks.schedule_permitted(&pk1, true));
}

#[test]
fn writer_and_readers_share_the_writers_thread() {
    let mut locks = ThreadAwareLocks::new(4);
    let pk1 = unique_key();
    let pk2 = unique_key();
    assert_eq!(locks.try_lock_account(vec![pk1], vec![pk2]), ANY_THREAD);
    let w = locks.locks.get(&pk1).unwrap().write_lock.as_ref().unwrap();
    assert_eq!((w.thread_id, w.lock_count), (ANY_THREAD, 1));
    let r = locks.locks.get(&pk2).unwrap().read_lock.as_ref().unwrap();
    assert_eq!(r.thread_set, [false, true, false, false]);
    // a second transaction touching pk1 is pinned to the same thread
    locks.write_lock_account(pk2, 1);
    assert_eq!(locks.try_lock_account(vec![pk2], vec![pk1]), 1);
    assert_eq!(locks.locks.get(&pk1).unwrap().write_lock.as_ref().unwrap().lock_count, 1);
    assert!(locks.write_lock_permitted(&pk1, 1));
    assert!(!locks.write_lock_permitted(&pk1, 2));
    assert!(!locks.read_lock_permitted(&pk1, 3));
}

#[test]
fn single_reader_thread_is_reported() {
    let mut locks = ThreadAwareLocks::new(4);
    let pk1 = unique_key();
    locks.read_account_lock(pk1, 3);
    let read = locks.locks.get(&pk1).unwrap().read_lock.as_ref().unwrap();
    assert_eq!(locks.convert_thread_set_into_single_thread_id(read), 1);
    assert_eq!(locks.handle_only_read_condition(read), Some(3));
    assert_eq!(locks.schedule_on_threads(pk1, true), Some(3));
    assert_eq!(locks.schedule_on_threads(pk1, false), Some(ANY_THREAD));
}
