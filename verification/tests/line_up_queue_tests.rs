use rollup_core::line_up_queue::line_up_queue::{LineUpQueue, TransactionsInQueue};
use solana_sdk::transaction::Transaction;

#[test]
fn clear_lineup_queue() {
    let mut lineup_queue: LineUpQueue<Transaction> = LineUpQueue::default();
    lineup_queue.clear_lineup_queue_for_next_batch();
    assert_eq!(lineup_queue.lineup_queue.len(), 0)
}

#[test]
fn full_flow() {
    let mut line_up_queue = LineUpQueue::default();

    for i in 0..15 {
        line_up_queue.main_queue.push(TransactionsInQueue { id: i, txs: Transaction::default(), priority: i });
    }

    line_up_queue.add_to_line_up();
    assert_eq!(line_up_queue.main_queue.len(), 5);
    assert_eq!(line_up_queue.lineup_queue.len(), 10);
    println!("{:?}", line_up_queue.main_queue.len());
    println!("{:?}", line_up_queue.lineup_queue.len());

    for i in 0..10 {
        line_up_queue.add_transaction_to_non_rescheduable_container(i, i, Transaction::default());
    }

    assert_eq!(line_up_queue.reschedable_txs.len(), 5);
    println!("{:?}", line_up_queue.reschedable_txs.len());

    assert_eq!(line_up_queue.main_queue.len(), 10);
    println!("{:?}", line_up_queue.main_queue.len());
    println!("{:?}", line_up_queue.lineup_queue.len());
}

fn queue_with_priorities(ps: &[u64]) -> LineUpQueue<u8> {
    let mut q = LineUpQueue::default();
    for (i, p) in ps.iter().enumerate() {
        q.add_to_main_tx_queue(i as u64, 0u8, *p);
    }
    q
}

#[test]
fn sort_orders_by_priority_and_keeps_ties_in_order() {
    let mut q = queue_with_priorities(&[3, 9, 1, 9, 4, 4, 0, 7, 3, 2, 8]);
    q.add_to_line_up();
    assert_eq!(q.lineup_queue.len(), 10);
    assert_eq!(q.lineup_budget_counter, 10);
    let sorted = q.sort_linup_queue_according_to_priority();
    let got: Vec<(u64, u64)> = sorted.lineup_queue.iter().map(|t| (t.priority, t.id)).collect();
    assert_eq!(
        got,
        vec![(9, 1), (9, 3), (7, 7), (4, 4), (4, 5), (3, 0), (3, 8), (2, 9), (1, 2), (0, 6)]
    );
    assert_eq!(q.main_queue.len(), 1);
    assert_eq!(q.main_queue[0].id, 10);
}

#[test]
fn line_up_budget_is_never_exceeded() {
    let mut q = queue_with_priorities(&[1; 12]);
    q.add_to_line_up();
    q.clear_lineup_queue_for_next_batch();
    // the budget stays used after the batch was sent
    q.add_to_line_up();
    assert_eq!(q.lineup_queue.len(), 0);
    assert_eq!(q.lineup_budget_counter, 10);
    assert_eq!(q.main_queue.len(), 2);
    assert_eq!(q.get_the_line_up().len(), 0);
}

#[test]
fn rescheduled_transactions_are_offered_again() {
    let mut q: LineUpQueue<u8> = LineUpQueue::default();
    q.add_transaction_to_non_rescheduable_container(1, 5, 7);
    q.add_transaction_to_non_rescheduable_container(2, 6, 8);
    assert_eq!(q.rescheduable_budget, 2);
    q.add_to_line_up();
    // the two copies took two more places of the container
    assert_eq!(q.reschedable_txs.len(), 4);
    assert_eq!(q.rescheduable_budget, 4);
    assert_eq!((q.reschedable_txs[2].id, q.reschedable_txs[2].txs), (1, 7));
    q.add_to_line_up();
    // one copy fits, the rest overflow onto the main queue and are lined up
    assert_eq!(q.reschedable_txs.len(), 5);
    assert_eq!(q.rescheduable_budget, 5);
    assert_eq!(q.main_queue.len(), 0);
    let ids: Vec<u64> = q.lineup_queue.iter().map(|t| t.id).collect();
    assert_eq!(ids, vec![2, 1, 2]);
}
