//! The main queue of incoming transactions, the bounded line-up of those
//! taken for the next batch, and the bounded container of those to be
//! scheduled again.

use crate::processor::transaction::copy_all;
use crate::pubkey::Pubkey;
use vstd::prelude::*;

verus! {

/// How many transactions the line-up takes in all.
pub const TOTAL_LINUP_BUDGET: u32 = 10;

/// What one lined-up transaction uses of the line-up budget.
pub const PER_LINEUP_BUDGET: u32 = 1;

/// How many transactions the reschedule container takes in all.
pub const TOTAL_RESCHEDUABLE_BUDGET: u32 = 5;

/// What one rescheduled transaction uses of the reschedule budget.
pub const PER_RESCHEDUABLE_BUDGET: u32 = 1;

/// The accounts a transaction writes and those it only reads.
#[derive(Debug)]
pub struct AccountInvolvedInTransaction {
    pub is_writeable_accounts: Vec<Pubkey>,
    pub non_writeable_accounts: Vec<Pubkey>,
}

impl View for AccountInvolvedInTransaction {
    type V = (Seq<Pubkey>, Seq<Pubkey>);

    open spec fn view(&self) -> (Seq<Pubkey>, Seq<Pubkey>) {
        (self.is_writeable_accounts@, self.non_writeable_accounts@)
    }
}

impl Clone for AccountInvolvedInTransaction {
    fn clone(&self) -> (c: Self)
        ensures
            c@ == self@,
    {
        AccountInvolvedInTransaction {
            is_writeable_accounts: copy_all(&self.is_writeable_accounts),
            non_writeable_accounts: copy_all(&self.non_writeable_accounts),
        }
    }
}

/// A queued transaction: its id, its payload and its priority.
#[derive(Debug)]
pub struct TransactionsInQueue<T> {
    pub id: u64,
    pub txs: T,
    pub priority: u64,
}

/// `b` is a copy of the queued transaction `a`.
pub open spec fn copy_of<T: Clone>(a: TransactionsInQueue<T>, b: TransactionsInQueue<T>) -> bool {
    &&& b.id == a.id
    &&& b.priority == a.priority
    &&& cloned(a.txs, b.txs)
}

impl<T: Clone> Clone for TransactionsInQueue<T> {
    fn clone(&self) -> (c: Self)
        ensures
            copy_of(*self, c),
    {
        TransactionsInQueue { id: self.id, txs: self.txs.clone(), priority: self.priority }
    }
}

/// The three queues and the two budgets.
#[derive(Debug)]
pub struct LineUpQueue<T> {
    pub lineup_budget_counter: u32,
    pub rescheduable_budget: u32,
    pub lineup_queue: Vec<TransactionsInQueue<T>>,
    pub reschedable_txs: Vec<TransactionsInQueue<T>>,
    pub main_queue: Vec<TransactionsInQueue<T>>,
}

impl<T> Default for LineUpQueue<T> {
    /// Empty queues with unused budgets.
    fn default() -> (q: Self)
        ensures
            q.lineup_budget_counter == 0,
            q.rescheduable_budget == 0,
            q.lineup_queue@ == Seq::<TransactionsInQueue<T>>::empty(),
            q.reschedable_txs@ == Seq::<TransactionsInQueue<T>>::empty(),
            q.main_queue@ == Seq::<TransactionsInQueue<T>>::empty(),
    {
        LineUpQueue {
            lineup_budget_counter: 0,
            rescheduable_budget: 0,
            lineup_queue: Vec::new(),
            reschedable_txs: Vec::new(),
            main_queue: Vec::new(),
        }
    }
}

/// How many of `n` transactions fit into the reschedule container, given the budget used.
pub open spec fn resched_room(budget: u32, n: nat) -> nat {
    if budget < TOTAL_RESCHEDUABLE_BUDGET {
        let free = (TOTAL_RESCHEDUABLE_BUDGET - budget) as nat;
        if n <= free {
            n
        } else {
            free
        }
    } else {
        0
    }
}

/// How many of `n` transactions fit into the line-up, given the budget used.
pub open spec fn lineup_room(counter: u32, n: nat) -> nat {
    if counter < TOTAL_LINUP_BUDGET {
        let free = (TOTAL_LINUP_BUDGET - counter) as nat;
        if n <= free {
            n
        } else {
            free
        }
    } else {
        0
    }
}

/// `e` inserted into `acc` after every transaction of equal or higher priority.
pub open spec fn insert_by_priority<T>(acc: Seq<TransactionsInQueue<T>>, e: TransactionsInQueue<T>) -> Seq<
    TransactionsInQueue<T>,
>
    decreases acc.len(),
{
    if acc.len() == 0 {
        seq![e]
    } else if acc[0].priority < e.priority {
        seq![e] + acc
    } else {
        seq![acc[0]] + insert_by_priority(acc.drop_first(), e)
    }
}

/// The transactions by priority, highest first; those of equal priority keep their order.
pub open spec fn sorted_by_priority<T>(s: Seq<TransactionsInQueue<T>>) -> Seq<TransactionsInQueue<T>>
    decreases s.len(),
{
    if s.len() == 0 {
        s
    } else {
        insert_by_priority(sorted_by_priority(s.drop_last()), s.last())
    }
}

/// Inserting at the first position of lower priority is `insert_by_priority`.
pub proof fn lemma_insert_at<T>(acc: Seq<TransactionsInQueue<T>>, e: TransactionsInQueue<T>, p: int)
    requires
        0 <= p <= acc.len(),
        forall|j: int| 0 <= j < p ==> acc[j].priority >= e.priority,
        p < acc.len() ==> acc[p].priority < e.priority,
    ensures
        insert_by_priority(acc, e) == acc.insert(p, e),
    decreases acc.len(),
{
    if acc.len() == 0 {
        assert(acc.insert(p, e) =~= seq![e]);
    } else if p == 0 {
        assert(acc.insert(p, e) =~= seq![e] + acc);
    } else {
        lemma_insert_at(acc.drop_first(), e, p - 1);
        assert(acc.insert(p, e) =~= seq![acc[0]] + acc.drop_first().insert(p - 1, e));
    }
}

/// Transactions are in non-increasing order of priority.
pub open spec fn priority_descending<T>(s: Seq<TransactionsInQueue<T>>) -> bool {
    forall|i: int, j: int| 0 <= i < j < s.len() ==> s[i].priority >= s[j].priority
}

proof fn lemma_insert_keeps_order<T>(acc: Seq<TransactionsInQueue<T>>, e: TransactionsInQueue<T>)
    requires
        priority_descending(acc),
    ensures
        priority_descending(insert_by_priority(acc, e)),
        insert_by_priority(acc, e).to_multiset() == acc.to_multiset().insert(e),
    decreases acc.len(),
{
    broadcast use vstd::seq_lib::group_to_multiset_ensures;
    if acc.len() == 0 {
        assert(seq![e] =~= Seq::<TransactionsInQueue<T>>::empty().push(e));
    } else if acc[0].priority < e.priority {
        assert(seq![e] + acc =~= acc.insert(0, e));
        acc.insert_ensures(0, e);
        assert(acc.insert(0, e).to_multiset() =~= acc.to_multiset().insert(e)) by {
            vstd::seq_lib::lemma_seq_union_to_multiset_commutative(seq![e], acc);
            assert(seq![e] =~= Seq::<TransactionsInQueue<T>>::empty().push(e));
        }
    } else {
        let rest = acc.drop_first();
        lemma_insert_keeps_order(rest, e);
        let ins = insert_by_priority(rest, e);
        assert(insert_by_priority(acc, e) == seq![acc[0]] + ins);
        assert(acc =~= seq![acc[0]] + rest);
        vstd::seq_lib::lemma_multiset_commutative(seq![acc[0]], ins);
        vstd::seq_lib::lemma_multiset_commutative(seq![acc[0]], rest);
        assert forall|x: int| 0 <= x < ins.len() implies ins[x].priority <= acc[0].priority by {
            assert(ins.to_multiset().contains(ins[x]));
            if ins[x] == e {
            } else {
                assert(rest.to_multiset().insert(e).contains(ins[x]));
                assert(rest.to_multiset().contains(ins[x]));
                let y = choose|y: int| 0 <= y < rest.len() && rest[y] == ins[x];
                assert(acc[y + 1] == rest[y]);
            }
        }
        let res = seq![acc[0]] + ins;
        assert forall|i: int, j: int| 0 <= i < j < res.len() implies res[i].priority >= res[j].priority by {
            if i == 0 {
                assert(res[j] == ins[j - 1]);
            } else {
                assert(res[i] == ins[i - 1] && res[j] == ins[j - 1]);
            }
        }
    }
}

/// Sorting by priority yields non-increasing priorities and keeps every
/// transaction exactly as often as it was queued.
pub proof fn law_sort_orders_and_keeps_transactions<T>(s: Seq<TransactionsInQueue<T>>)
    ensures
        priority_descending(sorted_by_priority(s)),
        sorted_by_priority(s).to_multiset() == s.to_multiset(),
    decreases s.len(),
{
    broadcast use vstd::seq_lib::group_to_multiset_ensures;
    if s.len() > 0 {
        law_sort_orders_and_keeps_transactions(s.drop_last());
        lemma_insert_keeps_order(sorted_by_priority(s.drop_last()), s.last());
        assert(s =~= s.drop_last().push(s.last()));
    }
}

impl<T> LineUpQueue<T> {
    /// Appends a transaction to the main queue.
    pub fn add_to_main_tx_queue(&mut self, id: u64, txs: T, priority: u64)
        ensures
            final(self).main_queue@ == old(self).main_queue@.push(
                TransactionsInQueue { id, txs, priority },
            ),
            final(self).lineup_queue@ == old(self).lineup_queue@,
            final(self).reschedable_txs@ == old(self).reschedable_txs@,
            final(self).lineup_budget_counter == old(self).lineup_budget_counter,
            final(self).rescheduable_budget == old(self).rescheduable_budget,
    {
        self.main_queue.push(TransactionsInQueue { id, txs, priority });
    }

    /// Puts a transaction into the reschedule container while its budget
    /// lasts, and back onto the main queue once it is used up.
    pub fn add_transaction_to_non_rescheduable_container(&mut self, id: u64, priority: u64, txs: T)
        ensures
            old(self).rescheduable_budget < TOTAL_RESCHEDUABLE_BUDGET ==> {
                &&& final(self).reschedable_txs@ == old(self).reschedable_txs@.push(
                    TransactionsInQueue { id, txs, priority },
                )
                &&& final(self).rescheduable_budget == old(self).rescheduable_budget
                    + PER_RESCHEDUABLE_BUDGET
                &&& final(self).main_queue@ == old(self).main_queue@
            },
            old(self).rescheduable_budget >= TOTAL_RESCHEDUABLE_BUDGET ==> {
                &&& final(self).reschedable_txs@ == old(self).reschedable_txs@
                &&& final(self).rescheduable_budget == old(self).rescheduable_budget
                &&& final(self).main_queue@ == old(self).main_queue@.push(
                    TransactionsInQueue { id, txs, priority },
                )
            },
            final(self).lineup_queue@ == old(self).lineup_queue@,
            final(self).lineup_budget_counter == old(self).lineup_budget_counter,
    {
        if self.rescheduable_budget < TOTAL_RESCHEDUABLE_BUDGET {
            self.reschedable_txs.push(TransactionsInQueue { id, txs, priority });
            self.rescheduable_budget = self.rescheduable_budget + PER_RESCHEDUABLE_BUDGET;
        } else {
            self.add_to_main_tx_queue(id, txs, priority);
        }
    }

    /// Orders the line-up by priority, highest first, keeping the order of
    /// transactions of equal priority; the line-up must be full.
    pub fn sort_linup_queue_according_to_priority(&mut self) -> (r: &mut Self)
        requires
            old(self).lineup_queue@.len() >= TOTAL_LINUP_BUDGET,
        ensures
            r.lineup_queue@ == sorted_by_priority(old(self).lineup_queue@),
            r.main_queue@ == old(self).main_queue@,
            r.reschedable_txs@ == old(self).reschedable_txs@,
            r.lineup_budget_counter == old(self).lineup_budget_counter,
            r.rescheduable_budget == old(self).rescheduable_budget,
            *final(self) == *final(r),
    {
        self.sort_by_priority();
        self
    }

    /// Orders the line-up, however long, by priority, highest first,
    /// keeping the order of transactions of equal priority.
    pub fn sort_by_priority(&mut self)
        ensures
            final(self).lineup_queue@ == sorted_by_priority(old(self).lineup_queue@),
            final(self).main_queue@ == old(self).main_queue@,
            final(self).reschedable_txs@ == old(self).reschedable_txs@,
            final(self).lineup_budget_counter == old(self).lineup_budget_counter,
            final(self).rescheduable_budget == old(self).rescheduable_budget,
    {
        let mut rest: Vec<TransactionsInQueue<T>> = Vec::new();
        std::mem::swap(&mut rest, &mut self.lineup_queue);
        let ghost orig = rest@;
        let mut sorted: Vec<TransactionsInQueue<T>> = Vec::new();
        let ghost mut i: int = 0;
        while rest.len() > 0
            invariant
                0 <= i <= orig.len(),
                rest@ == orig.skip(i),
                sorted@ == sorted_by_priority(orig.take(i)),
            decreases rest@.len(),
        {
            let e = rest.remove(0);
            let mut p: usize = 0;
            while p < sorted.len() && sorted[p].priority >= e.priority
                invariant
                    p <= sorted@.len(),
                    forall|j: int| 0 <= j < p ==> sorted@[j].priority >= e.priority,
                decreases sorted@.len() - p,
            {
                p = p + 1;
            }
            proof {
                lemma_insert_at(sorted@, e, p as int);
                assert(orig.take(i + 1).drop_last() =~= orig.take(i));
                assert(orig[i] == e);
                assert(orig.skip(i + 1) =~= orig.skip(i).remove(0));
            }
            sorted.insert(p, e);
            proof {
                i = i + 1;
            }
        }
        assert(orig.take(i) =~= orig);
        self.lineup_queue = sorted;
    }

    /// The current line-up.
    pub fn get_the_line_up(&mut self) -> (l: &Vec<TransactionsInQueue<T>>)
        ensures
            *final(self) == *old(self),
            *l == old(self).lineup_queue,
    {
        &self.lineup_queue
    }

    /// Empties the line-up once its batch has been sent (the budget stays used).
    pub fn clear_lineup_queue_for_next_batch(&mut self)
        ensures
            final(self).lineup_queue@ == Seq::<TransactionsInQueue<T>>::empty(),
            final(self).main_queue@ == old(self).main_queue@,
            final(self).reschedable_txs@ == old(self).reschedable_txs@,
            final(self).lineup_budget_counter == old(self).lineup_budget_counter,
            final(self).rescheduable_budget == old(self).rescheduable_budget,
    {
        self.lineup_queue.clear();
    }
}

/// `after` is `before` once `add_to_line_up` has run: a copy of every
/// transaction of the reschedule container was offered to the container
/// again (overflowing onto the main queue once its budget is used), and
/// then transactions moved from the front of the main queue to the line-up
/// while the line-up budget lasted.
pub open spec fn lined_up<T: Clone>(before: LineUpQueue<T>, after: LineUpQueue<T>) -> bool {
    let r = before.reschedable_txs@;
    let k = resched_room(before.rescheduable_budget, r.len());
    let old_all = before.lineup_queue@ + before.main_queue@;
    let main_len = before.main_queue@.len() + (r.len() - k);
    let moved = lineup_room(before.lineup_budget_counter, main_len as nat);
    let new_all = after.lineup_queue@ + after.main_queue@;
    &&& after.rescheduable_budget == before.rescheduable_budget + k
    &&& after.reschedable_txs@.len() == r.len() + k
    &&& forall|i: int| 0 <= i < r.len() ==> after.reschedable_txs@[i] == r[i]
    &&& forall|i: int| 0 <= i < k ==> copy_of(r[i], #[trigger] after.reschedable_txs@[r.len() + i])
    &&& after.lineup_budget_counter == before.lineup_budget_counter + moved
    &&& after.lineup_queue@.len() == before.lineup_queue@.len() + moved
    &&& new_all.len() == old_all.len() + (r.len() - k)
    &&& forall|i: int| 0 <= i < old_all.len() ==> new_all[i] == old_all[i]
    &&& forall|j: int| 0 <= j < r.len() - k ==> copy_of(r[k + j], #[trigger] new_all[old_all.len() + j])
}

/// The line-up never holds more than its budget: with a budget counter within
/// its bound before `add_to_line_up`, it stays within it after; likewise for
/// the reschedule container.
pub proof fn law_budgets_stay_bounded<T: Clone>(before: LineUpQueue<T>, after: LineUpQueue<T>)
    requires
        lined_up(before, after),
        before.lineup_budget_counter <= TOTAL_LINUP_BUDGET,
        before.rescheduable_budget <= TOTAL_RESCHEDUABLE_BUDGET,
    ensures
        after.lineup_budget_counter <= TOTAL_LINUP_BUDGET,
        after.rescheduable_budget <= TOTAL_RESCHEDUABLE_BUDGET,
{
}

impl<T: Clone> LineUpQueue<T> {
    /// Offers a copy of every transaction of the reschedule container to the
    /// container again (the copies overflow onto the main queue once its
    /// budget is used), then moves transactions from the front of the main
    /// queue to the line-up while the line-up budget lasts.
    pub fn add_to_line_up(&mut self)
        ensures
            lined_up(*old(self), *final(self)),
    {
        let ghost r = self.reschedable_txs@;
        let ghost b0 = self.rescheduable_budget;
        let ghost m0 = self.main_queue@;
        let ghost l0 = self.lineup_queue@;
        let ghost c0 = self.lineup_budget_counter;
        let n = self.reschedable_txs.len();
        let mut i: usize = 0;
        while i < n
            invariant
                n == r.len(),
                i <= n,
                self.lineup_queue@ == l0,
                self.lineup_budget_counter == c0,
                self.rescheduable_budget == b0 + resched_room(b0, i as nat),
                self.reschedable_txs@.len() == r.len() + resched_room(b0, i as nat),
                forall|x: int| 0 <= x < r.len() ==> self.reschedable_txs@[x] == r[x],
                forall|x: int|
                    0 <= x < resched_room(b0, i as nat) ==> copy_of(
                        r[x],
                        #[trigger] self.reschedable_txs@[r.len() + x],
                    ),
                self.main_queue@.len() == m0.len() + (i - resched_room(b0, i as nat)),
                forall|x: int| 0 <= x < m0.len() ==> self.main_queue@[x] == m0[x],
                forall|x: int|
                    0 <= x < i - resched_room(b0, i as nat) ==> copy_of(
                        r[resched_room(b0, i as nat) + x],
                        #[trigger] self.main_queue@[m0.len() + x],
                    ),
            decreases n - i,
        {
            let c = self.reschedable_txs[i].clone();
            let ghost k = resched_room(b0, i as nat);
            let ghost c_view = c;
            self.add_transaction_to_non_rescheduable_container(c.id, c.priority, c.txs);
            proof {
                if b0 + k < TOTAL_RESCHEDUABLE_BUDGET {
                    assert(resched_room(b0, (i + 1) as nat) == k + 1);
                    assert(self.reschedable_txs@[(r.len() + k) as int] == c_view);
                } else {
                    assert(resched_room(b0, (i + 1) as nat) == k);
                    assert(self.main_queue@[(m0.len() + (i - k)) as int] == c_view);
                }
            }
            i = i + 1;
        }
        let ghost m1 = self.main_queue@;
        let ghost k = resched_room(b0, n as nat);
        while self.lineup_budget_counter < TOTAL_LINUP_BUDGET && 0 < self.main_queue.len()
            invariant
                self.rescheduable_budget == b0 + k,
                self.reschedable_txs@.len() == r.len() + k,
                forall|x: int| 0 <= x < r.len() ==> self.reschedable_txs@[x] == r[x],
                forall|x: int| 0 <= x < k ==> copy_of(r[x], #[trigger] self.reschedable_txs@[r.len() + x]),
                c0 <= self.lineup_budget_counter,
                self.lineup_budget_counter - c0 <= lineup_room(c0, m1.len()),
                self.lineup_queue@ == l0 + m1.take(self.lineup_budget_counter - c0),
                self.main_queue@ == m1.skip(self.lineup_budget_counter - c0),
            decreases self.main_queue@.len(),
        {
            let transaction = self.main_queue.remove(0);
            let ghost j = self.lineup_budget_counter - c0;
            self.lineup_queue.push(
                TransactionsInQueue {
                    id: transaction.id,
                    txs: transaction.txs,
                    priority: transaction.priority,
                },
            );
            self.lineup_budget_counter = self.lineup_budget_counter + PER_LINEUP_BUDGET;
            assert(m1.take(j + 1) =~= m1.take(j).push(m1[j]));
            assert(m1.skip(j + 1) =~= m1.skip(j).remove(0));
        }
        let ghost j = self.lineup_budget_counter - c0;
        assert(j == lineup_room(c0, m1.len()));
        assert(self.lineup_queue@ + self.main_queue@ =~= l0 + m1);
        proof {
            let before = l0 + m0;
            let after = self.lineup_queue@ + self.main_queue@;
            assert forall|x: int| 0 <= x < before.len() implies after[x] == before[x] by {
                if x >= l0.len() {
                    assert(m1[x - l0.len()] == m0[x - l0.len()]);
                }
            }
            assert forall|y: int| 0 <= y < r.len() - k implies copy_of(
                r[k + y],
                #[trigger] after[before.len() + y],
            ) by {
                assert(after[before.len() + y] == m1[m0.len() + y]);
            }
        }
    }
}

} // verus!
