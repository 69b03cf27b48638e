//! The way of a transaction into the rollup: from submission with its
//! account metas, through the main queue and the line-up, to a worker thread
//! whose locks it takes, or back to the reschedule container.

use crate::accounts_db::ram_accounts_handler::AccountSharedData;
use crate::assoc_map::AssocMap;
use crate::line_up_queue::line_up_queue::{
    lined_up, sorted_by_priority, AccountInvolvedInTransaction, LineUpQueue, TransactionsInQueue,
    PER_RESCHEDUABLE_BUDGET, TOTAL_RESCHEDUABLE_BUDGET,
};
use crate::processor::instruction::{le_bytes, system_program_id};
use crate::processor::transaction::{copy_all, TransactionMetadata, TransactionMetadataView, TransactionType};
use crate::pubkey::{Keypair, Pubkey};
use crate::scheduler::read_write_locks::{
    after_reads, after_writes, load_after, placed_thread, placement_allowed, LocksView, ThreadAwareLocks,
    ThreadLoadCounter,
};
use crate::users_handler::user_handler::AppUserBase;
use std::collections::hash_map::DefaultHasher;
use std::hash::Hasher;
use vstd::std_specs::hash::DefaultHasherAdditionalSpecFns;
use vstd::prelude::*;

verus! {

/// An account of a submitted transaction and its privileges.
#[derive(Debug, Clone, Copy)]
pub struct AccountsMeta {
    pub key: Pubkey,
    pub is_writeable: bool,
    pub is_signer: bool,
}

/// A transaction known to the rollup: id, accounts, priority, metadata and
/// the key pair of the user who sends it.
#[derive(Debug)]
pub struct MakeTransaction {
    pub id: u64,
    pub accounts: AccountInvolvedInTransaction,
    pub priority_level: u64,
    pub transaction_metadata: TransactionMetadata,
    pub from_key: Keypair,
}

/// A known transaction as plain values.
pub struct MakeTransactionView {
    pub id: u64,
    pub accounts: (Seq<Pubkey>, Seq<Pubkey>),
    pub priority_level: u64,
    pub metadata: TransactionMetadataView,
    pub from_key: Keypair,
}

impl View for MakeTransaction {
    type V = MakeTransactionView;

    open spec fn view(&self) -> MakeTransactionView {
        MakeTransactionView {
            id: self.id,
            accounts: self.accounts@,
            priority_level: self.priority_level,
            metadata: self.transaction_metadata@,
            from_key: self.from_key,
        }
    }
}

/// All known transactions, by id.
#[derive(Debug)]
pub struct ChainTransaction {
    pub chain_transaction: AssocMap<u64, MakeTransaction>,
}

/// The worker thread of every scheduled transaction, by id.
#[derive(Debug)]
pub struct TransactionsOnThread {
    pub trnasaction_on_thread: AssocMap<u64, usize>,
}

impl Default for TransactionsOnThread {
    fn default() -> (t: Self)
        ensures
            t.trnasaction_on_thread.wf(),
            t.trnasaction_on_thread.entries() == Seq::<(u64, usize)>::empty(),
    {
        TransactionsOnThread { trnasaction_on_thread: AssocMap::new() }
    }
}

impl Clone for TransactionsOnThread {
    fn clone(&self) -> (c: Self)
        ensures
            c.trnasaction_on_thread.wf() == self.trnasaction_on_thread.wf(),
            c.trnasaction_on_thread.entries() == self.trnasaction_on_thread.entries(),
            c.trnasaction_on_thread@ == self.trnasaction_on_thread@,
    {
        TransactionsOnThread { trnasaction_on_thread: self.trnasaction_on_thread.duplicate() }
    }
}

/// The ids of the transactions scheduled on `thread_id`, in scheduling order.
pub open spec fn ids_on_thread(entries: Seq<(u64, usize)>, thread_id: usize) -> Seq<u64> {
    entries.filter(|e: (u64, usize)| e.1 == thread_id).map_values(|e: (u64, usize)| e.0)
}

impl TransactionsOnThread {
    /// The ids of the transactions scheduled on `thread_id`.
    pub fn get_all_tx_ids_for_thread(&self, thread_id: usize) -> (ids: Vec<u64>)
        requires
            self.trnasaction_on_thread.wf(),
        ensures
            ids@ == ids_on_thread(self.trnasaction_on_thread.entries(), thread_id),
    {
        let ghost entries = self.trnasaction_on_thread.entries();
        let mut result: Vec<u64> = Vec::new();
        let n = self.trnasaction_on_thread.len();
        let mut i: usize = 0;
        while i < n
            invariant
                n == entries.len(),
                entries == self.trnasaction_on_thread.entries(),
                i <= n,
                result@ == ids_on_thread(entries.take(i as int), thread_id),
            decreases n - i,
        {
            let id = *self.trnasaction_on_thread.key_at(i);
            let tid = *self.trnasaction_on_thread.value_at(i);
            proof {
                assert(entries.take(i + 1).drop_last() =~= entries.take(i as int));
                reveal(Seq::filter);
            }
            if tid == thread_id {
                result.push(id);
            }
            assert(result@ =~= ids_on_thread(entries.take(i + 1), thread_id));
            i = i + 1;
        }
        assert(entries.take(n as int) =~= entries);
        result
    }
}

impl AccountsMeta {
    /// The meta of a signing account.
    pub fn create_new_meta_with_signer(pubkey: Pubkey, is_writeable: bool) -> (m: Self)
        ensures
            m.key == pubkey,
            m.is_writeable == is_writeable,
            m.is_signer,
    {
        AccountsMeta { key: pubkey, is_writeable, is_signer: true }
    }
}

impl Default for ChainTransaction {
    fn default() -> (c: Self)
        ensures
            c.chain_transaction.wf(),
            c.transactions() == Map::<u64, MakeTransactionView>::empty(),
    {
        let c = ChainTransaction { chain_transaction: AssocMap::new() };
        assert(c.transactions() =~= Map::<u64, MakeTransactionView>::empty());
        c
    }
}

/// The written accounts among the metas, in order.
pub open spec fn writable_keys(metas: Seq<AccountsMeta>) -> Seq<Pubkey> {
    metas.filter(|m: AccountsMeta| m.is_writeable).map_values(|m: AccountsMeta| m.key)
}

/// The read-only accounts among the metas, in order.
pub open spec fn readonly_keys(metas: Seq<AccountsMeta>) -> Seq<Pubkey> {
    metas.filter(|m: AccountsMeta| !m.is_writeable).map_values(|m: AccountsMeta| m.key)
}

/// The part of transfer metadata that the rollup keeps: the first four
/// accounts and the first argument.
pub open spec fn trimmed_metadata(m: TransactionMetadataView) -> TransactionMetadataView {
    TransactionMetadataView { keys: m.keys.take(4), args: m.args.take(1) }
}

/// The transfer metadata that the rollup keeps, from complete metadata.
pub fn trim_metadata(m: &TransactionMetadata) -> (t: TransactionMetadata)
    requires
        m@.keys.len() >= 4,
        m@.args.len() >= 1,
    ensures
        t@ == trimmed_metadata(m@),
{
    let keys = vec![m.keys[0], m.keys[1], m.keys[2], m.keys[3]];
    let args = vec![m.args[0]];
    assert(keys@ =~= m@.keys.take(4));
    assert(args@ =~= m@.args.take(1));
    match m.txs_type {
        TransactionType::Transfer => TransactionMetadata { txs_type: TransactionType::Transfer, keys, args },
    }
}

/// What an optional account contributes to a transaction's hash input: its
/// 32 bytes, or a single zero byte when it is absent.
pub open spec fn key_hash_bytes(k: Option<Pubkey>) -> Seq<u8> {
    match k {
        Some(p) => p@,
        None => seq![0u8],
    }
}

/// The writes that make up a transaction's hash input, in order: the kind
/// (a transfer is `[0]`), each account, an empty separator, and each
/// argument in little-endian order.
pub open spec fn metadata_hash_input(m: TransactionMetadataView) -> Seq<Seq<u8>> {
    seq![seq![0u8]] + m.keys.map_values(|k: Option<Pubkey>| key_hash_bytes(k)) + seq![Seq::<u8>::empty()]
        + m.args.map_values(|a: u64| le_bytes(a))
}

/// Equal little-endian bytes come from equal numbers.
proof fn lemma_le_bytes_injective(a: u64, b: u64)
    requires
        le_bytes(a) == le_bytes(b),
    ensures
        a == b,
{
    assert forall|k: int| 0 <= k < 8 implies le_bytes(a)[k] == le_bytes(b)[k] by {}
    assert(a % 0x100 == b % 0x100);
    assert((a / 0x100) % 0x100 == (b / 0x100) % 0x100);
    assert((a / 0x1_0000) % 0x100 == (b / 0x1_0000) % 0x100);
    assert((a / 0x100_0000) % 0x100 == (b / 0x100_0000) % 0x100);
    assert((a / 0x1_0000_0000) % 0x100 == (b / 0x1_0000_0000) % 0x100);
    assert((a / 0x100_0000_0000) % 0x100 == (b / 0x100_0000_0000) % 0x100);
    assert((a / 0x1_0000_0000_0000) % 0x100 == (b / 0x1_0000_0000_0000) % 0x100);
    assert((a / 0x100_0000_0000_0000) % 0x100 == (b / 0x100_0000_0000_0000) % 0x100);
    assert(a == b) by (bit_vector)
        requires
            a % 0x100 == b % 0x100,
            (a / 0x100) % 0x100 == (b / 0x100) % 0x100,
            (a / 0x1_0000) % 0x100 == (b / 0x1_0000) % 0x100,
            (a / 0x100_0000) % 0x100 == (b / 0x100_0000) % 0x100,
            (a / 0x1_0000_0000) % 0x100 == (b / 0x1_0000_0000) % 0x100,
            (a / 0x100_0000_0000) % 0x100 == (b / 0x100_0000_0000) % 0x100,
            (a / 0x1_0000_0000_0000) % 0x100 == (b / 0x1_0000_0000_0000) % 0x100,
            (a / 0x100_0000_0000_0000) % 0x100 == (b / 0x100_0000_0000_0000) % 0x100,
    ;
}

/// The id covers the whole metadata: two transactions whose hash inputs are
/// equal name the same accounts (present or absent, with the same bytes)
/// and the same arguments. So transactions that differ in an account or an
/// argument never hash the same input, and `create_hash` gives them the
/// `DefaultHasher` digests of two different inputs.
pub proof fn law_hash_input_covers_metadata(m1: TransactionMetadataView, m2: TransactionMetadataView)
    requires
        metadata_hash_input(m1) == metadata_hash_input(m2),
    ensures
        m1.keys.len() == m2.keys.len(),
        forall|i: int|
            0 <= i < m1.keys.len() ==> (#[trigger] m1.keys[i] is Some <==> m2.keys[i] is Some) && (m1.keys[i] is Some
                ==> m1.keys[i]->0@ == m2.keys[i]->0@),
        m1.args == m2.args,
{
    let in1 = metadata_hash_input(m1);
    let in2 = metadata_hash_input(m2);
    let n1 = m1.keys.len() as int;
    let n2 = m2.keys.len() as int;
    assert(in1[1 + n1] == Seq::<u8>::empty());
    assert(in2[1 + n2] == Seq::<u8>::empty());
    if n1 < n2 {
        assert(in2[1 + n1] == key_hash_bytes(m2.keys[n1]));
        assert(key_hash_bytes(m2.keys[n1]).len() > 0);
    }
    if n2 < n1 {
        assert(in1[1 + n2] == key_hash_bytes(m1.keys[n2]));
        assert(key_hash_bytes(m1.keys[n2]).len() > 0);
    }
    assert(n1 == n2);
    assert forall|i: int| 0 <= i < m1.keys.len() implies (#[trigger] m1.keys[i] is Some <==> m2.keys[i] is Some) && (
    m1.keys[i] is Some ==> m1.keys[i]->0@ == m2.keys[i]->0@) by {
        assert(in1[1 + i] == key_hash_bytes(m1.keys[i]));
        assert(in2[1 + i] == key_hash_bytes(m2.keys[i]));
        match m1.keys[i] {
            Some(p) => assert(p@.len() == 32),
            None => {},
        }
        match m2.keys[i] {
            Some(q) => assert(q@.len() == 32),
            None => {},
        }
    }
    assert(in1.len() == in2.len());
    assert(m1.args.len() == m2.args.len());
    assert forall|j: int| 0 <= j < m1.args.len() implies m1.args[j] == m2.args[j] by {
        assert(in1[2 + n1 + j] == le_bytes(m1.args[j]));
        assert(in2[2 + n2 + j] == le_bytes(m2.args[j]));
        lemma_le_bytes_injective(m1.args[j], m2.args[j]);
    }
    assert(m1.args =~= m2.args);
}

/// The eight little-endian bytes of `x`.
fn le_bytes_of(x: u64) -> (b: Vec<u8>)
    ensures
        b@ == le_bytes(x),
{
    let b = vec![
        (x % 0x100) as u8,
        ((x / 0x100) % 0x100) as u8,
        ((x / 0x1_0000) % 0x100) as u8,
        ((x / 0x100_0000) % 0x100) as u8,
        ((x / 0x1_0000_0000) % 0x100) as u8,
        ((x / 0x100_0000_0000) % 0x100) as u8,
        ((x / 0x1_0000_0000_0000) % 0x100) as u8,
        ((x / 0x100_0000_0000_0000) % 0x100) as u8,
    ];
    assert(b@ =~= le_bytes(x));
    b
}

/// A hash of the transaction metadata: the `DefaultHasher` digest of its
/// hash input (`metadata_hash_input`), written one piece at a time.
fn metadata_hash(tx_metadata: &TransactionMetadata) -> (h: u64)
    ensures
        h == DefaultHasher::spec_finish(metadata_hash_input(tx_metadata@)),
{
    let ghost m = tx_metadata@;
    let mut hasher = DefaultHasher::new();
    let kind: Vec<u8> = match tx_metadata.txs_type {
        TransactionType::Transfer => vec![0u8],
    };
    assert(kind@ =~= seq![0u8]);
    hasher.write(kind.as_slice());
    let ghost head = seq![seq![0u8]];
    assert(hasher@ =~= head);
    let mut i: usize = 0;
    while i < tx_metadata.keys.len()
        invariant
            m == tx_metadata@,
            i <= m.keys.len(),
            hasher@ == head + m.keys.take(i as int).map_values(|k: Option<Pubkey>| key_hash_bytes(k)),
        decreases m.keys.len() - i,
    {
        let ghost prev = hasher@;
        match tx_metadata.keys[i] {
            Some(p) => {
                proof {
                    broadcast use vstd::array::group_array_axioms;
                }
                let bytes = p.bytes.as_slice();
                assert(bytes@ == p@);
                hasher.write(bytes);
            },
            None => {
                let absent: Vec<u8> = vec![0u8];
                assert(absent@ =~= seq![0u8]);
                hasher.write(absent.as_slice());
            },
        }
        assert(hasher@ == prev.push(key_hash_bytes(m.keys[i as int])));
        assert(hasher@ =~= head + m.keys.take(i + 1).map_values(|k: Option<Pubkey>| key_hash_bytes(k)));
        i = i + 1;
    }
    assert(m.keys.take(m.keys.len() as int) =~= m.keys);
    let separator: Vec<u8> = Vec::new();
    hasher.write(separator.as_slice());
    let ghost mid = head + m.keys.map_values(|k: Option<Pubkey>| key_hash_bytes(k)) + seq![Seq::<u8>::empty()];
    assert(hasher@ =~= mid);
    let mut j: usize = 0;
    while j < tx_metadata.args.len()
        invariant
            m == tx_metadata@,
            j <= m.args.len(),
            hasher@ == mid + m.args.take(j as int).map_values(|a: u64| le_bytes(a)),
        decreases m.args.len() - j,
    {
        let bytes = le_bytes_of(tx_metadata.args[j]);
        hasher.write(bytes.as_slice());
        assert(hasher@ =~= mid + m.args.take(j + 1).map_values(|a: u64| le_bytes(a)));
        j = j + 1;
    }
    assert(m.args.take(m.args.len() as int) =~= m.args);
    assert(hasher@ =~= metadata_hash_input(m));
    hasher.finish()
}

/// The transaction that a submission records: its accounts split by
/// privilege, priority 1, the kept part of its metadata and the sender's keys.
pub open spec fn submitted(id: u64, metas: Seq<AccountsMeta>, m: TransactionMetadataView, key: Keypair) -> MakeTransactionView {
    MakeTransactionView {
        id,
        accounts: (writable_keys(metas), readonly_keys(metas)),
        priority_level: 1,
        metadata: trimmed_metadata(m),
        from_key: key,
    }
}

/// `after` and `q1` are `before` and `q0` once transaction `id` was
/// submitted: it is recorded under its id and appended, with priority 1, to
/// the main queue; nothing else in the queues changes.
pub open spec fn submission_recorded(
    before: Map<u64, MakeTransactionView>,
    after: Map<u64, MakeTransactionView>,
    q0: LineUpQueue<AccountInvolvedInTransaction>,
    q1: LineUpQueue<AccountInvolvedInTransaction>,
    id: u64,
    metas: Seq<AccountsMeta>,
    m: TransactionMetadataView,
    key: Keypair,
) -> bool {
    &&& after == before.insert(id, submitted(id, metas, m, key))
    &&& q1.main_queue@.len() == q0.main_queue@.len() + 1
    &&& q1.main_queue@.drop_last() == q0.main_queue@
    &&& q1.main_queue@.last().id == id
    &&& q1.main_queue@.last().priority == 1
    &&& q1.main_queue@.last().txs@ == (writable_keys(metas), readonly_keys(metas))
    &&& q1.lineup_queue@ == q0.lineup_queue@
    &&& q1.reschedable_txs@ == q0.reschedable_txs@
    &&& q1.lineup_budget_counter == q0.lineup_budget_counter
    &&& q1.rescheduable_budget == q0.rescheduable_budget
}

impl ChainTransaction {
    /// Every known transaction, by id, as plain values.
    pub open spec fn transactions(&self) -> Map<u64, MakeTransactionView> {
        self.chain_transaction@.map_values(|t: MakeTransaction| t@)
    }

    proof fn lemma_transactions_insert(m: Map<u64, MakeTransaction>, k: u64, t: MakeTransaction)
        ensures
            m.insert(k, t).map_values(|x: MakeTransaction| x@) == m.map_values(
                |x: MakeTransaction| x@,
            ).insert(k, t@),
    {
        assert(m.insert(k, t).map_values(|x: MakeTransaction| x@) =~= m.map_values(
            |x: MakeTransaction| x@,
        ).insert(k, t@));
    }

    /// Splits account metas into the written and the read-only addresses,
    /// each in the order of the metas.
    pub fn convert_account_meta_to_acc_inv_txs(&mut self, accounts: Vec<AccountsMeta>) -> (a: AccountInvolvedInTransaction)
        ensures
            *final(self) == *old(self),
            a@ == (writable_keys(accounts@), readonly_keys(accounts@)),
    {
        let mut writeable_accounts: Vec<Pubkey> = Vec::new();
        let mut non_writeable_accounts: Vec<Pubkey> = Vec::new();
        let mut i: usize = 0;
        while i < accounts.len()
            invariant
                i <= accounts@.len(),
                writeable_accounts@ == writable_keys(accounts@.take(i as int)),
                non_writeable_accounts@ == readonly_keys(accounts@.take(i as int)),
            decreases accounts@.len() - i,
        {
            let account = accounts[i];
            proof {
                assert(accounts@.take(i + 1).drop_last() =~= accounts@.take(i as int));
                reveal(Seq::filter);
            }
            if account.is_writeable {
                writeable_accounts.push(account.key);
            } else {
                non_writeable_accounts.push(account.key);
            }
            assert(writeable_accounts@ =~= writable_keys(accounts@.take(i + 1)));
            assert(non_writeable_accounts@ =~= readonly_keys(accounts@.take(i + 1)));
            i = i + 1;
        }
        assert(accounts@.take(accounts@.len() as int) =~= accounts@);
        AccountInvolvedInTransaction { is_writeable_accounts: writeable_accounts, non_writeable_accounts }
    }

    /// Records a transaction of user `user_name` of application `program_id`
    /// under `id` and returns a copy of it.
    pub fn create_new_transaction(
        &mut self,
        id: u64,
        accounts: AccountInvolvedInTransaction,
        priority: u64,
        transaction_metadata: TransactionMetadata,
        user: &mut AppUserBase,
        program_id: Pubkey,
        user_name: String,
    ) -> (t: MakeTransaction)
        requires
            old(self).chain_transaction.wf(),
            old(user).wf(),
            old(user).app_user_base@.contains_key(program_id@),
            old(user).app_user_base@[program_id@].users@.contains_key(user_name@),
        ensures
            final(self).chain_transaction.wf(),
            *final(user) == *old(user),
            t@ == (MakeTransactionView {
                id,
                accounts: accounts@,
                priority_level: priority,
                metadata: transaction_metadata@,
                from_key: old(user).app_user_base@[program_id@].users@[user_name@],
            }),
            final(self).transactions() == old(self).transactions().insert(id, t@),
    {
        let from_key = user.get_keypair_from_user_name(program_id, user_name);
        let stored = MakeTransaction {
            id,
            accounts: accounts.clone(),
            priority_level: priority,
            transaction_metadata: transaction_metadata.clone(),
            from_key: from_key.insecure_clone(),
        };
        proof {
            Self::lemma_transactions_insert(self.chain_transaction@, id, stored);
        }
        self.chain_transaction.insert(id, stored);
        MakeTransaction {
            id,
            accounts,
            priority_level: priority,
            transaction_metadata,
            from_key: from_key.insecure_clone(),
        }
    }

    /// Submits a transaction under a given id: records it and appends it,
    /// with priority 1, to the main queue.
    pub fn push_new_transaction_with_id(
        &mut self,
        id: u64,
        lineup_queue: &mut LineUpQueue<AccountInvolvedInTransaction>,
        account: Vec<AccountsMeta>,
        transaction_metadata: TransactionMetadata,
        app_user_base: &mut AppUserBase,
        program_id: Pubkey,
        user_name: String,
    )
        requires
            old(self).chain_transaction.wf(),
            old(app_user_base).wf(),
            old(app_user_base).app_user_base@.contains_key(program_id@),
            old(app_user_base).app_user_base@[program_id@].users@.contains_key(user_name@),
            transaction_metadata@.keys.len() >= 4,
            transaction_metadata@.args.len() >= 1,
        ensures
            final(self).chain_transaction.wf(),
            *final(app_user_base) == *old(app_user_base),
            submission_recorded(
                old(self).transactions(),
                final(self).transactions(),
                *old(lineup_queue),
                *final(lineup_queue),
                id,
                account@,
                transaction_metadata@,
                old(app_user_base).app_user_base@[program_id@].users@[user_name@],
            ),
    {
        let ghost metas = account@;
        let accounts = self.convert_account_meta_to_acc_inv_txs(account);
        let kept = trim_metadata(&transaction_metadata);
        let new_transaction = self.create_new_transaction(id, accounts, 1, kept, app_user_base, program_id, user_name);
        let ghost q0 = *lineup_queue;
        lineup_queue.add_to_main_tx_queue(new_transaction.id, new_transaction.accounts, new_transaction.priority_level);
        assert(lineup_queue.main_queue@.drop_last() =~= q0.main_queue@);
    }

    /// Submits a transaction: its id is the hash of its metadata.
    pub fn push_new_transaction_to_the_main_queue(
        &mut self,
        lineup_queue: &mut LineUpQueue<AccountInvolvedInTransaction>,
        account: Vec<AccountsMeta>,
        transaction_metadata: TransactionMetadata,
        app_user_base: &mut AppUserBase,
        program_id: Pubkey,
        user_name: String,
    )
        requires
            old(self).chain_transaction.wf(),
            old(app_user_base).wf(),
            old(app_user_base).app_user_base@.contains_key(program_id@),
            old(app_user_base).app_user_base@[program_id@].users@.contains_key(user_name@),
            transaction_metadata@.keys.len() >= 4,
            transaction_metadata@.args.len() >= 1,
        ensures
            final(self).chain_transaction.wf(),
            *final(app_user_base) == *old(app_user_base),
            exists|id: u64|
                submission_recorded(
                    old(self).transactions(),
                    final(self).transactions(),
                    *old(lineup_queue),
                    *final(lineup_queue),
                    id,
                    account@,
                    transaction_metadata@,
                    old(app_user_base).app_user_base@[program_id@].users@[user_name@],
                ),
    {
        let hashed_id = self.create_hash(transaction_metadata.clone());
        self.push_new_transaction_with_id(
            hashed_id,
            lineup_queue,
            account,
            transaction_metadata,
            app_user_base,
            program_id,
            user_name,
        );
    }

    /// Moves transactions into the line-up (see `LineUpQueue::add_to_line_up`).
    pub fn put_all_the_transaction_in_the_lineup_queue(&mut self, lineup_queue: &mut LineUpQueue<AccountInvolvedInTransaction>)
        ensures
            *final(self) == *old(self),
            lined_up(*old(lineup_queue), *final(lineup_queue)),
    {
        lineup_queue.add_to_line_up();
    }

    /// Orders the line-up by priority, highest first, keeping the order of
    /// transactions of equal priority.
    pub fn sort_transaction_in_lineup_queue_by_priority(&mut self, lineup_queue: &mut LineUpQueue<AccountInvolvedInTransaction>)
        ensures
            *final(self) == *old(self),
            final(lineup_queue).lineup_queue@ == sorted_by_priority(old(lineup_queue).lineup_queue@),
            final(lineup_queue).main_queue@ == old(lineup_queue).main_queue@,
            final(lineup_queue).reschedable_txs@ == old(lineup_queue).reschedable_txs@,
            final(lineup_queue).lineup_budget_counter == old(lineup_queue).lineup_budget_counter,
            final(lineup_queue).rescheduable_budget == old(lineup_queue).rescheduable_budget,
    {
        lineup_queue.sort_by_priority();
    }

    /// An id for a transaction: the `DefaultHasher` digest of its whole
    /// metadata (kind, accounts and arguments, see `metadata_hash_input`).
    pub fn create_hash(&mut self, tx_metadata: TransactionMetadata) -> (h: u64)
        ensures
            *final(self) == *old(self),
            h == DefaultHasher::spec_finish(metadata_hash_input(tx_metadata@)),
    {
        metadata_hash(&tx_metadata)
    }

    /// Empties the line-up once its batch has been sent.
    pub fn clear_lineup_queue(&mut self, lineup_queue: &mut LineUpQueue<AccountInvolvedInTransaction>)
        ensures
            *final(self) == *old(self),
            final(lineup_queue).lineup_queue@ == Seq::<TransactionsInQueue<AccountInvolvedInTransaction>>::empty(),
            final(lineup_queue).main_queue@ == old(lineup_queue).main_queue@,
            final(lineup_queue).reschedable_txs@ == old(lineup_queue).reschedable_txs@,
            final(lineup_queue).lineup_budget_counter == old(lineup_queue).lineup_budget_counter,
            final(lineup_queue).rescheduable_budget == old(lineup_queue).rescheduable_budget,
    {
        lineup_queue.clear_lineup_queue_for_next_batch();
    }
}

/// A line-up entry as plain values: id, priority, written and read accounts.
pub type QueuedView = (u64, u64, Seq<Pubkey>, Seq<Pubkey>);

/// The entries of a queue as plain values, in order.
pub open spec fn queued_view(q: Seq<TransactionsInQueue<AccountInvolvedInTransaction>>) -> Seq<QueuedView> {
    q.map_values(
        |t: TransactionsInQueue<AccountInvolvedInTransaction>| (t.id, t.priority, t.txs@.0, t.txs@.1),
    )
}

/// What scheduling reads and changes: the lock table, the load of each
/// thread, the thread of each placed transaction, and the reschedule
/// budget, container and main queue.
#[verifier::ext_equal]
pub struct SchedulingView {
    pub table: Map<Seq<u8>, LocksView>,
    pub load: Seq<u64>,
    pub placed: Map<u64, usize>,
    pub rescheduable_budget: u32,
    pub reschedable: Seq<QueuedView>,
    pub main: Seq<QueuedView>,
}

/// The scheduling state held by the locks, the placements and the queues.
pub open spec fn scheduling_view(
    locks: ThreadAwareLocks,
    counter: ThreadLoadCounter,
    placed: TransactionsOnThread,
    q: LineUpQueue<AccountInvolvedInTransaction>,
) -> SchedulingView {
    SchedulingView {
        table: locks.table(),
        load: counter.load_counter@,
        placed: placed.trnasaction_on_thread@,
        rescheduable_budget: q.rescheduable_budget,
        reschedable: queued_view(q.reschedable_txs@),
        main: queued_view(q.main_queue@),
    }
}

/// One line-up entry is scheduled: when it can be placed and its accounts
/// locked without a conflict (see `placement_allowed`) it goes to the
/// thread its accounts tie it to, or to the least loaded thread, is counted
/// there and its accounts are locked there; otherwise it goes to the
/// reschedule container while that budget lasts, and back onto the main
/// queue after.
pub open spec fn schedule_one(s: SchedulingView, n: usize, tx: QueuedView) -> SchedulingView {
    if placement_allowed(s.table, n, tx.2, tx.3, s.load) {
        let t = placed_thread(s.table, tx.2, tx.3, s.load, n);
        SchedulingView {
            table: after_reads(after_writes(s.table, tx.2, t), tx.3, t),
            load: load_after(s.load, t),
            placed: s.placed.insert(tx.0, t),
            rescheduable_budget: s.rescheduable_budget,
            reschedable: s.reschedable,
            main: s.main,
        }
    } else if s.rescheduable_budget < TOTAL_RESCHEDUABLE_BUDGET {
        SchedulingView {
            table: s.table,
            load: s.load,
            placed: s.placed,
            rescheduable_budget: (s.rescheduable_budget + PER_RESCHEDUABLE_BUDGET) as u32,
            reschedable: s.reschedable.push(tx),
            main: s.main,
        }
    } else {
        SchedulingView {
            table: s.table,
            load: s.load,
            placed: s.placed,
            rescheduable_budget: s.rescheduable_budget,
            reschedable: s.reschedable,
            main: s.main.push(tx),
        }
    }
}

/// The line-up entries are scheduled one after the other, in order.
pub open spec fn schedule_all(s: SchedulingView, n: usize, txs: Seq<QueuedView>) -> SchedulingView
    decreases txs.len(),
{
    if txs.len() == 0 {
        s
    } else {
        schedule_one(schedule_all(s, n, txs.drop_last()), n, txs.last())
    }
}

/// The ids of a run of line-up entries.
pub open spec fn queued_ids(txs: Seq<QueuedView>) -> Set<u64> {
    Set::new(|id: u64| exists|i: int| 0 <= i < txs.len() && txs[i].0 == id)
}

/// Scheduling places entries only under their own ids.
proof fn lemma_schedule_all_placed(s: SchedulingView, n: usize, txs: Seq<QueuedView>)
    ensures
        forall|id: u64|
            #[trigger] schedule_all(s, n, txs).placed.contains_key(id) ==> s.placed.contains_key(id)
                || queued_ids(txs).contains(id),
        s.placed.dom().finite() ==> schedule_all(s, n, txs).placed.dom().finite(),
    decreases txs.len(),
{
    if txs.len() > 0 {
        let pre = txs.drop_last();
        lemma_schedule_all_placed(s, n, pre);
        let mid = schedule_all(s, n, pre);
        assert(schedule_all(s, n, txs) == schedule_one(mid, n, txs.last()));
        assert forall|id: u64| #[trigger] schedule_all(s, n, txs).placed.contains_key(id) implies s.placed.contains_key(id)
            || queued_ids(txs).contains(id) by {
            if id == txs.last().0 {
                let w = txs.len() - 1;
                assert(0 <= w < txs.len() && txs[w].0 == id);
            } else {
                assert(mid.placed.contains_key(id));
                if queued_ids(pre).contains(id) {
                    let i = choose|i: int| 0 <= i < pre.len() && pre[i].0 == id;
                    assert(0 <= i < txs.len() && txs[i].0 == id);
                }
            }
        }
    }
}

/// No line-up entry is lost by scheduling: when the entries have distinct
/// ids that are not placed yet, every one of them ends up either placed on a
/// thread or deferred to the reschedule container or the main queue.
pub proof fn law_scheduling_keeps_every_entry(s: SchedulingView, n: usize, txs: Seq<QueuedView>)
    requires
        s.placed.dom().finite(),
        forall|i: int, j: int| 0 <= i < j < txs.len() ==> txs[i].0 != txs[j].0,
        forall|i: int| 0 <= i < txs.len() ==> !s.placed.contains_key(#[trigger] txs[i].0),
    ensures
        schedule_all(s, n, txs).placed.len() + schedule_all(s, n, txs).reschedable.len() + schedule_all(
            s,
            n,
            txs,
        ).main.len() == s.placed.len() + s.reschedable.len() + s.main.len() + txs.len(),
    decreases txs.len(),
{
    if txs.len() > 0 {
        let pre = txs.drop_last();
        law_scheduling_keeps_every_entry(s, n, pre);
        lemma_schedule_all_placed(s, n, pre);
        let mid = schedule_all(s, n, pre);
        let tx = txs.last();
        assert(!mid.placed.contains_key(tx.0)) by {
            assert(!s.placed.contains_key(txs[txs.len() - 1].0));
            if queued_ids(pre).contains(tx.0) {
                let i = choose|i: int| 0 <= i < pre.len() && pre[i].0 == tx.0;
                assert(txs[i].0 == txs[txs.len() - 1].0);
            }
        }
    }
}

impl ChainTransaction {
    /// Schedules every transaction of the line-up in order: each is placed
    /// on a thread with its accounts locked there, or, when its locks
    /// conflict, deferred to the reschedule container (or the main queue
    /// once that budget is used). The line-up itself stays as it is.
    #[allow(non_snake_case)]
    pub fn take_out_individual_transaction_and_apply_RWlocks(
        &mut self,
        lineup_queue: &mut LineUpQueue<AccountInvolvedInTransaction>,
        thread_aware_locks: &mut ThreadAwareLocks,
        transaction_on_thread: &mut TransactionsOnThread,
        thread_load_counter: &mut ThreadLoadCounter,
    )
        requires
            old(thread_aware_locks).wf(),
            old(transaction_on_thread).trnasaction_on_thread.wf(),
        ensures
            *final(self) == *old(self),
            final(thread_aware_locks).wf(),
            final(thread_aware_locks).number_of_thread == old(thread_aware_locks).number_of_thread,
            final(transaction_on_thread).trnasaction_on_thread.wf(),
            final(lineup_queue).lineup_queue@ == old(lineup_queue).lineup_queue@,
            final(lineup_queue).lineup_budget_counter == old(lineup_queue).lineup_budget_counter,
            scheduling_view(
                *final(thread_aware_locks),
                *final(thread_load_counter),
                *final(transaction_on_thread),
                *final(lineup_queue),
            ) == schedule_all(
                scheduling_view(
                    *old(thread_aware_locks),
                    *old(thread_load_counter),
                    *old(transaction_on_thread),
                    *old(lineup_queue),
                ),
                old(thread_aware_locks).number_of_thread,
                queued_view(old(lineup_queue).lineup_queue@),
            ),
    {
        let ghost s0 = scheduling_view(*thread_aware_locks, *thread_load_counter, *transaction_on_thread, *lineup_queue);
        let ghost nt = thread_aware_locks.number_of_thread;
        let ghost line = queued_view(lineup_queue.lineup_queue@);
        let n = lineup_queue.lineup_queue.len();
        let mut i: usize = 0;
        while i < n
            invariant
                n == lineup_queue.lineup_queue@.len(),
                line == queued_view(lineup_queue.lineup_queue@),
                i <= n,
                thread_aware_locks.wf(),
                thread_aware_locks.number_of_thread == nt,
                transaction_on_thread.trnasaction_on_thread.wf(),
                lineup_queue.lineup_queue@ == old(lineup_queue).lineup_queue@,
                lineup_queue.lineup_budget_counter == old(lineup_queue).lineup_budget_counter,
                scheduling_view(*thread_aware_locks, *thread_load_counter, *transaction_on_thread, *lineup_queue) == schedule_all(
                    s0,
                    nt,
                    line.take(i as int),
                ),
            decreases n - i,
        {
            let id = lineup_queue.lineup_queue[i].id;
            let priority = lineup_queue.lineup_queue[i].priority;
            let txs = lineup_queue.lineup_queue[i].txs.clone();
            let writes = copy_all(&txs.is_writeable_accounts);
            let reads = copy_all(&txs.non_writeable_accounts);
            let ghost before = scheduling_view(*thread_aware_locks, *thread_load_counter, *transaction_on_thread, *lineup_queue);
            let ghost tx: QueuedView = (id, priority, writes@, reads@);
            proof {
                assert(line[i as int] == tx);
                assert(line.take(i + 1).drop_last() =~= line.take(i as int));
                assert(line.take(i + 1).last() == tx);
            }
            match thread_aware_locks.try_lock_account_or_defer(writes, reads, thread_load_counter) {
                Some(scheduled_thread) => {
                    transaction_on_thread.trnasaction_on_thread.insert(id, scheduled_thread);
                },
                None => {
                    let ghost q0 = *lineup_queue;
                    lineup_queue.add_transaction_to_non_rescheduable_container(id, priority, txs);
                    proof {
                        assert(queued_view(lineup_queue.reschedable_txs@) =~= if q0.rescheduable_budget
                            < TOTAL_RESCHEDUABLE_BUDGET {
                            queued_view(q0.reschedable_txs@).push(tx)
                        } else {
                            queued_view(q0.reschedable_txs@)
                        });
                        assert(queued_view(lineup_queue.main_queue@) =~= if q0.rescheduable_budget
                            < TOTAL_RESCHEDUABLE_BUDGET {
                            queued_view(q0.main_queue@)
                        } else {
                            queued_view(q0.main_queue@).push(tx)
                        });
                    }
                },
            }
            assert(scheduling_view(*thread_aware_locks, *thread_load_counter, *transaction_on_thread, *lineup_queue) =~= schedule_one(
                before,
                nt,
                tx,
            ));
            i = i + 1;
        }
        assert(line.take(n as int) =~= line);
    }
}

/// Lamports that each sender's account is funded with before a thread's
/// transactions are executed.
pub const SENDER_ACCOUNT_LAMPORTS: u64 = 50_000_000;

impl ChainTransaction {
    /// The transaction recorded under `id`.
    pub fn get_single_transaction_on_a_particular_thread(&self, id: u64) -> (t: &MakeTransaction)
        requires
            self.chain_transaction.wf(),
            self.chain_transaction@.contains_key(id),
        ensures
            *t == self.chain_transaction@[id],
            t@ == self.transactions()[id],
    {
        self.chain_transaction.get(&id).unwrap()
    }

    /// The transactions placed on `thread_id`, in the order of the placements.
    pub fn get_all_transaction_on_a_thread(&mut self, tsx_on_thread: TransactionsOnThread, thread_id: usize) -> (r: Vec<&MakeTransaction>)
        requires
            old(self).chain_transaction.wf(),
            tsx_on_thread.trnasaction_on_thread.wf(),
            forall|i: int|
                0 <= i < ids_on_thread(tsx_on_thread.trnasaction_on_thread.entries(), thread_id).len()
                    ==> old(self).chain_transaction@.contains_key(
                    #[trigger] ids_on_thread(tsx_on_thread.trnasaction_on_thread.entries(), thread_id)[i],
                ),
        ensures
            r@.len() == ids_on_thread(tsx_on_thread.trnasaction_on_thread.entries(), thread_id).len(),
            forall|i: int|
                0 <= i < r@.len() ==> *#[trigger] r@[i] == old(self).chain_transaction@[ids_on_thread(
                    tsx_on_thread.trnasaction_on_thread.entries(),
                    thread_id,
                )[i]],
    {
        let ids = tsx_on_thread.get_all_tx_ids_for_thread(thread_id);
        let mut all_transaction_on_thread_id: Vec<&MakeTransaction> = Vec::new();
        let mut i: usize = 0;
        while i < ids.len()
            invariant
                self.chain_transaction.wf(),
                *self == *old(self),
                ids@ == ids_on_thread(tsx_on_thread.trnasaction_on_thread.entries(), thread_id),
                forall|j: int| 0 <= j < ids@.len() ==> self.chain_transaction@.contains_key(#[trigger] ids@[j]),
                i <= ids@.len(),
                all_transaction_on_thread_id@.len() == i,
                forall|j: int|
                    0 <= j < i ==> *#[trigger] all_transaction_on_thread_id@[j] == self.chain_transaction@[ids@[j]],
            decreases ids@.len() - i,
        {
            let single_txs = self.get_single_transaction_on_a_particular_thread(ids[i]);
            all_transaction_on_thread_id.push(single_txs);
            i = i + 1;
        }
        all_transaction_on_thread_id
    }
}

/// The kept metadata of each transaction, in order.
pub fn get_all_transaction_metadata_from_transaction(transaction: Vec<&MakeTransaction>) -> (r: Vec<TransactionMetadata>)
    requires
        forall|i: int|
            0 <= i < transaction@.len() ==> (#[trigger] transaction@[i]).transaction_metadata@.keys.len() >= 4
                && transaction@[i].transaction_metadata@.args.len() >= 1,
    ensures
        r@.len() == transaction@.len(),
        forall|i: int|
            0 <= i < r@.len() ==> (#[trigger] r@[i])@ == trimmed_metadata(transaction@[i].transaction_metadata@),
{
    let mut metadata_vec: Vec<TransactionMetadata> = Vec::new();
    let mut i: usize = 0;
    while i < transaction.len()
        invariant
            forall|j: int|
                0 <= j < transaction@.len() ==> (#[trigger] transaction@[j]).transaction_metadata@.keys.len() >= 4
                    && transaction@[j].transaction_metadata@.args.len() >= 1,
            i <= transaction@.len(),
            metadata_vec@.len() == i,
            forall|j: int|
                0 <= j < i ==> (#[trigger] metadata_vec@[j])@ == trimmed_metadata(
                    transaction@[j].transaction_metadata@,
                ),
        decreases transaction@.len() - i,
    {
        let kept = trim_metadata(&transaction[i].transaction_metadata);
        metadata_vec.push(kept);
        i = i + 1;
    }
    metadata_vec
}

/// The signing keys for a thread's batch: the payer first, then the sender
/// of each transaction, in order.
pub fn prepare_key_for_trnasactions(transaction: Vec<&MakeTransaction>, payer: Keypair) -> (r: Vec<Keypair>)
    ensures
        r@.len() == transaction@.len() + 1,
        r@[0] == payer,
        forall|i: int| 0 <= i < transaction@.len() ==> r@[i + 1] == (#[trigger] transaction@[i]).from_key,
{
    let ghost p = payer;
    let mut key_vec: Vec<Keypair> = Vec::new();
    key_vec.push(payer);
    let mut i: usize = 0;
    while i < transaction.len()
        invariant
            i <= transaction@.len(),
            key_vec@.len() == i + 1,
            key_vec@[0] == p,
            forall|j: int| 0 <= j < i ==> key_vec@[j + 1] == (#[trigger] transaction@[j]).from_key,
        decreases transaction@.len() - i,
    {
        key_vec.push(transaction[i].from_key.insecure_clone());
        i = i + 1;
    }
    key_vec
}

/// The accounts to fund before a thread's batch runs: for each sender, in
/// order, a System account with `SENDER_ACCOUNT_LAMPORTS` and no data.
pub fn prepare_account_for_the_transaction(transaction: Vec<&MakeTransaction>) -> (r: Vec<(Pubkey, AccountSharedData)>)
    ensures
        r@.len() == transaction@.len(),
        forall|i: int|
            0 <= i < r@.len() ==> (#[trigger] r@[i]).0 == transaction@[i].from_key.public && r@[i].1@ == (
                SENDER_ACCOUNT_LAMPORTS,
                Seq::<u8>::empty(),
                system_program_id(),
            ),
{
    let mut account: Vec<(Pubkey, AccountSharedData)> = Vec::new();
    let mut i: usize = 0;
    while i < transaction.len()
        invariant
            i <= transaction@.len(),
            account@.len() == i,
            forall|j: int|
                0 <= j < i ==> (#[trigger] account@[j]).0 == transaction@[j].from_key.public && account@[j].1@ == (
                    SENDER_ACCOUNT_LAMPORTS,
                    Seq::<u8>::empty(),
                    system_program_id(),
                ),
        decreases transaction@.len() - i,
    {
        let mut system = AccountSharedData::default();
        system.lamports = SENDER_ACCOUNT_LAMPORTS;
        account.push((transaction[i].from_key.pubkey(), system));
        i = i + 1;
    }
    account
}

} // verus!
