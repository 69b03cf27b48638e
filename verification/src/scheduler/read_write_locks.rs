//! Thread-aware account locks.
//!
//! Every locked account remembers which worker thread holds its write lock
//! and which threads hold read locks on it. A write lock and read locks on
//! the same account always sit on one single thread, so that no thread
//! reads an account that another thread writes.

use crate::assoc_map::AssocMap;
use crate::pubkey::Pubkey;
use vstd::prelude::*;

verus! {

/// Number of worker threads whose read locks an account can record.
pub const MAX_THREAD: usize = 4;

/// Thread number reported for an account that no lock ties to a thread.
pub const UNCONSTRAINED_THREAD: usize = 100;

/// Thread number reported for a read of an account that only has read locks.
pub const ANY_THREAD: usize = 1;

/// Identifier for a thread.
pub type ThreadId = usize;

/// The write lock of an account: the thread that holds it and how often.
#[derive(Debug, Clone, Copy)]
pub struct AccountWriteLocks {
    pub thread_id: ThreadId,
    pub lock_count: u32,
}

/// The read locks of an account: which threads hold one, and how often each.
#[derive(Debug, Clone, Copy)]
pub struct AccountReadLocks {
    pub thread_set: [bool; MAX_THREAD],
    pub lock_count: [u32; MAX_THREAD],
}

/// Both kinds of lock of one account.
#[derive(Debug, Clone, Copy)]
pub struct AccountLocks {
    pub write_lock: Option<AccountWriteLocks>,
    pub read_lock: Option<AccountReadLocks>,
}

/// What the lock table records about one account, as plain values.
pub struct LocksView {
    /// Holding thread and count of the write lock.
    pub write: Option<(usize, u32)>,
    /// Per-thread flags and counts of the read locks.
    pub read: Option<(Seq<bool>, Seq<u32>)>,
}

impl View for AccountLocks {
    type V = LocksView;

    open spec fn view(&self) -> LocksView {
        LocksView {
            write: match self.write_lock {
                Some(w) => Some((w.thread_id, w.lock_count)),
                None => None,
            },
            read: match self.read_lock {
                Some(r) => Some((r.thread_set@, r.lock_count@)),
                None => None,
            },
        }
    }
}

/// The flags with only thread `t` set.
pub open spec fn only_thread(t: int) -> Seq<bool> {
    Seq::new(MAX_THREAD as nat, |i: int| i == t)
}

/// Counts with one lock on thread `t` and none elsewhere.
pub open spec fn one_lock_on(t: int) -> Seq<u32> {
    Seq::new(MAX_THREAD as nat, |i: int| if i == t { 1u32 } else { 0u32 })
}

/// How many of the four thread flags are set.
pub open spec fn count_true(s: Seq<bool>) -> nat {
    (if s[0] { 1nat } else { 0nat }) + (if s[1] { 1nat } else { 0nat }) + (if s[2] {
        1nat
    } else {
        0nat
    }) + (if s[3] { 1nat } else { 0nat })
}

/// The first thread whose flag is set (the only one, where exactly one is set).
pub open spec fn first_set(s: Seq<bool>) -> usize {
    if s[0] {
        0
    } else if s[1] {
        1
    } else if s[2] {
        2
    } else {
        3
    }
}

/// A write lock by thread `t` on an account in state `e` does not conflict.
pub open spec fn write_allowed(e: Option<LocksView>, t: usize) -> bool {
    match e {
        None => true,
        Some(v) => {
            &&& (v.read matches Some(r) ==> t < MAX_THREAD && r.0 == only_thread(t as int))
            &&& (v.write matches Some(w) ==> w.0 == t && w.1 < u32::MAX)
        },
    }
}

/// The state of an account after a write lock by thread `t`.
pub open spec fn after_write(e: Option<LocksView>, t: usize) -> LocksView {
    match e {
        None => LocksView { write: Some((t, 1u32)), read: None },
        Some(v) => LocksView {
            write: match v.write {
                Some(w) => Some((w.0, (w.1 + 1) as u32)),
                None => Some((t, 1u32)),
            },
            read: v.read,
        },
    }
}

/// A read lock by thread `t` on an account in state `e` does not conflict.
pub open spec fn read_allowed(e: Option<LocksView>, t: usize) -> bool {
    &&& t < MAX_THREAD
    &&& match e {
        None => true,
        Some(v) => {
            &&& (v.write matches Some(w) ==> w.0 == t)
            &&& (v.read matches Some(r) ==> r.1[t as int] < u32::MAX)
        },
    }
}

/// The state of an account after a read lock by thread `t`.
pub open spec fn after_read(e: Option<LocksView>, t: usize) -> LocksView {
    let fresh = (only_thread(t as int), one_lock_on(t as int));
    match e {
        None => LocksView { write: None, read: Some(fresh) },
        Some(v) => LocksView {
            write: v.write,
            read: match v.read {
                Some(r) => Some(
                    (r.0.update(t as int, true), r.1.update(t as int, (r.1[t as int] + 1) as u32)),
                ),
                None => Some(fresh),
            },
        },
    }
}

/// Scheduling an account in state `e`, for writing or for reading, does not
/// hit a conflict: only writing an account that is read on several threads
/// (and written on none) does.
pub open spec fn schedule_allowed(e: Option<LocksView>, for_write: bool) -> bool {
    match e {
        None => true,
        Some(v) => match (v.write, v.read) {
            (None, Some(r)) => !for_write || count_true(r.0) == 1,
            _ => true,
        },
    }
}

/// The thread an account in state `e` ties a transaction to.
pub open spec fn scheduled_thread(e: Option<LocksView>, for_write: bool) -> usize {
    match e {
        None => UNCONSTRAINED_THREAD,
        Some(v) => match v.write {
            Some(w) => w.0,
            None => match v.read {
                Some(r) => if for_write {
                    first_set(r.0)
                } else {
                    ANY_THREAD
                },
                None => UNCONSTRAINED_THREAD,
            },
        },
    }
}

/// What a lock table may hold for one account.
pub open spec fn entry_ok(v: LocksView) -> bool {
    &&& !(v.write is None && v.read is None)
    &&& (v.read matches Some(r) ==> {
        &&& r.0.len() == MAX_THREAD
        &&& r.1.len() == MAX_THREAD
        &&& forall|i: int| 0 <= i < MAX_THREAD ==> r.0[i] == (r.1[i] > 0)
    })
    &&& (v.write matches Some(w) ==> w.1 >= 1)
    &&& (v.write matches Some(w) ==> (v.read matches Some(r) ==> w.0 < MAX_THREAD && r.0
        == only_thread(w.0 as int)))
}

/// Every account of the table is in a state that `entry_ok` allows.
pub open spec fn table_ok(m: Map<Seq<u8>, LocksView>) -> bool {
    forall|k: Seq<u8>| #[trigger] m.contains_key(k) ==> entry_ok(m[k])
}

/// The table after write locks by thread `t` on `ks`, in order.
pub open spec fn after_writes(m: Map<Seq<u8>, LocksView>, ks: Seq<Pubkey>, t: usize) -> Map<
    Seq<u8>,
    LocksView,
>
    decreases ks.len(),
{
    if ks.len() == 0 {
        m
    } else {
        let p = after_writes(m, ks.drop_last(), t);
        p.insert(ks.last()@, after_write(p.get(ks.last()@), t))
    }
}

/// None of the write locks by thread `t` on `ks`, taken in order, conflicts.
pub open spec fn writes_allowed(m: Map<Seq<u8>, LocksView>, ks: Seq<Pubkey>, t: usize) -> bool
    decreases ks.len(),
{
    ks.len() == 0 || (writes_allowed(m, ks.drop_last(), t) && write_allowed(
        after_writes(m, ks.drop_last(), t).get(ks.last()@),
        t,
    ))
}

/// The table after read locks by thread `t` on `ks`, in order.
pub open spec fn after_reads(m: Map<Seq<u8>, LocksView>, ks: Seq<Pubkey>, t: usize) -> Map<
    Seq<u8>,
    LocksView,
>
    decreases ks.len(),
{
    if ks.len() == 0 {
        m
    } else {
        let p = after_reads(m, ks.drop_last(), t);
        p.insert(ks.last()@, after_read(p.get(ks.last()@), t))
    }
}

/// None of the read locks by thread `t` on `ks`, taken in order, conflicts.
pub open spec fn reads_allowed(m: Map<Seq<u8>, LocksView>, ks: Seq<Pubkey>, t: usize) -> bool
    decreases ks.len(),
{
    ks.len() == 0 || (reads_allowed(m, ks.drop_last(), t) && read_allowed(
        after_reads(m, ks.drop_last(), t).get(ks.last()@),
        t,
    ))
}

/// The threads that the accounts tie a transaction to: written accounts first.
pub open spec fn schedule_list(m: Map<Seq<u8>, LocksView>, ws: Seq<Pubkey>, rs: Seq<Pubkey>) -> Seq<
    usize,
> {
    ws.map_values(|k: Pubkey| scheduled_thread(m.get(k@), true)) + rs.map_values(
        |k: Pubkey| scheduled_thread(m.get(k@), false),
    )
}

/// The thread list without the unconstrained entries; `[ANY_THREAD]` when nothing is left.
pub open spec fn simplified(v: Seq<usize>) -> Seq<usize> {
    let f = v.filter(|x: usize| x != UNCONSTRAINED_THREAD);
    if f.len() == 0 {
        seq![ANY_THREAD]
    } else {
        f
    }
}

/// Every account of `ws` (for writing) and `rs` (for reading) can be scheduled.
pub open spec fn all_schedulable(m: Map<Seq<u8>, LocksView>, ws: Seq<Pubkey>, rs: Seq<Pubkey>) -> bool {
    &&& forall|i: int| 0 <= i < ws.len() ==> schedule_allowed(#[trigger] m.get(ws[i]@), true)
    &&& forall|i: int| 0 <= i < rs.len() ==> schedule_allowed(#[trigger] m.get(rs[i]@), false)
}

/// The thread that a transaction with these accounts is placed on.
pub open spec fn chosen_thread(m: Map<Seq<u8>, LocksView>, ws: Seq<Pubkey>, rs: Seq<Pubkey>) -> usize {
    simplified(schedule_list(m, ws, rs))[0]
}

/// A transaction writing `ws` and reading `rs` can be placed and locked on
/// one of `n` threads without any conflict.
pub open spec fn try_lock_allowed(
    m: Map<Seq<u8>, LocksView>,
    n: usize,
    ws: Seq<Pubkey>,
    rs: Seq<Pubkey>,
) -> bool {
    let t = chosen_thread(m, ws, rs);
    &&& all_schedulable(m, ws, rs)
    &&& t < n
    &&& writes_allowed(m, ws, t)
    &&& reads_allowed(after_writes(m, ws, t), rs, t)
}


/// Every prefix of an allowed sequence of write locks is allowed, and so is its next step.
pub proof fn lemma_writes_prefix(m: Map<Seq<u8>, LocksView>, ks: Seq<Pubkey>, t: usize, i: int)
    requires
        writes_allowed(m, ks, t),
        0 <= i < ks.len(),
    ensures
        writes_allowed(m, ks.take(i + 1), t),
        write_allowed(after_writes(m, ks.take(i), t).get(ks[i]@), t),
    decreases ks.len(),
{
    if i + 1 == ks.len() {
        assert(ks.take(i + 1) =~= ks);
        assert(ks.drop_last() =~= ks.take(i));
    } else {
        lemma_writes_prefix(m, ks.drop_last(), t, i);
        assert(ks.drop_last().take(i + 1) =~= ks.take(i + 1));
        assert(ks.drop_last().take(i) =~= ks.take(i));
    }
}

/// Every prefix of an allowed sequence of read locks is allowed, and so is its next step.
pub proof fn lemma_reads_prefix(m: Map<Seq<u8>, LocksView>, ks: Seq<Pubkey>, t: usize, i: int)
    requires
        reads_allowed(m, ks, t),
        0 <= i < ks.len(),
    ensures
        reads_allowed(m, ks.take(i + 1), t),
        read_allowed(after_reads(m, ks.take(i), t).get(ks[i]@), t),
    decreases ks.len(),
{
    if i + 1 == ks.len() {
        assert(ks.take(i + 1) =~= ks);
        assert(ks.drop_last() =~= ks.take(i));
    } else {
        lemma_reads_prefix(m, ks.drop_last(), t, i);
        assert(ks.drop_last().take(i + 1) =~= ks.take(i + 1));
        assert(ks.drop_last().take(i) =~= ks.take(i));
    }
}

/// A sequence of write locks whose step `i` conflicts is not allowed.
pub proof fn lemma_writes_blocked(m: Map<Seq<u8>, LocksView>, ks: Seq<Pubkey>, t: usize, i: int)
    requires
        0 <= i < ks.len(),
        !write_allowed(after_writes(m, ks.take(i), t).get(ks[i]@), t),
    ensures
        !writes_allowed(m, ks, t),
{
    if writes_allowed(m, ks, t) {
        lemma_writes_prefix(m, ks, t, i);
    }
}

/// A sequence of read locks whose step `i` conflicts is not allowed.
pub proof fn lemma_reads_blocked(m: Map<Seq<u8>, LocksView>, ks: Seq<Pubkey>, t: usize, i: int)
    requires
        0 <= i < ks.len(),
        !read_allowed(after_reads(m, ks.take(i), t).get(ks[i]@), t),
    ensures
        !reads_allowed(m, ks, t),
{
    if reads_allowed(m, ks, t) {
        lemma_reads_prefix(m, ks, t, i);
    }
}

/// Taking one more write lock extends the table of the prefix by that lock.
pub proof fn lemma_writes_step(m: Map<Seq<u8>, LocksView>, ks: Seq<Pubkey>, t: usize, i: int)
    requires
        0 <= i < ks.len(),
    ensures
        after_writes(m, ks.take(i + 1), t) == after_writes(m, ks.take(i), t).insert(
            ks[i]@,
            after_write(after_writes(m, ks.take(i), t).get(ks[i]@), t),
        ),
{
    assert(ks.take(i + 1).drop_last() =~= ks.take(i));
}

/// Taking one more read lock extends the table of the prefix by that lock.
pub proof fn lemma_reads_step(m: Map<Seq<u8>, LocksView>, ks: Seq<Pubkey>, t: usize, i: int)
    requires
        0 <= i < ks.len(),
    ensures
        after_reads(m, ks.take(i + 1), t) == after_reads(m, ks.take(i), t).insert(
            ks[i]@,
            after_read(after_reads(m, ks.take(i), t).get(ks[i]@), t),
        ),
{
    assert(ks.take(i + 1).drop_last() =~= ks.take(i));
}


/// A write lock and read locks on one account are always held by the same
/// single thread: in a consistent table, the readers of a write-locked
/// account are exactly its writer.
pub proof fn law_writer_and_readers_share_one_thread(m: Map<Seq<u8>, LocksView>, k: Seq<u8>)
    requires
        table_ok(m),
        m.contains_key(k),
        m[k].write is Some,
        m[k].read is Some,
    ensures
        m[k].write.unwrap().0 < MAX_THREAD,
        forall|i: int|
            0 <= i < MAX_THREAD ==> (m[k].read.unwrap().0[i] <==> i == m[k].write.unwrap().0),
{
    assert(entry_ok(m[k]));
}

/// After a write lock by thread `t`, the account ties every transaction to `t`.
pub proof fn law_write_lock_pins_thread(e: Option<LocksView>, t: usize, for_write: bool)
    requires
        write_allowed(e, t),
    ensures
        scheduled_thread(Some(after_write(e, t)), for_write) == t,
{
}

/// An account read only by thread `t` (and written by no one) may be
/// write-locked by that same thread, whatever its read counts; the write
/// lock then sits next to the read locks, with count one.
pub proof fn law_single_reader_may_write(t: usize, counts: Seq<u32>)
    requires
        t < MAX_THREAD,
    ensures
        write_allowed(Some(LocksView { write: None, read: Some((only_thread(t as int), counts)) }), t),
        after_write(Some(LocksView { write: None, read: Some((only_thread(t as int), counts)) }), t) == (LocksView {
            write: Some((t, 1u32)),
            read: Some((only_thread(t as int), counts)),
        }),
{
}

/// A transaction that writes an account read only by thread `t` (one of the
/// `n` worker threads), and nothing else, is placed on `t` and takes the write
/// lock there, next to the read lock.
pub proof fn law_single_reader_places_its_writer(
    m: Map<Seq<u8>, LocksView>,
    n: usize,
    a: Pubkey,
    t: usize,
    counts: Seq<u32>,
    load: Seq<u64>,
)
    requires
        t < MAX_THREAD,
        t < n,
        m.contains_key(a@),
        m[a@] == (LocksView { write: None, read: Some((only_thread(t as int), counts)) }),
    ensures
        placement_allowed(m, n, seq![a], Seq::empty(), load),
        placed_thread(m, seq![a], Seq::empty(), load, n) == t,
        after_writes(m, seq![a], t)[a@] == (LocksView {
            write: Some((t, 1u32)),
            read: Some((only_thread(t as int), counts)),
        }),
{
    let ws = seq![a];
    let rs = Seq::<Pubkey>::empty();
    assert(count_true(only_thread(t as int)) == 1);
    assert(first_set(only_thread(t as int)) == t);
    let pl = placement_list(m, ws, rs);
    assert(pl =~= seq![t]);
    assert(pl[0] == t);
    assert(first_constraint(pl) == Some(t));
    assert(ws.drop_last() =~= Seq::<Pubkey>::empty());
    assert(ws.last() == a);
    assert(after_writes(m, ws.drop_last(), t) == m);
    assert(writes_allowed(m, ws.drop_last(), t));
    assert(m.get(a@) == Some(m[a@]));
    assert(write_allowed(m.get(a@), t));
    assert(writes_allowed(m, ws, t));
    assert(reads_allowed(after_writes(m, ws, t), rs, t));
}

/// Taking locks never removes an account from the table, and never
/// changes the holder of an existing write lock.
pub proof fn law_locking_keeps_accounts(
    m: Map<Seq<u8>, LocksView>,
    ws: Seq<Pubkey>,
    rs: Seq<Pubkey>,
    t: usize,
    k: Seq<u8>,
)
    requires
        m.contains_key(k),
    ensures
        after_reads(after_writes(m, ws, t), rs, t).contains_key(k),
        m[k].write matches Some(w) ==> after_reads(after_writes(m, ws, t), rs, t)[k].write.unwrap().0
            == w.0,
{
    lemma_writes_keep(m, ws, t, k);
    lemma_reads_keep(after_writes(m, ws, t), rs, t, k);
}

proof fn lemma_writes_keep(m: Map<Seq<u8>, LocksView>, ws: Seq<Pubkey>, t: usize, k: Seq<u8>)
    requires
        m.contains_key(k),
    ensures
        after_writes(m, ws, t).contains_key(k),
        m[k].write matches Some(w) ==> write_locked_by(after_writes(m, ws, t), k, w.0),
    decreases ws.len(),
{
    if ws.len() > 0 {
        lemma_writes_keep(m, ws.drop_last(), t, k);
    }
}

proof fn lemma_reads_keep(m: Map<Seq<u8>, LocksView>, rs: Seq<Pubkey>, t: usize, k: Seq<u8>)
    requires
        m.contains_key(k),
    ensures
        after_reads(m, rs, t).contains_key(k),
        after_reads(m, rs, t)[k].write == m[k].write,
    decreases rs.len(),
{
    if rs.len() > 0 {
        lemma_reads_keep(m, rs.drop_last(), t, k);
    }
}

/// Every read lock record of the table has one flag and one count per thread.
pub open spec fn reads_sized(m: Map<Seq<u8>, LocksView>) -> bool {
    forall|k: Seq<u8>|
        #[trigger] m.contains_key(k) ==> (m[k].read matches Some(r) ==> r.0.len() == MAX_THREAD
            && r.1.len() == MAX_THREAD)
}

proof fn lemma_writes_sized(m: Map<Seq<u8>, LocksView>, ws: Seq<Pubkey>, t: usize)
    requires
        reads_sized(m),
    ensures
        reads_sized(after_writes(m, ws, t)),
    decreases ws.len(),
{
    if ws.len() > 0 {
        lemma_writes_sized(m, ws.drop_last(), t);
    }
}

proof fn lemma_reads_sized(m: Map<Seq<u8>, LocksView>, rs: Seq<Pubkey>, t: usize)
    requires
        reads_sized(m),
        t < MAX_THREAD,
    ensures
        reads_sized(after_reads(m, rs, t)),
    decreases rs.len(),
{
    if rs.len() > 0 {
        lemma_reads_sized(m, rs.drop_last(), t);
        let p = after_reads(m, rs.drop_last(), t);
        let k = rs.last()@;
        let e = p.get(k);
        let v = after_read(e, t);
        assert(only_thread(t as int).len() == MAX_THREAD);
        assert(one_lock_on(t as int).len() == MAX_THREAD);
        let q = after_reads(m, rs, t);
        assert(q == p.insert(k, v));
        assert forall|key: Seq<u8>| #[trigger] q.contains_key(key) implies (q[key].read matches Some(
            r,
        ) ==> r.0.len() == MAX_THREAD && r.1.len() == MAX_THREAD) by {
            if key == k {
                assert(q[key] == v);
                if p.contains_key(k) {
                    assert(e == Some(p[k]));
                    match p[k].read {
                        Some(r0) => {
                            assert(r0.0.len() == MAX_THREAD && r0.1.len() == MAX_THREAD);
                            assert(v.read == Some(
                                (
                                    r0.0.update(t as int, true),
                                    r0.1.update(t as int, (r0.1[t as int] + 1) as u32),
                                ),
                            ));
                        },
                        None => {},
                    }
                } else {
                    assert(e is None);
                }
            } else {
                assert(p.contains_key(key));
            }
        }
    }
}

proof fn lemma_writes_pin(m: Map<Seq<u8>, LocksView>, ws: Seq<Pubkey>, t: usize, i: int)
    requires
        writes_allowed(m, ws, t),
        0 <= i < ws.len(),
    ensures
        write_locked_by(after_writes(m, ws, t), ws[i]@, t),
    decreases ws.len(),
{
    let p = ws.drop_last();
    if ws[i]@ != ws.last()@ {
        assert(ws[i] == p[i]);
        lemma_writes_pin(m, p, t, i);
    }
}

proof fn lemma_reads_flag(m: Map<Seq<u8>, LocksView>, rs: Seq<Pubkey>, t: usize, i: int)
    requires
        reads_sized(m),
        reads_allowed(m, rs, t),
        0 <= i < rs.len(),
    ensures
        read_locked_by(after_reads(m, rs, t), rs[i]@, t),
    decreases rs.len(),
{
    let p = rs.drop_last();
    lemma_reads_sized(m, p, t);
    if rs[i]@ != rs.last()@ {
        assert(rs[i] == p[i]);
        lemma_reads_flag(m, p, t, i);
    }
}

/// Account `k` holds a write lock of thread `t` in table `m`.
pub open spec fn write_locked_by(m: Map<Seq<u8>, LocksView>, k: Seq<u8>, t: usize) -> bool {
    m.contains_key(k) && (m[k].write matches Some(w) && w.0 == t)
}

/// Account `k` holds a read lock of thread `t` in table `m`.
pub open spec fn read_locked_by(m: Map<Seq<u8>, LocksView>, k: Seq<u8>, t: usize) -> bool {
    m.contains_key(k) && (m[k].read matches Some(r) && r.0[t as int])
}

/// After `lock_account` with thread `t`, every written account holds a write
/// lock of `t` and every read account holds a read lock of `t`.
pub proof fn law_lock_account_pins_accounts(
    m: Map<Seq<u8>, LocksView>,
    ws: Seq<Pubkey>,
    rs: Seq<Pubkey>,
    t: usize,
)
    requires
        table_ok(m),
        writes_allowed(m, ws, t),
        reads_allowed(after_writes(m, ws, t), rs, t),
    ensures
        forall|i: int|
            0 <= i < ws.len() ==> write_locked_by(
                after_reads(after_writes(m, ws, t), rs, t),
                #[trigger] ws[i]@,
                t,
            ),
        forall|i: int|
            0 <= i < rs.len() ==> read_locked_by(
                after_reads(after_writes(m, ws, t), rs, t),
                #[trigger] rs[i]@,
                t,
            ),
{
    assert forall|i: int| 0 <= i < ws.len() implies write_locked_by(
        after_reads(after_writes(m, ws, t), rs, t),
        #[trigger] ws[i]@,
        t,
    ) by {
        lemma_writes_pin(m, ws, t, i);
        lemma_reads_keep(after_writes(m, ws, t), rs, t, ws[i]@);
    }
    assert forall|i: int| 0 <= i < rs.len() implies read_locked_by(
        after_reads(after_writes(m, ws, t), rs, t),
        #[trigger] rs[i]@,
        t,
    ) by {
        assert(reads_sized(m)) by {
            assert forall|k: Seq<u8>| #[trigger] m.contains_key(k) implies (m[k].read matches Some(
                r,
            ) ==> r.0.len() == MAX_THREAD && r.1.len() == MAX_THREAD) by {
                assert(entry_ok(m[k]));
            }
        }
        lemma_writes_sized(m, ws, t);
        lemma_reads_flag(after_writes(m, ws, t), rs, t, i);
    }
}

/// Locks of all accounts, each pinned to worker threads.
#[derive(Debug)]
pub struct ThreadAwareLocks {
    pub number_of_thread: usize,
    pub locks: AssocMap<Pubkey, AccountLocks>,
}

impl ThreadAwareLocks {
    /// What the table records about every locked account.
    pub open spec fn table(&self) -> Map<Seq<u8>, LocksView> {
        self.locks@.map_values(|l: AccountLocks| l@)
    }

    /// The table is well formed and every account in it is in an allowed state.
    pub open spec fn wf(&self) -> bool {
        &&& self.locks.wf()
        &&& table_ok(self.table())
    }

    proof fn lemma_table_insert(
        old_locks: Map<Seq<u8>, AccountLocks>,
        k: Seq<u8>,
        v: AccountLocks,
    )
        ensures
            old_locks.insert(k, v).map_values(|l: AccountLocks| l@) == old_locks.map_values(
                |l: AccountLocks| l@,
            ).insert(k, v@),
    {
        assert(old_locks.insert(k, v).map_values(|l: AccountLocks| l@) =~= old_locks.map_values(
            |l: AccountLocks| l@,
        ).insert(k, v@));
    }

    /// An empty lock table for `number_of_thread` worker threads.
    pub fn new(number_of_thread: usize) -> (s: Self)
        ensures
            s.wf(),
            s.number_of_thread == number_of_thread,
            s.table() == Map::<Seq<u8>, LocksView>::empty(),
    {
        let s = ThreadAwareLocks { number_of_thread, locks: AssocMap::new() };
        assert(s.table() =~= Map::<Seq<u8>, LocksView>::empty());
        s
    }

    /// The locks currently recorded for `account`.
    fn locks_of(&self, account: &Pubkey) -> (r: Option<AccountLocks>)
        requires
            self.wf(),
        ensures
            r matches Some(l) ==> self.table().get(account@) == Some(l@),
            r is None ==> self.table().get(account@) is None,
    {
        match self.locks.get(account) {
            Some(l) => Some(*l),
            None => None,
        }
    }

    /// Takes a write lock on `account` for thread `thread_id`.
    ///
    /// An outstanding read lock must be held by that same thread alone, and
    /// an outstanding write lock by that same thread.
    pub fn write_lock_account(&mut self, account: Pubkey, thread_id: ThreadId)
        requires
            old(self).wf(),
            write_allowed(old(self).table().get(account@), thread_id),
        ensures
            final(self).wf(),
            final(self).number_of_thread == old(self).number_of_thread,
            final(self).table() == old(self).table().insert(
                account@,
                after_write(old(self).table().get(account@), thread_id),
            ),
    {
        let current = self.locks_of(&account);
        let entry = match current {
            Some(l) => {
                let write_lock = match l.write_lock {
                    Some(w) => AccountWriteLocks {
                        thread_id: w.thread_id,
                        lock_count: w.lock_count + 1,
                    },
                    None => AccountWriteLocks { thread_id, lock_count: 1 },
                };
                AccountLocks { write_lock: Some(write_lock), read_lock: l.read_lock }
            },
            None => AccountLocks {
                write_lock: Some(AccountWriteLocks { thread_id, lock_count: 1 }),
                read_lock: None,
            },
        };
        assert(entry@ == after_write(self.table().get(account@), thread_id));
        let ghost old_locks = self.locks@;
        self.locks.insert(account, entry);
        proof {
            Self::lemma_table_insert(old_locks, account@, entry);
            assert forall|k: Seq<u8>| #[trigger] self.table().contains_key(k) implies entry_ok(
                self.table()[k],
            ) by {
                if k != account@ {
                    assert(old_locks.map_values(|l: AccountLocks| l@).contains_key(k));
                }
            }
        }
    }

    /// Takes a read lock on `account` for thread `thread_id`.
    ///
    /// An outstanding write lock must be held by that same thread.
    pub fn read_account_lock(&mut self, account: Pubkey, thread_id: ThreadId)
        requires
            old(self).wf(),
            read_allowed(old(self).table().get(account@), thread_id),
        ensures
            final(self).wf(),
            final(self).number_of_thread == old(self).number_of_thread,
            final(self).table() == old(self).table().insert(
                account@,
                after_read(old(self).table().get(account@), thread_id),
            ),
    {
        let current = self.locks_of(&account);
        let (write_lock, previous_read) = match current {
            Some(l) => (l.write_lock, l.read_lock),
            None => (None, None),
        };
        let read_lock = match previous_read {
            Some(r) => {
                let mut r2 = r;
                r2.thread_set[thread_id] = true;
                r2.lock_count[thread_id] = r.lock_count[thread_id] + 1;
                r2
            },
            None => {
                let mut thread_set = [false, false, false, false];
                let mut lock_count = [0u32, 0u32, 0u32, 0u32];
                thread_set[thread_id] = true;
                lock_count[thread_id] = 1;
                AccountReadLocks { thread_set, lock_count }
            },
        };
        let entry = AccountLocks { write_lock, read_lock: Some(read_lock) };
        proof {
            assert(read_lock.thread_set@.len() == MAX_THREAD);
            match previous_read {
                Some(r) => {
                    assert(read_lock.thread_set@ =~= r.thread_set@.update(thread_id as int, true));
                    assert(read_lock.lock_count@ =~= r.lock_count@.update(
                        thread_id as int,
                        (r.lock_count@[thread_id as int] + 1) as u32,
                    ));
                },
                None => {
                    assert(read_lock.thread_set@ =~= only_thread(thread_id as int));
                    assert(read_lock.lock_count@ =~= one_lock_on(thread_id as int));
                },
            }
        }
        assert(entry@ == after_read(self.table().get(account@), thread_id));
        let ghost old_locks = self.locks@;
        self.locks.insert(account, entry);
        proof {
            Self::lemma_table_insert(old_locks, account@, entry);
            assert forall|k: Seq<u8>| #[trigger] self.table().contains_key(k) implies entry_ok(
                self.table()[k],
            ) by {
                if k != account@ {
                    assert(old_locks.map_values(|l: AccountLocks| l@).contains_key(k));
                } else {
                    let v = self.table()[k];
                    match v.write {
                        Some(w) => {
                            match previous_read {
                                Some(r) => {
                                    assert(v.read.unwrap().0 =~= only_thread(w.0 as int));
                                },
                                None => {},
                            }
                        },
                        None => {},
                    }
                }
            }
        }
    }
}

impl ThreadAwareLocks {
    /// How many threads hold a read lock in `read_lock`.
    pub fn convert_thread_set_into_single_thread_id(&self, read_lock: &AccountReadLocks) -> (n: usize)
        ensures
            n == count_true(read_lock.thread_set@),
    {
        let mut n: usize = 0;
        let mut i: usize = 0;
        while i < MAX_THREAD
            invariant
                i <= MAX_THREAD,
                n == count_true(read_lock.thread_set@.take(i as int).add(
                    Seq::new((MAX_THREAD - i) as nat, |j: int| false),
                )),
            decreases MAX_THREAD - i,
        {
            let ghost before = read_lock.thread_set@.take(i as int).add(
                Seq::new((MAX_THREAD - i) as nat, |j: int| false),
            );
            let ghost after = read_lock.thread_set@.take(i + 1).add(
                Seq::new((MAX_THREAD - i - 1) as nat, |j: int| false),
            );
            assert(after =~= before.update(i as int, read_lock.thread_set@[i as int]));
            if read_lock.thread_set[i] {
                n = n + 1;
            }
            i = i + 1;
        }
        assert(read_lock.thread_set@.take(MAX_THREAD as int).add(Seq::new(0, |j: int| false))
            =~= read_lock.thread_set@);
        n
    }

    /// The one thread holding read locks in `read`.
    ///
    /// A read-locked account can be written by a new transaction only on the
    /// single thread that reads it.
    pub fn handle_only_read_condition(&self, read: &AccountReadLocks) -> (r: Option<usize>)
        requires
            count_true(read.thread_set@) == 1,
        ensures
            r == Some(first_set(read.thread_set@)),
    {
        let mut true_indices: Vec<usize> = Vec::new();
        let mut i: usize = 0;
        while i < MAX_THREAD
            invariant
                i <= MAX_THREAD,
                count_true(read.thread_set@) == 1,
                forall|j: int| 0 <= j < true_indices.len() ==> read.thread_set@[#[trigger] true_indices@[j] as int],
                forall|j: int| 0 <= j < true_indices.len() ==> true_indices@[j] < i,
                forall|j: int, l: int| 0 <= j < l < true_indices.len() ==> true_indices@[j] < true_indices@[l],
                forall|j: int| 0 <= j < i && read.thread_set@[j] ==> true_indices@.contains(j as usize),
            decreases MAX_THREAD - i,
        {
            if read.thread_set[i] {
                true_indices.push(i);
                assert(true_indices@[true_indices.len() - 1] == i);
            }
            i = i + 1;
        }
        let ghost f = first_set(read.thread_set@);
        assert(read.thread_set@[f as int]);
        assert(true_indices@.contains(f));
        if true_indices.len() == 1 {
            assert(true_indices@[0] == f);
            Some(true_indices[0])
        } else {
            proof {
                assert(true_indices.len() >= 2);
                let a = true_indices@[0];
                let b = true_indices@[1];
                assert(read.thread_set@[a as int] && read.thread_set@[b as int] && a < b);
                assert(false);
            }
            None
        }
    }

    /// The thread that `account` ties a transaction to, if the transaction
    /// writes it (`for_write`) or only reads it.
    ///
    /// An account without locks ties it to no thread (`UNCONSTRAINED_THREAD`);
    /// a write-locked account to the writing thread; a read-only-locked
    /// account to its single reader when written, or to `ANY_THREAD` when read.
    pub fn schedule_on_threads(&mut self, account: Pubkey, for_write: bool) -> (r: Option<usize>)
        requires
            old(self).wf(),
            schedule_allowed(old(self).table().get(account@), for_write),
        ensures
            *final(self) == *old(self),
            r == Some(scheduled_thread(old(self).table().get(account@), for_write)),
    {
        match self.locks_of(&account) {
            None => Some(UNCONSTRAINED_THREAD),
            Some(l) => match (l.write_lock, l.read_lock) {
                (Some(w), None) => Some(w.thread_id),
                (Some(w), Some(_)) => Some(w.thread_id),
                (None, Some(rl)) => {
                    if !for_write {
                        Some(ANY_THREAD)
                    } else {
                        self.handle_only_read_condition(&rl)
                    }
                },
                (None, None) => {
                    proof {
                        assert(self.table().contains_key(account@));
                    }
                    None
                },
            },
        }
    }
}

impl ThreadAwareLocks {
    /// Whether a write lock by thread `t` on `account` would not conflict.
    pub fn write_lock_permitted(&self, account: &Pubkey, t: ThreadId) -> (b: bool)
        requires
            self.wf(),
        ensures
            b == write_allowed(self.table().get(account@), t),
    {
        match self.locks_of(account) {
            None => true,
            Some(l) => {
                let read_ok = match l.read_lock {
                    None => true,
                    Some(r) => {
                        let ok = t < MAX_THREAD && r.thread_set[0] == (t == 0) && r.thread_set[1]
                            == (t == 1) && r.thread_set[2] == (t == 2) && r.thread_set[3] == (t
                            == 3);
                        proof {
                            if ok {
                                assert(r.thread_set@ =~= only_thread(t as int));
                            } else if t < MAX_THREAD {
                                assert(r.thread_set@ != only_thread(t as int)) by {
                                    if r.thread_set@ == only_thread(t as int) {
                                        assert(r.thread_set@[0] == only_thread(t as int)[0]);
                                        assert(r.thread_set@[1] == only_thread(t as int)[1]);
                                        assert(r.thread_set@[2] == only_thread(t as int)[2]);
                                        assert(r.thread_set@[3] == only_thread(t as int)[3]);
                                    }
                                }
                            }
                        }
                        ok
                    },
                };
                let write_ok = match l.write_lock {
                    None => true,
                    Some(w) => w.thread_id == t && w.lock_count < u32::MAX,
                };
                read_ok && write_ok
            },
        }
    }

    /// Whether a read lock by thread `t` on `account` would not conflict.
    pub fn read_lock_permitted(&self, account: &Pubkey, t: ThreadId) -> (b: bool)
        requires
            self.wf(),
        ensures
            b == read_allowed(self.table().get(account@), t),
    {
        if t >= MAX_THREAD {
            return false;
        }
        match self.locks_of(account) {
            None => true,
            Some(l) => {
                let write_ok = match l.write_lock {
                    None => true,
                    Some(w) => w.thread_id == t,
                };
                let read_ok = match l.read_lock {
                    None => true,
                    Some(r) => r.lock_count[t] < u32::MAX,
                };
                write_ok && read_ok
            },
        }
    }

    /// Whether `account` can be scheduled, for writing or for reading, without a conflict.
    pub fn schedule_permitted(&self, account: &Pubkey, for_write: bool) -> (b: bool)
        requires
            self.wf(),
        ensures
            b == schedule_allowed(self.table().get(account@), for_write),
    {
        match self.locks_of(account) {
            None => true,
            Some(l) => match (l.write_lock, l.read_lock) {
                (None, Some(r)) => !for_write || self.convert_thread_set_into_single_thread_id(&r) == 1,
                _ => true,
            },
        }
    }

    fn schedule_list_of(&mut self, write_account: &Vec<Pubkey>, read_account: &Vec<Pubkey>) -> (v: Vec<usize>)
        requires
            old(self).wf(),
            all_schedulable(old(self).table(), write_account@, read_account@),
        ensures
            *final(self) == *old(self),
            v@ == schedule_list(old(self).table(), write_account@, read_account@),
    {
        let ghost m = self.table();
        let mut v: Vec<usize> = Vec::new();
        let mut i: usize = 0;
        while i < write_account.len()
            invariant
                *self == *old(self),
                self.wf(),
                m == self.table(),
                all_schedulable(m, write_account@, read_account@),
                i <= write_account@.len(),
                v@ == write_account@.take(i as int).map_values(
                    |k: Pubkey| scheduled_thread(m.get(k@), true),
                ),
            decreases write_account@.len() - i,
        {
            assert(schedule_allowed(m.get(write_account@[i as int]@), true));
            let t = self.schedule_on_threads(write_account[i], true);
            v.push(t.unwrap());
            assert(v@ =~= write_account@.take(i + 1).map_values(
                |k: Pubkey| scheduled_thread(m.get(k@), true),
            ));
            i = i + 1;
        }
        let mut j: usize = 0;
        while j < read_account.len()
            invariant
                *self == *old(self),
                self.wf(),
                m == self.table(),
                all_schedulable(m, write_account@, read_account@),
                j <= read_account@.len(),
                v@ == write_account@.map_values(|k: Pubkey| scheduled_thread(m.get(k@), true))
                    + read_account@.take(j as int).map_values(
                    |k: Pubkey| scheduled_thread(m.get(k@), false),
                ),
            decreases read_account@.len() - j,
        {
            assert(schedule_allowed(m.get(read_account@[j as int]@), false));
            let t = self.schedule_on_threads(read_account[j], false);
            v.push(t.unwrap());
            assert(v@ =~= write_account@.map_values(|k: Pubkey| scheduled_thread(m.get(k@), true))
                + read_account@.take(j + 1).map_values(
                |k: Pubkey| scheduled_thread(m.get(k@), false),
            ));
            j = j + 1;
        }
        v
    }

    /// The thread each account ties a new transaction to: the written
    /// accounts first, then the read ones, in order.
    pub fn accounts_schedulable_threads(&mut self, write_account: Vec<Pubkey>, read_account: Vec<Pubkey>) -> (v: Vec<usize>)
        requires
            old(self).wf(),
            all_schedulable(old(self).table(), write_account@, read_account@),
        ensures
            *final(self) == *old(self),
            v@ == schedule_list(old(self).table(), write_account@, read_account@),
    {
        self.schedule_list_of(&write_account, &read_account)
    }

    /// Drops the accounts that tie to no thread; when none is left, the
    /// transaction can go to any thread (`[ANY_THREAD]`).
    pub fn simplefy_threads(&mut self, account_schedable_thread: Vec<usize>) -> (v: Vec<usize>)
        ensures
            *final(self) == *old(self),
            v@ == simplified(account_schedable_thread@),
    {
        let ghost s = account_schedable_thread@;
        let ghost pred = |x: usize| x != UNCONSTRAINED_THREAD;
        let mut kept: Vec<usize> = Vec::new();
        let mut i: usize = 0;
        while i < account_schedable_thread.len()
            invariant
                s == account_schedable_thread@,
                pred == (|x: usize| x != UNCONSTRAINED_THREAD),
                i <= s.len(),
                kept@ == s.take(i as int).filter(pred),
            decreases s.len() - i,
        {
            let x = account_schedable_thread[i];
            proof {
                assert(s.take(i + 1).drop_last() =~= s.take(i as int));
                reveal(Seq::filter);
            }
            if x != UNCONSTRAINED_THREAD {
                kept.push(x);
            }
            i = i + 1;
        }
        assert(s.take(s.len() as int) =~= s);
        if kept.len() == 0 {
            let mut any: Vec<usize> = Vec::new();
            any.push(ANY_THREAD);
            assert(any@ =~= seq![ANY_THREAD]);
            return any;
        }
        kept
    }

    /// Locks every account of `write_account` for writing and then every
    /// account of `read_account` for reading, all on thread `thread_id`.
    pub fn lock_account(&mut self, write_account: Vec<Pubkey>, read_account: Vec<Pubkey>, thread_id: ThreadId)
        requires
            old(self).wf(),
            thread_id < old(self).number_of_thread,
            writes_allowed(old(self).table(), write_account@, thread_id),
            reads_allowed(
                after_writes(old(self).table(), write_account@, thread_id),
                read_account@,
                thread_id,
            ),
        ensures
            final(self).wf(),
            final(self).number_of_thread == old(self).number_of_thread,
            final(self).table() == after_reads(
                after_writes(old(self).table(), write_account@, thread_id),
                read_account@,
                thread_id,
            ),
    {
        let ghost m0 = self.table();
        let mut i: usize = 0;
        while i < write_account.len()
            invariant
                self.wf(),
                self.number_of_thread == old(self).number_of_thread,
                i <= write_account@.len(),
                writes_allowed(m0, write_account@, thread_id),
                self.table() == after_writes(m0, write_account@.take(i as int), thread_id),
            decreases write_account@.len() - i,
        {
            proof {
                lemma_writes_prefix(m0, write_account@, thread_id, i as int);
                lemma_writes_step(m0, write_account@, thread_id, i as int);
            }
            self.write_lock_account(write_account[i], thread_id);
            i = i + 1;
        }
        assert(write_account@.take(write_account@.len() as int) =~= write_account@);
        let ghost m1 = self.table();
        let mut j: usize = 0;
        while j < read_account.len()
            invariant
                self.wf(),
                self.number_of_thread == old(self).number_of_thread,
                j <= read_account@.len(),
                reads_allowed(m1, read_account@, thread_id),
                self.table() == after_reads(m1, read_account@.take(j as int), thread_id),
            decreases read_account@.len() - j,
        {
            proof {
                lemma_reads_prefix(m1, read_account@, thread_id, j as int);
                lemma_reads_step(m1, read_account@, thread_id, j as int);
            }
            self.read_account_lock(read_account[j], thread_id);
            j = j + 1;
        }
        assert(read_account@.take(read_account@.len() as int) =~= read_account@);
    }

    /// Places a transaction that writes `write_account` and reads
    /// `read_account` on a thread and locks its accounts there; returns the thread.
    ///
    /// The thread is the first that the accounts tie the transaction to.
    pub fn try_lock_account(&mut self, write_account: Vec<Pubkey>, read_account: Vec<Pubkey>) -> (t: ThreadId)
        requires
            old(self).wf(),
            try_lock_allowed(old(self).table(), old(self).number_of_thread, write_account@, read_account@),
        ensures
            final(self).wf(),
            final(self).number_of_thread == old(self).number_of_thread,
            t == chosen_thread(old(self).table(), write_account@, read_account@),
            final(self).table() == after_reads(
                after_writes(old(self).table(), write_account@, t),
                read_account@,
                t,
            ),
    {
        let threads = self.schedule_list_of(&write_account, &read_account);
        let simple = self.simplefy_threads(threads);
        let t = simple[0];
        self.lock_account(write_account, read_account, t);
        t
    }
}

/// How many transactions have been placed on each worker thread.
#[derive(Debug)]
pub struct ThreadLoadCounter {
    pub load_counter: [u64; MAX_THREAD],
}

impl Default for ThreadLoadCounter {
    /// No transaction placed yet.
    fn default() -> (c: Self)
        ensures
            c.load_counter@ == seq![0u64, 0u64, 0u64, 0u64],
    {
        let c = ThreadLoadCounter { load_counter: [0u64; MAX_THREAD] };
        proof {
            broadcast use vstd::array::group_array_axioms;
        }
        assert(c.load_counter@ =~= seq![0u64, 0u64, 0u64, 0u64]);
        c
    }
}

/// The thread that an account ties a transaction to when the transaction is
/// placed: the writer's thread for a write-locked account; for a write of an
/// account read on one thread only, that thread; otherwise none
/// (`UNCONSTRAINED_THREAD`): readers may share an account across threads.
pub open spec fn placement_thread(e: Option<LocksView>, for_write: bool) -> usize {
    match e {
        None => UNCONSTRAINED_THREAD,
        Some(v) => match v.write {
            Some(w) => w.0,
            None => match v.read {
                Some(r) => if for_write {
                    first_set(r.0)
                } else {
                    UNCONSTRAINED_THREAD
                },
                None => UNCONSTRAINED_THREAD,
            },
        },
    }
}

/// The threads that the accounts tie a transaction to when it is placed:
/// written accounts first.
pub open spec fn placement_list(m: Map<Seq<u8>, LocksView>, ws: Seq<Pubkey>, rs: Seq<Pubkey>) -> Seq<usize> {
    ws.map_values(|k: Pubkey| placement_thread(m.get(k@), true)) + rs.map_values(
        |k: Pubkey| placement_thread(m.get(k@), false),
    )
}

/// The first thread of `s` that is not `UNCONSTRAINED_THREAD`, if any.
pub open spec fn first_constraint(s: Seq<usize>) -> Option<usize>
    decreases s.len(),
{
    if s.len() == 0 {
        None
    } else if s[0] != UNCONSTRAINED_THREAD {
        Some(s[0])
    } else {
        first_constraint(s.drop_first())
    }
}

/// Among the threads from `ANY_THREAD` up to `k - 1`, the least loaded, the
/// lowest of equally loaded ones; `ANY_THREAD` when there is no other.
pub open spec fn least_loaded_below(load: Seq<u64>, k: int) -> usize
    decreases k,
{
    if k <= ANY_THREAD + 1 {
        ANY_THREAD
    } else {
        let b = least_loaded_below(load, k - 1);
        if load[k - 1] < load[b as int] {
            (k - 1) as usize
        } else {
            b
        }
    }
}

/// The least loaded of the worker threads of `n` that the load counter covers.
pub open spec fn least_loaded(load: Seq<u64>, n: usize) -> usize {
    least_loaded_below(load, if n < MAX_THREAD { n as int } else { MAX_THREAD as int })
}

/// The thread a transaction writing `ws` and reading `rs` is placed on: the
/// first thread its accounts tie it to, or the least loaded thread when
/// none does.
pub open spec fn placed_thread(
    m: Map<Seq<u8>, LocksView>,
    ws: Seq<Pubkey>,
    rs: Seq<Pubkey>,
    load: Seq<u64>,
    n: usize,
) -> usize {
    match first_constraint(placement_list(m, ws, rs)) {
        Some(t) => t,
        None => least_loaded(load, n),
    }
}

/// A transaction writing `ws` and reading `rs` can be placed on one of `n`
/// threads, given the loads `load`, and locked there without a conflict.
pub open spec fn placement_allowed(
    m: Map<Seq<u8>, LocksView>,
    n: usize,
    ws: Seq<Pubkey>,
    rs: Seq<Pubkey>,
    load: Seq<u64>,
) -> bool {
    let t = placed_thread(m, ws, rs, load, n);
    &&& forall|i: int| 0 <= i < ws.len() ==> schedule_allowed(#[trigger] m.get(ws[i]@), true)
    &&& t < n
    &&& writes_allowed(m, ws, t)
    &&& reads_allowed(after_writes(m, ws, t), rs, t)
}

/// The loads after one more transaction on thread `t` (a full counter stays full).
pub open spec fn load_after(load: Seq<u64>, t: usize) -> Seq<u64> {
    if t < MAX_THREAD && load[t as int] < u64::MAX {
        load.update(t as int, (load[t as int] + 1) as u64)
    } else {
        load
    }
}

proof fn lemma_first_constraint_skip(s: Seq<usize>, i: int)
    requires
        0 <= i < s.len(),
    ensures
        first_constraint(s.skip(i)) == if s[i] != UNCONSTRAINED_THREAD {
            Some(s[i])
        } else {
            first_constraint(s.skip(i + 1))
        },
{
    assert(s.skip(i).drop_first() =~= s.skip(i + 1));
}

/// The first thread of `s` that is not `UNCONSTRAINED_THREAD`, if any.
fn first_constraint_of(s: &Vec<usize>) -> (r: Option<usize>)
    ensures
        r == first_constraint(s@),
{
    let mut i: usize = 0;
    assert(s@.skip(0) =~= s@);
    while i < s.len()
        invariant
            i <= s@.len(),
            first_constraint(s@.skip(i as int)) == first_constraint(s@),
        decreases s@.len() - i,
    {
        proof {
            lemma_first_constraint_skip(s@, i as int);
        }
        if s[i] != UNCONSTRAINED_THREAD {
            return Some(s[i]);
        }
        i = i + 1;
    }
    assert(s@.skip(i as int).len() == 0);
    None
}

impl ThreadLoadCounter {
    /// The least loaded of the worker threads of `number_of_thread` that the
    /// counter covers, the lowest of equally loaded ones.
    pub fn least_loaded_thread(&self, number_of_thread: usize) -> (t: usize)
        ensures
            t == least_loaded(self.load_counter@, number_of_thread),
            ANY_THREAD <= t < MAX_THREAD,
    {
        let k = if number_of_thread < MAX_THREAD {
            number_of_thread
        } else {
            MAX_THREAD
        };
        let mut best: usize = ANY_THREAD;
        let mut i: usize = ANY_THREAD + 1;
        while i < k
            invariant
                k <= MAX_THREAD,
                ANY_THREAD + 1 <= i,
                i <= k || k <= ANY_THREAD + 1,
                k <= ANY_THREAD + 1 ==> i == ANY_THREAD + 1,
                best == least_loaded_below(self.load_counter@, i as int),
                ANY_THREAD <= best < MAX_THREAD,
                best < i,
            decreases k - i,
        {
            if self.load_counter[i] < self.load_counter[best] {
                best = i;
            }
            i = i + 1;
        }
        proof {
            if k <= ANY_THREAD + 1 {
                assert(least_loaded_below(self.load_counter@, k as int) == ANY_THREAD);
                assert(least_loaded_below(self.load_counter@, i as int) == ANY_THREAD);
            } else {
                assert(i == k);
            }
            assert(least_loaded(self.load_counter@, number_of_thread) == least_loaded_below(
                self.load_counter@,
                k as int,
            ));
        }
        best
    }

    /// Counts one more transaction on thread `t` (a full counter stays full).
    pub fn record_placement(&mut self, t: usize)
        ensures
            final(self).load_counter@ == load_after(old(self).load_counter@, t),
    {
        if t < MAX_THREAD && self.load_counter[t] < u64::MAX {
            self.load_counter[t] = self.load_counter[t] + 1;
            assert(self.load_counter@ =~= load_after(old(self).load_counter@, t));
        }
    }
}

impl ThreadAwareLocks {
    /// The threads the accounts tie a transaction to when it is placed:
    /// written accounts first, then the read ones, in order.
    fn placement_list_of(&self, write_account: &Vec<Pubkey>, read_account: &Vec<Pubkey>) -> (v: Vec<usize>)
        requires
            self.wf(),
            forall|i: int| 0 <= i < write_account@.len() ==> schedule_allowed(#[trigger] self.table().get(write_account@[i]@), true),
        ensures
            v@ == placement_list(self.table(), write_account@, read_account@),
    {
        let ghost m = self.table();
        let mut v: Vec<usize> = Vec::new();
        let mut i: usize = 0;
        while i < write_account.len()
            invariant
                self.wf(),
                m == self.table(),
                forall|x: int| 0 <= x < write_account@.len() ==> schedule_allowed(#[trigger] m.get(write_account@[x]@), true),
                i <= write_account@.len(),
                v@ == write_account@.take(i as int).map_values(|k: Pubkey| placement_thread(m.get(k@), true)),
            decreases write_account@.len() - i,
        {
            assert(schedule_allowed(m.get(write_account@[i as int]@), true));
            let t = match self.locks_of(&write_account[i]) {
                None => UNCONSTRAINED_THREAD,
                Some(l) => match (l.write_lock, l.read_lock) {
                    (Some(w), _) => w.thread_id,
                    (None, Some(r)) => self.handle_only_read_condition(&r).unwrap(),
                    (None, None) => UNCONSTRAINED_THREAD,
                },
            };
            v.push(t);
            assert(v@ =~= write_account@.take(i + 1).map_values(|k: Pubkey| placement_thread(m.get(k@), true)));
            i = i + 1;
        }
        assert(write_account@.take(write_account@.len() as int) =~= write_account@);
        let mut j: usize = 0;
        while j < read_account.len()
            invariant
                self.wf(),
                m == self.table(),
                j <= read_account@.len(),
                v@ == write_account@.map_values(|k: Pubkey| placement_thread(m.get(k@), true))
                    + read_account@.take(j as int).map_values(|k: Pubkey| placement_thread(m.get(k@), false)),
            decreases read_account@.len() - j,
        {
            let t = match self.locks_of(&read_account[j]) {
                Some(l) => match l.write_lock {
                    Some(w) => w.thread_id,
                    None => UNCONSTRAINED_THREAD,
                },
                None => UNCONSTRAINED_THREAD,
            };
            v.push(t);
            assert(v@ =~= write_account@.map_values(|k: Pubkey| placement_thread(m.get(k@), true))
                + read_account@.take(j + 1).map_values(|k: Pubkey| placement_thread(m.get(k@), false)));
            j = j + 1;
        }
        assert(read_account@.take(read_account@.len() as int) =~= read_account@);
        v
    }

    /// Places a transaction that writes `write_account` and reads
    /// `read_account` and locks its accounts there, counting it in
    /// `thread_load_counter`; returns the thread. The thread is the first
    /// that the accounts tie the transaction to, or, when none does, the
    /// least loaded one. Returns `None` and leaves locks and counter
    /// untouched when the transaction cannot be placed and locked without a conflict.
    pub fn try_lock_account_or_defer(
        &mut self,
        write_account: Vec<Pubkey>,
        read_account: Vec<Pubkey>,
        thread_load_counter: &mut ThreadLoadCounter,
    ) -> (r: Option<ThreadId>)
        requires
            old(self).wf(),
        ensures
            final(self).wf(),
            final(self).number_of_thread == old(self).number_of_thread,
            r is Some <==> placement_allowed(
                old(self).table(),
                old(self).number_of_thread,
                write_account@,
                read_account@,
                old(thread_load_counter).load_counter@,
            ),
            r matches Some(t) ==> {
                &&& t == placed_thread(
                    old(self).table(),
                    write_account@,
                    read_account@,
                    old(thread_load_counter).load_counter@,
                    old(self).number_of_thread,
                )
                &&& final(self).table() == after_reads(
                    after_writes(old(self).table(), write_account@, t),
                    read_account@,
                    t,
                )
                &&& final(thread_load_counter).load_counter@ == load_after(
                    old(thread_load_counter).load_counter@,
                    t,
                )
            },
            r is None ==> *final(self) == *old(self) && *final(thread_load_counter) == *old(thread_load_counter),
    {
        let ghost m0 = self.table();
        let ghost ws = write_account@;
        let ghost rs = read_account@;
        let ghost load = thread_load_counter.load_counter@;
        let mut i: usize = 0;
        while i < write_account.len()
            invariant
                *self == *old(self),
                self.wf(),
                m0 == self.table(),
                ws == write_account@,
                i <= ws.len(),
                forall|j: int| 0 <= j < i ==> schedule_allowed(#[trigger] m0.get(ws[j]@), true),
            decreases ws.len() - i,
        {
            if !self.schedule_permitted(&write_account[i], true) {
                assert(!schedule_allowed(m0.get(ws[i as int]@), true));
                return None;
            }
            i = i + 1;
        }
        let threads = self.placement_list_of(&write_account, &read_account);
        let t = match first_constraint_of(&threads) {
            Some(c) => c,
            None => thread_load_counter.least_loaded_thread(self.number_of_thread),
        };
        assert(t == placed_thread(m0, ws, rs, load, self.number_of_thread));
        if t >= self.number_of_thread {
            return None;
        }
        let mut scratch = ThreadAwareLocks {
            number_of_thread: self.number_of_thread,
            locks: self.locks.duplicate(),
        };
        assert(scratch.table() == m0);
        let mut i: usize = 0;
        while i < write_account.len()
            invariant
                *self == *old(self),
                self.wf(),
                m0 == self.table(),
                rs == read_account@,
                t == placed_thread(m0, ws, rs, load, self.number_of_thread),
                load == old(thread_load_counter).load_counter@,
                *thread_load_counter == *old(thread_load_counter),
                forall|j: int| 0 <= j < ws.len() ==> schedule_allowed(#[trigger] m0.get(ws[j]@), true),
                t < self.number_of_thread,
                scratch.wf(),
                scratch.number_of_thread == self.number_of_thread,
                ws == write_account@,
                i <= ws.len(),
                writes_allowed(m0, ws.take(i as int), t),
                scratch.table() == after_writes(m0, ws.take(i as int), t),
            decreases ws.len() - i,
        {
            if !scratch.write_lock_permitted(&write_account[i], t) {
                proof {
                    lemma_writes_blocked(m0, ws, t, i as int);
                }
                return None;
            }
            proof {
                lemma_writes_step(m0, ws, t, i as int);
                assert(ws.take(i + 1).drop_last() =~= ws.take(i as int));
            }
            scratch.write_lock_account(write_account[i], t);
            i = i + 1;
        }
        assert(ws.take(ws.len() as int) =~= ws);
        let ghost m1 = scratch.table();
        let mut j: usize = 0;
        while j < read_account.len()
            invariant
                *self == *old(self),
                self.wf(),
                m0 == self.table(),
                t == placed_thread(m0, ws, rs, load, self.number_of_thread),
                load == old(thread_load_counter).load_counter@,
                *thread_load_counter == *old(thread_load_counter),
                forall|x: int| 0 <= x < ws.len() ==> schedule_allowed(#[trigger] m0.get(ws[x]@), true),
                t < self.number_of_thread,
                ws == write_account@,
                writes_allowed(m0, ws, t),
                m1 == after_writes(m0, ws, t),
                scratch.wf(),
                scratch.number_of_thread == self.number_of_thread,
                rs == read_account@,
                j <= rs.len(),
                reads_allowed(m1, rs.take(j as int), t),
                scratch.table() == after_reads(m1, rs.take(j as int), t),
            decreases rs.len() - j,
        {
            if !scratch.read_lock_permitted(&read_account[j], t) {
                proof {
                    lemma_reads_blocked(m1, rs, t, j as int);
                }
                return None;
            }
            proof {
                lemma_reads_step(m1, rs, t, j as int);
                assert(rs.take(j + 1).drop_last() =~= rs.take(j as int));
            }
            scratch.read_account_lock(read_account[j], t);
            j = j + 1;
        }
        assert(rs.take(rs.len() as int) =~= rs);
        self.locks = scratch.locks;
        thread_load_counter.record_placement(t);
        Some(t)
    }
}

} // verus!
