//! The accounts of a transaction and the privileges that each instruction
//! grants them.

use crate::assoc_map::lemma_first_index;
use crate::processor::transaction::copy_all;
use crate::pubkey::Pubkey;
use vstd::prelude::*;

verus! {

/// An account as one instruction sees it.
#[derive(Debug, Clone, Copy)]
pub struct InstructionAccount {
    pub index_in_transaction: usize,
    pub index_in_caller: usize,
    pub index_in_callee: Option<usize>,
    pub is_writeable: bool,
    pub is_signer: bool,
}

/// The accounts of the instructions of a transaction, in order.
#[derive(Debug)]
pub struct InstructionContext {
    pub instruction_accounts: Vec<InstructionAccount>,
}

/// The accounts of a transaction and the trace of its instructions.
#[derive(Debug)]
pub struct TransactionContext {
    pub account_keys: Vec<Pubkey>,
    pub instruction_trace: Vec<InstructionContext>,
}

impl Clone for InstructionContext {
    fn clone(&self) -> (c: Self)
        ensures
            c.instruction_accounts@ == self.instruction_accounts@,
    {
        let v = copy_all(&self.instruction_accounts);
        InstructionContext { instruction_accounts: v }
    }
}

impl Default for InstructionContext {
    fn default() -> (c: Self)
        ensures
            c.instruction_accounts@ == Seq::<InstructionAccount>::empty(),
    {
        Self { instruction_accounts: Vec::new() }
    }
}

impl Default for TransactionContext {
    fn default() -> (c: Self)
        ensures
            c.account_keys@ == Seq::<Pubkey>::empty(),
            c.instruction_trace@ == Seq::<InstructionContext>::empty(),
    {
        Self { account_keys: Vec::new(), instruction_trace: Vec::new() }
    }
}

/// `keys` holds address `a`.
pub open spec fn has_key(keys: Seq<Pubkey>, a: Pubkey) -> bool {
    exists|i: int| 0 <= i < keys.len() && keys[i]@ == a@
}

/// The first position of address `a` in `keys`.
pub open spec fn position_of(keys: Seq<Pubkey>, a: Pubkey) -> int {
    choose|i: int| 0 <= i < keys.len() && keys[i]@ == a@ && forall|j: int| 0 <= j < i ==> keys[j]@ != a@
}

/// A list that holds `a` has a first position of it.
pub proof fn lemma_position_of(keys: Seq<Pubkey>, a: Pubkey)
    requires
        has_key(keys, a),
    ensures
        0 <= position_of(keys, a) < keys.len(),
        keys[position_of(keys, a)]@ == a@,
        forall|j: int| 0 <= j < position_of(keys, a) ==> keys[j]@ != a@,
{
    let p = |k: Pubkey| k@ == a@;
    let k = choose|i: int| 0 <= i < keys.len() && keys[i]@ == a@;
    assert(p(keys[k]));
    lemma_first_index(keys, p);
    let f = choose|i: int| 0 <= i < keys.len() && p(keys[i]) && forall|j: int| 0 <= j < i ==> !p(keys[j]);
    assert(0 <= f < keys.len() && keys[f]@ == a@ && forall|j: int| 0 <= j < f ==> keys[j]@ != a@);
}

/// The account that first introduces a transaction account into an instruction.
pub open spec fn native_account(index: usize) -> InstructionAccount {
    InstructionAccount {
        index_in_transaction: index,
        index_in_caller: 0,
        index_in_callee: None,
        is_writeable: true,
        is_signer: true,
    }
}

/// The account that repeats an already introduced transaction account.
pub open spec fn main_account(index: usize, height: usize) -> InstructionAccount {
    InstructionAccount {
        index_in_transaction: index,
        index_in_caller: height,
        index_in_callee: Some(0),
        is_writeable: true,
        is_signer: false,
    }
}

/// Some account before position `i` of `accs` sits at transaction position `x`.
#[verifier::opaque]
pub open spec fn seen_before(keys: Seq<Pubkey>, accs: Seq<Pubkey>, i: int, x: usize) -> bool {
    exists|j: int| 0 <= j < i && position_of(keys, accs[j]) == x
}

/// The instruction accounts after `create_native_and_main_ins_account` on
/// `accs`, starting from `base`: each account's first occurrence is
/// introduced as writable signer, each repetition as writable non-signer
/// pointing at the stack height.
pub open spec fn built_accounts(keys: Seq<Pubkey>, accs: Seq<Pubkey>, base: Seq<InstructionAccount>) -> Seq<
    InstructionAccount,
>
    decreases accs.len(),
{
    if accs.len() == 0 {
        base
    } else {
        let prev = built_accounts(keys, accs.drop_last(), base);
        let idx = position_of(keys, accs.last()) as usize;
        if seen_before(keys, accs, accs.len() - 1, idx) {
            prev.push(main_account(idx, prev.len() as usize))
        } else {
            prev.push(native_account(idx))
        }
    }
}

/// The first account of `ias` that introduces transaction account `idx`.
pub open spec fn native_of(ias: Seq<InstructionAccount>, idx: usize) -> Option<InstructionAccount> {
    if exists|i: int| 0 <= i < ias.len() && ias[i].index_in_callee is None && ias[i].index_in_transaction == idx {
        let i = choose|i: int|
            0 <= i < ias.len() && ias[i].index_in_callee is None && ias[i].index_in_transaction == idx
                && forall|j: int|
                0 <= j < i ==> !(ias[j].index_in_callee is None && ias[j].index_in_transaction == idx);
        Some(ias[i])
    } else {
        None
    }
}

proof fn lemma_native_of(ias: Seq<InstructionAccount>, idx: usize)
    requires
        exists|i: int| 0 <= i < ias.len() && ias[i].index_in_callee is None && ias[i].index_in_transaction == idx,
    ensures
        exists|i: int|
            0 <= i < ias.len() && ias[i].index_in_callee is None && ias[i].index_in_transaction == idx
                && forall|j: int|
                0 <= j < i ==> !(ias[j].index_in_callee is None && ias[j].index_in_transaction == idx),
{
    let p = |a: InstructionAccount| a.index_in_callee is None && a.index_in_transaction == idx;
    let k = choose|i: int| 0 <= i < ias.len() && ias[i].index_in_callee is None && ias[i].index_in_transaction == idx;
    assert(p(ias[k]));
    lemma_first_index(ias, p);
    let f = choose|i: int| 0 <= i < ias.len() && p(ias[i]) && forall|j: int| 0 <= j < i ==> !p(ias[j]);
    assert(0 <= f < ias.len() && ias[f].index_in_callee is None && ias[f].index_in_transaction == idx
        && forall|j: int| 0 <= j < f ==> !(ias[j].index_in_callee is None && ias[j].index_in_transaction == idx));
}

/// Checking account `a` against the instruction accounts `ias` finds no
/// escalated privilege: no instruction account is writable or a signer
/// where `a`'s introducing account is not.
pub open spec fn privileges_match(keys: Seq<Pubkey>, ias: Seq<InstructionAccount>, a: Pubkey) -> bool {
    ias.len() == 0 || ({
        &&& has_key(keys, a)
        &&& native_of(ias, position_of(keys, a) as usize) matches Some(n) && forall|i: int|
            0 <= i < ias.len() ==> ((#[trigger] ias[i]).is_writeable ==> n.is_writeable) && (ias[i].is_signer
                ==> n.is_signer)
    })
}

proof fn lemma_seen_step(keys: Seq<Pubkey>, accs: Seq<Pubkey>, i: int, x: usize)
    requires
        0 <= i < accs.len(),
    ensures
        seen_before(keys, accs, i + 1, x) <==> (seen_before(keys, accs, i, x) || position_of(keys, accs[i]) == x),
{
    reveal(seen_before);
}

proof fn lemma_push_contains(s: Seq<usize>, v: usize, x: usize)
    ensures
        s.push(v).contains(x) <==> (s.contains(x) || x == v),
{
    if s.contains(x) {
        let y = choose|y: int| 0 <= y < s.len() && s[y] == x;
        assert(s.push(v)[y] == x);
    }
    if x == v {
        assert(s.push(v)[s.len() as int] == x);
    }
    if s.push(v).contains(x) && x != v {
        let y = choose|y: int| 0 <= y < s.push(v).len() && s.push(v)[y] == x;
        assert(s[y] == x);
    }
}

/// One more account extends the built accounts by one entry: a repetition
/// when an earlier account has the same position, an introduction otherwise.
proof fn lemma_built_step(keys: Seq<Pubkey>, accs: Seq<Pubkey>, base: Seq<InstructionAccount>, i: int)
    requires
        0 <= i < accs.len(),
    ensures
        ({
            let prev = built_accounts(keys, accs.take(i), base);
            let idx = position_of(keys, accs[i]) as usize;
            built_accounts(keys, accs.take(i + 1), base) == if seen_before(keys, accs, i, idx) {
                prev.push(main_account(idx, prev.len() as usize))
            } else {
                prev.push(native_account(idx))
            }
        }),
{
    let pre = accs.take(i + 1);
    assert(pre.drop_last() =~= accs.take(i));
    assert(pre.last() == accs[i]);
    let idx = position_of(keys, accs[i]) as usize;
    assert(seen_before(keys, pre, pre.len() - 1, idx) <==> seen_before(keys, accs, i, idx)) by {
        reveal(seen_before);
        if seen_before(keys, pre, pre.len() - 1, idx) {
            let j = choose|j: int| 0 <= j < pre.len() - 1 && position_of(keys, pre[j]) == idx;
            assert(pre[j] == accs[j]);
        }
        if seen_before(keys, accs, i, idx) {
            let j = choose|j: int| 0 <= j < i && position_of(keys, accs[j]) == idx;
            assert(pre[j] == accs[j]);
        }
    }
}

impl InstructionContext {
    /// Appends an instruction account.
    pub fn add_instruction_context(&mut self, instruction_account: InstructionAccount)
        ensures
            final(self).instruction_accounts@ == old(self).instruction_accounts@.push(instruction_account),
    {
        self.instruction_accounts.push(instruction_account);
    }

    /// How many instruction accounts there are.
    pub fn get_context_stack_height(&mut self) -> (n: usize)
        ensures
            *final(self) == *old(self),
            n == old(self).instruction_accounts@.len(),
    {
        return self.instruction_accounts.len();
    }

    /// Appends the account that introduces transaction account `index_in_transaction`.
    pub fn create_native_instruction_account_for_transaction(
        &mut self,
        index_in_transaction: usize,
        is_signer: bool,
        is_writeable: bool,
    )
        ensures
            final(self).instruction_accounts@ == old(self).instruction_accounts@.push(
                InstructionAccount {
                    index_in_transaction,
                    index_in_caller: 0,
                    index_in_callee: None,
                    is_writeable,
                    is_signer,
                },
            ),
    {
        let instruction_account = InstructionAccount {
            index_in_transaction,
            index_in_caller: 0,
            index_in_callee: None,
            is_signer,
            is_writeable,
        };
        self.add_instruction_context(instruction_account);
    }

    /// Appends an account that repeats transaction account
    /// `index_in_transaction` at stack height `context_stack_height`.
    pub fn create_main_instruction_account_for_transaction(
        &mut self,
        index_in_transaction: usize,
        is_signer: bool,
        is_writeable: bool,
        context_stack_height: usize,
    )
        ensures
            final(self).instruction_accounts@ == old(self).instruction_accounts@.push(
                InstructionAccount {
                    index_in_transaction,
                    index_in_caller: context_stack_height,
                    index_in_callee: Some(0),
                    is_writeable,
                    is_signer,
                },
            ),
    {
        let instruction_account = InstructionAccount {
            index_in_transaction,
            index_in_caller: context_stack_height,
            index_in_callee: Some(0),
            is_signer,
            is_writeable,
        };
        self.add_instruction_context(instruction_account);
    }
}

/// Building all of `accs` is building its whole prefix.
proof fn lemma_built_whole(keys: Seq<Pubkey>, accs: Seq<Pubkey>, base: Seq<InstructionAccount>)
    ensures
        built_accounts(keys, accs.take(accs.len() as int), base) == built_accounts(keys, accs, base),
{
    assert(accs.take(accs.len() as int) =~= accs);
}

/// The positions seen after step `i`: those seen before, and the one of account `i`.
proof fn lemma_seen_update(
    keys: Seq<Pubkey>,
    accs: Seq<Pubkey>,
    i: int,
    d0: Seq<usize>,
    d1: Seq<usize>,
    idx: usize,
)
    requires
        0 <= i < accs.len(),
        idx == position_of(keys, accs[i]),
        forall|x: usize| #[trigger] d0.contains(x) <==> seen_before(keys, accs, i, x),
        d1 == (if d0.contains(idx) {
            d0
        } else {
            d0.push(idx)
        }),
    ensures
        forall|x: usize| #[trigger] d1.contains(x) <==> seen_before(keys, accs, i + 1, x),
{
    assert forall|x: usize| #[trigger] d1.contains(x) <==> seen_before(keys, accs, i + 1, x) by {
        lemma_push_contains(d0, idx, x);
        lemma_seen_step(keys, accs, i, x);
    }
}

fn contains_index(v: &Vec<usize>, x: usize) -> (b: bool)
    ensures
        b == v@.contains(x),
{
    let mut i: usize = 0;
    while i < v.len()
        invariant
            i <= v.len(),
            forall|j: int| 0 <= j < i ==> v@[j] != x,
        decreases v.len() - i,
    {
        if v[i] == x {
            return true;
        }
        i = i + 1;
    }
    false
}

impl TransactionContext {
    /// Sets the accounts of the transaction.
    pub fn fill_accounts(&mut self, account_keys: Vec<Pubkey>)
        ensures
            final(self).account_keys@ == account_keys@,
            final(self).instruction_trace@ == old(self).instruction_trace@,
    {
        self.account_keys = account_keys
    }

    /// The first position of `account` among the transaction's accounts, which must hold it.
    pub fn get_index_of_transaction(&mut self, account: &Pubkey) -> (i: usize)
        requires
            has_key(old(self).account_keys@, *account),
        ensures
            *final(self) == *old(self),
            i == position_of(old(self).account_keys@, *account),
    {
        proof {
            lemma_position_of(self.account_keys@, *account);
        }
        let mut i: usize = 0;
        while i < self.account_keys.len()
            invariant
                *self == *old(self),
                has_key(self.account_keys@, *account),
                0 <= position_of(self.account_keys@, *account) < self.account_keys@.len(),
                self.account_keys@[position_of(self.account_keys@, *account)]@ == account@,
                i <= position_of(self.account_keys@, *account),
                forall|j: int| 0 <= j < i ==> self.account_keys@[j]@ != account@,
            decreases self.account_keys@.len() - i,
        {
            if self.account_keys[i].same_key(account) {
                return i;
            }
            i = i + 1;
        }
        i
    }

    /// Appends to `instruction_context` one instruction account per account
    /// of `account_keys`: the first occurrence of each transaction account
    /// as a writable signer, repetitions as writable non-signers.
    #[verifier::spinoff_prover]
    pub fn create_native_and_main_ins_account(
        &mut self,
        account_keys: Vec<Pubkey>,
        instruction_context: &mut InstructionContext,
    )
        requires
            forall|i: int| 0 <= i < account_keys@.len() ==> has_key(old(self).account_keys@, #[trigger] account_keys@[i]),
        ensures
            *final(self) == *old(self),
            final(instruction_context).instruction_accounts@ == built_accounts(
                old(self).account_keys@,
                account_keys@,
                old(instruction_context).instruction_accounts@,
            ),
    {
        let ghost keys = self.account_keys@;
        let ghost base = instruction_context.instruction_accounts@;
        let mut duplicate_indicies: Vec<usize> = Vec::new();
        let mut i: usize = 0;
        assert forall|x: usize| #[trigger] duplicate_indicies@.contains(x) <==> seen_before(keys, account_keys@, 0, x) by {
            reveal(seen_before);
        }
        assert(built_accounts(keys, account_keys@.take(0), base) == base);
        while i < account_keys.len()
            invariant
                *self == *old(self),
                keys == self.account_keys@,
                i <= account_keys@.len(),
                forall|x: int| 0 <= x < account_keys@.len() ==> has_key(keys, #[trigger] account_keys@[x]),
                instruction_context.instruction_accounts@ == built_accounts(keys, account_keys@.take(i as int), base),
                forall|x: usize| #[trigger] duplicate_indicies@.contains(x) <==> seen_before(keys, account_keys@, i as int, x),
            decreases account_keys@.len() - i,
        {
            let account = account_keys[i];
            let index_in_transaction = self.get_index_of_transaction(&account);
            let stack_height = instruction_context.get_context_stack_height();
            proof {
                lemma_built_step(keys, account_keys@, base, i as int);
            }
            let ghost d0 = duplicate_indicies@;
            if contains_index(&duplicate_indicies, index_in_transaction) {
                instruction_context.create_main_instruction_account_for_transaction(
                    index_in_transaction,
                    false,
                    true,
                    stack_height,
                );
            } else {
                instruction_context.create_native_instruction_account_for_transaction(
                    index_in_transaction,
                    true,
                    true,
                );
                duplicate_indicies.push(index_in_transaction);
            }
            proof {
                lemma_seen_update(keys, account_keys@, i as int, d0, duplicate_indicies@, index_in_transaction);
            }
            i = i + 1;
        }
        proof {
            lemma_built_whole(keys, account_keys@, base);
        }
    }
}

impl TransactionContext {
    /// The first account of `instruction_context` that introduces `account`.
    pub fn get_native_ins_account(&mut self, instruction_context: InstructionContext, account: Pubkey) -> (r: Option<InstructionAccount>)
        requires
            has_key(old(self).account_keys@, account),
        ensures
            *final(self) == *old(self),
            r == native_of(
                instruction_context.instruction_accounts@,
                position_of(old(self).account_keys@, account) as usize,
            ),
    {
        let index_in_trasaction = self.get_index_of_transaction(&account);
        let ghost ias = instruction_context.instruction_accounts@;
        let mut i: usize = 0;
        while i < instruction_context.instruction_accounts.len()
            invariant
                *self == *old(self),
                index_in_trasaction == position_of(self.account_keys@, account),
                ias == instruction_context.instruction_accounts@,
                i <= ias.len(),
                forall|j: int| 0 <= j < i ==> !(ias[j].index_in_callee is None && ias[j].index_in_transaction
                    == index_in_trasaction),
            decreases ias.len() - i,
        {
            let native_instruction = instruction_context.instruction_accounts[i];
            if native_instruction.index_in_callee.is_none() && native_instruction.index_in_transaction
                == index_in_trasaction {
                proof {
                    lemma_native_of(ias, index_in_trasaction);
                    let k = choose|k: int|
                        0 <= k < ias.len() && ias[k].index_in_callee is None && ias[k].index_in_transaction
                            == index_in_trasaction && forall|j: int|
                            0 <= j < k ==> !(ias[j].index_in_callee is None && ias[j].index_in_transaction
                                == index_in_trasaction);
                    assert(k == i);
                }
                return Some(native_instruction);
            }
            i = i + 1;
        }
        None
    }

    /// Checks that no instruction account of `instruction_context` is
    /// writable or a signer where the account introducing `account` is not;
    /// such an escalated privilege is excluded by the requirement.
    pub fn check_for_accounts_permission_previlage_mismatch(
        &mut self,
        instruction_context: InstructionContext,
        account: Pubkey,
    )
        requires
            privileges_match(old(self).account_keys@, instruction_context.instruction_accounts@, account),
        ensures
            *final(self) == *old(self),
    {
        let ghost ias = instruction_context.instruction_accounts@;
        let mut i: usize = 0;
        while i < instruction_context.instruction_accounts.len()
            invariant
                *self == *old(self),
                ias == instruction_context.instruction_accounts@,
                privileges_match(self.account_keys@, ias, account),
                i <= ias.len(),
            decreases ias.len() - i,
        {
            let instruction_account = instruction_context.instruction_accounts[i];
            let native_instruction = self.get_native_ins_account(instruction_context.clone(), account).unwrap();
            assert(instruction_account.is_writeable ==> native_instruction.is_writeable);
            assert(instruction_account.is_signer ==> native_instruction.is_signer);
            i = i + 1;
        }
    }

    /// Adds the instruction accounts of `transaction_accounts` to
    /// `instruction_context` and checks every account's privileges.
    pub fn main(&mut self, instruction_context: &mut InstructionContext, transaction_accounts: Vec<Pubkey>)
        requires
            forall|i: int| 0 <= i < transaction_accounts@.len() ==> has_key(old(self).account_keys@, #[trigger] transaction_accounts@[i]),
            forall|i: int| 0 <= i < transaction_accounts@.len() ==> privileges_match(
                old(self).account_keys@,
                built_accounts(
                    old(self).account_keys@,
                    transaction_accounts@,
                    old(instruction_context).instruction_accounts@,
                ),
                #[trigger] transaction_accounts@[i],
            ),
        ensures
            *final(self) == *old(self),
            final(instruction_context).instruction_accounts@ == built_accounts(
                old(self).account_keys@,
                transaction_accounts@,
                old(instruction_context).instruction_accounts@,
            ),
    {
        self.create_native_and_main_ins_account(copy_all(&transaction_accounts), instruction_context);
        let mut i: usize = 0;
        while i < transaction_accounts.len()
            invariant
                *self == *old(self),
                i <= transaction_accounts@.len(),
                instruction_context.instruction_accounts@ == built_accounts(
                    old(self).account_keys@,
                    transaction_accounts@,
                    old(instruction_context).instruction_accounts@,
                ),
                forall|x: int| 0 <= x < transaction_accounts@.len() ==> privileges_match(
                    old(self).account_keys@,
                    instruction_context.instruction_accounts@,
                    #[trigger] transaction_accounts@[x],
                ),
            decreases transaction_accounts@.len() - i,
        {
            let account = transaction_accounts[i];
            assert(privileges_match(self.account_keys@, instruction_context.instruction_accounts@, transaction_accounts@[i as int]));
            self.check_for_accounts_permission_previlage_mismatch(instruction_context.clone(), account);
            i = i + 1;
        }
    }
}

/// Every built account is writable, and every introducing one (with no
/// callee) is also a signer.
proof fn lemma_built_signers(keys: Seq<Pubkey>, accs: Seq<Pubkey>)
    ensures
        built_accounts(keys, accs, Seq::empty()).len() == accs.len(),
        forall|x: int| 0 <= x < accs.len() ==> (#[trigger] built_accounts(keys, accs, Seq::empty())[x]).is_writeable,
        forall|x: int| 0 <= x < accs.len() ==> (#[trigger] built_accounts(keys, accs, Seq::empty())[x]).index_in_callee is None
            ==> built_accounts(keys, accs, Seq::empty())[x].is_signer,
    decreases accs.len(),
{
    if accs.len() > 0 {
        lemma_built_signers(keys, accs.drop_last());
    }
}

/// An account of the built list has an introducing account at `idx`.
pub open spec fn introduces(ias: Seq<InstructionAccount>, idx: usize) -> bool {
    exists|k: int| 0 <= k < ias.len() && ias[k].index_in_callee is None && ias[k].index_in_transaction == idx
}

proof fn lemma_introduces_push(ias: Seq<InstructionAccount>, e: InstructionAccount, idx: usize)
    requires
        introduces(ias, idx),
    ensures
        introduces(ias.push(e), idx),
{
    let k = choose|k: int| 0 <= k < ias.len() && ias[k].index_in_callee is None && ias[k].index_in_transaction == idx;
    assert(ias.push(e)[k] == ias[k]);
}

/// Every account of the transaction has an introducing account among the built ones.
#[verifier::spinoff_prover]
#[verifier::rlimit(100)]
proof fn lemma_built_native(keys: Seq<Pubkey>, accs: Seq<Pubkey>, i: int)
    requires
        forall|x: int| 0 <= x < accs.len() ==> has_key(keys, #[trigger] accs[x]),
        0 <= i < accs.len(),
    ensures
        introduces(built_accounts(keys, accs, Seq::empty()), position_of(keys, accs[i]) as usize),
    decreases accs.len(),
{
    let p = accs.drop_last();
    let bp = built_accounts(keys, p, Seq::empty());
    let idx = position_of(keys, accs.last()) as usize;
    let e = if seen_before(keys, accs, accs.len() - 1, idx) {
        main_account(idx, bp.len() as usize)
    } else {
        native_account(idx)
    };
    assert(built_accounts(keys, accs, Seq::empty()) == bp.push(e));
    assert forall|x: int| 0 <= x < p.len() implies has_key(keys, #[trigger] p[x]) by {
        assert(p[x] == accs[x]);
    }
    if i < accs.len() - 1 {
        assert(p[i] == accs[i]);
        lemma_built_native(keys, p, i);
        lemma_introduces_push(bp, e, position_of(keys, accs[i]) as usize);
    } else if seen_before(keys, accs, accs.len() - 1, idx) {
        reveal(seen_before);
        let j = choose|j: int| 0 <= j < accs.len() - 1 && position_of(keys, accs[j]) == idx;
        assert(p[j] == accs[j]);
        lemma_built_native(keys, p, j);
        lemma_introduces_push(bp, e, idx);
    } else {
        assert(bp.push(e)[bp.len() as int] == native_account(idx));
    }
}

/// Where every introducing account is a writable signer, so is the one
/// that introduces `idx`, if any does.
proof fn lemma_native_privileges(ias: Seq<InstructionAccount>, idx: usize)
    requires
        introduces(ias, idx),
        forall|x: int| 0 <= x < ias.len() && (#[trigger] ias[x]).index_in_callee is None ==> ias[x].is_signer
            && ias[x].is_writeable,
    ensures
        native_of(ias, idx) matches Some(n) && n.is_signer && n.is_writeable,
{
    lemma_native_of(ias, idx);
}

/// Building the instruction accounts of any transaction whose accounts are
/// all known, repeated or not, and checking each of its accounts escalates
/// no privilege: every built account is writable and every introducing
/// account is a writable signer.
#[verifier::spinoff_prover]
pub proof fn law_known_accounts_pass_privilege_check(keys: Seq<Pubkey>, accs: Seq<Pubkey>)
    requires
        forall|i: int| 0 <= i < accs.len() ==> has_key(keys, #[trigger] accs[i]),
    ensures
        forall|i: int| 0 <= i < accs.len() ==> privileges_match(
            keys,
            built_accounts(keys, accs, Seq::empty()),
            #[trigger] accs[i],
        ),
{
    lemma_built_signers(keys, accs);
    let ias = built_accounts(keys, accs, Seq::empty());
    assert forall|i: int| 0 <= i < accs.len() implies privileges_match(keys, ias, #[trigger] accs[i]) by {
        let idx = position_of(keys, accs[i]) as usize;
        lemma_built_native(keys, accs, i);
        lemma_native_privileges(ias, idx);
    }
}

} // verus!
