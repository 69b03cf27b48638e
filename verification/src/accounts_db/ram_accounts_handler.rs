//! The in-memory account store.

use crate::accounts_db::disk_accounts_handler::AccountInFile;
use crate::assoc_map::AssocMap;
use crate::processor::instruction::{
    associated_token_address, associated_token_address_of, packed_token_account, token_account_bytes,
    token_program_id, token_program_id_bytes, zeros, TOKEN_ACCOUNT_LEN,
};
use crate::processor::transaction::copy_all;
use crate::pubkey::Pubkey;
use vstd::prelude::*;

verus! {

/// Lamports that a newly created account starts with.
pub const DEFAULT_ACCOUNT_LAMPORTS: u64 = 100_000_000;

/// An account: its lamports, its data and the program that owns it.
#[derive(PartialEq, Eq, Debug)]
pub struct AccountSharedData {
    /// lamports in the account
    pub lamports: u64,
    /// data held in this account
    pub data: Vec<u8>,
    /// the program that owns this account
    pub owner: Pubkey,
}

/// An account as plain values: lamports, data and owner.
pub type AccountView = (u64, Seq<u8>, Seq<u8>);

impl View for AccountSharedData {
    type V = AccountView;

    open spec fn view(&self) -> AccountView {
        (self.lamports, self.data@, self.owner@)
    }
}

impl Clone for AccountSharedData {
    fn clone(&self) -> (c: Self)
        ensures
            c@ == self@,
            c.owner == self.owner,
    {
        let data = copy_all(&self.data);
        AccountSharedData { lamports: self.lamports, data, owner: self.owner }
    }
}

impl Default for AccountSharedData {
    /// An account with no lamports, no data and the all-zero owner.
    fn default() -> (a: Self)
        ensures
            a@ == (0u64, Seq::<u8>::empty(), zeros(32)),
    {
        let a = AccountSharedData { lamports: 0, data: Vec::new(), owner: Pubkey { bytes: [0u8; 32] } };
        proof {
            broadcast use vstd::array::group_array_axioms;
        }
        assert(a.owner@ =~= zeros(32));
        a
    }
}

/// `space` zero bytes.
pub fn zero_bytes(space: usize) -> (v: Vec<u8>)
    ensures
        v@ == zeros(space as nat),
{
    let v = vec![0u8; space];
    assert(v@ =~= zeros(space as nat));
    v
}

/// All accounts held in memory, by address.
#[derive(Debug)]
pub struct AccountsDB {
    pub key: AssocMap<Pubkey, AccountSharedData>,
}

impl Default for AccountsDB {
    /// An empty store.
    fn default() -> (db: Self)
        ensures
            db.key.wf(),
            db.accounts() == Map::<Seq<u8>, AccountView>::empty(),
    {
        let db = AccountsDB { key: AssocMap::new() };
        assert(db.accounts() =~= Map::<Seq<u8>, AccountView>::empty());
        db
    }
}

/// The sum of the lamports of a list of accounts.
pub open spec fn total_lamports(s: Seq<(Pubkey, AccountSharedData)>) -> int
    decreases s.len(),
{
    if s.len() == 0 {
        0
    } else {
        total_lamports(s.drop_last()) + s.last().1.lamports
    }
}

/// Changing the lamports of one account changes the sum by the difference.
pub proof fn lemma_total_lamports_update(
    s: Seq<(Pubkey, AccountSharedData)>,
    i: int,
    e: (Pubkey, AccountSharedData),
)
    requires
        0 <= i < s.len(),
    ensures
        total_lamports(s.update(i, e)) == total_lamports(s) - s[i].1.lamports + e.1.lamports,
    decreases s.len(),
{
    if i < s.len() - 1 {
        lemma_total_lamports_update(s.drop_last(), i, e);
        assert(s.update(i, e).drop_last() =~= s.drop_last().update(i, e));
    } else {
        assert(s.update(i, e).drop_last() =~= s.drop_last());
    }
}

impl AccountsDB {
    /// Every account, by address.
    pub open spec fn accounts(&self) -> Map<Seq<u8>, AccountView> {
        self.key@.map_values(|a: AccountSharedData| a@)
    }

    proof fn lemma_accounts_insert(m: Map<Seq<u8>, AccountSharedData>, k: Seq<u8>, a: AccountSharedData)
        ensures
            m.insert(k, a).map_values(|x: AccountSharedData| x@) == m.map_values(
                |x: AccountSharedData| x@,
            ).insert(k, a@),
    {
        assert(m.insert(k, a).map_values(|x: AccountSharedData| x@) =~= m.map_values(
            |x: AccountSharedData| x@,
        ).insert(k, a@));
    }

    /// Stores `account_shared_data` under `pubkey`, replacing what was there.
    pub fn flush_new_account_into_db(&mut self, pubkey: Pubkey, account_shared_data: AccountSharedData)
        requires
            old(self).key.wf(),
        ensures
            final(self).key.wf(),
            final(self).accounts() == old(self).accounts().insert(pubkey@, account_shared_data@),
    {
        let ghost m = self.key@;
        let ghost a = account_shared_data;
        self.key.insert(pubkey, account_shared_data);
        proof {
            Self::lemma_accounts_insert(m, pubkey@, a);
        }
    }

    /// Replaces the data of a stored account.
    pub fn update_data(&mut self, new_data: Vec<u8>, account: Pubkey)
        requires
            old(self).key.wf(),
            old(self).accounts().contains_key(account@),
        ensures
            final(self).key.wf(),
            final(self).accounts() == old(self).accounts().insert(
                account@,
                (old(self).accounts()[account@].0, new_data@, old(self).accounts()[account@].2),
            ),
    {
        let i = self.key.index_of(&account).unwrap();
        let ghost m = self.key@;
        let entry = self.key.value_at_mut(i);
        entry.data = new_data;
        proof {
            Self::lemma_accounts_insert(m, account@, self.key@[account@]);
        }
    }

    /// Creates an account at `account` with the default lamports, `space`
    /// zero bytes of data and owner `owner`, stores it and returns it.
    pub fn init_new_account_in_DB(&mut self, account: &Pubkey, space: usize, owner: &Pubkey) -> (a: AccountSharedData)
        requires
            old(self).key.wf(),
        ensures
            final(self).key.wf(),
            a@ == (DEFAULT_ACCOUNT_LAMPORTS, zeros(space as nat), owner@),
            a.owner == *owner,
            final(self).accounts() == old(self).accounts().insert(account@, a@),
    {
        let data = zero_bytes(space);
        let account_shared_data = AccountSharedData { lamports: DEFAULT_ACCOUNT_LAMPORTS, data, owner: *owner };
        self.flush_new_account_into_db(*account, account_shared_data.clone());
        account_shared_data
    }

    /// Creates the associated token account of `owner` for `mint`, holding
    /// `amount`: stores it with the packed token state as its data and the
    /// SPL Token program as its owner, and returns the account as first
    /// created (with zeroed data).
    pub fn create_new_token_account(&mut self, owner: &Pubkey, mint: &Pubkey, amount: u64) -> (a: AccountSharedData)
        requires
            old(self).key.wf(),
        ensures
            final(self).key.wf(),
            a@ == (DEFAULT_ACCOUNT_LAMPORTS, zeros(TOKEN_ACCOUNT_LEN as nat), token_program_id_bytes()),
            final(self).accounts() == old(self).accounts().insert(
                associated_token_address_of(owner@, mint@),
                (
                    DEFAULT_ACCOUNT_LAMPORTS,
                    token_account_bytes(mint@, owner@, amount),
                    token_program_id_bytes(),
                ),
            ),
    {
        let data = packed_token_account(*mint, *owner, amount);
        let pubkey = associated_token_address(*owner, *mint);
        let token_program = token_program_id();
        let account = self.init_new_account_in_DB(&pubkey, TOKEN_ACCOUNT_LEN, &token_program);
        self.flush_new_account_into_db(pubkey, account.clone());
        self.update_data(data, pubkey);
        proof {
            assert(self.accounts() =~= old(self).accounts().insert(
                associated_token_address_of(owner@, mint@),
                (
                    DEFAULT_ACCOUNT_LAMPORTS,
                    token_account_bytes(mint@, owner@, amount),
                    token_program_id_bytes(),
                ),
            ));
        }
        account
    }

    /// Moves `amount` lamports from account `from` to account `to`; both must
    /// be stored, `from` must hold the amount and `to` must have room for it.
    pub fn update_accounts_db_after_transfer(&mut self, from: &Pubkey, to: &Pubkey, amount: u64)
        requires
            old(self).key.wf(),
            old(self).accounts().contains_key(from@),
            old(self).accounts().contains_key(to@),
            old(self).accounts()[from@].0 >= amount,
            from@ != to@ ==> old(self).accounts()[to@].0 + amount <= u64::MAX,
        ensures
            final(self).key.wf(),
            from@ == to@ ==> final(self).accounts() == old(self).accounts(),
            from@ != to@ ==> final(self).accounts() == old(self).accounts().insert(
                from@,
                (
                    (old(self).accounts()[from@].0 - amount) as u64,
                    old(self).accounts()[from@].1,
                    old(self).accounts()[from@].2,
                ),
            ).insert(
                to@,
                (
                    (old(self).accounts()[to@].0 + amount) as u64,
                    old(self).accounts()[to@].1,
                    old(self).accounts()[to@].2,
                ),
            ),
            total_lamports(final(self).key.entries()) == total_lamports(old(self).key.entries()),
    {
        let ghost m0 = self.key@;
        let ghost e0 = self.key.entries();
        let i = self.key.index_of(from).unwrap();
        {
            let from_account = self.key.value_at_mut(i);
            from_account.lamports = from_account.lamports - amount;
        }
        proof {
            lemma_total_lamports_update(e0, i as int, self.key.entries()[i as int]);
            Self::lemma_accounts_insert(m0, from@, self.key@[from@]);
        }
        let ghost m1 = self.key@;
        let ghost e1 = self.key.entries();
        let j = self.key.index_of(to).unwrap();
        {
            let to_account = self.key.value_at_mut(j);
            to_account.lamports = to_account.lamports + amount;
        }
        proof {
            lemma_total_lamports_update(e1, j as int, self.key.entries()[j as int]);
            Self::lemma_accounts_insert(m1, to@, self.key@[to@]);
            if from@ == to@ {
                assert(self.accounts() =~= old(self).accounts());
            }
        }
    }

    /// A copy of a stored account.
    pub fn get_account_data(&mut self, account: &Pubkey) -> (a: AccountSharedData)
        requires
            old(self).key.wf(),
            old(self).accounts().contains_key(account@),
        ensures
            *final(self) == *old(self),
            a@ == old(self).accounts()[account@],
    {
        let data = self.key.get(account).unwrap().clone();
        data
    }
}

/// The record that persists a newly created account on disk.
pub fn new_account_file_record(account: &Pubkey, space: usize, owner: &Pubkey, data: Vec<u8>) -> (r: AccountInFile)
    ensures
        r.offset == 0,
        r.data_len == space,
        r.pubkey == *account,
        r.lamports == DEFAULT_ACCOUNT_LAMPORTS,
        r.owner == *owner,
        r.executable,
        r.data@ == data@,
{
    AccountInFile {
        offset: 0,
        data_len: space,
        pubkey: *account,
        lamports: DEFAULT_ACCOUNT_LAMPORTS,
        owner: *owner,
        executable: true,
        data,
    }
}

} // verus!
