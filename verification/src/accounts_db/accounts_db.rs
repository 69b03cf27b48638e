//! A first in-memory account store: accounts are only created when absent,
//! and data updates of absent accounts are ignored.

use crate::assoc_map::AssocMap;
use crate::processor::instruction::{
    associated_token_address, associated_token_address_of, packed_token_account, token_account_bytes,
    token_program_id, token_program_id_bytes, zeros, TOKEN_ACCOUNT_LEN,
};
use crate::processor::transaction::copy_all;
use crate::pubkey::Pubkey;
use vstd::prelude::*;

verus! {

/// Lamports of a token account created by `create_new_token_account`.
pub const TOKEN_ACCOUNT_LAMPORTS: u64 = 100_000_000;

/// An account: its lamports, its data and the program that owns it.
#[derive(PartialEq, Eq, Debug)]
pub struct AccountSharedData {
    /// lamports in the account
    lamports: u64,
    /// data held in this account
    data: Vec<u8>,
    /// the program that owns this account
    owner: Pubkey,
}

impl View for AccountSharedData {
    type V = (u64, Seq<u8>, Seq<u8>);

    closed spec fn view(&self) -> (u64, Seq<u8>, Seq<u8>) {
        (self.lamports, self.data@, self.owner@)
    }
}

impl Clone for AccountSharedData {
    fn clone(&self) -> (c: Self)
        ensures
            c@ == self@,
    {
        let data = copy_all(&self.data);
        AccountSharedData { lamports: self.lamports, data, owner: self.owner }
    }
}

impl Default for AccountSharedData {
    /// An account with no lamports, no data and the all-zero owner.
    fn default() -> (a: Self)
        ensures
            a@ == (0u64, Seq::<u8>::empty(), zeros(32)),
    {
        let a = AccountSharedData { lamports: 0, data: Vec::new(), owner: Pubkey { bytes: [0u8; 32] } };
        proof {
            broadcast use vstd::array::group_array_axioms;
        }
        assert(a.owner@ =~= zeros(32));
        a
    }
}

/// All accounts held in memory, by address.
#[derive(Debug)]
pub struct AccountsDB {
    pub key: AssocMap<Pubkey, AccountSharedData>,
}

impl AccountsDB {
    /// Every account, by address.
    pub open spec fn accounts(&self) -> Map<Seq<u8>, (u64, Seq<u8>, Seq<u8>)> {
        self.key@.map_values(|a: AccountSharedData| a@)
    }

    /// Stores `account_shared_data` under `pubkey` unless an account is already there.
    pub fn flush_new_account_into_db(&mut self, pubkey: Pubkey, account_shared_data: AccountSharedData)
        requires
            old(self).key.wf(),
        ensures
            final(self).key.wf(),
            old(self).accounts().contains_key(pubkey@) ==> final(self).accounts() == old(self).accounts(),
            !old(self).accounts().contains_key(pubkey@) ==> final(self).accounts() == old(
                self,
            ).accounts().insert(pubkey@, account_shared_data@),
    {
        if self.key.contains_key(&pubkey) {
        } else {
            let ghost m = self.key@;
            let ghost a = account_shared_data;
            self.key.insert(pubkey, account_shared_data);
            assert(self.accounts() =~= m.map_values(|x: AccountSharedData| x@).insert(pubkey@, a@));
        }
    }

    /// Replaces the data of `account` when it is stored; otherwise nothing happens.
    pub fn update_data(&mut self, new_data: Vec<u8>, account: Pubkey)
        requires
            old(self).key.wf(),
        ensures
            final(self).key.wf(),
            old(self).accounts().contains_key(account@) ==> final(self).accounts() == old(
                self,
            ).accounts().insert(
                account@,
                (old(self).accounts()[account@].0, new_data@, old(self).accounts()[account@].2),
            ),
            !old(self).accounts().contains_key(account@) ==> final(self).accounts() == old(self).accounts(),
    {
        match self.key.index_of(&account) {
            Some(i) => {
                let ghost m = self.key@;
                let entry = self.key.value_at_mut(i);
                entry.data = new_data;
                assert(self.accounts() =~= m.map_values(|x: AccountSharedData| x@).insert(
                    account@,
                    self.key@[account@]@,
                ));
            },
            None => {},
        }
    }
}

impl AccountSharedData {
    /// A new account with `lamports`, `space` zero bytes of data and owner `owner`.
    pub fn new_with_no_data(&mut self, lamports: u64, space: usize, owner: &Pubkey) -> (a: Self)
        ensures
            *final(self) == *old(self),
            a@ == (lamports, zeros(space as nat), owner@),
    {
        let data = vec![0u8; space];
        assert(data@ =~= zeros(space as nat));
        AccountSharedData { lamports, data, owner: *owner }
    }

    /// Creates a token account of `owner` for `mint` at their associated
    /// token address in `account_db` and returns it: the account holds the
    /// token-account lamports and zeroed data and is owned by the SPL Token
    /// program. The packed token state only reaches an account that was
    /// already stored at that address, whose other fields stay.
    pub fn create_new_token_account(
        &mut self,
        account_db: &mut AccountsDB,
        owner: &Pubkey,
        mint: &Pubkey,
        amount: u64,
    ) -> (a: AccountSharedData)
        requires
            old(account_db).key.wf(),
        ensures
            *final(self) == *old(self),
            final(account_db).key.wf(),
            a@ == (TOKEN_ACCOUNT_LAMPORTS, zeros(TOKEN_ACCOUNT_LEN as nat), token_program_id_bytes()),
            ({
                let ata = associated_token_address_of(owner@, mint@);
                let before = old(account_db).accounts();
                &&& before.contains_key(ata) ==> final(account_db).accounts() == before.insert(
                    ata,
                    (before[ata].0, token_account_bytes(mint@, owner@, amount), before[ata].2),
                )
                &&& !before.contains_key(ata) ==> final(account_db).accounts() == before.insert(ata, a@)
            }),
    {
        let data = packed_token_account(*mint, *owner, amount);
        let token_program = token_program_id();
        let account = self.new_with_no_data(TOKEN_ACCOUNT_LAMPORTS, TOKEN_ACCOUNT_LEN, &token_program);
        let pubkey = associated_token_address(*owner, *mint);
        account_db.update_data(data, pubkey);
        account_db.flush_new_account_into_db(pubkey, account.clone());
        account
    }
}

} // verus!
