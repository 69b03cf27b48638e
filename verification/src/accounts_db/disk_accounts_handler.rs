//! Account records as persisted to account files, one file per slot.

use crate::processor::transaction::copy_all;
use crate::pubkey::Pubkey;
use vstd::prelude::*;

verus! {

/// One persisted account.
#[derive(Debug)]
pub struct AccountInFile {
    /// Position of the record, used as its index.
    pub offset: u8,
    pub data_len: usize,
    pub pubkey: Pubkey,
    pub lamports: u64,
    pub owner: Pubkey,
    pub executable: bool,
    pub data: Vec<u8>,
}

impl Clone for AccountInFile {
    fn clone(&self) -> (c: Self)
        ensures
            c.offset == self.offset,
            c.data_len == self.data_len,
            c.pubkey == self.pubkey,
            c.lamports == self.lamports,
            c.owner == self.owner,
            c.executable == self.executable,
            c.data@ == self.data@,
    {
        let data = copy_all(&self.data);
        AccountInFile {
            offset: self.offset,
            data_len: self.data_len,
            pubkey: self.pubkey,
            lamports: self.lamports,
            owner: self.owner,
            executable: self.executable,
            data,
        }
    }
}

/// The accounts of one account file, in order.
#[derive(Debug)]
pub struct AllAccountsInFile {
    pub accounts: Vec<AccountInFile>,
}

impl Default for AllAccountsInFile {
    /// No accounts.
    fn default() -> (a: Self)
        ensures
            a.accounts@ == Seq::<AccountInFile>::empty(),
    {
        Self { accounts: Vec::new() }
    }
}

impl AllAccountsInFile {
    /// Appends an account to the records of slot `slot` (the caller
    /// persists the records to that slot's file).
    pub fn add_new_acconunt(&mut self, slot: usize, account: AccountInFile)
        ensures
            final(self).accounts@ == old(self).accounts@.push(account),
    {
        self.accounts.push(account);
    }
}

} // verus!
