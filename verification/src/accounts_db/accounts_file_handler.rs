//! The record of one account written to a file of its own.

use crate::pubkey::Pubkey;
use vstd::prelude::*;

verus! {

/// One account as written to its own file.
#[derive(Debug)]
pub struct AccountInFile {
    pub data_len: usize,
    pub pubkey: Pubkey,
    pub lamports: u64,
    pub owner: Pubkey,
    pub executable: bool,
    pub data: Vec<u8>,
}

} // verus!
