//! The index of where each account's data lives: one bucket entry per account.

use crate::pubkey::Pubkey;
use vstd::prelude::*;

verus! {

/// Where a version of an account's data is stored.
#[derive(Debug)]
pub struct DataOffset {
    pub file_id: String,
    pub slot: u64,
    pub index: u64,
}

/// How many stored versions an index entry points to.
#[derive(Debug, Clone, Copy, PartialEq, Eq, Structural)]
pub enum IndexState {
    Free,
    ZeroSlots,
    SingleElement,
    MultipleSlots,
}

/// The index entry of one account.
#[derive(Debug)]
pub struct IndexEntry {
    pub pubkey: Pubkey,
    pub state: IndexState,
    pub data_offset: DataOffset,
}

/// The stored versions of an account with several.
#[derive(Debug)]
pub struct DataBucket {
    pub slots: Vec<DataOffset>,
}

/// An index entry and the versions it points to.
#[derive(Debug)]
pub struct SingleBucket {
    pub index_bucket: IndexEntry,
    pub data_bucket: Vec<DataBucket>,
}

/// The account index (a single bucket of entries).
#[derive(Debug)]
pub struct Bucket {
    pub bucket: Vec<SingleBucket>,
}

/// The account file that new entries point to.
pub open spec fn default_account_file() -> Seq<char> {
    "snapshots/slots/0/accounts/slot-0-block-1.txt"@
}

impl Default for Bucket {
    /// An empty index.
    fn default() -> (b: Self)
        ensures
            b.bucket@ == Seq::<SingleBucket>::empty(),
    {
        Bucket { bucket: Vec::new() }
    }
}

impl Bucket {
    /// Appends an entry for `pubkey` holding a single version, at `slot` and
    /// `index` of the default account file (the caller persists the index).
    pub fn add_new_account_entry(&mut self, pubkey: Pubkey, slot: u64, index: u64)
        ensures
            final(self).bucket@.len() == old(self).bucket@.len() + 1,
            forall|i: int| 0 <= i < old(self).bucket@.len() ==> final(self).bucket@[i] == old(self).bucket@[i],
            ({
                let e = final(self).bucket@.last();
                &&& e.index_bucket.pubkey == pubkey
                &&& e.index_bucket.state == IndexState::SingleElement
                &&& e.index_bucket.data_offset.file_id@ == default_account_file()
                &&& e.index_bucket.data_offset.slot == slot
                &&& e.index_bucket.data_offset.index == index
                &&& e.data_bucket@ == Seq::<DataBucket>::empty()
            }),
    {
        let file_id = String::from_str("snapshots/slots/0/accounts/slot-0-block-1.txt");
        let new_single_entry_bucket_for_the_account = SingleBucket {
            index_bucket: IndexEntry {
                pubkey,
                state: IndexState::SingleElement,
                data_offset: DataOffset { file_id, index, slot },
            },
            data_bucket: Vec::new(),
        };
        self.bucket.push(new_single_entry_bucket_for_the_account);
    }
}

} // verus!
