use rollup_core::accounts_db::account_index_manager::{Bucket, IndexState};
use rollup_core::accounts_db::disk_accounts_handler::AllAccountsInFile;
use rollup_core::accounts_db::ram_accounts_handler::{new_account_file_record, AccountsDB, DEFAULT_ACCOUNT_LAMPORTS};
use rollup_core::pubkey::{Keypair, Pubkey};
use solana_sdk::program_pack::Pack;
use spl_token::state::Account as TokenAccount;

fn sdk(k: &Pubkey) -> solana_sdk::pubkey::Pubkey {
    solana_sdk::pubkey::Pubkey::new_from_array(k.to_bytes())
}

#[test]
pub fn test_new_account_init() {
    let mut account_db = AccountsDB::default();
    let owner = Keypair::new().pubkey();
    let test_account = Keypair::new().pubkey();

    let account_size = 32;

    account_db.init_new_account_in_DB(&test_account, account_size, &owner);

    println!("{:?}", account_db);
}

#[test]
pub fn create_new_token_account() {
    let mut account_db = AccountsDB::default();
    let owner = Keypair::new().pubkey();
    let mint = Keypair::new().pubkey();

    let account = Pubkey::new_from_array(
        spl_associated_token_account::get_associated_token_address(&sdk(&owner), &sdk(&mint)).to_bytes(),
    );

    account_db.create_new_token_account(&owner, &mint, 10);

    let new_account_data = account_db.get_account_data(&account);

    let new_account_data = TokenAccount::unpack(&new_account_data.data).unwrap();
    println!("unpack{:?}", new_account_data);

    println!("account_db {:?}", account_db)
}

#[test]
fn token_account_holds_the_packed_state() {
    let mut db = AccountsDB::default();
    let owner = Keypair::new().pubkey();
    let mint = Keypair::new().pubkey();
    db.create_new_token_account(&owner, &mint, 10);
    let ata = Pubkey::new_from_array(
        spl_associated_token_account::get_associated_token_address(&sdk(&owner), &sdk(&mint)).to_bytes(),
    );
    let stored = db.get_account_data(&ata);
    assert_eq!(stored.lamports, DEFAULT_ACCOUNT_LAMPORTS);
    assert_eq!(stored.owner.to_bytes(), spl_token::id().to_bytes());
    assert_eq!(stored.data.len(), TokenAccount::LEN);
    let state = TokenAccount::unpack(&stored.data).unwrap();
    assert_eq!(state.mint, sdk(&mint));
    assert_eq!(state.owner, sdk(&owner));
    assert_eq!(state.amount, 10);
    assert_eq!(state.state, spl_token::state::AccountState::Initialized);
}

#[test]
fn new_account_is_zeroed_and_funded() {
    let mut db = AccountsDB::default();
    let owner = Keypair::new().pubkey();
    let acc = Keypair::new().pubkey();
    let made = db.init_new_account_in_DB(&acc, 32, &owner);
    assert_eq!(made.lamports, DEFAULT_ACCOUNT_LAMPORTS);
    assert_eq!(made.data, vec![0u8; 32]);
    assert_eq!(made.owner, owner);
    let stored = db.get_account_data(&acc);
    assert_eq!(stored, made);
    db.update_data(vec![1, 2, 3], acc);
    assert_eq!(db.get_account_data(&acc).data, vec![1, 2, 3]);
    assert_eq!(db.get_account_data(&acc).lamports, DEFAULT_ACCOUNT_LAMPORTS);
}

#[test]
fn transfer_moves_lamports_and_keeps_the_total() {
    let mut db = AccountsDB::default();
    let owner = Keypair::new().pubkey();
    let a = Keypair::new().pubkey();
    let b = Keypair::new().pubkey();
    db.init_new_account_in_DB(&a, 0, &owner);
    db.init_new_account_in_DB(&b, 0, &owner);
    db.update_accounts_db_after_transfer(&a, &b, 1_000);
    assert_eq!(db.get_account_data(&a).lamports, DEFAULT_ACCOUNT_LAMPORTS - 1_000);
    assert_eq!(db.get_account_data(&b).lamports, DEFAULT_ACCOUNT_LAMPORTS + 1_000);
    db.update_accounts_db_after_transfer(&a, &a, 5);
    assert_eq!(db.get_account_data(&a).lamports, DEFAULT_ACCOUNT_LAMPORTS - 1_000);
}

#[test]
fn file_record_of_a_new_account() {
    let owner = Keypair::new().pubkey();
    let acc = Keypair::new().pubkey();
    let r = new_account_file_record(&acc, 4, &owner, vec![0, 0, 0, 0]);
    assert_eq!((r.offset, r.data_len, r.lamports, r.executable), (0, 4, DEFAULT_ACCOUNT_LAMPORTS, true));
    assert_eq!((r.pubkey, r.owner), (acc, owner));
    let mut all = AllAccountsInFile::default();
    all.add_new_acconunt(0, r.clone());
    all.add_new_acconunt(0, r);
    assert_eq!(all.accounts.len(), 2);
}

#[test]
fn test_add_new_account_index() {
    let mut bucket = Bucket::default();
    bucket.add_new_account_entry(Keypair::new().pubkey(), 0, 0);
}

#[test]
fn index_entries_point_at_the_block_file() {
    let mut bucket = Bucket::default();
    let k = Keypair::new().pubkey();
    bucket.add_new_account_entry(k, 3, 9);
    assert_eq!(bucket.bucket.len(), 1);
    let e = &bucket.bucket[0].index_bucket;
    assert_eq!(e.pubkey, k);
    assert!(matches!(e.state, IndexState::SingleElement));
    assert_eq!((e.data_offset.slot, e.data_offset.index), (3, 9));
    assert_eq!(e.data_offset.file_id, "snapshots/slots/0/accounts/slot-0-block-1.txt");
    assert!(bucket.bucket[0].data_bucket.is_empty());
}
