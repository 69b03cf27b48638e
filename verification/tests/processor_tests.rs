use rollup_core::processor::instruction::{
    associated_token_address, packed_token_account, system_transfer, token_program_id, token_transfer, Instruction,
    TOKEN_ACCOUNT_LEN,
};
use rollup_core::processor::settler::PayTubeSettler;
use rollup_core::processor::transaction::{
    instruction_from_metadata, transfer_from_metadata, ForTransferTransaction, TransactionMetadata, TransactionType,
};
use rollup_core::pubkey::Pubkey;
use solana_sdk::program_pack::Pack;

fn key(b: u8) -> Pubkey {
    Pubkey::new_from_array([b; 32])
}

fn sdk(k: &Pubkey) -> solana_sdk::pubkey::Pubkey {
    solana_sdk::pubkey::Pubkey::new_from_array(k.to_bytes())
}

fn metas(ix: &Instruction) -> Vec<(Pubkey, bool, bool)> {
    ix.accounts.iter().map(|m| (m.pubkey, m.is_signer, m.is_writable)).collect()
}

#[test]
fn system_transfer_layout() {
    let ix = system_transfer(key(1), key(2), 0x0102_0304_0506_0708);
    assert_eq!(ix.program_id, key(0));
    assert_eq!(metas(&ix), vec![(key(1), true, true), (key(2), false, true)]);
    assert_eq!(ix.data, vec![2, 0, 0, 0, 8, 7, 6, 5, 4, 3, 2, 1]);
}

#[test]
fn token_program_id_is_spl_token() {
    assert_eq!(token_program_id().to_bytes(), spl_token::id().to_bytes());
    assert_eq!(token_program_id().to_bytes()[..4], [6, 221, 246, 225]);
}

#[test]
fn token_transfer_layout_and_wrong_program() {
    let ix = token_transfer(token_program_id(), key(3), key(4), key(5), 258).unwrap();
    assert_eq!(ix.program_id, token_program_id());
    assert_eq!(metas(&ix), vec![(key(3), false, true), (key(4), false, true), (key(5), true, false)]);
    assert_eq!(ix.data, vec![3, 2, 1, 0, 0, 0, 0, 0, 0]);
    assert!(token_transfer(key(9), key(3), key(4), key(5), 258).is_none());
}

#[test]
fn associated_token_address_is_derived_from_both_keys() {
    let (w, m) = (key(7), key(8));
    let a = associated_token_address(w, m);
    assert_ne!(a, w);
    assert_ne!(a, m);
    assert_eq!(sdk(&a), spl_associated_token_account::get_associated_token_address(&sdk(&w), &sdk(&m)));
    assert_ne!(a, associated_token_address(m, w));
}

#[test]
fn packed_token_account_unpacks() {
    let data = packed_token_account(key(1), key(2), 77);
    assert_eq!(data.len(), TOKEN_ACCOUNT_LEN);
    assert_eq!(&data[..32], &[1u8; 32]);
    assert_eq!(&data[64..72], &[77, 0, 0, 0, 0, 0, 0, 0]);
    assert_eq!(data[108], 1);
    let acc = spl_token::state::Account::unpack(&data).unwrap();
    assert_eq!((acc.mint, acc.owner, acc.amount), (sdk(&key(1)), sdk(&key(2)), 77));
}

fn transfer_md(mint: Option<Pubkey>, from: Pubkey, to: Pubkey, amount: u64) -> TransactionMetadata {
    TransactionMetadata { txs_type: TransactionType::Transfer, keys: vec![Some(key(9)), mint, Some(from), Some(to)], args: vec![amount] }
}

#[test]
fn metadata_becomes_the_matching_instruction() {
    let ix = instruction_from_metadata(&transfer_md(None, key(1), key(2), 5));
    assert_eq!(ix.program_id, key(0));
    assert_eq!(metas(&ix)[0].0, key(1));
    let ix = instruction_from_metadata(&transfer_md(Some(key(6)), key(1), key(2), 5));
    assert_eq!(ix.program_id, token_program_id());
    assert_eq!(ix.accounts[0].pubkey, associated_token_address(key(1), key(6)));
    assert_eq!(ix.accounts[1].pubkey, associated_token_address(key(2), key(6)));
    assert_eq!(ix.accounts[2].pubkey, key(1));
    let t = transfer_from_metadata(&transfer_md(Some(key(6)), key(1), key(2), 5));
    assert_eq!((t.mint, t.from, t.to, t.amount), (Some(key(6)), key(1), key(2), 5));
}

fn tx(from: u8, to: u8, amount: u64) -> ForTransferTransaction {
    ForTransferTransaction { mint: None, from: key(from), to: key(to), amount }
}

#[test]
fn settlement_nets_transfers_between_the_same_parties() {
    let txs = [tx(1, 2, 10), tx(2, 1, 3), tx(1, 2, 100), tx(3, 1, 4)];
    let settler = PayTubeSettler::new(&txs, &[true, true, false, true]);
    assert_eq!(settler.instructions.len(), 2);
    let a = &settler.instructions[0];
    assert_eq!(metas(a), vec![(key(1), true, true), (key(2), false, true)]);
    assert_eq!(a.data[4..], 7u64.to_le_bytes());
    let b = &settler.instructions[1];
    assert_eq!(metas(b), vec![(key(3), true, true), (key(1), false, true)]);
    assert_eq!(b.data[4..], 4u64.to_le_bytes());
    assert_eq!(settler.num_transactions(), 1);
}

#[test]
fn settlement_skips_unprocessed_and_balanced_pairs() {
    let txs = [tx(1, 2, 5), tx(2, 1, 5), tx(4, 5, 9)];
    let settler = PayTubeSettler::new(&txs, &[true, true]);
    assert_eq!(settler.instructions.len(), 1);
    assert_eq!(settler.instructions[0].data[4..], 0u64.to_le_bytes());
}

#[test]
fn chunk_count_rounds_up() {
    let txs: Vec<ForTransferTransaction> = (0..21u8).map(|i| tx(i, i + 100, 1)).collect();
    let ok = vec![true; 21];
    let settler = PayTubeSettler::new(&txs, &ok);
    assert_eq!(settler.instructions.len(), 21);
    assert_eq!(settler.num_transactions(), 3);
    let batches = settler.settlement_batches();
    assert_eq!(batches.iter().map(|b| b.len()).collect::<Vec<usize>>(), vec![10, 10, 1]);
    assert_eq!(batches[2][0].accounts[0].pubkey, key(20));
    assert_eq!(batches[1][0].accounts[0].pubkey, key(10));
}

#[test]
fn no_transfers_settle_in_no_batches() {
    let settler = PayTubeSettler::new(&[], &[]);
    assert!(settler.instructions.is_empty());
    assert_eq!(settler.num_transactions(), 0);
    assert!(settler.settlement_batches().is_empty());
}
