//! Transfer transactions as submitted to the rollup, and the base-chain
//! instruction that each one stands for.

use crate::processor::instruction::{
    associated_token_address, associated_token_address_of, system_transfer, system_transfer_of,
    le_bytes, token_program_id, token_program_id_bytes, token_transfer, token_transfer_of, zeros,
    Instruction, InstructionView,
};
use crate::pubkey::Pubkey;
use vstd::prelude::*;

verus! {

/// One argument of a transaction.
#[derive(Clone, Copy, Debug)]
pub enum TransactionItem {
    Pubkey(Pubkey),
    Amount(u64),
}

/// The kinds of transaction the rollup runs.
#[derive(Clone, Copy, Debug, Hash)]
pub enum TransactionType {
    Transfer,
}

/// A transaction: its kind, its accounts and its numeric arguments.
///
/// For a transfer the accounts are the payer, the optional mint, the
/// sender and the recipient, and the first argument is the amount.
#[derive(Debug, Hash)]
pub struct TransactionMetadata {
    pub txs_type: TransactionType,
    pub keys: Vec<Option<Pubkey>>,
    pub args: Vec<u64>,
}

/// A transaction's accounts and arguments as plain values.
pub struct TransactionMetadataView {
    pub keys: Seq<Option<Pubkey>>,
    pub args: Seq<u64>,
}

impl View for TransactionMetadata {
    type V = TransactionMetadataView;

    open spec fn view(&self) -> TransactionMetadataView {
        TransactionMetadataView { keys: self.keys@, args: self.args@ }
    }
}

/// A copy of `v`.
pub fn copy_all<T: Copy>(v: &Vec<T>) -> (c: Vec<T>)
    ensures
        c@ == v@,
{
    let mut c: Vec<T> = Vec::new();
    let mut i: usize = 0;
    while i < v.len()
        invariant
            i <= v.len(),
            c@ == v@.take(i as int),
        decreases v.len() - i,
    {
        c.push(v[i]);
        assert(c@ =~= v@.take(i + 1));
        i = i + 1;
    }
    assert(v@.take(v.len() as int) =~= v@);
    c
}

impl Clone for TransactionMetadata {
    fn clone(&self) -> (c: Self)
        ensures
            c@ == self@,
    {
        let keys = copy_all(&self.keys);
        let args = copy_all(&self.args);
        TransactionMetadata { txs_type: self.txs_type, keys, args }
    }
}

/// The accounts and amount that a transfer needs are all present.
pub open spec fn is_complete_transfer(m: TransactionMetadataView) -> bool {
    &&& m.keys.len() >= 4
    &&& m.keys[2] is Some
    &&& m.keys[3] is Some
    &&& m.args.len() >= 1
}

/// The base-chain instruction of a complete transfer: an SPL Token transfer
/// between the associated token accounts of sender and recipient when a mint
/// is given, a System transfer of lamports otherwise.
pub open spec fn transfer_instruction_of(m: TransactionMetadataView) -> InstructionView {
    let from = m.keys[2].unwrap()@;
    let to = m.keys[3].unwrap()@;
    let amount = m.args[0];
    match m.keys[1] {
        Some(mint) => token_transfer_of(
            token_program_id_bytes(),
            associated_token_address_of(from, mint@),
            associated_token_address_of(to, mint@),
            from,
            amount,
        ),
        None => system_transfer_of(from, to, amount),
    }
}

/// A transfer moves its amount from its sender (`keys[2]`) to its recipient
/// (`keys[3]`): without a mint it is a System transfer funded and signed by
/// the sender and crediting the recipient, with data carrying the amount
/// (`args[0]`); with a mint it is an SPL Token transfer from the sender's
/// associated token account to the recipient's, signed by the sender.
pub proof fn law_transfer_goes_from_sender_to_recipient(m: TransactionMetadataView)
    requires
        is_complete_transfer(m),
    ensures
        m.keys[1] is None ==> transfer_instruction_of(m) == (InstructionView {
            program_id: zeros(32),
            accounts: seq![(m.keys[2]->0@, true, true), (m.keys[3]->0@, false, true)],
            data: seq![2u8, 0, 0, 0] + le_bytes(m.args[0]),
        }),
        m.keys[1] matches Some(mint) ==> transfer_instruction_of(m) == (InstructionView {
            program_id: token_program_id_bytes(),
            accounts: seq![
                (associated_token_address_of(m.keys[2]->0@, mint@), false, true),
                (associated_token_address_of(m.keys[3]->0@, mint@), false, true),
                (m.keys[2]->0@, true, false),
            ],
            data: seq![3u8] + le_bytes(m.args[0]),
        }),
{
}

/// The base-chain instruction that a transfer stands for.
pub fn instruction_from_metadata(value: &TransactionMetadata) -> (ix: Instruction)
    requires
        is_complete_transfer(value@),
    ensures
        ix@ == transfer_instruction_of(value@),
{
    match value.txs_type {
        TransactionType::Transfer => {
            let from = value.keys[2].unwrap();
            let to = value.keys[3].unwrap();
            let amount = value.args[0];
            match value.keys[1] {
                Some(mint) => {
                    let source = associated_token_address(from, mint);
                    let destination = associated_token_address(to, mint);
                    let ix = token_transfer(token_program_id(), source, destination, from, amount);
                    ix.unwrap()
                },
                None => system_transfer(from, to, amount),
            }
        },
    }
}

/// A transfer as the settlement ledger reads it.
#[derive(Clone, Copy, Debug)]
pub struct ForTransferTransaction {
    pub mint: Option<Pubkey>,
    pub from: Pubkey,
    pub to: Pubkey,
    pub amount: u64,
}

/// The transfer that complete transfer metadata describes.
pub fn transfer_from_metadata(value: &TransactionMetadata) -> (t: ForTransferTransaction)
    requires
        is_complete_transfer(value@),
    ensures
        t.mint == value@.keys[1],
        t.from == value@.keys[2].unwrap(),
        t.to == value@.keys[3].unwrap(),
        t.amount == value@.args[0],
{
    ForTransferTransaction {
        mint: value.keys[1],
        from: value.keys[2].unwrap(),
        to: value.keys[3].unwrap(),
        amount: value.args[0],
    }
}

} // verus!
