//! Base-chain instructions as plain values, and the calls into the System
//! and SPL Token programs' crates that build them.

use crate::processor::transaction::copy_all;
use crate::pubkey::Pubkey;
use solana_sdk::program_pack::Pack;
use vstd::prelude::*;

verus! {

/// One account that an instruction touches.
#[derive(Debug, Clone, Copy)]
pub struct AccountMeta {
    pub pubkey: Pubkey,
    pub is_signer: bool,
    pub is_writable: bool,
}

/// A program call: program, accounts in order, and instruction data.
#[derive(Debug)]
pub struct Instruction {
    pub program_id: Pubkey,
    pub accounts: Vec<AccountMeta>,
    pub data: Vec<u8>,
}

/// An instruction as plain values.
pub struct InstructionView {
    pub program_id: Seq<u8>,
    /// Address, signer flag and writable flag of each account, in order.
    pub accounts: Seq<(Seq<u8>, bool, bool)>,
    pub data: Seq<u8>,
}

impl View for Instruction {
    type V = InstructionView;

    open spec fn view(&self) -> InstructionView {
        InstructionView {
            program_id: self.program_id@,
            accounts: self.accounts@.map_values(
                |m: AccountMeta| (m.pubkey@, m.is_signer, m.is_writable),
            ),
            data: self.data@,
        }
    }
}

impl Clone for Instruction {
    fn clone(&self) -> (c: Self)
        ensures
            c@ == self@,
    {
        let accounts = copy_all(&self.accounts);
        let data = copy_all(&self.data);
        Instruction { program_id: self.program_id, accounts, data }
    }
}

/// The eight little-endian bytes of `x`.
pub open spec fn le_bytes(x: u64) -> Seq<u8> {
    seq![
        (x % 0x100) as u8,
        ((x / 0x100) % 0x100) as u8,
        ((x / 0x1_0000) % 0x100) as u8,
        ((x / 0x100_0000) % 0x100) as u8,
        ((x / 0x1_0000_0000) % 0x100) as u8,
        ((x / 0x100_0000_0000) % 0x100) as u8,
        ((x / 0x1_0000_0000_0000) % 0x100) as u8,
        ((x / 0x100_0000_0000_0000) % 0x100) as u8,
    ]
}

/// `n` zero bytes.
pub open spec fn zeros(n: nat) -> Seq<u8> {
    Seq::new(n, |i: int| 0u8)
}

/// The address of the System program (all zero bytes).
pub open spec fn system_program_id() -> Seq<u8> {
    zeros(32)
}

/// The address of the SPL Token program, TokenkegQfeZyiNwAJbNbGKPFXCWuBvf9Ss623VQ5DA.
pub open spec fn token_program_id_bytes() -> Seq<u8> {
    seq![
        6u8, 221, 246, 225, 215, 101, 161, 147, 217, 203, 225, 70, 206, 235, 121, 172,
        28, 180, 133, 237, 95, 91, 55, 145, 58, 140, 245, 133, 126, 255, 0, 169,
    ]
}

/// A System program transfer of `lamports` from `from` (which signs) to `to`.
pub open spec fn system_transfer_of(from: Seq<u8>, to: Seq<u8>, lamports: u64) -> InstructionView {
    InstructionView {
        program_id: system_program_id(),
        accounts: seq![(from, true, true), (to, false, true)],
        data: seq![2u8, 0, 0, 0] + le_bytes(lamports),
    }
}

/// An SPL Token transfer of `amount` from token account `source` to token
/// account `destination`, signed by the single `authority`.
pub open spec fn token_transfer_of(
    program: Seq<u8>,
    source: Seq<u8>,
    destination: Seq<u8>,
    authority: Seq<u8>,
    amount: u64,
) -> InstructionView {
    InstructionView {
        program_id: program,
        accounts: seq![(source, false, true), (destination, false, true), (authority, true, false)],
        data: seq![3u8] + le_bytes(amount),
    }
}

/// The address of the SPL Token program, from `spl_token::id`.
///
/// The claim is that the returned address is the constant program id
/// that the crate declares.
#[verifier::external_body]
pub fn token_program_id() -> (id: Pubkey)
    ensures
        id@ == token_program_id_bytes(),
{
    Pubkey { bytes: spl_token::id().to_bytes() }
}

/// A System program transfer, from `solana_sdk::system_instruction::transfer`.
///
/// The claim is the layout that the crate's source builds: the System
/// program, the funding account as a writable signer, the recipient as
/// writable, and data made of the bincode tag 2 (four little-endian bytes)
/// followed by the lamports in little-endian order.
#[verifier::external_body]
#[allow(deprecated)]
pub fn system_transfer(from: Pubkey, to: Pubkey, lamports: u64) -> (ix: Instruction)
    ensures
        ix@ == system_transfer_of(from@, to@, lamports),
{
    let from_key = solana_sdk::pubkey::Pubkey::new_from_array(from.bytes);
    let to_key = solana_sdk::pubkey::Pubkey::new_from_array(to.bytes);
    let ix = solana_sdk::system_instruction::transfer(&from_key, &to_key, lamports);
    let accounts = ix.accounts.iter().map(|m| AccountMeta {
        pubkey: Pubkey { bytes: m.pubkey.to_bytes() },
        is_signer: m.is_signer,
        is_writable: m.is_writable,
    }).collect();
    Instruction { program_id: Pubkey { bytes: ix.program_id.to_bytes() }, accounts, data: ix.data }
}

/// An SPL Token transfer, from `spl_token::instruction::transfer` with no
/// multisignature signers.
///
/// The claim is what the crate's source builds: `None` when `program` is not
/// the SPL Token program (the crate's `IncorrectProgramId` error), and
/// otherwise the source and destination token accounts as writable, the
/// authority as a read-only signer, and data made of the tag 3 followed by
/// the amount in little-endian order.
#[verifier::external_body]
pub fn token_transfer(
    program: Pubkey,
    source: Pubkey,
    destination: Pubkey,
    authority: Pubkey,
    amount: u64,
) -> (ix: Option<Instruction>)
    ensures
        ix is Some <==> program@ == token_program_id_bytes(),
        ix matches Some(i) ==> i@ == token_transfer_of(program@, source@, destination@, authority@, amount),
{
    let p = solana_sdk::pubkey::Pubkey::new_from_array(program.bytes);
    let s = solana_sdk::pubkey::Pubkey::new_from_array(source.bytes);
    let d = solana_sdk::pubkey::Pubkey::new_from_array(destination.bytes);
    let a = solana_sdk::pubkey::Pubkey::new_from_array(authority.bytes);
    match spl_token::instruction::transfer(&p, &s, &d, &a, &[], amount) {
        Ok(ix) => Some(Instruction {
            program_id: Pubkey { bytes: ix.program_id.to_bytes() },
            accounts: ix.accounts.iter().map(|m| AccountMeta { pubkey: Pubkey { bytes: m.pubkey.to_bytes() }, is_signer: m.is_signer, is_writable: m.is_writable }).collect(),
            data: ix.data,
        }),
        Err(_) => None,
    }
}

/// The associated token account of `wallet` for `mint` (a program-derived
/// address of the Associated Token Account program).
pub uninterp spec fn associated_token_address_of(wallet: Seq<u8>, mint: Seq<u8>) -> Seq<u8>;

/// The associated token account, from
/// `spl_associated_token_account::get_associated_token_address`.
///
/// The claim is only that the address is a function of the two arguments.
/// The crate derives it with `Pubkey::find_program_address`, which panics if
/// no bump seed yields an address off the curve; that case is left unsaid.
#[verifier::external_body]
pub fn associated_token_address(wallet: Pubkey, mint: Pubkey) -> (a: Pubkey)
    ensures
        a@ == associated_token_address_of(wallet@, mint@),
{
    let w = solana_sdk::pubkey::Pubkey::new_from_array(wallet.bytes);
    let m = solana_sdk::pubkey::Pubkey::new_from_array(mint.bytes);
    Pubkey { bytes: spl_associated_token_account::get_associated_token_address(&w, &m).to_bytes() }
}

/// Length in bytes of a packed SPL Token account.
pub const TOKEN_ACCOUNT_LEN: usize = 165;

/// The packed bytes of an initialized SPL Token account holding `amount` of
/// `mint` for `owner`, with no delegate, not native, and no close authority.
pub open spec fn token_account_bytes(mint: Seq<u8>, owner: Seq<u8>, amount: u64) -> Seq<u8> {
    mint + owner + le_bytes(amount) + zeros(36) + seq![1u8] + zeros(12) + zeros(8) + zeros(36)
}

/// Packs an initialized token account, with `spl_token::state::Account::pack`.
///
/// The claim is the layout of the crate's `pack_into_slice`: mint, owner,
/// amount (little-endian), an empty delegate option (four zero tag bytes and
/// 32 zero bytes), the `Initialized` state byte 1, an empty native option
/// (12 zero bytes), a zero delegated amount and an empty close authority.
#[verifier::external_body]
pub fn packed_token_account(mint: Pubkey, owner: Pubkey, amount: u64) -> (data: Vec<u8>)
    ensures
        data@ == token_account_bytes(mint@, owner@, amount),
{
    let mut data = vec![0u8; spl_token::state::Account::LEN];
    let account = spl_token::state::Account {
        mint: solana_sdk::pubkey::Pubkey::new_from_array(mint.bytes),
        owner: solana_sdk::pubkey::Pubkey::new_from_array(owner.bytes),
        amount,
        state: spl_token::state::AccountState::Initialized,
        ..Default::default()
    };
    spl_token::state::Account::pack(account, &mut data).unwrap();
    data
}

} // verus!
