//! Netting of successful transfers into one base-chain transfer per pair of
//! parties (and mint), and the batches they are settled in.

use crate::assoc_map::{distinct_keys, lemma_map_of_at, map_of, AssocMap, MapKey};
use crate::processor::instruction::{
    associated_token_address, associated_token_address_of, system_transfer, system_transfer_of,
    le_bytes, token_program_id, token_program_id_bytes, token_transfer, token_transfer_of, zeros,
    Instruction, InstructionView,
};
use crate::processor::transaction::ForTransferTransaction;
use crate::pubkey::{bytes_lt, Pubkey};
use vstd::prelude::*;

verus! {

/// How many instructions go into one settlement transaction.
pub const CHUNK_SIZE: usize = 10;

/// A pair of parties (in byte order) and the mint they trade, if any.
#[derive(Clone, Copy, Debug)]
pub struct LedgerKey {
    pub mint: Option<Pubkey>,
    pub keys: [Pubkey; 2],
}

/// Mint, lower party and higher party of a ledger key, as plain values.
pub type LedgerKeyView = (Option<Seq<u8>>, Seq<u8>, Seq<u8>);

/// The view of an optional address.
pub open spec fn opt_key_view(k: Option<Pubkey>) -> Option<Seq<u8>> {
    match k {
        Some(p) => Some(p@),
        None => None,
    }
}

impl View for LedgerKey {
    type V = LedgerKeyView;

    open spec fn view(&self) -> LedgerKeyView {
        (opt_key_view(self.mint), self.keys[0]@, self.keys[1]@)
    }
}

impl MapKey for LedgerKey {
    fn key_eq(&self, other: &LedgerKey) -> (b: bool) {
        let mint_eq = match (self.mint, other.mint) {
            (Some(a), Some(b)) => a.same_key(&b),
            (None, None) => true,
            _ => false,
        };
        mint_eq && self.keys[0].same_key(&other.keys[0]) && self.keys[1].same_key(&other.keys[1])
    }
}

/// The ledger entry that a transfer goes to: its mint and its two parties in byte order.
pub open spec fn ledger_key_of(t: ForTransferTransaction) -> LedgerKeyView {
    if bytes_lt(t.to@, t.from@) {
        (opt_key_view(t.mint), t.to@, t.from@)
    } else {
        (opt_key_view(t.mint), t.from@, t.to@)
    }
}

/// What a transfer adds to its entry: the amount when the sender is the
/// lower party, minus the amount when it is the higher one.
pub open spec fn signed_amount(t: ForTransferTransaction) -> int {
    if bytes_lt(t.to@, t.from@) {
        -(t.amount as int)
    } else {
        t.amount as int
    }
}

/// Adds `a` to the entry with key `k`, or appends a new entry `(k, a)`.
pub open spec fn ledger_add(s: Seq<(LedgerKeyView, int)>, k: LedgerKeyView, a: int) -> Seq<
    (LedgerKeyView, int),
> {
    if exists|i: int| 0 <= i < s.len() && s[i].0 == k {
        let i = choose|i: int| 0 <= i < s.len() && s[i].0 == k;
        s.update(i, (k, s[i].1 + a))
    } else {
        s.push((k, a))
    }
}

/// The ledger after the first `n` transfers, counting only the successful ones.
pub open spec fn ledger_prefix(txs: Seq<ForTransferTransaction>, oks: Seq<bool>, n: nat) -> Seq<
    (LedgerKeyView, int),
>
    decreases n,
{
    if n == 0 {
        Seq::empty()
    } else {
        let s = ledger_prefix(txs, oks, (n - 1) as nat);
        if oks[n - 1] {
            ledger_add(s, ledger_key_of(txs[n - 1]), signed_amount(txs[n - 1]))
        } else {
            s
        }
    }
}

/// How many transfers have a processing result.
pub open spec fn processed_count(txs: Seq<ForTransferTransaction>, oks: Seq<bool>) -> nat {
    if txs.len() <= oks.len() {
        txs.len()
    } else {
        oks.len()
    }
}

/// The ledger of a batch of transfers and their processing results, in the
/// order the entries were first touched.
pub open spec fn ledger_entries(txs: Seq<ForTransferTransaction>, oks: Seq<bool>) -> Seq<
    (LedgerKeyView, int),
> {
    ledger_prefix(txs, oks, processed_count(txs, oks))
}

/// The base-chain transfer that settles one ledger entry: from the lower
/// party to the higher one for a positive balance, the other way round for
/// a negative one (the amount taken as its low 64 bits).
pub open spec fn instruction_for(e: (LedgerKeyView, int)) -> InstructionView {
    let k = e.0;
    let amount = e.1;
    let from = if amount < 0 { k.2 } else { k.1 };
    let to = if amount < 0 { k.1 } else { k.2 };
    let value = if amount < 0 { (-amount) as u64 } else { amount as u64 };
    match k.0 {
        Some(mint) => token_transfer_of(
            token_program_id_bytes(),
            associated_token_address_of(from, mint),
            associated_token_address_of(to, mint),
            from,
            value,
        ),
        None => system_transfer_of(from, to, value),
    }
}

/// The base-chain transfer that settles the entry `key` with balance `amount`.
fn settle_entry(key: LedgerKey, amount: i128) -> (ix: Instruction)
    requires
        amount > i128::MIN,
    ensures
        ix@ == instruction_for((key@, amount as int)),
{
    let (from, to, value) = if amount < 0 {
        (key.keys[1], key.keys[0], (-amount) as u64)
    } else {
        (key.keys[0], key.keys[1], amount as u64)
    };
    match key.mint {
        Some(mint) => {
            let source = associated_token_address(from, mint);
            let destination = associated_token_address(to, mint);
            token_transfer(token_program_id(), source, destination, from, value).unwrap()
        },
        None => system_transfer(from, to, value),
    }
}

/// The net amount that the first `n` transfers move within ledger entry `k`
/// (counting only successful ones, signed as in `signed_amount`).
pub open spec fn net_flow(txs: Seq<ForTransferTransaction>, oks: Seq<bool>, n: nat, k: LedgerKeyView) -> int
    decreases n,
{
    if n == 0 {
        0
    } else {
        net_flow(txs, oks, (n - 1) as nat, k) + if oks[n - 1] && ledger_key_of(txs[n - 1]) == k {
            signed_amount(txs[n - 1])
        } else {
            0
        }
    }
}

/// The balance the ledger holds for key `k` (zero when it has no entry).
pub open spec fn balance_of(s: Seq<(LedgerKeyView, int)>, k: LedgerKeyView) -> int {
    if exists|i: int| 0 <= i < s.len() && s[i].0 == k {
        s[choose|i: int| 0 <= i < s.len() && s[i].0 == k].1
    } else {
        0
    }
}

/// No two ledger entries share a key.
pub open spec fn ledger_keys_distinct(s: Seq<(LedgerKeyView, int)>) -> bool {
    forall|i: int, j: int| 0 <= i < s.len() && 0 <= j < s.len() && i != j ==> s[i].0 != s[j].0
}

/// Netting: the ledger has one entry per pair of parties and mint, and the
/// balance of every pair is the net amount of its successful transfers
/// (transfers from the lower party to the higher count positive, the others
/// negative); failed transfers count for nothing.
pub proof fn law_ledger_nets_transfers(
    txs: Seq<ForTransferTransaction>,
    oks: Seq<bool>,
    n: nat,
    k: LedgerKeyView,
)
    requires
        n <= txs.len(),
        n <= oks.len(),
    ensures
        ledger_keys_distinct(ledger_prefix(txs, oks, n)),
        balance_of(ledger_prefix(txs, oks, n), k) == net_flow(txs, oks, n, k),
    decreases n,
{
    if n > 0 {
        let m = (n - 1) as nat;
        law_ledger_nets_transfers(txs, oks, m, k);
        let s = ledger_prefix(txs, oks, m);
        if oks[m as int] {
            let kk = ledger_key_of(txs[m as int]);
            law_ledger_nets_transfers(txs, oks, m, kk);
            let a = signed_amount(txs[m as int]);
            let t = ledger_add(s, kk, a);
            assert(ledger_prefix(txs, oks, n) == t);
            if exists|i: int| 0 <= i < s.len() && s[i].0 == kk {
                let i = choose|i: int| 0 <= i < s.len() && s[i].0 == kk;
                assert(t == s.update(i, (kk, s[i].1 + a)));
                assert(ledger_keys_distinct(t)) by {
                    assert forall|x: int, y: int| 0 <= x < t.len() && 0 <= y < t.len() && x != y implies t[x].0 != t[y].0 by {
                        assert(t[x].0 == s[x].0 && t[y].0 == s[y].0);
                    }
                }
                if k == kk {
                    let c = choose|c: int| 0 <= c < t.len() && t[c].0 == k;
                    assert(t[i].0 == k);
                    assert(c == i);
                } else if exists|c: int| 0 <= c < s.len() && s[c].0 == k {
                    let c = choose|c: int| 0 <= c < s.len() && s[c].0 == k;
                    assert(t[c].0 == k);
                    let c2 = choose|c2: int| 0 <= c2 < t.len() && t[c2].0 == k;
                    assert(c2 == c);
                } else {
                    assert forall|c: int| 0 <= c < t.len() implies t[c].0 != k by {
                        if c != i {
                            assert(t[c] == s[c]);
                        }
                    }
                }
            } else {
                assert(t == s.push((kk, a)));
                assert(ledger_keys_distinct(t)) by {
                    assert forall|x: int, y: int| 0 <= x < t.len() && 0 <= y < t.len() && x != y implies t[x].0 != t[y].0 by {
                        if x < s.len() && y < s.len() {
                            assert(t[x] == s[x] && t[y] == s[y]);
                        } else if x < s.len() {
                            assert(t[x] == s[x]);
                        } else {
                            assert(t[y] == s[y]);
                        }
                    }
                }
                if k == kk {
                    let c = choose|c: int| 0 <= c < t.len() && t[c].0 == k;
                    assert(t[s.len() as int].0 == k);
                    assert(c == s.len());
                } else if exists|c: int| 0 <= c < s.len() && s[c].0 == k {
                    let c = choose|c: int| 0 <= c < s.len() && s[c].0 == k;
                    assert(t[c].0 == k);
                    let c2 = choose|c2: int| 0 <= c2 < t.len() && t[c2].0 == k;
                    assert(c2 == c);
                } else {
                    assert forall|c: int| 0 <= c < t.len() implies t[c].0 != k by {
                        if c < s.len() {
                            assert(t[c] == s[c]);
                        }
                    }
                }
            }
        }
    }
}

/// Net balances between pairs of parties.
pub struct Ledger {
    pub ledger: AssocMap<LedgerKey, i128>,
}

/// Ledger key `k` names the mint and the two parties of transfer `t`.
pub open spec fn key_names_transfer(k: LedgerKeyView, t: ForTransferTransaction) -> bool {
    &&& k.0 == opt_key_view(t.mint)
    &&& ((k.1 == t.from@ && k.2 == t.to@) || (k.1 == t.to@ && k.2 == t.from@))
}

/// Some successful transfer among the first `n` has ledger key `k`'s mint and parties.
pub open spec fn names_some_transfer(k: LedgerKeyView, txs: Seq<ForTransferTransaction>, oks: Seq<bool>, n: nat) -> bool {
    exists|i: int| 0 <= i < n && oks[i] && key_names_transfer(k, txs[i])
}

/// Adding to a ledger keeps the keys it had, in place, and holds the added
/// key afterwards, at its old place or as a new last entry.
proof fn lemma_ledger_add_keys(s: Seq<(LedgerKeyView, int)>, k: LedgerKeyView, a: int)
    ensures
        ledger_add(s, k, a).len() == s.len() || ledger_add(s, k, a).len() == s.len() + 1,
        forall|j: int| 0 <= j < s.len() ==> (#[trigger] ledger_add(s, k, a)[j]).0 == s[j].0,
        forall|j: int| s.len() <= j < ledger_add(s, k, a).len() ==> (#[trigger] ledger_add(s, k, a)[j]).0 == k,
        exists|j: int| 0 <= j < ledger_add(s, k, a).len() && (#[trigger] ledger_add(s, k, a)[j]).0 == k,
{
    let r = ledger_add(s, k, a);
    if exists|i: int| 0 <= i < s.len() && s[i].0 == k {
        let i = choose|i: int| 0 <= i < s.len() && s[i].0 == k;
        assert(r[i].0 == k);
    } else {
        assert(r[s.len() as int].0 == k);
    }
}

/// Every ledger entry is keyed by the mint and the parties of a transfer.
proof fn lemma_key_of_names_transfer(t: ForTransferTransaction)
    ensures
        key_names_transfer(ledger_key_of(t), t),
{
}

/// The ledger keeps each transfer's mint: every successful transfer has an
/// entry keyed by its own mint and its two parties, and every entry is keyed
/// by the mint and parties of some successful transfer. So transfers of
/// different mints (or between different parties) never share an entry.
pub proof fn law_ledger_keeps_mint_and_parties(txs: Seq<ForTransferTransaction>, oks: Seq<bool>, n: nat)
    requires
        n <= txs.len(),
        n <= oks.len(),
    ensures
        forall|i: int|
            0 <= i < n && oks[i] ==> exists|j: int|
                0 <= j < ledger_prefix(txs, oks, n).len() && key_names_transfer(
                    #[trigger] ledger_prefix(txs, oks, n)[j].0,
                    txs[i],
                ),
        forall|j: int|
            0 <= j < ledger_prefix(txs, oks, n).len() ==> names_some_transfer(
                #[trigger] ledger_prefix(txs, oks, n)[j].0,
                txs,
                oks,
                n,
            ),
    decreases n,
{
    if n == 0 {
        assert(ledger_prefix(txs, oks, n).len() == 0);
    } else {
        let m = (n - 1) as nat;
        law_ledger_keeps_mint_and_parties(txs, oks, m);
        let s = ledger_prefix(txs, oks, m);
        let r = ledger_prefix(txs, oks, n);
        if oks[m as int] {
            let kk = ledger_key_of(txs[m as int]);
            lemma_ledger_add_keys(s, kk, signed_amount(txs[m as int]));
            lemma_key_of_names_transfer(txs[m as int]);
            assert(r == ledger_add(s, kk, signed_amount(txs[m as int])));
            assert forall|i: int| 0 <= i < n && oks[i] implies exists|j: int|
                0 <= j < r.len() && key_names_transfer(#[trigger] r[j].0, txs[i]) by {
                if i < m {
                    let j = choose|j: int| 0 <= j < s.len() && key_names_transfer(#[trigger] s[j].0, txs[i]);
                    assert(r[j].0 == s[j].0);
                } else {
                    let j = choose|j: int| 0 <= j < r.len() && (#[trigger] r[j]).0 == kk;
                    assert(key_names_transfer(r[j].0, txs[i]));
                }
            }
            assert forall|j: int| 0 <= j < ledger_prefix(txs, oks, n).len() implies names_some_transfer(
                #[trigger] ledger_prefix(txs, oks, n)[j].0,
                txs,
                oks,
                n,
            ) by {
                if j < s.len() {
                    assert(r[j].0 == s[j].0);
                    assert(names_some_transfer(s[j].0, txs, oks, m));
                    let i = choose|i: int| 0 <= i < m && oks[i] && key_names_transfer(s[j].0, txs[i]);
                    assert(r[j].0 == s[j].0);
                    assert(0 <= i < n && oks[i] && key_names_transfer(r[j].0, txs[i]));
                } else {
                    assert(r[j].0 == kk);
                    assert(0 <= m < n && oks[m as int] && key_names_transfer(r[j].0, txs[m as int]));
                }
            }
        } else {
            assert(r == s);
            assert forall|i: int| 0 <= i < n && oks[i] implies exists|j: int|
                0 <= j < ledger_prefix(txs, oks, n).len() && key_names_transfer(
                    #[trigger] ledger_prefix(txs, oks, n)[j].0,
                    txs[i],
                ) by {
                let j = choose|j: int| 0 <= j < s.len() && key_names_transfer(#[trigger] s[j].0, txs[i]);
                assert(r[j].0 == s[j].0);
            }
            assert forall|j: int| 0 <= j < ledger_prefix(txs, oks, n).len() implies names_some_transfer(
                #[trigger] ledger_prefix(txs, oks, n)[j].0,
                txs,
                oks,
                n,
            ) by {
                assert(r[j].0 == s[j].0);
                assert(names_some_transfer(s[j].0, txs, oks, m));
                let i = choose|i: int| 0 <= i < m && oks[i] && key_names_transfer(s[j].0, txs[i]);
                assert(0 <= i < n && oks[i] && key_names_transfer(r[j].0, txs[i]));
            }
        }
    }
}

/// Settling a ledger entry debits the party that owes its balance: for a
/// positive balance the lower party pays the higher one, for a negative
/// balance the higher party pays the lower one, in lamports through the
/// System program when the entry has no mint, and in tokens between the two
/// parties' associated token accounts, signed by the paying party, when it has one.
pub proof fn law_settlement_debits_the_party_that_owes(e: (LedgerKeyView, int))
    ensures
        ({
            let (k, a) = e;
            let (payer, payee, value) = if a < 0 {
                (k.2, k.1, (-a) as u64)
            } else {
                (k.1, k.2, a as u64)
            };
            &&& k.0 is None ==> instruction_for(e) == (InstructionView {
                program_id: zeros(32),
                accounts: seq![(payer, true, true), (payee, false, true)],
                data: seq![2u8, 0, 0, 0] + le_bytes(value),
            })
            &&& k.0 matches Some(mint) ==> instruction_for(e) == (InstructionView {
                program_id: token_program_id_bytes(),
                accounts: seq![
                    (associated_token_address_of(payer, mint), false, true),
                    (associated_token_address_of(payee, mint), false, true),
                    (payer, true, false),
                ],
                data: seq![3u8] + le_bytes(value),
            })
        }),
{
}

/// The largest number of transfers whose amounts always fit the ledger's balances.
pub open spec fn max_ledger_transfers() -> int {
    0x8000_0000_0000_0000
}

impl Ledger {
    /// The entries as plain values, in order.
    pub open spec fn entries(&self) -> Seq<(LedgerKeyView, int)> {
        self.ledger.entries().map_values(|e: (LedgerKey, i128)| (e.0@, e.1 as int))
    }

    /// Keys are distinct and every balance can be negated.
    pub open spec fn wf(&self) -> bool {
        &&& self.ledger.wf()
        &&& forall|i: int| 0 <= i < self.entries().len() ==> #[trigger] self.entries()[i].1 > i128::MIN
    }

    /// Tallies the transfers whose processing result is a success
    /// (`successes[i]` for `paytube_transactions[i]`; transfers without a
    /// result are left out).
    pub fn new(paytube_transactions: &[ForTransferTransaction], successes: &[bool]) -> (l: Ledger)
        requires
            paytube_transactions.len() <= max_ledger_transfers(),
        ensures
            l.wf(),
            l.entries() == ledger_entries(paytube_transactions@, successes@),
    {
        let ghost txs = paytube_transactions@;
        let ghost oks = successes@;
        let n = if paytube_transactions.len() <= successes.len() {
            paytube_transactions.len()
        } else {
            successes.len()
        };
        let mut ledger: AssocMap<LedgerKey, i128> = AssocMap::new();
        let mut i: usize = 0;
        while i < n
            invariant
                txs == paytube_transactions@,
                oks == successes@,
                n == processed_count(txs, oks),
                n <= max_ledger_transfers(),
                i <= n,
                ledger.wf(),
                ledger.entries().map_values(|e: (LedgerKey, i128)| (e.0@, e.1 as int))
                    == ledger_prefix(txs, oks, i as nat),
                forall|j: int|
                    0 <= j < ledger.entries().len() ==> -(i as int) * 0xffff_ffff_ffff_ffff
                        <= #[trigger] ledger.entries()[j].1 <= (i as int) * 0xffff_ffff_ffff_ffff,
            decreases n - i,
        {
            let ghost before = ledger.entries();
            let ghost model = before.map_values(|e: (LedgerKey, i128)| (e.0@, e.1 as int));
            if successes[i] {
                let t = paytube_transactions[i];
                let swap = t.to.precedes(&t.from);
                let key = if swap {
                    LedgerKey { mint: t.mint, keys: [t.to, t.from] }
                } else {
                    LedgerKey { mint: t.mint, keys: [t.from, t.to] }
                };
                let amount: i128 = if swap {
                    -(t.amount as i128)
                } else {
                    t.amount as i128
                };
                assert(key@ == ledger_key_of(txs[i as int]));
                assert(amount as int == signed_amount(txs[i as int]));
                proof {
                    ledger.lemma_view();
                }
                let ghost k = key@;
                match ledger.get(&key) {
                    Some(v) => {
                        let v = *v;
                        let ghost idx = choose|x: int| 0 <= x < before.len() && before[x].0@ == k;
                        proof {
                            lemma_map_of_at(before, idx);
                        }
                        assert(v == before[idx].1);
                        let total = v + amount;
                        ledger.insert(key, total);
                        proof {
                            let j = choose|j: int|
                                0 <= j < before.len() && before[j].0@ == k && ledger.entries()
                                    == before.update(j, (key, total));
                            assert(j == idx);
                            assert(model[idx].0 == k);
                            let c = choose|c: int| 0 <= c < model.len() && model[c].0 == k;
                            assert(before[c].0@ == k);
                            assert(c == idx);
                            assert(ledger.entries().map_values(
                                |e: (LedgerKey, i128)| (e.0@, e.1 as int),
                            ) =~= ledger_add(model, k, amount as int));
                        }
                    },
                    None => {
                        ledger.insert(key, amount);
                        proof {
                            assert forall|c: int| 0 <= c < model.len() implies model[c].0 != k by {
                                if model[c].0 == k {
                                    assert(before[c].0@ == k);
                                    assert(map_of(before).contains_key(k));
                                }
                            }
                            assert(ledger.entries().map_values(
                                |e: (LedgerKey, i128)| (e.0@, e.1 as int),
                            ) =~= ledger_add(model, k, amount as int));
                        }
                    },
                }
            }
            i = i + 1;
        }
        let l = Ledger { ledger };
        assert forall|j: int| 0 <= j < l.entries().len() implies #[trigger] l.entries()[j].1 > i128::MIN by {
            assert(l.ledger.entries()[j].1 >= -(n as int) * 0xffff_ffff_ffff_ffff);
        }
        l
    }

    /// One base-chain transfer per ledger entry, in the ledger's order.
    pub fn generate_base_chain_instructions(&self) -> (v: Vec<Instruction>)
        requires
            self.wf(),
        ensures
            v@.map_values(|ix: Instruction| ix@) == self.entries().map_values(
                |e: (LedgerKeyView, int)| instruction_for(e),
            ),
    {
        let mut v: Vec<Instruction> = Vec::new();
        let mut i: usize = 0;
        proof {
            self.ledger.lemma_view();
        }
        while i < self.ledger.len()
            invariant
                self.wf(),
                i <= self.ledger.entries().len(),
                v@.map_values(|ix: Instruction| ix@) == self.entries().take(i as int).map_values(
                    |e: (LedgerKeyView, int)| instruction_for(e),
                ),
            decreases self.ledger.entries().len() - i,
        {
            let key = *self.ledger.key_at(i);
            let amount = *self.ledger.value_at(i);
            assert(self.entries()[i as int] == (key@, amount as int));
            assert(self.entries()[i as int].1 > i128::MIN);
            let ix = settle_entry(key, amount);
            let ghost prev = v@;
            v.push(ix);
            assert(v@ == prev.push(ix));
            assert(v@.map_values(|ix: Instruction| ix@) =~= prev.map_values(|ix: Instruction| ix@).push(ix@));
            assert(self.entries().take(i + 1) =~= self.entries().take(i as int).push(self.entries()[i as int]));
            assert(v@.map_values(|ix: Instruction| ix@) =~= self.entries().take(i + 1).map_values(
                |e: (LedgerKeyView, int)| instruction_for(e),
            ));
            i = i + 1;
        }
        assert(self.entries().take(i as int) =~= self.entries());
        v
    }
}

/// The instructions that settle a batch of transfers.
pub struct PayTubeSettler {
    pub instructions: Vec<Instruction>,
}

impl PayTubeSettler {
    /// Tallies the successful transfers into a ledger and turns each of its
    /// entries into one base-chain transfer.
    pub fn new(paytube_transactions: &[ForTransferTransaction], successes: &[bool]) -> (s: Self)
        requires
            paytube_transactions.len() <= max_ledger_transfers(),
        ensures
            s.instructions@.map_values(|ix: Instruction| ix@) == ledger_entries(
                paytube_transactions@,
                successes@,
            ).map_values(|e: (LedgerKeyView, int)| instruction_for(e)),
    {
        let ledger = Ledger::new(paytube_transactions, successes);
        let instructions = ledger.generate_base_chain_instructions();
        PayTubeSettler { instructions }
    }

    /// How many settlement transactions the instructions need, `CHUNK_SIZE` per transaction.
    pub fn num_transactions(&self) -> (n: usize)
        ensures
            n == (self.instructions.len() + CHUNK_SIZE - 1) / (CHUNK_SIZE as int),
    {
        let len = self.instructions.len();
        len / CHUNK_SIZE + if len % CHUNK_SIZE == 0 {
            0
        } else {
            1
        }
    }
}

/// Settlement batch `i` of the instructions `s`: `CHUNK_SIZE` of them from
/// position `i * CHUNK_SIZE` on, fewer in the last batch.
pub open spec fn batch_of(s: Seq<InstructionView>, i: int) -> Seq<InstructionView> {
    let start = i * CHUNK_SIZE;
    let end = if start + CHUNK_SIZE <= s.len() {
        start + CHUNK_SIZE
    } else {
        s.len() as int
    };
    s.subrange(start, end)
}

impl PayTubeSettler {
    /// The instructions in the batches that settlement sends, one
    /// transaction each: `CHUNK_SIZE` per batch in order, the last one possibly shorter.
    pub fn settlement_batches(&self) -> (b: Vec<Vec<Instruction>>)
        ensures
            b@.len() == (self.instructions@.len() + CHUNK_SIZE - 1) / (CHUNK_SIZE as int),
            forall|i: int|
                0 <= i < b@.len() ==> (#[trigger] b@[i])@.map_values(|ix: Instruction| ix@) == batch_of(
                    self.instructions@.map_values(|ix: Instruction| ix@),
                    i,
                ),
    {
        let ghost all = self.instructions@.map_values(|ix: Instruction| ix@);
        let n = self.instructions.len();
        let mut batches: Vec<Vec<Instruction>> = Vec::new();
        let mut start: usize = 0;
        while start < n
            invariant
                n == self.instructions@.len(),
                all == self.instructions@.map_values(|ix: Instruction| ix@),
                start <= n,
                start < n ==> start == batches@.len() * CHUNK_SIZE,
                start == n ==> batches@.len() * CHUNK_SIZE >= n && (batches@.len() > 0 ==> (
                batches@.len() - 1) * CHUNK_SIZE < n),
                forall|i: int|
                    0 <= i < batches@.len() ==> (#[trigger] batches@[i])@.map_values(|ix: Instruction| ix@)
                        == batch_of(all, i),
            decreases n - start,
        {
            let end = if n - start > CHUNK_SIZE {
                start + CHUNK_SIZE
            } else {
                n
            };
            let mut batch: Vec<Instruction> = Vec::new();
            let mut j: usize = start;
            while j < end
                invariant
                    n == self.instructions@.len(),
                    all == self.instructions@.map_values(|ix: Instruction| ix@),
                    start <= j <= end <= n,
                    batch@.map_values(|ix: Instruction| ix@) == all.subrange(start as int, j as int),
                decreases end - j,
            {
                let ix = self.instructions[j].clone();
                let ghost prev = batch@;
                batch.push(ix);
                assert(all[j as int] == ix@);
                assert(batch@ == prev.push(ix));
                assert(batch@.map_values(|ix: Instruction| ix@) =~= prev.map_values(|ix: Instruction| ix@).push(ix@));
                assert(all.subrange(start as int, j + 1) =~= all.subrange(start as int, j as int).push(all[j as int]));
                j = j + 1;
            }
            assert(batch_of(all, batches@.len() as int) == all.subrange(start as int, end as int));
            batches.push(batch);
            start = end;
        }
        let ghost k = batches@.len();
        assert(k == (n + CHUNK_SIZE - 1) / (CHUNK_SIZE as int)) by (nonlinear_arith)
            requires
                k * 10 >= n,
                k > 0 ==> (k - 1) * 10 < n,
                k == 0 ==> n == 0,
                CHUNK_SIZE == 10,
        ;
        batches
    }
}

} // verus!
