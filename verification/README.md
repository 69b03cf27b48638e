# rollup_core

The core of a Solana rollup sequencer, verified with Verus.

- `src/` is the verified library:
  - `scheduler`: read/write locks of accounts per worker thread and the
    choice of the thread a transaction runs on;
  - `line_up_queue`: the main queue, the bounded line-up of the next batch
    and the bounded reschedule container;
  - `chain_entrypoint`: submission of transactions, their scheduling onto
    threads, and the privileges that instructions grant accounts;
  - `processor`: transfer metadata, base-chain instructions, and the
    settlement ledger that nets transfers between the same parties;
  - `accounts_db`, `per_db`, `pool`, `users_handler`: the in-memory account
    store and its file records, signatures per application, fee-payer pools,
    and the users of each application;
  - `assoc_map` and `pubkey`: an insertion-ordered map and 32-byte addresses.
- `app/` reads and writes the account and index files and builds the Solana
  transactions that carry transfers and settlement.
- `tests/` runs the library on concrete values.
