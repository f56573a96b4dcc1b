# amm

An automated market maker for prediction markets on NEAR, written in Verus.

- `src/` is the verified library: 256-bit fixed-point math (`math`), ordered
  account maps (`account_map`), outcome-share ledgers (`outcome_token`,
  `outcome_map`), pools and their pricing and trades (`pool`,
  `pool_factory`), markets (`market`, `market_creation`, `data`), storage
  deposits (`storage_manager`), incoming transfers (`token_receiver`), the
  token whitelist (`whitelist`) and deposit refunds (`utils`). Every public
  function states its result exactly, including when it refuses a request;
  the laws of the library are public proof functions named `law_*`.
- `app/` is the contract that runs on the NEAR runtime: it reads the runtime
  context, stores the state, reads and writes JSON and makes cross-contract
  calls, and leaves every decision to the library.
- `tests/` runs the library on concrete values.

The contract keeps its maps and lists in NEAR contract storage, through the
runtime's storage calls. The library does not: `AccountMap` (ordered account
maps, used for balances, storage deposits and the whitelist), `OutcomeTokens`
(a pool's outcome tokens) and `Vec` (the markets) hold that state as plain
values, so that every operation on it can be proved. Reading and writing
contract storage is left to `app/`, which stores each ledger, pool and list
on its own. The storage layout of the runtime's collections, such as two
collections made with the same key prefix seeing each other's contents, is
therefore not part of the library.
