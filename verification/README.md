# dotnft

A non-fungible token registry for ink! smart contracts, with an offer-based
market, written in Verus.

Tokens are numbered from zero and minted only by the registry's creator. A
token moves on the authority of its owner, of an account the owner approved
for it, or of an operator of the owner. Owners list tokens for sale at a price;
a buyer who pays at least that price gets the token, and the price is split
into a 2% fee for the contract's provider, a 2% fee for the creator and 96%
for the seller. A token that changes hands, by sale, transfer or burn, leaves
the market: its offer is withdrawn with its approval.

## Layout

- `src/` — the verified library.
  - `account.rs`: 32-byte accounts; the all-zero account stands for "nobody".
  - `balances.rs`: fee arithmetic (`checked_mul_by_q`) and sale payouts.
  - `storage.rs`: the `ink_storage` hash maps that hold the registry, behind
    trusted wrappers whose contracts describe each map's contents.
  - `events.rs`: token ids, errors and events.
  - `model.rs`: the registry as mathematical maps, its invariant (balances count
    owned tokens, no token above the minted range has an owner, ...), the effect
    of each request (`step`, `run`) and the lemmas showing that every operation
    keeps the invariant.
  - `dotnft.rs`: the operations; each takes the calling account explicitly and
    records the events it emits.
  - `laws.rs`: properties spanning operations and runs of requests (balances
    count tokens, round trips of transfers and listings, operator access, mint
    additivity, the minted count only grows, burned tokens stay burned, and
    every admitted request keeps the invariant).
- `tests/` — scenarios run against the compiled library.
- `app/` — contract glue: reads the caller and the transferred value from the
  contract environment, pays out sales with `ink_env::transfer`, and publishes
  the recorded events with `ink_env::emit_event`.
