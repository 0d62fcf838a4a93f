# k2_lend

A Verus-verified model of the K2 lending pool's account valuation and of its
single-leg liquidation, including the branch taken when the selected
collateral asset cannot cover the requested leg (the whole remaining debt of
the selected debt asset is then written off into the reserve's deficit).

- `src/math.rs` – fixed-point conventions (WAD, basis points, token scales) and
  overflow-checked arithmetic.
- `src/position.rs` – reserves, accounts and the valuation of a position
  (collateral, debt, borrowing power, health factor).
- `src/pool.rs` – the pool: listing reserves, prices, supply, borrow,
  withdraw, liquidation; each operation's result is stated as a transition of
  the abstract pool state.
- `src/laws.rs` – properties spanning the operations.
- `src/reflector.rs` – the price feed stand-in and its decimals.
- `app/` – Soroban glue (the reflector contract, token funding).
- `tests/` – the liquidation scenario and unit tests.
