# fuzio_staking

Staking of Fuzio LP tokens for rewards in one or more tokens, with each
handler's behaviour proved by Verus. Each reward token is paid out by a list
of schedules; `unbond` starts the lock on bonded LP tokens, `withdraw` returns
those whose lock has passed, and `redeem` pays the rewards accrued so far.

- `src/` is the verified library. `state` holds the records the contract keeps
  (amounts as `u128`, reward indices as `Decimal` atomics), `math` the calls
  into `cosmwasm_std`'s fixed-point arithmetic, `reward` the reward index and
  staker accrual, `schedule` the check on replacement schedules, `contract`
  the handlers (instantiate, bond, unbond, redeem, withdraw, the admin
  updates, migrate), `guard` the decisions of whether a handler would panic,
  and `laws` the properties that span several calls.
- `app/` is the CosmWasm contract around it: entry points, storage through
  `cw-storage-plus`, message encoding, and the host's address validation.
- `tests/` runs the library on concrete values.
