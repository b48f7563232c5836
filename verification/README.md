# ethers-signer-pool

A pool of signers (wallets) that process an arbitrary number of transactions concurrently. Lists of
function calls go in; each call is scheduled on an appropriate signer, broadcast in a task of its
own, and its result comes back to whoever asked for it.

What is scheduled where, and who is told what, is decided by a library that is verified with Verus.

- `src/` is that library.
  - `u256` and `address`: amounts, nonces and addresses. Arithmetic is done by `ethers`.
  - `pool`: wrapping the calls of one caller.
  - `dispatcher`: the state machine of the pool, from events to actions.
  - `dispatcher::signer`: the state of a signer, and the choice of a signer for a transaction.
  - `dispatcher::broadcast`: what a signer sends, and what it reports.
  - `dispatcher::ledger` and `dispatcher::model`: what all this means in natural numbers, and the
    laws that hold of it.
- `app/` holds the tasks around it: it asks the node, and moves messages between callers, the
  dispatcher and the broadcasts.
- `tests/` runs the library.
