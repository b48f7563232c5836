//! Scheduling core of a pool of signers.
//!
//! A pool holds several funded accounts and spreads transactions over them. This crate decides:
//! which nonce a transaction gets inside the pool, which account pays for it, how much of each
//! account's balance is spoken for, and who is told how a transaction went. Talking to a node and
//! moving messages between tasks is left to the program around it.

pub mod address;
pub mod dispatcher;
pub mod pool;
pub mod u256;

pub use address::{Words, H160};
pub use pool::{wrap_calls, TXWithOneshot};
pub use u256::{Limbs, U256};
