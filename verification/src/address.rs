//! Addresses of accounts.

use vstd::prelude::*;

verus! {

/// The twenty bytes of an address, read as big-endian numbers of eight, eight and four bytes.
pub type Words = (u64, u64, u32);

/// The address of an account.
#[derive(Clone, Copy, Debug, PartialEq, Eq)]
pub struct H160 {
    /// The bytes of the address.
    pub words: Words,
}

} // verus!
