//! What a signer does to broadcast a transaction, but for talking to the node.

use ethers::types::transaction::eip2718::TypedTransaction;
use vstd::prelude::*;

use crate::address::H160;
use crate::dispatcher::{BroadcastResponse, TXWithInternalNonce};
use crate::u256::U256;

verus! {

/// A transaction of any kind that Ethereum knows.
#[verifier::external_type_specification]
#[verifier::external_body]
pub struct ExTypedTransaction(TypedTransaction);

/// `TypedTransaction::clone` returns a transaction that is equal in every field.
pub assume_specification[ <TypedTransaction as Clone>::clone ](
    tx: &TypedTransaction,
) -> (r: TypedTransaction)
    ensures
        r == *tx,
;

/// What `TypedTransaction::set_gas_price` makes of a transaction.
pub uninterp spec fn gas_price_set(tx: TypedTransaction, gas_price: nat) -> TypedTransaction;

/// What `TypedTransaction::set_gas` makes of a transaction.
pub uninterp spec fn gas_set(tx: TypedTransaction, gas: nat) -> TypedTransaction;

/// What `TypedTransaction::gas_price` returns: what a unit of gas may cost, where it was set.
pub uninterp spec fn gas_price_of(tx: TypedTransaction) -> Option<nat>;

/// What `TypedTransaction::gas` returns: how many units of gas may be used, where it was set.
pub uninterp spec fn gas_of(tx: TypedTransaction) -> Option<nat>;

/// Sets what a unit of gas may cost, by `TypedTransaction::set_gas_price`.
///
/// What that makes of the transaction follows from the transaction and the price alone. After it,
/// `gas_price` gives the price back; what `gas` gives has not changed.
#[verifier::external_body]
fn set_gas_price(tx: &mut TypedTransaction, gas_price: U256)
    ensures
        *final(tx) == gas_price_set(*old(tx), gas_price@),
        gas_price_of(*final(tx)) == Some(gas_price@),
        gas_of(*final(tx)) == gas_of(*old(tx)),
{
    let p = gas_price.limbs;
    tx.set_gas_price(ethers::types::U256([p.0, p.1, p.2, p.3]));
}

/// Sets how many units of gas may be used, by `TypedTransaction::set_gas`.
///
/// What that makes of the transaction follows from the transaction and the number alone. After it,
/// `gas` gives the number back; what `gas_price` gives has not changed.
#[verifier::external_body]
fn set_gas(tx: &mut TypedTransaction, gas: U256)
    ensures
        *final(tx) == gas_set(*old(tx), gas@),
        gas_of(*final(tx)) == Some(gas@),
        gas_price_of(*final(tx)) == gas_price_of(*old(tx)),
{
    let g = gas.limbs;
    tx.set_gas(ethers::types::U256([g.0, g.1, g.2, g.3]));
}

/// Reads what a unit of gas may cost, by `TypedTransaction::gas_price`.
///
/// What that returns follows from the transaction alone.
#[verifier::external_body]
fn gas_price(tx: &TypedTransaction) -> (r: Option<U256>)
    ensures
        gas_price_of(*tx) == (match r {
            Some(price) => Some(price@),
            None => None,
        }),
{
    tx.gas_price().map(|n| U256 { limbs: (n.0[0], n.0[1], n.0[2], n.0[3]) })
}

/// Reads how many units of gas may be used, by `TypedTransaction::gas`.
///
/// What that returns follows from the transaction alone.
#[verifier::external_body]
fn gas(tx: &TypedTransaction) -> (r: Option<U256>)
    ensures
        gas_of(*tx) == (match r {
            Some(units) => Some(units@),
            None => None,
        }),
{
    tx.gas().map(|n| U256 { limbs: (n.0[0], n.0[1], n.0[2], n.0[3]) })
}

/// The terms on which a transaction goes out: the price of a unit of gas and the units that may be
/// used, where the transaction says both.
pub fn gas_terms(tx: &TypedTransaction) -> (r: Option<(U256, U256)>)
    ensures
        r is Some <==> gas_price_of(*tx) is Some && gas_of(*tx) is Some,
        r matches Some((price, units)) ==> gas_price_of(*tx) == Some(price@) && gas_of(*tx) == Some(
            units@,
        ),
{
    match (gas_price(tx), gas(tx)) {
        (Some(price), Some(units)) => Some((price, units)),
        _ => None,
    }
}

/// The transaction to broadcast: the one that was asked for, at the given gas price and with the
/// given amount of gas.
pub fn transaction_to_send(tx: &TypedTransaction, gas_price: U256, gas: U256) -> (r:
    TypedTransaction)
    ensures
        r == gas_set(gas_price_set(*tx, gas_price@), gas@),
        gas_price_of(r) == Some(gas_price@),
        gas_of(r) == Some(gas@),
{
    let mut tx = tx.clone();
    set_gas_price(&mut tx, gas_price);
    set_gas(&mut tx, gas);
    tx
}

/// A broadcast failed.
#[derive(Clone, Copy, Debug, PartialEq, Eq)]
pub struct BroadcastError;

impl BroadcastError {
    /// What a caller is told of a failed broadcast.
    pub fn message(&self) -> (r: String)
        ensures
            r@ == "Oops"@,
    {
        "Oops".to_string()
    }
}

/// What the dispatcher is told of the broadcast of a transaction: its result, whose details are
/// dropped where it failed, with the nonce of the transaction and the address and the new balance
/// of the signer.
pub fn broadcast_response<C, O, E>(
    tx: TXWithInternalNonce<C>,
    broadcast_result: Result<O, E>,
    new_signer_balance: U256,
    signer_address: H160,
) -> (r: BroadcastResponse<Result<O, BroadcastError>>)
    ensures
        r.broadcast_result == (match broadcast_result {
            Ok(outcome) => Ok(outcome),
            Err(_) => Err::<O, BroadcastError>(BroadcastError),
        }),
        r.internal_nonce == tx.internal_nonce,
        r.new_signer_balance == new_signer_balance,
        r.signer_address == signer_address,
{
    BroadcastResponse {
        broadcast_result: match broadcast_result {
            Ok(outcome) => Ok(outcome),
            Err(_) => Err(BroadcastError),
        },
        internal_nonce: tx.internal_nonce,
        new_signer_balance,
        signer_address,
    }
}

} // verus!
