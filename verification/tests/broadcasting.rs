use ethers::types::transaction::eip2718::TypedTransaction;
use ethers::types::{Eip1559TransactionRequest, TransactionRequest};
use ethers_signer_pool::dispatcher::broadcast::{
    broadcast_response, gas_terms, transaction_to_send, BroadcastError,
};
use ethers_signer_pool::dispatcher::TXWithInternalNonce;
use ethers_signer_pool::{wrap_calls, H160, U256};
use tokio::sync::oneshot;

fn gas_of(tx: &TypedTransaction) -> (Option<[u64; 4]>, Option<[u64; 4]>) {
    (tx.gas_price().map(|n| n.0), tx.gas().map(|n| n.0))
}

#[test]
fn a_transaction_is_sent_at_the_price_and_with_the_gas_that_were_asked_for() {
    let legacy: TypedTransaction = TransactionRequest::pay(ethers::types::H160::repeat_byte(7), 5)
        .nonce(3)
        .gas_price(1)
        .into();
    let price = U256 { limbs: (1, 2, 3, 4) };
    let gas = U256 { limbs: (5, 6, 7, 8) };
    let sent = transaction_to_send(&legacy, price, gas);
    assert_eq!(gas_of(&sent), (Some([1, 2, 3, 4]), Some([5, 6, 7, 8])));
    assert_eq!(gas_of(&legacy), (Some([1, 0, 0, 0]), None));
    assert_eq!(sent.to(), legacy.to());
    assert_eq!(sent.value(), legacy.value());
    assert_eq!(sent.nonce(), legacy.nonce());

    let typed: TypedTransaction = Eip1559TransactionRequest::new().value(9).into();
    let sent = transaction_to_send(&typed, price, gas);
    assert_eq!(gas_of(&sent), (Some([1, 2, 3, 4]), Some([5, 6, 7, 8])));
    assert_eq!(sent.value(), typed.value());
}

#[test]
fn a_transaction_has_terms_once_price_and_gas_are_set() {
    let typed: TypedTransaction = Eip1559TransactionRequest::new().value(9).into();
    assert_eq!(gas_terms(&typed), None);
    let priced: TypedTransaction = TransactionRequest::new().gas_price(1).into();
    assert_eq!(gas_terms(&priced), None);
    let price = U256 { limbs: (1, 2, 3, 4) };
    let gas = U256 { limbs: (5, 6, 7, 8) };
    assert_eq!(gas_terms(&transaction_to_send(&typed, price, gas)), Some((price, gas)));
    assert_eq!(gas_terms(&transaction_to_send(&priced, price, gas)), Some((price, gas)));
}

#[test]
fn the_dispatcher_is_told_the_outcome() {
    let tx = TXWithInternalNonce { function_call: "f", internal_nonce: U256::from(4) };
    let signer = H160 { words: (1, 2, 3) };
    let outcome: Result<u8, &str> = Ok(17);
    let response = broadcast_response(tx, outcome, U256::from(90), signer);
    assert_eq!(response.broadcast_result, Ok(17));
    assert_eq!(response.internal_nonce, U256::from(4));
    assert_eq!(response.new_signer_balance, U256::from(90));
    assert_eq!(response.signer_address, signer);
}

#[test]
fn the_dispatcher_is_told_of_a_failure_without_its_details() {
    let tx = TXWithInternalNonce { function_call: "f", internal_nonce: U256::from(4) };
    let outcome: Result<u8, &str> = Err("out of reach");
    let response = broadcast_response(tx, outcome, U256::from(90), H160 { words: (1, 2, 3) });
    assert_eq!(response.broadcast_result, Err(BroadcastError));
    assert_eq!(response.broadcast_result.unwrap_err().message(), "Oops");
    assert_eq!(response.internal_nonce, U256::from(4));
}

#[test]
fn results_are_awaited_in_the_order_of_the_calls() {
    let calls = vec!["f", "g", "h"];
    let (requests, mut receivers) =
        wrap_calls(calls.into_iter().map(|call| (call, oneshot::channel())).collect());
    let mut sent: Vec<_> = requests.into_iter().collect();
    assert_eq!(sent.iter().map(|r| r.function_call).collect::<Vec<_>>(), ["f", "g", "h"]);
    // answered in another order
    while let Some(request) = sent.pop() {
        request.oneshot_sender.send(format!("{} done", request.function_call)).unwrap();
    }
    let results: Vec<String> = receivers.iter_mut().map(|r| r.try_recv().unwrap()).collect();
    assert_eq!(results, ["f done", "g done", "h done"]);
}
