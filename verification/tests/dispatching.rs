use std::collections::BTreeMap;

use ethers_signer_pool::dispatcher::signer::SignerState::{Busy, Idle};
use ethers_signer_pool::dispatcher::{
    estimate_gas_cost, handle_broadcast_response, handle_new_tx_with_oneshot, Action,
    BroadcastResponse, Dispatcher, Event,
};
use ethers_signer_pool::{TXWithOneshot, H160, U256};

type PoolEvent = Event<&'static str, &'static str, &'static str>;
type PoolAction = Action<&'static str, &'static str, &'static str>;

const A: H160 = H160 { words: (1, 2, 3) };
const B: H160 = H160 { words: (1, 2, 4) };

fn transaction(call: &'static str, caller: &'static str, price: u64, units: u64) -> PoolEvent {
    Event::Transaction {
        tx: TXWithOneshot { function_call: call, oneshot_sender: caller },
        gas_price: U256::from(price),
        gas_units: U256::from(units),
    }
}

fn ended(signer: H160, nonce: u64, balance: u64, result: &'static str) -> PoolEvent {
    Event::Broadcast {
        response: BroadcastResponse {
            broadcast_result: result,
            internal_nonce: U256::from(nonce),
            new_signer_balance: U256::from(balance),
            signer_address: signer,
        },
    }
}

fn pool(balances: &[(H160, u64)]) -> Dispatcher<&'static str> {
    Dispatcher::new(balances.iter().map(|(a, n)| (*a, U256::from(*n))).collect())
}

fn take(dispatcher: &mut Dispatcher<&'static str>, event: PoolEvent) -> PoolAction {
    assert!(dispatcher.admits(&event));
    dispatcher.step(event)
}

fn assert_broadcast(action: PoolAction, signer: usize, call: &str, nonce: u64) {
    match action {
        Action::Broadcast { signer: s, tx } => {
            assert_eq!(s, signer);
            assert_eq!(tx.function_call, call);
            assert_eq!(tx.internal_nonce, U256::from(nonce));
        }
        _ => panic!("expected a broadcast"),
    }
}

fn assert_reply(action: PoolAction, caller: &str, answer: &str) {
    match action {
        Action::Reply { responder, result } => {
            assert_eq!(responder, caller);
            assert_eq!(result, answer);
        }
        _ => panic!("expected a reply"),
    }
}

#[test]
fn the_estimated_cost_is_the_product() {
    assert_eq!(estimate_gas_cost(U256::from(7), U256::from(6)), U256::from(42));
    let cost = estimate_gas_cost(U256::from(u64::MAX), U256 { limbs: (0, 2, 0, 0) });
    assert_eq!(cost, U256 { limbs: (0, u64::MAX - 1, 1, 0) });
}

#[test]
fn every_result_goes_to_its_own_caller() {
    let mut d = pool(&[(A, 100), (B, 100)]);
    assert_broadcast(take(&mut d, transaction("f", "alice", 2, 20)), 0, "f", 1);
    assert_broadcast(take(&mut d, transaction("g", "bob", 2, 30)), 1, "g", 2);
    assert_broadcast(take(&mut d, transaction("h", "carol", 1, 60)), 0, "h", 3);
    assert_reply(take(&mut d, ended(A, 3, 45, "h done")), "carol", "h done");
    assert_reply(take(&mut d, ended(B, 2, 41, "g failed")), "bob", "g failed");
    assert_reply(take(&mut d, ended(A, 1, 5, "f done")), "alice", "f done");
}

#[test]
fn a_result_is_taken_once() {
    let mut d = pool(&[(A, 100)]);
    take(&mut d, transaction("f", "alice", 1, 40));
    take(&mut d, ended(A, 1, 60, "f done"));
    assert!(!d.admits(&ended(A, 1, 60, "f done")));
}

#[test]
fn idle_signers_are_tried_before_busy_ones() {
    let mut d = pool(&[(A, 1000), (B, 50)]);
    assert_broadcast(take(&mut d, transaction("f", "alice", 1, 40)), 0, "f", 1);
    assert_broadcast(take(&mut d, transaction("g", "bob", 1, 40)), 1, "g", 2);
    assert_broadcast(take(&mut d, transaction("h", "carol", 1, 40)), 0, "h", 3);
    take(&mut d, ended(B, 2, 45, "g done"));
    assert_broadcast(take(&mut d, transaction("i", "dan", 1, 40)), 1, "i", 4);
}

#[test]
fn what_is_set_aside_cannot_be_spent_twice() {
    let mut d = pool(&[(A, 100)]);
    assert_broadcast(take(&mut d, transaction("f", "alice", 1, 60)), 0, "f", 1);
    assert!(matches!(take(&mut d, transaction("g", "bob", 1, 41)), Action::Nothing));
    assert_broadcast(take(&mut d, transaction("h", "carol", 1, 40)), 0, "h", 3);
    take(&mut d, ended(A, 1, 81, "f done"));
    assert_broadcast(take(&mut d, transaction("i", "dan", 1, 41)), 0, "i", 4);
}

#[test]
fn a_transaction_without_a_signer_still_takes_a_nonce() {
    let mut d = pool(&[(A, 10)]);
    assert!(matches!(take(&mut d, transaction("f", "alice", 1, 11)), Action::Nothing));
    assert_broadcast(take(&mut d, transaction("g", "bob", 1, 10)), 0, "g", 2);
    let mut none = pool(&[]);
    assert!(matches!(take(&mut none, transaction("f", "alice", 0, 0)), Action::Nothing));
}

#[test]
fn the_last_balance_of_an_account_that_is_listed_twice_counts() {
    let mut d = pool(&[(A, 10), (A, 100)]);
    assert_broadcast(take(&mut d, transaction("f", "alice", 1, 60)), 0, "f", 1);
    assert_broadcast(take(&mut d, transaction("g", "bob", 1, 40)), 0, "g", 2);
    assert!(matches!(take(&mut d, transaction("h", "carol", 1, 1)), Action::Nothing));
}

#[test]
fn only_what_is_in_flight_can_end() {
    let mut d = pool(&[(A, 100), (B, 100)]);
    assert!(!d.admits(&ended(A, 1, 60, "f done")));
    take(&mut d, transaction("f", "alice", 1, 40));
    assert!(d.admits(&ended(A, 1, 60, "f done")));
    assert!(!d.admits(&ended(B, 1, 60, "f done")));
    assert!(!d.admits(&ended(A, 2, 60, "f done")));
    assert!(!d.admits(&ended(H160 { words: (9, 9, 9) }, 1, 60, "f done")));
}

#[test]
fn whoever_waits_is_answered_before_the_dispatcher_fails() {
    let mut d = pool(&[(A, 100), (B, 100)]);
    take(&mut d, transaction("f", "alice", 1, 40));
    let wrong_signer = ended(B, 1, 60, "f done");
    assert!(!d.admits(&wrong_signer));
    assert_eq!(d.reply_owed(wrong_signer), Some(("alice", "f done")));

    assert_eq!(pool(&[(A, 100)]).reply_owed(ended(A, 1, 60, "f done")), None);
    assert_eq!(pool(&[(A, 100)]).reply_owed(transaction("f", "alice", 1, 1)), None);
}

#[test]
fn a_cost_that_does_not_fit_is_not_admitted() {
    let d = pool(&[(A, 100)]);
    let half = U256 { limbs: (0, 0, 1, 0) };
    let event = |gas_units| -> PoolEvent {
        Event::Transaction {
            tx: TXWithOneshot { function_call: "f", oneshot_sender: "alice" },
            gas_price: half,
            gas_units,
        }
    };
    assert!(!d.admits(&event(half)));
    assert!(d.admits(&event(U256 { limbs: (u64::MAX, u64::MAX, 0, 0) })));
}

#[test]
fn a_balance_below_what_is_set_aside_stops_the_search() {
    let mut d = pool(&[(A, 100)]);
    take(&mut d, transaction("f", "alice", 1, 60));
    take(&mut d, transaction("g", "bob", 1, 40));
    take(&mut d, ended(A, 1, 39, "f done"));
    assert!(!d.admits(&transaction("h", "carol", 1, 1)));
    take(&mut d, ended(A, 2, 5, "g done"));
    assert!(d.admits(&transaction("h", "carol", 1, 1)));
}

#[test]
fn the_dispatcher_ends_with_its_callers() {
    let mut d = pool(&[(A, 100)]);
    assert!(matches!(take(&mut d, Event::Closed), Action::Stop));
}

#[test]
fn a_new_transaction_changes_one_signer() {
    let mut states = BTreeMap::from([
        (A.words, Idle { balance: U256::from(10) }),
        (B.words, Idle { balance: U256::from(100) }),
    ]);
    let mut responders = BTreeMap::new();
    let picked = handle_new_tx_with_oneshot(
        &[A, B],
        &mut states,
        TXWithOneshot { function_call: "f", oneshot_sender: "alice" },
        U256::from(7),
        &mut responders,
        U256::from(3),
        U256::from(20),
    );
    let (signer, tx) = picked.unwrap();
    assert_eq!((signer, tx.function_call, tx.internal_nonce), (1, "f", U256::from(7)));
    assert_eq!(responders, BTreeMap::from([((7, 0, 0, 0), "alice")]));
    assert_eq!(states[&A.words], Idle { balance: U256::from(10) });
    assert_eq!(
        states[&B.words],
        Busy {
            balance: U256::from(100),
            estimated_pending_spend: U256::from(60),
            nonces_and_est_costs: BTreeMap::from([((7, 0, 0, 0), U256::from(60))]),
        }
    );

    let (responder, result) = handle_broadcast_response(
        &mut states,
        BroadcastResponse {
            broadcast_result: "done",
            internal_nonce: U256::from(7),
            new_signer_balance: U256::from(44),
            signer_address: B,
        },
        &mut responders,
    );
    assert_eq!((responder, result), ("alice", "done"));
    assert!(responders.is_empty());
    assert_eq!(states[&A.words], Idle { balance: U256::from(10) });
    assert_eq!(states[&B.words], Idle { balance: U256::from(44) });
}

#[test]
fn whoever_waits_for_a_transaction_without_a_signer_stays_noted() {
    let mut states = BTreeMap::from([(A.words, Idle { balance: U256::from(10) })]);
    let mut responders = BTreeMap::new();
    let picked = handle_new_tx_with_oneshot(
        &[A],
        &mut states,
        TXWithOneshot { function_call: "f", oneshot_sender: "alice" },
        U256::from(1),
        &mut responders,
        U256::from(3),
        U256::from(20),
    );
    assert!(picked.is_none());
    assert_eq!(responders, BTreeMap::from([((1, 0, 0, 0), "alice")]));
    assert_eq!(states[&A.words], Idle { balance: U256::from(10) });
}
