use std::collections::BTreeMap;

use ethers::utils::parse_ether;
use ethers_signer_pool::dispatcher::signer::SignerState;
use ethers_signer_pool::dispatcher::signer::SignerState::{Busy, Idle};
use ethers_signer_pool::{Limbs, U256};

fn ether(amount: &str) -> U256 {
    let n = parse_ether(amount).unwrap();
    U256 { limbs: (n.0[0], n.0[1], n.0[2], n.0[3]) }
}

fn costs(list: &[(u64, &str)]) -> BTreeMap<Limbs, U256> {
    list.iter().map(|(nonce, cost)| (U256::from(*nonce).limbs, ether(cost))).collect()
}

fn two_in_flight() -> SignerState {
    Busy {
        balance: ether("4.2"),
        estimated_pending_spend: ether("1.5"),
        nonces_and_est_costs: costs(&[(2, "0.7"), (5, "0.8")]),
    }
}

#[test]
fn state_idle_add_to_pending_spend() {
    let state = Idle { balance: ether("4.2") };

    let state = state.add_to_pending_spend(ether("0.7"), U256::from(2));
    assert_eq!(
        state,
        Busy {
            balance: ether("4.2"),
            estimated_pending_spend: ether("0.7"),
            nonces_and_est_costs: costs(&[(2, "0.7")]),
        }
    );
}

#[test]
fn state_busy_add_to_pending_spend() {
    let state = Busy {
        balance: ether("4.2"),
        estimated_pending_spend: ether("1.5"),
        nonces_and_est_costs: costs(&[(2, "0.7"), (5, "0.8")]),
    };

    let state = state.add_to_pending_spend(ether("0.2"), U256::from(6));
    assert_eq!(
        state,
        Busy {
            balance: ether("4.2"),
            estimated_pending_spend: ether("1.7"),
            nonces_and_est_costs: costs(&[(2, "0.7"), (5, "0.8"), (6, "0.2")]),
        }
    );
}

#[test]
fn state_busy_remove_from_pending_spend_to_idle() {
    let state = Busy {
        balance: ether("4.2"),
        estimated_pending_spend: ether("0.7"),
        nonces_and_est_costs: costs(&[(2, "0.7")]),
    };

    let state = state.remove_from_pending_spend(ether("3.48"), U256::from(2));
    assert_eq!(state, Idle { balance: ether("3.48") });
}

#[test]
fn state_busy_remove_from_pending_spend_still_busy() {
    let state = Busy {
        balance: ether("4.2"),
        estimated_pending_spend: ether("1.5"),
        nonces_and_est_costs: costs(&[(2, "0.7"), (5, "0.8")]),
    };

    let state = state.remove_from_pending_spend(ether("3.48"), U256::from(2));
    assert_eq!(
        state,
        Busy {
            balance: ether("3.48"),
            estimated_pending_spend: ether("0.8"),
            nonces_and_est_costs: costs(&[(5, "0.8")]),
        }
    );
}

#[test]
fn an_idle_signer_has_nothing_to_remove() {
    let state = Idle { balance: ether("4.2") };
    assert!(!state.can_remove_from_pending_spend(U256::from(2)));
}

#[test]
fn a_busy_signer_has_only_its_own_transactions_to_remove() {
    let state = two_in_flight();
    assert!(state.can_remove_from_pending_spend(U256::from(2)));
    assert!(state.can_remove_from_pending_spend(U256::from(5)));
    assert!(!state.can_remove_from_pending_spend(U256::from(6)));
}

#[test]
fn a_cost_that_was_not_set_aside_cannot_be_removed() {
    let state = Busy {
        balance: ether("4.2"),
        estimated_pending_spend: ether("0.1"),
        nonces_and_est_costs: costs(&[(2, "0.7")]),
    };
    assert!(!state.can_remove_from_pending_spend(U256::from(2)));
}

#[test]
fn removing_undoes_adding() {
    let state = two_in_flight()
        .add_to_pending_spend(ether("0.2"), U256::from(6))
        .remove_from_pending_spend(ether("4.2"), U256::from(6));
    assert_eq!(state, two_in_flight());
}

#[test]
fn transactions_may_be_added_in_either_order() {
    let one = Idle { balance: ether("4.2") }
        .add_to_pending_spend(ether("0.7"), U256::from(2))
        .add_to_pending_spend(ether("0.8"), U256::from(5));
    let other = Idle { balance: ether("4.2") }
        .add_to_pending_spend(ether("0.8"), U256::from(5))
        .add_to_pending_spend(ether("0.7"), U256::from(2));
    assert_eq!(one, two_in_flight());
    assert_eq!(other, two_in_flight());
}

#[test]
fn transactions_may_end_in_either_order() {
    let one = two_in_flight()
        .add_to_pending_spend(ether("0.2"), U256::from(6))
        .remove_from_pending_spend(ether("3.9"), U256::from(2))
        .remove_from_pending_spend(ether("3.1"), U256::from(6));
    let other = two_in_flight()
        .add_to_pending_spend(ether("0.2"), U256::from(6))
        .remove_from_pending_spend(ether("4.0"), U256::from(6))
        .remove_from_pending_spend(ether("3.1"), U256::from(2));
    let expected = Busy {
        balance: ether("3.1"),
        estimated_pending_spend: ether("0.8"),
        nonces_and_est_costs: costs(&[(5, "0.8")]),
    };
    assert_eq!(one, expected);
    assert_eq!(other, expected);
}

#[test]
fn a_nonce_that_is_used_twice_keeps_the_last_cost() {
    let state = two_in_flight().add_to_pending_spend(ether("0.2"), U256::from(5));
    assert_eq!(
        state,
        Busy {
            balance: ether("4.2"),
            estimated_pending_spend: ether("1.7"),
            nonces_and_est_costs: costs(&[(2, "0.7"), (5, "0.2")]),
        }
    );
}

#[test]
fn amounts_carry_and_borrow_over_all_digits() {
    let max = u64::MAX;
    let state = Busy {
        balance: U256 { limbs: (max, max, max, max) },
        estimated_pending_spend: U256 { limbs: (max, max, max, 6) },
        nonces_and_est_costs: BTreeMap::from([(
            (9, 9, 9, 9),
            U256 { limbs: (max, max, max, 6) },
        )]),
    };
    let state = state.add_to_pending_spend(U256::from(1), U256 { limbs: (9, 9, 9, 8) });
    assert_eq!(
        state,
        Busy {
            balance: U256 { limbs: (max, max, max, max) },
            estimated_pending_spend: U256 { limbs: (0, 0, 0, 7) },
            nonces_and_est_costs: BTreeMap::from([
                ((9, 9, 9, 8), U256::from(1)),
                ((9, 9, 9, 9), U256 { limbs: (max, max, max, 6) }),
            ]),
        }
    );
    let state = state.remove_from_pending_spend(U256::from(3), U256 { limbs: (9, 9, 9, 8) });
    assert_eq!(
        state,
        Busy {
            balance: U256::from(3),
            estimated_pending_spend: U256 { limbs: (max, max, max, 6) },
            nonces_and_est_costs: BTreeMap::from([(
                (9, 9, 9, 9),
                U256 { limbs: (max, max, max, 6) },
            )]),
        }
    );
}
