use std::collections::BTreeMap;

use ethers::prelude::rand::thread_rng;
use ethers::signers::{Signer, Wallet};
use ethers::utils::parse_ether;
use ethers_signer_pool::dispatcher::signer::SignerState::{Busy, Idle};
use ethers_signer_pool::dispatcher::signer::{get_good_signer, search_is_defined, SignerState};
use ethers_signer_pool::{Words, H160, U256};

fn ether(amount: &str) -> U256 {
    let n = parse_ether(amount).unwrap();
    U256 { limbs: (n.0[0], n.0[1], n.0[2], n.0[3]) }
}

fn address(h: ethers::types::H160) -> H160 {
    let b = h.as_bytes();
    H160 {
        words: (
            u64::from_be_bytes(b[0..8].try_into().unwrap()),
            u64::from_be_bytes(b[8..16].try_into().unwrap()),
            u32::from_be_bytes(b[16..20].try_into().unwrap()),
        ),
    }
}

fn three_signers() -> Vec<H160> {
    let mut rng = thread_rng();
    let signing_keys = vec![Wallet::new(&mut rng), Wallet::new(&mut rng), Wallet::new(&mut rng)];
    signing_keys.into_iter().map(|k| address(k.address())).collect()
}

fn idle(balance: &str) -> SignerState {
    Idle { balance: ether(balance) }
}

fn busy(balance: &str, cost: &str) -> SignerState {
    Busy {
        balance: ether(balance),
        estimated_pending_spend: ether(cost),
        nonces_and_est_costs: BTreeMap::from([(U256::from(2).limbs, ether(cost))]),
    }
}

fn states(signers: &[H160], list: Vec<SignerState>) -> BTreeMap<Words, SignerState> {
    signers.iter().map(|s| s.words).zip(list).collect()
}

#[test]
fn good_idle_signer_exists() {
    let estimated_gas_cost = ether("0.24");
    let signers = three_signers();

    // 1st is busy but good, 2nd is idle and good, 3rd is idle and not good
    let signer_states =
        states(&signers, vec![busy("2.8", "0.7"), idle("4.2"), idle("0.15")]);

    let picked = get_good_signer(&signers, &signer_states, estimated_gas_cost).unwrap();
    assert_eq!(signers[picked], signers[1]);
}

#[test]
fn good_busy_signer_exists() {
    let estimated_gas_cost = ether("0.24");
    let signers = three_signers();

    // 1st is busy but good, 2nd is idle and not good, 3rd is idle and not good
    let signer_states =
        states(&signers, vec![busy("2.8", "0.7"), idle("0.2"), idle("0.15")]);

    let picked = get_good_signer(&signers, &signer_states, estimated_gas_cost).unwrap();
    assert_eq!(signers[picked], signers[0]);
}

#[test]
fn no_good_signer_exists() {
    let estimated_gas_cost = ether("0.24");
    let signers = three_signers();

    // 1st is busy but not good, 2nd is idle and not good, 3rd is idle and not good
    let signer_states =
        states(&signers, vec![busy("0.18", "0.07"), idle("0.2"), idle("0.15")]);

    assert!(get_good_signer(&signers, &signer_states, estimated_gas_cost).is_none());
}

#[test]
fn the_first_of_several_good_signers_is_picked() {
    let signers = three_signers();
    let signer_states = states(&signers, vec![idle("0.1"), idle("0.24"), idle("9")]);
    assert_eq!(get_good_signer(&signers, &signer_states, ether("0.24")), Some(1));

    let signer_states = states(&signers, vec![idle("0.1"), busy("0.94", "0.7"), busy("9", "1")]);
    assert_eq!(get_good_signer(&signers, &signer_states, ether("0.24")), Some(1));
}

#[test]
fn what_is_set_aside_is_not_spent_again() {
    let signers = three_signers();
    let signer_states =
        states(&signers, vec![busy("1", "0.8"), busy("1", "0.77"), busy("1", "0.76")]);
    assert_eq!(get_good_signer(&signers, &signer_states, ether("0.24")), Some(2));
    assert_eq!(get_good_signer(&signers, &signer_states, ether("0.25")), None);
}

#[test]
fn signers_without_a_state_are_passed_over() {
    let signers = three_signers();
    let mut signer_states = states(&signers, vec![idle("5"), idle("5"), idle("5")]);
    signer_states.remove(&signers[0].words);
    assert_eq!(get_good_signer(&signers, &signer_states, ether("0.24")), Some(1));
    assert_eq!(get_good_signer(&[], &signer_states, ether("0.24")), None);
}

#[test]
fn the_search_must_not_meet_an_overcommitted_signer() {
    let signers = three_signers();
    let cost = ether("0.24");

    let overcommitted_first =
        states(&signers, vec![busy("0.5", "0.7"), idle("0.2"), busy("9", "1")]);
    assert!(!search_is_defined(&signers, &overcommitted_first, cost));

    let good_one_before =
        states(&signers, vec![busy("9", "1"), idle("0.2"), busy("0.5", "0.7")]);
    assert!(search_is_defined(&signers, &good_one_before, cost));
    assert_eq!(get_good_signer(&signers, &good_one_before, cost), Some(0));

    let idle_one_can_pay =
        states(&signers, vec![busy("0.5", "0.7"), idle("0.3"), busy("9", "1")]);
    assert!(search_is_defined(&signers, &idle_one_can_pay, cost));
    assert_eq!(get_good_signer(&signers, &idle_one_can_pay, cost), Some(1));

    let none_can_pay = states(&signers, vec![busy("0.8", "0.7"), idle("0.2"), busy("1", "1")]);
    assert!(search_is_defined(&signers, &none_can_pay, cost));
    assert_eq!(get_good_signer(&signers, &none_can_pay, cost), None);
}
