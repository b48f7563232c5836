//! What the functions of the dispatcher do, in terms of what goes into a call and what comes out.

use std::collections::BTreeMap;

use ethers::types::transaction::eip2718::TypedTransaction;
use vstd::prelude::*;

use crate::address::{Words, H160};
use crate::dispatcher::broadcast::{
    broadcast_response, gas_terms, transaction_to_send, BroadcastError,
};
use crate::dispatcher::ledger::Ledger;
use crate::dispatcher::model::{
    law_broadcast_is_what_came_in, law_broadcast_sets_its_cost_aside,
    law_end_of_broadcast_is_booked, law_signers_start_with_their_balance,
    law_transaction_is_broadcast_iff_a_signer_can_pay,
};
use crate::dispatcher::signer::{
    get_good_signer, law_books_are_the_state, law_books_are_the_states,
    law_first_busy_signer_that_can_pay_is_picked, law_first_idle_signer_that_can_pay_is_picked,
    law_picked_signer_can_pay, law_signer_is_picked_iff_one_can_pay, ledgers, SignerState,
};
use crate::dispatcher::{
    estimate_gas_cost, handle_broadcast_response, handle_new_tx_with_oneshot, Action,
    BroadcastResponse, Dispatcher, Event, TXWithInternalNonce,
};
use crate::pool::TXWithOneshot;
use crate::u256::{
    law_by_value_is_the_same_map, law_value_tells_numbers_apart, lemma_by_value_lookup, Limbs,
    U256,
};

verus! {

/// An idle signer that is handed a transaction is busy with that transaction alone: it keeps its
/// balance, and sets aside the estimated cost.
pub proof fn law_adding_to_an_idle_signer(
    balance: U256,
    estimated_gas_cost: U256,
    internal_nonce: U256,
    r: SignerState,
)
    requires
        call_ensures(
            SignerState::add_to_pending_spend,
            (SignerState::Idle { balance }, estimated_gas_cost, internal_nonce),
            r,
        ),
    ensures
        r matches SignerState::Busy {
            balance: kept,
            estimated_pending_spend: aside,
            nonces_and_est_costs: flying,
        } && kept == balance && aside == estimated_gas_cost && flying@[internal_nonce.limbs]
            == estimated_gas_cost && forall|k: Limbs| #[trigger]
            flying@.contains_key(k) <==> k == internal_nonce.limbs,
{
    match r {
        SignerState::Busy {
            balance: kept,
            estimated_pending_spend: aside,
            nonces_and_est_costs: flying,
        } => {
            law_books_are_the_state(kept, aside, flying);
            law_value_tells_numbers_apart(kept, balance);
            law_value_tells_numbers_apart(aside, estimated_gas_cost);
            assert forall|k: Limbs| #[trigger] flying@.contains_key(k) <==> k
                == internal_nonce.limbs by {
                let nonce = U256 { limbs: k };
                assert(r@.costs().contains_key(nonce@) <==> flying@.contains_key(nonce.limbs));
                if nonce@ == internal_nonce@ {
                    law_value_tells_numbers_apart(nonce, internal_nonce);
                }
            }
            assert(flying@.contains_key(internal_nonce.limbs));
            law_value_tells_numbers_apart(flying@[internal_nonce.limbs], estimated_gas_cost);
        },
        _ => {},
    }
}

/// A busy signer that is handed a transaction is busy with it beside the others: it keeps its
/// balance, and sets aside the estimated cost beside what it had set aside.
pub proof fn law_adding_to_a_busy_signer(
    balance: U256,
    estimated_pending_spend: U256,
    nonces_and_est_costs: BTreeMap<Limbs, U256>,
    estimated_gas_cost: U256,
    internal_nonce: U256,
    r: SignerState,
)
    requires
        call_ensures(
            SignerState::add_to_pending_spend,
            (
                SignerState::Busy { balance, estimated_pending_spend, nonces_and_est_costs },
                estimated_gas_cost,
                internal_nonce,
            ),
            r,
        ),
    ensures
        r matches SignerState::Busy {
            balance: kept,
            estimated_pending_spend: aside,
            nonces_and_est_costs: flying,
        } && kept == balance && aside@ == estimated_pending_spend@ + estimated_gas_cost@
            && flying@[internal_nonce.limbs] == estimated_gas_cost && (forall|k: Limbs| #[trigger]
            flying@.contains_key(k) <==> k == internal_nonce.limbs
                || nonces_and_est_costs@.contains_key(k)) && forall|k: Limbs|
            k != internal_nonce.limbs && nonces_and_est_costs@.contains_key(k)
                ==> #[trigger] flying@[k] == nonces_and_est_costs@[k],
{
    let before = SignerState::Busy { balance, estimated_pending_spend, nonces_and_est_costs };
    law_books_are_the_state(balance, estimated_pending_spend, nonces_and_est_costs);
    match r {
        SignerState::Busy {
            balance: kept,
            estimated_pending_spend: aside,
            nonces_and_est_costs: flying,
        } => {
            law_books_are_the_state(kept, aside, flying);
            law_value_tells_numbers_apart(kept, balance);
            assert forall|k: Limbs| #[trigger] flying@.contains_key(k) <==> k
                == internal_nonce.limbs || nonces_and_est_costs@.contains_key(k) by {
                let nonce = U256 { limbs: k };
                assert(r@.costs().contains_key(nonce@) <==> flying@.contains_key(nonce.limbs));
                assert(before@.costs().contains_key(nonce@) <==> nonces_and_est_costs@.contains_key(
                    nonce.limbs,
                ));
                if nonce@ == internal_nonce@ {
                    law_value_tells_numbers_apart(nonce, internal_nonce);
                }
            }
            assert forall|k: Limbs|
                k != internal_nonce.limbs && nonces_and_est_costs@.contains_key(
                    k,
                ) implies #[trigger] flying@[k] == nonces_and_est_costs@[k] by {
                let nonce = U256 { limbs: k };
                if nonce@ == internal_nonce@ {
                    law_value_tells_numbers_apart(nonce, internal_nonce);
                }
                assert(flying@.contains_key(nonce.limbs));
                assert(nonces_and_est_costs@.contains_key(nonce.limbs));
                law_value_tells_numbers_apart(flying@[k], nonces_and_est_costs@[k]);
            }
            assert(flying@.contains_key(internal_nonce.limbs));
            law_value_tells_numbers_apart(flying@[internal_nonce.limbs], estimated_gas_cost);
        },
        _ => {},
    }
}

/// A signer from which a transaction is taken has the new balance. Where it has no other, it is
/// idle; otherwise it is busy with the others, each at the cost it had, and what it sets aside is
/// less by the cost of the one that was taken.
pub proof fn law_removing_from_a_busy_signer(
    balance: U256,
    estimated_pending_spend: U256,
    nonces_and_est_costs: BTreeMap<Limbs, U256>,
    new_balance: U256,
    internal_nonce: U256,
    r: SignerState,
)
    requires
        nonces_and_est_costs@.contains_key(internal_nonce.limbs),
        nonces_and_est_costs@[internal_nonce.limbs]@ <= estimated_pending_spend@,
        call_ensures(
            SignerState::remove_from_pending_spend,
            (
                SignerState::Busy { balance, estimated_pending_spend, nonces_and_est_costs },
                new_balance,
                internal_nonce,
            ),
            r,
        ),
    ensures
        match r {
            SignerState::Idle { balance: now } => now == new_balance && forall|k: Limbs| #[trigger]
                nonces_and_est_costs@.contains_key(k) ==> k == internal_nonce.limbs,
            SignerState::Busy {
                balance: now,
                estimated_pending_spend: aside,
                nonces_and_est_costs: flying,
            } => now == new_balance && aside@ + nonces_and_est_costs@[internal_nonce.limbs]@
                == estimated_pending_spend@ && (exists|k: Limbs| flying@.contains_key(k)) && (
            forall|k: Limbs| #[trigger]
                flying@.contains_key(k) <==> k != internal_nonce.limbs
                    && nonces_and_est_costs@.contains_key(k)) && forall|k: Limbs|
                k != internal_nonce.limbs && nonces_and_est_costs@.contains_key(k)
                    ==> #[trigger] flying@[k] == nonces_and_est_costs@[k],
        },
{
    let before = SignerState::Busy { balance, estimated_pending_spend, nonces_and_est_costs };
    law_books_are_the_state(balance, estimated_pending_spend, nonces_and_est_costs);
    let left = before@.costs().remove(internal_nonce@);
    assert(before@.costs().contains_key(internal_nonce@));
    match r {
        SignerState::Idle { balance: now } => {
            law_value_tells_numbers_apart(now, new_balance);
            assert(left.is_empty());
            assert forall|k: Limbs| #[trigger] nonces_and_est_costs@.contains_key(k) implies k
                == internal_nonce.limbs by {
                let nonce = U256 { limbs: k };
                assert(before@.costs().contains_key(nonce@));
                assert(!left.contains_key(nonce@));
                law_value_tells_numbers_apart(nonce, internal_nonce);
            }
        },
        SignerState::Busy {
            balance: now,
            estimated_pending_spend: aside,
            nonces_and_est_costs: flying,
        } => {
            law_books_are_the_state(now, aside, flying);
            law_value_tells_numbers_apart(now, new_balance);
            assert forall|k: Limbs| #[trigger] flying@.contains_key(k) <==> k
                != internal_nonce.limbs && nonces_and_est_costs@.contains_key(k) by {
                let nonce = U256 { limbs: k };
                assert(r@.costs().contains_key(nonce@) <==> flying@.contains_key(nonce.limbs));
                assert(before@.costs().contains_key(nonce@) <==> nonces_and_est_costs@.contains_key(
                    nonce.limbs,
                ));
                if nonce@ == internal_nonce@ {
                    law_value_tells_numbers_apart(nonce, internal_nonce);
                }
            }
            assert forall|k: Limbs|
                k != internal_nonce.limbs && nonces_and_est_costs@.contains_key(
                    k,
                ) implies #[trigger] flying@[k] == nonces_and_est_costs@[k] by {
                let nonce = U256 { limbs: k };
                if nonce@ == internal_nonce@ {
                    law_value_tells_numbers_apart(nonce, internal_nonce);
                }
                assert(flying@.contains_key(nonce.limbs));
                assert(nonces_and_est_costs@.contains_key(nonce.limbs));
                law_value_tells_numbers_apart(flying@[k], nonces_and_est_costs@[k]);
            }
            let other = choose|n: nat| left.contains_key(n);
            assert(left.contains_key(other));
            law_by_value_is_the_same_map(flying@, other);
            let key = choose|key: U256| key@ == other && #[trigger] flying@.contains_key(key.limbs);
            assert(flying@.contains_key(key.limbs));
        },
    }
}

/// A transaction can be taken from a signer exactly where the signer is busy with it and has set
/// aside its cost.
pub proof fn law_what_can_be_removed(state: &SignerState, internal_nonce: U256, r: bool)
    requires
        call_ensures(
            SignerState::can_remove_from_pending_spend,
            (state, internal_nonce),
            r,
        ),
    ensures
        r <==> (state matches SignerState::Busy {
            estimated_pending_spend,
            nonces_and_est_costs,
            ..
        } && nonces_and_est_costs@.contains_key(internal_nonce.limbs)
            && nonces_and_est_costs@[internal_nonce.limbs]@ <= estimated_pending_spend@),
{
    match state {
        SignerState::Busy { balance, estimated_pending_spend, nonces_and_est_costs } => {
            law_books_are_the_state(*balance, *estimated_pending_spend, *nonces_and_est_costs);
            assert(state@.costs().contains_key(internal_nonce@)
                <==> nonces_and_est_costs@.contains_key(internal_nonce.limbs));
        },
        _ => {},
    }
}

/// The search gives the first idle signer whose balance covers the cost.
pub proof fn law_search_gives_the_first_idle_signer_that_can_pay(
    signers: &[H160],
    signer_states: &BTreeMap<Words, SignerState>,
    estimated_gas_cost: U256,
    i: int,
    r: Option<usize>,
)
    requires
        call_ensures(get_good_signer, (signers, signer_states, estimated_gas_cost), r),
        0 <= i < signers@.len(),
        signer_states@.contains_key(signers@[i].words),
        signer_states@[signers@[i].words] matches SignerState::Idle { balance } && balance@
            >= estimated_gas_cost@,
        forall|j: int|
            0 <= j < i && signer_states@.contains_key((#[trigger] signers@[j]).words) ==> (
            signer_states@[signers@[j].words] matches SignerState::Idle { balance } ==> balance@
                < estimated_gas_cost@),
    ensures
        r matches Some(k) && k == i,
{
    let books = ledgers(signer_states@);
    assert(books.contains_key(signers@[i].words));
    assert forall|j: int|
        0 <= j < i && books.contains_key((#[trigger] signers@[j]).words) implies (
    books[signers@[j].words] matches Ledger::Idle { balance } ==> balance
        < estimated_gas_cost@) by {
        law_books_are_the_states(signer_states@, signers@[j].words);
    }
    law_first_idle_signer_that_can_pay_is_picked(signers@, books, estimated_gas_cost@, i);
}

/// Where no idle signer's balance covers the cost, the search gives the first busy signer whose
/// balance covers it together with what is set aside.
pub proof fn law_search_gives_the_first_busy_signer_that_can_pay(
    signers: &[H160],
    signer_states: &BTreeMap<Words, SignerState>,
    estimated_gas_cost: U256,
    i: int,
    r: Option<usize>,
)
    requires
        call_ensures(get_good_signer, (signers, signer_states, estimated_gas_cost), r),
        forall|j: int|
            0 <= j < signers@.len() && signer_states@.contains_key((#[trigger] signers@[j]).words)
                ==> (signer_states@[signers@[j].words] matches SignerState::Idle { balance }
                ==> balance@ < estimated_gas_cost@),
        0 <= i < signers@.len(),
        signer_states@.contains_key(signers@[i].words),
        signer_states@[signers@[i].words] matches SignerState::Busy {
            balance,
            estimated_pending_spend,
            ..
        } && balance@ >= estimated_pending_spend@ + estimated_gas_cost@,
        forall|j: int|
            0 <= j < i && signer_states@.contains_key((#[trigger] signers@[j]).words) ==> (
            signer_states@[signers@[j].words] matches SignerState::Busy {
                balance,
                estimated_pending_spend,
                ..
            } ==> balance@ < estimated_pending_spend@ + estimated_gas_cost@),
    ensures
        r matches Some(k) && k == i,
{
    let books = ledgers(signer_states@);
    assert(books.contains_key(signers@[i].words));
    assert forall|j: int|
        0 <= j < signers@.len() && books.contains_key((#[trigger] signers@[j]).words) implies (
    books[signers@[j].words] matches Ledger::Idle { balance } ==> balance
        < estimated_gas_cost@) by {
        law_books_are_the_states(signer_states@, signers@[j].words);
    }
    assert forall|j: int|
        0 <= j < i && books.contains_key((#[trigger] signers@[j]).words) implies (
    books[signers@[j].words] matches Ledger::Busy { balance, pending, .. } ==> balance < pending
        + estimated_gas_cost@) by {
        law_books_are_the_states(signer_states@, signers@[j].words);
    }
    law_first_busy_signer_that_can_pay_is_picked(signers@, books, estimated_gas_cost@, i);
}

/// The search gives a signer exactly where one can pay.
pub proof fn law_search_gives_a_signer_iff_one_can_pay(
    signers: &[H160],
    signer_states: &BTreeMap<Words, SignerState>,
    estimated_gas_cost: U256,
    r: Option<usize>,
)
    requires
        call_ensures(get_good_signer, (signers, signer_states, estimated_gas_cost), r),
    ensures
        r is Some <==> exists|i: int|
            0 <= i < signers@.len() && signer_states@.contains_key((#[trigger] signers@[i]).words)
                && match (signer_states@[signers@[i].words]) {
                SignerState::Idle { balance } => balance@ >= estimated_gas_cost@,
                SignerState::Busy { balance, estimated_pending_spend, .. } => balance@
                    >= estimated_pending_spend@ + estimated_gas_cost@,
            },
{
    let books = ledgers(signer_states@);
    law_signer_is_picked_iff_one_can_pay(signers@, books, estimated_gas_cost@);
    assert forall|i: int| 0 <= i < signers@.len() implies books.contains_key(
        (#[trigger] signers@[i]).words,
    ) == signer_states@.contains_key(signers@[i].words) by {
        law_books_are_the_states(signer_states@, signers@[i].words);
    }
}

/// To take in a transaction is to note who waits for it under its nonce, beside those who wait
/// already, and to hand the transaction on under that nonce exactly where some signer can pay.
pub proof fn law_new_transaction_is_noted_and_handed_on<C, R>(
    signers: &[H160],
    signer_states: &mut BTreeMap<Words, SignerState>,
    tx_with_oneshot: TXWithOneshot<C, R>,
    internal_nonce: U256,
    oneshot_responder_map: &mut BTreeMap<Limbs, R>,
    gas_price: U256,
    gas_units: U256,
    r: Option<(usize, TXWithInternalNonce<C>)>,
)
    requires
        call_ensures(
            handle_new_tx_with_oneshot::<C, R>,
            (
                signers,
                signer_states,
                tx_with_oneshot,
                internal_nonce,
                oneshot_responder_map,
                gas_price,
                gas_units,
            ),
            r,
        ),
    ensures
        r is Some <==> exists|i: int|
            0 <= i < signers@.len() && old(signer_states)@.contains_key(
                (#[trigger] signers@[i]).words,
            ) && match (old(signer_states)@[signers@[i].words]) {
                SignerState::Idle { balance } => balance@ >= gas_price@ * gas_units@,
                SignerState::Busy { balance, estimated_pending_spend, .. } => balance@
                    >= estimated_pending_spend@ + gas_price@ * gas_units@,
            },
        r matches Some((signer, tx)) ==> {
            let words = signers@[signer as int].words;
            &&& signer < signers@.len()
            &&& tx.function_call == tx_with_oneshot.function_call
            &&& tx.internal_nonce == internal_nonce
            &&& final(signer_states)@.contains_key(words)
            &&& final(signer_states)@[words]@ matches Ledger::Busy { balance, pending, costs }
                && costs.contains_key(internal_nonce@) && costs[internal_nonce@] == gas_price@
                * gas_units@ && match (old(signer_states)@[words]@) {
                Ledger::Idle { balance: kept } => balance == kept && pending == gas_price@
                    * gas_units@,
                Ledger::Busy { balance: kept, pending: aside, .. } => balance == kept && pending
                    == aside + gas_price@ * gas_units@,
            }
        },
        forall|w: Words|
            (r matches Some((signer, _)) ==> signers@[signer as int].words != w) ==> {
                &&& #[trigger] final(signer_states)@.contains_key(w) <==> old(
                    signer_states
                )@.contains_key(w)
                &&& old(signer_states)@.contains_key(w) ==> final(signer_states)@[w]@ == old(
                    signer_states
                )@[w]@
            },
        final(oneshot_responder_map)@[internal_nonce.limbs] == tx_with_oneshot.oneshot_sender,
        forall|k: Limbs| #[trigger]
            final(oneshot_responder_map)@.contains_key(k) <==> k == internal_nonce.limbs || old(
                oneshot_responder_map
            )@.contains_key(k),
        forall|k: Limbs|
            k != internal_nonce.limbs && old(oneshot_responder_map)@.contains_key(k)
                ==> #[trigger] final(oneshot_responder_map)@[k] == old(oneshot_responder_map)@[k],
{
    let states = signer_states@;
    let books = ledgers(states);
    law_signer_is_picked_iff_one_can_pay(signers@, books, gas_price@ * gas_units@);
    assert forall|i: int| 0 <= i < signers@.len() implies books.contains_key(
        (#[trigger] signers@[i]).words,
    ) == states.contains_key(signers@[i].words) by {
        law_books_are_the_states(states, signers@[i].words);
    }
    let states_after = final(signer_states)@;
    assert forall|w: Words| #[trigger]
        states_after.contains_key(w) == ledgers(states_after).contains_key(w) && (
        states_after.contains_key(w) ==> ledgers(states_after)[w] == states_after[w]@) by {
        law_books_are_the_states(states_after, w);
    }
    if let Some((signer, tx)) = r {
        let words = signers@[signer as int].words;
        law_books_are_the_states(states_after, words);
        law_books_are_the_states(states, words);
        law_picked_signer_can_pay(signers@, books, gas_price@ * gas_units@);
    }
    let before = oneshot_responder_map@;
    let after = final(oneshot_responder_map)@;
    assert forall|k: Limbs|
        (#[trigger] after.contains_key(k) <==> k == internal_nonce.limbs || before.contains_key(k))
            && (k == internal_nonce.limbs ==> after[k] == tx_with_oneshot.oneshot_sender) && (k
            != internal_nonce.limbs && before.contains_key(k) ==> after[k] == before[k]) by {
        let nonce = U256 { limbs: k };
        lemma_by_value_lookup(before, nonce);
        lemma_by_value_lookup(after, nonce);
        if nonce@ == internal_nonce@ {
            law_value_tells_numbers_apart(nonce, internal_nonce);
        }
    }
    assert(after.contains_key(internal_nonce.limbs));
    assert forall|k: Limbs|
        k != internal_nonce.limbs && before.contains_key(k) implies #[trigger] after[k]
        == before[k] by {
        assert(after.contains_key(k));
    }
}

/// To take note of the end of a broadcast is to find who waits under its nonce and hand them the
/// result, and to leave the signer with the balance that was reported; all others wait on, and the
/// other signers stay as they are.
pub proof fn law_end_of_broadcast_finds_who_waits<R, T>(
    signer_states: &mut BTreeMap<Words, SignerState>,
    bcast_resp: BroadcastResponse<T>,
    oneshot_responder_map: &mut BTreeMap<Limbs, R>,
    r: (R, T),
)
    requires
        oneshot_responder_map@.contains_key(bcast_resp.internal_nonce.limbs),
        signer_states@.contains_key(bcast_resp.signer_address.words),
        call_ensures(
            handle_broadcast_response::<R, T>,
            (signer_states, bcast_resp, oneshot_responder_map),
            r,
        ),
    ensures
        r.0 == old(oneshot_responder_map)@[bcast_resp.internal_nonce.limbs],
        r.1 == bcast_resp.broadcast_result,
        final(signer_states)@.contains_key(bcast_resp.signer_address.words),
        match (final(signer_states)@[bcast_resp.signer_address.words]) {
            SignerState::Idle { balance } => balance == bcast_resp.new_signer_balance,
            SignerState::Busy { balance, .. } => balance == bcast_resp.new_signer_balance,
        },
        forall|w: Words|
            w != bcast_resp.signer_address.words ==> {
                &&& #[trigger] final(signer_states)@.contains_key(w) <==> old(
                    signer_states
                )@.contains_key(w)
                &&& old(signer_states)@.contains_key(w) ==> final(signer_states)@[w]@ == old(
                    signer_states
                )@[w]@
            },
        forall|k: Limbs| #[trigger]
            final(oneshot_responder_map)@.contains_key(k) <==> k != bcast_resp.internal_nonce.limbs
                && old(oneshot_responder_map)@.contains_key(k),
        forall|k: Limbs|
            k != bcast_resp.internal_nonce.limbs && old(oneshot_responder_map)@.contains_key(k)
                ==> #[trigger] final(oneshot_responder_map)@[k] == old(oneshot_responder_map)@[k],
{
    let nonce = bcast_resp.internal_nonce;
    let states_after = final(signer_states)@;
    assert forall|w: Words| #[trigger]
        states_after.contains_key(w) == ledgers(states_after).contains_key(w) && (
        states_after.contains_key(w) ==> ledgers(states_after)[w] == states_after[w]@) by {
        law_books_are_the_states(states_after, w);
    }
    assert(states_after.contains_key(bcast_resp.signer_address.words));
    match states_after[bcast_resp.signer_address.words] {
        SignerState::Idle { balance } => {
            law_value_tells_numbers_apart(balance, bcast_resp.new_signer_balance);
        },
        SignerState::Busy { balance, .. } => {
            law_value_tells_numbers_apart(balance, bcast_resp.new_signer_balance);
        },
    }
    let before = oneshot_responder_map@;
    let after = final(oneshot_responder_map)@;
    lemma_by_value_lookup(before, nonce);
    assert forall|k: Limbs|
        (#[trigger] after.contains_key(k) <==> k != nonce.limbs && before.contains_key(k)) && (
        after.contains_key(k) ==> after[k] == before[k]) by {
        let key = U256 { limbs: k };
        lemma_by_value_lookup(before, key);
        lemma_by_value_lookup(after, key);
        if key@ == nonce@ {
            law_value_tells_numbers_apart(key, nonce);
        }
    }
    assert forall|k: Limbs| k != nonce.limbs && before.contains_key(k) implies #[trigger] after[k]
        == before[k] by {
        assert(after.contains_key(k));
    }
}

/// The estimated cost is the price of a unit of gas times the units.
pub proof fn law_cost_is_price_times_units(gas_price: U256, gas_units: U256, r: U256)
    requires
        call_ensures(estimate_gas_cost, (gas_price, gas_units), r),
    ensures
        r@ == gas_price@ * gas_units@,
{
}

/// A transaction that is prepared for sending goes out on the terms that were asked for.
pub proof fn law_transaction_goes_out_on_the_terms_asked_for(
    tx: &TypedTransaction,
    gas_price: U256,
    gas: U256,
    sent: TypedTransaction,
    terms: Option<(U256, U256)>,
)
    requires
        call_ensures(transaction_to_send, (tx, gas_price, gas), sent),
        call_ensures(gas_terms, (&sent,), terms),
    ensures
        terms == Some((gas_price, gas)),
{
    if let Some((price, units)) = terms {
        law_value_tells_numbers_apart(price, gas_price);
        law_value_tells_numbers_apart(units, gas);
    }
}

/// What is reported of a broadcast speaks of that transaction and that signer; it is a success
/// where the broadcast was one, with the same outcome, and a failure where it was not.
pub proof fn law_report_is_of_the_broadcast<C, O, E>(
    tx: TXWithInternalNonce<C>,
    broadcast_result: Result<O, E>,
    new_signer_balance: U256,
    signer_address: H160,
    r: BroadcastResponse<Result<O, BroadcastError>>,
)
    requires
        call_ensures(
            broadcast_response::<C, O, E>,
            (tx, broadcast_result, new_signer_balance, signer_address),
            r,
        ),
    ensures
        broadcast_result is Ok <==> r.broadcast_result is Ok,
        broadcast_result matches Ok(outcome) ==> r.broadcast_result->Ok_0 == outcome,
        r.internal_nonce == tx.internal_nonce,
        r.new_signer_balance == new_signer_balance,
        r.signer_address == signer_address,
{
}

/// A caller whose transaction failed to be broadcast is told "Oops".
pub proof fn law_failed_call_is_told_so(error: &BroadcastError, r: String)
    requires
        call_ensures(BroadcastError::message, (error,), r),
    ensures
        r@ == seq!['O', 'o', 'p', 's'],
{
    reveal_strlit("Oops");
    assert(r@ =~= seq!['O', 'o', 'p', 's']);
}

/// A dispatcher owes a reply exactly where someone waits for the broadcast that ended: its result,
/// to them.
pub proof fn law_reply_is_owed_to_who_waits<C, R, T>(
    d: Dispatcher<R>,
    event: Event<C, R, T>,
    r: Option<(R, T)>,
)
    requires
        call_ensures(Dispatcher::<R>::reply_owed::<C, T>, (d, event), r),
    ensures
        r is Some <==> (event matches Event::Broadcast { response } && d@.responders.contains_key(
            response.internal_nonce@,
        )),
        event matches Event::Broadcast { response } ==> (r matches Some((responder, result)) ==> (
        responder == d@.responders[response.internal_nonce@] && result
            == response.broadcast_result)),
{
}

/// A new dispatcher has every account as an idle signer with the balance that was reported for it.
pub proof fn law_new_dispatcher_has_the_reported_balances<R>(
    accounts: Vec<(H160, U256)>,
    i: int,
    r: Dispatcher<R>,
)
    requires
        call_ensures(Dispatcher::<R>::new, (accounts,), r),
        0 <= i < accounts@.len(),
        forall|j: int|
            i < j < accounts@.len() ==> (#[trigger] accounts@[j]).0.words != accounts@[i].0.words,
    ensures
        r@.signers.len() == accounts@.len(),
        r@.signers[i] == accounts@[i].0,
        r@.books.contains_key(accounts@[i].0.words),
        r@.books[accounts@[i].0.words] == (Ledger::Idle { balance: accounts@[i].1@ }),
{
    law_signers_start_with_their_balance::<R>(accounts@, i);
}

/// A step on a transaction has it broadcast exactly where some signer can pay, by that signer and
/// under the next nonce, and sets its cost aside there; otherwise it does nothing.
pub proof fn law_step_hands_out_every_payable_transaction<C, R, T>(
    d: &mut Dispatcher<R>,
    tx: TXWithOneshot<C, R>,
    gas_price: U256,
    gas_units: U256,
    r: Action<C, R, T>,
)
    requires
        d@.admits(Event::<C, R, T>::Transaction { tx, gas_price, gas_units }),
        call_ensures(
            Dispatcher::<R>::step::<C, T>,
            (d, Event::<C, R, T>::Transaction { tx, gas_price, gas_units }),
            r,
        ),
    ensures
        r is Broadcast || r is Nothing,
        r is Broadcast <==> exists|i: int|
            0 <= i < old(d)@.signers.len() && old(d)@.books.contains_key(
                (#[trigger] old(d)@.signers[i]).words,
            ) && match (old(d)@.books[old(d)@.signers[i].words]) {
                Ledger::Idle { balance } => balance >= gas_price@ * gas_units@,
                Ledger::Busy { balance, pending, .. } => balance >= pending + gas_price@
                    * gas_units@,
            },
        r matches Action::Broadcast { signer, tx: sent } ==> signer < old(d)@.signers.len()
            && sent.function_call == tx.function_call && sent.internal_nonce@
            == old(d)@.internal_nonce + 1 && (final(d)@.books[old(d)@.signers[signer as int].words]
            matches Ledger::Busy { costs, .. } && costs.contains_key(sent.internal_nonce@)
            && costs[sent.internal_nonce@] == gas_price@ * gas_units@),
        final(d)@.internal_nonce == old(d)@.internal_nonce + 1,
        final(d)@.responders.contains_key(final(d)@.internal_nonce),
        final(d)@.responders[final(d)@.internal_nonce] == tx.oneshot_sender,
{
    assert(d@.signers.len() == d.signers.len());
    law_transaction_is_broadcast_iff_a_signer_can_pay::<C, R, T>(d@, tx, gas_price, gas_units);
    law_broadcast_is_what_came_in::<C, R, T>(d@, tx, gas_price, gas_units);
    law_broadcast_sets_its_cost_aside::<C, R, T>(d@, tx, gas_price, gas_units);
}

/// A step on the end of a broadcast answers whoever waits for it with its result, and leaves its
/// signer with the balance that was reported, no longer busy with it.
pub proof fn law_step_answers_and_books_every_end<C, R, T>(
    d: &mut Dispatcher<R>,
    response: BroadcastResponse<T>,
    r: Action<C, R, T>,
)
    requires
        d@.admits(Event::<C, R, T>::Broadcast { response }),
        call_ensures(
            Dispatcher::<R>::step::<C, T>,
            (d, Event::<C, R, T>::Broadcast { response }),
            r,
        ),
    ensures
        r matches Action::Reply { responder, result } && responder
            == old(d)@.responders[response.internal_nonce@] && result == response.broadcast_result,
        !final(d)@.responders.contains_key(response.internal_nonce@),
        match (final(d)@.books[response.signer_address.words]) {
            Ledger::Idle { balance } => balance == response.new_signer_balance@,
            Ledger::Busy { balance, costs, .. } => balance == response.new_signer_balance@
                && !costs.contains_key(response.internal_nonce@),
        },
{
    law_end_of_broadcast_is_booked::<C, R, T>(d@, response);
}

} // verus!
