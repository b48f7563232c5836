//! The dispatcher: it gives each transaction a nonce and a signer, and keeps the books.
//!
//! What happens around the dispatcher reaches it as an [`Event`]; what it wants done is an
//! [`Action`]. [`Dispatcher::step`] goes from the one to the other.

pub mod broadcast;
pub mod laws;
pub mod ledger;
pub mod model;
pub mod signer;

use std::collections::BTreeMap;

use vstd::prelude::*;

use crate::address::{Words, H160};
use crate::dispatcher::model::{
    law_opening_is_sound, law_step_keeps_sound, opening_books, DispatcherModel,
};
use crate::dispatcher::signer::{
    get_good_signer, good_signer, ledgers, search_defined, search_is_defined, SignerState,
};
use crate::pool::TXWithOneshot;
use crate::u256::{
    by_value, lemma_by_value_extent, lemma_by_value_insert, lemma_by_value_lookup,
    lemma_by_value_remove, lemma_digits_of_value, modulus, Limbs, U256,
};

verus! {

broadcast use vstd::laws_cmp::group_laws_cmp;

/// A transaction with the nonce that the dispatcher gave it.
pub struct TXWithInternalNonce<C> {
    pub function_call: C,
    pub internal_nonce: U256,
}

/// What became of a transaction that was broadcast.
pub struct BroadcastResponse<T> {
    pub broadcast_result: T,
    pub internal_nonce: U256,
    pub new_signer_balance: U256,
    pub signer_address: H160,
}

/// What happens to the dispatcher.
pub enum Event<C, R, T> {
    /// A transaction came in. `gas_price` and `gas_units` are what the node says of it.
    Transaction { tx: TXWithOneshot<C, R>, gas_price: U256, gas_units: U256 },
    /// A broadcast ended.
    Broadcast { response: BroadcastResponse<T> },
    /// No more transactions will come in.
    Closed,
}

/// What the dispatcher wants done.
pub enum Action<C, R, T> {
    /// Have the signer at this position broadcast the transaction.
    Broadcast { signer: usize, tx: TXWithInternalNonce<C> },
    /// No signer can pay for the transaction: nothing is done.
    Nothing,
    /// Send a result to whoever waits for it.
    Reply { responder: R, result: T },
    /// End the dispatcher.
    Stop,
}

/// The estimated cost of a transaction: what a unit of gas costs, times the units it takes.
///
/// 256 bits must hold it.
pub fn estimate_gas_cost(gas_price: U256, gas_units: U256) -> (r: U256)
    requires
        gas_price@ * gas_units@ < modulus(),
    ensures
        r@ == gas_price@ * gas_units@,
{
    gas_price.times(gas_units)
}

/// Takes in a transaction under a nonce: notes who waits for its result, and picks a signer for
/// it, on which its estimated cost is set aside. Returns the position of that signer and the
/// transaction with its nonce.
///
/// Where no signer can pay, returns `None`; whoever waits stays noted.
pub fn handle_new_tx_with_oneshot<C, R>(
    signers: &[H160],
    signer_states: &mut BTreeMap<Words, SignerState>,
    tx_with_oneshot: TXWithOneshot<C, R>,
    internal_nonce: U256,
    oneshot_responder_map: &mut BTreeMap<Limbs, R>,
    gas_price: U256,
    gas_units: U256,
) -> (r: Option<(usize, TXWithInternalNonce<C>)>)
    requires
        gas_price@ * gas_units@ < modulus(),
        search_defined(signers@, ledgers(old(signer_states)@), gas_price@ * gas_units@),
    ensures
        by_value(final(oneshot_responder_map)@) == by_value(old(oneshot_responder_map)@).insert(
            internal_nonce@,
            tx_with_oneshot.oneshot_sender,
        ),
        match good_signer(signers@, ledgers(old(signer_states)@), gas_price@ * gas_units@) {
            Some(i) => {
                let words = signers@[i].words;
                &&& 0 <= i < signers@.len()
                &&& r matches Some((signer, tx)) && signer == i && tx == (TXWithInternalNonce {
                    function_call: tx_with_oneshot.function_call,
                    internal_nonce,
                })
                &&& ledgers(final(signer_states)@) == ledgers(old(signer_states)@).insert(
                    words,
                    ledgers(old(signer_states)@)[words].schedule(
                        gas_price@ * gas_units@,
                        internal_nonce@,
                    ),
                )
            },
            None => {
                &&& r is None
                &&& ledgers(final(signer_states)@) == ledgers(old(signer_states)@)
            },
        },
{
    let tx = TXWithInternalNonce { function_call: tx_with_oneshot.function_call, internal_nonce };
    proof {
        lemma_by_value_insert(
            oneshot_responder_map@,
            internal_nonce,
            tx_with_oneshot.oneshot_sender,
        );
    }
    oneshot_responder_map.insert(internal_nonce.limbs, tx_with_oneshot.oneshot_sender);
    let estimated_gas_cost = estimate_gas_cost(gas_price, gas_units);
    match get_good_signer(signers, signer_states, estimated_gas_cost) {
        Some(i) => {
            let address = signers[i];
            let state = signer_states.remove(&address.words).unwrap();
            let state = state.add_to_pending_spend(estimated_gas_cost, internal_nonce);
            signer_states.insert(address.words, state);
            Some((i, tx))
        },
        None => None,
    }
}

/// Takes note of the end of a broadcast: the signer no longer sets aside the transaction's
/// estimated cost, and has a new balance. Returns who waits for the result, and the result.
///
/// Someone must be waiting for the result, and the signer must be able to settle the transaction.
pub fn handle_broadcast_response<R, T>(
    signer_states: &mut BTreeMap<Words, SignerState>,
    bcast_resp: BroadcastResponse<T>,
    oneshot_responder_map: &mut BTreeMap<Limbs, R>,
) -> (r: (R, T))
    requires
        by_value(old(oneshot_responder_map)@).contains_key(bcast_resp.internal_nonce@),
        old(signer_states)@.contains_key(bcast_resp.signer_address.words),
        ledgers(old(signer_states)@)[bcast_resp.signer_address.words].can_settle(
            bcast_resp.internal_nonce@,
        ),
    ensures
        r.0 == by_value(old(oneshot_responder_map)@)[bcast_resp.internal_nonce@],
        r.1 == bcast_resp.broadcast_result,
        by_value(final(oneshot_responder_map)@) == by_value(old(oneshot_responder_map)@).remove(
            bcast_resp.internal_nonce@,
        ),
        ledgers(final(signer_states)@) == ledgers(old(signer_states)@).insert(
            bcast_resp.signer_address.words,
            ledgers(old(signer_states)@)[bcast_resp.signer_address.words].settle(
                bcast_resp.new_signer_balance@,
                bcast_resp.internal_nonce@,
            ),
        ),
{
    let BroadcastResponse {
        broadcast_result,
        internal_nonce,
        new_signer_balance,
        signer_address,
    } = bcast_resp;
    proof {
        lemma_by_value_lookup(oneshot_responder_map@, internal_nonce);
        lemma_by_value_remove(oneshot_responder_map@, internal_nonce);
    }
    let responder = oneshot_responder_map.remove(&internal_nonce.limbs).unwrap();
    let state = signer_states.remove(&signer_address.words).unwrap();
    let state = state.remove_from_pending_spend(new_signer_balance, internal_nonce);
    signer_states.insert(signer_address.words, state);
    (responder, broadcast_result)
}

/// A dispatcher: the signers with their states, the nonce given out last, and who waits for what.
pub struct Dispatcher<R> {
    signers: Vec<H160>,
    signer_states: BTreeMap<Words, SignerState>,
    internal_nonce: U256,
    oneshot_responder_map: BTreeMap<Limbs, R>,
}

impl<R> View for Dispatcher<R> {
    type V = DispatcherModel<R>;

    closed spec fn view(&self) -> DispatcherModel<R> {
        DispatcherModel {
            signers: self.signers@,
            books: ledgers(self.signer_states@),
            internal_nonce: self.internal_nonce@,
            responders: by_value(self.oneshot_responder_map@),
        }
    }
}

impl<R> Dispatcher<R> {
    /// A dispatcher for the given accounts, each with its balance. All signers are idle.
    pub fn new(accounts: Vec<(H160, U256)>) -> (r: Self)
        ensures
            r@ == DispatcherModel::<R>::opening(accounts@),
            r@.sound(),
    {
        proof {
            law_opening_is_sound::<R>(accounts@);
        }
        let mut signers: Vec<H160> = Vec::new();
        let mut signer_states: BTreeMap<Words, SignerState> = BTreeMap::new();
        let mut i: usize = 0;
        assert(ledgers(signer_states@) =~= opening_books(accounts@.take(0)));
        while i < accounts.len()
            invariant
                i <= accounts.len(),
                signers@ == accounts@.take(i as int).map_values(
                    |account: (H160, U256)| account.0,
                ),
                ledgers(signer_states@) == opening_books(accounts@.take(i as int)),
            decreases accounts.len() - i,
        {
            let (address, balance) = accounts[i];
            signer_states.insert(address.words, SignerState::Idle { balance });
            signers.push(address);
            proof {
                let listed = accounts@.take(i + 1);
                assert(listed.drop_last() =~= accounts@.take(i as int));
                assert(ledgers(signer_states@) =~= opening_books(listed));
            }
            i = i + 1;
        }
        assert(accounts@.take(i as int) =~= accounts@);
        let oneshot_responder_map: BTreeMap<Limbs, R> = BTreeMap::new();
        proof {
            lemma_by_value_extent(oneshot_responder_map@);
            assert(by_value(oneshot_responder_map@) =~= Map::empty());
        }
        Dispatcher { signers, signer_states, internal_nonce: U256::from(0), oneshot_responder_map }
    }

    /// Whether the dispatcher can take an event.
    pub fn admits<C, T>(&self, event: &Event<C, R, T>) -> (r: bool)
        ensures
            r == self@.admits(*event),
    {
        match event {
            Event::Transaction { tx: _, gas_price, gas_units } => {
                let largest = U256 { limbs: (u64::MAX, u64::MAX, u64::MAX, u64::MAX) };
                if self.internal_nonce.at_least(largest) {
                    return false;
                }
                match gas_price.checked_times(*gas_units) {
                    Some(cost) => search_is_defined(&self.signers, &self.signer_states, cost),
                    None => false,
                }
            },
            Event::Broadcast { response } => {
                let nonce = response.internal_nonce;
                proof {
                    lemma_by_value_lookup(self.oneshot_responder_map@, nonce);
                }
                if !self.oneshot_responder_map.contains_key(&nonce.limbs) {
                    return false;
                }
                match self.signer_states.get(&response.signer_address.words) {
                    Some(state) => state.can_remove_from_pending_spend(nonce),
                    None => false,
                }
            },
            Event::Closed => true,
        }
    }

    /// What a dispatcher that cannot take an event still owes before it fails: the result of a
    /// broadcast goes to whoever waits for it, even where the signer cannot settle it.
    pub fn reply_owed<C, T>(self, event: Event<C, R, T>) -> (r: Option<(R, T)>)
        ensures
            r == (match event {
                Event::Broadcast { response } => if self@.responders.contains_key(
                    response.internal_nonce@,
                ) {
                    Some(
                        (
                            self@.responders[response.internal_nonce@],
                            response.broadcast_result,
                        ),
                    )
                } else {
                    None
                },
                _ => None,
            }),
    {
        match event {
            Event::Broadcast { response } => {
                let mut oneshot_responder_map = self.oneshot_responder_map;
                proof {
                    lemma_by_value_lookup(oneshot_responder_map@, response.internal_nonce);
                }
                match oneshot_responder_map.remove(&response.internal_nonce.limbs) {
                    Some(responder) => Some((responder, response.broadcast_result)),
                    None => None,
                }
            },
            _ => None,
        }
    }

    /// Takes an event, and says what is to be done.
    ///
    /// The dispatcher must be able to take the event.
    pub fn step<C, T>(&mut self, event: Event<C, R, T>) -> (r: Action<C, R, T>)
        requires
            old(self)@.admits(event),
        ensures
            final(self)@ == old(self)@.step(event),
            r == old(self)@.action(event),
            old(self)@.sound() ==> final(self)@.sound(),
    {
        proof {
            if self@.sound() {
                law_step_keeps_sound(self@, event);
            }
        }
        match event {
            Event::Transaction { tx, gas_price, gas_units } => {
                self.internal_nonce = self.internal_nonce.plus(U256::from(1));
                proof {
                    lemma_digits_of_value(self.internal_nonce.limbs);
                }
                match handle_new_tx_with_oneshot(
                    &self.signers,
                    &mut self.signer_states,
                    tx,
                    self.internal_nonce,
                    &mut self.oneshot_responder_map,
                    gas_price,
                    gas_units,
                ) {
                    Some((signer, tx)) => Action::Broadcast { signer, tx },
                    None => Action::Nothing,
                }
            },
            Event::Broadcast { response } => {
                let (responder, result) = handle_broadcast_response(
                    &mut self.signer_states,
                    response,
                    &mut self.oneshot_responder_map,
                );
                Action::Reply { responder, result }
            },
            Event::Closed => Action::Stop,
        }
    }
}

} // verus!
