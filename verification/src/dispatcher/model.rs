//! What the dispatcher does, in mathematical terms, and the laws that hold of it.

use vstd::prelude::*;

use crate::address::{Words, H160};
use crate::dispatcher::ledger::{
    law_in_flight_can_settle, law_schedule_keeps_books, law_settle_keeps_books, Ledger,
};
use crate::dispatcher::signer::{
    good_signer, law_picked_signer_can_pay, law_picked_signer_stays_solvent,
    law_signer_is_picked_iff_one_can_pay, law_solvent_search_is_defined, search_defined,
};
use crate::dispatcher::{Action, BroadcastResponse, Event, TXWithInternalNonce};
use crate::pool::TXWithOneshot;
use crate::u256::{digits, lemma_value_of_digits, modulus, U256};

verus! {

/// The state of a dispatcher.
#[verifier::ext_equal]
pub struct DispatcherModel<R> {
    /// The signers, in the order in which they are tried.
    pub signers: Seq<H160>,
    /// The books on the signers, by address.
    pub books: Map<Words, Ledger>,
    /// The nonce that was given out last.
    pub internal_nonce: nat,
    /// Who waits for the result of a transaction, by its nonce.
    pub responders: Map<nat, R>,
}

/// The books on accounts that have done nothing yet. Where an account is listed twice, the balance
/// that is listed last counts.
pub open spec fn opening_books(accounts: Seq<(H160, U256)>) -> Map<Words, Ledger>
    decreases accounts.len(),
{
    if accounts.len() == 0 {
        Map::empty()
    } else {
        opening_books(accounts.drop_last()).insert(
            accounts.last().0.words,
            Ledger::Idle { balance: accounts.last().1@ },
        )
    }
}

impl<R> DispatcherModel<R> {
    /// A dispatcher that has seen no event.
    pub open spec fn opening(accounts: Seq<(H160, U256)>) -> Self {
        DispatcherModel {
            signers: accounts.map_values(|account: (H160, U256)| account.0),
            books: opening_books(accounts),
            internal_nonce: 0,
            responders: Map::empty(),
        }
    }

    /// The dispatcher after a transaction of the given estimated cost came in.
    pub open spec fn after_transaction(self, responder: R, cost: nat) -> Self {
        let nonce = self.internal_nonce + 1;
        DispatcherModel {
            signers: self.signers,
            books: match good_signer(self.signers, self.books, cost) {
                Some(i) => self.books.insert(
                    self.signers[i].words,
                    self.books[self.signers[i].words].schedule(cost, nonce),
                ),
                None => self.books,
            },
            internal_nonce: nonce,
            responders: self.responders.insert(nonce, responder),
        }
    }

    /// The dispatcher after a broadcast ended.
    pub open spec fn after_broadcast(self, address: H160, new_balance: nat, nonce: nat) -> Self {
        DispatcherModel {
            signers: self.signers,
            books: self.books.insert(
                address.words,
                self.books[address.words].settle(new_balance, nonce),
            ),
            internal_nonce: self.internal_nonce,
            responders: self.responders.remove(nonce),
        }
    }

    /// Whether the dispatcher can take an event.
    ///
    /// A transaction: its nonce and its estimated cost fit in 256 bits, and the search for a signer
    /// does not meet an overcommitted one. The end of a broadcast: someone waits for its result,
    /// and its signer can settle it.
    pub open spec fn admits<C, T>(self, event: Event<C, R, T>) -> bool {
        match event {
            Event::Transaction { tx, gas_price, gas_units } => {
                &&& self.internal_nonce + 1 < modulus()
                &&& gas_price@ * gas_units@ < modulus()
                &&& search_defined(self.signers, self.books, gas_price@ * gas_units@)
            },
            Event::Broadcast { response } => {
                &&& self.responders.contains_key(response.internal_nonce@)
                &&& self.books.contains_key(response.signer_address.words)
                &&& self.books[response.signer_address.words].can_settle(response.internal_nonce@)
            },
            Event::Closed => true,
        }
    }

    /// The dispatcher after an event.
    pub open spec fn step<C, T>(self, event: Event<C, R, T>) -> Self {
        match event {
            Event::Transaction { tx, gas_price, gas_units } => self.after_transaction(
                tx.oneshot_sender,
                gas_price@ * gas_units@,
            ),
            Event::Broadcast { response } => self.after_broadcast(
                response.signer_address,
                response.new_signer_balance@,
                response.internal_nonce@,
            ),
            Event::Closed => self,
        }
    }

    /// What the dispatcher wants done upon an event.
    pub open spec fn action<C, T>(self, event: Event<C, R, T>) -> Action<C, R, T> {
        match event {
            Event::Transaction { tx, gas_price, gas_units } => {
                match good_signer(self.signers, self.books, gas_price@ * gas_units@) {
                    Some(i) => Action::Broadcast {
                        signer: i as usize,
                        tx: TXWithInternalNonce {
                            function_call: tx.function_call,
                            internal_nonce: U256 { limbs: digits(self.internal_nonce + 1) },
                        },
                    },
                    None => Action::Nothing,
                }
            },
            Event::Broadcast { response } => Action::Reply {
                responder: self.responders[response.internal_nonce@],
                result: response.broadcast_result,
            },
            Event::Closed => Action::Stop,
        }
    }
}

impl<R> DispatcherModel<R> {
    /// Whether a transaction is in flight on a signer.
    pub open spec fn in_flight(self, words: Words, nonce: nat) -> bool {
        self.books.contains_key(words) && self.books[words].costs().contains_key(nonce)
    }

    /// What holds of a dispatcher at all times: there are books on every signer, and they are
    /// consistent; someone waits for each transaction in flight; no transaction is in flight on two
    /// signers; and no nonce beyond the last one was given out.
    pub open spec fn sound(self) -> bool {
        &&& self.internal_nonce < modulus()
        &&& forall|i: int|
            0 <= i < self.signers.len() ==> self.books.contains_key(
                (#[trigger] self.signers[i]).words,
            )
        &&& forall|words: Words| #[trigger]
            self.books.contains_key(words) ==> self.books[words].consistent()
        &&& forall|words: Words, nonce: nat| #[trigger]
            self.in_flight(words, nonce) ==> self.responders.contains_key(nonce)
        &&& forall|words: Words, words2: Words, nonce: nat| #[trigger]
            self.in_flight(words, nonce) && #[trigger] self.in_flight(words2, nonce) ==> words
                == words2
        &&& forall|nonce: nat| #[trigger]
            self.responders.contains_key(nonce) ==> 0 < nonce <= self.internal_nonce
    }

    /// Whether every balance covers what is set aside.
    pub open spec fn solvent(self) -> bool {
        forall|words: Words| #[trigger]
            self.books.contains_key(words) ==> self.books[words].solvent()
    }

    /// The dispatcher after a sequence of events.
    pub open spec fn run<C, T>(self, events: Seq<Event<C, R, T>>) -> Self
        decreases events.len(),
    {
        if events.len() == 0 {
            self
        } else {
            self.run(events.drop_last()).step(events.last())
        }
    }

    /// Whether the dispatcher can take a sequence of events, each after the ones before it.
    pub open spec fn admits_all<C, T>(self, events: Seq<Event<C, R, T>>) -> bool
        decreases events.len(),
    {
        events.len() > 0 ==> self.admits_all(events.drop_last()) && self.run(
            events.drop_last(),
        ).admits(events.last())
    }
}

/// Whether an event is the end of the broadcast of the transaction with the given nonce.
pub open spec fn ends<C, R, T>(event: Event<C, R, T>, nonce: nat) -> bool {
    event matches Event::Broadcast { response } && response.internal_nonce@ == nonce
}

/// The number of transactions in a sequence of events.
pub open spec fn transactions<C, R, T>(events: Seq<Event<C, R, T>>) -> nat
    decreases events.len(),
{
    if events.len() == 0 {
        0
    } else {
        transactions(events.drop_last()) + if events.last() is Transaction { 1nat } else { 0nat }
    }
}

/// The accounts that are listed are those on which there are books, and all of them are idle.
pub proof fn lemma_opening_books(accounts: Seq<(H160, U256)>)
    ensures
        forall|i: int|
            0 <= i < accounts.len() ==> opening_books(accounts).contains_key(
                (#[trigger] accounts[i]).0.words,
            ),
        forall|words: Words| #[trigger]
            opening_books(accounts).contains_key(words) ==> opening_books(accounts)[words] is Idle,
    decreases accounts.len(),
{
    if accounts.len() > 0 {
        let before = accounts.drop_last();
        lemma_opening_books(before);
        assert forall|i: int| 0 <= i < accounts.len() implies opening_books(accounts).contains_key(
            (#[trigger] accounts[i]).0.words,
        ) by {
            if i < before.len() {
                assert(accounts[i] == before[i]);
            }
        }
    }
}

/// A dispatcher that has seen no event is sound and solvent.
pub proof fn law_opening_is_sound<R>(accounts: Seq<(H160, U256)>)
    ensures
        DispatcherModel::<R>::opening(accounts).sound(),
        DispatcherModel::<R>::opening(accounts).solvent(),
{
    lemma_opening_books(accounts);
    let signers = DispatcherModel::<R>::opening(accounts).signers;
    assert forall|i: int| 0 <= i < signers.len() implies opening_books(accounts).contains_key(
        (#[trigger] signers[i]).words,
    ) by {
        assert(signers[i] == accounts[i].0);
    }
}

/// A new dispatcher has the listed accounts as signers, in order, and books on no others. It has
/// given out no nonce, and no one waits.
pub proof fn law_opening_lists_the_accounts<R>(accounts: Seq<(H160, U256)>)
    ensures
        DispatcherModel::<R>::opening(accounts).signers.len() == accounts.len(),
        forall|i: int|
            0 <= i < accounts.len() ==> #[trigger] DispatcherModel::<R>::opening(
                accounts,
            ).signers[i] == accounts[i].0,
        forall|words: Words|
            DispatcherModel::<R>::opening(accounts).books.contains_key(words) <==> exists|i: int|
                0 <= i < accounts.len() && (#[trigger] accounts[i]).0.words == words,
        DispatcherModel::<R>::opening(accounts).internal_nonce == 0,
        forall|nonce: nat|
            !DispatcherModel::<R>::opening(accounts).responders.contains_key(nonce),
    decreases accounts.len(),
{
    if accounts.len() > 0 {
        let before = accounts.drop_last();
        law_opening_lists_the_accounts::<R>(before);
        assert forall|words: Words|
            DispatcherModel::<R>::opening(accounts).books.contains_key(words) <==> exists|i: int|
                0 <= i < accounts.len() && (#[trigger] accounts[i]).0.words == words by {
            assert(DispatcherModel::<R>::opening(before).books.contains_key(words) <==> exists|
                i: int,
            |
                0 <= i < before.len() && (#[trigger] before[i]).0.words == words);
            if exists|i: int| 0 <= i < before.len() && (#[trigger] before[i]).0.words == words {
                let i = choose|i: int|
                    0 <= i < before.len() && (#[trigger] before[i]).0.words == words;
                assert(accounts[i] == before[i]);
            }
            if exists|i: int| 0 <= i < accounts.len() && (#[trigger] accounts[i]).0.words == words {
                let i = choose|i: int|
                    0 <= i < accounts.len() && (#[trigger] accounts[i]).0.words == words;
                if i < before.len() {
                    assert(before[i] == accounts[i]);
                }
            }
            if accounts.last().0.words == words {
                assert(accounts[accounts.len() - 1].0.words == words);
            }
        }
    }
}

/// Every signer starts idle with the balance that was reported for it, in full. Where an account is
/// listed twice, the balance that is listed last counts.
pub proof fn law_signers_start_with_their_balance<R>(accounts: Seq<(H160, U256)>, i: int)
    requires
        0 <= i < accounts.len(),
        forall|j: int|
            i < j < accounts.len() ==> (#[trigger] accounts[j]).0.words != accounts[i].0.words,
    ensures
        DispatcherModel::<R>::opening(accounts).books.contains_key(accounts[i].0.words),
        DispatcherModel::<R>::opening(accounts).books[accounts[i].0.words] == (Ledger::Idle {
            balance: accounts[i].1@,
        }),
    decreases accounts.len(),
{
    let before = accounts.drop_last();
    if i < before.len() {
        assert(accounts[accounts.len() - 1].0.words != accounts[i].0.words);
        assert(before[i] == accounts[i]);
        assert forall|j: int| i < j < before.len() implies (#[trigger] before[j]).0.words
            != before[i].0.words by {
            assert(accounts[j].0.words != accounts[i].0.words);
        }
        law_signers_start_with_their_balance::<R>(before, i);
    }
}

/// What a dispatcher can take: a transaction where the next nonce and the product of gas price and
/// gas units fit in 256 bits and the search for a signer is defined; the end of a broadcast where
/// someone waits for it and its signer is busy with it and has set aside its cost; the end of all
/// transactions at any time.
pub proof fn law_what_is_admitted<C, R, T>(
    model: DispatcherModel<R>,
    tx: TXWithOneshot<C, R>,
    gas_price: U256,
    gas_units: U256,
    response: BroadcastResponse<T>,
)
    ensures
        model.admits(Event::<C, R, T>::Transaction { tx, gas_price, gas_units }) <==> {
            &&& model.internal_nonce + 1 < modulus()
            &&& gas_price@ * gas_units@ < modulus()
            &&& search_defined(model.signers, model.books, gas_price@ * gas_units@)
        },
        model.admits(Event::<C, R, T>::Broadcast { response }) <==> {
            let nonce = response.internal_nonce@;
            &&& model.responders.contains_key(nonce)
            &&& model.books.contains_key(response.signer_address.words)
            &&& model.books[response.signer_address.words] matches Ledger::Busy {
                pending,
                costs,
                ..
            } && costs.contains_key(nonce) && costs[nonce] <= pending
        },
        model.admits(Event::<C, R, T>::Closed),
{
}

/// A transaction is broadcast exactly where some signer can pay for it: an idle one out of its
/// balance, a busy one out of what its balance holds beyond what is set aside. Otherwise nothing is
/// done.
pub proof fn law_transaction_is_broadcast_iff_a_signer_can_pay<C, R, T>(
    model: DispatcherModel<R>,
    tx: TXWithOneshot<C, R>,
    gas_price: U256,
    gas_units: U256,
)
    ensures
        ({
            let event = Event::<C, R, T>::Transaction { tx, gas_price, gas_units };
            let payable = exists|i: int|
                0 <= i < model.signers.len() && model.books.contains_key(
                    (#[trigger] model.signers[i]).words,
                ) && match (model.books[model.signers[i].words]) {
                    Ledger::Idle { balance } => balance >= gas_price@ * gas_units@,
                    Ledger::Busy { balance, pending, .. } => balance >= pending + gas_price@
                        * gas_units@,
                };
            &&& model.action(event) is Broadcast <==> payable
            &&& model.action(event) is Nothing <==> !payable
        }),
{
    law_signer_is_picked_iff_one_can_pay(model.signers, model.books, gas_price@ * gas_units@);
}

/// A transaction that is broadcast is the one that came in, under the next nonce, and goes to the
/// signer that the search picks.
pub proof fn law_broadcast_is_what_came_in<C, R, T>(
    model: DispatcherModel<R>,
    tx: TXWithOneshot<C, R>,
    gas_price: U256,
    gas_units: U256,
)
    requires
        model.signers.len() <= usize::MAX,
        model.internal_nonce + 1 < modulus(),
    ensures
        model.action(Event::<C, R, T>::Transaction { tx, gas_price, gas_units })
            matches Action::Broadcast { signer, tx: sent } ==> {
            &&& signer < model.signers.len()
            &&& good_signer(model.signers, model.books, gas_price@ * gas_units@) == Some(
                signer as int,
            )
            &&& sent.function_call == tx.function_call
            &&& sent.internal_nonce@ == model.internal_nonce + 1
        },
{
    law_picked_signer_can_pay(model.signers, model.books, gas_price@ * gas_units@);
    lemma_value_of_digits(model.internal_nonce + 1);
}

/// A transaction that comes in takes the next nonce, and whoever waits for it is noted under that
/// nonce beside those who wait already. The signers stay.
pub proof fn law_transaction_is_noted<C, R, T>(
    model: DispatcherModel<R>,
    tx: TXWithOneshot<C, R>,
    gas_price: U256,
    gas_units: U256,
)
    ensures
        ({
            let after = model.step(Event::<C, R, T>::Transaction { tx, gas_price, gas_units });
            let nonce = model.internal_nonce + 1;
            &&& after.internal_nonce == nonce
            &&& after.signers == model.signers
            &&& after.responders[nonce] == tx.oneshot_sender
            &&& forall|n: nat|
                after.responders.contains_key(n) <==> n == nonce || model.responders.contains_key(n)
            &&& forall|n: nat|
                n != nonce && model.responders.contains_key(n) ==> #[trigger] after.responders[n]
                    == model.responders[n]
        }),
{
}

/// A transaction that is broadcast has its cost, the product of gas price and gas units, set aside
/// on the signer that broadcasts it, which keeps its balance and has the transaction in flight
/// beside those it had. The books on all other signers stay.
pub proof fn law_broadcast_sets_its_cost_aside<C, R, T>(
    model: DispatcherModel<R>,
    tx: TXWithOneshot<C, R>,
    gas_price: U256,
    gas_units: U256,
)
    requires
        model.signers.len() <= usize::MAX,
    ensures
        ({
            let event = Event::<C, R, T>::Transaction { tx, gas_price, gas_units };
            let after = model.step(event);
            let cost = gas_price@ * gas_units@;
            let nonce = model.internal_nonce + 1;
            model.action(event) matches Action::Broadcast { signer, .. } ==> {
                let words = model.signers[signer as int].words;
                &&& model.books.contains_key(words)
                &&& forall|w: Words|
                    after.books.contains_key(w) <==> model.books.contains_key(w)
                &&& forall|w: Words|
                    w != words && model.books.contains_key(w) ==> #[trigger] after.books[w]
                        == model.books[w]
                &&& after.books[words] matches Ledger::Busy {
                    balance: kept,
                    pending: aside,
                    costs: flying,
                } && flying.contains_key(nonce) && flying[nonce] == cost && match (
                model.books[words]) {
                    Ledger::Idle { balance } => kept == balance && aside == cost && forall|n: nat|
                        flying.contains_key(n) ==> n == nonce,
                    Ledger::Busy { balance, pending, costs } => kept == balance && aside == pending
                        + cost && (forall|n: nat|
                        n != nonce ==> (flying.contains_key(n) <==> costs.contains_key(n)))
                        && forall|n: nat|
                        n != nonce && costs.contains_key(n) ==> #[trigger] flying[n] == costs[n],
                }
            }
        }),
{
    law_picked_signer_can_pay(model.signers, model.books, gas_price@ * gas_units@);
}

/// A transaction for which nothing is done changes no books.
pub proof fn law_unpayable_transaction_changes_no_books<C, R, T>(
    model: DispatcherModel<R>,
    tx: TXWithOneshot<C, R>,
    gas_price: U256,
    gas_units: U256,
)
    requires
        model.action(Event::<C, R, T>::Transaction { tx, gas_price, gas_units }) is Nothing,
    ensures
        model.step(Event::<C, R, T>::Transaction { tx, gas_price, gas_units }).books == model.books,
{
}

/// Nothing is in flight that was not handed out: where a step puts a transaction in flight on a
/// signer, its action is to have that signer broadcast a transaction under that nonce.
pub proof fn law_in_flight_was_handed_out<C, R, T>(
    model: DispatcherModel<R>,
    event: Event<C, R, T>,
    words: Words,
    nonce: nat,
)
    requires
        model.signers.len() <= usize::MAX,
        model.admits(event),
        model.step(event).books.contains_key(words),
        model.step(event).books[words] matches Ledger::Busy { costs, .. } && costs.contains_key(
            nonce,
        ),
        !(model.books.contains_key(words) && (model.books[words] matches Ledger::Busy {
            costs,
            ..
        } && costs.contains_key(nonce))),
    ensures
        model.action(event) matches Action::Broadcast { signer, tx } && signer
            < model.signers.len() && model.signers[signer as int].words == words
            && tx.internal_nonce@ == nonce,
{
    match event {
        Event::Transaction { tx, gas_price, gas_units } => {
            law_picked_signer_can_pay(model.signers, model.books, gas_price@ * gas_units@);
            lemma_value_of_digits(model.internal_nonce + 1);
        },
        _ => {},
    }
}

/// The end of a broadcast is answered with its result, to whoever waits under its nonce. They wait
/// no longer; all others do. No nonce is given out, and the signers stay.
pub proof fn law_end_of_broadcast_is_answered<C, R, T>(
    model: DispatcherModel<R>,
    response: BroadcastResponse<T>,
)
    ensures
        ({
            let event = Event::<C, R, T>::Broadcast { response };
            let after = model.step(event);
            let nonce = response.internal_nonce@;
            &&& model.action(event) matches Action::Reply { responder, result } && responder
                == model.responders[nonce] && result == response.broadcast_result
            &&& after.internal_nonce == model.internal_nonce
            &&& after.signers == model.signers
            &&& forall|n: nat|
                after.responders.contains_key(n) <==> n != nonce && model.responders.contains_key(n)
            &&& forall|n: nat|
                n != nonce && model.responders.contains_key(n) ==> #[trigger] after.responders[n]
                    == model.responders[n]
        }),
{
}

/// After the end of a broadcast its signer has the balance that was reported. Where nothing else is
/// in flight on it, it is idle; otherwise the cost of what ended is no longer set aside, and the
/// others stay in flight, each at the cost it had. The books on all other signers stay.
pub proof fn law_end_of_broadcast_is_booked<C, R, T>(
    model: DispatcherModel<R>,
    response: BroadcastResponse<T>,
)
    requires
        model.admits(Event::<C, R, T>::Broadcast { response }),
    ensures
        ({
            let after = model.step(Event::<C, R, T>::Broadcast { response });
            let nonce = response.internal_nonce@;
            let words = response.signer_address.words;
            &&& forall|w: Words| after.books.contains_key(w) <==> model.books.contains_key(w)
            &&& forall|w: Words|
                w != words && model.books.contains_key(w) ==> #[trigger] after.books[w]
                    == model.books[w]
            &&& model.books[words] matches Ledger::Busy { pending, costs, .. } && match (
            after.books[words]) {
                Ledger::Idle { balance: now } => now == response.new_signer_balance@ && forall|
                    n: nat,
                |
                    costs.contains_key(n) ==> n == nonce,
                Ledger::Busy { balance: now, pending: aside, costs: flying } => now
                    == response.new_signer_balance@ && aside + costs[nonce] == pending && (exists|
                    n: nat,
                |
                    flying.contains_key(n)) && (forall|n: nat|
                    flying.contains_key(n) <==> n != nonce && costs.contains_key(n)) && forall|
                    n: nat,
                |
                    n != nonce && costs.contains_key(n) ==> #[trigger] flying[n] == costs[n],
            }
        }),
{
    let nonce = response.internal_nonce@;
    let words = response.signer_address.words;
    let costs = model.books[words].costs();
    let left = costs.remove(nonce);
    if left.is_empty() {
        assert forall|n: nat| costs.contains_key(n) implies n == nonce by {
            assert(!left.contains_key(n));
        }
    } else {
        let other = choose|n: nat| left.contains_key(n);
        assert(left.contains_key(other));
    }
    let after = model.step(Event::<C, R, T>::Broadcast { response });
    assert(after.books[words] is Busy ==> after.books[words]->costs == left);
}

/// The end of all transactions stops the dispatcher and changes nothing.
pub proof fn law_closing_stops_the_dispatcher<C, R, T>(model: DispatcherModel<R>)
    ensures
        model.action(Event::<C, R, T>::Closed) is Stop,
        model.step(Event::<C, R, T>::Closed) == model,
{
}

/// Every event that a sound dispatcher can take leaves it sound.
pub proof fn law_step_keeps_sound<C, R, T>(model: DispatcherModel<R>, event: Event<C, R, T>)
    requires
        model.sound(),
        model.admits(event),
    ensures
        model.step(event).sound(),
{
    let after = model.step(event);
    match event {
        Event::Transaction { tx, gas_price, gas_units } => {
            let cost = gas_price@ * gas_units@;
            let nonce = model.internal_nonce + 1;
            match good_signer(model.signers, model.books, cost) {
                Some(i) => {
                    let words = model.signers[i].words;
                    assert(!model.in_flight(words, nonce));
                    law_schedule_keeps_books(model.books[words], cost, nonce);
                    assert forall|w: Words, n: nat| #[trigger]
                        after.in_flight(w, n) implies model.in_flight(w, n) || (w == words && n
                        == nonce) by {}
                },
                None => {
                    assert forall|w: Words, n: nat| #[trigger]
                        after.in_flight(w, n) implies model.in_flight(w, n) by {}
                },
            }
        },
        Event::Broadcast { response } => {
            let words = response.signer_address.words;
            let nonce = response.internal_nonce@;
            law_settle_keeps_books(model.books[words], response.new_signer_balance@, nonce);
            assert(model.in_flight(words, nonce));
            assert forall|w: Words, n: nat| #[trigger]
                after.in_flight(w, n) implies model.in_flight(w, n) && n != nonce by {
                assert(model.in_flight(w, n));
            }
        },
        Event::Closed => {},
    }
}

/// Every sequence of events that a sound dispatcher can take leaves it sound.
pub proof fn law_run_keeps_sound<C, R, T>(model: DispatcherModel<R>, events: Seq<Event<C, R, T>>)
    requires
        model.sound(),
        model.admits_all(events),
    ensures
        model.run(events).sound(),
    decreases events.len(),
{
    if events.len() > 0 {
        law_run_keeps_sound(model, events.drop_last());
        law_step_keeps_sound(model.run(events.drop_last()), events.last());
    }
}

/// Nonces are given out one by one: after a sequence of events the last one has grown by the number
/// of transactions in it. The signers stay what they were.
pub proof fn law_nonces_count_transactions<C, R, T>(
    model: DispatcherModel<R>,
    events: Seq<Event<C, R, T>>,
)
    ensures
        model.run(events).internal_nonce == model.internal_nonce + transactions(events),
        model.run(events).signers == model.signers,
    decreases events.len(),
{
    if events.len() > 0 {
        law_nonces_count_transactions(model, events.drop_last());
    }
}

/// No nonce is given out twice: in a sequence of events, the nonce for a transaction is smaller
/// than the nonce for each one that comes later.
pub proof fn law_nonces_grow<C, R, T>(
    model: DispatcherModel<R>,
    events: Seq<Event<C, R, T>>,
    earlier: int,
    later: int,
)
    requires
        0 <= earlier < later < events.len(),
        events[earlier] is Transaction,
        events[later] is Transaction,
    ensures
        model.run(events.take(earlier)).step(events[earlier]).internal_nonce < model.run(
            events.take(later),
        ).step(events[later]).internal_nonce,
{
    assert(events.take(earlier + 1).drop_last() =~= events.take(earlier));
    lemma_nonces_do_not_shrink(model, events, earlier + 1, later);
}

/// The nonce given out last never shrinks.
proof fn lemma_nonces_do_not_shrink<C, R, T>(
    model: DispatcherModel<R>,
    events: Seq<Event<C, R, T>>,
    earlier: int,
    later: int,
)
    requires
        0 <= earlier <= later <= events.len(),
    ensures
        model.run(events.take(earlier)).internal_nonce <= model.run(
            events.take(later),
        ).internal_nonce,
    decreases later,
{
    if earlier < later {
        assert(events.take(later).drop_last() =~= events.take(later - 1));
        lemma_nonces_do_not_shrink(model, events, earlier, later - 1);
    }
}

/// The end of a broadcast that is in flight is an event that a sound dispatcher can take, whatever
/// the result and the new balance are.
pub proof fn law_end_of_broadcast_is_admitted<C, R, T>(
    model: DispatcherModel<R>,
    response: BroadcastResponse<T>,
)
    requires
        model.sound(),
        model.in_flight(response.signer_address.words, response.internal_nonce@),
    ensures
        model.admits(Event::<C, R, T>::Broadcast { response }),
{
    law_in_flight_can_settle(
        model.books[response.signer_address.words],
        response.internal_nonce@,
    );
}

/// A solvent dispatcher can take every transaction whose nonce and whose estimated cost fit in 256
/// bits.
pub proof fn law_solvent_dispatcher_admits_transactions<C, R, T>(
    model: DispatcherModel<R>,
    tx: TXWithOneshot<C, R>,
    gas_price: U256,
    gas_units: U256,
)
    requires
        model.solvent(),
        model.internal_nonce + 1 < modulus(),
        gas_price@ * gas_units@ < modulus(),
    ensures
        model.admits(Event::<C, R, T>::Transaction { tx, gas_price, gas_units }),
{
    law_solvent_search_is_defined(model.signers, model.books, gas_price@ * gas_units@);
}

/// A dispatcher stays solvent: a transaction never has a signer set aside more than its balance,
/// nor does the end of a broadcast whose new balance covers what stays set aside.
pub proof fn law_step_keeps_solvent<C, R, T>(model: DispatcherModel<R>, event: Event<C, R, T>)
    requires
        model.solvent(),
        model.admits(event),
        event matches Event::Broadcast { response } ==> response.new_signer_balance@
            + model.books[response.signer_address.words].costs()[response.internal_nonce@]
            >= model.books[response.signer_address.words].pending(),
    ensures
        model.step(event).solvent(),
{
    match event {
        Event::Transaction { tx, gas_price, gas_units } => {
            law_picked_signer_stays_solvent(
                model.signers,
                model.books,
                gas_price@ * gas_units@,
                model.internal_nonce + 1,
            );
        },
        _ => {},
    }
}

/// An event touches one signer at most: a transaction the one that is picked, the end of a
/// broadcast the one that broadcast. The books on all others stay as they are, and no signer comes
/// or goes.
pub proof fn law_step_touches_one_signer<C, R, T>(
    model: DispatcherModel<R>,
    event: Event<C, R, T>,
    other: Words,
)
    requires
        model.admits(event),
        event matches Event::Transaction { tx, gas_price, gas_units } ==> (good_signer(
            model.signers,
            model.books,
            gas_price@ * gas_units@,
        ) matches Some(i) ==> model.signers[i].words != other),
        event matches Event::Broadcast { response } ==> response.signer_address.words != other,
    ensures
        model.step(event).books.contains_key(other) == model.books.contains_key(other),
        model.step(event).books[other] == model.books[other],
        model.step(event).books.dom() == model.books.dom(),
        model.step(event).signers == model.signers,
{
    assert(model.step(event).books.dom() =~= model.books.dom());
}

/// What waits stays: an event that does not end the broadcast of a transaction leaves it in flight
/// at its cost, and leaves whoever waits for it.
pub proof fn law_step_keeps_waiting<C, R, T>(
    model: DispatcherModel<R>,
    event: Event<C, R, T>,
    words: Words,
    nonce: nat,
)
    requires
        model.sound(),
        model.admits(event),
        model.in_flight(words, nonce),
        !ends(event, nonce),
    ensures
        model.step(event).in_flight(words, nonce),
        model.step(event).books[words].costs()[nonce] == model.books[words].costs()[nonce],
        model.step(event).responders.contains_key(nonce),
        model.step(event).responders[nonce] == model.responders[nonce],
{
    match event {
        Event::Transaction { tx, gas_price, gas_units } => {
            let cost = gas_price@ * gas_units@;
            let new_nonce = model.internal_nonce + 1;
            match good_signer(model.signers, model.books, cost) {
                Some(i) => {
                    let picked = model.signers[i].words;
                    assert(!model.in_flight(picked, new_nonce));
                    law_schedule_keeps_books(model.books[picked], cost, new_nonce);
                },
                None => {},
            }
        },
        Event::Broadcast { response } => {
            law_settle_keeps_books(
                model.books[response.signer_address.words],
                response.new_signer_balance@,
                response.internal_nonce@,
            );
        },
        Event::Closed => {},
    }
}

/// `law_step_keeps_waiting`, for a sequence of events.
pub proof fn law_run_keeps_waiting<C, R, T>(
    model: DispatcherModel<R>,
    events: Seq<Event<C, R, T>>,
    words: Words,
    nonce: nat,
)
    requires
        model.sound(),
        model.admits_all(events),
        model.in_flight(words, nonce),
        forall|i: int| 0 <= i < events.len() ==> !ends(#[trigger] events[i], nonce),
    ensures
        model.run(events).in_flight(words, nonce),
        model.run(events).books[words].costs()[nonce] == model.books[words].costs()[nonce],
        model.run(events).responders.contains_key(nonce),
        model.run(events).responders[nonce] == model.responders[nonce],
    decreases events.len(),
{
    if events.len() > 0 {
        let before = events.drop_last();
        assert forall|i: int| 0 <= i < before.len() implies !ends(#[trigger] before[i], nonce) by {
            assert(before[i] == events[i]);
        }
        law_run_keeps_waiting(model, before, words, nonce);
        law_run_keeps_sound(model, before);
        law_step_keeps_waiting(model.run(before), events.last(), words, nonce);
    }
}

/// Everyone gets the result of their own transaction. A transaction that gets a signer is handed to
/// it under a new nonce; whatever other events come between, the end of its broadcast can be taken,
/// and the result then goes to whoever waits for that very transaction.
pub proof fn law_result_goes_to_its_own_caller<C, R, T>(
    model: DispatcherModel<R>,
    tx: TXWithOneshot<C, R>,
    gas_price: U256,
    gas_units: U256,
    between: Seq<Event<C, R, T>>,
    response: BroadcastResponse<T>,
)
    requires
        model.sound(),
        model.admits(Event::<C, R, T>::Transaction { tx, gas_price, gas_units }),
        ({
            let event = Event::<C, R, T>::Transaction { tx, gas_price, gas_units };
            &&& model.action(event) matches Action::Broadcast { signer, tx: sent }
            &&& response.signer_address == model.signers[signer as int]
            &&& response.internal_nonce == sent.internal_nonce
            &&& model.step(event).admits_all(between)
        }),
        model.signers.len() <= usize::MAX,
        forall|i: int|
            0 <= i < between.len() ==> !ends(#[trigger] between[i], response.internal_nonce@),
    ensures
        ({
            let event = Event::<C, R, T>::Transaction { tx, gas_price, gas_units };
            let waiting = model.step(event).run(between);
            let end = Event::<C, R, T>::Broadcast { response };
            &&& response.internal_nonce@ == model.internal_nonce + 1
            &&& waiting.admits(end)
            &&& waiting.action(end) == Action::<C, R, T>::Reply {
                responder: tx.oneshot_sender,
                result: response.broadcast_result,
            }
            &&& !waiting.step(end).responders.contains_key(response.internal_nonce@)
            &&& !waiting.step(end).in_flight(
                response.signer_address.words,
                response.internal_nonce@,
            )
        }),
{
    let event = Event::<C, R, T>::Transaction { tx, gas_price, gas_units };
    let cost = gas_price@ * gas_units@;
    let nonce = model.internal_nonce + 1;
    let words = response.signer_address.words;
    law_picked_signer_can_pay(model.signers, model.books, cost);
    lemma_value_of_digits(nonce);
    assert(!model.in_flight(words, nonce));
    law_schedule_keeps_books(model.books[words], cost, nonce);
    law_step_keeps_sound(model, event);
    let handed = model.step(event);
    assert(handed.in_flight(words, nonce));
    law_run_keeps_sound(handed, between);
    law_run_keeps_waiting(handed, between, words, nonce);
    let waiting = handed.run(between);
    law_end_of_broadcast_is_admitted::<C, R, T>(waiting, response);
    law_settle_keeps_books(waiting.books[words], response.new_signer_balance@, nonce);
}

/// A result is sent once: after the end of a broadcast, no sequence of events makes the dispatcher
/// take the end of that broadcast again.
pub proof fn law_result_is_sent_once<C, R, T>(
    model: DispatcherModel<R>,
    response: BroadcastResponse<T>,
    later: Seq<Event<C, R, T>>,
    again: BroadcastResponse<T>,
)
    requires
        model.sound(),
        model.admits(Event::<C, R, T>::Broadcast { response }),
        again.internal_nonce@ == response.internal_nonce@,
    ensures
        !model.step(Event::<C, R, T>::Broadcast { response }).run(later).admits(
            Event::<C, R, T>::Broadcast { response: again },
        ),
{
    lemma_gone_stays_gone(
        model.step(Event::<C, R, T>::Broadcast { response }),
        later,
        response.internal_nonce@,
    );
}

/// A nonce that was given out and for which no one waits is never waited for again.
proof fn lemma_gone_stays_gone<C, R, T>(
    model: DispatcherModel<R>,
    events: Seq<Event<C, R, T>>,
    nonce: nat,
)
    requires
        nonce <= model.internal_nonce,
        !model.responders.contains_key(nonce),
    ensures
        !model.run(events).responders.contains_key(nonce),
    decreases events.len(),
{
    if events.len() > 0 {
        lemma_gone_stays_gone(model, events.drop_last(), nonce);
        law_nonces_count_transactions(model, events.drop_last());
    }
}

} // verus!
