//! The signers of the pool: what each has left to spend, and which one takes a transaction.

use std::collections::BTreeMap;

use vstd::prelude::*;

use crate::address::{Words, H160};
use crate::dispatcher::ledger::{law_schedule_keeps_books, law_settle_keeps_books, Ledger};
use crate::u256::{by_value, modulus, Limbs, U256};
use crate::u256::{
    lemma_by_value_extent, lemma_by_value_insert, lemma_by_value_lookup, lemma_by_value_remove,
};

verus! {

broadcast use vstd::laws_cmp::group_laws_cmp;

/// The state of a signer.
#[derive(Debug, PartialEq)]
pub enum SignerState {
    /// No transaction of the signer is waiting for its confirmation.
    Idle { balance: U256 },
    /// Some transactions are. The estimated cost of each is kept under the digits of its internal
    /// nonce; the amount set aside for all of them is kept beside it.
    Busy {
        balance: U256,
        estimated_pending_spend: U256,
        nonces_and_est_costs: BTreeMap<Limbs, U256>,
    },
}

impl View for SignerState {
    type V = Ledger;

    open spec fn view(&self) -> Ledger {
        match self {
            SignerState::Idle { balance } => Ledger::Idle { balance: balance@ },
            SignerState::Busy { balance, estimated_pending_spend, nonces_and_est_costs } => {
                Ledger::Busy {
                    balance: balance@,
                    pending: estimated_pending_spend@,
                    costs: by_value(nonces_and_est_costs@).map_values(|cost: U256| cost@),
                }
            },
        }
    }
}

impl SignerState {
    /// Hands the signer a transaction: its estimated cost is set aside, under its internal nonce.
    ///
    /// An idle signer becomes busy. What a busy signer has set aside must still fit in 256 bits.
    pub fn add_to_pending_spend(self, estimated_gas_cost: U256, internal_nonce: U256) -> (r: Self)
        requires
            self is Busy ==> self@.pending() + estimated_gas_cost@ < modulus(),
        ensures
            r is Busy,
            r@ == self@.schedule(estimated_gas_cost@, internal_nonce@),
            self@.consistent() && !self@.costs().contains_key(internal_nonce@) ==> r@.consistent(),
    {
        proof {
            if self@.consistent() && !self@.costs().contains_key(internal_nonce@) {
                law_schedule_keeps_books(self@, estimated_gas_cost@, internal_nonce@);
            }
        }
        match self {
            SignerState::Idle { balance } => {
                let mut nonces_and_est_costs = BTreeMap::new();
                nonces_and_est_costs.insert(internal_nonce.limbs, estimated_gas_cost);
                proof {
                    let none = Map::<Limbs, U256>::empty();
                    lemma_by_value_insert(none, internal_nonce, estimated_gas_cost);
                    lemma_by_value_extent(none);
                    assert(by_value(nonces_and_est_costs@).map_values(|cost: U256| cost@)
                        =~= Map::empty().insert(internal_nonce@, estimated_gas_cost@));
                }
                SignerState::Busy {
                    balance,
                    estimated_pending_spend: estimated_gas_cost,
                    nonces_and_est_costs,
                }
            },
            SignerState::Busy { balance, estimated_pending_spend, mut nonces_and_est_costs } => {
                let ghost before = nonces_and_est_costs@;
                let estimated_pending_spend = estimated_pending_spend.plus(estimated_gas_cost);
                nonces_and_est_costs.insert(internal_nonce.limbs, estimated_gas_cost);
                proof {
                    lemma_by_value_insert(before, internal_nonce, estimated_gas_cost);
                    assert(by_value(nonces_and_est_costs@).map_values(|cost: U256| cost@)
                        =~= by_value(before).map_values(|cost: U256| cost@).insert(
                        internal_nonce@,
                        estimated_gas_cost@,
                    ));
                }
                SignerState::Busy { balance, estimated_pending_spend, nonces_and_est_costs }
            },
        }
    }

    /// Whether a transaction can be taken off the signer: the signer is busy with it, and has set
    /// aside its cost.
    pub fn can_remove_from_pending_spend(&self, internal_nonce: U256) -> (r: bool)
        ensures
            r == self@.can_settle(internal_nonce@),
    {
        match self {
            SignerState::Idle { .. } => false,
            SignerState::Busy { estimated_pending_spend, nonces_and_est_costs, .. } => {
                proof {
                    lemma_by_value_lookup(nonces_and_est_costs@, internal_nonce);
                }
                match nonces_and_est_costs.get(&internal_nonce.limbs) {
                    Some(cost) => estimated_pending_spend.at_least(*cost),
                    None => false,
                }
            },
        }
    }

    /// Takes a transaction that ended off the signer: its estimated cost is no longer set aside,
    /// and the signer has a new balance. A signer with no other transaction becomes idle.
    ///
    /// The signer must be busy with that transaction, and must have set aside its cost.
    pub fn remove_from_pending_spend(self, new_balance: U256, internal_nonce: U256) -> (r: Self)
        requires
            self@.can_settle(internal_nonce@),
        ensures
            r@ == self@.settle(new_balance@, internal_nonce@),
            self@.consistent() ==> r@.consistent(),
    {
        proof {
            if self@.consistent() {
                law_settle_keeps_books(self@, new_balance@, internal_nonce@);
            }
        }
        match self {
            SignerState::Idle { .. } => vstd::pervasive::unreached(),
            SignerState::Busy { estimated_pending_spend, mut nonces_and_est_costs, .. } => {
                let ghost before = nonces_and_est_costs@;
                proof {
                    lemma_by_value_lookup(before, internal_nonce);
                    lemma_by_value_remove(before, internal_nonce);
                }
                let cost = nonces_and_est_costs.remove(&internal_nonce.limbs).unwrap();
                let estimated_pending_spend = estimated_pending_spend.minus(cost);
                proof {
                    lemma_by_value_extent(nonces_and_est_costs@);
                    assert(by_value(nonces_and_est_costs@).map_values(|cost: U256| cost@)
                        =~= by_value(before).map_values(|cost: U256| cost@).remove(
                        internal_nonce@,
                    ));
                    assert(by_value(nonces_and_est_costs@).map_values(|cost: U256| cost@).dom()
                        =~= by_value(nonces_and_est_costs@).dom());
                }
                if nonces_and_est_costs.is_empty() {
                    SignerState::Idle { balance: new_balance }
                } else {
                    SignerState::Busy {
                        balance: new_balance,
                        estimated_pending_spend,
                        nonces_and_est_costs,
                    }
                }
            },
        }
    }
}

/// The books on all signers, by address.
pub open spec fn ledgers(states: Map<Words, SignerState>) -> Map<Words, Ledger> {
    states.map_values(|state: SignerState| state@)
}

/// Whether the signer at an address is idle and can pay the given cost.
pub open spec fn idle_and_good(books: Map<Words, Ledger>, address: H160, cost: nat) -> bool {
    &&& books.contains_key(address.words)
    &&& books[address.words] is Idle
    &&& books[address.words].balance() >= cost
}

/// Whether the signer at an address is busy and can pay the given cost out of what is not set
/// aside.
pub open spec fn busy_and_good(books: Map<Words, Ledger>, address: H160, cost: nat) -> bool {
    &&& books.contains_key(address.words)
    &&& books[address.words] is Busy
    &&& books[address.words].balance() - books[address.words].pending() >= cost
}

/// Whether the signer at an address is busy and has set aside more than its balance.
pub open spec fn overcommitted(books: Map<Words, Ledger>, address: H160) -> bool {
    &&& books.contains_key(address.words)
    &&& books[address.words] is Busy
    &&& !books[address.words].solvent()
}

/// Whether position `i` is the first at which a predicate holds.
pub open spec fn is_first(signers: Seq<H160>, good: spec_fn(H160) -> bool, i: int) -> bool {
    &&& 0 <= i < signers.len()
    &&& good(signers[i])
    &&& forall|j: int| 0 <= j < i ==> !good(#[trigger] signers[j])
}

/// The first position at which a predicate holds, if there is one.
pub open spec fn first(signers: Seq<H160>, good: spec_fn(H160) -> bool) -> Option<int> {
    if exists|i: int| is_first(signers, good, i) {
        Some(choose|i: int| is_first(signers, good, i))
    } else {
        None
    }
}

/// The position of the signer that takes a transaction of the given cost: the first idle one that
/// can pay it, else the first busy one that can.
pub open spec fn good_signer(signers: Seq<H160>, books: Map<Words, Ledger>, cost: nat) -> Option<
    int,
> {
    let idle = first(signers, |address: H160| idle_and_good(books, address, cost));
    if idle is Some {
        idle
    } else {
        first(signers, |address: H160| busy_and_good(books, address, cost))
    }
}

/// Whether position `i` is that of the first idle signer that can pay the given cost, or, where no
/// idle signer can, that of the first busy one.
pub open spec fn is_good_choice(
    signers: Seq<H160>,
    books: Map<Words, Ledger>,
    cost: nat,
    i: int,
) -> bool {
    &&& 0 <= i < signers.len()
    &&& idle_and_good(books, signers[i], cost) || busy_and_good(books, signers[i], cost)
    &&& idle_and_good(books, signers[i], cost) ==> forall|j: int|
        0 <= j < i ==> !idle_and_good(books, #[trigger] signers[j], cost)
    &&& busy_and_good(books, signers[i], cost) ==> forall|j: int|
        0 <= j < signers.len() ==> !idle_and_good(books, #[trigger] signers[j], cost)
    &&& busy_and_good(books, signers[i], cost) ==> forall|j: int|
        0 <= j < i ==> !busy_and_good(books, #[trigger] signers[j], cost)
}

/// Whether the search for a signer never meets an overcommitted one: an idle signer can pay, or
/// some busy signer that can pay stands before each overcommitted one.
pub open spec fn search_defined(
    signers: Seq<H160>,
    books: Map<Words, Ledger>,
    cost: nat,
) -> bool {
    ||| exists|i: int| 0 <= i < signers.len() && idle_and_good(books, #[trigger] signers[i], cost)
    ||| forall|i: int|
        0 <= i < signers.len() && overcommitted(books, #[trigger] signers[i]) ==> exists|j: int|
            0 <= j < i && busy_and_good(books, #[trigger] signers[j], cost)
}

/// `first` is the one position that is first.
pub proof fn lemma_first(signers: Seq<H160>, good: spec_fn(H160) -> bool, i: int)
    requires
        is_first(signers, good, i),
    ensures
        first(signers, good) == Some(i),
{
    let k = choose|k: int| is_first(signers, good, k);
    if k < i {
        assert(!good(signers[k]));
    } else if i < k {
        assert(!good(signers[i]));
    }
}

/// Where a predicate holds of some position, there is a first one, no later than that.
pub proof fn lemma_first_exists(signers: Seq<H160>, good: spec_fn(H160) -> bool, i: int)
    requires
        0 <= i < signers.len(),
        good(signers[i]),
    ensures
        first(signers, good) matches Some(k) && k <= i && is_first(signers, good, k),
    decreases i,
{
    if exists|j: int| 0 <= j < i && good(#[trigger] signers[j]) {
        let j = choose|j: int| 0 <= j < i && good(#[trigger] signers[j]);
        lemma_first_exists(signers, good, j);
    } else {
        assert(is_first(signers, good, i));
        lemma_first(signers, good, i);
    }
}

/// Where a predicate holds of no position, there is no first one.
pub proof fn lemma_no_first(signers: Seq<H160>, good: spec_fn(H160) -> bool)
    requires
        forall|i: int| 0 <= i < signers.len() ==> !good(#[trigger] signers[i]),
    ensures
        first(signers, good) == None::<int>,
{
}

/// `good_signer` is the one position that is a good choice.
pub proof fn law_good_choice_is_unique(
    signers: Seq<H160>,
    books: Map<Words, Ledger>,
    cost: nat,
    i: int,
)
    ensures
        is_good_choice(signers, books, cost, i) <==> good_signer(signers, books, cost) == Some(i),
{
    let idle = |address: H160| idle_and_good(books, address, cost);
    let busy = |address: H160| busy_and_good(books, address, cost);
    if is_good_choice(signers, books, cost, i) {
        if idle(signers[i]) {
            assert(is_first(signers, idle, i));
            lemma_first(signers, idle, i);
        } else {
            lemma_no_first(signers, idle);
            assert(is_first(signers, busy, i));
            lemma_first(signers, busy, i);
        }
    }
    if good_signer(signers, books, cost) == Some(i) {
        if first(signers, idle) is Some {
            assert(is_first(signers, idle, i));
            assert forall|j: int| 0 <= j < i implies !idle_and_good(
                books,
                #[trigger] signers[j],
                cost,
            ) by {
                assert(!idle(signers[j]));
            }
        } else {
            assert(is_first(signers, busy, i));
            assert forall|j: int| 0 <= j < i implies !busy_and_good(
                books,
                #[trigger] signers[j],
                cost,
            ) by {
                assert(!busy(signers[j]));
            }
            assert forall|j: int| 0 <= j < signers.len() implies !idle_and_good(
                books,
                #[trigger] signers[j],
                cost,
            ) by {
                if idle(signers[j]) {
                    lemma_first_exists(signers, idle, j);
                }
            }
        }
    }
}

/// The books on a signer are what its state holds: the balance, the amount set aside, and under
/// each internal nonce the estimated cost, all in full.
pub proof fn law_books_are_the_state(
    balance: U256,
    estimated_pending_spend: U256,
    nonces_and_est_costs: BTreeMap<Limbs, U256>,
)
    ensures
        (SignerState::Idle { balance })@ == (Ledger::Idle { balance: balance@ }),
        (SignerState::Busy { balance, estimated_pending_spend, nonces_and_est_costs })@
            matches Ledger::Busy { balance: now, pending, costs } && now == balance@ && pending
            == estimated_pending_spend@ && (forall|nonce: U256|
            costs.contains_key(#[trigger] nonce@) <==> nonces_and_est_costs@.contains_key(
                nonce.limbs,
            )) && (forall|nonce: U256| #[trigger]
            nonces_and_est_costs@.contains_key(nonce.limbs) ==> costs[nonce@]
                == nonces_and_est_costs@[nonce.limbs]@) && (forall|n: nat|
            costs.contains_key(n) ==> n < modulus()),
{
    assert forall|nonce: U256|
        by_value(nonces_and_est_costs@).contains_key(#[trigger] nonce@)
            <==> nonces_and_est_costs@.contains_key(nonce.limbs) by {
        lemma_by_value_lookup(nonces_and_est_costs@, nonce);
    }
    assert forall|nonce: U256| #[trigger]
        nonces_and_est_costs@.contains_key(nonce.limbs) implies by_value(
        nonces_and_est_costs@,
    )[nonce@] == nonces_and_est_costs@[nonce.limbs] by {
        lemma_by_value_lookup(nonces_and_est_costs@, nonce);
    }
}

/// There are books on the signers that have a state, and each is what that state holds.
pub proof fn law_books_are_the_states(states: Map<Words, SignerState>, words: Words)
    ensures
        ledgers(states).contains_key(words) <==> states.contains_key(words),
        states.contains_key(words) ==> ledgers(states)[words] == states[words]@,
{
}

/// The first idle signer whose balance covers the cost is picked.
pub proof fn law_first_idle_signer_that_can_pay_is_picked(
    signers: Seq<H160>,
    books: Map<Words, Ledger>,
    cost: nat,
    i: int,
)
    requires
        0 <= i < signers.len(),
        books.contains_key(signers[i].words),
        books[signers[i].words] matches Ledger::Idle { balance } && balance >= cost,
        forall|j: int|
            0 <= j < i && books.contains_key((#[trigger] signers[j]).words) ==> (
            books[signers[j].words] matches Ledger::Idle { balance } ==> balance < cost),
    ensures
        good_signer(signers, books, cost) == Some(i),
{
    assert forall|j: int| 0 <= j < i implies !idle_and_good(books, #[trigger] signers[j], cost) by {
        assert(books.contains_key(signers[j].words) ==> (
        books[signers[j].words] matches Ledger::Idle { balance } ==> balance < cost));
    }
    law_good_choice_is_unique(signers, books, cost, i);
}

/// Where no idle signer's balance covers the cost, the first busy signer is picked whose balance
/// covers it together with what is set aside.
pub proof fn law_first_busy_signer_that_can_pay_is_picked(
    signers: Seq<H160>,
    books: Map<Words, Ledger>,
    cost: nat,
    i: int,
)
    requires
        forall|j: int|
            0 <= j < signers.len() && books.contains_key((#[trigger] signers[j]).words) ==> (
            books[signers[j].words] matches Ledger::Idle { balance } ==> balance < cost),
        0 <= i < signers.len(),
        books.contains_key(signers[i].words),
        books[signers[i].words] matches Ledger::Busy { balance, pending, .. } && balance >= pending
            + cost,
        forall|j: int|
            0 <= j < i && books.contains_key((#[trigger] signers[j]).words) ==> (
            books[signers[j].words] matches Ledger::Busy { balance, pending, .. } ==> balance
                < pending + cost),
    ensures
        good_signer(signers, books, cost) == Some(i),
{
    assert forall|j: int| 0 <= j < signers.len() implies !idle_and_good(
        books,
        #[trigger] signers[j],
        cost,
    ) by {
        assert(books.contains_key(signers[j].words) ==> (
        books[signers[j].words] matches Ledger::Idle { balance } ==> balance < cost));
    }
    assert forall|j: int| 0 <= j < i implies !busy_and_good(books, #[trigger] signers[j], cost) by {
        assert(books.contains_key(signers[j].words) ==> (
        books[signers[j].words] matches Ledger::Busy { balance, pending, .. } ==> balance < pending
            + cost));
    }
    law_good_choice_is_unique(signers, books, cost, i);
}

/// A signer is picked exactly where some signer can pay: an idle one out of its balance, a busy one
/// out of what its balance holds beyond what is set aside.
pub proof fn law_signer_is_picked_iff_one_can_pay(
    signers: Seq<H160>,
    books: Map<Words, Ledger>,
    cost: nat,
)
    ensures
        good_signer(signers, books, cost) is Some <==> exists|i: int|
            0 <= i < signers.len() && books.contains_key((#[trigger] signers[i]).words) && match (
            books[signers[i].words]) {
                Ledger::Idle { balance } => balance >= cost,
                Ledger::Busy { balance, pending, .. } => balance >= pending + cost,
            },
{
    law_no_signer_only_if_none_can_pay(signers, books, cost);
    if good_signer(signers, books, cost) is Some {
        let i = choose|i: int|
            0 <= i < signers.len() && (idle_and_good(books, #[trigger] signers[i], cost)
                || busy_and_good(books, signers[i], cost));
        assert(0 <= i < signers.len() && books.contains_key(signers[i].words));
    } else {
        assert forall|i: int|
            0 <= i < signers.len() && books.contains_key((#[trigger] signers[i]).words) implies !(
        match (books[signers[i].words]) {
            Ledger::Idle { balance } => balance >= cost,
            Ledger::Busy { balance, pending, .. } => balance >= pending + cost,
        }) by {
            assert(!idle_and_good(books, signers[i], cost) && !busy_and_good(
                books,
                signers[i],
                cost,
            ));
        }
    }
}

/// The search for a signer is undefined where it meets a debt: no idle signer can pay, and a busy
/// signer has set aside more than its balance while no busy signer before it can pay.
pub proof fn law_search_fails_on_a_debt(
    signers: Seq<H160>,
    books: Map<Words, Ledger>,
    cost: nat,
    i: int,
)
    requires
        forall|j: int|
            0 <= j < signers.len() && books.contains_key((#[trigger] signers[j]).words) ==> (
            books[signers[j].words] matches Ledger::Idle { balance } ==> balance < cost),
        0 <= i < signers.len(),
        books.contains_key(signers[i].words),
        books[signers[i].words] matches Ledger::Busy { balance, pending, .. } && balance < pending,
        forall|j: int|
            0 <= j < i && books.contains_key((#[trigger] signers[j]).words) ==> (
            books[signers[j].words] matches Ledger::Busy { balance, pending, .. } ==> balance
                < pending + cost),
    ensures
        !search_defined(signers, books, cost),
{
    assert forall|j: int| 0 <= j < signers.len() implies !idle_and_good(
        books,
        #[trigger] signers[j],
        cost,
    ) by {
        assert(books.contains_key(signers[j].words) ==> (
        books[signers[j].words] matches Ledger::Idle { balance } ==> balance < cost));
    }
    assert(overcommitted(books, signers[i]));
    assert forall|j: int| 0 <= j < i implies !busy_and_good(books, #[trigger] signers[j], cost) by {
        assert(books.contains_key(signers[j].words) ==> (
        books[signers[j].words] matches Ledger::Busy { balance, pending, .. } ==> balance < pending
            + cost));
    }
}

/// Where an idle signer can pay, the search for a signer is defined, whatever the busy ones owe.
pub proof fn law_search_ends_at_an_idle_signer(
    signers: Seq<H160>,
    books: Map<Words, Ledger>,
    cost: nat,
    i: int,
)
    requires
        0 <= i < signers.len(),
        books.contains_key(signers[i].words),
        books[signers[i].words] matches Ledger::Idle { balance } && balance >= cost,
    ensures
        search_defined(signers, books, cost),
{
    assert(idle_and_good(books, signers[i], cost));
}

/// Where a busy signer that can pay stands before each one that has set aside more than its
/// balance, the search for a signer is defined.
pub proof fn law_search_ends_before_a_debt(
    signers: Seq<H160>,
    books: Map<Words, Ledger>,
    cost: nat,
)
    requires
        forall|i: int|
            0 <= i < signers.len() && books.contains_key((#[trigger] signers[i]).words) && (
            books[signers[i].words] matches Ledger::Busy { balance, pending, .. } && balance
                < pending) ==> exists|j: int|
                0 <= j < i && books.contains_key((#[trigger] signers[j]).words) && (
                books[signers[j].words] matches Ledger::Busy { balance, pending, .. } && balance
                    >= pending + cost),
    ensures
        search_defined(signers, books, cost),
{
    assert forall|i: int|
        0 <= i < signers.len() && overcommitted(books, #[trigger] signers[i]) implies exists|j: int|
        0 <= j < i && busy_and_good(books, #[trigger] signers[j], cost) by {
        assert(books.contains_key(signers[i].words));
        let j = choose|j: int|
            0 <= j < i && books.contains_key((#[trigger] signers[j]).words) && (
            books[signers[j].words] matches Ledger::Busy { balance, pending, .. } && balance
                >= pending + cost);
        assert(busy_and_good(books, signers[j], cost));
    }
}

/// The signer that is picked can pay: it is idle and its balance covers the cost, or it is busy and
/// its balance covers the cost beside what is set aside.
pub proof fn law_picked_signer_can_pay(signers: Seq<H160>, books: Map<Words, Ledger>, cost: nat)
    ensures
        good_signer(signers, books, cost) matches Some(i) ==> 0 <= i < signers.len() && (
        idle_and_good(books, signers[i], cost) || busy_and_good(books, signers[i], cost)),
{
}

/// Idle signers come first: where an idle signer can pay, the one that is picked is the first idle
/// signer that can.
pub proof fn law_idle_signers_first(
    signers: Seq<H160>,
    books: Map<Words, Ledger>,
    cost: nat,
    some_idle: int,
)
    requires
        0 <= some_idle < signers.len(),
        idle_and_good(books, signers[some_idle], cost),
    ensures
        good_signer(signers, books, cost) matches Some(i) && i <= some_idle && idle_and_good(
            books,
            signers[i],
            cost,
        ) && forall|j: int| 0 <= j < i ==> !idle_and_good(books, #[trigger] signers[j], cost),
{
    let idle = |address: H160| idle_and_good(books, address, cost);
    lemma_first_exists(signers, idle, some_idle);
    let i = first(signers, idle)->Some_0;
    assert forall|j: int| 0 <= j < i implies !idle_and_good(books, #[trigger] signers[j], cost) by {
        assert(!idle(signers[j]));
    }
}

/// Where no idle signer can pay but a busy one can, the one that is picked is the first busy signer
/// that can.
pub proof fn law_busy_signers_next(
    signers: Seq<H160>,
    books: Map<Words, Ledger>,
    cost: nat,
    some_busy: int,
)
    requires
        forall|j: int|
            0 <= j < signers.len() ==> !idle_and_good(books, #[trigger] signers[j], cost),
        0 <= some_busy < signers.len(),
        busy_and_good(books, signers[some_busy], cost),
    ensures
        good_signer(signers, books, cost) matches Some(i) && i <= some_busy && busy_and_good(
            books,
            signers[i],
            cost,
        ) && forall|j: int| 0 <= j < i ==> !busy_and_good(books, #[trigger] signers[j], cost),
{
    let busy = |address: H160| busy_and_good(books, address, cost);
    lemma_no_first(signers, |address: H160| idle_and_good(books, address, cost));
    lemma_first_exists(signers, busy, some_busy);
    let i = first(signers, busy)->Some_0;
    assert forall|j: int| 0 <= j < i implies !busy_and_good(books, #[trigger] signers[j], cost) by {
        assert(!busy(signers[j]));
    }
}

/// No signer is picked only where none can pay.
pub proof fn law_no_signer_only_if_none_can_pay(
    signers: Seq<H160>,
    books: Map<Words, Ledger>,
    cost: nat,
)
    ensures
        good_signer(signers, books, cost) is None <==> forall|i: int|
            0 <= i < signers.len() ==> !idle_and_good(books, #[trigger] signers[i], cost)
                && !busy_and_good(books, signers[i], cost),
{
    let idle = |address: H160| idle_and_good(books, address, cost);
    let busy = |address: H160| busy_and_good(books, address, cost);
    assert forall|i: int|
        0 <= i < signers.len() && good_signer(signers, books, cost) is None implies !idle_and_good(
        books,
        #[trigger] signers[i],
        cost,
    ) && !busy_and_good(books, signers[i], cost) by {
        if idle(signers[i]) {
            lemma_first_exists(signers, idle, i);
        }
        if busy(signers[i]) {
            lemma_first_exists(signers, busy, i);
        }
    }
}

/// A signer that is picked does not set aside more than its balance because of it.
pub proof fn law_picked_signer_stays_solvent(
    signers: Seq<H160>,
    books: Map<Words, Ledger>,
    cost: nat,
    nonce: nat,
)
    ensures
        good_signer(signers, books, cost) matches Some(i) ==> books[signers[i].words].schedule(
            cost,
            nonce,
        ).solvent(),
{
}

/// Where every balance covers what is set aside, the search for a signer is defined.
pub proof fn law_solvent_search_is_defined(
    signers: Seq<H160>,
    books: Map<Words, Ledger>,
    cost: nat,
)
    requires
        forall|words: Words| #[trigger] books.contains_key(words) ==> books[words].solvent(),
    ensures
        search_defined(signers, books, cost),
{
}

/// Whether the search for a signer never meets an overcommitted one.
pub fn search_is_defined(
    signers: &[H160],
    signer_states: &BTreeMap<Words, SignerState>,
    estimated_gas_cost: U256,
) -> (r: bool)
    ensures
        r == search_defined(signers@, ledgers(signer_states@), estimated_gas_cost@),
{
    let ghost books = ledgers(signer_states@);
    let mut i: usize = 0;
    while i < signers.len()
        invariant
            i <= signers.len(),
            books == ledgers(signer_states@),
            forall|j: int|
                0 <= j < i ==> !idle_and_good(books, #[trigger] signers@[j], estimated_gas_cost@),
        decreases signers.len() - i,
    {
        if let Some(SignerState::Idle { balance }) = signer_states.get(&signers[i].words) {
            if balance.at_least(estimated_gas_cost) {
                assert(idle_and_good(books, signers@[i as int], estimated_gas_cost@));
                return true;
            }
        }
        i = i + 1;
    }
    let mut i: usize = 0;
    while i < signers.len()
        invariant
            i <= signers.len(),
            books == ledgers(signer_states@),
            forall|j: int|
                0 <= j < signers.len() ==> !idle_and_good(
                    books,
                    #[trigger] signers@[j],
                    estimated_gas_cost@,
                ),
            forall|j: int|
                0 <= j < i ==> !busy_and_good(books, #[trigger] signers@[j], estimated_gas_cost@),
            forall|j: int| 0 <= j < i ==> !overcommitted(books, #[trigger] signers@[j]),
        decreases signers.len() - i,
    {
        if let Some(SignerState::Busy { balance, estimated_pending_spend, .. }) = signer_states.get(
            &signers[i].words,
        ) {
            if !balance.at_least(*estimated_pending_spend) {
                assert(overcommitted(books, signers@[i as int]));
                return false;
            }
            if balance.minus(*estimated_pending_spend).at_least(estimated_gas_cost) {
                assert(busy_and_good(books, signers@[i as int], estimated_gas_cost@));
                return true;
            }
        }
        i = i + 1;
    }
    true
}

/// Picks the signer that takes a transaction of the given estimated cost: the first idle one whose
/// balance covers it, else the first busy one whose balance covers it beside what is set aside.
/// `None` if there is neither.
///
/// The search must not meet a busy signer that has set aside more than its balance.
pub fn get_good_signer(
    signers: &[H160],
    signer_states: &BTreeMap<Words, SignerState>,
    estimated_gas_cost: U256,
) -> (r: Option<usize>)
    requires
        search_defined(signers@, ledgers(signer_states@), estimated_gas_cost@),
    ensures
        r is Some <==> good_signer(signers@, ledgers(signer_states@), estimated_gas_cost@) is Some,
        r matches Some(i) ==> good_signer(
            signers@,
            ledgers(signer_states@),
            estimated_gas_cost@,
        ) == Some(i as int),
        match r {
            Some(i) => is_good_choice(
                signers@,
                ledgers(signer_states@),
                estimated_gas_cost@,
                i as int,
            ),
            None => forall|j: int|
                0 <= j < signers@.len() ==> !idle_and_good(
                    ledgers(signer_states@),
                    #[trigger] signers@[j],
                    estimated_gas_cost@,
                ) && !busy_and_good(ledgers(signer_states@), signers@[j], estimated_gas_cost@),
        },
{
    let ghost books = ledgers(signer_states@);
    let ghost idle = |address: H160| idle_and_good(books, address, estimated_gas_cost@);
    let ghost busy = |address: H160| busy_and_good(books, address, estimated_gas_cost@);
    let mut i: usize = 0;
    while i < signers.len()
        invariant
            i <= signers.len(),
            books == ledgers(signer_states@),
            idle == (|address: H160| idle_and_good(books, address, estimated_gas_cost@)),
            forall|j: int| 0 <= j < i ==> !idle(#[trigger] signers@[j]),
        decreases signers.len() - i,
    {
        if let Some(SignerState::Idle { balance }) = signer_states.get(&signers[i].words) {
            if balance.at_least(estimated_gas_cost) {
                proof {
                    assert(is_first(signers@, idle, i as int));
                    lemma_first(signers@, idle, i as int);
                }
                return Some(i);
            }
        }
        i = i + 1;
    }
    proof {
        lemma_no_first(signers@, idle);
    }
    let mut i: usize = 0;
    while i < signers.len()
        invariant
            i <= signers.len(),
            books == ledgers(signer_states@),
            idle == (|address: H160| idle_and_good(books, address, estimated_gas_cost@)),
            busy == (|address: H160| busy_and_good(books, address, estimated_gas_cost@)),
            first(signers@, idle) is None,
            forall|j: int| 0 <= j < signers.len() ==> !idle(#[trigger] signers@[j]),
            forall|j: int| 0 <= j < i ==> !busy(#[trigger] signers@[j]),
            search_defined(signers@, books, estimated_gas_cost@),
        decreases signers.len() - i,
    {
        if let Some(SignerState::Busy { balance, estimated_pending_spend, .. }) = signer_states.get(
            &signers[i].words,
        ) {
            proof {
                if overcommitted(books, signers@[i as int]) {
                    let j = choose|j: int|
                        0 <= j < i && busy_and_good(
                            books,
                            #[trigger] signers@[j],
                            estimated_gas_cost@,
                        );
                    assert(busy(signers@[j]));
                }
            }
            if balance.minus(*estimated_pending_spend).at_least(estimated_gas_cost) {
                proof {
                    assert(is_first(signers@, busy, i as int));
                    lemma_first(signers@, busy, i as int);
                }
                return Some(i);
            }
        }
        i = i + 1;
    }
    proof {
        lemma_no_first(signers@, busy);
    }
    None
}

} // verus!
