//! The books that the dispatcher keeps on a signer, in natural numbers.

use vstd::prelude::*;

verus! {

/// What the dispatcher knows of a signer.
pub enum Ledger {
    /// No transaction of the signer is waiting for its confirmation.
    Idle { balance: nat },
    /// Some transactions are: `costs` gives the estimated cost of each by its internal nonce, and
    /// `pending` is the amount that is set aside for them.
    Busy { balance: nat, pending: nat, costs: Map<nat, nat> },
}

/// The sum of the costs in a finite map.
pub open spec fn total(costs: Map<nat, nat>) -> nat
    decreases costs.dom().len(),
    when costs.dom().finite()
{
    if costs.dom().is_empty() {
        0
    } else {
        let nonce = costs.dom().choose();
        costs[nonce] + total(costs.remove(nonce))
    }
}

impl Ledger {
    /// The balance of the signer, as last reported.
    pub open spec fn balance(self) -> nat {
        match self {
            Ledger::Idle { balance } => balance,
            Ledger::Busy { balance, .. } => balance,
        }
    }

    /// The amount that is set aside for transactions in flight.
    pub open spec fn pending(self) -> nat {
        match self {
            Ledger::Idle { .. } => 0,
            Ledger::Busy { pending, .. } => pending,
        }
    }

    /// The estimated costs of the transactions in flight.
    pub open spec fn costs(self) -> Map<nat, nat> {
        match self {
            Ledger::Idle { .. } => Map::empty(),
            Ledger::Busy { costs, .. } => costs,
        }
    }

    /// The same books with another balance.
    pub open spec fn with_balance(self, new_balance: nat) -> Ledger {
        match self {
            Ledger::Idle { .. } => Ledger::Idle { balance: new_balance },
            Ledger::Busy { pending, costs, .. } => Ledger::Busy {
                balance: new_balance,
                pending,
                costs,
            },
        }
    }

    /// Whether the books are consistent: a busy signer has a transaction in flight, and what is set
    /// aside is the sum of the estimated costs.
    pub open spec fn consistent(self) -> bool {
        match self {
            Ledger::Idle { .. } => true,
            Ledger::Busy { pending, costs, .. } => {
                &&& costs.dom().finite()
                &&& !costs.is_empty()
                &&& pending == total(costs)
            },
        }
    }

    /// Whether the balance covers what is set aside.
    pub open spec fn solvent(self) -> bool {
        self.pending() <= self.balance()
    }

    /// The books after a transaction of the given estimated cost was handed to the signer.
    pub open spec fn schedule(self, cost: nat, nonce: nat) -> Ledger {
        match self {
            Ledger::Idle { balance } => Ledger::Busy {
                balance,
                pending: cost,
                costs: Map::empty().insert(nonce, cost),
            },
            Ledger::Busy { balance, pending, costs } => Ledger::Busy {
                balance,
                pending: pending + cost,
                costs: costs.insert(nonce, cost),
            },
        }
    }

    /// Whether a transaction can be taken off the books: it is in flight and its estimated cost is
    /// set aside.
    pub open spec fn can_settle(self, nonce: nat) -> bool {
        &&& self is Busy
        &&& self.costs().contains_key(nonce)
        &&& self.costs()[nonce] <= self.pending()
    }

    /// The books after a transaction in flight ended and left the signer with a new balance.
    pub open spec fn settle(self, new_balance: nat, nonce: nat) -> Ledger {
        let left = self.costs().remove(nonce);
        if left.is_empty() {
            Ledger::Idle { balance: new_balance }
        } else {
            Ledger::Busy {
                balance: new_balance,
                pending: (self.pending() - self.costs()[nonce]) as nat,
                costs: left,
            }
        }
    }
}

/// To take a cost out of a finite map is to take it off the sum.
pub proof fn lemma_total_remove(costs: Map<nat, nat>, nonce: nat)
    requires
        costs.dom().finite(),
        costs.contains_key(nonce),
    ensures
        total(costs) == costs[nonce] + total(costs.remove(nonce)),
    decreases costs.dom().len(),
{
    let first = costs.dom().choose();
    if first != nonce {
        let rest = costs.remove(first);
        lemma_total_remove(rest, nonce);
        let others = costs.remove(nonce);
        lemma_total_remove(others, first);
        assert(rest.remove(nonce) =~= others.remove(first));
    }
}

/// To put a cost into a finite map under a new nonce is to add it to the sum.
pub proof fn lemma_total_insert(costs: Map<nat, nat>, nonce: nat, cost: nat)
    requires
        costs.dom().finite(),
        !costs.contains_key(nonce),
    ensures
        total(costs.insert(nonce, cost)) == total(costs) + cost,
{
    lemma_total_remove(costs.insert(nonce, cost), nonce);
    assert(costs.insert(nonce, cost).remove(nonce) =~= costs);
}

/// What the books say of a signer: an idle one has its balance, and nothing set aside or in flight;
/// a busy one has its balance, what is set aside, and what is in flight.
pub proof fn law_books_say_what_they_hold(balance: nat, pending: nat, costs: Map<nat, nat>)
    ensures
        (Ledger::Idle { balance }).balance() == balance,
        (Ledger::Idle { balance }).pending() == 0,
        forall|nonce: nat| !(Ledger::Idle { balance }).costs().contains_key(nonce),
        (Ledger::Idle { balance }).solvent(),
        (Ledger::Idle { balance }).consistent(),
        (Ledger::Busy { balance, pending, costs }).balance() == balance,
        (Ledger::Busy { balance, pending, costs }).pending() == pending,
        (Ledger::Busy { balance, pending, costs }).costs() == costs,
        (Ledger::Busy { balance, pending, costs }).solvent() <==> pending <= balance,
        (Ledger::Busy { balance, pending, costs }).consistent() <==> costs.dom().finite() && pending
            == total(costs) && exists|nonce: nat| costs.contains_key(nonce),
{
    if (Ledger::Busy { balance, pending, costs }).consistent() {
        assert(costs.contains_key(costs.dom().choose()));
    }
}

/// The sum of no costs is zero, and each cost under a new nonce adds itself.
pub proof fn law_total_is_a_sum(costs: Map<nat, nat>, nonce: nat, cost: nat)
    requires
        costs.dom().finite(),
        !costs.contains_key(nonce),
    ensures
        total(Map::empty()) == 0,
        total(costs.insert(nonce, cost)) == total(costs) + cost,
{
    lemma_total_insert(costs, nonce, cost);
}

/// An idle signer that is handed a transaction keeps its balance, sets aside the cost of that
/// transaction and no more, and has that transaction in flight and no other.
pub proof fn law_idle_signer_starts_on_a_transaction(balance: nat, cost: nat, nonce: nat)
    ensures
        (Ledger::Idle { balance }).schedule(cost, nonce) matches Ledger::Busy {
            balance: kept,
            pending: aside,
            costs: flying,
        } && kept == balance && aside == cost && flying[nonce] == cost && forall|n: nat|
            flying.contains_key(n) <==> n == nonce,
{
}

/// A busy signer that is handed another transaction keeps its balance, sets aside the cost of that
/// transaction beside what it has set aside, and has that transaction in flight beside the others,
/// each at the cost it had.
pub proof fn law_busy_signer_takes_another_transaction(
    balance: nat,
    pending: nat,
    costs: Map<nat, nat>,
    cost: nat,
    nonce: nat,
)
    ensures
        (Ledger::Busy { balance, pending, costs }).schedule(cost, nonce) matches Ledger::Busy {
            balance: kept,
            pending: aside,
            costs: flying,
        } && kept == balance && aside == pending + cost && flying[nonce] == cost && (forall|n: nat|
            flying.contains_key(n) <==> n == nonce || costs.contains_key(n)) && forall|n: nat|
            n != nonce && costs.contains_key(n) ==> #[trigger] flying[n] == costs[n],
{
}

/// A transaction can be settled where it is in flight and its cost is set aside, and not on an idle
/// signer.
pub proof fn law_what_can_settle(balance: nat, pending: nat, costs: Map<nat, nat>, nonce: nat)
    ensures
        !(Ledger::Idle { balance }).can_settle(nonce),
        (Ledger::Busy { balance, pending, costs }).can_settle(nonce) <==> costs.contains_key(nonce)
            && costs[nonce] <= pending,
{
}

/// A signer whose last transaction ends is idle, with the new balance.
pub proof fn law_last_transaction_leaves_signer_idle(
    balance: nat,
    pending: nat,
    costs: Map<nat, nat>,
    new_balance: nat,
    nonce: nat,
)
    requires
        forall|n: nat| costs.contains_key(n) <==> n == nonce,
    ensures
        (Ledger::Busy { balance, pending, costs }).settle(new_balance, nonce) == (Ledger::Idle {
            balance: new_balance,
        }),
{
    assert(costs.remove(nonce).dom() =~= Set::empty());
}

/// A signer of which one transaction ends while another is in flight has the new balance, no longer
/// sets aside the cost of the one that ended, and has the others in flight, each at the cost it
/// had.
pub proof fn law_other_transactions_keep_signer_busy(
    balance: nat,
    pending: nat,
    costs: Map<nat, nat>,
    new_balance: nat,
    nonce: nat,
    other: nat,
)
    requires
        costs.contains_key(nonce),
        costs[nonce] <= pending,
        costs.contains_key(other),
        other != nonce,
    ensures
        (Ledger::Busy { balance, pending, costs }).settle(
            new_balance,
            nonce,
        ) matches Ledger::Busy { balance: now, pending: aside, costs: flying } && now == new_balance
            && aside + costs[nonce] == pending && (forall|n: nat|
            flying.contains_key(n) <==> n != nonce && costs.contains_key(n)) && forall|n: nat|
            n != nonce && costs.contains_key(n) ==> #[trigger] flying[n] == costs[n],
{
    assert(costs.remove(nonce).contains_key(other));
}

/// Scheduling a transaction under a new nonce keeps the books consistent, makes the signer busy,
/// and raises what is set aside by the transaction's estimated cost.
pub proof fn law_schedule_keeps_books(ledger: Ledger, cost: nat, nonce: nat)
    requires
        ledger.consistent(),
        !ledger.costs().contains_key(nonce),
    ensures
        ledger.schedule(cost, nonce).consistent(),
        ledger.schedule(cost, nonce) is Busy,
        ledger.schedule(cost, nonce).pending() == ledger.pending() + cost,
        ledger.schedule(cost, nonce).balance() == ledger.balance(),
        ledger.schedule(cost, nonce).costs() == ledger.costs().insert(nonce, cost),
{
    lemma_total_insert(ledger.costs(), nonce, cost);
    assert(ledger.costs().insert(nonce, cost).contains_key(nonce));
    assert(total(Map::empty()) == 0);
}

/// Settling a transaction keeps the books consistent, and lowers what is set aside by the
/// transaction's estimated cost. The signer is idle after it only if no other was in flight.
pub proof fn law_settle_keeps_books(ledger: Ledger, new_balance: nat, nonce: nat)
    requires
        ledger.consistent(),
        ledger.costs().contains_key(nonce),
    ensures
        ledger.settle(new_balance, nonce).consistent(),
        ledger.settle(new_balance, nonce) is Idle <==> ledger.costs().dom() == set![nonce],
        ledger.settle(new_balance, nonce).pending() == ledger.pending() - ledger.costs()[nonce],
        ledger.settle(new_balance, nonce).balance() == new_balance,
        ledger.settle(new_balance, nonce).costs() == ledger.costs().remove(nonce),
{
    lemma_total_remove(ledger.costs(), nonce);
    let left = ledger.costs().remove(nonce);
    if left.is_empty() {
        assert(left =~= Map::empty());
        assert(left.dom().insert(nonce) =~= ledger.costs().dom());
        assert(ledger.costs().dom() =~= set![nonce]);
    } else {
        let other = choose|other: nat| left.contains_key(other);
        assert(ledger.costs().contains_key(other) && other != nonce);
    }
}

/// In consistent books every transaction in flight can be settled.
pub proof fn law_in_flight_can_settle(ledger: Ledger, nonce: nat)
    requires
        ledger.consistent(),
        ledger.costs().contains_key(nonce),
    ensures
        ledger.can_settle(nonce),
{
    lemma_total_remove(ledger.costs(), nonce);
}

/// Settling undoes scheduling: but for the balance, the books are what they were.
///
/// A busy signer must have a transaction in flight.
pub proof fn law_settle_undoes_schedule(ledger: Ledger, cost: nat, new_balance: nat, nonce: nat)
    requires
        ledger is Busy ==> !ledger.costs().is_empty(),
        !ledger.costs().contains_key(nonce),
    ensures
        ledger.schedule(cost, nonce).can_settle(nonce),
        ledger.schedule(cost, nonce).settle(new_balance, nonce) == ledger.with_balance(new_balance),
{
    assert(ledger.costs().insert(nonce, cost).remove(nonce) =~= ledger.costs());
}

/// Two transactions that are handed to one signer leave the same books in either order.
pub proof fn law_schedules_commute(ledger: Ledger, cost: nat, nonce: nat, cost2: nat, nonce2: nat)
    requires
        nonce != nonce2,
    ensures
        ledger.schedule(cost, nonce).schedule(cost2, nonce2) == ledger.schedule(
            cost2,
            nonce2,
        ).schedule(cost, nonce),
{
    let costs = ledger.costs();
    assert(costs.insert(nonce, cost).insert(nonce2, cost2) =~= costs.insert(nonce2, cost2).insert(
        nonce,
        cost,
    ));
}

/// Two transactions of one signer may end in either order: with the same last balance the books
/// are the same.
///
/// What is set aside must cover both.
pub proof fn law_settles_commute(
    ledger: Ledger,
    nonce: nat,
    nonce2: nat,
    first_balance: nat,
    first_balance2: nat,
    last_balance: nat,
)
    requires
        ledger.costs().contains_key(nonce),
        ledger.costs().contains_key(nonce2),
        nonce != nonce2,
        ledger.costs()[nonce] + ledger.costs()[nonce2] <= ledger.pending(),
    ensures
        ledger.settle(first_balance, nonce).settle(last_balance, nonce2) == ledger.settle(
            first_balance2,
            nonce2,
        ).settle(last_balance, nonce),
{
    let costs = ledger.costs();
    assert(costs.remove(nonce).contains_key(nonce2));
    assert(costs.remove(nonce2).contains_key(nonce));
    assert(costs.remove(nonce).remove(nonce2) =~= costs.remove(nonce2).remove(nonce));
}

} // verus!
