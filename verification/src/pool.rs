//! The way into the pool: calls that are made together, and where their results are awaited.

use vstd::prelude::*;

verus! {

/// A transaction with the sending end of the channel on which its result is awaited.
pub struct TXWithOneshot<C, R> {
    pub function_call: C,
    pub oneshot_sender: R,
}

/// Wraps calls that are made together, each with the sending end of its own channel. Returns the
/// wrapped calls, and the receiving ends in the order of the calls, so that awaiting them one after
/// the other gives the results in that order.
pub fn wrap_calls<C, R, W>(function_calls: Vec<(C, (R, W))>) -> (r: (
    Vec<TXWithOneshot<C, R>>,
    Vec<W>,
))
    ensures
        r.0@ == function_calls@.map_values(
            |call: (C, (R, W))|
                TXWithOneshot { function_call: call.0, oneshot_sender: call.1.0 },
        ),
        r.1@ == function_calls@.map_values(|call: (C, (R, W))| call.1.1),
{
    let mut requests: Vec<TXWithOneshot<C, R>> = Vec::new();
    let mut oneshot_receivers: Vec<W> = Vec::new();
    for call in calls: function_calls
        invariant
            requests@ == calls.seq().take(calls.index()).map_values(
                |call: (C, (R, W))|
                    TXWithOneshot { function_call: call.0, oneshot_sender: call.1.0 },
            ),
            oneshot_receivers@ == calls.seq().take(calls.index()).map_values(
                |call: (C, (R, W))| call.1.1,
            ),
    {
        let (function_call, (oneshot_sender, oneshot_receiver)) = call;
        requests.push(TXWithOneshot { function_call, oneshot_sender });
        oneshot_receivers.push(oneshot_receiver);
    }
    assert(function_calls@.take(function_calls@.len() as int) =~= function_calls@);
    (requests, oneshot_receivers)
}

/// Each call is wrapped with the sending end of its own channel, and the receiving ends come in the
/// order of the calls.
pub proof fn law_each_call_has_its_own_channel<C, R, W>(
    function_calls: Vec<(C, (R, W))>,
    i: int,
    r: (Vec<TXWithOneshot<C, R>>, Vec<W>),
)
    requires
        call_ensures(wrap_calls::<C, R, W>, (function_calls,), r),
        0 <= i < function_calls@.len(),
    ensures
        r.0@.len() == function_calls@.len(),
        r.1@.len() == function_calls@.len(),
        r.0@[i].function_call == function_calls@[i].0,
        r.0@[i].oneshot_sender == function_calls@[i].1.0,
        r.1@[i] == function_calls@[i].1.1,
{
}

} // verus!
