//! The integer side of the target simulator: how far the target travels in
//! one step, and which clients stay on the list after a broadcast.

use crate::telemetry::{advance, advanced};
use vstd::prelude::*;

verus! {

/// Port on which the target simulator serves telemetry.
pub const TARGET_SOURCE_PORT: u16 = 45500;

/// Nominal time between two telemetry lines, in milliseconds.
pub const MSG_DELTA_T_MS: u64 = 250;

/// Length of the arc that a target at `ground_speed` (tenths of a metre per
/// second) covers in `elapsed` milliseconds, in position units (tenths of a
/// millimetre).
pub open spec fn arc_length_spec(ground_speed: i64, elapsed: int) -> i64 {
    advanced(0, ground_speed, elapsed)
}

/// Length of the arc travelled since the last step. The step is measured,
/// not assumed: `elapsed` is the time that really passed.
pub fn arc_length(ground_speed: i64, elapsed: u64) -> (arc: i64)
    ensures
        arc == arc_length_spec(ground_speed, elapsed as int),
        i64::MIN <= ground_speed * elapsed <= i64::MAX ==> arc == ground_speed * elapsed,
{
    advance(0, ground_speed, elapsed)
}

/// The clients that a broadcast reached, in their order: `clients[i]` stays
/// exactly where `delivered[i]` holds.
pub open spec fn kept<T>(clients: Seq<T>, delivered: Seq<bool>) -> Seq<T>
    decreases clients.len(),
{
    if clients.len() == 0 || delivered.len() == 0 {
        Seq::empty()
    } else if delivered[0] {
        seq![clients[0]] + kept(clients.skip(1), delivered.skip(1))
    } else {
        kept(clients.skip(1), delivered.skip(1))
    }
}

/// Drops from `clients` every one whose write failed: a failed write is how
/// a disconnect shows.
pub fn keep_delivered<T>(clients: &mut Vec<T>, delivered: &Vec<bool>)
    requires
        delivered@.len() == old(clients)@.len(),
    ensures
        final(clients)@ == kept(old(clients)@, delivered@),
{
    let mut i: usize = clients.len();
    proof {
        assert(old(clients)@.subrange(0, i as int) =~= old(clients)@);
        assert(old(clients)@.skip(i as int) =~= Seq::<T>::empty());
        assert(clients@ =~= old(clients)@.subrange(0, i as int) + kept(
            old(clients)@.skip(i as int),
            delivered@.skip(i as int),
        ));
    }
    while i > 0
        invariant
            i <= old(clients)@.len(),
            delivered@.len() == old(clients)@.len(),
            clients@ == old(clients)@.subrange(0, i as int) + kept(
                old(clients)@.skip(i as int),
                delivered@.skip(i as int),
            ),
        decreases i,
    {
        i = i - 1;
        let ghost head = old(clients)@.subrange(0, i as int);
        let ghost tail = kept(old(clients)@.skip(i + 1), delivered@.skip(i + 1));
        proof {
            assert(old(clients)@.skip(i as int).skip(1) =~= old(clients)@.skip(i + 1));
            assert(delivered@.skip(i as int).skip(1) =~= delivered@.skip(i + 1));
            assert(old(clients)@.subrange(0, i + 1) =~= head.push(old(clients)@[i as int]));
            assert(clients@ =~= head.push(old(clients)@[i as int]) + tail);
        }
        if !delivered[i] {
            clients.remove(i);
            proof {
                assert(clients@ =~= head + tail);
            }
        } else {
            proof {
                assert(clients@ =~= head + (seq![old(clients)@[i as int]] + tail));
            }
        }
    }
    proof {
        assert(old(clients)@.skip(0) =~= old(clients)@);
        assert(delivered@.skip(0) =~= delivered@);
        assert(old(clients)@.subrange(0, 0) =~= Seq::<T>::empty());
        assert(clients@ =~= kept(old(clients)@, delivered@));
    }
}

/// Nobody who was reached is dropped and nobody who was not stays: the list
/// after a broadcast is as long as the count of deliveries, and where every
/// write went through it is the list before.
pub proof fn lemma_kept_all<T>(clients: Seq<T>, delivered: Seq<bool>)
    requires
        delivered.len() == clients.len(),
    ensures
        kept(clients, delivered).len() <= clients.len(),
        (forall|i: int| 0 <= i < delivered.len() ==> delivered[i]) ==> kept(clients, delivered)
            == clients,
        (forall|i: int| 0 <= i < delivered.len() ==> !delivered[i]) ==> kept(clients, delivered)
            == Seq::<T>::empty(),
    decreases clients.len(),
{
    if clients.len() > 0 {
        lemma_kept_all(clients.skip(1), delivered.skip(1));
        if forall|i: int| 0 <= i < delivered.len() ==> delivered[i] {
            assert forall|i: int| 0 <= i < delivered.skip(1).len() implies delivered.skip(1)[i] by {
                assert(delivered[i + 1]);
            }
            assert(delivered[0]);
            assert(seq![clients[0]] + clients.skip(1) =~= clients);
        }
        if forall|i: int| 0 <= i < delivered.len() ==> !delivered[i] {
            assert forall|i: int| 0 <= i < delivered.skip(1).len() implies !delivered.skip(1)[i] by {
                assert(!delivered[i + 1]);
            }
            assert(!delivered[0]);
        }
    } else {
        assert(clients =~= Seq::<T>::empty());
    }
}

} // verus!
