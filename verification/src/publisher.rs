//! The periodic summary for subscribers: what a tick sends, and who stays
//! subscribed after it.

use crate::aggregated_orderbook::{AggregatedOrderBook, Top10Snapshot, TOP_DEPTH};
use crate::side::{best_asks, best_bids, prices_ascend, prices_descend};
use vstd::prelude::*;

verus! {

/// The time between two summaries, in milliseconds.
pub const PUBLISH_INTERVAL_MILLIS: u64 = 1000;

/// The subscriber at place `i` took the frame: `accepted` says so.
pub open spec fn took_frame(accepted: Seq<bool>, i: int) -> bool {
    0 <= i < accepted.len() && accepted[i]
}

/// The subscribers that took the frame, in their order.
pub open spec fn remaining(subscribers: Seq<u64>, accepted: Seq<bool>) -> Seq<u64>
    decreases subscribers.len(),
{
    if subscribers.len() == 0 {
        Seq::empty()
    } else {
        let before = remaining(subscribers.drop_last(), accepted);
        if took_frame(accepted, subscribers.len() - 1) {
            before.push(subscribers.last())
        } else {
            before
        }
    }
}

/// The summary that a tick sends: the ten best buckets of each side and the
/// spread. A book that has not changed gives the same summary again.
pub fn summary(book: &AggregatedOrderBook) -> (top: Top10Snapshot)
    ensures
        top.spread == book.spread,
        top.bids@ == best_bids(book.bids@, TOP_DEPTH as nat),
        top.asks@ == best_asks(book.asks@, TOP_DEPTH as nat),
        prices_descend(top.bids@),
        prices_ascend(top.asks@),
{
    book.get_top10_snapshot()
}

/// The subscribers that stay after a tick: those whose queue took the frame
/// at once. `accepted[i]` says whether that of `subscribers[i]` did; a
/// subscriber of which it says nothing is dropped.
pub fn still_subscribed(subscribers: &Vec<u64>, accepted: &Vec<bool>) -> (out: Vec<u64>)
    ensures
        out@ == remaining(subscribers@, accepted@),
{
    let mut out: Vec<u64> = Vec::new();
    let mut i: usize = 0;
    assert(subscribers@.take(0) =~= Seq::<u64>::empty());
    while i < subscribers.len()
        invariant
            0 <= i <= subscribers.len(),
            out@ == remaining(subscribers@.take(i as int), accepted@),
        decreases subscribers.len() - i,
    {
        proof {
            assert(subscribers@.take(i + 1).drop_last() =~= subscribers@.take(i as int));
        }
        if i < accepted.len() && accepted[i] {
            out.push(subscribers[i]);
        }
        i = i + 1;
    }
    assert(subscribers@.take(subscribers.len() as int) =~= subscribers@);
    out
}

} // verus!
