//! What holds of the aggregated book whatever is handed to it.

use crate::aggregated_orderbook::BookState;
use crate::decimal::Decimal;
use crate::keys::{
    ascending_keys, descending_keys, first_n, lemma_ascending_keys_are, lemma_first_n_in_order,
    lemma_keys_listed, lemma_reverse_descends, max_key, min_key, no_keys,
};
use crate::side::{
    all_valid, best_asks, best_bids, lemma_levels_follow_keys,
    lemma_upsert_all_keeps_buckets_filled, levels_at, no_vacant_bucket, price_key, prices_ascend,
    prices_descend, spread_of, upsert, upsert_all, Bucket, Side,
};
use crate::types::{ApplyError, Exchange, LastUpdateIds, OrderBook, OrderBookUpdate, OrderLevel};
use vstd::prelude::*;

verus! {

/// The state after the updates were handed in one by one, first to last.
pub open spec fn after_updates(state: BookState, updates: Seq<OrderBookUpdate>) -> BookState
    decreases updates.len(),
{
    if updates.len() == 0 {
        state
    } else {
        after_updates(state, updates.drop_last()).after_update(updates.last())
    }
}

/// `later` records for each venue an update at least as new as `earlier`
/// does.
pub open spec fn ids_not_older(earlier: LastUpdateIds, later: LastUpdateIds) -> bool {
    forall|exchange: Exchange|
        match #[trigger] earlier.of(exchange) {
            Some(before) => match later.of(exchange) {
                Some(after) => before <= after,
                None => false,
            },
            None => true,
        }
}

/// Handing in an update leaves no vacant bucket behind, whether it is
/// applied or refused.
pub proof fn law_update_keeps_buckets_filled(state: BookState, update: OrderBookUpdate)
    requires
        state.buckets_filled(),
    ensures
        state.after_update(update).buckets_filled(),
{
    lemma_upsert_all_keeps_buckets_filled(state.bids, update.bids@);
    lemma_upsert_all_keeps_buckets_filled(state.asks, update.asks@);
}

/// No run of updates leaves a vacant bucket behind.
pub proof fn law_updates_keep_buckets_filled(state: BookState, updates: Seq<OrderBookUpdate>)
    requires
        state.buckets_filled(),
    ensures
        after_updates(state, updates).buckets_filled(),
    decreases updates.len(),
{
    if updates.len() > 0 {
        law_updates_keep_buckets_filled(state, updates.drop_last());
        law_update_keeps_buckets_filled(after_updates(state, updates.drop_last()), updates.last());
    }
}

/// Merging snapshots leaves no vacant bucket behind.
pub proof fn law_merge_keeps_buckets_filled(state: BookState, snapshots: Seq<OrderBook>)
    requires
        state.buckets_filled(),
    ensures
        state.merged_all(snapshots).buckets_filled(),
    decreases snapshots.len(),
{
    if snapshots.len() > 0 {
        law_merge_keeps_buckets_filled(state, snapshots.drop_last());
        let before = state.merged_all(snapshots.drop_last());
        lemma_upsert_all_keeps_buckets_filled(before.bids, snapshots.last().bids@);
        lemma_upsert_all_keeps_buckets_filled(before.asks, snapshots.last().asks@);
    }
}

/// An update that is applied records its id for its venue, an id above the
/// one recorded before, and leaves the id of the other venue as it was.
pub proof fn law_applied_update_advances_its_venue(state: BookState, update: OrderBookUpdate)
    requires
        state.verdict(update) is Ok,
    ensures
        state.after_update(update).last_update_id.of(update.exchange) == Some(update.update_id),
        state.last_update_id.of(update.exchange) matches Some(before) ==> before
            < update.update_id,
        forall|other: Exchange|
            other != update.exchange ==> state.after_update(update).last_update_id.of(other)
                == state.last_update_id.of(other),
{
}

/// The id recorded for a venue never goes down over a run of updates,
/// applied or refused.
pub proof fn law_last_update_id_never_decreases(state: BookState, updates: Seq<OrderBookUpdate>)
    ensures
        ids_not_older(state.last_update_id, after_updates(state, updates).last_update_id),
    decreases updates.len(),
{
    if updates.len() > 0 {
        law_last_update_id_never_decreases(state, updates.drop_last());
        let middle = after_updates(state, updates.drop_last());
        let end = middle.after_update(updates.last());
        assert forall|exchange: Exchange|
            match #[trigger] state.last_update_id.of(exchange) {
                Some(before) => match end.last_update_id.of(exchange) {
                    Some(after) => before <= after,
                    None => false,
                },
                None => true,
            } by {
            assert(match state.last_update_id.of(exchange) {
                Some(before) => match middle.last_update_id.of(exchange) {
                    Some(after) => before <= after,
                    None => false,
                },
                None => true,
            });
        }
    }
}

/// An update that is not newer than the last one applied for its venue is
/// refused as stale and changes nothing, whatever its levels.
pub proof fn law_stale_update_changes_nothing(state: BookState, update: OrderBookUpdate)
    requires
        state.last_update_id.of(update.exchange) matches Some(last) && update.update_id <= last,
    ensures
        state.verdict(update) == Err::<(), ApplyError>(ApplyError::StaleSequence),
        state.after_update(update) == state,
{
}

/// An update is judged by the id of its own venue alone: one that is newer
/// than the last of its venue and has valid levels is applied, whatever id
/// the other venue has reached.
pub proof fn law_sequences_are_per_venue(state: BookState, update: OrderBookUpdate)
    requires
        state.last_update_id.of(update.exchange) matches Some(last) ==> last < update.update_id,
        all_valid(update.bids@),
        all_valid(update.asks@),
    ensures
        state.verdict(update) is Ok,
        state.after_update(update) == state.applied(update),
{
}

/// A level with amount zero, at a price where only its own venue quotes,
/// removes the bucket.
pub proof fn law_zero_amount_removes_sole_quote(side: Side, level: OrderLevel)
    requires
        level.amount.units == 0,
        side.contains_key(price_key(level.price)),
        side[price_key(level.price)].amount_of(level.exchange) is Some,
        side[price_key(level.price)].count() == 1,
    ensures
        upsert(side, level) == side.remove(price_key(level.price)),
        !upsert(side, level).contains_key(price_key(level.price)),
{
}

/// A level with an amount other than zero, at a price without a bucket,
/// creates a bucket there that holds the quote of its venue only, and
/// touches no other bucket.
pub proof fn law_fresh_price_creates_bucket(side: Side, level: OrderLevel)
    requires
        level.amount.units != 0,
        !side.contains_key(price_key(level.price)),
    ensures
        upsert(side, level) == side.insert(
            price_key(level.price),
            Bucket::vacant().with_amount(level.exchange, level.amount),
        ),
        upsert(side, level)[price_key(level.price)].count() == 1,
        upsert(side, level).dom() == side.dom().insert(price_key(level.price)),
{
}

/// The best bids come with prices that never rise, the best asks with
/// prices that never fall, however many are asked for.
pub proof fn law_best_levels_are_in_order(side: Side, n: nat)
    requires
        side.dom().finite(),
    ensures
        prices_descend(best_bids(side, n)),
        prices_ascend(best_asks(side, n)),
{
    lemma_keys_listed(side.dom());
    lemma_reverse_descends(ascending_keys(side.dom()));
    lemma_first_n_in_order(descending_keys(side.dom()), n);
    lemma_first_n_in_order(ascending_keys(side.dom()), n);
    lemma_levels_follow_keys(side, first_n(descending_keys(side.dom()), n));
    lemma_levels_follow_keys(side, first_n(ascending_keys(side.dom()), n));
}

/// The best bids are at the `n` highest keys at most, the best asks at the
/// `n` lowest; each key holds one quote of each venue at most.
pub proof fn law_best_levels_are_bounded(side: Side, n: nat)
    requires
        side.dom().finite(),
    ensures
        best_bids(side, n).len() <= 2 * n,
        best_asks(side, n).len() <= 2 * n,
{
    lemma_levels_count(side, first_n(descending_keys(side.dom()), n));
    lemma_levels_count(side, first_n(ascending_keys(side.dom()), n));
}

/// Where both sides have a bucket and none is vacant, the spread is the
/// price of the first of the best asks less the price of the first of the
/// best bids.
pub proof fn law_spread_is_between_the_best_levels(bids: Side, asks: Side)
    requires
        bids.dom().finite(),
        asks.dom().finite(),
        no_vacant_bucket(bids),
        no_vacant_bucket(asks),
        !no_keys(bids.dom()),
        !no_keys(asks.dom()),
    ensures
        best_bids(bids, 1).len() > 0,
        best_asks(asks, 1).len() > 0,
        best_bids(bids, 1).first().price.units == max_key(bids.dom()),
        best_asks(asks, 1).first().price.units == min_key(asks.dom()),
        spread_of(bids, asks) == best_asks(asks, 1).first().price.units - best_bids(
            bids,
            1,
        ).first().price.units,
{
    lemma_keys_listed(bids.dom());
    lemma_keys_listed(asks.dom());
    let up = ascending_keys(bids.dom());
    let low = ascending_keys(asks.dom());
    lemma_ascending_keys_are(up, bids.dom());
    lemma_ascending_keys_are(low, asks.dom());
    let top = first_n(descending_keys(bids.dom()), 1);
    let bottom = first_n(ascending_keys(asks.dom()), 1);
    assert(top =~= seq![up.last()]);
    assert(bottom =~= seq![low.first()]);
    assert(top.drop_last() =~= Seq::<u64>::empty());
    assert(bottom.drop_last() =~= Seq::<u64>::empty());
    assert(levels_at(bids, top.drop_last()) =~= Seq::<OrderLevel>::empty());
    assert(levels_at(asks, bottom.drop_last()) =~= Seq::<OrderLevel>::empty());
    assert(up.contains(up.last()));
    assert(low.contains(low.first()));
    assert(!bids[up.last()].is_vacant());
    assert(!asks[low.first()].is_vacant());
    assert(levels_at(bids, top) =~= bids[up.last()].levels(up.last()));
    assert(levels_at(asks, bottom) =~= asks[low.first()].levels(low.first()));
}

/// The levels at some keys are at most two for each key.
pub proof fn lemma_levels_count(side: Side, keys: Seq<u64>)
    ensures
        levels_at(side, keys).len() <= 2 * keys.len(),
    decreases keys.len(),
{
    if keys.len() > 0 {
        lemma_levels_count(side, keys.drop_last());
    }
}

/// What the venue quotes at `key`; `None` where the side has no bucket there.
pub open spec fn quote_at(side: Side, key: u64, exchange: Exchange) -> Option<Decimal> {
    if side.contains_key(key) {
        side[key].amount_of(exchange)
    } else {
        None
    }
}

/// Some level of `levels` is filed at `key`.
pub open spec fn touches(levels: Seq<OrderLevel>, key: u64) -> bool
    decreases levels.len(),
{
    if levels.len() == 0 {
        false
    } else {
        price_key(levels.last().price) == key || touches(levels.drop_last(), key)
    }
}

/// What the last level of `levels` for `exchange` at `key` leaves as the
/// venue's quote there; `None` where no level is for that venue and key.
pub open spec fn last_word(levels: Seq<OrderLevel>, key: u64, exchange: Exchange) -> Option<
    Option<Decimal>,
>
    decreases levels.len(),
{
    if levels.len() == 0 {
        None
    } else if price_key(levels.last().price) == key && levels.last().exchange == exchange {
        Some(
            if levels.last().amount.units == 0 {
                None
            } else {
                Some(levels.last().amount)
            },
        )
    } else {
        last_word(levels.drop_last(), key, exchange)
    }
}

/// What a run of upserts leaves as a venue's quote at a key: what the
/// venue's last level there says, or its earlier quote where it has no level
/// there.
pub proof fn lemma_upsert_all_quote(
    side: Side,
    levels: Seq<OrderLevel>,
    key: u64,
    exchange: Exchange,
)
    ensures
        quote_at(upsert_all(side, levels), key, exchange) == (match last_word(
            levels,
            key,
            exchange,
        ) {
            Some(word) => word,
            None => quote_at(side, key, exchange),
        }),
    decreases levels.len(),
{
    if levels.len() > 0 {
        lemma_upsert_all_quote(side, levels.drop_last(), key, exchange);
    }
}

/// What a run of upserts leaves as the bucket at a key: the bucket as it
/// was, or none as before, where no level is filed there; else a bucket
/// that is not vacant, or none.
pub proof fn lemma_upsert_all_bucket(side: Side, levels: Seq<OrderLevel>, key: u64)
    ensures
        !touches(levels, key) ==> upsert_all(side, levels).contains_key(key) == side.contains_key(
            key,
        ),
        !touches(levels, key) && side.contains_key(key) ==> upsert_all(side, levels)[key]
            == side[key],
        touches(levels, key) && upsert_all(side, levels).contains_key(key) ==> !upsert_all(
            side,
            levels,
        )[key].is_vacant(),
    decreases levels.len(),
{
    if levels.len() > 0 {
        lemma_upsert_all_bucket(side, levels.drop_last(), key);
    }
}

/// Applying the same levels a second time changes nothing.
pub proof fn law_upsert_all_twice_is_once(side: Side, levels: Seq<OrderLevel>)
    ensures
        upsert_all(upsert_all(side, levels), levels) == upsert_all(side, levels),
{
    let once = upsert_all(side, levels);
    let twice = upsert_all(once, levels);
    assert forall|key: u64|
        #![trigger twice.dom().contains(key)]
        #![trigger once.dom().contains(key)]
        #![trigger twice[key]]
        #![trigger once[key]]
        twice.dom().contains(key) == once.dom().contains(key) && (once.dom().contains(key)
            ==> twice[key] == once[key]) by {
        lemma_upsert_all_bucket(side, levels, key);
        lemma_upsert_all_bucket(once, levels, key);
        lemma_upsert_all_quote(side, levels, key, Exchange::Binance);
        lemma_upsert_all_quote(side, levels, key, Exchange::Bitstamp);
        lemma_upsert_all_quote(once, levels, key, Exchange::Binance);
        lemma_upsert_all_quote(once, levels, key, Exchange::Bitstamp);
        if touches(levels, key) {
            assert(quote_at(twice, key, Exchange::Binance) == quote_at(
                once,
                key,
                Exchange::Binance,
            ));
            assert(quote_at(twice, key, Exchange::Bitstamp) == quote_at(
                once,
                key,
                Exchange::Bitstamp,
            ));
        }
    }
    assert(twice =~= once);
}

/// Merging the same snapshot a second time changes nothing: the sides and
/// the recorded ids are as after the first time.
pub proof fn law_merge_twice_is_once(state: BookState, snapshot: OrderBook)
    ensures
        state.merged(snapshot).merged(snapshot) == state.merged(snapshot),
{
    law_upsert_all_twice_is_once(state.bids, snapshot.bids@);
    law_upsert_all_twice_is_once(state.asks, snapshot.asks@);
}

} // verus!
