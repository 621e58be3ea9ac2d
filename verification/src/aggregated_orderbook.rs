//! The aggregated book: the quotes of all venues, filed by price key.

use crate::decimal::Decimal;
use crate::keys::{
    ascending_keys, descending_keys, first_key, first_n, last_key, leading_keys,
    lemma_first_n_in_order, lemma_max_unique, lemma_min_unique, lemma_reverse_descends,
    lists_keys, sorted_keys, trailing_keys,
};
use crate::side::{
    all_valid, best_asks, best_bids, keep_keys, lemma_levels_follow_keys,
    lemma_upsert_all_keeps_buckets_filled, level_valid, levels_at, no_vacant_bucket, price_key,
    prices_ascend, prices_descend, purge, spread_of, upsert, upsert_all, Bucket, Side,
    MAX_PRICE_KEY,
};
use crate::types::{ApplyError, Exchange, LastUpdateIds, OrderBook, OrderBookUpdate, OrderLevel};
use std::collections::BTreeMap;
use vstd::prelude::*;

verus! {

/// The quotes of all venues on both sides, the spread between the best of
/// each side, and the last update applied for each venue.
///
/// `spread` is in billionths, as the price keys are.
#[derive(Debug)]
pub struct AggregatedOrderBook {
    pub spread: i128,
    pub bids: BTreeMap<u64, Bucket>,
    pub asks: BTreeMap<u64, Bucket>,
    pub last_update_id: LastUpdateIds,
}

/// The best buckets of both sides, flattened into levels, and the spread.
///
/// `bids` come highest price first, `asks` lowest price first; the levels of
/// one bucket stand together, that of Binance before that of Bitstamp.
#[derive(Clone, Debug)]
pub struct Top10Snapshot {
    pub spread: i128,
    pub bids: Vec<OrderLevel>,
    pub asks: Vec<OrderLevel>,
}

/// The number of buckets of each side that `prune` keeps.
pub const PRUNE_DEPTH: usize = 20;

/// The number of buckets of each side that `get_top10_snapshot` reports.
pub const TOP_DEPTH: usize = 10;

/// What a book holds, as mathematical maps.
pub struct BookState {
    pub bids: Side,
    pub asks: Side,
    pub last_update_id: LastUpdateIds,
}

impl View for AggregatedOrderBook {
    type V = BookState;

    open spec fn view(&self) -> BookState {
        BookState { bids: self.bids@, asks: self.asks@, last_update_id: self.last_update_id }
    }
}

impl BookState {
    /// The state of a book without any quote.
    pub open spec fn empty() -> BookState {
        BookState {
            bids: Map::<u64, Bucket>::empty(),
            asks: Map::<u64, Bucket>::empty(),
            last_update_id: LastUpdateIds::none(),
        }
    }

    /// The update is not newer than the last one applied for its venue.
    pub open spec fn is_stale(self, update: OrderBookUpdate) -> bool {
        match self.last_update_id.of(update.exchange) {
            Some(last) => update.update_id <= last,
            None => false,
        }
    }

    /// Whether the update is applied, and if not, why: a stale update is
    /// refused as stale, whatever its levels; one that is not stale is
    /// refused where a level is not valid.
    pub open spec fn verdict(self, update: OrderBookUpdate) -> Result<(), ApplyError> {
        if self.is_stale(update) {
            Err(ApplyError::StaleSequence)
        } else if !(all_valid(update.bids@) && all_valid(update.asks@)) {
            Err(ApplyError::InvalidLevel)
        } else {
            Ok(())
        }
    }

    /// The state once the update is applied: its levels upserted, bids to
    /// bids and asks to asks, and its id recorded for its venue.
    pub open spec fn applied(self, update: OrderBookUpdate) -> BookState {
        BookState {
            bids: upsert_all(self.bids, update.bids@),
            asks: upsert_all(self.asks, update.asks@),
            last_update_id: self.last_update_id.with(update.exchange, Some(update.update_id)),
        }
    }

    /// The state after the update was handed in: applied where the verdict
    /// is `Ok`, unchanged where it is not.
    pub open spec fn after_update(self, update: OrderBookUpdate) -> BookState {
        if self.verdict(update) is Ok {
            self.applied(update)
        } else {
            self
        }
    }

    /// The state once the snapshot is merged: its levels upserted, and its id
    /// recorded for its venue, whatever was recorded before. Levels that were
    /// there before and that the snapshot does not name stay.
    pub open spec fn merged(self, snapshot: OrderBook) -> BookState {
        BookState {
            bids: upsert_all(self.bids, snapshot.bids@),
            asks: upsert_all(self.asks, snapshot.asks@),
            last_update_id: self.last_update_id.with(
                snapshot.exchange,
                Some(snapshot.last_update_id),
            ),
        }
    }

    /// The state once the snapshots are merged one by one, first to last.
    pub open spec fn merged_all(self, snapshots: Seq<OrderBook>) -> BookState
        decreases snapshots.len(),
    {
        if snapshots.len() == 0 {
            self
        } else {
            self.merged_all(snapshots.drop_last()).merged(snapshots.last())
        }
    }

    /// The state with the `depth` best buckets of each side only: the
    /// highest bids and the lowest asks.
    pub open spec fn pruned(self, depth: nat) -> BookState {
        BookState {
            bids: keep_keys(self.bids, first_n(descending_keys(self.bids.dom()), depth)),
            asks: keep_keys(self.asks, first_n(ascending_keys(self.asks.dom()), depth)),
            last_update_id: self.last_update_id,
        }
    }

    /// The state without any quote of `exchange` and without a last update
    /// for it.
    pub open spec fn purged(self, exchange: Exchange) -> BookState {
        BookState {
            bids: purge(self.bids, exchange),
            asks: purge(self.asks, exchange),
            last_update_id: self.last_update_id.with(exchange, None),
        }
    }

    /// No bucket of either side is vacant.
    pub open spec fn buckets_filled(self) -> bool {
        no_vacant_bucket(self.bids) && no_vacant_bucket(self.asks)
    }

    /// The lowest ask less the highest bid, in billionths; zero where a side
    /// has no bucket.
    pub open spec fn spread(self) -> int {
        spread_of(self.bids, self.asks)
    }
}

impl Default for AggregatedOrderBook {
    fn default() -> (book: Self)
        ensures
            book.wf(),
            book@ == BookState::empty(),
            book.spread == 0,
    {
        AggregatedOrderBook::new()
    }
}

impl AggregatedOrderBook {
    /// The book is in order: no bucket is vacant, and `spread` is the spread
    /// of the two sides.
    pub open spec fn wf(&self) -> bool {
        &&& no_vacant_bucket(self.bids@)
        &&& no_vacant_bucket(self.asks@)
        &&& self.spread == spread_of(self.bids@, self.asks@)
    }

    /// The book without any quote.
    pub fn new() -> (book: Self)
        ensures
            book.wf(),
            book@ == BookState::empty(),
            book.spread == 0,
    {
        AggregatedOrderBook {
            spread: 0,
            bids: BTreeMap::new(),
            asks: BTreeMap::new(),
            last_update_id: LastUpdateIds::new(),
        }
    }

    /// The key under which `price` is filed: its count of billionths, held
    /// to the range of the keys.
    pub fn price_index(price: Decimal) -> (key: u64)
        ensures
            key == price_key(price),
    {
        if price.units <= 0 {
            0
        } else if price.units >= MAX_PRICE_KEY as i128 {
            MAX_PRICE_KEY
        } else {
            price.units as u64
        }
    }

    /// The bucket of `map` at `key`, if there is one.
    pub fn bucket_at(map: &BTreeMap<u64, Bucket>, key: u64) -> (r: Option<Bucket>)
        ensures
            r == (if map@.contains_key(key) {
                Some(map@[key])
            } else {
                None::<Bucket>
            }),
    {
        broadcast use vstd::laws_cmp::group_laws_cmp;

        match map.get(&key) {
            Some(bucket) => Some(*bucket),
            None => None,
        }
    }

    /// Files `bucket` at `key`, in place of the bucket that was there.
    pub fn put_bucket(map: &mut BTreeMap<u64, Bucket>, key: u64, bucket: Bucket)
        ensures
            final(map)@ == old(map)@.insert(key, bucket),
    {
        broadcast use vstd::laws_cmp::group_laws_cmp;

        map.insert(key, bucket);
    }

    /// Removes the bucket at `key`, if there is one.
    pub fn drop_bucket(map: &mut BTreeMap<u64, Bucket>, key: u64)
        ensures
            final(map)@ == old(map)@.remove(key),
    {
        broadcast use vstd::laws_cmp::group_laws_cmp;

        map.remove(&key);
    }

    /// Applies one level to a side: an amount of zero removes the venue's
    /// quote at that price, any other amount becomes the venue's quote there.
    pub fn upsert_level(map: &mut BTreeMap<u64, Bucket>, level: &OrderLevel)
        ensures
            final(map)@ == upsert(old(map)@, *level),
    {
        let key = Self::price_index(level.price);
        let found = Self::bucket_at(map, key);
        if level.amount.is_zero() {
            if let Some(bucket) = found {
                let mut left = bucket;
                left.remove(level.exchange);
                if left.is_empty() {
                    Self::drop_bucket(map, key);
                } else {
                    Self::put_bucket(map, key, left);
                }
            }
        } else {
            let mut bucket = match found {
                Some(bucket) => bucket,
                None => Bucket::new(),
            };
            bucket.insert(level.exchange, level.amount);
            Self::put_bucket(map, key, bucket);
        }
    }

    /// The level has a price that is a key and an amount that is not
    /// negative.
    pub fn is_valid_level(level: &OrderLevel) -> (r: bool)
        ensures
            r == level_valid(*level),
    {
        0 <= level.price.units && level.price.units <= MAX_PRICE_KEY as i128 && 0
            <= level.amount.units
    }

    /// Applies one level to a side as `upsert_level` does, unless the level
    /// is not valid: then the side is left as it is.
    pub fn try_upsert_level(map: &mut BTreeMap<u64, Bucket>, level: &OrderLevel) -> (r: Result<
        (),
        ApplyError,
    >)
        ensures
            r == (if level_valid(*level) {
                Ok::<(), ApplyError>(())
            } else {
                Err::<(), ApplyError>(ApplyError::InvalidLevel)
            }),
            final(map)@ == (if level_valid(*level) {
                upsert(old(map)@, *level)
            } else {
                old(map)@
            }),
    {
        if !Self::is_valid_level(level) {
            return Err(ApplyError::InvalidLevel);
        }
        Self::upsert_level(map, level);
        Ok(())
    }

    /// Applies the levels to a side one by one, first to last.
    pub fn upsert_levels(map: &mut BTreeMap<u64, Bucket>, levels: &Vec<OrderLevel>)
        ensures
            final(map)@ == upsert_all(old(map)@, levels@),
    {
        let mut i: usize = 0;
        assert(levels@.take(0) =~= Seq::<OrderLevel>::empty());
        while i < levels.len()
            invariant
                0 <= i <= levels.len(),
                map@ == upsert_all(old(map)@, levels@.take(i as int)),
            decreases levels.len() - i,
        {
            Self::upsert_level(map, &levels[i]);
            proof {
                assert(levels@.take(i + 1).drop_last() =~= levels@.take(i as int));
            }
            i = i + 1;
        }
        assert(levels@.take(levels.len() as int) =~= levels@);
    }

    /// The lowest ask key less the highest bid key, in billionths; zero where
    /// a side has no bucket.
    pub fn current_spread(&self) -> (r: i128)
        ensures
            r == spread_of(self.bids@, self.asks@),
    {
        let best_bid = last_key(&self.bids);
        let best_ask = first_key(&self.asks);
        proof {
            if let Some(b) = best_bid {
                lemma_max_unique(self.bids@.dom(), b);
            }
            if let Some(a) = best_ask {
                lemma_min_unique(self.asks@.dom(), a);
            }
        }
        match (best_bid, best_ask) {
            (Some(bid), Some(ask)) => ask as i128 - bid as i128,
            _ => 0,
        }
    }

    /// Sets `spread` to the lowest ask key less the highest bid key, or to
    /// zero where a side has no bucket.
    pub fn recompute_spread(&mut self)
        ensures
            final(self)@ == old(self)@,
            final(self).spread == spread_of(old(self).bids@, old(self).asks@),
    {
        self.spread = self.current_spread();
    }

    /// No bucket of `map` is vacant.
    pub fn side_is_filled(map: &BTreeMap<u64, Bucket>) -> (r: bool)
        ensures
            r == no_vacant_bucket(map@),
    {
        let keys = sorted_keys(map);
        let mut i: usize = 0;
        while i < keys.len()
            invariant
                0 <= i <= keys.len(),
                lists_keys(keys@, map@.dom()),
                forall|j: int| 0 <= j < i ==> !(#[trigger] map@[keys@[j]]).is_vacant(),
            decreases keys.len() - i,
        {
            assert(keys@.contains(keys@[i as int]));
            if let Some(bucket) = Self::bucket_at(map, keys[i]) {
                if bucket.is_empty() {
                    return false;
                }
            }
            i = i + 1;
        }
        proof {
            assert forall|k: u64| map@.contains_key(k) implies !(#[trigger] map@[k]).is_vacant() by {
                assert(keys@.contains(k));
                let j = choose|j: int| 0 <= j < keys@.len() && keys@[j] == k;
                assert(!map@[keys@[j]].is_vacant());
            }
        }
        true
    }

    /// The book is in order: no bucket is vacant, and `spread` is the spread
    /// of the two sides. A book that was made by `new` and changed through
    /// the methods of this type always is.
    pub fn is_well_formed(&self) -> (r: bool)
        ensures
            r == self.wf(),
    {
        Self::side_is_filled(&self.bids) && Self::side_is_filled(&self.asks) && self.spread
            == self.current_spread()
    }

    /// The lowest ask less the highest bid as of the last change, in
    /// billionths; zero where a side has no bucket.
    pub fn get_spread(&self) -> (r: i128)
        ensures
            r == self.spread,
            self.wf() ==> r == self@.spread(),
    {
        self.spread
    }

    /// Whether the update would be applied, and if not, why.
    pub fn validate_update(&self, update: &OrderBookUpdate) -> (r: Result<(), ApplyError>)
        ensures
            r == self@.verdict(*update),
    {
        if let Some(last) = self.last_update_id.get(update.exchange) {
            if update.update_id <= last {
                return Err(ApplyError::StaleSequence);
            }
        }
        if !Self::all_levels_valid(&update.bids) || !Self::all_levels_valid(&update.asks) {
            return Err(ApplyError::InvalidLevel);
        }
        Ok(())
    }

    /// Applies the update if it is newer than the last one of its venue and
    /// all its levels are valid; else leaves the book as it is and says why.
    pub fn try_apply_update(&mut self, update: &OrderBookUpdate) -> (r: Result<(), ApplyError>)
        ensures
            r == old(self)@.verdict(*update),
            final(self)@ == old(self)@.after_update(*update),
            r is Ok ==> final(self).spread == final(self)@.spread(),
            r is Err ==> final(self).spread == old(self).spread,
            old(self).wf() ==> final(self).wf(),
    {
        if let Err(e) = self.validate_update(update) {
            return Err(e);
        }
        self.last_update_id.insert(update.exchange, update.update_id);
        Self::upsert_levels(&mut self.bids, &update.bids);
        Self::upsert_levels(&mut self.asks, &update.asks);
        self.recompute_spread();
        proof {
            if old(self).wf() {
                lemma_upsert_all_keeps_buckets_filled(old(self).bids@, update.bids@);
                lemma_upsert_all_keeps_buckets_filled(old(self).asks@, update.asks@);
            }
        }
        Ok(())
    }

    /// Applies the update if it is newer than the last one of its venue and
    /// all its levels are valid; else leaves the book as it is and says why.
    pub fn handle_update(&mut self, update: OrderBookUpdate) -> (r: Result<(), ApplyError>)
        ensures
            r == old(self)@.verdict(update),
            final(self)@ == old(self)@.after_update(update),
            r is Ok ==> final(self).spread == final(self)@.spread(),
            r is Err ==> final(self).spread == old(self).spread,
            old(self).wf() ==> final(self).wf(),
    {
        self.try_apply_update(&update)
    }

    /// Merges one snapshot: upserts its levels and records its id for its
    /// venue. `spread` is not brought up to date.
    fn merge_snapshot(&mut self, snapshot: &OrderBook)
        ensures
            final(self)@ == old(self)@.merged(*snapshot),
            final(self).spread == old(self).spread,
    {
        Self::upsert_levels(&mut self.bids, &snapshot.bids);
        Self::upsert_levels(&mut self.asks, &snapshot.asks);
        self.last_update_id.insert(snapshot.exchange, snapshot.last_update_id);
    }

    /// Merges the snapshots one by one, first to last: upserts the levels of
    /// each and records its id for its venue. Levels that were there before
    /// and that no snapshot names stay.
    pub fn merge_snapshots(&mut self, snapshots: Vec<OrderBook>)
        ensures
            final(self)@ == old(self)@.merged_all(snapshots@),
            final(self).spread == final(self)@.spread(),
            old(self)@.buckets_filled() ==> final(self).wf(),
    {
        let mut i: usize = 0;
        assert(snapshots@.take(0) =~= Seq::<OrderBook>::empty());
        while i < snapshots.len()
            invariant
                0 <= i <= snapshots.len(),
                self@ == old(self)@.merged_all(snapshots@.take(i as int)),
                old(self)@.buckets_filled() ==> self@.buckets_filled(),
            decreases snapshots.len() - i,
        {
            let ghost before = self@;
            self.merge_snapshot(&snapshots[i]);
            proof {
                assert(snapshots@.take(i + 1).drop_last() =~= snapshots@.take(i as int));
                if before.buckets_filled() {
                    lemma_upsert_all_keeps_buckets_filled(before.bids, snapshots@[i as int].bids@);
                    lemma_upsert_all_keeps_buckets_filled(before.asks, snapshots@[i as int].asks@);
                }
            }
            i = i + 1;
        }
        assert(snapshots@.take(snapshots.len() as int) =~= snapshots@);
        self.recompute_spread();
    }

    /// The levels of the buckets of `map` at `keys`, bucket by bucket in the
    /// order of `keys`.
    pub fn collect_levels(map: &BTreeMap<u64, Bucket>, keys: &Vec<u64>) -> (out: Vec<OrderLevel>)
        ensures
            out@ == levels_at(map@, keys@),
    {
        let mut out: Vec<OrderLevel> = Vec::new();
        let mut i: usize = 0;
        assert(keys@.take(0) =~= Seq::<u64>::empty());
        while i < keys.len()
            invariant
                0 <= i <= keys.len(),
                out@ == levels_at(map@, keys@.take(i as int)),
            decreases keys.len() - i,
        {
            let key = keys[i];
            let ghost before = out@;
            if let Some(bucket) = Self::bucket_at(map, key) {
                let price = Decimal::from_units(key as i128);
                if let Some(amount) = bucket.binance {
                    out.push(OrderLevel { exchange: Exchange::Binance, price, amount });
                }
                if let Some(amount) = bucket.bitstamp {
                    out.push(OrderLevel { exchange: Exchange::Bitstamp, price, amount });
                }
                assert(out@ =~= before + bucket.levels(key));
            } else {
                assert(out@ =~= before + Seq::<OrderLevel>::empty());
            }
            proof {
                assert(keys@.take(i + 1).drop_last() =~= keys@.take(i as int));
            }
            i = i + 1;
        }
        assert(keys@.take(keys.len() as int) =~= keys@);
        out
    }

    /// The `n` best buckets of each side, flattened into levels, and the
    /// spread: bids from the highest price down, asks from the lowest price
    /// up, the levels of one bucket together.
    pub fn top_n(&self, n: usize) -> (top: Top10Snapshot)
        ensures
            top.spread == self.spread,
            top.bids@ == best_bids(self.bids@, n as nat),
            top.asks@ == best_asks(self.asks@, n as nat),
            prices_descend(top.bids@),
            prices_ascend(top.asks@),
    {
        let bid_keys = trailing_keys(&sorted_keys(&self.bids), n);
        let ask_keys = leading_keys(&sorted_keys(&self.asks), n);
        proof {
            lemma_reverse_descends(ascending_keys(self.bids@.dom()));
            lemma_first_n_in_order(descending_keys(self.bids@.dom()), n as nat);
            lemma_first_n_in_order(ascending_keys(self.asks@.dom()), n as nat);
            lemma_levels_follow_keys(self.bids@, bid_keys@);
            lemma_levels_follow_keys(self.asks@, ask_keys@);
        }
        Top10Snapshot {
            spread: self.spread,
            bids: Self::collect_levels(&self.bids, &bid_keys),
            asks: Self::collect_levels(&self.asks, &ask_keys),
        }
    }

    /// The ten best buckets of each side, flattened into levels, and the
    /// spread.
    pub fn get_top10_snapshot(&self) -> (top: Top10Snapshot)
        ensures
            top.spread == self.spread,
            top.bids@ == best_bids(self.bids@, TOP_DEPTH as nat),
            top.asks@ == best_asks(self.asks@, TOP_DEPTH as nat),
            prices_descend(top.bids@),
            prices_ascend(top.asks@),
    {
        self.top_n(TOP_DEPTH)
    }

    /// Removes the buckets at `keys[from..to]`.
    fn drop_buckets(map: &mut BTreeMap<u64, Bucket>, keys: &Vec<u64>, from: usize, to: usize)
        requires
            from <= to <= keys.len(),
        ensures
            final(map)@ == old(map)@.remove_keys(keys@.subrange(from as int, to as int).to_set()),
    {
        let mut i: usize = from;
        let ghost none = keys@.subrange(from as int, from as int).to_set();
        assert(old(map)@.remove_keys(none) =~= old(map)@);
        while i < to
            invariant
                from <= i <= to <= keys.len(),
                map@ == old(map)@.remove_keys(keys@.subrange(from as int, i as int).to_set()),
            decreases to - i,
        {
            Self::drop_bucket(map, keys[i]);
            proof {
                let done = keys@.subrange(from as int, i as int);
                let next = keys@.subrange(from as int, i + 1);
                assert(next =~= done.push(keys@[i as int]));
                assert forall|k: u64| next.to_set().contains(k) <==> (done.to_set().contains(k)
                    || k == keys@[i as int]) by {
                    if next.to_set().contains(k) {
                        let x = choose|x: int| 0 <= x < next.len() && next[x] == k;
                        if x < done.len() {
                            assert(done[x] == k);
                        }
                    }
                    if done.to_set().contains(k) {
                        let x = choose|x: int| 0 <= x < done.len() && done[x] == k;
                        assert(next[x] == k);
                    }
                    if k == keys@[i as int] {
                        assert(next[i - from] == k);
                    }
                }
                assert(map@ =~= old(map)@.remove_keys(next.to_set()));
            }
            i = i + 1;
        }
    }

    /// Keeps the `depth` highest-priced buckets of a bid side and removes
    /// the others.
    pub fn prune_bids(map: &mut BTreeMap<u64, Bucket>, depth: usize)
        ensures
            final(map)@ == keep_keys(
                old(map)@,
                first_n(descending_keys(old(map)@.dom()), depth as nat),
            ),
    {
        let keys = sorted_keys(map);
        let len = keys.len();
        let ghost kept = first_n(keys@.reverse(), depth as nat);
        if len > depth {
            Self::drop_buckets(map, &keys, 0, len - depth);
            proof {
                let gone = keys@.subrange(0, len - depth);
                assert forall|k: u64| old(map)@.contains_key(k) implies (kept.to_set().contains(k)
                    <==> !gone.to_set().contains(k)) by {
                    assert(keys@.contains(k));
                    let x = choose|x: int| 0 <= x < keys@.len() && keys@[x] == k;
                    if x < len - depth {
                        assert(gone[x] == k);
                        if kept.to_set().contains(k) {
                            let y = choose|y: int| 0 <= y < kept.len() && kept[y] == k;
                            assert(kept[y] == keys@[len - 1 - y]);
                        }
                    } else {
                        assert(kept[len - 1 - x] == k);
                        if gone.to_set().contains(k) {
                            let y = choose|y: int| 0 <= y < gone.len() && gone[y] == k;
                            assert(gone[y] == keys@[y]);
                        }
                    }
                }
                assert(map@ =~= keep_keys(old(map)@, kept));
            }
        } else {
            proof {
                assert forall|k: u64| old(map)@.contains_key(k) implies kept.to_set().contains(
                    k,
                ) by {
                    assert(keys@.contains(k));
                    let x = choose|x: int| 0 <= x < keys@.len() && keys@[x] == k;
                    assert(kept[len - 1 - x] == k);
                }
                assert(map@ =~= keep_keys(old(map)@, kept));
            }
        }
    }

    /// Keeps the `depth` lowest-priced buckets of an ask side and removes
    /// the others.
    pub fn prune_asks(map: &mut BTreeMap<u64, Bucket>, depth: usize)
        ensures
            final(map)@ == keep_keys(
                old(map)@,
                first_n(ascending_keys(old(map)@.dom()), depth as nat),
            ),
    {
        let keys = sorted_keys(map);
        let len = keys.len();
        let ghost kept = first_n(keys@, depth as nat);
        if len > depth {
            Self::drop_buckets(map, &keys, depth, len);
            proof {
                let gone = keys@.subrange(depth as int, len as int);
                assert forall|k: u64| old(map)@.contains_key(k) implies (kept.to_set().contains(k)
                    <==> !gone.to_set().contains(k)) by {
                    assert(keys@.contains(k));
                    let x = choose|x: int| 0 <= x < keys@.len() && keys@[x] == k;
                    if x >= depth {
                        assert(gone[x - depth] == k);
                        if kept.to_set().contains(k) {
                            let y = choose|y: int| 0 <= y < kept.len() && kept[y] == k;
                            assert(kept[y] == keys@[y]);
                        }
                    } else {
                        assert(kept[x] == k);
                        if gone.to_set().contains(k) {
                            let y = choose|y: int| 0 <= y < gone.len() && gone[y] == k;
                            assert(gone[y] == keys@[y + depth]);
                        }
                    }
                }
                assert(map@ =~= keep_keys(old(map)@, kept));
            }
        } else {
            proof {
                assert forall|k: u64| old(map)@.contains_key(k) implies kept.to_set().contains(
                    k,
                ) by {
                    assert(keys@.contains(k));
                    let x = choose|x: int| 0 <= x < keys@.len() && keys@[x] == k;
                    assert(kept[x] == k);
                }
                assert(map@ =~= keep_keys(old(map)@, kept));
            }
        }
    }

    /// Keeps the twenty best buckets of each side, the highest bids and the
    /// lowest asks, and removes the others.
    pub fn prune(&mut self)
        ensures
            final(self)@ == old(self)@.pruned(PRUNE_DEPTH as nat),
            final(self).spread == final(self)@.spread(),
            old(self)@.buckets_filled() ==> final(self).wf(),
    {
        Self::prune_bids(&mut self.bids, PRUNE_DEPTH);
        Self::prune_asks(&mut self.asks, PRUNE_DEPTH);
        self.recompute_spread();
    }

    /// Removes the quotes of `exchange` from a side, and the buckets that
    /// held no other quote with them.
    pub fn purge_side(map: &mut BTreeMap<u64, Bucket>, exchange: Exchange)
        ensures
            final(map)@ == purge(old(map)@, exchange),
    {
        let keys = sorted_keys(map);
        let mut i: usize = 0;
        while i < keys.len()
            invariant
                0 <= i <= keys.len(),
                lists_keys(keys@, old(map)@.dom()),
                forall|k: u64|
                    map@.contains_key(k) <==> (old(map)@.contains_key(k) && (keys@.take(
                        i as int,
                    ).contains(k) ==> !old(map)@[k].without(exchange).is_vacant())),
                forall|k: u64|
                    map@.contains_key(k) ==> map@[k] == (if keys@.take(i as int).contains(k) {
                        old(map)@[k].without(exchange)
                    } else {
                        old(map)@[k]
                    }),
            decreases keys.len() - i,
        {
            let key = keys[i];
            proof {
                let done = keys@.take(i as int);
                let next = keys@.take(i + 1);
                assert(keys@.contains(key));
                assert(!done.contains(key)) by {
                    if done.contains(key) {
                        let x = choose|x: int| 0 <= x < done.len() && done[x] == key;
                        assert(keys@[x] < keys@[i as int]);
                    }
                }
                assert forall|k: u64| next.contains(k) <==> (done.contains(k) || k == key) by {
                    if next.contains(k) {
                        let x = choose|x: int| 0 <= x < next.len() && next[x] == k;
                        if x < i {
                            assert(done[x] == k);
                        }
                    }
                    if done.contains(k) {
                        let x = choose|x: int| 0 <= x < done.len() && done[x] == k;
                        assert(next[x] == k);
                    }
                    if k == key {
                        assert(next[i as int] == k);
                    }
                }
            }
            if let Some(bucket) = Self::bucket_at(map, key) {
                let mut left = bucket;
                left.remove(exchange);
                if left.is_empty() {
                    Self::drop_bucket(map, key);
                } else {
                    Self::put_bucket(map, key, left);
                }
            }
            i = i + 1;
        }
        proof {
            assert(keys@.take(keys.len() as int) =~= keys@);
            assert(map@ =~= purge(old(map)@, exchange));
        }
    }

    /// Removes every quote of `exchange` from both sides, the buckets that
    /// held no other quote with them, and the last update recorded for
    /// `exchange`.
    pub fn purge_venue(&mut self, exchange: Exchange)
        ensures
            final(self)@ == old(self)@.purged(exchange),
            final(self).spread == final(self)@.spread(),
            final(self).wf(),
    {
        Self::purge_side(&mut self.bids, exchange);
        Self::purge_side(&mut self.asks, exchange);
        self.last_update_id.remove(exchange);
        self.recompute_spread();
    }

    /// Every level of `levels` is valid.
    pub fn all_levels_valid(levels: &Vec<OrderLevel>) -> (r: bool)
        ensures
            r == all_valid(levels@),
    {
        let mut i: usize = 0;
        while i < levels.len()
            invariant
                0 <= i <= levels.len(),
                forall|j: int| 0 <= j < i ==> level_valid(#[trigger] levels@[j]),
            decreases levels.len() - i,
        {
            if !Self::is_valid_level(&levels[i]) {
                return false;
            }
            i = i + 1;
        }
        true
    }
}

} // verus!
