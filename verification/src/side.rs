//! One side of the aggregated book as a mathematical map from price key to
//! bucket, and what an upsert, a purge and a best-first listing do to it.

use crate::decimal::Decimal;
use crate::keys::{
    ascending, ascending_keys, descending, descending_keys, first_n, max_key, min_key, no_keys,
};
use crate::types::{Exchange, OrderLevel};
use vstd::prelude::*;

verus! {

/// The quotes at one price: at most one amount for each venue.
#[derive(Clone, Copy, Debug, PartialEq, Eq, Structural)]
pub struct Bucket {
    pub binance: Option<Decimal>,
    pub bitstamp: Option<Decimal>,
}

impl Bucket {
    /// The bucket without any quote.
    pub open spec fn vacant() -> Bucket {
        Bucket { binance: None, bitstamp: None }
    }

    /// No venue has a quote in this bucket.
    pub open spec fn is_vacant(self) -> bool {
        self.binance is None && self.bitstamp is None
    }

    /// The amount that `exchange` quotes in this bucket, if any.
    pub open spec fn amount_of(self, exchange: Exchange) -> Option<Decimal> {
        match exchange {
            Exchange::Binance => self.binance,
            Exchange::Bitstamp => self.bitstamp,
        }
    }

    /// This bucket with the quote of `exchange` set to `amount`.
    pub open spec fn with_amount(self, exchange: Exchange, amount: Decimal) -> Bucket {
        match exchange {
            Exchange::Binance => Bucket { binance: Some(amount), bitstamp: self.bitstamp },
            Exchange::Bitstamp => Bucket { binance: self.binance, bitstamp: Some(amount) },
        }
    }

    /// This bucket without the quote of `exchange`.
    pub open spec fn without(self, exchange: Exchange) -> Bucket {
        match exchange {
            Exchange::Binance => Bucket { binance: None, bitstamp: self.bitstamp },
            Exchange::Bitstamp => Bucket { binance: self.binance, bitstamp: None },
        }
    }

    /// The number of venues that have a quote in this bucket.
    pub open spec fn count(self) -> nat {
        (if self.binance is Some {
            1nat
        } else {
            0nat
        }) + (if self.bitstamp is Some {
            1nat
        } else {
            0nat
        })
    }

    /// The quotes of this bucket as levels at the price of `key`: that of
    /// Binance, then that of Bitstamp.
    pub open spec fn levels(self, key: u64) -> Seq<OrderLevel> {
        let price = Decimal { units: key as i128 };
        let first = match self.binance {
            Some(amount) => seq![OrderLevel { exchange: Exchange::Binance, price, amount }],
            None => Seq::empty(),
        };
        let second = match self.bitstamp {
            Some(amount) => seq![OrderLevel { exchange: Exchange::Bitstamp, price, amount }],
            None => Seq::empty(),
        };
        first + second
    }

    /// The bucket without any quote.
    pub fn new() -> (r: Bucket)
        ensures
            r == Bucket::vacant(),
    {
        Bucket { binance: None, bitstamp: None }
    }

    /// No venue has a quote in this bucket.
    pub fn is_empty(&self) -> (r: bool)
        ensures
            r == self.is_vacant(),
    {
        self.binance.is_none() && self.bitstamp.is_none()
    }

    /// The number of venues that have a quote in this bucket.
    pub fn len(&self) -> (r: usize)
        ensures
            r == self.count(),
    {
        let a: usize = if self.binance.is_some() {
            1
        } else {
            0
        };
        let b: usize = if self.bitstamp.is_some() {
            1
        } else {
            0
        };
        a + b
    }

    /// The amount that `exchange` quotes in this bucket, if any.
    pub fn get(&self, exchange: Exchange) -> (r: Option<Decimal>)
        ensures
            r == self.amount_of(exchange),
    {
        match exchange {
            Exchange::Binance => self.binance,
            Exchange::Bitstamp => self.bitstamp,
        }
    }

    /// `exchange` has a quote in this bucket.
    pub fn contains(&self, exchange: Exchange) -> (r: bool)
        ensures
            r == self.amount_of(exchange).is_some(),
    {
        self.get(exchange).is_some()
    }

    /// The venue that `name` names has a quote in this bucket.
    pub fn contains_key(&self, name: &str) -> (r: bool)
        ensures
            r == match Exchange::named(name@) {
                Some(exchange) => self.amount_of(exchange) is Some,
                None => false,
            },
    {
        match Exchange::from_name(name) {
            Some(exchange) => self.contains(exchange),
            None => false,
        }
    }

    /// Sets the quote of `exchange` to `amount`.
    pub fn insert(&mut self, exchange: Exchange, amount: Decimal)
        ensures
            *final(self) == old(self).with_amount(exchange, amount),
    {
        match exchange {
            Exchange::Binance => {
                self.binance = Some(amount);
            },
            Exchange::Bitstamp => {
                self.bitstamp = Some(amount);
            },
        }
    }

    /// Removes the quote of `exchange`.
    pub fn remove(&mut self, exchange: Exchange)
        ensures
            *final(self) == old(self).without(exchange),
    {
        match exchange {
            Exchange::Binance => {
                self.binance = None;
            },
            Exchange::Bitstamp => {
                self.bitstamp = None;
            },
        }
    }
}

/// One side of the book: the bucket at each price key that has one.
pub type Side = Map<u64, Bucket>;

/// The largest price key.
pub const MAX_PRICE_KEY: u64 = u64::MAX;

/// The key under which a price is filed: its count of billionths, held to
/// the range of the keys.
pub open spec fn price_key(price: Decimal) -> u64 {
    if price.units <= 0 {
        0
    } else if price.units >= MAX_PRICE_KEY {
        MAX_PRICE_KEY
    } else {
        price.units as u64
    }
}

/// The level has a price that is a key and an amount that is not negative.
pub open spec fn level_valid(level: OrderLevel) -> bool {
    &&& 0 <= level.price.units <= MAX_PRICE_KEY
    &&& 0 <= level.amount.units
}

/// Every level of `levels` is valid.
pub open spec fn all_valid(levels: Seq<OrderLevel>) -> bool {
    forall|i: int| 0 <= i < levels.len() ==> level_valid(#[trigger] levels[i])
}

/// No bucket of `side` is vacant.
pub open spec fn no_vacant_bucket(side: Side) -> bool {
    forall|k: u64| side.contains_key(k) ==> !(#[trigger] side[k]).is_vacant()
}

/// The side after one level is applied to it.
///
/// An amount of zero removes the venue's quote at the level's price, and the
/// bucket with it where no other venue quotes there. Any other amount becomes
/// the venue's quote at that price.
pub open spec fn upsert(side: Side, level: OrderLevel) -> Side {
    let key = price_key(level.price);
    if level.amount.units == 0 {
        if side.contains_key(key) {
            let left = side[key].without(level.exchange);
            if left.is_vacant() {
                side.remove(key)
            } else {
                side.insert(key, left)
            }
        } else {
            side
        }
    } else {
        let before = if side.contains_key(key) {
            side[key]
        } else {
            Bucket::vacant()
        };
        side.insert(key, before.with_amount(level.exchange, level.amount))
    }
}

/// The side after the levels are applied to it one by one, first to last.
pub open spec fn upsert_all(side: Side, levels: Seq<OrderLevel>) -> Side
    decreases levels.len(),
{
    if levels.len() == 0 {
        side
    } else {
        upsert(upsert_all(side, levels.drop_last()), levels.last())
    }
}

/// The side without any quote of `exchange`: buckets that held no other
/// quote are gone.
pub open spec fn purge(side: Side, exchange: Exchange) -> Side {
    Map::new(
        |k: u64| side.contains_key(k) && !side[k].without(exchange).is_vacant(),
        |k: u64| side[k].without(exchange),
    )
}

/// The side with the buckets at `keep` only.
pub open spec fn keep_keys(side: Side, keep: Seq<u64>) -> Side {
    side.restrict(keep.to_set())
}

/// The levels of the bucket at `key`; none where the side has no bucket there.
pub open spec fn levels_of_key(side: Side, key: u64) -> Seq<OrderLevel> {
    if side.contains_key(key) {
        side[key].levels(key)
    } else {
        Seq::empty()
    }
}

/// The levels of the buckets at `keys`, bucket by bucket in the order of
/// `keys`.
pub open spec fn levels_at(side: Side, keys: Seq<u64>) -> Seq<OrderLevel>
    decreases keys.len(),
{
    if keys.len() == 0 {
        Seq::empty()
    } else {
        levels_at(side, keys.drop_last()) + levels_of_key(side, keys.last())
    }
}

/// No level has a higher price than one before it.
pub open spec fn prices_descend(levels: Seq<OrderLevel>) -> bool {
    forall|i: int, j: int|
        0 <= i < j < levels.len() ==> levels[i].price.units >= levels[j].price.units
}

/// No level has a lower price than one before it.
pub open spec fn prices_ascend(levels: Seq<OrderLevel>) -> bool {
    forall|i: int, j: int|
        0 <= i < j < levels.len() ==> levels[i].price.units <= levels[j].price.units
}

/// The price of each level is one of `keys`.
pub open spec fn priced_among(levels: Seq<OrderLevel>, keys: Seq<u64>) -> bool {
    forall|i: int|
        0 <= i < levels.len() ==> exists|j: int|
            0 <= j < keys.len() && (#[trigger] levels[i]).price.units == #[trigger] keys[j]
}

/// The levels of the `n` highest-priced buckets of a bid side, highest price
/// first.
pub open spec fn best_bids(side: Side, n: nat) -> Seq<OrderLevel> {
    levels_at(side, first_n(descending_keys(side.dom()), n))
}

/// The levels of the `n` lowest-priced buckets of an ask side, lowest price
/// first.
pub open spec fn best_asks(side: Side, n: nat) -> Seq<OrderLevel> {
    levels_at(side, first_n(ascending_keys(side.dom()), n))
}

/// The lowest ask key less the highest bid key, in billionths; zero where a
/// side has no bucket.
pub open spec fn spread_of(bids: Side, asks: Side) -> int {
    if no_keys(bids.dom()) || no_keys(asks.dom()) {
        0
    } else {
        min_key(asks.dom()) - max_key(bids.dom())
    }
}

/// An upsert leaves no vacant bucket behind.
pub proof fn lemma_upsert_keeps_buckets_filled(side: Side, level: OrderLevel)
    requires
        no_vacant_bucket(side),
    ensures
        no_vacant_bucket(upsert(side, level)),
{
}

/// A run of upserts leaves no vacant bucket behind.
pub proof fn lemma_upsert_all_keeps_buckets_filled(side: Side, levels: Seq<OrderLevel>)
    requires
        no_vacant_bucket(side),
    ensures
        no_vacant_bucket(upsert_all(side, levels)),
    decreases levels.len(),
{
    if levels.len() > 0 {
        lemma_upsert_all_keeps_buckets_filled(side, levels.drop_last());
        lemma_upsert_keeps_buckets_filled(upsert_all(side, levels.drop_last()), levels.last());
    }
}

/// Upserts keep the side finite.
pub proof fn lemma_upsert_all_finite(side: Side, levels: Seq<OrderLevel>)
    requires
        side.dom().finite(),
    ensures
        upsert_all(side, levels).dom().finite(),
    decreases levels.len(),
{
    if levels.len() > 0 {
        lemma_upsert_all_finite(side, levels.drop_last());
    }
}

/// The levels at keys in descending order come with prices that never rise,
/// those at keys in ascending order with prices that never fall.
pub proof fn lemma_levels_follow_keys(side: Side, keys: Seq<u64>)
    ensures
        priced_among(levels_at(side, keys), keys),
        descending(keys) ==> prices_descend(levels_at(side, keys)),
        ascending(keys) ==> prices_ascend(levels_at(side, keys)),
    decreases keys.len(),
{
    if keys.len() > 0 {
        let head = keys.drop_last();
        let k = keys.last();
        let front = levels_at(side, head);
        let back = levels_of_key(side, k);
        let all = levels_at(side, keys);
        lemma_levels_follow_keys(side, head);
        assert(all == front + back);
        assert forall|i: int| 0 <= i < all.len() implies exists|j: int|
            0 <= j < keys.len() && (#[trigger] all[i]).price.units == #[trigger] keys[j] by {
            if i < front.len() {
                assert(all[i] == front[i]);
                let j = choose|j: int|
                    0 <= j < head.len() && (#[trigger] front[i]).price.units == #[trigger] head[j];
                assert(keys[j] == head[j]);
            } else {
                assert(all[i] == back[i - front.len()]);
                assert(all[i].price.units == keys[keys.len() - 1]);
            }
        }
        if descending(keys) {
            assert forall|i: int, j: int| 0 <= i < j < all.len() implies all[i].price.units
                >= all[j].price.units by {
                if j < front.len() {
                    assert(all[i] == front[i] && all[j] == front[j]);
                } else {
                    assert(all[j] == back[j - front.len()]);
                    if i < front.len() {
                        assert(all[i] == front[i]);
                        let x = choose|x: int|
                            0 <= x < head.len() && (#[trigger] front[i]).price.units
                                == #[trigger] head[x];
                        assert(keys[x] > keys[keys.len() - 1]);
                    } else {
                        assert(all[i] == back[i - front.len()]);
                    }
                }
            }
        }
        if ascending(keys) {
            assert forall|i: int, j: int| 0 <= i < j < all.len() implies all[i].price.units
                <= all[j].price.units by {
                if j < front.len() {
                    assert(all[i] == front[i] && all[j] == front[j]);
                } else {
                    assert(all[j] == back[j - front.len()]);
                    if i < front.len() {
                        assert(all[i] == front[i]);
                        let x = choose|x: int|
                            0 <= x < head.len() && (#[trigger] front[i]).price.units
                                == #[trigger] head[x];
                        assert(keys[x] < keys[keys.len() - 1]);
                    } else {
                        assert(all[i] == back[i - front.len()]);
                    }
                }
            }
        }
    }
}

} // verus!
