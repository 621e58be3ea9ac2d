//! The values that venues hand to the aggregated book.

use crate::decimal::Decimal;
use vstd::prelude::*;

verus! {

/// The venues whose books are merged.
#[derive(Clone, Copy, Debug, PartialEq, Eq, Hash, Structural)]
pub enum Exchange {
    Binance,
    Bitstamp,
}

/// The text that `a` and `b` hold is the same.
pub fn same_text(a: &str, b: &str) -> (r: bool)
    ensures
        r == (a@ == b@),
{
    let x = a.to_owned();
    let y = b.to_owned();
    x == y
}

impl Exchange {
    /// The venue whose name in lower case is `name`, if there is one.
    pub open spec fn named(name: Seq<char>) -> Option<Exchange> {
        if name == Exchange::Binance.name() {
            Some(Exchange::Binance)
        } else if name == Exchange::Bitstamp.name() {
            Some(Exchange::Bitstamp)
        } else {
            None
        }
    }

    /// The venue whose name in lower case is `name`.
    pub fn from_name(name: &str) -> (r: Option<Exchange>)
        ensures
            r == Exchange::named(name@),
    {
        if same_text(name, "binance") {
            Some(Exchange::Binance)
        } else if same_text(name, "bitstamp") {
            Some(Exchange::Bitstamp)
        } else {
            None
        }
    }

    /// The venue's name in lower case.
    pub open spec fn name(self) -> Seq<char> {
        match self {
            Exchange::Binance => "binance"@,
            Exchange::Bitstamp => "bitstamp"@,
        }
    }

    /// The venue's name in lower case.
    pub fn as_str(&self) -> (r: &'static str)
        ensures
            r@ == self.name(),
    {
        match self {
            Exchange::Binance => "binance",
            Exchange::Bitstamp => "bitstamp",
        }
    }
}

/// One quote of one venue: an amount offered at a price.
///
/// An amount of zero asks for the venue's quote at that price to be removed.
#[derive(Clone, Copy, Debug, PartialEq, Eq, Structural)]
pub struct OrderLevel {
    pub exchange: Exchange,
    pub price: Decimal,
    pub amount: Decimal,
}

/// A venue's whole book at one moment.
#[derive(Clone, Debug)]
pub struct OrderBook {
    pub exchange: Exchange,
    pub last_update_id: u64,
    pub bids: Vec<OrderLevel>,
    pub asks: Vec<OrderLevel>,
}

/// A change to a venue's book.
#[derive(Clone, Debug)]
pub struct OrderBookUpdate {
    pub exchange: Exchange,
    pub update_id: u64,
    pub bids: Vec<OrderLevel>,
    pub asks: Vec<OrderLevel>,
}

impl Default for OrderBook {
    fn default() -> (r: Self)
        ensures
            r.exchange == Exchange::Binance,
            r.last_update_id == 0,
            r.bids@ == Seq::<OrderLevel>::empty(),
            r.asks@ == Seq::<OrderLevel>::empty(),
    {
        OrderBook {
            exchange: Exchange::Binance,
            last_update_id: 0,
            bids: Vec::new(),
            asks: Vec::new(),
        }
    }
}

impl Default for OrderBookUpdate {
    fn default() -> (r: Self)
        ensures
            r.exchange == Exchange::Binance,
            r.update_id == 0,
            r.bids@ == Seq::<OrderLevel>::empty(),
            r.asks@ == Seq::<OrderLevel>::empty(),
    {
        OrderBookUpdate {
            exchange: Exchange::Binance,
            update_id: 0,
            bids: Vec::new(),
            asks: Vec::new(),
        }
    }
}

/// Why an update was not applied.
#[derive(Clone, Copy, Debug, PartialEq, Eq, Structural)]
pub enum ApplyError {
    /// The update is not newer than the last one applied for its venue.
    StaleSequence,
    /// A level of the update has a negative price or amount, or a price
    /// beyond the largest price key.
    InvalidLevel,
}

/// The last update applied for each venue, if any.
#[derive(Clone, Copy, Debug, PartialEq, Eq, Structural)]
pub struct LastUpdateIds {
    pub binance: Option<u64>,
    pub bitstamp: Option<u64>,
}

impl LastUpdateIds {
    /// No update applied for any venue.
    pub open spec fn none() -> LastUpdateIds {
        LastUpdateIds { binance: None, bitstamp: None }
    }

    /// The last update applied for `exchange`.
    pub open spec fn of(self, exchange: Exchange) -> Option<u64> {
        match exchange {
            Exchange::Binance => self.binance,
            Exchange::Bitstamp => self.bitstamp,
        }
    }

    /// These ids with that of `exchange` replaced by `id`.
    pub open spec fn with(self, exchange: Exchange, id: Option<u64>) -> LastUpdateIds {
        match exchange {
            Exchange::Binance => LastUpdateIds { binance: id, bitstamp: self.bitstamp },
            Exchange::Bitstamp => LastUpdateIds { binance: self.binance, bitstamp: id },
        }
    }

    /// No update applied for any venue.
    pub fn new() -> (r: Self)
        ensures
            r == LastUpdateIds::none(),
    {
        LastUpdateIds { binance: None, bitstamp: None }
    }

    /// The last update applied for `exchange`.
    pub fn get(&self, exchange: Exchange) -> (r: Option<u64>)
        ensures
            r == self.of(exchange),
    {
        match exchange {
            Exchange::Binance => self.binance,
            Exchange::Bitstamp => self.bitstamp,
        }
    }

    /// Records `id` as the last update applied for `exchange`.
    pub fn insert(&mut self, exchange: Exchange, id: u64)
        ensures
            *final(self) == old(self).with(exchange, Some(id)),
    {
        match exchange {
            Exchange::Binance => {
                self.binance = Some(id);
            },
            Exchange::Bitstamp => {
                self.bitstamp = Some(id);
            },
        }
    }

    /// Forgets the last update applied for `exchange`.
    pub fn remove(&mut self, exchange: Exchange)
        ensures
            *final(self) == old(self).with(exchange, None),
    {
        match exchange {
            Exchange::Binance => {
                self.binance = None;
            },
            Exchange::Bitstamp => {
                self.bitstamp = None;
            },
        }
    }
}

} // verus!
