//! What the venues send, read into updates and snapshots.
//!
//! A frame or a payload is refused as a whole where a member that is needed
//! is missing or of another kind, or where a price or an amount is no
//! decimal numeral.

use crate::decimal::{decimal_of, parse_u64, whole_number_of, Decimal};
use crate::json::{json_document, Json};
use crate::types::{same_text, Exchange, OrderBook, OrderBookUpdate, OrderLevel};
use vstd::prelude::*;

verus! {

/// Why a venue's snapshot could not be had.
#[derive(Clone, Copy, Debug, PartialEq, Eq, Structural)]
pub enum VenueError {
    /// The payload could not be fetched.
    Transport,
    /// The payload is no snapshot of the venue.
    Decode,
}

/// What an update or a snapshot holds: a venue, an id, and the levels of
/// both sides.
pub struct Content {
    pub exchange: Exchange,
    pub update_id: u64,
    pub bids: Seq<OrderLevel>,
    pub asks: Seq<OrderLevel>,
}

impl View for OrderBookUpdate {
    type V = Content;

    open spec fn view(&self) -> Content {
        Content {
            exchange: self.exchange,
            update_id: self.update_id,
            bids: self.bids@,
            asks: self.asks@,
        }
    }
}

/// The snapshot holds the venue, the id and the levels of `content`.
pub open spec fn snapshot_holds(snapshot: OrderBook, content: Content) -> bool {
    &&& snapshot.exchange == content.exchange
    &&& snapshot.last_update_id == content.update_id
    &&& snapshot.bids@ == content.bids
    &&& snapshot.asks@ == content.asks
}

/// The level that a venue writes as an array of two strings or more, the
/// price first and the amount second, both decimal numerals.
pub open spec fn level_of(item: Json, exchange: Exchange) -> Option<OrderLevel> {
    match item.items() {
        Some(parts) => if parts.len() >= 2 {
            match (parts[0].text(), parts[1].text()) {
                (Some(price_text), Some(amount_text)) => match (
                    decimal_of(price_text),
                    decimal_of(amount_text),
                ) {
                    (Some(price), Some(amount)) => Some(OrderLevel { exchange, price, amount }),
                    _ => None,
                },
                _ => None,
            }
        } else {
            None
        },
        None => None,
    }
}

/// Each of `items` is a level.
pub open spec fn all_levels(items: Seq<Json>, exchange: Exchange) -> bool {
    forall|i: int| 0 <= i < items.len() ==> (#[trigger] level_of(items[i], exchange)) is Some
}

/// The levels that `items` are, in their order; `None` where one of them is
/// no level.
pub open spec fn levels_of(items: Seq<Json>, exchange: Exchange) -> Option<Seq<OrderLevel>> {
    if all_levels(items, exchange) {
        Some(Seq::new(items.len(), |i: int| level_of(items[i], exchange).unwrap()))
    } else {
        None
    }
}

/// The levels under the member `name` of `doc`; `None` where `doc` has no
/// such member, where it is no array, and where one of its items is no
/// level.
pub open spec fn side_of(doc: Json, name: Seq<char>, exchange: Exchange) -> Option<
    Seq<OrderLevel>,
> {
    match doc.member(name) {
        Some(list) => match list.items() {
            Some(items) => levels_of(items, exchange),
            None => None,
        },
        None => None,
    }
}

/// The whole number under the member `name` of `doc`.
pub open spec fn number_under(doc: Json, name: Seq<char>) -> Option<u64> {
    match doc.member(name) {
        Some(value) => value.whole_number(),
        None => None,
    }
}

/// The whole number that the string under the member `name` of `doc` writes
/// in digits.
pub open spec fn digits_under(doc: Json, name: Seq<char>) -> Option<u64> {
    match doc.member(name) {
        Some(value) => match value.text() {
            Some(text) => whole_number_of(text),
            None => None,
        },
        None => None,
    }
}

/// The content made of an id and two sides, where all three are there.
pub open spec fn content_of(
    exchange: Exchange,
    update_id: Option<u64>,
    bids: Option<Seq<OrderLevel>>,
    asks: Option<Seq<OrderLevel>>,
) -> Option<Content> {
    match (update_id, bids, asks) {
        (Some(update_id), Some(bids), Some(asks)) => Some(
            Content { exchange, update_id, bids, asks },
        ),
        _ => None,
    }
}

/// A Binance diff frame: bids under `b`, asks under `a`, the id of its last
/// update under `u`.
pub open spec fn binance_diff(doc: Json) -> Option<Content> {
    content_of(
        Exchange::Binance,
        number_under(doc, "u"@),
        side_of(doc, "b"@, Exchange::Binance),
        side_of(doc, "a"@, Exchange::Binance),
    )
}

/// The id of the first update of a Binance diff frame, under `U`.
pub open spec fn binance_first_update(doc: Json) -> Option<u64> {
    number_under(doc, "U"@)
}

/// A Binance snapshot: bids under `bids`, asks under `asks`, the id of its
/// last update under `lastUpdateId`.
pub open spec fn binance_snapshot(doc: Json) -> Option<Content> {
    content_of(
        Exchange::Binance,
        number_under(doc, "lastUpdateId"@),
        side_of(doc, "bids"@, Exchange::Binance),
        side_of(doc, "asks"@, Exchange::Binance),
    )
}

/// A Bitstamp snapshot, or the payload of a Bitstamp diff frame: bids under
/// `bids`, asks under `asks`, the time in microseconds under
/// `microtimestamp`, written in digits.
pub open spec fn bitstamp_book(doc: Json) -> Option<Content> {
    content_of(
        Exchange::Bitstamp,
        digits_under(doc, "microtimestamp"@),
        side_of(doc, "bids"@, Exchange::Bitstamp),
        side_of(doc, "asks"@, Exchange::Bitstamp),
    )
}

/// The frame is a Bitstamp frame whose `event` is `data`.
pub open spec fn is_bitstamp_data(doc: Json) -> bool {
    match doc.member("event"@) {
        Some(event) => event.text() == Some("data"@),
        None => false,
    }
}

/// A Bitstamp diff frame: its `event` is `data`, and its payload stands
/// under `data`. Any other frame, such as the answer to a subscription, is
/// none.
pub open spec fn bitstamp_diff(doc: Json) -> Option<Content> {
    if is_bitstamp_data(doc) {
        match doc.member("data"@) {
            Some(payload) => bitstamp_book(payload),
            None => None,
        }
    } else {
        None
    }
}

/// The update that `from_json` makes of a document: a Binance diff where it
/// is one, else a Binance snapshot, else a Bitstamp diff, else an update of
/// Binance with the id zero and no level.
pub open spec fn any_update(doc: Option<Json>) -> Content {
    let nothing = Content {
        exchange: Exchange::Binance,
        update_id: 0,
        bids: Seq::empty(),
        asks: Seq::empty(),
    };
    match doc {
        Some(doc) => match binance_diff(doc) {
            Some(content) => content,
            None => match binance_snapshot(doc) {
                Some(content) => content,
                None => match bitstamp_diff(doc) {
                    Some(content) => content,
                    None => nothing,
                },
            },
        },
        None => nothing,
    }
}

/// The Binance diff frame that a text holds.
pub open spec fn binance_diff_in(text: Seq<char>) -> Option<Content> {
    match json_document(text) {
        Some(doc) => binance_diff(doc),
        None => None,
    }
}

/// The Bitstamp diff frame that a text holds.
pub open spec fn bitstamp_diff_in(text: Seq<char>) -> Option<Content> {
    match json_document(text) {
        Some(doc) => bitstamp_diff(doc),
        None => None,
    }
}

/// The Binance snapshot that a text holds.
pub open spec fn binance_snapshot_in(text: Seq<char>) -> Option<Content> {
    match json_document(text) {
        Some(doc) => binance_snapshot(doc),
        None => None,
    }
}

/// The Bitstamp snapshot that a text holds.
pub open spec fn bitstamp_snapshot_in(text: Seq<char>) -> Option<Content> {
    match json_document(text) {
        Some(doc) => bitstamp_book(doc),
        None => None,
    }
}

/// Reads one level of `exchange`.
pub fn parse_level(item: &Json, exchange: Exchange) -> (r: Option<OrderLevel>)
    ensures
        r == level_of(*item, exchange),
{
    let parts = match item.as_array() {
        Some(parts) => parts,
        None => {
            return None;
        },
    };
    if parts.len() < 2 {
        return None;
    }
    let price_text = match parts[0].as_str() {
        Some(text) => text,
        None => {
            return None;
        },
    };
    let amount_text = match parts[1].as_str() {
        Some(text) => text,
        None => {
            return None;
        },
    };
    let price = match Decimal::parse(price_text) {
        Some(price) => price,
        None => {
            return None;
        },
    };
    let amount = match Decimal::parse(amount_text) {
        Some(amount) => amount,
        None => {
            return None;
        },
    };
    Some(OrderLevel { exchange, price, amount })
}

/// Reads the levels of `exchange`, all or none.
pub fn parse_levels(items: &Vec<Json>, exchange: Exchange) -> (r: Option<Vec<OrderLevel>>)
    ensures
        match r {
            Some(levels) => levels_of(items@, exchange) == Some(levels@),
            None => levels_of(items@, exchange) is None,
        },
{
    let mut out: Vec<OrderLevel> = Vec::new();
    let mut i: usize = 0;
    while i < items.len()
        invariant
            0 <= i <= items.len(),
            out@.len() == i,
            forall|j: int| 0 <= j < i ==> (#[trigger] level_of(items@[j], exchange)) == Some(out@[j]),
        decreases items.len() - i,
    {
        match parse_level(&items[i], exchange) {
            Some(level) => {
                out.push(level);
            },
            None => {
                return None;
            },
        }
        i = i + 1;
    }
    assert(out@ =~= Seq::new(items@.len(), |i: int| level_of(items@[i], exchange).unwrap()));
    Some(out)
}

/// Reads the levels of `exchange` under the member `name` of `doc`.
pub fn parse_side(doc: &Json, name: &str, exchange: Exchange) -> (r: Option<Vec<OrderLevel>>)
    ensures
        match r {
            Some(levels) => side_of(*doc, name@, exchange) == Some(levels@),
            None => side_of(*doc, name@, exchange) is None,
        },
{
    match doc.get(name) {
        Some(list) => match list.as_array() {
            Some(items) => parse_levels(items, exchange),
            None => None,
        },
        None => None,
    }
}

/// Reads the whole number under the member `name` of `doc`.
pub fn parse_number_under(doc: &Json, name: &str) -> (r: Option<u64>)
    ensures
        r == number_under(*doc, name@),
{
    match doc.get(name) {
        Some(value) => value.as_u64(),
        None => None,
    }
}

/// Reads the whole number that the string under the member `name` of `doc`
/// writes in digits.
pub fn parse_digits_under(doc: &Json, name: &str) -> (r: Option<u64>)
    ensures
        r == digits_under(*doc, name@),
{
    match doc.get(name) {
        Some(value) => match value.as_str() {
            Some(text) => parse_u64(text),
            None => None,
        },
        None => None,
    }
}

/// Reads the id of the first update of a Binance diff frame.
pub fn parse_binance_first_update(doc: &Json) -> (r: Option<u64>)
    ensures
        r == binance_first_update(*doc),
{
    parse_number_under(doc, "U")
}

impl OrderBookUpdate {
    /// The update of `exchange` with the id and the levels given, where all
    /// three are there.
    pub fn assemble(
        exchange: Exchange,
        update_id: Option<u64>,
        bids: Option<Vec<OrderLevel>>,
        asks: Option<Vec<OrderLevel>>,
    ) -> (r: Option<Self>)
        ensures
            match r {
                Some(update) => update_id is Some && bids is Some && asks is Some && update@ == (
                Content {
                    exchange,
                    update_id: update_id.unwrap(),
                    bids: bids.unwrap()@,
                    asks: asks.unwrap()@,
                }),
                None => update_id is None || bids is None || asks is None,
            },
    {
        match (update_id, bids, asks) {
            (Some(update_id), Some(bids), Some(asks)) => Some(
                OrderBookUpdate { exchange, update_id, bids, asks },
            ),
            _ => None,
        }
    }

    /// Reads a Binance diff frame.
    pub fn parse_binance_diff(doc: &Json) -> (r: Option<Self>)
        ensures
            match r {
                Some(update) => binance_diff(*doc) == Some(update@),
                None => binance_diff(*doc) is None,
            },
    {
        Self::assemble(
            Exchange::Binance,
            parse_number_under(doc, "u"),
            parse_side(doc, "b", Exchange::Binance),
            parse_side(doc, "a", Exchange::Binance),
        )
    }

    /// Reads a Binance snapshot as an update.
    pub fn parse_binance_snapshot(doc: &Json) -> (r: Option<Self>)
        ensures
            match r {
                Some(update) => binance_snapshot(*doc) == Some(update@),
                None => binance_snapshot(*doc) is None,
            },
    {
        Self::assemble(
            Exchange::Binance,
            parse_number_under(doc, "lastUpdateId"),
            parse_side(doc, "bids", Exchange::Binance),
            parse_side(doc, "asks", Exchange::Binance),
        )
    }

    /// Reads a Bitstamp snapshot, or the payload of a Bitstamp diff frame, as
    /// an update.
    pub fn parse_bitstamp_book(doc: &Json) -> (r: Option<Self>)
        ensures
            match r {
                Some(update) => bitstamp_book(*doc) == Some(update@),
                None => bitstamp_book(*doc) is None,
            },
    {
        Self::assemble(
            Exchange::Bitstamp,
            parse_digits_under(doc, "microtimestamp"),
            parse_side(doc, "bids", Exchange::Bitstamp),
            parse_side(doc, "asks", Exchange::Bitstamp),
        )
    }

    /// Reads a Bitstamp diff frame. A frame whose `event` is not `data` is
    /// none.
    pub fn parse_bitstamp(doc: &Json) -> (r: Option<Self>)
        ensures
            match r {
                Some(update) => bitstamp_diff(*doc) == Some(update@),
                None => bitstamp_diff(*doc) is None,
            },
    {
        let is_data = match doc.get("event") {
            Some(event) => match event.as_str() {
                Some(kind) => same_text(kind, "data"),
                None => false,
            },
            None => false,
        };
        if !is_data {
            return None;
        }
        match doc.get("data") {
            Some(payload) => Self::parse_bitstamp_book(payload),
            None => None,
        }
    }

    /// Reads any of the three: a Binance diff, a Binance snapshot, a Bitstamp
    /// diff. The first that fits is taken; where none fits, and where the
    /// text is no JSON document, the result is an update of Binance with the
    /// id zero and no level.
    pub fn from_document(doc: Option<Json>) -> (r: Self)
        ensures
            r@ == any_update(doc),
    {
        let doc = match doc {
            Some(doc) => doc,
            None => {
                return OrderBookUpdate::default();
            },
        };
        if let Some(update) = Self::parse_binance_diff(&doc) {
            return update;
        }
        if let Some(update) = Self::parse_binance_snapshot(&doc) {
            return update;
        }
        if let Some(update) = Self::parse_bitstamp(&doc) {
            return update;
        }
        OrderBookUpdate::default()
    }

    /// Reads a text as any of the three: a Binance diff, a Binance snapshot,
    /// a Bitstamp diff.
    pub fn from_json(text: String) -> (r: Self)
        ensures
            r@ == any_update(json_document(text@)),
    {
        Self::from_document(Json::parse(text.as_str()))
    }

    /// Reads a text as a Binance diff frame.
    pub fn from_binance_json(text: &str) -> (r: Option<Self>)
        ensures
            match r {
                Some(update) => binance_diff_in(text@) == Some(update@),
                None => binance_diff_in(text@) is None,
            },
    {
        match Json::parse(text) {
            Some(doc) => Self::parse_binance_diff(&doc),
            None => None,
        }
    }

    /// Reads a text as a Bitstamp diff frame.
    pub fn from_bitstamp_json(text: &str) -> (r: Option<Self>)
        ensures
            match r {
                Some(update) => bitstamp_diff_in(text@) == Some(update@),
                None => bitstamp_diff_in(text@) is None,
            },
    {
        match Json::parse(text) {
            Some(doc) => Self::parse_bitstamp(&doc),
            None => None,
        }
    }
}

impl OrderBook {
    /// The snapshot with the venue, the id and the levels of an update.
    pub fn from_update(update: OrderBookUpdate) -> (r: Self)
        ensures
            snapshot_holds(r, update@),
    {
        OrderBook {
            exchange: update.exchange,
            last_update_id: update.update_id,
            bids: update.bids,
            asks: update.asks,
        }
    }

    /// Reads the body of Binance's answer to a request for its book.
    pub fn from_binance_json(text: &str) -> (r: Result<Self, VenueError>)
        ensures
            match r {
                Ok(snapshot) => binance_snapshot_in(text@) matches Some(content)
                    && snapshot_holds(snapshot, content),
                Err(e) => e == VenueError::Decode && binance_snapshot_in(text@) is None,
            },
    {
        let doc = match Json::parse(text) {
            Some(doc) => doc,
            None => {
                return Err(VenueError::Decode);
            },
        };
        match OrderBookUpdate::parse_binance_snapshot(&doc) {
            Some(update) => Ok(Self::from_update(update)),
            None => Err(VenueError::Decode),
        }
    }

    /// Reads the body of Bitstamp's answer to a request for its book.
    pub fn from_bitstamp_json(text: &str) -> (r: Result<Self, VenueError>)
        ensures
            match r {
                Ok(snapshot) => bitstamp_snapshot_in(text@) matches Some(content)
                    && snapshot_holds(snapshot, content),
                Err(e) => e == VenueError::Decode && bitstamp_snapshot_in(text@) is None,
            },
    {
        let doc = match Json::parse(text) {
            Some(doc) => doc,
            None => {
                return Err(VenueError::Decode);
            },
        };
        match OrderBookUpdate::parse_bitstamp_book(&doc) {
            Some(update) => Ok(Self::from_update(update)),
            None => Err(VenueError::Decode),
        }
    }
}

} // verus!
