//! The feed of Bitstamp.

pub mod parse;

use crate::exchange::ExchangeId;
use crate::orderbook::OrderBook;
use crate::ws::feed::Feed;
use vstd::prelude::*;
use vstd::string::StringExecFns;

verus! {

/// The address of Bitstamp, the same for every symbol.
pub open spec fn endpoint() -> Seq<char> {
    "wss://ws.bitstamp.net"@
}

/// The message that asks Bitstamp for the order book of `symbol`.
pub open spec fn subscription(symbol: Seq<char>) -> Seq<char> {
    "{\"event\":\"bts:subscribe\",\"data\":{\"channel\":\"order_book_"@ + symbol + "\"}}"@
}

/// The feed of Bitstamp for one symbol: where to connect, what to send
/// once connected, and the state of the feed. Bitstamp sends no book
/// before it is asked for one.
pub struct BitstampWebSocket<const N: usize> {
    pub url: String,
    pub subscribe: String,
    pub feed: Feed<N>,
}

impl<const N: usize> BitstampWebSocket<N> {
    /// Prepares the feed of `symbol`: the address, the message that
    /// subscribes to the order book of the symbol, and a feed on which
    /// nothing waits yet.
    pub fn connect(symbol: &str) -> (r: BitstampWebSocket<N>)
        ensures
            r.url@ == endpoint(),
            r.subscribe@ == subscription(symbol@),
            r.feed.exchange() == ExchangeId::Bitstamp,
            r.feed.pending() == Seq::<OrderBook<N>>::empty(),
            !r.feed.ended(),
    {
        let url = String::from_str("wss://ws.bitstamp.net");
        let subscribe = String::from_str(
            "{\"event\":\"bts:subscribe\",\"data\":{\"channel\":\"order_book_",
        ).concat(symbol).concat("\"}}");
        BitstampWebSocket { url, subscribe, feed: Feed::open(ExchangeId::Bitstamp) }
    }
}

} // verus!
