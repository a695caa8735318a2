//! The feed of Binance.

pub mod parse;

use crate::exchange::ExchangeId;
use crate::orderbook::OrderBook;
use crate::ws::feed::Feed;
use vstd::prelude::*;
use vstd::string::StringExecFns;

verus! {

/// The address of the stream of the top twenty levels of `symbol`, sent
/// every hundred milliseconds.
pub open spec fn endpoint(symbol: Seq<char>) -> Seq<char> {
    "wss://stream.binance.com:9443/ws/"@ + symbol + "@depth20@100ms"@
}

/// The feed of Binance for one symbol: where to connect, and the state of
/// the feed. Binance needs no message to start the stream: the address
/// names the symbol and the channel.
pub struct BinanceWebSocket<const N: usize> {
    pub url: String,
    pub feed: Feed<N>,
}

impl<const N: usize> BinanceWebSocket<N> {
    /// Prepares the feed of `symbol`: its address, and a feed on which
    /// nothing waits yet.
    pub fn connect(symbol: &str) -> (r: BinanceWebSocket<N>)
        ensures
            r.url@ == endpoint(symbol@),
            r.feed.exchange() == ExchangeId::Binance,
            r.feed.pending() == Seq::<OrderBook<N>>::empty(),
            !r.feed.ended(),
    {
        let url = String::from_str("wss://stream.binance.com:9443/ws/").concat(symbol).concat(
            "@depth20@100ms",
        );
        BinanceWebSocket { url, feed: Feed::open(ExchangeId::Binance) }
    }
}

} // verus!
