//! What subscribers are sent: the summary of a merged book.

use crate::exchange::ExchangeId;
use crate::orderbook::{Aggregator, OrderBook, Sources};
use crate::ws::models::PriceLevel;
use vstd::prelude::*;
use vstd::string::StringExecFns;

verus! {

/// A level of a summary: a price and an amount, each as the bits of a
/// binary64 number, and the name of the exchange that reported them.
#[derive(Debug)]
pub struct Level {
    pub exchange: String,
    pub price: u64,
    pub amount: u64,
}

/// What subscribers are sent for each merged book.
///
/// The spread of a summary is the best ask price less the best bid price.
/// The summary holds the two prices; the difference is taken where the
/// numbers are sent.
#[derive(Debug)]
pub struct Summary {
    pub best_bid: u64,
    pub best_ask: u64,
    pub bids: Vec<Level>,
    pub asks: Vec<Level>,
}

/// True when `level` publishes `priced` under the name of `source`.
pub open spec fn publishes(level: Level, priced: PriceLevel, source: ExchangeId) -> bool {
    &&& level.exchange@ == source.name_spec()
    &&& level.price == priced.price
    &&& level.amount == priced.amount
}

/// True when `out` publishes the levels of `levels`, in order, each under
/// the name of its source.
pub open spec fn publishes_all(
    out: Seq<Level>,
    levels: Seq<PriceLevel>,
    sources: Seq<ExchangeId>,
) -> bool {
    &&& out.len() == levels.len()
    &&& forall|i: int| 0 <= i < out.len() ==> publishes(#[trigger] out[i], levels[i], sources[i])
}

/// Names the source of each level.
pub fn map_to_levels(levels: &[PriceLevel; 10], sources: &[ExchangeId; 10]) -> (r: Vec<Level>)
    ensures
        publishes_all(r@, levels@, sources@),
{
    let mut out: Vec<Level> = Vec::new();
    let mut i: usize = 0;
    while i < 10
        invariant
            0 <= i <= 10,
            out@.len() == i,
            forall|k: int| 0 <= k < i ==> publishes(#[trigger] out@[k], levels@[k], sources@[k]),
        decreases 10 - i,
    {
        let level = levels[i];
        out.push(
            Level {
                exchange: String::from_str(sources[i].name()),
                price: level.price,
                amount: level.amount,
            },
        );
        i += 1;
    }
    out
}

/// The summary of a merged book: the two prices of its spread, and every
/// level with the name of its source.
pub fn map_to_summary(book: &OrderBook<10>, sources: &Sources<10>) -> (r: Summary)
    ensures
        r.best_bid == book.bids()[0].price,
        r.best_ask == book.asks()[0].price,
        publishes_all(r.bids@, book.bids(), sources.bid@),
        publishes_all(r.asks@, book.asks(), sources.ask@),
{
    let bid = book.bid();
    let ask = book.ask();
    Summary {
        best_bid: bid[0].price,
        best_ask: ask[0].price,
        bids: map_to_levels(bid, &sources.bid),
        asks: map_to_levels(ask, &sources.ask),
    }
}

/// The engine behind the merged stream of the given feeds, which are told
/// apart by their place in `ids`. There is none for an empty list, nor for
/// one that names `Aggregate`, the identity of the merged stream itself.
pub fn build(ids: Vec<ExchangeId>) -> (r: Option<Aggregator<10>>)
    ensures
        r is Some <==> ids@.len() >= 1 && forall|s: int|
            0 <= s < ids@.len() ==> (#[trigger] ids@[s]).is_source(),
        r matches Some(engine) ==> {
            &&& engine.is_valid()
            &&& engine.sources() == ids@
            &&& forall|s: int| 0 <= s < ids@.len() ==> (#[trigger] engine.snapshots()[s]).is_zero()
        },
{
    Aggregator::new(ids)
}

} // verus!
