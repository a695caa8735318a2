//! The identities of the streams.

use vstd::prelude::*;

verus! {

/// Identity of a stream of order books.
///
/// `Binance` and `Bitstamp` name upstream exchanges. `Aggregate` names the
/// merged stream itself and never labels a single price level.
#[derive(Copy, Clone, Debug, PartialEq, Eq, Structural)]
pub enum ExchangeId {
    Binance,
    Bitstamp,
    Aggregate,
}

impl ExchangeId {
    /// The lower-case name under which the identity is published.
    pub open spec fn name_spec(self) -> Seq<char> {
        match self {
            ExchangeId::Binance => "binance"@,
            ExchangeId::Bitstamp => "bitstamp"@,
            ExchangeId::Aggregate => "aggregate"@,
        }
    }

    /// True for the identities that stand for an upstream exchange.
    pub open spec fn is_source(self) -> bool {
        self != ExchangeId::Aggregate
    }

    /// The published name. Every identity has one.
    pub fn name(&self) -> (r: &'static str)
        ensures
            r@ == self.name_spec(),
    {
        match self {
            ExchangeId::Binance => "binance",
            ExchangeId::Bitstamp => "bitstamp",
            ExchangeId::Aggregate => "aggregate",
        }
    }
}

} // verus!
