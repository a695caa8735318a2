//! The feed of an exchange: what to do with each frame of its connection,
//! and which book to hand out next.

use crate::exchange::ExchangeId;
use crate::orderbook::OrderBook;
use crate::ws::bitstamp;
use crate::ws::book;
use crate::ws::book::Levels;
use crate::ws::decode::{decode_book, decodes_book};
use crate::ws::error::Error;
use std::collections::VecDeque;
use vstd::prelude::*;
use vstd::string::StringSliceAdditionalSpecFns;

verus! {

/// What a connection hands to its feed.
#[derive(Copy, Clone, Debug)]
pub enum Incoming<'a> {
    /// A text frame, with its text.
    Text(&'a str),
    /// A ping.
    Ping,
    /// A frame of any other kind.
    Other,
    /// The end of the connection, by a close or by a failure.
    Closed,
}

/// What a feed did with what it was handed, and what it asks in return.
#[derive(Copy, Clone, Debug, PartialEq, Eq, Structural)]
pub enum Reaction {
    /// The frame held a book, which now waits to be taken.
    Queued,
    /// The frame was a ping: a pong is owed at once.
    Pong,
    /// The frame held nothing for this feed.
    Ignored,
    /// The frame held a message out of shape, which was dropped. The
    /// connection stays open.
    Dropped(Error),
    /// The connection has ended, and the feed with it.
    Ended,
}

/// What a feed asks of whoever polls it.
#[derive(Copy, Clone, Debug)]
pub enum Demand<const N: usize> {
    /// Take this book, the oldest that waited.
    Deliver(OrderBook<N>),
    /// No book waits: read the next frame and hand it over.
    Read,
    /// No book waits and none will come.
    Done,
}

/// The feed of one exchange: the books that wait to be taken, oldest
/// first, and whether the connection has ended.
///
/// The queue has no bound of its own. A feed that is polled until it asks
/// for a frame before each frame is handed over never holds more than one
/// book.
pub struct Feed<const N: usize> {
    id: ExchangeId,
    queue: VecDeque<OrderBook<N>>,
    over: bool,
}

/// What a message of the given exchange holds. The merged stream is no
/// exchange: a message in its name is out of place.
pub open spec fn told(id: ExchangeId, s: Seq<u8>, n: nat) -> Result<Option<Levels>, Error> {
    match id {
        ExchangeId::Binance => match book::message_book(s, n) {
            Ok(levels) => Ok(Some(levels)),
            Err(e) => Err(e),
        },
        ExchangeId::Bitstamp => bitstamp::parse::message_book(s, n),
        ExchangeId::Aggregate => Err(Error::Protocol),
    }
}

/// True when `r` is what a message of the given exchange can give, once
/// its numbers are decoded.
pub open spec fn normalizes<const N: usize, F: Fn(&[u8]) -> Option<u64>>(
    id: ExchangeId,
    s: Seq<u8>,
    decode: F,
    r: Result<Option<OrderBook<N>>, Error>,
) -> bool {
    match told(id, s, N as nat) {
        Err(e) => r matches Err(x) && x == e,
        Ok(None) => r matches Ok(None),
        Ok(Some((bids, asks))) => match r {
            Ok(Some(book)) => decodes_book(decode, s, bids, asks, Ok(book)),
            Ok(None) => false,
            Err(e) => decodes_book::<N, F>(decode, s, bids, asks, Err(e)),
        },
    }
}

/// Turns a message of the given exchange into a book, if it holds one.
pub fn normalize<const N: usize, F: Fn(&[u8]) -> Option<u64>>(
    id: ExchangeId,
    raw: &str,
    decode: &F,
) -> (r: Result<Option<OrderBook<N>>, Error>)
    requires
        forall|text: &[u8]| call_requires(*decode, (text,)),
    ensures
        normalizes(id, raw.spec_bytes(), *decode, r),
{
    let s = raw.as_bytes();
    let scanned = match id {
        ExchangeId::Binance => match book::read_message::<N>(s) {
            Ok(book) => Ok(Some(book)),
            Err(e) => Err(e),
        },
        ExchangeId::Bitstamp => bitstamp::parse::read_message::<N>(s),
        ExchangeId::Aggregate => Err(Error::Protocol),
    };
    match scanned {
        Ok(Some(fields)) => match decode_book(s, &fields, decode) {
            Ok(book) => Ok(Some(book)),
            Err(e) => Err(e),
        },
        Ok(None) => Ok(None),
        Err(e) => Err(e),
    }
}

impl<const N: usize> Feed<N> {
    /// The exchange that the feed listens to.
    pub closed spec fn exchange(&self) -> ExchangeId {
        self.id
    }

    /// The books that wait to be taken, oldest first.
    pub closed spec fn pending(&self) -> Seq<OrderBook<N>> {
        self.queue@
    }

    /// True once the connection has ended.
    pub closed spec fn ended(&self) -> bool {
        self.over
    }

    /// A feed of the given exchange: nothing waits, the connection is
    /// open.
    pub(crate) fn open(id: ExchangeId) -> (r: Feed<N>)
        ensures
            r.exchange() == id,
            r.pending() == Seq::<OrderBook<N>>::empty(),
            !r.ended(),
    {
        Feed { id, queue: VecDeque::new(), over: false }
    }

    /// The exchange that the feed listens to.
    pub fn id(&self) -> (r: ExchangeId)
        ensures
            r == self.exchange(),
    {
        self.id
    }

    /// Asks the feed for its next book. Books leave in the order in which
    /// they came. When none waits, the feed asks for a frame, or says that
    /// it is done if the connection has ended.
    pub fn poll(&mut self) -> (r: Demand<N>)
        ensures
            final(self).exchange() == old(self).exchange(),
            final(self).ended() == old(self).ended(),
            match r {
                Demand::Deliver(book) => old(self).pending().len() > 0 && book == old(self).pending()[0] && final(self).pending() == old(self).pending().drop_first(),
                Demand::Read => old(self).pending().len() == 0 && !old(self).ended() && final(self).pending() == old(self).pending(),
                Demand::Done => old(self).pending().len() == 0 && old(self).ended() && final(self).pending() == old(self).pending(),
            },
    {
        let over = self.over;
        match self.queue.pop_front() {
            Some(book) => Demand::Deliver(book),
            None => if over {
                Demand::Done
            } else {
                Demand::Read
            },
        }
    }

    /// Hands the feed what the connection gave. A text frame is read as a
    /// message of the exchange, its numbers decoded by `decode`: a book
    /// joins those that wait, a message without a book is ignored, and a
    /// message out of shape is dropped. A ping asks for a pong. Any other
    /// frame is ignored. The end of the connection ends the feed, and
    /// whatever is handed over after that changes nothing.
    pub fn accept<F: Fn(&[u8]) -> Option<u64>>(&mut self, incoming: Incoming<'_>, decode: &F) -> (r:
        Reaction)
        requires
            forall|text: &[u8]| call_requires(*decode, (text,)),
        ensures
            final(self).exchange() == old(self).exchange(),
            old(self).ended() ==> r == Reaction::Ended && final(self).ended() && final(self).pending() == old(self).pending(),
            !old(self).ended() ==> match incoming {
                Incoming::Closed => r == Reaction::Ended && final(self).ended() && final(self).pending() == old(self).pending(),
                Incoming::Ping => r == Reaction::Pong && !final(self).ended() && final(self).pending() == old(self).pending(),
                Incoming::Other => r == Reaction::Ignored && !final(self).ended() && final(self).pending() == old(self).pending(),
                Incoming::Text(raw) => !final(self).ended() && match r {
                    Reaction::Queued => exists|book: OrderBook<N>|
                        final(self).pending() == old(self).pending().push(book) && #[trigger] normalizes(
                            old(self).exchange(),
                            raw.spec_bytes(),
                            *decode,
                            Ok(Some(book)),
                        ),
                    Reaction::Ignored => final(self).pending() == old(self).pending()
                        && normalizes::<N, F>(
                        old(self).exchange(),
                        raw.spec_bytes(),
                        *decode,
                        Ok(None),
                    ),
                    Reaction::Dropped(e) => final(self).pending() == old(self).pending()
                        && normalizes::<N, F>(
                        old(self).exchange(),
                        raw.spec_bytes(),
                        *decode,
                        Err(e),
                    ),
                    _ => false,
                },
            },
    {
        if self.over {
            return Reaction::Ended;
        }
        match incoming {
            Incoming::Closed => {
                self.over = true;
                Reaction::Ended
            },
            Incoming::Ping => Reaction::Pong,
            Incoming::Other => Reaction::Ignored,
            Incoming::Text(raw) => match normalize::<N, F>(self.id, raw, decode) {
                Ok(Some(book)) => {
                    self.queue.push_back(book);
                    Reaction::Queued
                },
                Ok(None) => Reaction::Ignored,
                Err(e) => Reaction::Dropped(e),
            },
        }
    }
}

} // verus!
