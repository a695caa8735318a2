//! From a book as a message spells it to a book of numbers.

use crate::orderbook::{levels_of, OrderBook};
use crate::ws::error::Error;
use crate::ws::models::{sorted, Numeric, PriceLevel, RawBook, RawLevel, Side, INFINITY_BITS};
use vstd::prelude::*;

verus! {

broadcast use vstd::array::group_array_axioms;

/// What decoding the two fields of a level gave: for each the bits of the
/// number, or nothing where the text was no number.
pub type Decoded = (Option<u64>, Option<u64>);

/// True when `out` is what decoding `field` can give. Infinity needs no
/// decoder. Of any other field the decoder is handed the text, and what it
/// answers is taken as it comes; a field that lies outside the message
/// decodes to nothing.
pub open spec fn decodes_to<F: Fn(&[u8]) -> Option<u64>>(
    decode: F,
    s: Seq<u8>,
    field: Numeric,
    out: Option<u64>,
) -> bool {
    match field {
        Numeric::Infinity => out == Some(INFINITY_BITS),
        Numeric::Decimal(span) => {
            if span.fits(s.len()) {
                exists|text: &[u8]| text@ == span.of(s) && call_ensures(decode, (text,), out)
            } else {
                out is None
            }
        },
    }
}

/// True when `outs` is what decoding the fields of `levels`, one by one,
/// can give.
pub open spec fn side_decodes_to<F: Fn(&[u8]) -> Option<u64>>(
    decode: F,
    s: Seq<u8>,
    levels: Seq<RawLevel>,
    outs: Seq<Decoded>,
) -> bool {
    &&& outs.len() == levels.len()
    &&& forall|k: int|
        0 <= k < levels.len() ==> decodes_to(decode, s, levels[k].price, (#[trigger] outs[k]).0)
    &&& forall|k: int|
        0 <= k < levels.len() ==> decodes_to(decode, s, levels[k].amount, (#[trigger] outs[k]).1)
}

/// True when every field of a side decoded to a number.
pub open spec fn complete(outs: Seq<Decoded>) -> bool {
    forall|k: int| 0 <= k < outs.len() ==> (#[trigger] outs[k]).0 is Some && outs[k].1 is Some
}

/// The levels of a side of which every field decoded to a number.
pub open spec fn decoded_levels(outs: Seq<Decoded>) -> Seq<PriceLevel> {
    Seq::new(
        outs.len(),
        |k: int| PriceLevel { price: outs[k].0.unwrap(), amount: outs[k].1.unwrap() },
    )
}

/// True when `r` is the book that the decoded fields make: the book of
/// their levels if every field decoded to a number and both sides are in
/// order, and a parse error if not.
pub open spec fn assembles<const N: usize>(
    r: Result<OrderBook<N>, Error>,
    bids: Seq<Decoded>,
    asks: Seq<Decoded>,
) -> bool {
    if complete(bids) && complete(asks) && sorted(Side::Bid, decoded_levels(bids)) && sorted(
        Side::Ask,
        decoded_levels(asks),
    ) {
        r matches Ok(book) && book.is_valid() && book.bids() == decoded_levels(bids) && book.asks()
            == decoded_levels(asks)
    } else {
        r matches Err(e) && e == Error::Parse
    }
}

/// True when `r` is a book that decoding the fields of `bids` and `asks`
/// can give.
pub open spec fn decodes_book<const N: usize, F: Fn(&[u8]) -> Option<u64>>(
    decode: F,
    s: Seq<u8>,
    bids: Seq<RawLevel>,
    asks: Seq<RawLevel>,
    r: Result<OrderBook<N>, Error>,
) -> bool {
    exists|bid_outs: Seq<Decoded>, ask_outs: Seq<Decoded>|
        side_decodes_to(decode, s, bids, bid_outs) && side_decodes_to(decode, s, asks, ask_outs)
            && #[trigger] assembles(r, bid_outs, ask_outs)
}

/// Decodes one field; `decode` turns the text of a number into its bits.
fn decode_field<F: Fn(&[u8]) -> Option<u64>>(s: &[u8], field: &Numeric, decode: &F) -> (r: Option<
    u64,
>)
    requires
        forall|text: &[u8]| call_requires(*decode, (text,)),
    ensures
        decodes_to(*decode, s@, *field, r),
{
    match field {
        Numeric::Infinity => Some(INFINITY_BITS),
        Numeric::Decimal(span) => match span.slice(s) {
            Some(text) => decode(text),
            None => None,
        },
    }
}

/// Decodes the fields of one side. Gives the numbers, and whether every
/// field had one; where a field had none, zero stands in its place.
fn decode_side<const N: usize, F: Fn(&[u8]) -> Option<u64>>(
    s: &[u8],
    levels: &[RawLevel; N],
    decode: &F,
) -> (r: ([[u64; 2]; N], bool, Ghost<Seq<Decoded>>))
    requires
        forall|text: &[u8]| call_requires(*decode, (text,)),
    ensures
        side_decodes_to(*decode, s@, levels@, r.2@),
        r.1 == complete(r.2@),
        r.1 ==> levels_of(r.0@) == decoded_levels(r.2@),
{
    let mut values = [[0u64; 2]; N];
    let mut whole = true;
    let ghost mut outs: Seq<Decoded> = Seq::empty();
    let mut k: usize = 0;
    while k < N
        invariant
            0 <= k <= N,
            forall|text: &[u8]| call_requires(*decode, (text,)),
            side_decodes_to(*decode, s@, levels@.take(k as int), outs),
            whole == complete(outs),
            whole ==> forall|t: int|
                0 <= t < k ==> levels_of(values@)[t] == #[trigger] decoded_levels(outs)[t],
        decreases N - k,
    {
        let level = levels[k];
        let price = decode_field(s, &level.price, decode);
        let amount = decode_field(s, &level.amount, decode);
        let ghost before = outs;
        proof {
            outs = outs.push((price, amount));
            assert(levels@.take(k + 1) =~= levels@.take(k as int).push(level));
            assert forall|t: int| 0 <= t < k implies outs[t] == before[t] by {}
        }
        match (price, amount) {
            (Some(p), Some(a)) => {
                values[k] = [p, a];
                proof {
                    if whole {
                        assert forall|t: int| 0 <= t < k + 1 implies levels_of(values@)[t]
                            == #[trigger] decoded_levels(outs)[t] by {
                            if t < k {
                                assert(decoded_levels(before)[t] == decoded_levels(outs)[t]);
                            }
                        }
                    } else {
                        let bad = choose|t: int|
                            0 <= t < before.len() && !((#[trigger] before[t]).0 is Some
                                && before[t].1 is Some);
                        assert(outs[bad] == before[bad]);
                    }
                }
            },
            _ => {
                whole = false;
                assert(!(outs[k as int].0 is Some && outs[k as int].1 is Some));
            },
        }
        k += 1;
    }
    proof {
        assert(levels@.take(N as int) =~= levels@);
        if whole {
            assert(levels_of(values@) =~= decoded_levels(outs));
        }
    }
    (values, whole, Ghost(outs))
}

/// Decodes the fields of a book that was read from the message `s`, and
/// builds the book. `decode` turns the text of a number into the bits of
/// the nearest binary64 value, and gives nothing for text that is no
/// number. Every field is decoded; the book is refused with a parse error
/// if a field held no number or a side is out of order.
pub fn decode_book<const N: usize, F: Fn(&[u8]) -> Option<u64>>(
    s: &[u8],
    raw: &RawBook<N>,
    decode: &F,
) -> (r: Result<OrderBook<N>, Error>)
    requires
        forall|text: &[u8]| call_requires(*decode, (text,)),
    ensures
        decodes_book(*decode, s@, raw.bid@, raw.ask@, r),
{
    let (bids, bids_whole, Ghost(bid_outs)) = decode_side(s, &raw.bid, decode);
    let (asks, asks_whole, Ghost(ask_outs)) = decode_side(s, &raw.ask, decode);
    let r = if bids_whole && asks_whole {
        OrderBook::parse(&bids, &asks)
    } else {
        Err(Error::Parse)
    };
    assert(assembles(r, bid_outs, ask_outs));
    r
}

} // verus!
