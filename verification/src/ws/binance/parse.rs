//! The messages of Binance.

use crate::ws::book::{message_book, read_message, same_levels};
use crate::orderbook::OrderBook;
use crate::ws::decode::{decode_book, decodes_book};
use crate::ws::error::Error;
use crate::ws::models::RawBook;
use vstd::prelude::*;
use vstd::string::StringSliceAdditionalSpecFns;

verus! {

/// Reads a depth message of Binance: an object whose members `bids` and
/// `asks` are arrays of `[price, amount]` levels, best first. Gives the
/// first ten levels of each side as the message spells them. A side of
/// fewer than ten levels is too shallow; anything else out of shape is a
/// parse error.
pub fn scan_order_book(raw: &str) -> (r: Result<RawBook<10>, Error>)
    ensures
        same_levels(r, message_book(raw.spec_bytes(), 10)),
        r matches Ok(book) ==> book.fits(raw.spec_bytes().len()),
{
    read_message::<10>(raw.as_bytes())
}

/// Turns a depth message of Binance into a book of ten levels a side.
/// The message is read as `scan_order_book` reads it, and each number is
/// decoded by `decode`, which is handed the text of the number and gives
/// the bits of its binary64 value, or nothing for text that is no number.
pub fn parse_order_book<F: Fn(&[u8]) -> Option<u64>>(raw: &str, decode: F) -> (r: Result<
    OrderBook<10>,
    Error,
>)
    requires
        forall|text: &[u8]| call_requires(decode, (text,)),
    ensures
        match message_book(raw.spec_bytes(), 10) {
            Err(e) => r matches Err(x) && x == e,
            Ok((bids, asks)) => decodes_book(decode, raw.spec_bytes(), bids, asks, r),
        },
        r matches Ok(book) ==> book.is_valid(),
{
    match scan_order_book(raw) {
        Ok(book) => decode_book(raw.as_bytes(), &book, &decode),
        Err(e) => Err(e),
    }
}

} // verus!
