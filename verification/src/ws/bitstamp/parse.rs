//! The messages of Bitstamp.

use crate::orderbook::OrderBook;
use crate::ws::book::{book_at, read_book, Levels, LOWER_D};
use crate::ws::decode::{decode_book, decodes_book};
use crate::ws::error::Error;
use crate::ws::json::{
    scan_string, skip_spaces, skip_value, space_end, string_end, string_is, value_end,
    CLOSE_BRACE, COLON, COMMA, LOWER_A, LOWER_E, LOWER_N, LOWER_T, MAX_DEPTH, OPEN_BRACE,
};
use crate::ws::models::{RawBook, Span};
use vstd::prelude::*;
use vstd::string::StringSliceAdditionalSpecFns;

verus! {

/// The byte `v`.
pub const LOWER_V: u8 = 0x76;

/// The bytes of `event`, the name of the member that says what a message
/// is.
pub open spec fn word_event() -> Seq<u8> {
    seq![LOWER_E, LOWER_V, LOWER_E, LOWER_N, LOWER_T]
}

/// The bytes of `data`: the name of the member that holds the payload, and
/// the event that announces a book.
pub open spec fn word_data() -> Seq<u8> {
    seq![LOWER_D, LOWER_A, LOWER_T, LOWER_A]
}

/// What an envelope holds: the text of its event, its payload if it has
/// one, and the position after the envelope.
pub type Envelope = (Span, Option<Span>, int);

/// Reads the members of an envelope from the name that opens at `i` on.
/// The member `event` must be a string and the member `data` a value; each
/// may stand once. Any other member is read and dropped. `event` and
/// `data` hold what the members before `i` gave.
pub open spec fn envelope_members(
    s: Seq<u8>,
    i: int,
    event: Option<Span>,
    data: Option<Span>,
) -> Result<Envelope, Error>
    decreases s.len() - i, 1nat,
{
    match string_end(s, i) {
        None => Err(Error::Parse),
        Some(j) => {
            let name = s.subrange(i + 1, j - 1);
            let k = space_end(s, j);
            if 0 <= k < s.len() && s[k] == COLON {
                let v = space_end(s, k + 1);
                if name == word_event() {
                    match (event, string_end(s, v)) {
                        (Some(_), _) => Err(Error::Parse),
                        (None, None) => Err(Error::Parse),
                        (None, Some(e)) => envelope_rest(
                            s,
                            i,
                            e,
                            Some(Span { start: (v + 1) as usize, end: (e - 1) as usize }),
                            data,
                        ),
                    }
                } else if name == word_data() {
                    match (data, value_end(s, v, MAX_DEPTH as nat)) {
                        (Some(_), _) => Err(Error::Parse),
                        (None, None) => Err(Error::Parse),
                        (None, Some(e)) => envelope_rest(
                            s,
                            i,
                            e,
                            event,
                            Some(Span { start: v as usize, end: e as usize }),
                        ),
                    }
                } else {
                    match value_end(s, v, MAX_DEPTH as nat) {
                        None => Err(Error::Parse),
                        Some(e) => envelope_rest(s, i, e, event, data),
                    }
                }
            } else {
                Err(Error::Parse)
            }
        },
    }
}

/// Reads what follows, at `e`, the member of an envelope that began at
/// `i`: the closing brace, by which the event must have been given, or a
/// comma and further members.
pub open spec fn envelope_rest(
    s: Seq<u8>,
    i: int,
    e: int,
    event: Option<Span>,
    data: Option<Span>,
) -> Result<Envelope, Error>
    decreases s.len() - i, 0nat,
{
    let k = space_end(s, e);
    if 0 <= k < s.len() && s[k] == CLOSE_BRACE {
        match event {
            Some(name) => Ok((name, data, k + 1)),
            None => Err(Error::Parse),
        }
    } else if 0 <= k < s.len() && s[k] == COMMA {
        let next = space_end(s, k + 1);
        if i < next <= s.len() {
            envelope_members(s, next, event, data)
        } else {
            Err(Error::Parse)
        }
    } else {
        Err(Error::Parse)
    }
}

/// The envelope that opens at `i`.
pub open spec fn envelope_at(s: Seq<u8>, i: int) -> Result<Envelope, Error> {
    if 0 <= i < s.len() && s[i] == OPEN_BRACE {
        let j = space_end(s, i + 1);
        if 0 <= j < s.len() && s[j] == CLOSE_BRACE {
            Err(Error::Parse)
        } else {
            envelope_members(s, j, None, None)
        }
    } else {
        Err(Error::Parse)
    }
}

/// What a whole message of Bitstamp holds. The message is one envelope,
/// with spaces at will around it. If its event is `data`, its payload is a
/// book, of which the first `n` levels of each side are kept; with any
/// other event the message holds no book, whatever its payload.
pub open spec fn message_book(s: Seq<u8>, n: nat) -> Result<Option<Levels>, Error> {
    match envelope_at(s, space_end(s, 0)) {
        Err(e) => Err(e),
        Ok((event, data, end)) => {
            if space_end(s, end) != s.len() {
                Err(Error::Parse)
            } else if event.of(s) != word_data() {
                Ok(None)
            } else {
                match data {
                    None => Err(Error::Parse),
                    Some(payload) => match book_at(s, payload.start as int, n) {
                        Err(e) => Err(e),
                        Ok((bids, asks, e)) => {
                            if e == payload.end {
                                Ok(Some((bids, asks)))
                            } else {
                                Err(Error::Parse)
                            }
                        },
                    },
                }
            }
        },
    }
}

/// A message whose event is not `data` holds no book and is no error,
/// whatever its payload: all it takes is a well-formed envelope with an
/// event, and nothing after it.
pub proof fn lemma_other_events_hold_no_book(s: Seq<u8>, n: nat)
    requires
        envelope_at(s, space_end(s, 0)) matches Ok((event, _, end)) && event.of(s) != word_data()
            && space_end(s, end) == s.len(),
    ensures
        message_book(s, n) == Ok::<Option<Levels>, Error>(None),
{
}

/// True when `found` holds what `wanted` names: the same book, no book, or
/// the same error.
pub open spec fn same_outcome<const N: usize>(
    found: Result<Option<RawBook<N>>, Error>,
    wanted: Result<Option<Levels>, Error>,
) -> bool {
    match found {
        Ok(Some(book)) => wanted == Ok::<Option<Levels>, Error>(Some((book.bid@, book.ask@))),
        Ok(None) => wanted == Ok::<Option<Levels>, Error>(None),
        Err(e) => wanted == Err::<Option<Levels>, Error>(e),
    }
}

/// Reads the envelope that opens at `i`.
fn read_envelope(s: &[u8], i: usize) -> (r: Result<(Span, Option<Span>, usize), Error>)
    ensures
        match r {
            Ok((event, data, end)) => envelope_at(s@, i as int) == Ok::<Envelope, Error>(
                (event, data, end as int),
            ) && i < end <= s@.len() && event.fits(s@.len()) && (data matches Some(payload)
                ==> payload.fits(s@.len())),
            Err(e) => envelope_at(s@, i as int) == Err::<Envelope, Error>(e),
        },
{
    if i >= s.len() || s[i] != OPEN_BRACE {
        return Err(Error::Parse);
    }
    let start = skip_spaces(s, i + 1);
    if start < s.len() && s[start] == CLOSE_BRACE {
        return Err(Error::Parse);
    }
    let name_event: [u8; 5] = [LOWER_E, LOWER_V, LOWER_E, LOWER_N, LOWER_T];
    let name_data: [u8; 4] = [LOWER_D, LOWER_A, LOWER_T, LOWER_A];
    assert(name_event@ =~= word_event());
    assert(name_data@ =~= word_data());
    let mut event: Option<Span> = None;
    let mut data: Option<Span> = None;
    let mut at = start;
    loop
        invariant
            i < start <= at <= s@.len(),
            name_event@ == word_event(),
            name_data@ == word_data(),
            envelope_at(s@, i as int) == envelope_members(s@, at as int, event, data),
            event matches Some(name) ==> name.fits(s@.len()),
            data matches Some(payload) ==> payload.fits(s@.len()),
        decreases s@.len() - at,
    {
        let j = match scan_string(s, at) {
            Some(j) => j,
            None => { return Err(Error::Parse); },
        };
        let k = skip_spaces(s, j);
        if k >= s.len() || s[k] != COLON {
            return Err(Error::Parse);
        }
        let v = skip_spaces(s, k + 1);
        let e = if string_is(s, at, j, name_event.as_slice()) {
            if event.is_some() {
                return Err(Error::Parse);
            }
            match scan_string(s, v) {
                Some(e) => {
                    event = Some(Span { start: v + 1, end: e - 1 });
                    e
                },
                None => { return Err(Error::Parse); },
            }
        } else if string_is(s, at, j, name_data.as_slice()) {
            if data.is_some() {
                return Err(Error::Parse);
            }
            match skip_value(s, v, MAX_DEPTH) {
                Some(e) => {
                    data = Some(Span { start: v, end: e });
                    e
                },
                None => { return Err(Error::Parse); },
            }
        } else {
            match skip_value(s, v, MAX_DEPTH) {
                Some(e) => e,
                None => { return Err(Error::Parse); },
            }
        };
        let t = skip_spaces(s, e);
        if t < s.len() && s[t] == CLOSE_BRACE {
            return match event {
                Some(name) => Ok((name, data, t + 1)),
                None => Err(Error::Parse),
            };
        } else if t < s.len() && s[t] == COMMA {
            at = skip_spaces(s, t + 1);
        } else {
            return Err(Error::Parse);
        }
    }
}

/// Reads a message of Bitstamp.
pub fn read_message<const N: usize>(s: &[u8]) -> (r: Result<Option<RawBook<N>>, Error>)
    ensures
        same_outcome(r, message_book(s@, N as nat)),
        r matches Ok(Some(book)) ==> book.fits(s@.len()),
{
    let i = skip_spaces(s, 0);
    let (event, data, end) = match read_envelope(s, i) {
        Ok(found) => found,
        Err(e) => { return Err(e); },
    };
    if skip_spaces(s, end) != s.len() {
        return Err(Error::Parse);
    }
    let name_data: [u8; 4] = [LOWER_D, LOWER_A, LOWER_T, LOWER_A];
    assert(name_data@ =~= word_data());
    let announced = match event.slice(s) {
        Some(text) => slices_equal(text, name_data.as_slice()),
        None => false,
    };
    if !announced {
        return Ok(None);
    }
    let payload = match data {
        Some(payload) => payload,
        None => { return Err(Error::Parse); },
    };
    match read_book::<N>(s, payload.start) {
        Ok((book, e)) => {
            if e == payload.end {
                Ok(Some(book))
            } else {
                Err(Error::Parse)
            }
        },
        Err(e) => Err(e),
    }
}

/// Decides whether two runs of bytes are the same.
fn slices_equal(a: &[u8], b: &[u8]) -> (r: bool)
    ensures
        r == (a@ == b@),
{
    if a.len() != b.len() {
        return false;
    }
    let mut k: usize = 0;
    while k < a.len()
        invariant
            0 <= k <= a@.len(),
            a@.len() == b@.len(),
            forall|t: int| 0 <= t < k ==> a@[t] == b@[t],
        decreases a@.len() - k,
    {
        if a[k] != b[k] {
            return false;
        }
        k += 1;
    }
    assert(a@ =~= b@);
    true
}

/// Reads a message of Bitstamp: an envelope with an `event` and, most
/// often, a payload under `data`. Only the event `data` announces a book;
/// the first ten levels of each of its sides are given as the message
/// spells them. A message with any other event is in order and holds no
/// book.
pub fn scan_order_book(raw: &str) -> (r: Result<Option<RawBook<10>>, Error>)
    ensures
        same_outcome(r, message_book(raw.spec_bytes(), 10)),
        r matches Ok(Some(book)) ==> book.fits(raw.spec_bytes().len()),
{
    read_message::<10>(raw.as_bytes())
}

/// Turns a message of Bitstamp into a book of ten levels a side, if it
/// announces one. The message is read as `scan_order_book` reads it, and
/// each number is decoded by `decode`, which is handed the text of the
/// number and gives the bits of its binary64 value, or nothing for text
/// that is no number.
pub fn parse_order_book<F: Fn(&[u8]) -> Option<u64>>(raw: &str, decode: F) -> (r: Result<
    Option<OrderBook<10>>,
    Error,
>)
    requires
        forall|text: &[u8]| call_requires(decode, (text,)),
    ensures
        match message_book(raw.spec_bytes(), 10) {
            Err(e) => r matches Err(x) && x == e,
            Ok(None) => r matches Ok(None),
            Ok(Some((bids, asks))) => match r {
                Ok(Some(book)) => decodes_book(decode, raw.spec_bytes(), bids, asks, Ok(book)),
                Ok(None) => false,
                Err(e) => decodes_book::<10, F>(decode, raw.spec_bytes(), bids, asks, Err(e)),
            },
        },
        r matches Ok(Some(book)) ==> book.is_valid(),
{
    match scan_order_book(raw) {
        Ok(Some(book)) => match decode_book(raw.as_bytes(), &book, &decode) {
            Ok(book) => Ok(Some(book)),
            Err(e) => Err(e),
        },
        Ok(None) => Ok(None),
        Err(e) => Err(e),
    }
}

} // verus!
