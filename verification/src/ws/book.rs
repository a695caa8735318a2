//! Reading a book out of a message: the object with the members `bids`
//! and `asks`.

use crate::ws::error::Error;
use crate::ws::json::{
    scan_string, skip_spaces, skip_value, space_end, string_end, string_is, value_end,
    CLOSE_BRACE, COLON, COMMA, LOWER_A, LOWER_B, LOWER_S, MAX_DEPTH, OPEN_BRACE,
};
use crate::ws::models::{RawBook, RawLevel};
use crate::ws::utils::{deserialize_first_n, first_n_at};
use vstd::prelude::*;

verus! {

/// The byte `d`.
pub const LOWER_D: u8 = 0x64;

/// The byte `i`.
pub const LOWER_I: u8 = 0x69;

/// The byte `k`.
pub const LOWER_K: u8 = 0x6b;

/// The bytes of `bids`, the name of the member that holds the bid levels.
pub open spec fn word_bids() -> Seq<u8> {
    seq![LOWER_B, LOWER_I, LOWER_D, LOWER_S]
}

/// The bytes of `asks`, the name of the member that holds the ask levels.
pub open spec fn word_asks() -> Seq<u8> {
    seq![LOWER_A, LOWER_S, LOWER_K, LOWER_S]
}

/// The two sides of a book as a message spells them, and the position
/// after the book.
pub type Sides = (Seq<RawLevel>, Seq<RawLevel>, int);

/// Reads the members of a book from the name that opens at `i` on. The
/// member `bids` and the member `asks` each give the first `n` levels of a
/// side and may stand once; any other member is read and dropped. `bids`
/// and `asks` hold what the members before `i` gave.
pub open spec fn book_members(
    s: Seq<u8>,
    i: int,
    n: nat,
    bids: Option<Seq<RawLevel>>,
    asks: Option<Seq<RawLevel>>,
) -> Result<Sides, Error>
    decreases s.len() - i, 1nat,
{
    match string_end(s, i) {
        None => Err(Error::Parse),
        Some(j) => {
            let name = s.subrange(i + 1, j - 1);
            let k = space_end(s, j);
            if 0 <= k < s.len() && s[k] == COLON {
                let v = space_end(s, k + 1);
                if name == word_bids() {
                    match (bids, first_n_at(s, v, n)) {
                        (Some(_), _) => Err(Error::Parse),
                        (None, Err(e)) => Err(e),
                        (None, Ok((levels, e))) => book_rest(s, i, e, n, Some(levels), asks),
                    }
                } else if name == word_asks() {
                    match (asks, first_n_at(s, v, n)) {
                        (Some(_), _) => Err(Error::Parse),
                        (None, Err(e)) => Err(e),
                        (None, Ok((levels, e))) => book_rest(s, i, e, n, bids, Some(levels)),
                    }
                } else {
                    match value_end(s, v, MAX_DEPTH as nat) {
                        None => Err(Error::Parse),
                        Some(e) => book_rest(s, i, e, n, bids, asks),
                    }
                }
            } else {
                Err(Error::Parse)
            }
        },
    }
}

/// Reads what follows, at `e`, the member of a book that began at `i`: the
/// closing brace, by which both sides must have been given, or a comma and
/// further members.
pub open spec fn book_rest(
    s: Seq<u8>,
    i: int,
    e: int,
    n: nat,
    bids: Option<Seq<RawLevel>>,
    asks: Option<Seq<RawLevel>>,
) -> Result<Sides, Error>
    decreases s.len() - i, 0nat,
{
    let k = space_end(s, e);
    if 0 <= k < s.len() && s[k] == CLOSE_BRACE {
        match (bids, asks) {
            (Some(b), Some(a)) => Ok((b, a, k + 1)),
            _ => Err(Error::Parse),
        }
    } else if 0 <= k < s.len() && s[k] == COMMA {
        let next = space_end(s, k + 1);
        if i < next <= s.len() {
            book_members(s, next, n, bids, asks)
        } else {
            Err(Error::Parse)
        }
    } else {
        Err(Error::Parse)
    }
}

/// The book that opens at `i`: an object with a member `bids` and a member
/// `asks`, of which the first `n` levels each are kept.
pub open spec fn book_at(s: Seq<u8>, i: int, n: nat) -> Result<Sides, Error> {
    if 0 <= i < s.len() && s[i] == OPEN_BRACE {
        let j = space_end(s, i + 1);
        if 0 <= j < s.len() && s[j] == CLOSE_BRACE {
            Err(Error::Parse)
        } else {
            book_members(s, j, n, None, None)
        }
    } else {
        Err(Error::Parse)
    }
}

/// The levels that a side holds, if it has been read.
pub open spec fn side_view<const N: usize>(side: Option<[RawLevel; N]>) -> Option<Seq<RawLevel>> {
    match side {
        Some(levels) => Some(levels@),
        None => None,
    }
}

/// True when `found` holds the book and the position that `wanted` names,
/// or both hold the same error.
pub open spec fn same_book<const N: usize>(
    found: Result<(RawBook<N>, usize), Error>,
    wanted: Result<Sides, Error>,
) -> bool {
    match found {
        Ok((book, end)) => wanted == Ok::<Sides, Error>((book.bid@, book.ask@, end as int)),
        Err(e) => wanted == Err::<Sides, Error>(e),
    }
}

impl<const N: usize> RawBook<N> {
    /// True when every field of the book lies inside a message of `len`
    /// bytes.
    pub open spec fn fits(self, len: nat) -> bool {
        &&& forall|k: int| 0 <= k < N ==> (#[trigger] self.bid@[k]).fits(len)
        &&& forall|k: int| 0 <= k < N ==> (#[trigger] self.ask@[k]).fits(len)
    }
}

/// Reads the book that opens at `i`. Gives its first `N` bids and asks as
/// the message spells them, and the position after the book.
pub fn read_book<const N: usize>(s: &[u8], i: usize) -> (r: Result<(RawBook<N>, usize), Error>)
    ensures
        same_book(r, book_at(s@, i as int, N as nat)),
        r matches Ok((book, end)) ==> i < end <= s@.len() && book.fits(s@.len()),
{
    if i >= s.len() || s[i] != OPEN_BRACE {
        return Err(Error::Parse);
    }
    let start = skip_spaces(s, i + 1);
    if start < s.len() && s[start] == CLOSE_BRACE {
        return Err(Error::Parse);
    }
    let name_bids: [u8; 4] = [LOWER_B, LOWER_I, LOWER_D, LOWER_S];
    let name_asks: [u8; 4] = [LOWER_A, LOWER_S, LOWER_K, LOWER_S];
    assert(name_bids@ =~= word_bids());
    assert(name_asks@ =~= word_asks());
    let mut bids: Option<[RawLevel; N]> = None;
    let mut asks: Option<[RawLevel; N]> = None;
    let mut at = start;
    loop
        invariant
            i < start <= at <= s@.len(),
            name_bids@ == word_bids(),
            name_asks@ == word_asks(),
            book_at(s@, i as int, N as nat) == book_members(
                s@,
                at as int,
                N as nat,
                side_view(bids),
                side_view(asks),
            ),
            bids matches Some(levels) ==> forall|k: int|
                0 <= k < N ==> (#[trigger] levels@[k]).fits(s@.len()),
            asks matches Some(levels) ==> forall|k: int|
                0 <= k < N ==> (#[trigger] levels@[k]).fits(s@.len()),
        decreases s@.len() - at,
    {
        let j = match scan_string(s, at) {
            Some(j) => j,
            None => { return Err(Error::Parse); },
        };
        let k = skip_spaces(s, j);
        if k >= s.len() || s[k] != COLON {
            return Err(Error::Parse);
        }
        let v = skip_spaces(s, k + 1);
        let is_bids = string_is(s, at, j, name_bids.as_slice());
        let is_asks = string_is(s, at, j, name_asks.as_slice());
        let e = if is_bids {
            if bids.is_some() {
                return Err(Error::Parse);
            }
            match deserialize_first_n::<N>(s, v) {
                Ok((levels, e)) => {
                    bids = Some(levels);
                    e
                },
                Err(err) => { return Err(err); },
            }
        } else if is_asks {
            if asks.is_some() {
                return Err(Error::Parse);
            }
            match deserialize_first_n::<N>(s, v) {
                Ok((levels, e)) => {
                    asks = Some(levels);
                    e
                },
                Err(err) => { return Err(err); },
            }
        } else {
            match skip_value(s, v, MAX_DEPTH) {
                Some(e) => e,
                None => { return Err(Error::Parse); },
            }
        };
        let t = skip_spaces(s, e);
        if t < s.len() && s[t] == CLOSE_BRACE {
            return match (bids, asks) {
                (Some(bid), Some(ask)) => Ok((RawBook { bid, ask }, t + 1)),
                _ => Err(Error::Parse),
            };
        } else if t < s.len() && s[t] == COMMA {
            at = skip_spaces(s, t + 1);
        } else {
            return Err(Error::Parse);
        }
    }
}

/// The two sides of a book as a message spells them.
pub type Levels = (Seq<RawLevel>, Seq<RawLevel>);

/// The book that a whole message holds: spaces at will, the book, spaces
/// at will and nothing more.
pub open spec fn message_book(s: Seq<u8>, n: nat) -> Result<Levels, Error> {
    match book_at(s, space_end(s, 0), n) {
        Err(e) => Err(e),
        Ok((bids, asks, end)) => {
            if space_end(s, end) == s.len() {
                Ok((bids, asks))
            } else {
                Err(Error::Parse)
            }
        },
    }
}

/// True when `found` holds the book that `wanted` names, or both hold the
/// same error.
pub open spec fn same_levels<const N: usize>(
    found: Result<RawBook<N>, Error>,
    wanted: Result<Levels, Error>,
) -> bool {
    match found {
        Ok(book) => wanted == Ok::<Levels, Error>((book.bid@, book.ask@)),
        Err(e) => wanted == Err::<Levels, Error>(e),
    }
}

/// Reads a message that holds a book and nothing else.
pub fn read_message<const N: usize>(s: &[u8]) -> (r: Result<RawBook<N>, Error>)
    ensures
        same_levels(r, message_book(s@, N as nat)),
        r matches Ok(book) ==> book.fits(s@.len()),
{
    let i = skip_spaces(s, 0);
    match read_book::<N>(s, i) {
        Ok((book, end)) => {
            if skip_spaces(s, end) == s.len() {
                Ok(book)
            } else {
                Err(Error::Parse)
            }
        },
        Err(e) => Err(e),
    }
}

} // verus!
