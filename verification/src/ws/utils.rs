//! Reading numeric fields, levels and arrays of levels out of a message.

use crate::ws::error::Error;
use crate::ws::json::{
    digits_end, elements_end, fraction_end, is_digit, lemma_digits_end_bounds, number_end,
    scan_number, skip_elements,
    skip_spaces, space_end, starts_with, BACKSLASH, CLOSE_BRACKET, COMMA, DIGIT_0, MAX_DEPTH,
    MINUS, OPEN_BRACKET, PLUS, QUOTE, SPACE, UPPER_F,
};
use crate::ws::models::{Numeric, RawLevel, Span};
use vstd::prelude::*;

verus! {

broadcast use vstd::array::group_array_axioms;

/// The byte `I`.
pub const UPPER_I: u8 = 0x49;

/// The byte `N`.
pub const UPPER_N: u8 = 0x4e;

/// The bytes of `INF`, the word for positive infinity.
pub open spec fn word_inf() -> Seq<u8> {
    seq![UPPER_I, UPPER_N, UPPER_F]
}

/// True for a byte that may stand in the quoted text of a number: any but
/// the quote, the backslash and the bytes below a space.
pub open spec fn is_plain(b: u8) -> bool {
    b != QUOTE && b != BACKSLASH && b >= SPACE
}

/// The first position at or after `i` that holds no plain byte.
pub open spec fn plain_end(s: Seq<u8>, i: int) -> int
    decreases s.len() - i,
{
    if 0 <= i < s.len() && is_plain(s[i]) {
        plain_end(s, i + 1)
    } else {
        i
    }
}

/// The numeric field at `i` and the position after it, if one stands
/// there. A field is a bare number, or plain text between quotes; the
/// quoted word `INF` is infinity, and of any other field the text is kept
/// as it stands, without its quotes.
pub open spec fn field_at(s: Seq<u8>, i: int) -> Option<(Numeric, int)> {
    if 0 <= i < s.len() && s[i] == QUOTE {
        let e = plain_end(s, i + 1);
        if 0 <= e < s.len() && s[e] == QUOTE {
            if s.subrange(i + 1, e) == word_inf() {
                Some((Numeric::Infinity, e + 1))
            } else {
                Some((Numeric::Decimal(Span { start: (i + 1) as usize, end: e as usize }), e + 1))
            }
        } else {
            None
        }
    } else {
        match number_end(s, i) {
            Some(e) => Some((Numeric::Decimal(Span { start: i as usize, end: e as usize }), e)),
            None => None,
        }
    }
}

/// The level at `i` and the position after it, if one stands there: an
/// array of exactly two numeric fields, the price and the amount.
pub open spec fn pair_at(s: Seq<u8>, i: int) -> Option<(RawLevel, int)> {
    if 0 <= i < s.len() && s[i] == OPEN_BRACKET {
        match field_at(s, space_end(s, i + 1)) {
            None => None,
            Some((price, a)) => {
                let c = space_end(s, a);
                if 0 <= c < s.len() && s[c] == COMMA {
                    match field_at(s, space_end(s, c + 1)) {
                        None => None,
                        Some((amount, b)) => {
                            let d = space_end(s, b);
                            if 0 <= d < s.len() && s[d] == CLOSE_BRACKET {
                                Some((RawLevel { price, amount }, d + 1))
                            } else {
                                None
                            }
                        },
                    }
                } else {
                    None
                }
            },
        }
    } else {
        None
    }
}

/// Reads an array from the position `i` of one of its elements on: the
/// next `need` elements must be levels and are added to `taken`, whatever
/// follows them is read as values of any kind and dropped. An array that
/// closes before `need` levels were read is too shallow.
pub open spec fn levels_from(s: Seq<u8>, i: int, need: nat, taken: Seq<RawLevel>) -> Result<
    (Seq<RawLevel>, int),
    Error,
>
    decreases s.len() - i,
{
    if need == 0 {
        match elements_end(s, i, MAX_DEPTH as nat) {
            Some(e) => Ok((taken, e)),
            None => Err(Error::Parse),
        }
    } else {
        match pair_at(s, i) {
            None => Err(Error::Parse),
            Some((level, j)) => {
                let k = space_end(s, j);
                if 0 <= k < s.len() && s[k] == CLOSE_BRACKET {
                    if need == 1 {
                        Ok((taken.push(level), k + 1))
                    } else {
                        Err(Error::InsufficientDepth)
                    }
                } else if 0 <= k < s.len() && s[k] == COMMA {
                    let next = space_end(s, k + 1);
                    if i < next <= s.len() {
                        levels_from(s, next, (need - 1) as nat, taken.push(level))
                    } else {
                        Err(Error::Parse)
                    }
                } else {
                    Err(Error::Parse)
                }
            },
        }
    }
}

/// The first `n` levels of the array that opens at `i`, and the position
/// after the array.
pub open spec fn first_n_at(s: Seq<u8>, i: int, n: nat) -> Result<(Seq<RawLevel>, int), Error> {
    if 0 <= i < s.len() && s[i] == OPEN_BRACKET {
        let j = space_end(s, i + 1);
        if 0 <= j < s.len() && s[j] == CLOSE_BRACKET {
            if n == 0 {
                Ok((Seq::empty(), j + 1))
            } else {
                Err(Error::InsufficientDepth)
            }
        } else {
            levels_from(s, j, n, Seq::empty())
        }
    } else {
        Err(Error::Parse)
    }
}

/// True when `found` holds the levels and the position that `wanted` names,
/// or both hold the same error.
pub open spec fn same_levels<const N: usize>(
    found: Result<([RawLevel; N], usize), Error>,
    wanted: Result<(Seq<RawLevel>, int), Error>,
) -> bool {
    match found {
        Ok((levels, end)) => wanted == Ok::<(Seq<RawLevel>, int), Error>((levels@, end as int)),
        Err(e) => wanted == Err::<(Seq<RawLevel>, int), Error>(e),
    }
}

/// Skips the plain bytes at `i`.
fn skip_plain(s: &[u8], i: usize) -> (r: usize)
    requires
        i <= s@.len(),
    ensures
        r == plain_end(s@, i as int),
        i <= r <= s@.len(),
{
    let mut j = i;
    while j < s.len() && s[j] != QUOTE && s[j] != BACKSLASH && s[j] >= SPACE
        invariant
            i <= j <= s@.len(),
            plain_end(s@, i as int) == plain_end(s@, j as int),
        decreases s@.len() - j,
    {
        j += 1;
    }
    j
}

/// Reads the numeric field at `i`: a bare number or a quoted one, the
/// quoted word `INF` for infinity.
pub fn deserialize(s: &[u8], i: usize) -> (r: Option<(Numeric, usize)>)
    ensures
        match r {
            Some((field, end)) => field_at(s@, i as int) == Some((field, end as int)) && i < end
                <= s@.len() && field.fits(s@.len()),
            None => field_at(s@, i as int) is None,
        },
{
    if i < s.len() && s[i] == QUOTE {
        let e = skip_plain(s, i + 1);
        if e < s.len() && s[e] == QUOTE {
            let word: [u8; 3] = [UPPER_I, UPPER_N, UPPER_F];
            assert(word@ =~= word_inf());
            if e - i == 4 && starts_with(s, i + 1, word.as_slice()) {
                Some((Numeric::Infinity, e + 1))
            } else {
                Some((Numeric::Decimal(Span { start: i + 1, end: e }), e + 1))
            }
        } else {
            None
        }
    } else {
        match scan_number(s, i) {
            Some(e) => Some((Numeric::Decimal(Span { start: i, end: e }), e)),
            None => None,
        }
    }
}

/// Reads the level at `i`: an array of a price and an amount.
pub fn deserialize_level(s: &[u8], i: usize) -> (r: Option<(RawLevel, usize)>)
    ensures
        match r {
            Some((level, end)) => pair_at(s@, i as int) == Some((level, end as int)) && i < end
                <= s@.len() && level.fits(s@.len()),
            None => pair_at(s@, i as int) is None,
        },
{
    if i >= s.len() || s[i] != OPEN_BRACKET {
        return None;
    }
    let p = skip_spaces(s, i + 1);
    let (price, a) = match deserialize(s, p) {
        Some(found) => found,
        None => { return None; },
    };
    let c = skip_spaces(s, a);
    if c >= s.len() || s[c] != COMMA {
        return None;
    }
    let q = skip_spaces(s, c + 1);
    let (amount, b) = match deserialize(s, q) {
        Some(found) => found,
        None => { return None; },
    };
    let d = skip_spaces(s, b);
    if d < s.len() && s[d] == CLOSE_BRACKET {
        Some((RawLevel { price, amount }, d + 1))
    } else {
        None
    }
}

/// Reads the array that opens at `i`: keeps its first `N` elements, which
/// must be levels, and reads and drops the rest. Gives the levels and the
/// position after the array. An array of fewer than `N` elements is
/// refused as too shallow.
pub fn deserialize_first_n<const N: usize>(s: &[u8], i: usize) -> (r: Result<
    ([RawLevel; N], usize),
    Error,
>)
    ensures
        same_levels(r, first_n_at(s@, i as int, N as nat)),
        r matches Ok((levels, end)) ==> i < end <= s@.len() && forall|k: int|
            0 <= k < N ==> (#[trigger] levels@[k]).fits(s@.len()),
{
    if i >= s.len() || s[i] != OPEN_BRACKET {
        return Err(Error::Parse);
    }
    let blank = RawLevel { price: Numeric::Infinity, amount: Numeric::Infinity };
    let mut levels = [blank; N];
    let start = skip_spaces(s, i + 1);
    if start < s.len() && s[start] == CLOSE_BRACKET {
        if N == 0 {
            assert(levels@ =~= Seq::<RawLevel>::empty());
            return Ok((levels, start + 1));
        } else {
            return Err(Error::InsufficientDepth);
        }
    }
    let mut at = start;
    let mut count: usize = 0;
    assert(levels@.take(0) =~= Seq::<RawLevel>::empty());
    while count < N
        invariant
            0 <= count <= N,
            i < start <= at <= s@.len(),
            first_n_at(s@, i as int, N as nat) == levels_from(
                s@,
                start as int,
                N as nat,
                Seq::empty(),
            ),
            levels_from(s@, start as int, N as nat, Seq::empty()) == levels_from(
                s@,
                at as int,
                (N - count) as nat,
                levels@.take(count as int),
            ),
            forall|k: int| 0 <= k < count ==> (#[trigger] levels@[k]).fits(s@.len()),
        decreases N - count,
    {
        let (level, j) = match deserialize_level(s, at) {
            Some(found) => found,
            None => { return Err(Error::Parse); },
        };
        let ghost before = levels@;
        levels[count] = level;
        assert(levels@.take(count + 1) =~= before.take(count as int).push(level));
        let k = skip_spaces(s, j);
        if k < s.len() && s[k] == CLOSE_BRACKET {
            if N - count == 1 {
                assert(levels@.take(count + 1) =~= levels@);
                return Ok((levels, k + 1));
            } else {
                return Err(Error::InsufficientDepth);
            }
        } else if k < s.len() && s[k] == COMMA {
            at = skip_spaces(s, k + 1);
            count += 1;
        } else {
            return Err(Error::Parse);
        }
    }
    assert(levels@.take(count as int) =~= levels@);
    match skip_elements(s, at, MAX_DEPTH) {
        Some(e) => Ok((levels, e)),
        None => Err(Error::Parse),
    }
}

/// `deserialize_first_n` for the depth of ten that the feeds use.
pub fn deserialize_first_10(s: &[u8], i: usize) -> (r: Result<([RawLevel; 10], usize), Error>)
    ensures
        same_levels(r, first_n_at(s@, i as int, 10)),
        r matches Ok((levels, end)) ==> i < end <= s@.len() && forall|k: int|
            0 <= k < 10 ==> (#[trigger] levels@[k]).fits(s@.len()),
{
    deserialize_first_n::<10>(s, i)
}

/// The bytes of `number` between quotes.
pub open spec fn quoted(number: Seq<u8>) -> Seq<u8> {
    seq![QUOTE] + number + seq![QUOTE]
}

/// The digits that `digits_end` passes over are digits.
proof fn lemma_digits(s: Seq<u8>, i: int, k: int)
    requires
        0 <= i <= k < digits_end(s, i),
    ensures
        is_digit(s[k]),
        digits_end(s, i) <= s.len(),
    decreases s.len() - i,
{
    if 0 <= i < s.len() && is_digit(s[i]) {
        if k > i {
            lemma_digits(s, i + 1, k);
        } else {
            lemma_digits_end_bounds(s, i + 1);
        }
    }
}

/// Every byte of a number is plain.
proof fn lemma_number_is_plain(s: Seq<u8>, k: int)
    requires
        number_end(s, 0) matches Some(e) && 0 <= k < e,
    ensures
        is_plain(s[k]),
        s[0] != UPPER_I,
{
    let a: int = if s[0] == MINUS {
        1
    } else {
        0
    };
    let b = if s[a] == DIGIT_0 {
        a + 1
    } else {
        digits_end(s, a)
    };
    lemma_digits_end_bounds(s, a);
    let c = fraction_end(s, b).unwrap();
    if b <= k < c && k > b {
        lemma_digits_end_bounds(s, b + 1);
        lemma_digits(s, b + 1, k);
    }
    if a <= k < b && s[a] != DIGIT_0 {
        lemma_digits(s, a, k);
    }
    if c <= k {
        let j = if c + 1 < s.len() && (s[c + 1] == PLUS || s[c + 1] == MINUS) {
            c + 2
        } else {
            c + 1
        };
        if k >= j {
            lemma_digits(s, j, k);
        }
    }
}

/// `plain_end` passes over a run of plain bytes to the byte that ends it.
proof fn lemma_plain_run(s: Seq<u8>, i: int, j: int)
    requires
        0 <= i <= j < s.len(),
        forall|k: int| i <= k < j ==> is_plain(#[trigger] s[k]),
        !is_plain(s[j]),
    ensures
        plain_end(s, i) == j,
    decreases j - i,
{
    if i < j {
        lemma_plain_run(s, i + 1, j);
    }
}

/// A number is read alike bare and between quotes: either way the field
/// is the text of the number, and so whoever decodes the field is handed
/// the same bytes.
pub proof fn lemma_bare_and_quoted_alike(number: Seq<u8>)
    requires
        number_end(number, 0) == Some(number.len() as int),
        number.len() + 2 <= usize::MAX,
    ensures
        field_at(number, 0) matches Some((Numeric::Decimal(bare), end)) && end == number.len()
            && bare.of(number) == number,
        field_at(quoted(number), 0) matches Some((Numeric::Decimal(inner), end)) && end
            == number.len() + 2 && inner.of(quoted(number)) == number,
{
    let n = number.len() as int;
    let q = quoted(number);
    lemma_number_is_plain(number, 0);
    assert(number.subrange(0, n) =~= number);
    assert forall|k: int| 1 <= k < n + 1 implies is_plain(#[trigger] q[k]) by {
        lemma_number_is_plain(number, k - 1);
        assert(q[k] == number[k - 1]);
    }
    lemma_plain_run(q, 1, n + 1);
    assert(q.subrange(1, n + 1) =~= number);
    assert(number[0] != word_inf()[0]);
}

} // verus!
