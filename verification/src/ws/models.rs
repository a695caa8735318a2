//! Levels and numbers: as books hold them, and as messages spell them.

use vstd::prelude::*;

verus! {

/// The sign bit of a binary64 value.
pub const SIGN_BIT: u64 = 0x8000_0000_0000_0000;

/// The bits of positive infinity.
pub const INFINITY_BITS: u64 = 0x7ff0_0000_0000_0000;

/// Which half of a book a level belongs to.
#[derive(Copy, Clone, Debug, PartialEq, Eq, Structural)]
pub enum Side {
    Bid,
    Ask,
}

/// One point of an order book.
///
/// Each field holds the 64 bits of an IEEE 754 binary64 number, as
/// `to_bits` gives them. Nothing here requires the numbers to be finite or
/// non-negative.
#[derive(Copy, Clone, Debug, PartialEq, Eq, Structural)]
pub struct PriceLevel {
    pub price: u64,
    pub amount: u64,
}

/// The place of a binary64 value, given by its bits, in the IEEE 754 total
/// order: a greater number has a greater place, negative zero comes just
/// below positive zero, and the places of distinct bit patterns differ.
pub open spec fn place(bits: u64) -> int {
    if bits >= SIGN_BIT {
        u64::MAX - bits
    } else {
        bits + SIGN_BIT
    }
}

/// True when a level priced `a` is strictly better than one priced `b`:
/// the higher price for a bid, the lower price for an ask.
pub open spec fn better(side: Side, a: u64, b: u64) -> bool {
    match side {
        Side::Bid => place(a) > place(b),
        Side::Ask => place(a) < place(b),
    }
}

/// True when no level of `levels` is strictly better than one before it.
pub open spec fn sorted(side: Side, levels: Seq<PriceLevel>) -> bool {
    forall|i: int, j: int|
        0 <= i <= j < levels.len() ==> !better(side, #[trigger] levels[j].price, #[trigger] levels[i].price)
}

/// Distinct bit patterns have distinct places, so a tie in the order is a
/// tie in the bits.
pub proof fn lemma_place_injective(a: u64, b: u64)
    ensures
        place(a) == place(b) <==> a == b,
        0 <= place(a) <= u64::MAX,
{
}

/// The place of `bits` in the total order.
pub fn place_of(bits: u64) -> (r: u64)
    ensures
        r == place(bits),
{
    if bits >= SIGN_BIT {
        u64::MAX - bits
    } else {
        bits + SIGN_BIT
    }
}

/// Decides whether a level priced `a` is strictly better than one priced `b`.
pub fn is_better(side: Side, a: u64, b: u64) -> (r: bool)
    ensures
        r == better(side, a, b),
{
    match side {
        Side::Bid => place_of(a) > place_of(b),
        Side::Ask => place_of(a) < place_of(b),
    }
}

impl PriceLevel {
    /// The level with both numbers positive zero.
    pub open spec fn zero() -> PriceLevel {
        PriceLevel { price: 0, amount: 0 }
    }
}

impl Default for PriceLevel {
    fn default() -> (r: PriceLevel)
        ensures
            r == PriceLevel::zero(),
    {
        PriceLevel { price: 0, amount: 0 }
    }
}

impl From<(u64, u64)> for PriceLevel {
    fn from(t: (u64, u64)) -> (r: PriceLevel) {
        PriceLevel { price: t.0, amount: t.1 }
    }
}

impl vstd::std_specs::convert::FromSpecImpl<(u64, u64)> for PriceLevel {
    open spec fn obeys_from_spec() -> bool {
        true
    }

    open spec fn from_spec(t: (u64, u64)) -> PriceLevel {
        PriceLevel { price: t.0, amount: t.1 }
    }
}

/// A run of bytes of a message: those from `start` up to, not including,
/// `end`.
#[derive(Copy, Clone, Debug, PartialEq, Eq, Structural)]
pub struct Span {
    pub start: usize,
    pub end: usize,
}

/// A numeric field as a message spells it.
#[derive(Copy, Clone, Debug, PartialEq, Eq, Structural)]
pub enum Numeric {
    /// The quoted word `INF`: positive infinity.
    Infinity,
    /// Any other text, quoted or bare: the bytes to decode as a number.
    Decimal(Span),
}

/// A level as a message spells it.
#[derive(Copy, Clone, Debug, PartialEq, Eq, Structural)]
pub struct RawLevel {
    pub price: Numeric,
    pub amount: Numeric,
}

/// The first `N` levels of each side of a message, numbers not yet decoded.
#[derive(Copy, Clone, Debug, PartialEq, Eq)]
pub struct RawBook<const N: usize> {
    pub bid: [RawLevel; N],
    pub ask: [RawLevel; N],
}

impl Span {
    /// True when the span lies inside a message of `len` bytes.
    pub open spec fn fits(self, len: nat) -> bool {
        self.start <= self.end <= len
    }

    /// The bytes of `s` that the span covers.
    pub open spec fn of(self, s: Seq<u8>) -> Seq<u8> {
        s.subrange(self.start as int, self.end as int)
    }

    /// The bytes of `s` that the span covers, if it lies inside `s`.
    pub fn slice<'a>(&self, s: &'a [u8]) -> (r: Option<&'a [u8]>)
        ensures
            r is Some <==> self.fits(s@.len()),
            r matches Some(text) ==> text@ == self.of(s@),
    {
        if self.start <= self.end && self.end <= s.len() {
            Some(vstd::slice::slice_subrange(s, self.start, self.end))
        } else {
            None
        }
    }
}

impl Numeric {
    /// True when the text of the field, if it has one, lies inside a
    /// message of `len` bytes.
    pub open spec fn fits(self, len: nat) -> bool {
        match self {
            Numeric::Infinity => true,
            Numeric::Decimal(span) => span.fits(len),
        }
    }
}

impl RawLevel {
    /// True when both fields lie inside a message of `len` bytes.
    pub open spec fn fits(self, len: nat) -> bool {
        self.price.fits(len) && self.amount.fits(len)
    }
}

} // verus!
