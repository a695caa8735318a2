//! Books of fixed depth, and the engine that merges the latest book of
//! every source.

use crate::exchange::ExchangeId;
use crate::merge::{
    heads_after, leader, lemma_before_total, lemma_heads_bounds, lemma_pick_in_rows,
    lemma_picks_are_best, lemma_picks_ordered, lemma_tie_goes_to_earlier_source, level_at,
    mergeable, pick, Pick,
};
use crate::ws::error::Error;
use crate::ws::models::{better, is_better, sorted, PriceLevel, Side};
use vstd::prelude::*;

verus! {

broadcast use vstd::array::group_array_axioms;

/// The level that a decoded `[price, amount]` pair stands for.
pub open spec fn level_of(pair: [u64; 2]) -> PriceLevel {
    PriceLevel { price: pair[0], amount: pair[1] }
}

/// The levels that a run of decoded pairs stands for.
pub open spec fn levels_of(pairs: Seq<[u64; 2]>) -> Seq<PriceLevel> {
    Seq::new(pairs.len(), |i: int| level_of(pairs[i]))
}

/// A book of fixed depth `N`: the best `N` bids, best first, and the best
/// `N` asks, best first.
///
/// Every book is sorted: bid prices never rise and ask prices never fall
/// from one level to the next.
#[derive(Copy, Clone, Debug, PartialEq, Eq)]
pub struct OrderBook<const N: usize> {
    bid: [PriceLevel; N],
    ask: [PriceLevel; N],
}

/// For each level of a merged book, the exchange that reported it.
#[derive(Copy, Clone, Debug, PartialEq, Eq)]
pub struct Sources<const N: usize> {
    pub bid: [ExchangeId; N],
    pub ask: [ExchangeId; N],
}

impl<const N: usize> OrderBook<N> {
    /// The bid levels, best first.
    pub closed spec fn bids(&self) -> Seq<PriceLevel> {
        self.bid@
    }

    /// The ask levels, best first.
    pub closed spec fn asks(&self) -> Seq<PriceLevel> {
        self.ask@
    }

    /// The levels of one side, best first.
    pub open spec fn side(&self, side: Side) -> Seq<PriceLevel> {
        match side {
            Side::Bid => self.bids(),
            Side::Ask => self.asks(),
        }
    }

    /// The order that every book keeps.
    pub open spec fn is_valid(&self) -> bool {
        &&& self.bids().len() == N
        &&& self.asks().len() == N
        &&& sorted(Side::Bid, self.bids())
        &&& sorted(Side::Ask, self.asks())
    }

    #[verifier::type_invariant]
    spec fn well_ordered(&self) -> bool {
        self.is_valid()
    }

    /// The bid levels, best first.
    pub fn bid(&self) -> (r: &[PriceLevel; N])
        ensures
            r@ == self.bids(),
            self.is_valid(),
    {
        proof {
            use_type_invariant(self);
        }
        &self.bid
    }

    /// The ask levels, best first.
    pub fn ask(&self) -> (r: &[PriceLevel; N])
        ensures
            r@ == self.asks(),
            self.is_valid(),
    {
        proof {
            use_type_invariant(self);
        }
        &self.ask
    }

    /// Builds a book from decoded `[price, amount]` pairs, bids and asks
    /// each best first. Pairs out of order are refused.
    pub fn parse(bids: &[[u64; 2]; N], asks: &[[u64; 2]; N]) -> (r: Result<OrderBook<N>, Error>)
        ensures
            r is Ok <==> sorted(Side::Bid, levels_of(bids@)) && sorted(Side::Ask, levels_of(asks@)),
            r matches Ok(book) ==> book.is_valid() && book.bids() == levels_of(bids@)
                && book.asks() == levels_of(asks@),
            r matches Err(e) ==> e == Error::Parse,
    {
        let bid = match collect_side(Side::Bid, bids) {
            Some(levels) => levels,
            None => { return Err(Error::Parse); },
        };
        let ask = match collect_side(Side::Ask, asks) {
            Some(levels) => levels,
            None => { return Err(Error::Parse); },
        };
        Ok(OrderBook { bid, ask })
    }
}

/// Turns decoded pairs into the levels of one side, if they are in order.
fn collect_side<const N: usize>(side: Side, pairs: &[[u64; 2]; N]) -> (r: Option<[PriceLevel; N]>)
    ensures
        r is Some <==> sorted(side, levels_of(pairs@)),
        r matches Some(levels) ==> levels@ == levels_of(pairs@),
{
    let mut levels = [PriceLevel { price: 0, amount: 0 }; N];
    let ghost want = levels_of(pairs@);
    let mut i: usize = 0;
    while i < N
        invariant
            0 <= i <= N,
            want == levels_of(pairs@),
            want.len() == N,
            forall|k: int| 0 <= k < i ==> levels@[k] == want[k],
            forall|a: int, b: int|
                0 <= a <= b < i ==> !better(side, #[trigger] want[b].price, #[trigger] want[a].price),
        decreases N - i,
    {
        let pair = pairs[i];
        let level = PriceLevel { price: pair[0], amount: pair[1] };
        assert(level == want[i as int]);
        if i > 0 && is_better(side, level.price, levels[i - 1].price) {
            assert(!sorted(side, want)) by {
                assert(better(side, want[i as int].price, want[i - 1].price));
            }
            return None;
        }
        proof {
            assert forall|a: int, b: int| 0 <= a <= b < i + 1 implies !better(
                side,
                #[trigger] want[b].price,
                #[trigger] want[a].price,
            ) by {
                if b == i && a < i {
                    assert(!better(side, want[i - 1].price, want[a].price));
                }
            }
        }
        levels[i] = level;
        i += 1;
    }
    assert(levels@ =~= want);
    Some(levels)
}

impl<const N: usize> OrderBook<N> {
    /// True for the book whose every level is zero.
    pub open spec fn is_zero(&self) -> bool {
        &&& self.bids() == Seq::new(N as nat, |i: int| PriceLevel::zero())
        &&& self.asks() == Seq::new(N as nat, |i: int| PriceLevel::zero())
    }

    /// Level `index` of one side.
    fn level(&self, side: Side, index: usize) -> (r: PriceLevel)
        requires
            index < N,
        ensures
            r == self.side(side)[index as int],
    {
        match side {
            Side::Bid => self.bid[index],
            Side::Ask => self.ask[index],
        }
    }
}

impl<const N: usize> Default for OrderBook<N> {
    /// The book whose every level is zero.
    fn default() -> (r: OrderBook<N>)
        ensures
            r.is_zero(),
            r.is_valid(),
    {
        let zero = PriceLevel { price: 0, amount: 0 };
        let levels = [zero; N];
        assert(levels@ =~= Seq::new(N as nat, |i: int| PriceLevel::zero())) by {
            vstd::array::axiom_spec_array_fill_for_copy_type::<PriceLevel, N>(zero);
        }
        OrderBook { bid: levels, ask: levels }
    }
}

/// The merge engine: the latest book of each source, and the best levels
/// over all of them.
pub struct Aggregator<const N: usize> {
    ids: Vec<ExchangeId>,
    books: Vec<OrderBook<N>>,
}

/// Head counters as the merge order reads them.
spec fn as_ints(heads: Seq<usize>) -> Seq<int> {
    Seq::new(heads.len(), |s: int| heads[s] as int)
}

impl<const N: usize> Aggregator<N> {
    /// The sources, in the order in which ties are settled.
    pub closed spec fn sources(&self) -> Seq<ExchangeId> {
        self.ids@
    }

    /// The latest book of each source.
    pub closed spec fn snapshots(&self) -> Seq<OrderBook<N>> {
        self.books@
    }

    /// The shape of every engine: it has at least one source, a book for
    /// each, and no source named `Aggregate`.
    pub open spec fn has_shape(&self) -> bool {
        &&& self.sources().len() >= 1
        &&& self.snapshots().len() == self.sources().len()
        &&& forall|s: int| 0 <= s < self.sources().len() ==> (#[trigger] self.sources()[s]).is_source()
    }

    /// What holds of every engine: its shape, and every book in order.
    pub open spec fn is_valid(&self) -> bool {
        &&& self.has_shape()
        &&& forall|s: int|
            0 <= s < self.snapshots().len() ==> (#[trigger] self.snapshots()[s]).is_valid()
    }

    #[verifier::type_invariant]
    spec fn well_formed(&self) -> bool {
        self.has_shape()
    }

    /// One side of every snapshot, by source.
    pub open spec fn rows(&self, side: Side) -> Seq<Seq<PriceLevel>> {
        Seq::new(self.snapshots().len(), |s: int| self.snapshots()[s].side(side))
    }

    /// The best `N` levels of one side over all sources, best first, ties
    /// in the order of the sources.
    pub open spec fn merged(&self, side: Side) -> Seq<PriceLevel> {
        Seq::new(
            N as nat,
            |i: int| level_at(self.rows(side), pick(side, self.rows(side), i as nat)),
        )
    }

    /// The source of each level of `merged`.
    pub open spec fn merged_sources(&self, side: Side) -> Seq<ExchangeId> {
        Seq::new(N as nat, |i: int| self.sources()[pick(side, self.rows(side), i as nat).source])
    }

    /// The rows of a valid engine can be merged.
    pub proof fn lemma_rows_mergeable(&self, side: Side)
        requires
            self.is_valid(),
        ensures
            mergeable(side, self.rows(side), N as nat),
    {
        let rows = self.rows(side);
        assert forall|s: int| 0 <= s < rows.len() implies (#[trigger] rows[s]).len() == N && sorted(
            side,
            rows[s],
        ) by {
            assert(self.snapshots()[s].is_valid());
        }
    }

    /// The merged levels of a valid engine are in order.
    pub proof fn lemma_merged_sorted(&self, side: Side)
        requires
            self.is_valid(),
        ensures
            sorted(side, self.merged(side)),
    {
        let rows = self.rows(side);
        let merged = self.merged(side);
        self.lemma_rows_mergeable(side);
        assert forall|i: int, j: int| 0 <= i <= j < merged.len() implies !better(
            side,
            #[trigger] merged[j].price,
            #[trigger] merged[i].price,
        ) by {
            if i < j {
                lemma_picks_ordered(side, rows, N as nat, i as nat, j as nat);
                lemma_before_total(
                    side,
                    rows,
                    pick(side, rows, i as nat),
                    pick(side, rows, j as nat),
                );
            }
        }
    }

    /// Every merged level is reported: it stands in the latest book of the
    /// source that the merge names for it, and that source is an exchange.
    pub proof fn lemma_merged_level_is_reported(&self, side: Side, i: int)
        requires
            self.is_valid(),
            0 <= i < N,
        ensures
            exists|s: int, j: int|
                0 <= s < self.sources().len() && 0 <= j < N && self.merged(side)[i]
                    == #[trigger] self.snapshots()[s].side(side)[j] && self.merged_sources(side)[i]
                    == self.sources()[s],
            self.merged_sources(side)[i].is_source(),
    {
        let rows = self.rows(side);
        let p = pick(side, rows, i as nat);
        self.lemma_rows_mergeable(side);
        lemma_pick_in_rows(side, rows, N as nat, i as nat);
        assert(self.merged(side)[i] == self.snapshots()[p.source].side(side)[p.level]);
        assert(self.sources()[p.source].is_source());
    }

    /// The merge takes the best: a reported level is strictly better than
    /// the merged level at `i` only if it stands in the merge before `i`.
    pub proof fn lemma_merged_levels_are_best(&self, side: Side, i: int, s: int, j: int)
        requires
            self.is_valid(),
            0 <= i < N,
            0 <= s < self.sources().len(),
            0 <= j < N,
            better(side, self.snapshots()[s].side(side)[j].price, self.merged(side)[i].price),
        ensures
            exists|k: nat| k < i && pick(side, self.rows(side), k) == (Pick { source: s, level: j }),
    {
        let rows = self.rows(side);
        let c = Pick { source: s, level: j };
        self.lemma_rows_mergeable(side);
        lemma_before_total(side, rows, pick(side, rows, i as nat), c);
        if forall|k: nat| k < i + 1 ==> pick(side, rows, k) != c {
            lemma_picks_are_best(side, rows, N as nat, (i + 1) as nat, i as nat, c);
        } else {
            let k = choose|k: nat| k < i + 1 && pick(side, rows, k) == c;
            assert(k < i);
        }
    }

    /// Ties go to the earlier source: when a source reports a level at the
    /// very price of the merged level at `i`, and that merged level is of
    /// a later source, the level of the earlier source stands in the merge
    /// before `i`.
    pub proof fn lemma_ties_go_to_the_earlier_source(&self, side: Side, i: int, s: int, j: int)
        requires
            self.is_valid(),
            0 <= i < N,
            0 <= s < pick(side, self.rows(side), i as nat).source,
            0 <= j < N,
            self.snapshots()[s].side(side)[j].price == self.merged(side)[i].price,
        ensures
            exists|k: nat| k < i && pick(side, self.rows(side), k) == (Pick { source: s, level: j }),
    {
        let rows = self.rows(side);
        self.lemma_rows_mergeable(side);
        lemma_pick_in_rows(side, rows, N as nat, i as nat);
        lemma_tie_goes_to_earlier_source(
            side,
            rows,
            N as nat,
            i as nat,
            Pick { source: s, level: j },
        );
    }

    /// The merge depends on nothing but the sources and their latest
    /// books: engines that agree on these agree on every merged level and
    /// on the source of each.
    pub proof fn lemma_same_books_same_merge(&self, other: &Aggregator<N>, side: Side)
        requires
            self.sources() == other.sources(),
            self.snapshots() == other.snapshots(),
        ensures
            self.merged(side) == other.merged(side),
            self.merged_sources(side) == other.merged_sources(side),
    {
        assert(self.rows(side) =~= other.rows(side));
    }

    /// An engine for the given sources, each with the zero book. There is
    /// none for an empty list, nor for one that names `Aggregate`.
    pub fn new(ids: Vec<ExchangeId>) -> (r: Option<Aggregator<N>>)
        ensures
            r is Some <==> ids@.len() >= 1 && forall|s: int|
                0 <= s < ids@.len() ==> (#[trigger] ids@[s]).is_source(),
            r matches Some(engine) ==> {
                &&& engine.is_valid()
                &&& engine.sources() == ids@
                &&& forall|s: int|
                    0 <= s < ids@.len() ==> (#[trigger] engine.snapshots()[s]).is_zero()
            },
    {
        let count = ids.len();
        if count == 0 {
            return None;
        }
        let mut books: Vec<OrderBook<N>> = Vec::new();
        let mut s: usize = 0;
        while s < count
            invariant
                0 <= s <= count,
                count == ids@.len(),
                books@.len() == s,
                forall|t: int| 0 <= t < s ==> (#[trigger] ids@[t]).is_source(),
                forall|t: int| 0 <= t < s ==> (#[trigger] books@[t]).is_zero(),
                forall|t: int| 0 <= t < s ==> (#[trigger] books@[t]).is_valid(),
            decreases count - s,
        {
            if ids[s] == ExchangeId::Aggregate {
                return None;
            }
            books.push(OrderBook::default());
            s += 1;
        }
        Some(Aggregator { ids, books })
    }

    /// The number of sources.
    pub fn len(&self) -> (r: usize)
        ensures
            r == self.sources().len(),
            r >= 1,
            self.has_shape(),
    {
        proof {
            use_type_invariant(self);
        }
        self.ids.len()
    }

    /// Replaces the latest book of one source.
    pub fn update(&mut self, source_index: usize, book: OrderBook<N>)
        requires
            source_index < old(self).sources().len(),
        ensures
            final(self).has_shape(),
            final(self).sources() == old(self).sources(),
            final(self).snapshots() == old(self).snapshots().update(source_index as int, book),
            book.is_valid(),
            old(self).is_valid() ==> final(self).is_valid(),
    {
        proof {
            use_type_invariant(&*self);
            use_type_invariant(&book);
        }
        self.books[source_index] = book;
    }

    /// Learns from the books at hand that each of them is in order.
    fn inspect(&self)
        ensures
            self.is_valid(),
    {
        proof {
            use_type_invariant(self);
        }
        let count = self.books.len();
        let mut s: usize = 0;
        while s < count
            invariant
                0 <= s <= count,
                count == self.books@.len(),
                self.books@ == self.snapshots(),
                forall|t: int| 0 <= t < s ==> (#[trigger] self.snapshots()[t]).is_valid(),
            decreases count - s,
        {
            let book = &self.books[s];
            proof {
                use_type_invariant(book);
            }
            s += 1;
        }
    }

    /// Takes in the book that one source has sent: replaces the latest
    /// book of that source, then merges anew.
    pub fn apply(&mut self, source_index: usize, book: OrderBook<N>) -> (r: (
        OrderBook<N>,
        Sources<N>,
    ))
        requires
            source_index < old(self).sources().len(),
        ensures
            final(self).is_valid(),
            final(self).sources() == old(self).sources(),
            final(self).snapshots() == old(self).snapshots().update(source_index as int, book),
            r.0.is_valid(),
            r.0.bids() == final(self).merged(Side::Bid),
            r.0.asks() == final(self).merged(Side::Ask),
            r.1.bid@ == final(self).merged_sources(Side::Bid),
            r.1.ask@ == final(self).merged_sources(Side::Ask),
    {
        self.update(source_index, book);
        self.aggregate()
    }

    /// The best `N` levels of one side, and the source of each.
    fn merge_side(&self, side: Side) -> (r: ([PriceLevel; N], [ExchangeId; N]))
        ensures
            r.0@ == self.merged(side),
            r.1@ == self.merged_sources(side),
    {
        proof {
            use_type_invariant(self);
        }
        let ghost rows = self.rows(side);
        let count = self.books.len();
        let mut heads: Vec<usize> = Vec::new();
        while heads.len() < count
            invariant
                heads@.len() <= count,
                forall|t: int| 0 <= t < heads@.len() ==> heads@[t] == 0,
            decreases count - heads@.len(),
        {
            heads.push(0);
        }
        assert(as_ints(heads@) =~= heads_after(side, rows, 0));
        let mut levels = [PriceLevel { price: 0, amount: 0 }; N];
        let mut origins = [self.ids[0]; N];
        let mut i: usize = 0;
        while i < N
            invariant
                0 <= i <= N,
                self.has_shape(),
                rows == self.rows(side),
                count == self.books@.len(),
                self.books@ == self.snapshots(),
                self.ids@ == self.sources(),
                heads@.len() == count,
                as_ints(heads@) == heads_after(side, rows, i as nat),
                forall|k: int| 0 <= k < i ==> levels@[k] == self.merged(side)[k],
                forall|k: int| 0 <= k < i ==> origins@[k] == self.merged_sources(side)[k],
            decreases N - i,
        {
            proof {
                assert forall|t: int| 0 <= t < count implies heads@[t] <= i by {
                    lemma_heads_bounds(side, rows, i as nat, t);
                    assert(as_ints(heads@)[t] == heads@[t]);
                }
            }
            let mut l: usize = 0;
            let mut s: usize = 1;
            while s < count
                invariant
                    1 <= s <= count,
                    0 <= l < s,
                    i < N,
                    self.has_shape(),
                    rows == self.rows(side),
                    count == self.books@.len(),
                    self.books@ == self.snapshots(),
                    heads@.len() == count,
                    forall|t: int| 0 <= t < count ==> heads@[t] <= i,
                    l == leader(side, rows, as_ints(heads@), s as int),
                decreases count - s,
            {
                let challenger = self.books[s].level(side, heads[s]);
                let holder = self.books[l].level(side, heads[l]);
                assert(challenger == rows[s as int][as_ints(heads@)[s as int]]);
                assert(holder == rows[l as int][as_ints(heads@)[l as int]]);
                if is_better(side, challenger.price, holder.price) {
                    l = s;
                }
                s += 1;
            }
            let level = self.books[l].level(side, heads[l]);
            proof {
                let p = pick(side, rows, i as nat);
                assert(p.source == l);
                assert(p.level == as_ints(heads@)[l as int]);
                assert(level == level_at(rows, p));
            }
            levels[i] = level;
            origins[i] = self.ids[l];
            let taken = heads[l];
            heads.set(l, taken + 1);
            assert(as_ints(heads@) =~= heads_after(side, rows, (i + 1) as nat));
            i += 1;
        }
        assert(levels@ =~= self.merged(side));
        assert(origins@ =~= self.merged_sources(side));
        (levels, origins)
    }

    /// The merged view of the latest books: on each side the best `N`
    /// levels over all sources, best first, and the source of each. Levels
    /// of identical price keep the order of their sources.
    pub fn aggregate(&self) -> (r: (OrderBook<N>, Sources<N>))
        ensures
            self.is_valid(),
            r.0.is_valid(),
            r.0.bids() == self.merged(Side::Bid),
            r.0.asks() == self.merged(Side::Ask),
            r.1.bid@ == self.merged_sources(Side::Bid),
            r.1.ask@ == self.merged_sources(Side::Ask),
    {
        let (bid, bid_sources) = self.merge_side(Side::Bid);
        let (ask, ask_sources) = self.merge_side(Side::Ask);
        self.inspect();
        proof {
            self.lemma_merged_sorted(Side::Bid);
            self.lemma_merged_sorted(Side::Ask);
        }
        (OrderBook { bid, ask }, Sources { bid: bid_sources, ask: ask_sources })
    }
}

} // verus!
