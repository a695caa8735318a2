use aggregator::exchange::ExchangeId;
use aggregator::orderbook::{Aggregator, OrderBook};
use aggregator::server::{build, map_to_levels, map_to_summary};
use aggregator::ws::binance;
use aggregator::ws::bitstamp;
use aggregator::ws::models::{is_better, place_of, PriceLevel, Side, INFINITY_BITS, SIGN_BIT};

fn decode(text: &[u8]) -> Option<u64> {
    fast_float::parse::<f64, _>(text).ok().map(f64::to_bits)
}

fn level(price: f64, amount: f64) -> PriceLevel {
    (price.to_bits(), amount.to_bits()).into()
}

fn book<const N: usize>(bids: [(f64, f64); N], asks: [(f64, f64); N]) -> OrderBook<N> {
    let bids = bids.map(|(p, a)| [p.to_bits(), a.to_bits()]);
    let asks = asks.map(|(p, a)| [p.to_bits(), a.to_bits()]);
    OrderBook::parse(&bids, &asks).unwrap()
}

fn side(first: &str, step: i64, count: usize) -> String {
    let start: i64 = first.parse().unwrap();
    let mut out = String::from("[");
    for i in 0..count {
        if i > 0 {
            out.push(',');
        }
        out.push_str(&format!("[\"0.0{}\",\"{}.5\"]", start + step * i as i64, i + 1));
    }
    out.push(']');
    out
}

fn binance_book() -> OrderBook<10> {
    let message = format!(
        "{{\"lastUpdateId\":1,\"bids\":{},\"asks\":{}}}",
        side("7500200", -300, 20).replace("\"1.5\"", "\"17.24140000\""),
        side("7500300", 400, 20).replace("\"1.5\"", "\"10.85240000\"")
    );
    binance::parse::parse_order_book(&message, decode).unwrap()
}

fn bitstamp_book() -> OrderBook<10> {
    let message = format!(
        "{{\"data\":{{\"bids\":{},\"asks\":{}}},\"event\":\"data\"}}",
        side("7469407", -500, 12).replace("\"1.5\"", "\"0.05000000\""),
        side("7473221", 200, 12).replace("\"1.5\"", "\"1.61774202\"")
    );
    bitstamp::parse::parse_order_book(&message, decode).unwrap().unwrap()
}

fn both() -> Aggregator<10> {
    Aggregator::new(vec![ExchangeId::Binance, ExchangeId::Bitstamp]).unwrap()
}

fn check_order<const N: usize>(book: &OrderBook<N>) {
    assert_eq!(book.bid().len(), N);
    assert_eq!(book.ask().len(), N);
    for i in 1..N {
        assert!(place_of(book.bid()[i - 1].price) >= place_of(book.bid()[i].price));
        assert!(place_of(book.ask()[i - 1].price) <= place_of(book.ask()[i].price));
    }
}

#[test]
fn a_new_engine_holds_zero_books() {
    let engine = both();
    assert_eq!(engine.len(), 2);
    let (merged, sources) = engine.aggregate();
    for i in 0..10 {
        assert_eq!(merged.bid()[i], PriceLevel { price: 0, amount: 0 });
        assert_eq!(merged.ask()[i], PriceLevel { price: 0, amount: 0 });
        assert_eq!(sources.bid[i], ExchangeId::Binance);
        assert_eq!(sources.ask[i], ExchangeId::Binance);
    }
    assert_eq!(OrderBook::<10>::default().bid()[3], PriceLevel::default());
}

#[test]
fn there_is_no_engine_without_sources_or_for_the_merged_stream() {
    assert!(Aggregator::<10>::new(vec![]).is_none());
    assert!(Aggregator::<10>::new(vec![ExchangeId::Aggregate]).is_none());
    assert!(Aggregator::<10>::new(vec![ExchangeId::Binance, ExchangeId::Aggregate]).is_none());
    assert!(Aggregator::<10>::new(vec![ExchangeId::Bitstamp]).is_some());
    assert!(build(vec![]).is_none());
    assert!(build(vec![ExchangeId::Bitstamp, ExchangeId::Aggregate]).is_none());
    assert_eq!(build(vec![ExchangeId::Bitstamp, ExchangeId::Binance]).unwrap().len(), 2);
}

#[test]
fn the_merge_takes_the_best_of_two_books() {
    let mut engine = Aggregator::<3>::new(vec![ExchangeId::Binance, ExchangeId::Bitstamp]).unwrap();
    engine.update(0, book([(10.0, 1.0), (8.0, 2.0), (6.0, 3.0)], [(11.0, 1.0), (13.0, 2.0), (15.0, 3.0)]));
    engine.update(1, book([(9.0, 4.0), (7.0, 5.0), (5.0, 6.0)], [(12.0, 4.0), (12.5, 5.0), (14.0, 6.0)]));
    let (merged, sources) = engine.aggregate();
    assert_eq!(merged.bid(), &[level(10.0, 1.0), level(9.0, 4.0), level(8.0, 2.0)]);
    assert_eq!(sources.bid, [ExchangeId::Binance, ExchangeId::Bitstamp, ExchangeId::Binance]);
    assert_eq!(merged.ask(), &[level(11.0, 1.0), level(12.0, 4.0), level(12.5, 5.0)]);
    assert_eq!(sources.ask, [ExchangeId::Binance, ExchangeId::Bitstamp, ExchangeId::Bitstamp]);
}

#[test]
fn one_source_may_give_every_level() {
    let mut engine = Aggregator::<2>::new(vec![ExchangeId::Binance, ExchangeId::Bitstamp]).unwrap();
    engine.update(0, book([(1.0, 1.0), (0.5, 2.0)], [(9.0, 1.0), (9.5, 2.0)]));
    engine.update(1, book([(3.0, 3.0), (2.0, 4.0)], [(4.0, 3.0), (5.0, 4.0)]));
    let (merged, sources) = engine.aggregate();
    assert_eq!(merged.bid(), &[level(3.0, 3.0), level(2.0, 4.0)]);
    assert_eq!(merged.ask(), &[level(4.0, 3.0), level(5.0, 4.0)]);
    assert_eq!(sources.bid, [ExchangeId::Bitstamp; 2]);
    assert_eq!(sources.ask, [ExchangeId::Bitstamp; 2]);
}

#[test]
fn ties_go_to_the_earlier_source() {
    let mut engine = Aggregator::<3>::new(vec![ExchangeId::Bitstamp, ExchangeId::Binance]).unwrap();
    engine.update(1, book([(10.0, 1.0), (9.0, 2.0), (9.0, 3.0)], [(11.0, 1.0), (12.0, 2.0), (12.0, 3.0)]));
    engine.update(0, book([(10.0, 4.0), (9.0, 5.0), (8.0, 6.0)], [(11.0, 4.0), (12.0, 5.0), (13.0, 6.0)]));
    for _ in 0..3 {
        let (merged, sources) = engine.aggregate();
        assert_eq!(merged.bid(), &[level(10.0, 4.0), level(10.0, 1.0), level(9.0, 5.0)]);
        assert_eq!(sources.bid, [ExchangeId::Bitstamp, ExchangeId::Binance, ExchangeId::Bitstamp]);
        assert_eq!(merged.ask(), &[level(11.0, 4.0), level(11.0, 1.0), level(12.0, 5.0)]);
        assert_eq!(sources.ask, [ExchangeId::Bitstamp, ExchangeId::Binance, ExchangeId::Bitstamp]);
    }
}

#[test]
fn the_same_updates_give_the_same_merge() {
    let run = || {
        let mut engine =
            Aggregator::<2>::new(vec![ExchangeId::Binance, ExchangeId::Bitstamp]).unwrap();
        engine.update(1, book([(5.0, 1.0), (5.0, 2.0)], [(6.0, 1.0), (6.0, 2.0)]));
        engine.update(0, book([(5.0, 3.0), (4.0, 4.0)], [(6.0, 3.0), (7.0, 4.0)]));
        let (merged, sources) = engine.aggregate();
        (*merged.bid(), *merged.ask(), sources.bid, sources.ask)
    };
    let first = run();
    assert_eq!(first.0, [level(5.0, 3.0), level(5.0, 1.0)]);
    assert_eq!(first.2, [ExchangeId::Binance, ExchangeId::Bitstamp]);
    for _ in 0..5 {
        assert_eq!(run(), first);
    }
}

#[test]
fn levels_of_one_source_keep_their_order_on_ties() {
    let mut engine = Aggregator::<3>::new(vec![ExchangeId::Binance]).unwrap();
    engine.update(0, book([(2.0, 1.0), (2.0, 2.0), (2.0, 3.0)], [(3.0, 3.0), (3.0, 2.0), (3.0, 1.0)]));
    let (merged, sources) = engine.aggregate();
    assert_eq!(merged.bid(), &[level(2.0, 1.0), level(2.0, 2.0), level(2.0, 3.0)]);
    assert_eq!(merged.ask(), &[level(3.0, 3.0), level(3.0, 2.0), level(3.0, 1.0)]);
    assert_eq!(sources.bid, [ExchangeId::Binance; 3]);
}

#[test]
fn an_update_replaces_only_its_own_source() {
    let mut engine = Aggregator::<1>::new(vec![ExchangeId::Binance, ExchangeId::Bitstamp]).unwrap();
    engine.update(0, book([(5.0, 1.0)], [(6.0, 1.0)]));
    engine.update(1, book([(4.0, 2.0)], [(7.0, 2.0)]));
    assert_eq!(engine.aggregate().0.bid(), &[level(5.0, 1.0)]);
    engine.update(0, book([(3.0, 3.0)], [(8.0, 3.0)]));
    let (merged, sources) = engine.aggregate();
    assert_eq!(merged.bid(), &[level(4.0, 2.0)]);
    assert_eq!(merged.ask(), &[level(7.0, 2.0)]);
    assert_eq!(sources.bid, [ExchangeId::Bitstamp]);
    let (merged, sources) = engine.apply(1, book([(1.0, 4.0)], [(9.0, 4.0)]));
    assert_eq!(merged.bid(), &[level(3.0, 3.0)]);
    assert_eq!(merged.ask(), &[level(8.0, 3.0)]);
    assert_eq!(sources.ask, [ExchangeId::Binance]);
}

#[test]
fn merging_the_two_fixtures_puts_the_better_best_first() {
    let mut engine = both();
    engine.update(0, binance_book());
    let (merged, sources) = engine.apply(1, bitstamp_book());
    assert_eq!(merged.bid()[0], level(0.07500200, 17.24140000));
    assert_eq!(sources.bid[0], ExchangeId::Binance);
    assert_eq!(merged.ask()[0], level(0.07473221, 1.61774202));
    assert_eq!(sources.ask[0], ExchangeId::Bitstamp);
    assert_eq!(sources.bid, [ExchangeId::Binance; 10]);
    assert_eq!(sources.ask, [ExchangeId::Bitstamp; 10]);
    check_order(&merged);
}

#[test]
fn every_merged_level_stands_in_the_book_of_its_source() {
    let mut engine = both();
    let books = [binance_book(), bitstamp_book()];
    engine.update(0, books[0]);
    engine.update(1, books[1]);
    let (merged, sources) = engine.aggregate();
    for i in 0..10 {
        let from = |id: ExchangeId| if id == ExchangeId::Binance { 0 } else { 1 };
        assert_ne!(sources.bid[i], ExchangeId::Aggregate);
        assert_ne!(sources.ask[i], ExchangeId::Aggregate);
        assert!(books[from(sources.bid[i])].bid().contains(&merged.bid()[i]));
        assert!(books[from(sources.ask[i])].ask().contains(&merged.ask()[i]));
    }
}

#[test]
fn a_long_run_of_updates_keeps_every_merge_in_order() {
    let mut engine = Aggregator::<10>::new(vec![
        ExchangeId::Binance,
        ExchangeId::Bitstamp,
        ExchangeId::Binance,
    ])
    .unwrap();
    let mut state: u64 = 0x9e37_79b9_7f4a_7c15;
    let mut next = move || {
        state = state.wrapping_mul(6364136223846793005).wrapping_add(1442695040888963407);
        (state >> 33) as u32
    };
    for _ in 0..2000 {
        let source = (next() % 3) as usize;
        let mut bid = 1000.0 + f64::from(next() % 1000);
        let mut ask = bid + 1.0;
        let mut bids = [[0u64; 2]; 10];
        let mut asks = [[0u64; 2]; 10];
        for i in 0..10 {
            bids[i] = [bid.to_bits(), f64::from(next() % 50).to_bits()];
            asks[i] = [ask.to_bits(), f64::from(next() % 50).to_bits()];
            bid -= f64::from(next() % 3);
            ask += f64::from(next() % 3);
        }
        let fresh = OrderBook::parse(&bids, &asks).unwrap();
        let (merged, sources) = engine.apply(source, fresh);
        check_order(&merged);
        assert!(sources.bid.iter().all(|id| *id != ExchangeId::Aggregate));
        assert!(place_of(merged.bid()[0].price) >= place_of(fresh.bid()[0].price));
        assert!(place_of(merged.ask()[0].price) <= place_of(fresh.ask()[0].price));
    }
}

#[test]
fn the_order_of_prices_is_the_order_of_numbers() {
    assert_eq!(place_of(0), SIGN_BIT);
    assert_eq!(place_of(1), SIGN_BIT + 1);
    assert_eq!(place_of(SIGN_BIT), SIGN_BIT - 1);
    assert_eq!(place_of(u64::MAX), 0);
    assert_eq!(place_of(INFINITY_BITS), 0xfff0_0000_0000_0000);
    let numbers = [f64::NEG_INFINITY, -2.5, -1.0, -0.0, 0.0, 1e-300, 0.075, 1.0, 2.5, f64::INFINITY];
    for i in 1..numbers.len() {
        let low = numbers[i - 1].to_bits();
        let high = numbers[i].to_bits();
        assert!(place_of(low) < place_of(high));
        assert!(is_better(Side::Bid, high, low));
        assert!(!is_better(Side::Bid, low, high));
        assert!(is_better(Side::Ask, low, high));
        assert!(!is_better(Side::Ask, high, low));
        assert!(!is_better(Side::Bid, low, low));
        assert!(!is_better(Side::Ask, high, high));
    }
}

#[test]
fn a_summary_names_the_source_of_each_level() {
    let mut engine = both();
    engine.update(0, binance_book());
    let (merged, sources) = engine.apply(1, bitstamp_book());
    let summary = map_to_summary(&merged, &sources);
    assert_eq!(summary.best_bid, 0.07500200f64.to_bits());
    assert_eq!(summary.best_ask, 0.07473221f64.to_bits());
    let spread = f64::from_bits(summary.best_ask) - f64::from_bits(summary.best_bid);
    assert_eq!(spread, 0.07473221 - 0.07500200);
    assert_eq!(summary.bids.len(), 10);
    assert_eq!(summary.asks.len(), 10);
    assert_eq!(summary.bids[0].exchange, "binance");
    assert_eq!(summary.bids[0].price, 0.07500200f64.to_bits());
    assert_eq!(summary.bids[0].amount, 17.24140000f64.to_bits());
    assert_eq!(summary.asks[0].exchange, "bitstamp");
    assert_eq!(summary.asks[0].amount, 1.61774202f64.to_bits());
    for i in 0..10 {
        assert_eq!(summary.bids[i].price, merged.bid()[i].price);
        assert_eq!(summary.asks[i].amount, merged.ask()[i].amount);
    }
}

#[test]
fn levels_are_published_under_the_names_of_their_sources() {
    let levels = [PriceLevel { price: 7, amount: 9 }; 10];
    let mut sources = [ExchangeId::Bitstamp; 10];
    sources[4] = ExchangeId::Binance;
    let out = map_to_levels(&levels, &sources);
    assert_eq!(out.len(), 10);
    assert_eq!(out[3].exchange, "bitstamp");
    assert_eq!(out[4].exchange, "binance");
    assert_eq!((out[4].price, out[4].amount), (7, 9));
}

#[test]
fn every_identity_has_a_name() {
    assert_eq!(ExchangeId::Binance.name(), "binance");
    assert_eq!(ExchangeId::Bitstamp.name(), "bitstamp");
    assert_eq!(ExchangeId::Aggregate.name(), "aggregate");
}
