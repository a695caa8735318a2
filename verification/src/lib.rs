//! Order books of several exchanges, merged into one.
//!
//! Each exchange sends the top of its book as text. The `ws` modules read
//! those messages into books of fixed depth; `orderbook` keeps the latest
//! book of every exchange and merges them into the best levels of the
//! market, each with the exchange it came from; `server` turns a merged
//! book into the summary that subscribers are sent.
//!
//! Numbers are held as the bits of IEEE 754 binary64 values. The library
//! orders them and carries them, and leaves it to its caller to turn text
//! into a number.

pub mod exchange;
pub mod merge;
pub mod orderbook;
pub mod server;
pub mod ws;
