//! The exchanges: their messages and their feeds.

pub mod binance;
pub mod bitstamp;
pub mod book;
pub mod decode;
pub mod error;
pub mod feed;
pub mod json;
pub mod models;
pub mod utils;
