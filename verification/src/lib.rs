//! Zone-based trade classification with a hash-chained audit log.
//!
//! Candle history is turned into a [`Trade`] record (moving averages, bias,
//! log-spaced price zones), the record is moved through a per-symbol status
//! state machine, admitted to a per-symbol chain of hashed blocks, and mapped
//! to an exchange intent. Every function in this crate carries a contract
//! that Verus proves.
//!
//! # The pipeline
//!
//! * [`candlestick`] turns the rows of the exchange into candles.
//! * [`trade`] classifies a symbol: averages, bias, zones ([`zones`]) and
//!   current price, with the status that [`status_trade`] gives it.
//! * [`store`] keeps one chain of blocks ([`blockchain`]) for each live
//!   symbol; [`encoding`] fixes the text that a block's hash is taken over,
//!   and [`integrity`] says what validation detects.
//! * [`decide`] maps an admitted record to an intent, [`swap`] drops chains
//!   that have run their course, and [`schedule`] puts a tick together.
//! * [`order`] sizes, writes and signs what the exchange is asked for, and
//!   [`log`] counts the records by zone for the monitor.
//!
//! # Arithmetic
//!
//! Prices are decimal text. They are read into whole units of 10^-8
//! ([`decimal`]), rounded to the nearest unit where the text has more than
//! eight fractional digits, and all arithmetic is done on these units. A
//! mean is written rounded to the nearest unit, but two means are compared
//! exactly, so that the bias is the sign of their true difference. The
//! midpoint of two prices on the logarithmic scale is their geometric mean,
//! rounded to the nearest unit. Every price that a record of a classified
//! symbol carries is written with eight fractional digits. There is no
//! floating-point arithmetic in this crate.
//!
//! # What is taken on trust
//!
//! The contracts of these calls are stated, not proved:
//!
//! * SHA-256 (`sha2`) and HMAC-SHA256 (`hmac`), as functions of their input;
//! * hexadecimal text (`hex`) and form encoding (`url`), as spelled out in
//!   [`digest::lower_hex`] and [`order::form_text`];
//! * the shuffle of `rand`, as a permutation;
//! * `str::to_uppercase`, as a function of its input, and `String::push`;
//! * the clock, of which nothing is claimed.

pub mod blockchain;
pub mod candlestick;
pub mod config;
pub mod decide;
pub mod decimal;
pub mod digest;
pub mod dto;
pub mod encoding;
pub mod integrity;
pub mod log;
pub mod order;
pub mod schedule;
pub mod status_trade;
pub mod store;
pub mod swap;
pub mod text;
pub mod trade;
pub mod zones;

pub use blockchain::{TradeBlock, TradeBlockchain};
pub use candlestick::{decode_candlesticks, JsonField, SourceError};
pub use config::{BinanceSettings, Settings};
pub use decide::{decide, Intent, OrderSide};
pub use dto::{Bias, Candlestick, CandlestickView, Trade, TradeStatus, TradeView};
pub use schedule::{choose_crypto, Dispatch, Scheduler};
pub use status_trade::{next_status, update_status};
pub use store::ChainStore;
pub use swap::remove_if_out_of_zone;
pub use trade::{calculate_moving_average, generate_trade};
