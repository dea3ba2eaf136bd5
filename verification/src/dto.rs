//! Plain data carried through the pipeline, and the mathematical view of each.

use vstd::prelude::*;

verus! {

/// Market direction derived from the two moving averages.
#[derive(Clone, Copy, Debug, PartialEq, Eq, Structural)]
pub enum Bias {
    Bullish,
    Bearish,
    /// Neither average lies above the other.
    Neutral,
}

/// A vertex of the per-symbol state machine.
///
/// The first seven belong to the bullish side, the last seven mirror them on
/// the bearish side.
#[derive(Clone, Copy, Debug, PartialEq, Eq, Structural)]
pub enum TradeStatus {
    InZone7,
    OutZone5,
    PrepareZone1,
    InZone3,
    PrepareZone1Long,
    LongZone3,
    TargetLongZone7,
    InZone1,
    OutZone3,
    PrepareZone7,
    InZone5,
    PrepareZone7Short,
    ShortZone5,
    TargetShortZone1,
}

/// One candle as the exchange reports it. Prices stay decimal text so that
/// the exchange's precision is kept.
#[derive(Debug)]
pub struct Candlestick {
    pub open_time: u64,
    pub open_price: String,
    pub high_price: String,
    pub low_price: String,
    pub close_price: String,
    pub volume: String,
    pub close_time: u64,
    pub quote_asset_volume: String,
    pub number_of_trades: u64,
    pub taker_buy_base_asset_volume: String,
    pub taker_buy_quote_asset_volume: String,
    pub ignore: String,
}

/// A [`Candlestick`] with every text field as the sequence of its characters.
pub struct CandlestickView {
    pub open_time: u64,
    pub open_price: Seq<char>,
    pub high_price: Seq<char>,
    pub low_price: Seq<char>,
    pub close_price: Seq<char>,
    pub volume: Seq<char>,
    pub close_time: u64,
    pub quote_asset_volume: Seq<char>,
    pub number_of_trades: u64,
    pub taker_buy_base_asset_volume: Seq<char>,
    pub taker_buy_quote_asset_volume: Seq<char>,
    pub ignore: Seq<char>,
}

impl View for Candlestick {
    type V = CandlestickView;

    open spec fn view(&self) -> CandlestickView {
        CandlestickView {
            open_time: self.open_time,
            open_price: self.open_price@,
            high_price: self.high_price@,
            low_price: self.low_price@,
            close_price: self.close_price@,
            volume: self.volume@,
            close_time: self.close_time,
            quote_asset_volume: self.quote_asset_volume@,
            number_of_trades: self.number_of_trades,
            taker_buy_base_asset_volume: self.taker_buy_base_asset_volume@,
            taker_buy_quote_asset_volume: self.taker_buy_quote_asset_volume@,
            ignore: self.ignore@,
        }
    }
}

/// The classifier's verdict on one symbol.
#[derive(Debug)]
pub struct Trade {
    pub symbol: String,
    pub current_price: String,
    pub cma: String,
    pub oma: String,
    pub bias: Bias,
    pub status: Option<TradeStatus>,
    pub zone_min: String,
    pub zone_1: String,
    pub zone_2: String,
    pub zone_3: String,
    pub zone_4: String,
    pub zone_5: String,
    pub zone_6: String,
    pub zone_7: String,
    pub zone_max: String,
    pub of: usize,
}

/// A [`Trade`] with every text field as the sequence of its characters.
pub struct TradeView {
    pub symbol: Seq<char>,
    pub current_price: Seq<char>,
    pub cma: Seq<char>,
    pub oma: Seq<char>,
    pub bias: Bias,
    pub status: Option<TradeStatus>,
    pub zone_min: Seq<char>,
    pub zone_1: Seq<char>,
    pub zone_2: Seq<char>,
    pub zone_3: Seq<char>,
    pub zone_4: Seq<char>,
    pub zone_5: Seq<char>,
    pub zone_6: Seq<char>,
    pub zone_7: Seq<char>,
    pub zone_max: Seq<char>,
    pub of: nat,
}

impl View for Trade {
    type V = TradeView;

    open spec fn view(&self) -> TradeView {
        TradeView {
            symbol: self.symbol@,
            current_price: self.current_price@,
            cma: self.cma@,
            oma: self.oma@,
            bias: self.bias,
            status: self.status,
            zone_min: self.zone_min@,
            zone_1: self.zone_1@,
            zone_2: self.zone_2@,
            zone_3: self.zone_3@,
            zone_4: self.zone_4@,
            zone_5: self.zone_5@,
            zone_6: self.zone_6@,
            zone_7: self.zone_7@,
            zone_max: self.zone_max@,
            of: self.of as nat,
        }
    }
}

impl Clone for Trade {
    fn clone(&self) -> (copy: Self)
        ensures
            copy@ == self@,
    {
        Trade {
            symbol: self.symbol.clone(),
            current_price: self.current_price.clone(),
            cma: self.cma.clone(),
            oma: self.oma.clone(),
            bias: self.bias,
            status: self.status,
            zone_min: self.zone_min.clone(),
            zone_1: self.zone_1.clone(),
            zone_2: self.zone_2.clone(),
            zone_3: self.zone_3.clone(),
            zone_4: self.zone_4.clone(),
            zone_5: self.zone_5.clone(),
            zone_6: self.zone_6.clone(),
            zone_7: self.zone_7.clone(),
            zone_max: self.zone_max.clone(),
            of: self.of,
        }
    }
}

impl Clone for Candlestick {
    fn clone(&self) -> (copy: Self)
        ensures
            copy@ == self@,
    {
        Candlestick {
            open_time: self.open_time,
            open_price: self.open_price.clone(),
            high_price: self.high_price.clone(),
            low_price: self.low_price.clone(),
            close_price: self.close_price.clone(),
            volume: self.volume.clone(),
            close_time: self.close_time,
            quote_asset_volume: self.quote_asset_volume.clone(),
            number_of_trades: self.number_of_trades,
            taker_buy_base_asset_volume: self.taker_buy_base_asset_volume.clone(),
            taker_buy_quote_asset_volume: self.taker_buy_quote_asset_volume.clone(),
            ignore: self.ignore.clone(),
        }
    }
}

/// Whether two optional statuses are the same, the absent status being equal
/// to itself.
pub fn same_status(a: Option<TradeStatus>, b: Option<TradeStatus>) -> (r: bool)
    ensures
        r == (a == b),
{
    match (a, b) {
        (None, None) => true,
        (Some(x), Some(y)) => x == y,
        _ => false,
    }
}

} // verus!
