//! The decision mapper: from the bias and status of an admitted record to
//! what the exchange is asked to do.

use crate::dto::{Bias, Trade, TradeStatus};
use vstd::prelude::*;

verus! {

/// The side of a market order.
#[derive(Clone, Copy, Debug, PartialEq, Eq, Structural)]
pub enum OrderSide {
    Buy,
    Sell,
}

/// What the exchange is asked to do for a symbol.
#[derive(Clone, Copy, Debug, PartialEq, Eq, Structural)]
pub enum Intent {
    /// Set the leverage, then close every open position.
    CloseAll { leverage: u32 },
    /// Open a position with a market order.
    Open { side: OrderSide },
    /// Leave the exchange alone.
    NoAction,
}

/// The statuses on which a bullish symbol is bought.
pub open spec fn is_long_entry(status: TradeStatus) -> bool {
    status == TradeStatus::InZone7 || status == TradeStatus::InZone3 || status
        == TradeStatus::LongZone3
}

/// The statuses on which a bearish symbol is sold.
pub open spec fn is_short_entry(status: TradeStatus) -> bool {
    status == TradeStatus::InZone1 || status == TradeStatus::InZone5 || status
        == TradeStatus::ShortZone5
}

/// The statuses on which a bullish symbol goes flat at leverage 1.
pub open spec fn is_long_exit(status: TradeStatus) -> bool {
    status == TradeStatus::OutZone5 || status == TradeStatus::PrepareZone1 || status
        == TradeStatus::TargetLongZone7
}

/// The statuses on which a bearish symbol goes flat at leverage 1.
pub open spec fn is_short_exit(status: TradeStatus) -> bool {
    status == TradeStatus::OutZone3 || status == TradeStatus::PrepareZone7 || status
        == TradeStatus::TargetShortZone1
}

/// The intent for a bias and a status.
///
/// Without a status every position is closed at leverage 1, whatever the
/// bias. A status of the other side of the market, or any status under a
/// neutral bias, asks for nothing.
pub open spec fn intent_for(bias: Bias, status: Option<TradeStatus>) -> Intent {
    match status {
        None => Intent::CloseAll { leverage: 1 },
        Some(s) => if bias == Bias::Bullish && is_long_entry(s) {
            Intent::Open { side: OrderSide::Buy }
        } else if bias == Bias::Bearish && is_short_entry(s) {
            Intent::Open { side: OrderSide::Sell }
        } else if (bias == Bias::Bullish && is_long_exit(s)) || (bias == Bias::Bearish
            && is_short_exit(s)) {
            Intent::CloseAll { leverage: 1 }
        } else if (bias == Bias::Bullish && s == TradeStatus::PrepareZone1Long) || (bias
            == Bias::Bearish && s == TradeStatus::PrepareZone7Short) {
            Intent::CloseAll { leverage: 2 }
        } else {
            Intent::NoAction
        },
    }
}

/// The intent for a bias and a status.
pub fn decide_for(bias: Bias, status: Option<TradeStatus>) -> (intent: Intent)
    ensures
        intent == intent_for(bias, status),
{
    match (bias, status) {
        (_, None) => Intent::CloseAll { leverage: 1 },
        (Bias::Bullish, Some(TradeStatus::InZone7))
        | (Bias::Bullish, Some(TradeStatus::InZone3))
        | (Bias::Bullish, Some(TradeStatus::LongZone3)) => Intent::Open { side: OrderSide::Buy },
        (Bias::Bearish, Some(TradeStatus::InZone1))
        | (Bias::Bearish, Some(TradeStatus::InZone5))
        | (Bias::Bearish, Some(TradeStatus::ShortZone5)) => Intent::Open { side: OrderSide::Sell },
        (Bias::Bullish, Some(TradeStatus::OutZone5))
        | (Bias::Bullish, Some(TradeStatus::PrepareZone1))
        | (Bias::Bullish, Some(TradeStatus::TargetLongZone7))
        | (Bias::Bearish, Some(TradeStatus::OutZone3))
        | (Bias::Bearish, Some(TradeStatus::PrepareZone7))
        | (Bias::Bearish, Some(TradeStatus::TargetShortZone1)) => Intent::CloseAll { leverage: 1 },
        (Bias::Bullish, Some(TradeStatus::PrepareZone1Long))
        | (Bias::Bearish, Some(TradeStatus::PrepareZone7Short)) => Intent::CloseAll {
            leverage: 2,
        },
        _ => Intent::NoAction,
    }
}

/// The intent for an admitted record.
pub fn decide(trade: &Trade) -> (intent: Intent)
    ensures
        intent == intent_for(trade@.bias, trade@.status),
{
    decide_for(trade.bias, trade.status)
}

/// A position is opened only in the direction of the bias: bought only under
/// a bullish bias, sold only under a bearish one, and never without a status.
pub proof fn lemma_orders_follow_bias(bias: Bias, status: Option<TradeStatus>)
    ensures
        intent_for(bias, status) == (Intent::Open { side: OrderSide::Buy }) ==> bias
            == Bias::Bullish && status is Some,
        intent_for(bias, status) == (Intent::Open { side: OrderSide::Sell }) ==> bias
            == Bias::Bearish && status is Some,
        status is None ==> intent_for(bias, status) == (Intent::CloseAll { leverage: 1 }),
{
}

} // verus!
