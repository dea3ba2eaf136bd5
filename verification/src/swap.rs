//! The pruning rule: when the chain of a symbol is dropped after a record
//! has been admitted to it.

use crate::blockchain::last_two;
use crate::dto::{Bias, Trade, TradeStatus, TradeView};
use crate::store::{chain_or_empty, store_after_drop, ChainStore, ChainsView};
use vstd::prelude::*;

verus! {

/// The record left its zone: a bullish symbol fell out of zone 5, or a
/// bearish one rose out of zone 3.
pub open spec fn is_out_of_zone(bias: Bias, status: Option<TradeStatus>) -> bool {
    (bias == Bias::Bullish && status == Some(TradeStatus::OutZone5)) || (bias == Bias::Bearish
        && status == Some(TradeStatus::OutZone3))
}

/// The last two statuses end a round: a long or short position went back to
/// preparing, or a target was left behind.
pub open spec fn ends_round(
    bias: Bias,
    previous: Option<TradeStatus>,
    last: Option<TradeStatus>,
) -> bool {
    match bias {
        Bias::Bullish => (previous == Some(TradeStatus::LongZone3) && last == Some(
            TradeStatus::PrepareZone1,
        )) || (previous == Some(TradeStatus::TargetLongZone7) && last is None),
        Bias::Bearish => (previous == Some(TradeStatus::ShortZone5) && last == Some(
            TradeStatus::PrepareZone7,
        )) || (previous == Some(TradeStatus::TargetShortZone1) && last is None),
        Bias::Neutral => false,
    }
}

/// Whether the chain of the symbol of `trade` is to be dropped: the record
/// left its zone, or the last two statuses of the chain end a round.
pub open spec fn should_prune(store: ChainsView, trade: TradeView) -> bool {
    is_out_of_zone(trade.bias, trade.status) || match last_two(
        chain_or_empty(store, trade.symbol),
    ) {
        Some((previous, last)) => ends_round(trade.bias, previous, last),
        None => false,
    }
}

/// The store after the pruning rule has been applied for `trade`.
pub open spec fn store_after_prune(store: ChainsView, trade: TradeView) -> ChainsView {
    if should_prune(store, trade) {
        store_after_drop(store, trade.symbol)
    } else {
        store
    }
}

/// Whether a bias and a status say that the record left its zone.
pub fn left_zone(bias: Bias, status: Option<TradeStatus>) -> (out: bool)
    ensures
        out == is_out_of_zone(bias, status),
{
    match (bias, status) {
        (Bias::Bullish, Some(TradeStatus::OutZone5)) => true,
        (Bias::Bearish, Some(TradeStatus::OutZone3)) => true,
        _ => false,
    }
}

/// Whether two statuses in a row end a round under the given bias.
pub fn round_ended(bias: Bias, previous: Option<TradeStatus>, last: Option<TradeStatus>) -> (ended:
    bool)
    ensures
        ended == ends_round(bias, previous, last),
{
    match (bias, previous, last) {
        (Bias::Bullish, Some(TradeStatus::LongZone3), Some(TradeStatus::PrepareZone1)) => true,
        (Bias::Bullish, Some(TradeStatus::TargetLongZone7), None) => true,
        (Bias::Bearish, Some(TradeStatus::ShortZone5), Some(TradeStatus::PrepareZone7)) => true,
        (Bias::Bearish, Some(TradeStatus::TargetShortZone1), None) => true,
        _ => false,
    }
}

/// Applies the pruning rule for `trade`: drops the chain of its symbol where
/// the rule says so.
pub fn remove_if_out_of_zone(store: &mut ChainStore, trade: &Trade)
    ensures
        final(store)@ == store_after_prune(old(store)@, trade@),
{
    let symbol = trade.symbol.as_str();
    if left_zone(trade.bias, trade.status) {
        store.drop_chain(symbol);
        return ;
    }
    match store.last_two_statuses(symbol) {
        Some((previous, last)) => {
            if round_ended(trade.bias, previous, last) {
                store.drop_chain(symbol);
            }
        },
        None => {},
    }
}

} // verus!
