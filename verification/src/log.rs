//! What the monitor shows of the classified records: the zone that each
//! price lies in, and how many records lie in each zone.
//!
//! The seven inner boundaries split the prices into eight zones, numbered
//! from 0 at the bottom. A price on a boundary belongs to the zone below it.

use crate::decimal::price_or_zero;
use crate::dto::{Bias, Trade, TradeView};
use crate::schedule::trade_views;
use crate::trade::zone_values;
use crate::zones::Zones;
use vstd::prelude::*;

verus! {

/// The number of zones.
pub const ZONE_COUNT: usize = 8;

/// The zone that `price` lies in: the first whose upper boundary is not
/// below the price, the top zone where the price is above all boundaries.
pub open spec fn zone_index(price: u64, zones: Zones) -> usize {
    if price <= zones.zone_1 {
        0
    } else if price <= zones.zone_2 {
        1
    } else if price <= zones.zone_3 {
        2
    } else if price <= zones.zone_4 {
        3
    } else if price <= zones.zone_5 {
        4
    } else if price <= zones.zone_6 {
        5
    } else if price <= zones.zone_7 {
        6
    } else {
        7
    }
}

/// The zone that the current price of a record lies in.
pub open spec fn zone_index_of(trade: TradeView) -> usize {
    zone_index(price_or_zero(trade.current_price), zone_values(trade))
}

/// Whether a zone is one that promotion starts from, whatever the bias: the
/// bottom zone, or the zone below the top boundary.
pub open spec fn entry_zone(index: usize) -> bool {
    index == 0 || index == 6
}

/// Whether the monitor marks a zone for a bias: the bottom zone and the
/// zone below the top boundary under a bullish bias, the zones next above
/// them under a bearish one.
pub open spec fn marked_zone(index: usize, bias: Bias) -> bool {
    match bias {
        Bias::Bullish => index == 0 || index == 6,
        Bias::Bearish => index == 1 || index == 7,
        Bias::Neutral => false,
    }
}

/// How many of `trades` lie in the zone `zone`.
pub open spec fn count_in_zone(trades: Seq<TradeView>, zone: int) -> nat
    decreases trades.len(),
{
    if trades.len() == 0 {
        0
    } else {
        count_in_zone(trades.drop_last(), zone) + if zone_index_of(trades.last()) == zone {
            1nat
        } else {
            0nat
        }
    }
}

/// Whether a zone is one that promotion starts from.
pub fn is_entry_zone(index: usize) -> (entry: bool)
    ensures
        entry == entry_zone(index),
{
    index == 0 || index == 6
}

/// Whether the monitor marks a zone for a bias.
pub fn is_marked_zone(index: usize, bias: Bias) -> (marked: bool)
    ensures
        marked == marked_zone(index, bias),
{
    match bias {
        Bias::Bullish => index == 0 || index == 6,
        Bias::Bearish => index == 1 || index == 7,
        Bias::Neutral => false,
    }
}

/// The boundaries that a record carries, in price units.
pub fn read_zones(trade: &Trade) -> (zones: Zones)
    ensures
        zones == zone_values(trade@),
{
    Zones {
        zone_min: crate::decimal::parse_price_or_zero(trade.zone_min.as_str()),
        zone_1: crate::decimal::parse_price_or_zero(trade.zone_1.as_str()),
        zone_2: crate::decimal::parse_price_or_zero(trade.zone_2.as_str()),
        zone_3: crate::decimal::parse_price_or_zero(trade.zone_3.as_str()),
        zone_4: crate::decimal::parse_price_or_zero(trade.zone_4.as_str()),
        zone_5: crate::decimal::parse_price_or_zero(trade.zone_5.as_str()),
        zone_6: crate::decimal::parse_price_or_zero(trade.zone_6.as_str()),
        zone_7: crate::decimal::parse_price_or_zero(trade.zone_7.as_str()),
        zone_max: crate::decimal::parse_price_or_zero(trade.zone_max.as_str()),
    }
}

/// The zone that the current price of a record lies in.
pub fn find_zone_index(trade: &Trade) -> (index: usize)
    ensures
        index == zone_index_of(trade@),
        index < ZONE_COUNT,
{
    let price = crate::decimal::parse_price_or_zero(trade.current_price.as_str());
    let zones = read_zones(trade);
    if price <= zones.zone_1 {
        0
    } else if price <= zones.zone_2 {
        1
    } else if price <= zones.zone_3 {
        2
    } else if price <= zones.zone_4 {
        3
    } else if price <= zones.zone_5 {
        4
    } else if price <= zones.zone_6 {
        5
    } else if price <= zones.zone_7 {
        6
    } else {
        7
    }
}

proof fn lemma_count_bound(trades: Seq<TradeView>, zone: int)
    ensures
        count_in_zone(trades, zone) <= trades.len(),
    decreases trades.len(),
{
    if trades.len() > 0 {
        lemma_count_bound(trades.drop_last(), zone);
    }
}

/// How many records lie in each of the eight zones.
pub fn zone_distribution(trades: &Vec<Trade>) -> (counts: Vec<usize>)
    ensures
        counts@.len() == ZONE_COUNT,
        forall|zone: int|
            0 <= zone < ZONE_COUNT ==> #[trigger] counts@[zone] == count_in_zone(
                trade_views(trades@),
                zone,
            ),
{
    let ghost views = trade_views(trades@);
    let mut counts: Vec<usize> = Vec::new();
    let mut k: usize = 0;
    while k < ZONE_COUNT
        invariant
            k <= ZONE_COUNT,
            counts@.len() == k,
            forall|zone: int| 0 <= zone < k ==> #[trigger] counts@[zone] == 0,
        decreases ZONE_COUNT - k,
    {
        counts.push(0);
        k = k + 1;
    }
    let mut i: usize = 0;
    while i < trades.len()
        invariant
            i <= trades@.len(),
            views == trade_views(trades@),
            counts@.len() == ZONE_COUNT,
            forall|zone: int|
                0 <= zone < ZONE_COUNT ==> #[trigger] counts@[zone] == count_in_zone(
                    views.subrange(0, i as int),
                    zone,
                ),
        decreases trades@.len() - i,
    {
        let index = find_zone_index(&trades[i]);
        proof {
            assert(views.subrange(0, i + 1).drop_last() =~= views.subrange(0, i as int));
            assert(views.subrange(0, i + 1).last() == trades@[i as int]@);
            lemma_count_bound(views.subrange(0, i as int), index as int);
        }
        let count = counts[index];
        counts.set(index, count + 1);
        i = i + 1;
    }
    assert(views.subrange(0, trades@.len() as int) =~= views);
    counts
}

} // verus!
