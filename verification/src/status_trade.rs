//! The per-symbol status state machine.
//!
//! The machine is a table of rules, one table for each side of the market.
//! A rule names the status it leaves, a comparison of the current price with
//! one zone boundary, and the status it enters. The next status is that of
//! the first rule, in the order of the table, whose prior status and
//! comparison both hold; where none holds the status is absent.

use crate::decimal::{parse_price_or_zero, price_or_zero};
use crate::dto::{Bias, Trade, TradeStatus, TradeView};
use vstd::prelude::*;

verus! {

/// The current price and the zone boundaries that the machine compares it
/// with, in price units. Text without a value counts as 0.
#[derive(Clone, Copy, Debug)]
pub struct Levels {
    pub price: u64,
    pub zone_1: u64,
    pub zone_2: u64,
    pub zone_3: u64,
    pub zone_5: u64,
    pub zone_6: u64,
    pub zone_7: u64,
}

/// A zone boundary that a rule refers to.
#[derive(Clone, Copy, Debug, PartialEq, Eq, Structural)]
pub enum Mark {
    Zone1,
    Zone2,
    Zone3,
    Zone5,
    Zone6,
    Zone7,
}

/// How a rule compares the price with its boundary.
#[derive(Clone, Copy, Debug, PartialEq, Eq, Structural)]
pub enum Relation {
    /// price >= boundary
    AtLeast,
    /// price > boundary
    Above,
    /// price <= boundary
    AtMost,
    /// price < boundary
    Below,
}

/// One row of a transition table.
pub struct Rule {
    pub prior: Option<TradeStatus>,
    pub relation: Relation,
    pub mark: Mark,
    pub next: Option<TradeStatus>,
}

/// The boundary that a mark refers to.
pub open spec fn mark_value(levels: Levels, mark: Mark) -> u64 {
    match mark {
        Mark::Zone1 => levels.zone_1,
        Mark::Zone2 => levels.zone_2,
        Mark::Zone3 => levels.zone_3,
        Mark::Zone5 => levels.zone_5,
        Mark::Zone6 => levels.zone_6,
        Mark::Zone7 => levels.zone_7,
    }
}

/// Whether the price stands to the boundary as the relation says.
pub open spec fn relation_holds(relation: Relation, price: u64, boundary: u64) -> bool {
    match relation {
        Relation::AtLeast => price >= boundary,
        Relation::Above => price > boundary,
        Relation::AtMost => price <= boundary,
        Relation::Below => price < boundary,
    }
}

/// Whether a rule leaves the prior status and its comparison holds.
pub open spec fn rule_applies(rule: Rule, prior: Option<TradeStatus>, levels: Levels) -> bool {
    rule.prior == prior && relation_holds(
        rule.relation,
        levels.price,
        mark_value(levels, rule.mark),
    )
}

/// A row of a transition table.
pub open spec fn rule(
    prior: Option<TradeStatus>,
    relation: Relation,
    mark: Mark,
    next: Option<TradeStatus>,
) -> Rule {
    Rule { prior, relation, mark, next }
}

/// The transitions of a symbol whose bias is bullish, in order of precedence.
pub open spec fn bullish_rules() -> Seq<Rule> {
    seq![
        rule(None, Relation::AtLeast, Mark::Zone7, Some(TradeStatus::InZone7)),
        rule(Some(TradeStatus::InZone7), Relation::Above, Mark::Zone5, Some(TradeStatus::InZone7)),
        rule(None, Relation::AtMost, Mark::Zone1, Some(TradeStatus::PrepareZone1)),
        rule(
            Some(TradeStatus::PrepareZone1),
            Relation::Below,
            Mark::Zone3,
            Some(TradeStatus::PrepareZone1),
        ),
        rule(Some(TradeStatus::OutZone5), Relation::AtLeast, Mark::Zone7, Some(TradeStatus::InZone7)),
        rule(Some(TradeStatus::InZone7), Relation::AtMost, Mark::Zone5, Some(TradeStatus::OutZone5)),
        rule(
            Some(TradeStatus::OutZone5),
            Relation::AtMost,
            Mark::Zone1,
            Some(TradeStatus::PrepareZone1),
        ),
        rule(
            Some(TradeStatus::PrepareZone1),
            Relation::AtLeast,
            Mark::Zone3,
            Some(TradeStatus::InZone3),
        ),
        rule(
            Some(TradeStatus::InZone3),
            Relation::AtMost,
            Mark::Zone1,
            Some(TradeStatus::PrepareZone1Long),
        ),
        rule(
            Some(TradeStatus::PrepareZone1Long),
            Relation::AtLeast,
            Mark::Zone3,
            Some(TradeStatus::LongZone3),
        ),
        rule(
            Some(TradeStatus::LongZone3),
            Relation::AtMost,
            Mark::Zone1,
            Some(TradeStatus::PrepareZone1),
        ),
        rule(
            Some(TradeStatus::LongZone3),
            Relation::AtLeast,
            Mark::Zone7,
            Some(TradeStatus::TargetLongZone7),
        ),
        rule(
            Some(TradeStatus::TargetLongZone7),
            Relation::Above,
            Mark::Zone6,
            Some(TradeStatus::TargetLongZone7),
        ),
        rule(Some(TradeStatus::TargetLongZone7), Relation::AtMost, Mark::Zone6, None),
        rule(Some(TradeStatus::InZone3), Relation::AtLeast, Mark::Zone7, Some(TradeStatus::InZone7)),
    ]
}

/// The transitions of a symbol whose bias is bearish: the bullish table
/// turned upside down, row for row.
pub open spec fn bearish_rules() -> Seq<Rule> {
    seq![
        rule(None, Relation::AtMost, Mark::Zone1, Some(TradeStatus::InZone1)),
        rule(Some(TradeStatus::InZone1), Relation::Below, Mark::Zone3, Some(TradeStatus::InZone1)),
        rule(None, Relation::AtLeast, Mark::Zone7, Some(TradeStatus::PrepareZone7)),
        rule(
            Some(TradeStatus::PrepareZone7),
            Relation::Above,
            Mark::Zone5,
            Some(TradeStatus::PrepareZone7),
        ),
        rule(Some(TradeStatus::OutZone3), Relation::AtMost, Mark::Zone1, Some(TradeStatus::InZone1)),
        rule(Some(TradeStatus::InZone1), Relation::AtLeast, Mark::Zone3, Some(TradeStatus::OutZone3)),
        rule(
            Some(TradeStatus::OutZone3),
            Relation::AtLeast,
            Mark::Zone7,
            Some(TradeStatus::PrepareZone7),
        ),
        rule(
            Some(TradeStatus::PrepareZone7),
            Relation::AtMost,
            Mark::Zone5,
            Some(TradeStatus::InZone5),
        ),
        rule(
            Some(TradeStatus::InZone5),
            Relation::AtLeast,
            Mark::Zone7,
            Some(TradeStatus::PrepareZone7Short),
        ),
        rule(
            Some(TradeStatus::PrepareZone7Short),
            Relation::AtMost,
            Mark::Zone5,
            Some(TradeStatus::ShortZone5),
        ),
        rule(
            Some(TradeStatus::ShortZone5),
            Relation::AtLeast,
            Mark::Zone7,
            Some(TradeStatus::PrepareZone7),
        ),
        rule(
            Some(TradeStatus::ShortZone5),
            Relation::AtMost,
            Mark::Zone1,
            Some(TradeStatus::TargetShortZone1),
        ),
        rule(
            Some(TradeStatus::TargetShortZone1),
            Relation::Below,
            Mark::Zone2,
            Some(TradeStatus::TargetShortZone1),
        ),
        rule(Some(TradeStatus::TargetShortZone1), Relation::AtLeast, Mark::Zone2, None),
        rule(Some(TradeStatus::InZone5), Relation::AtMost, Mark::Zone1, Some(TradeStatus::InZone1)),
    ]
}

/// The status that the first applicable rule from `from` on enters; absent
/// where none applies.
pub open spec fn first_match(
    rules: Seq<Rule>,
    from: int,
    prior: Option<TradeStatus>,
    levels: Levels,
) -> Option<TradeStatus>
    decreases rules.len() - from,
{
    if from < 0 || from >= rules.len() {
        None
    } else if rule_applies(rules[from], prior, levels) {
        rules[from].next
    } else {
        first_match(rules, from + 1, prior, levels)
    }
}

/// The levels that a trade record carries.
pub open spec fn levels_of(trade: TradeView) -> Levels {
    Levels {
        price: price_or_zero(trade.current_price),
        zone_1: price_or_zero(trade.zone_1),
        zone_2: price_or_zero(trade.zone_2),
        zone_3: price_or_zero(trade.zone_3),
        zone_5: price_or_zero(trade.zone_5),
        zone_6: price_or_zero(trade.zone_6),
        zone_7: price_or_zero(trade.zone_7),
    }
}

/// The status after `prior_status`, for a symbol whose bias is `bias` now
/// and was `prior_bias` before. A change of bias resets the machine.
pub open spec fn status_after(
    bias: Bias,
    prior_bias: Bias,
    prior_status: Option<TradeStatus>,
    levels: Levels,
) -> Option<TradeStatus> {
    if bias != prior_bias {
        None
    } else {
        match bias {
            Bias::Bullish => first_match(bullish_rules(), 0, prior_status, levels),
            Bias::Bearish => first_match(bearish_rules(), 0, prior_status, levels),
            Bias::Neutral => None,
        }
    }
}

/// The status of `new` given the record that was admitted before it.
pub open spec fn next_status_of(new: TradeView, prior: TradeView) -> Option<TradeStatus> {
    status_after(new.bias, prior.bias, prior.status, levels_of(new))
}

/// Reads the levels of a trade record.
pub fn read_levels(trade: &Trade) -> (levels: Levels)
    ensures
        levels == levels_of(trade@),
{
    Levels {
        price: parse_price_or_zero(trade.current_price.as_str()),
        zone_1: parse_price_or_zero(trade.zone_1.as_str()),
        zone_2: parse_price_or_zero(trade.zone_2.as_str()),
        zone_3: parse_price_or_zero(trade.zone_3.as_str()),
        zone_5: parse_price_or_zero(trade.zone_5.as_str()),
        zone_6: parse_price_or_zero(trade.zone_6.as_str()),
        zone_7: parse_price_or_zero(trade.zone_7.as_str()),
    }
}

fn bullish_step(prior: Option<TradeStatus>, levels: Levels) -> (next: Option<TradeStatus>)
    ensures
        next == first_match(bullish_rules(), 0, prior, levels),
{
    proof {
        reveal_with_fuel(first_match, 16);
    }
    let p = levels.price;
    match prior {
        None => {
            if p >= levels.zone_7 {
                Some(TradeStatus::InZone7)
            } else if p <= levels.zone_1 {
                Some(TradeStatus::PrepareZone1)
            } else {
                None
            }
        },
        Some(TradeStatus::InZone7) => {
            if p > levels.zone_5 {
                Some(TradeStatus::InZone7)
            } else {
                Some(TradeStatus::OutZone5)
            }
        },
        Some(TradeStatus::OutZone5) => {
            if p >= levels.zone_7 {
                Some(TradeStatus::InZone7)
            } else if p <= levels.zone_1 {
                Some(TradeStatus::PrepareZone1)
            } else {
                None
            }
        },
        Some(TradeStatus::PrepareZone1) => {
            if p < levels.zone_3 {
                Some(TradeStatus::PrepareZone1)
            } else {
                Some(TradeStatus::InZone3)
            }
        },
        Some(TradeStatus::InZone3) => {
            if p <= levels.zone_1 {
                Some(TradeStatus::PrepareZone1Long)
            } else if p >= levels.zone_7 {
                Some(TradeStatus::InZone7)
            } else {
                None
            }
        },
        Some(TradeStatus::PrepareZone1Long) => {
            if p >= levels.zone_3 {
                Some(TradeStatus::LongZone3)
            } else {
                None
            }
        },
        Some(TradeStatus::LongZone3) => {
            if p <= levels.zone_1 {
                Some(TradeStatus::PrepareZone1)
            } else if p >= levels.zone_7 {
                Some(TradeStatus::TargetLongZone7)
            } else {
                None
            }
        },
        Some(TradeStatus::TargetLongZone7) => {
            if p > levels.zone_6 {
                Some(TradeStatus::TargetLongZone7)
            } else {
                None
            }
        },
        _ => None,
    }
}

fn bearish_step(prior: Option<TradeStatus>, levels: Levels) -> (next: Option<TradeStatus>)
    ensures
        next == first_match(bearish_rules(), 0, prior, levels),
{
    proof {
        reveal_with_fuel(first_match, 16);
    }
    let p = levels.price;
    match prior {
        None => {
            if p <= levels.zone_1 {
                Some(TradeStatus::InZone1)
            } else if p >= levels.zone_7 {
                Some(TradeStatus::PrepareZone7)
            } else {
                None
            }
        },
        Some(TradeStatus::InZone1) => {
            if p < levels.zone_3 {
                Some(TradeStatus::InZone1)
            } else {
                Some(TradeStatus::OutZone3)
            }
        },
        Some(TradeStatus::OutZone3) => {
            if p <= levels.zone_1 {
                Some(TradeStatus::InZone1)
            } else if p >= levels.zone_7 {
                Some(TradeStatus::PrepareZone7)
            } else {
                None
            }
        },
        Some(TradeStatus::PrepareZone7) => {
            if p > levels.zone_5 {
                Some(TradeStatus::PrepareZone7)
            } else {
                Some(TradeStatus::InZone5)
            }
        },
        Some(TradeStatus::InZone5) => {
            if p >= levels.zone_7 {
                Some(TradeStatus::PrepareZone7Short)
            } else if p <= levels.zone_1 {
                Some(TradeStatus::InZone1)
            } else {
                None
            }
        },
        Some(TradeStatus::PrepareZone7Short) => {
            if p <= levels.zone_5 {
                Some(TradeStatus::ShortZone5)
            } else {
                None
            }
        },
        Some(TradeStatus::ShortZone5) => {
            if p >= levels.zone_7 {
                Some(TradeStatus::PrepareZone7)
            } else if p <= levels.zone_1 {
                Some(TradeStatus::TargetShortZone1)
            } else {
                None
            }
        },
        Some(TradeStatus::TargetShortZone1) => {
            if p < levels.zone_2 {
                Some(TradeStatus::TargetShortZone1)
            } else {
                None
            }
        },
        _ => None,
    }
}

/// The status that follows `prior_status` at the given levels.
pub fn step_status(
    bias: Bias,
    prior_bias: Bias,
    prior_status: Option<TradeStatus>,
    levels: Levels,
) -> (next: Option<TradeStatus>)
    ensures
        next == status_after(bias, prior_bias, prior_status, levels),
{
    if bias != prior_bias {
        return None;
    }
    match bias {
        Bias::Bullish => bullish_step(prior_status, levels),
        Bias::Bearish => bearish_step(prior_status, levels),
        Bias::Neutral => None,
    }
}

/// The status of `new`, given the record admitted before it for the same
/// symbol.
pub fn next_status(new: &Trade, prior: &Trade) -> (next: Option<TradeStatus>)
    ensures
        next == next_status_of(new@, prior@),
        new.bias != prior.bias ==> next is None,
{
    step_status(new.bias, prior.bias, prior.status, read_levels(new))
}

/// `trade` with its status set to the one that follows `last`.
pub fn update_status(trade: Trade, last: &Trade) -> (updated: Trade)
    ensures
        updated@ == (TradeView { status: next_status_of(trade@, last@), ..trade@ }),
{
    let status = next_status(&trade, last);
    let mut updated = trade;
    updated.status = status;
    updated
}

/// No status, or one of the bullish side.
pub open spec fn is_bullish_status(status: Option<TradeStatus>) -> bool {
    match status {
        None => true,
        Some(s) => s == TradeStatus::InZone7 || s == TradeStatus::OutZone5 || s
            == TradeStatus::PrepareZone1 || s == TradeStatus::InZone3 || s
            == TradeStatus::PrepareZone1Long || s == TradeStatus::LongZone3 || s
            == TradeStatus::TargetLongZone7,
    }
}

/// No status, or one of the bearish side.
pub open spec fn is_bearish_status(status: Option<TradeStatus>) -> bool {
    match status {
        None => true,
        Some(s) => s == TradeStatus::InZone1 || s == TradeStatus::OutZone3 || s
            == TradeStatus::PrepareZone7 || s == TradeStatus::InZone5 || s
            == TradeStatus::PrepareZone7Short || s == TradeStatus::ShortZone5 || s
            == TradeStatus::TargetShortZone1,
    }
}

/// The machine never leaves the side of its bias: whatever came before, a
/// bullish record gets a bullish status or none, a bearish record a bearish
/// status or none, and a neutral record none.
pub proof fn lemma_status_stays_on_side(
    bias: Bias,
    prior_bias: Bias,
    prior_status: Option<TradeStatus>,
    levels: Levels,
)
    ensures
        bias == Bias::Bullish ==> is_bullish_status(
            status_after(bias, prior_bias, prior_status, levels),
        ),
        bias == Bias::Bearish ==> is_bearish_status(
            status_after(bias, prior_bias, prior_status, levels),
        ),
        bias == Bias::Neutral ==> status_after(bias, prior_bias, prior_status, levels) is None,
{
    reveal_with_fuel(first_match, 16);
}

/// The status of the other side of the market that stands where `status`
/// stands on its own side.
pub open spec fn mirrored_status(status: Option<TradeStatus>) -> Option<TradeStatus> {
    match status {
        None => None,
        Some(s) => Some(
            match s {
                TradeStatus::InZone7 => TradeStatus::InZone1,
                TradeStatus::OutZone5 => TradeStatus::OutZone3,
                TradeStatus::PrepareZone1 => TradeStatus::PrepareZone7,
                TradeStatus::InZone3 => TradeStatus::InZone5,
                TradeStatus::PrepareZone1Long => TradeStatus::PrepareZone7Short,
                TradeStatus::LongZone3 => TradeStatus::ShortZone5,
                TradeStatus::TargetLongZone7 => TradeStatus::TargetShortZone1,
                TradeStatus::InZone1 => TradeStatus::InZone7,
                TradeStatus::OutZone3 => TradeStatus::OutZone5,
                TradeStatus::PrepareZone7 => TradeStatus::PrepareZone1,
                TradeStatus::InZone5 => TradeStatus::InZone3,
                TradeStatus::PrepareZone7Short => TradeStatus::PrepareZone1Long,
                TradeStatus::ShortZone5 => TradeStatus::LongZone3,
                TradeStatus::TargetShortZone1 => TradeStatus::TargetLongZone7,
            },
        ),
    }
}

/// The levels turned upside down: every price `x` becomes `u64::MAX - x`,
/// so that zone 1 changes places with zone 7, zone 2 with zone 6, and zone
/// 3 with zone 5.
pub open spec fn mirrored_levels(levels: Levels) -> Levels {
    Levels {
        price: (u64::MAX - levels.price) as u64,
        zone_1: (u64::MAX - levels.zone_7) as u64,
        zone_2: (u64::MAX - levels.zone_6) as u64,
        zone_3: (u64::MAX - levels.zone_5) as u64,
        zone_5: (u64::MAX - levels.zone_3) as u64,
        zone_6: (u64::MAX - levels.zone_2) as u64,
        zone_7: (u64::MAX - levels.zone_1) as u64,
    }
}

/// The bearish machine is the bullish machine upside down: on mirrored
/// levels and from the mirrored status it enters the mirrored status.
pub proof fn lemma_bearish_mirrors_bullish(prior: Option<TradeStatus>, levels: Levels)
    ensures
        status_after(Bias::Bearish, Bias::Bearish, mirrored_status(prior), mirrored_levels(levels))
            == mirrored_status(status_after(Bias::Bullish, Bias::Bullish, prior, levels)),
{
    reveal_with_fuel(first_match, 16);
}

/// A change of bias resets the status, whatever the price and the zones.
pub proof fn lemma_bias_change_resets_status(new: TradeView, prior: TradeView)
    requires
        new.bias != prior.bias,
    ensures
        next_status_of(new, prior) is None,
{
}

} // verus!
