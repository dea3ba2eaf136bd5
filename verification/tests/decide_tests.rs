use trade_zones::decide::{decide, decide_for, Intent, OrderSide};
use trade_zones::dto::{Bias, Trade, TradeStatus};
use trade_zones::store::ChainStore;
use trade_zones::swap::{left_zone, remove_if_out_of_zone, round_ended};

const ALL_STATUSES: [TradeStatus; 14] = [
    TradeStatus::InZone7,
    TradeStatus::OutZone5,
    TradeStatus::PrepareZone1,
    TradeStatus::InZone3,
    TradeStatus::PrepareZone1Long,
    TradeStatus::LongZone3,
    TradeStatus::TargetLongZone7,
    TradeStatus::InZone1,
    TradeStatus::OutZone3,
    TradeStatus::PrepareZone7,
    TradeStatus::InZone5,
    TradeStatus::PrepareZone7Short,
    TradeStatus::ShortZone5,
    TradeStatus::TargetShortZone1,
];

fn admitted(symbol: &str, bias: Bias, status: Option<TradeStatus>) -> Trade {
    Trade {
        symbol: symbol.to_string(),
        current_price: "50.00000000".to_string(),
        cma: "2.00000000".to_string(),
        oma: "1.00000000".to_string(),
        bias,
        status,
        zone_min: "10.00000000".to_string(),
        zone_1: "20.00000000".to_string(),
        zone_2: "30.00000000".to_string(),
        zone_3: "40.00000000".to_string(),
        zone_4: "50.00000000".to_string(),
        zone_5: "60.00000000".to_string(),
        zone_6: "70.00000000".to_string(),
        zone_7: "80.00000000".to_string(),
        zone_max: "90.00000000".to_string(),
        of: 300,
    }
}

#[test]
fn no_status_closes_everything_at_leverage_one() {
    for bias in [Bias::Bullish, Bias::Bearish, Bias::Neutral] {
        assert_eq!(decide_for(bias, None), Intent::CloseAll { leverage: 1 });
    }
}

#[test]
fn bullish_decisions() {
    let expected = [
        (TradeStatus::InZone7, Intent::Open { side: OrderSide::Buy }),
        (TradeStatus::InZone3, Intent::Open { side: OrderSide::Buy }),
        (TradeStatus::LongZone3, Intent::Open { side: OrderSide::Buy }),
        (TradeStatus::OutZone5, Intent::CloseAll { leverage: 1 }),
        (TradeStatus::PrepareZone1, Intent::CloseAll { leverage: 1 }),
        (TradeStatus::TargetLongZone7, Intent::CloseAll { leverage: 1 }),
        (TradeStatus::PrepareZone1Long, Intent::CloseAll { leverage: 2 }),
        (TradeStatus::InZone1, Intent::NoAction),
        (TradeStatus::OutZone3, Intent::NoAction),
        (TradeStatus::PrepareZone7, Intent::NoAction),
        (TradeStatus::InZone5, Intent::NoAction),
        (TradeStatus::PrepareZone7Short, Intent::NoAction),
        (TradeStatus::ShortZone5, Intent::NoAction),
        (TradeStatus::TargetShortZone1, Intent::NoAction),
    ];
    for (status, intent) in expected {
        assert_eq!(decide_for(Bias::Bullish, Some(status)), intent);
    }
}

#[test]
fn bearish_decisions() {
    let expected = [
        (TradeStatus::InZone1, Intent::Open { side: OrderSide::Sell }),
        (TradeStatus::InZone5, Intent::Open { side: OrderSide::Sell }),
        (TradeStatus::ShortZone5, Intent::Open { side: OrderSide::Sell }),
        (TradeStatus::OutZone3, Intent::CloseAll { leverage: 1 }),
        (TradeStatus::PrepareZone7, Intent::CloseAll { leverage: 1 }),
        (TradeStatus::TargetShortZone1, Intent::CloseAll { leverage: 1 }),
        (TradeStatus::PrepareZone7Short, Intent::CloseAll { leverage: 2 }),
        (TradeStatus::InZone7, Intent::NoAction),
        (TradeStatus::OutZone5, Intent::NoAction),
        (TradeStatus::PrepareZone1, Intent::NoAction),
        (TradeStatus::InZone3, Intent::NoAction),
        (TradeStatus::PrepareZone1Long, Intent::NoAction),
        (TradeStatus::LongZone3, Intent::NoAction),
        (TradeStatus::TargetLongZone7, Intent::NoAction),
    ];
    for (status, intent) in expected {
        assert_eq!(decide_for(Bias::Bearish, Some(status)), intent);
    }
}

#[test]
fn neutral_bias_with_a_status_asks_for_nothing() {
    for status in ALL_STATUSES {
        assert_eq!(decide_for(Bias::Neutral, Some(status)), Intent::NoAction);
    }
}

#[test]
fn decide_reads_the_record() {
    assert_eq!(
        decide(&admitted("A", Bias::Bullish, Some(TradeStatus::InZone3))),
        Intent::Open { side: OrderSide::Buy }
    );
    assert_eq!(
        decide(&admitted("A", Bias::Bearish, Some(TradeStatus::PrepareZone7Short))),
        Intent::CloseAll { leverage: 2 }
    );
    assert_eq!(decide(&admitted("A", Bias::Neutral, None)), Intent::CloseAll { leverage: 1 });
}

#[test]
fn leaving_the_zone_is_told_from_bias_and_status() {
    assert!(left_zone(Bias::Bullish, Some(TradeStatus::OutZone5)));
    assert!(left_zone(Bias::Bearish, Some(TradeStatus::OutZone3)));
    assert!(!left_zone(Bias::Bearish, Some(TradeStatus::OutZone5)));
    assert!(!left_zone(Bias::Bullish, Some(TradeStatus::OutZone3)));
    assert!(!left_zone(Bias::Neutral, Some(TradeStatus::OutZone3)));
    assert!(!left_zone(Bias::Bullish, None));
    assert!(!left_zone(Bias::Bullish, Some(TradeStatus::InZone7)));
}

#[test]
fn rounds_end_on_four_pairs_of_statuses() {
    let mut ended = 0;
    let mut options: Vec<Option<TradeStatus>> = ALL_STATUSES.iter().map(|s| Some(*s)).collect();
    options.push(None);
    for bias in [Bias::Bullish, Bias::Bearish, Bias::Neutral] {
        for previous in &options {
            for last in &options {
                if round_ended(bias, *previous, *last) {
                    ended += 1;
                }
            }
        }
    }
    assert_eq!(ended, 4);
    assert!(round_ended(Bias::Bullish, Some(TradeStatus::LongZone3), Some(TradeStatus::PrepareZone1)));
    assert!(round_ended(Bias::Bullish, Some(TradeStatus::TargetLongZone7), None));
    assert!(round_ended(Bias::Bearish, Some(TradeStatus::ShortZone5), Some(TradeStatus::PrepareZone7)));
    assert!(round_ended(Bias::Bearish, Some(TradeStatus::TargetShortZone1), None));
}

#[test]
fn chain_is_dropped_when_the_record_left_its_zone() {
    let mut store = ChainStore::new(3, 1);
    let trade = admitted("A", Bias::Bullish, Some(TradeStatus::OutZone5));
    store.try_append("A", trade.clone());
    store.try_append("B", admitted("B", Bias::Bullish, Some(TradeStatus::InZone7)));
    remove_if_out_of_zone(&mut store, &trade);
    assert!(!store.contains("A"));
    assert!(store.contains("B"));
    let keep = admitted("B", Bias::Bullish, Some(TradeStatus::InZone7));
    remove_if_out_of_zone(&mut store, &keep);
    assert!(store.contains("B"));
    let bearish = admitted("B", Bias::Bearish, Some(TradeStatus::OutZone3));
    remove_if_out_of_zone(&mut store, &bearish);
    assert!(!store.contains("B"));
}

#[test]
fn chain_is_dropped_when_a_round_ends() {
    let mut store = ChainStore::new(3, 2);
    store.try_append("A", admitted("A", Bias::Bullish, Some(TradeStatus::LongZone3)));
    let back = admitted("A", Bias::Bullish, Some(TradeStatus::PrepareZone1));
    remove_if_out_of_zone(&mut store, &back);
    assert!(store.contains("A"));
    store.try_append("A", back.clone());
    remove_if_out_of_zone(&mut store, &back);
    assert!(!store.contains("A"));

    store.try_append("B", admitted("B", Bias::Bearish, Some(TradeStatus::TargetShortZone1)));
    let done = admitted("B", Bias::Bearish, None);
    store.try_append("B", done.clone());
    let bullish_view = admitted("B", Bias::Bullish, None);
    remove_if_out_of_zone(&mut store, &bullish_view);
    assert!(store.contains("B"));
    remove_if_out_of_zone(&mut store, &done);
    assert!(!store.contains("B"));
}

#[test]
fn a_chain_of_one_block_cannot_end_a_round() {
    let mut store = ChainStore::new(3, 1);
    store.try_append("A", admitted("A", Bias::Bullish, Some(TradeStatus::LongZone3)));
    let back = admitted("A", Bias::Bullish, Some(TradeStatus::PrepareZone1));
    store.try_append("A", back.clone());
    remove_if_out_of_zone(&mut store, &back);
    assert!(store.contains("A"));
}

#[test]
fn a_price_between_zone_4_and_zone_5_alone_drops_nothing() {
    let mut store = ChainStore::new(3, 2);
    let mut idle = admitted("A", Bias::Bullish, None);
    idle.current_price = "55.00000000".to_string();
    store.try_append("A", idle.clone());
    remove_if_out_of_zone(&mut store, &idle);
    assert!(store.contains("A"));
}
