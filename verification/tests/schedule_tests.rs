use trade_zones::decide::{Intent, OrderSide};
use trade_zones::dto::{Bias, Trade, TradeStatus};
use trade_zones::schedule::{
    admit_active, choose_crypto, is_candidate, is_listed, offer_trade, promote_candidates,
    select_candidates, Dispatch, Scheduler, TICK_SECONDS,
};
use trade_zones::store::ChainStore;

fn classified(symbol: &str, price: &str, bias: Bias, status: Option<TradeStatus>) -> Trade {
    Trade {
        symbol: symbol.to_string(),
        current_price: price.to_string(),
        cma: "2.00000000".to_string(),
        oma: "1.00000000".to_string(),
        bias,
        status,
        zone_min: "10.00000000".to_string(),
        zone_1: "20.00000000".to_string(),
        zone_2: "30.00000000".to_string(),
        zone_3: "40.00000000".to_string(),
        zone_4: "50.00000000".to_string(),
        zone_5: "60.00000000".to_string(),
        zone_6: "70.00000000".to_string(),
        zone_7: "80.00000000".to_string(),
        zone_max: "90.00000000".to_string(),
        of: 300,
    }
}

fn symbols_of(dispatches: &[Dispatch]) -> Vec<&str> {
    dispatches.iter().map(|d| d.symbol.as_str()).collect()
}

#[test]
fn tick_period_is_fifty_seconds() {
    assert_eq!(TICK_SECONDS, 50);
}

#[test]
fn scheduler_switch() {
    let mut scheduler = Scheduler::new();
    assert!(!scheduler.is_active());
    assert!(!scheduler.stop());
    assert!(scheduler.start());
    assert!(scheduler.is_active());
    assert!(!scheduler.start());
    assert!(scheduler.is_active());
    assert!(scheduler.stop());
    assert!(!scheduler.is_active());
    assert!(!scheduler.stop());
    assert!(scheduler.start());
}

#[test]
fn entry_filter_for_bullish_records() {
    let cases = [
        ("5.0", true),
        ("20.0", true),
        ("20.00000001", false),
        ("50.0", false),
        ("70.0", false),
        ("70.00000001", true),
        ("80.0", true),
        ("80.00000001", false),
    ];
    for (price, passes) in cases {
        assert_eq!(is_candidate(&classified("A", price, Bias::Bullish, None)), passes, "{}", price);
    }
}

#[test]
fn entry_filter_for_bearish_records() {
    let cases = [
        ("5.0", true),
        ("20.00000001", true),
        ("30.0", true),
        ("30.00000001", false),
        ("70.0", false),
        ("70.00000001", true),
        ("80.0", true),
        ("80.00000001", false),
    ];
    for (price, passes) in cases {
        assert_eq!(is_candidate(&classified("A", price, Bias::Bearish, None)), passes, "{}", price);
    }
}

#[test]
fn entry_filter_turns_neutral_records_away() {
    for price in ["5.0", "50.0", "75.0", "0.0"] {
        assert!(!is_candidate(&classified("A", price, Bias::Neutral, None)));
    }
}

#[test]
fn listed_symbols() {
    let symbols = vec!["A".to_string(), "BTCUSDT".to_string()];
    assert!(is_listed(&symbols, "A"));
    assert!(is_listed(&symbols, "BTCUSDT"));
    assert!(!is_listed(&symbols, "BTC"));
    assert!(!is_listed(&symbols, ""));
    assert!(!is_listed(&vec![], "A"));
}

#[test]
fn candidates_are_new_symbols_that_pass_the_filter() {
    let trades = vec![
        classified("A", "5.0", Bias::Bullish, None),
        classified("B", "50.0", Bias::Bullish, None),
        classified("C", "75.0", Bias::Bearish, None),
        classified("D", "5.0", Bias::Neutral, None),
        classified("E", "25.0", Bias::Bearish, None),
    ];
    let active = vec!["A".to_string()];
    let candidates = select_candidates(&trades, &active);
    let names: Vec<&str> = candidates.iter().map(|t| t.symbol.as_str()).collect();
    assert_eq!(names, vec!["C", "E"]);
    let all = select_candidates(&trades, &vec![]);
    let names: Vec<&str> = all.iter().map(|t| t.symbol.as_str()).collect();
    assert_eq!(names, vec!["A", "C", "E"]);
}

#[test]
fn offered_record_is_admitted_decided_and_pruned() {
    let mut store = ChainStore::new(3, 2);
    let mut dispatches = Vec::new();
    let enter = classified("A", "85.0", Bias::Bullish, Some(TradeStatus::InZone7));
    assert!(offer_trade(&mut store, &enter, 100, true, &mut dispatches));
    assert_eq!(dispatches.len(), 1);
    assert_eq!(dispatches[0].symbol, "A");
    assert_eq!(dispatches[0].intent, Intent::Open { side: OrderSide::Buy });
    assert_eq!(store.chain_of("A").unwrap()[0].timestamp, 100);

    assert!(!offer_trade(&mut store, &enter, 150, true, &mut dispatches));
    assert_eq!(dispatches.len(), 1);

    let out = classified("A", "55.0", Bias::Bullish, Some(TradeStatus::OutZone5));
    assert!(offer_trade(&mut store, &out, 200, true, &mut dispatches));
    assert_eq!(dispatches.len(), 2);
    assert_eq!(dispatches[1].intent, Intent::CloseAll { leverage: 1 });
    assert!(!store.contains("A"));
}

#[test]
fn nothing_is_dispatched_unless_deciding() {
    let mut store = ChainStore::new(3, 2);
    let mut dispatches = Vec::new();
    let enter = classified("A", "85.0", Bias::Bullish, Some(TradeStatus::InZone7));
    assert!(offer_trade(&mut store, &enter, 100, false, &mut dispatches));
    assert!(dispatches.is_empty());
    assert!(store.contains("A"));
    let out = classified("A", "55.0", Bias::Bullish, Some(TradeStatus::OutZone5));
    assert!(offer_trade(&mut store, &out, 200, false, &mut dispatches));
    assert!(dispatches.is_empty());
    assert!(!store.contains("A"));
}

#[test]
fn active_symbols_are_offered_in_order() {
    let mut store = ChainStore::new(3, 2);
    store.try_append("A", classified("A", "85.0", Bias::Bullish, Some(TradeStatus::InZone7)));
    store.try_append("B", classified("B", "5.0", Bias::Bearish, Some(TradeStatus::InZone1)));
    let active = store.symbols();
    let trades = vec![
        classified("C", "5.0", Bias::Bullish, None),
        classified("B", "5.0", Bias::Bearish, Some(TradeStatus::InZone1)),
        classified("A", "55.0", Bias::Bullish, Some(TradeStatus::OutZone5)),
    ];
    let mut dispatches = Vec::new();
    admit_active(&mut store, &trades, &active, 500, true, &mut dispatches);
    assert_eq!(symbols_of(&dispatches), vec!["A"]);
    assert!(!store.contains("A"));
    assert!(store.contains("B"));
    assert!(!store.contains("C"));
    assert_eq!(store.chain_of("B").unwrap().len(), 1);
}

#[test]
fn promotion_stops_when_the_store_is_full() {
    let mut store = ChainStore::new(2, 1);
    let candidates = vec![
        classified("A", "5.0", Bias::Bullish, None),
        classified("B", "5.0", Bias::Bullish, None),
        classified("C", "5.0", Bias::Bullish, None),
    ];
    let mut dispatches = Vec::new();
    promote_candidates(&mut store, &candidates, 500, true, &mut dispatches);
    assert_eq!(symbols_of(&dispatches), vec!["A", "B"]);
    assert!(store.contains("A") && store.contains("B") && !store.contains("C"));
    assert_eq!(dispatches[0].intent, Intent::CloseAll { leverage: 1 });
}

#[test]
fn promotion_does_not_resume_after_the_store_was_full() {
    let mut store = ChainStore::new(1, 1);
    store.try_append("Z", classified("Z", "85.0", Bias::Bullish, Some(TradeStatus::InZone7)));
    let candidates = vec![
        classified("A", "5.0", Bias::Bullish, None),
        classified("B", "5.0", Bias::Bullish, None),
    ];
    let mut dispatches = Vec::new();
    promote_candidates(&mut store, &candidates, 500, true, &mut dispatches);
    assert!(dispatches.is_empty());
    assert_eq!(store.symbols(), vec!["Z".to_string()]);
}

#[test]
fn full_store_promotes_no_fourth_symbol() {
    let mut store = ChainStore::new(3, 1);
    for symbol in ["A", "B", "C"] {
        store.try_append(symbol, classified(symbol, "85.0", Bias::Bullish, Some(TradeStatus::InZone7)));
    }
    let trades = vec![
        classified("A", "85.0", Bias::Bullish, Some(TradeStatus::InZone7)),
        classified("B", "85.0", Bias::Bullish, Some(TradeStatus::InZone7)),
        classified("C", "85.0", Bias::Bullish, Some(TradeStatus::InZone7)),
        classified("D", "5.0", Bias::Bullish, None),
    ];
    let dispatches = choose_crypto(&mut store, trades, true);
    assert!(dispatches.is_empty());
    assert!(!store.contains("D"));
    assert_eq!(store.len(), 3);
    for symbol in ["A", "B", "C"] {
        assert_eq!(store.chain_of(symbol).unwrap().len(), 1);
        assert_eq!(store.chain_of(symbol).unwrap()[0].index, 0);
    }
}

#[test]
fn tick_admits_active_symbols_before_it_promotes() {
    let mut store = ChainStore::new(2, 2);
    store.try_append("A", classified("A", "85.0", Bias::Bullish, Some(TradeStatus::InZone7)));
    store.try_append("B", classified("B", "85.0", Bias::Bullish, Some(TradeStatus::InZone7)));
    let trades = vec![
        classified("N", "5.0", Bias::Bullish, None),
        classified("A", "55.0", Bias::Bullish, Some(TradeStatus::OutZone5)),
        classified("B", "85.0", Bias::Bullish, Some(TradeStatus::InZone7)),
    ];
    let dispatches = choose_crypto(&mut store, trades, true);
    assert_eq!(symbols_of(&dispatches), vec!["A", "N"]);
    assert_eq!(dispatches[0].intent, Intent::CloseAll { leverage: 1 });
    assert_eq!(dispatches[1].intent, Intent::CloseAll { leverage: 1 });
    assert!(!store.contains("A"));
    assert!(store.contains("B"));
    assert!(store.contains("N"));
    assert!(store.validate_all());
    let stamped = store.chain_of("N").unwrap()[0].timestamp;
    assert!(stamped > 1_600_000_000);
}

#[test]
fn tick_on_an_empty_store_promotes_candidates_only() {
    let mut store = ChainStore::new(5, 1);
    let trades = vec![
        classified("A", "5.0", Bias::Bullish, None),
        classified("B", "50.0", Bias::Bullish, None),
        classified("C", "75.0", Bias::Bearish, None),
        classified("D", "5.0", Bias::Neutral, None),
    ];
    let dispatches = choose_crypto(&mut store, trades, false);
    assert!(dispatches.is_empty());
    let mut live = store.symbols();
    live.sort();
    assert_eq!(live, vec!["A".to_string(), "C".to_string()]);
}

#[test]
fn promotion_order_is_shuffled() {
    let names: Vec<String> = (0..12).map(|i| format!("S{:02}", i)).collect();
    let mut first_choices = Vec::new();
    for _ in 0..60 {
        let mut store = ChainStore::new(1, 1);
        let trades: Vec<Trade> =
            names.iter().map(|n| classified(n, "5.0", Bias::Bullish, None)).collect();
        let dispatches = choose_crypto(&mut store, trades, true);
        assert_eq!(dispatches.len(), 1);
        assert_eq!(store.len(), 1);
        assert!(names.contains(&dispatches[0].symbol));
        assert_eq!(store.symbols()[0], dispatches[0].symbol);
        first_choices.push(dispatches[0].symbol.clone());
    }
    first_choices.sort();
    first_choices.dedup();
    assert!(first_choices.len() > 1);
}

#[test]
fn shuffle_keeps_every_candidate() {
    let names: Vec<String> = (0..9).map(|i| format!("S{}", i)).collect();
    let mut store = ChainStore::new(20, 1);
    let trades: Vec<Trade> =
        names.iter().map(|n| classified(n, "75.0", Bias::Bearish, None)).collect();
    let dispatches = choose_crypto(&mut store, trades, true);
    let mut promoted: Vec<String> = dispatches.iter().map(|d| d.symbol.clone()).collect();
    promoted.sort();
    assert_eq!(promoted, names);
    let mut live = store.symbols();
    live.sort();
    assert_eq!(live, names);
}
