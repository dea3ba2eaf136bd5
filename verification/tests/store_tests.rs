use trade_zones::dto::{Bias, Trade, TradeStatus};
use trade_zones::store::ChainStore;

fn record(symbol: &str, status: Option<TradeStatus>) -> Trade {
    Trade {
        symbol: symbol.to_string(),
        current_price: "50.00000000".to_string(),
        cma: "2.00000000".to_string(),
        oma: "1.00000000".to_string(),
        bias: Bias::Bullish,
        status,
        zone_min: "10.00000000".to_string(),
        zone_1: "20.00000000".to_string(),
        zone_2: "30.00000000".to_string(),
        zone_3: "40.00000000".to_string(),
        zone_4: "50.00000000".to_string(),
        zone_5: "60.00000000".to_string(),
        zone_6: "70.00000000".to_string(),
        zone_7: "80.00000000".to_string(),
        zone_max: "90.00000000".to_string(),
        of: 300,
    }
}

#[test]
fn genesis_admission() {
    let mut store = ChainStore::new(3, 1);
    assert!(store.tail("ETHUSDT").is_none());
    assert!(store.try_append("ETHUSDT", record("ETHUSDT", Some(TradeStatus::InZone7))));
    let blocks = store.chain_of("ETHUSDT").unwrap();
    assert_eq!(blocks.len(), 1);
    assert_eq!(blocks[0].index, 0);
    assert_eq!(blocks[0].previous_hash, "0");
    assert!(store.validate("ETHUSDT"));
    assert!(store.validate_all());
}

#[test]
fn dedupe_by_status() {
    let mut store = ChainStore::new(3, 1);
    assert!(store.try_append("ETHUSDT", record("ETHUSDT", Some(TradeStatus::InZone7))));
    assert!(!store.try_append("ETHUSDT", record("ETHUSDT", Some(TradeStatus::InZone7))));
    assert_eq!(store.chain_of("ETHUSDT").unwrap().len(), 1);
    assert_eq!(store.len(), 1);
}

#[test]
fn two_absent_statuses_in_a_row_are_rejected() {
    let mut store = ChainStore::new(3, 4);
    assert!(store.try_append("ETHUSDT", record("ETHUSDT", None)));
    assert!(!store.try_append("ETHUSDT", record("ETHUSDT", None)));
    assert_eq!(store.chain_of("ETHUSDT").unwrap().len(), 1);
}

#[test]
fn store_starts_empty() {
    let store = ChainStore::new(3, 2);
    assert_eq!(store.symbol_capacity(), 3);
    assert_eq!(store.chain_capacity(), 2);
    assert_eq!(store.len(), 0);
    assert!(store.symbols().is_empty());
    assert!(store.all().is_empty());
    assert!(!store.contains("BTCUSDT"));
    assert!(!store.is_limit_reached());
    assert!(store.chain_of("BTCUSDT").is_none());
    assert!(store.validate("BTCUSDT"));
    assert!(store.validate_all());
    assert!(store.last_two_statuses("BTCUSDT").is_none());
}

#[test]
fn no_new_symbol_beyond_the_symbol_capacity() {
    let mut store = ChainStore::new(3, 1);
    assert!(store.try_append("A", record("A", Some(TradeStatus::InZone7))));
    assert!(store.try_append("B", record("B", Some(TradeStatus::InZone7))));
    assert!(!store.is_limit_reached());
    assert!(store.try_append("C", record("C", Some(TradeStatus::InZone7))));
    assert!(store.is_limit_reached());
    assert!(!store.try_append("D", record("D", Some(TradeStatus::InZone7))));
    assert!(!store.contains("D"));
    assert_eq!(store.len(), 3);
    assert!(store.try_append("A", record("A", Some(TradeStatus::OutZone5))));
    assert_eq!(store.len(), 3);
}

#[test]
fn store_without_room_takes_nothing() {
    let mut store = ChainStore::new(0, 1);
    assert!(store.is_limit_reached());
    assert!(!store.try_append("A", record("A", Some(TradeStatus::InZone7))));
    assert_eq!(store.len(), 0);
}

#[test]
fn chain_keeps_its_last_blocks() {
    let mut store = ChainStore::new(2, 1);
    assert!(store.try_append_at("A", record("A", Some(TradeStatus::InZone7)), 10));
    assert!(store.try_append_at("A", record("A", Some(TradeStatus::OutZone5)), 20));
    let blocks = store.chain_of("A").unwrap();
    assert_eq!(blocks.len(), 1);
    assert_eq!(blocks[0].index, 1);
    assert_eq!(blocks[0].timestamp, 20);
    assert_eq!(blocks[0].trade.status, Some(TradeStatus::OutZone5));
    assert!(blocks[0].is_sealed());
    assert!(store.try_append_at("A", record("A", None), 30));
    let blocks = store.chain_of("A").unwrap();
    assert_eq!(blocks.len(), 1);
    assert_eq!(blocks[0].index, 1);
    assert_eq!(blocks[0].trade.status, None);
    assert!(store.validate("A"));
}

#[test]
fn longer_chains_stay_linked() {
    let mut store = ChainStore::new(2, 3);
    let statuses = [
        Some(TradeStatus::InZone7),
        Some(TradeStatus::OutZone5),
        None,
        Some(TradeStatus::PrepareZone1),
        Some(TradeStatus::InZone3),
    ];
    for (i, status) in statuses.iter().enumerate() {
        assert!(store.try_append_at("A", record("A", *status), 100 + i as u64));
        assert!(store.validate("A"));
        let blocks = store.chain_of("A").unwrap();
        assert_eq!(blocks.len(), (i + 1).min(3));
        for pair in blocks.windows(2) {
            assert_eq!(pair[1].previous_hash, pair[0].hash);
        }
    }
    assert_eq!(
        store.last_two_statuses("A"),
        Some((Some(TradeStatus::PrepareZone1), Some(TradeStatus::InZone3)))
    );
    let blocks = store.chain_of("A").unwrap();
    assert_eq!(blocks[0].index, 2);
    assert_eq!(blocks[1].index, 3);
    assert_eq!(blocks[2].index, 3);
}

#[test]
fn chain_capacity_zero_keeps_nothing() {
    let mut store = ChainStore::new(2, 0);
    assert!(store.try_append("A", record("A", Some(TradeStatus::InZone7))));
    assert!(store.contains("A"));
    assert_eq!(store.chain_of("A").unwrap().len(), 0);
    assert!(store.tail("A").is_none());
    assert!(store.try_append("A", record("A", Some(TradeStatus::InZone7))));
}

#[test]
fn tail_is_the_last_admitted_record() {
    let mut store = ChainStore::new(2, 2);
    store.try_append("A", record("A", Some(TradeStatus::InZone7)));
    store.try_append("A", record("A", Some(TradeStatus::OutZone5)));
    store.try_append("B", record("B", None));
    assert_eq!(store.tail("A").unwrap().status, Some(TradeStatus::OutZone5));
    assert_eq!(store.tail("A").unwrap().symbol, "A");
    assert_eq!(store.tail("B").unwrap().status, None);
    assert!(store.tail("C").is_none());
}

#[test]
fn symbols_lists_each_live_symbol_once() {
    let mut store = ChainStore::new(5, 1);
    for symbol in ["A", "B", "C"] {
        store.try_append(symbol, record(symbol, Some(TradeStatus::InZone7)));
    }
    store.try_append("B", record("B", Some(TradeStatus::OutZone5)));
    let mut symbols = store.symbols();
    symbols.sort();
    assert_eq!(symbols, vec!["A".to_string(), "B".to_string(), "C".to_string()]);
}

#[test]
fn drop_removes_the_whole_chain() {
    let mut store = ChainStore::new(2, 3);
    store.try_append("A", record("A", Some(TradeStatus::InZone7)));
    store.try_append("A", record("A", Some(TradeStatus::OutZone5)));
    store.try_append("B", record("B", Some(TradeStatus::InZone7)));
    assert!(store.is_limit_reached());
    store.drop_chain("A");
    assert!(!store.contains("A"));
    assert!(store.contains("B"));
    assert_eq!(store.len(), 1);
    assert!(store.tail("A").is_none());
    store.drop_chain("missing");
    assert_eq!(store.len(), 1);
    assert!(store.try_append("A", record("A", Some(TradeStatus::OutZone5))));
    assert_eq!(store.chain_of("A").unwrap().len(), 1);
    assert_eq!(store.chain_of("A").unwrap()[0].index, 0);
    assert_eq!(store.chain_of("A").unwrap()[0].previous_hash, "0");
    assert!(!store.try_append("C", record("C", Some(TradeStatus::InZone7))));
}

#[test]
fn snapshot_holds_every_chain() {
    let mut store = ChainStore::new(3, 2);
    store.try_append("A", record("A", Some(TradeStatus::InZone7)));
    store.try_append("B", record("B", None));
    store.try_append("A", record("A", None));
    let mut snapshot = store.all();
    snapshot.sort_by(|a, b| a.0.cmp(&b.0));
    assert_eq!(snapshot.len(), 2);
    assert_eq!(snapshot[0].0, "A");
    assert_eq!(snapshot[0].1.len(), 2);
    assert_eq!(snapshot[0].1[1].previous_hash, snapshot[0].1[0].hash);
    assert_eq!(snapshot[1].0, "B");
    assert_eq!(snapshot[1].1.len(), 1);
}

#[test]
fn symbols_are_told_apart_by_every_character() {
    let mut store = ChainStore::new(4, 1);
    assert!(store.try_append("BTCUSDT", record("BTCUSDT", None)));
    assert!(store.try_append("BTCUSD", record("BTCUSD", None)));
    assert!(store.try_append("btcusdt", record("btcusdt", None)));
    assert!(store.try_append("", record("", None)));
    assert_eq!(store.len(), 4);
    assert!(!store.try_append("BTCUSDT", record("BTCUSDT", None)));
}

#[test]
fn any_run_of_appends_keeps_every_chain_valid() {
    let statuses = [
        None,
        Some(TradeStatus::InZone7),
        Some(TradeStatus::InZone7),
        Some(TradeStatus::OutZone5),
        None,
        None,
        Some(TradeStatus::InZone1),
    ];
    let symbols = ["A", "B", "C", "D"];
    let mut store = ChainStore::new(3, 2);
    let mut seed: u32 = 12345;
    for step in 0..200u64 {
        seed = seed.wrapping_mul(1103515245).wrapping_add(12345);
        let symbol = symbols[(seed >> 16) as usize % symbols.len()];
        seed = seed.wrapping_mul(1103515245).wrapping_add(12345);
        let status = statuses[(seed >> 16) as usize % statuses.len()];
        store.try_append_at(symbol, record(symbol, status), step);
        assert!(store.validate(symbol));
        assert!(store.validate_all());
        assert!(store.len() <= 3);
        for (_, blocks) in store.all() {
            assert!(blocks.len() <= 2);
        }
    }
}
