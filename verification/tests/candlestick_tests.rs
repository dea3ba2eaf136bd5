use trade_zones::candlestick::{
    decode_candlestick, decode_candlesticks, JsonField, SourceError, ROW_LEN,
};
use trade_zones::config::{
    BinanceSettings, Settings, DEFAULT_CHAIN_CAPACITY, DEFAULT_SYMBOL_CAPACITY,
};

fn text(s: &str) -> JsonField {
    JsonField::Text(s.to_string())
}

fn exchange_row(open_time: u64) -> Vec<JsonField> {
    vec![
        JsonField::Number(open_time),
        text("43000.10"),
        text("43500.00"),
        text("42900.55"),
        text("43250.10"),
        text("12.345"),
        JsonField::Number(open_time + 59_999),
        text("533000.1"),
        JsonField::Number(1234),
        text("6.1"),
        text("263000.7"),
        text("0"),
    ]
}

fn some_settings(symbol_capacity: Option<usize>, chain_capacity: Option<usize>) -> Settings {
    Settings {
        binance: BinanceSettings {
            base_url: "https://api.binance.com/api/v3".to_string(),
            future_url: "https://fapi.binance.com/fapi/v1".to_string(),
            future_url_v2: "https://fapi.binance.com/fapi/v2".to_string(),
            symbol: "BTCUSDT".to_string(),
            interval: "1h".to_string(),
            limit: 300,
            leverage: 2,
            decide: false,
        },
        spy: true,
        cryptos: vec!["ETHUSDT".to_string()],
        symbol_capacity,
        chain_capacity,
        show_details_monitor: None,
    }
}

#[test]
fn row_of_twelve_values_is_a_candle() {
    assert_eq!(ROW_LEN, 12);
    let candle = decode_candlestick(&exchange_row(1_700_000_000_000)).unwrap();
    assert_eq!(candle.open_time, 1_700_000_000_000);
    assert_eq!(candle.open_price, "43000.10");
    assert_eq!(candle.high_price, "43500.00");
    assert_eq!(candle.low_price, "42900.55");
    assert_eq!(candle.close_price, "43250.10");
    assert_eq!(candle.volume, "12.345");
    assert_eq!(candle.close_time, 1_700_000_059_999);
    assert_eq!(candle.quote_asset_volume, "533000.1");
    assert_eq!(candle.number_of_trades, 1234);
    assert_eq!(candle.taker_buy_base_asset_volume, "6.1");
    assert_eq!(candle.taker_buy_quote_asset_volume, "263000.7");
    assert_eq!(candle.ignore, "0");
}

#[test]
fn row_of_another_length_is_no_candle() {
    let mut short = exchange_row(1);
    short.pop();
    assert!(decode_candlestick(&short).is_none());
    let mut long = exchange_row(1);
    long.push(text("extra"));
    assert!(decode_candlestick(&long).is_none());
    assert!(decode_candlestick(&vec![]).is_none());
}

#[test]
fn row_with_a_value_of_the_wrong_kind_is_no_candle() {
    for i in 0..12 {
        let mut row = exchange_row(1);
        row[i] = JsonField::Other;
        assert!(decode_candlestick(&row).is_none(), "column {}", i);
        let mut row = exchange_row(1);
        row[i] = match i {
            0 | 6 | 8 => text("1"),
            _ => JsonField::Number(1),
        };
        assert!(decode_candlestick(&row).is_none(), "column {}", i);
    }
}

#[test]
fn reply_is_decoded_in_order() {
    let rows = vec![exchange_row(10), exchange_row(20), exchange_row(30)];
    let candles = decode_candlesticks(&rows).unwrap();
    let times: Vec<u64> = candles.iter().map(|c| c.open_time).collect();
    assert_eq!(times, vec![10, 20, 30]);
    assert!(decode_candlesticks(&vec![]).unwrap().is_empty());
}

#[test]
fn reply_with_one_bad_row_is_malformed() {
    let mut rows = vec![exchange_row(10), exchange_row(20), exchange_row(30)];
    rows[1].truncate(11);
    assert_eq!(decode_candlesticks(&rows).unwrap_err(), SourceError::SourceMalformed);
    let mut rows = vec![exchange_row(10)];
    rows[0][4] = JsonField::Other;
    assert_eq!(decode_candlesticks(&rows).unwrap_err(), SourceError::SourceMalformed);
    assert_ne!(SourceError::SourceMalformed, SourceError::SourceUnavailable);
}

#[test]
fn capacities_default_to_one() {
    assert_eq!(DEFAULT_SYMBOL_CAPACITY, 1);
    assert_eq!(DEFAULT_CHAIN_CAPACITY, 1);
    let settings = some_settings(None, None);
    assert_eq!(settings.symbol_capacity(), 1);
    assert_eq!(settings.chain_capacity(), 1);
    assert!(!settings.show_details());
    let store = settings.new_store();
    assert_eq!(store.symbol_capacity(), 1);
    assert_eq!(store.chain_capacity(), 1);
    assert_eq!(store.len(), 0);
}

#[test]
fn capacities_follow_the_settings() {
    let mut settings = some_settings(Some(3), Some(7));
    settings.show_details_monitor = Some(true);
    assert_eq!(settings.symbol_capacity(), 3);
    assert_eq!(settings.chain_capacity(), 7);
    assert!(settings.show_details());
    let store = settings.new_store();
    assert_eq!(store.symbol_capacity(), 3);
    assert_eq!(store.chain_capacity(), 7);
    settings.show_details_monitor = Some(false);
    assert!(!settings.show_details());
}
