use trade_zones::dto::{Bias, Trade, TradeStatus};
use trade_zones::status_trade::{next_status, read_levels, step_status, update_status, Levels};

fn at_price(price: &str, bias: Bias, status: Option<TradeStatus>) -> Trade {
    Trade {
        symbol: "BTCUSDT".to_string(),
        current_price: price.to_string(),
        cma: "2.00000000".to_string(),
        oma: "1.00000000".to_string(),
        bias,
        status,
        zone_min: "10.00000000".to_string(),
        zone_1: "20.00000000".to_string(),
        zone_2: "30.00000000".to_string(),
        zone_3: "40.00000000".to_string(),
        zone_4: "50.00000000".to_string(),
        zone_5: "60.00000000".to_string(),
        zone_6: "70.00000000".to_string(),
        zone_7: "80.00000000".to_string(),
        zone_max: "90.00000000".to_string(),
        of: 300,
    }
}

fn bullish_after(prior: Option<TradeStatus>, price: &str) -> Option<TradeStatus> {
    next_status(
        &at_price(price, Bias::Bullish, None),
        &at_price("50.0", Bias::Bullish, prior),
    )
}

fn bearish_after(prior: Option<TradeStatus>, price: &str) -> Option<TradeStatus> {
    next_status(
        &at_price(price, Bias::Bearish, None),
        &at_price("50.0", Bias::Bearish, prior),
    )
}

#[test]
fn bullish_entry_path() {
    assert_eq!(
        bullish_after(Some(TradeStatus::PrepareZone1), "40.00000001"),
        Some(TradeStatus::InZone3)
    );
}

#[test]
fn target_exit() {
    assert_eq!(bullish_after(Some(TradeStatus::TargetLongZone7), "69.99999999"), None);
}

#[test]
fn levels_are_read_in_price_units() {
    let levels = read_levels(&at_price("55.5", Bias::Bullish, None));
    assert_eq!(levels.price, 5_550_000_000);
    assert_eq!(levels.zone_1, 2_000_000_000);
    assert_eq!(levels.zone_2, 3_000_000_000);
    assert_eq!(levels.zone_3, 4_000_000_000);
    assert_eq!(levels.zone_5, 6_000_000_000);
    assert_eq!(levels.zone_6, 7_000_000_000);
    assert_eq!(levels.zone_7, 8_000_000_000);
    let unreadable = read_levels(&at_price("n/a", Bias::Bullish, None));
    assert_eq!(unreadable.price, 0);
}

#[test]
fn bullish_table_from_no_status() {
    assert_eq!(bullish_after(None, "80.0"), Some(TradeStatus::InZone7));
    assert_eq!(bullish_after(None, "85.0"), Some(TradeStatus::InZone7));
    assert_eq!(bullish_after(None, "20.0"), Some(TradeStatus::PrepareZone1));
    assert_eq!(bullish_after(None, "5.0"), Some(TradeStatus::PrepareZone1));
    assert_eq!(bullish_after(None, "79.99999999"), None);
    assert_eq!(bullish_after(None, "20.00000001"), None);
}

#[test]
fn bullish_table_from_in_zone_7() {
    assert_eq!(bullish_after(Some(TradeStatus::InZone7), "60.00000001"), Some(TradeStatus::InZone7));
    assert_eq!(bullish_after(Some(TradeStatus::InZone7), "60.0"), Some(TradeStatus::OutZone5));
    assert_eq!(bullish_after(Some(TradeStatus::InZone7), "1.0"), Some(TradeStatus::OutZone5));
}

#[test]
fn bullish_table_from_out_zone_5() {
    assert_eq!(bullish_after(Some(TradeStatus::OutZone5), "80.0"), Some(TradeStatus::InZone7));
    assert_eq!(bullish_after(Some(TradeStatus::OutZone5), "20.0"), Some(TradeStatus::PrepareZone1));
    assert_eq!(bullish_after(Some(TradeStatus::OutZone5), "50.0"), None);
}

#[test]
fn bullish_table_from_prepare_zone_1() {
    assert_eq!(
        bullish_after(Some(TradeStatus::PrepareZone1), "39.99999999"),
        Some(TradeStatus::PrepareZone1)
    );
    assert_eq!(bullish_after(Some(TradeStatus::PrepareZone1), "40.0"), Some(TradeStatus::InZone3));
}

#[test]
fn bullish_table_from_in_zone_3() {
    assert_eq!(bullish_after(Some(TradeStatus::InZone3), "20.0"), Some(TradeStatus::PrepareZone1Long));
    assert_eq!(bullish_after(Some(TradeStatus::InZone3), "80.0"), Some(TradeStatus::InZone7));
    assert_eq!(bullish_after(Some(TradeStatus::InZone3), "50.0"), None);
}

#[test]
fn bullish_table_from_the_long_side() {
    assert_eq!(
        bullish_after(Some(TradeStatus::PrepareZone1Long), "40.0"),
        Some(TradeStatus::LongZone3)
    );
    assert_eq!(bullish_after(Some(TradeStatus::PrepareZone1Long), "39.99999999"), None);
    assert_eq!(bullish_after(Some(TradeStatus::LongZone3), "20.0"), Some(TradeStatus::PrepareZone1));
    assert_eq!(bullish_after(Some(TradeStatus::LongZone3), "80.0"), Some(TradeStatus::TargetLongZone7));
    assert_eq!(bullish_after(Some(TradeStatus::LongZone3), "50.0"), None);
    assert_eq!(
        bullish_after(Some(TradeStatus::TargetLongZone7), "70.00000001"),
        Some(TradeStatus::TargetLongZone7)
    );
    assert_eq!(bullish_after(Some(TradeStatus::TargetLongZone7), "70.0"), None);
}

#[test]
fn bullish_record_ignores_bearish_statuses() {
    for prior in [
        TradeStatus::InZone1,
        TradeStatus::OutZone3,
        TradeStatus::PrepareZone7,
        TradeStatus::InZone5,
        TradeStatus::PrepareZone7Short,
        TradeStatus::ShortZone5,
        TradeStatus::TargetShortZone1,
    ] {
        for price in ["5.0", "50.0", "85.0"] {
            assert_eq!(bullish_after(Some(prior), price), None);
        }
    }
}

#[test]
fn bearish_table_mirrors_the_bullish_one() {
    assert_eq!(bearish_after(None, "20.0"), Some(TradeStatus::InZone1));
    assert_eq!(bearish_after(None, "80.0"), Some(TradeStatus::PrepareZone7));
    assert_eq!(bearish_after(None, "50.0"), None);
    assert_eq!(bearish_after(Some(TradeStatus::InZone1), "39.99999999"), Some(TradeStatus::InZone1));
    assert_eq!(bearish_after(Some(TradeStatus::InZone1), "40.0"), Some(TradeStatus::OutZone3));
    assert_eq!(bearish_after(Some(TradeStatus::OutZone3), "20.0"), Some(TradeStatus::InZone1));
    assert_eq!(bearish_after(Some(TradeStatus::OutZone3), "80.0"), Some(TradeStatus::PrepareZone7));
    assert_eq!(bearish_after(Some(TradeStatus::OutZone3), "50.0"), None);
    assert_eq!(
        bearish_after(Some(TradeStatus::PrepareZone7), "60.00000001"),
        Some(TradeStatus::PrepareZone7)
    );
    assert_eq!(bearish_after(Some(TradeStatus::PrepareZone7), "60.0"), Some(TradeStatus::InZone5));
    assert_eq!(bearish_after(Some(TradeStatus::InZone5), "80.0"), Some(TradeStatus::PrepareZone7Short));
    assert_eq!(bearish_after(Some(TradeStatus::InZone5), "20.0"), Some(TradeStatus::InZone1));
    assert_eq!(bearish_after(Some(TradeStatus::InZone5), "50.0"), None);
    assert_eq!(
        bearish_after(Some(TradeStatus::PrepareZone7Short), "60.0"),
        Some(TradeStatus::ShortZone5)
    );
    assert_eq!(bearish_after(Some(TradeStatus::PrepareZone7Short), "60.00000001"), None);
    assert_eq!(bearish_after(Some(TradeStatus::ShortZone5), "80.0"), Some(TradeStatus::PrepareZone7));
    assert_eq!(bearish_after(Some(TradeStatus::ShortZone5), "20.0"), Some(TradeStatus::TargetShortZone1));
    assert_eq!(bearish_after(Some(TradeStatus::ShortZone5), "50.0"), None);
    assert_eq!(
        bearish_after(Some(TradeStatus::TargetShortZone1), "29.99999999"),
        Some(TradeStatus::TargetShortZone1)
    );
    assert_eq!(bearish_after(Some(TradeStatus::TargetShortZone1), "30.0"), None);
}

#[test]
fn earlier_rule_wins_where_two_apply() {
    let mut upside_down = at_price("50.0", Bias::Bullish, None);
    upside_down.zone_1 = "60.00000000".to_string();
    upside_down.zone_7 = "40.00000000".to_string();
    let prior = at_price("50.0", Bias::Bullish, None);
    assert_eq!(next_status(&upside_down, &prior), Some(TradeStatus::InZone7));
    upside_down.bias = Bias::Bearish;
    let prior = at_price("50.0", Bias::Bearish, None);
    assert_eq!(next_status(&upside_down, &prior), Some(TradeStatus::InZone1));
}

#[test]
fn bias_change_resets_the_status() {
    let new = at_price("85.0", Bias::Bullish, None);
    let prior = at_price("85.0", Bias::Bearish, Some(TradeStatus::InZone1));
    assert_eq!(next_status(&new, &prior), None);
    let prior = at_price("85.0", Bias::Neutral, None);
    assert_eq!(next_status(&new, &prior), None);
    let new = at_price("5.0", Bias::Bearish, None);
    let prior = at_price("5.0", Bias::Bullish, Some(TradeStatus::PrepareZone1));
    assert_eq!(next_status(&new, &prior), None);
}

#[test]
fn neutral_bias_has_no_status() {
    for price in ["5.0", "50.0", "85.0"] {
        let new = at_price(price, Bias::Neutral, None);
        let prior = at_price(price, Bias::Neutral, None);
        assert_eq!(next_status(&new, &prior), None);
    }
}

#[test]
fn zones_of_the_new_record_decide() {
    let mut new = at_price("50.0", Bias::Bullish, None);
    new.zone_7 = "45.00000000".to_string();
    let mut prior = at_price("50.0", Bias::Bullish, None);
    prior.zone_7 = "99.00000000".to_string();
    assert_eq!(next_status(&new, &prior), Some(TradeStatus::InZone7));
}

#[test]
fn update_status_changes_the_status_only() {
    let new = at_price("85.0", Bias::Bullish, Some(TradeStatus::InZone3));
    let prior = at_price("50.0", Bias::Bullish, Some(TradeStatus::LongZone3));
    let updated = update_status(new, &prior);
    assert_eq!(updated.status, Some(TradeStatus::TargetLongZone7));
    assert_eq!(updated.symbol, "BTCUSDT");
    assert_eq!(updated.current_price, "85.0");
    assert_eq!(updated.bias, Bias::Bullish);
    assert_eq!(updated.zone_7, "80.00000000");
    assert_eq!(updated.of, 300);
}

#[test]
fn step_status_works_on_plain_levels() {
    let levels = Levels {
        price: 81,
        zone_1: 20,
        zone_2: 30,
        zone_3: 40,
        zone_5: 60,
        zone_6: 70,
        zone_7: 80,
    };
    assert_eq!(
        step_status(Bias::Bullish, Bias::Bullish, None, levels),
        Some(TradeStatus::InZone7)
    );
    assert_eq!(
        step_status(Bias::Bearish, Bias::Bearish, None, levels),
        Some(TradeStatus::PrepareZone7)
    );
    assert_eq!(step_status(Bias::Bullish, Bias::Bearish, None, levels), None);
}
