use sha2::Digest;
use trade_zones::blockchain::{hash_input, TradeBlock, TradeBlockchain};
use trade_zones::digest::digest_text;
use trade_zones::dto::{Bias, Trade, TradeStatus};
use trade_zones::encoding::to_canonical_json;

fn sample_trade(status: Option<TradeStatus>) -> Trade {
    Trade {
        symbol: "ETHUSDT".to_string(),
        current_price: "2000.50000000".to_string(),
        cma: "2.00000000".to_string(),
        oma: "1.00000000".to_string(),
        bias: Bias::Bullish,
        status,
        zone_min: "1.00000000".to_string(),
        zone_1: "1.18920711".to_string(),
        zone_2: "1.41421356".to_string(),
        zone_3: "1.68179283".to_string(),
        zone_4: "2.00000000".to_string(),
        zone_5: "2.37841423".to_string(),
        zone_6: "2.82842712".to_string(),
        zone_7: "3.36358566".to_string(),
        zone_max: "4.00000000".to_string(),
        of: 300,
    }
}

const SAMPLE_JSON: &str = "{\"symbol\":\"ETHUSDT\",\"current_price\":\"2000.50000000\",\"cma\":\"2.00000000\",\"oma\":\"1.00000000\",\"bias\":\"Bullish\",\"status\":\"InZone7\",\"zone_min\":\"1.00000000\",\"zone_1\":\"1.18920711\",\"zone_2\":\"1.41421356\",\"zone_3\":\"1.68179283\",\"zone_4\":\"2.00000000\",\"zone_5\":\"2.37841423\",\"zone_6\":\"2.82842712\",\"zone_7\":\"3.36358566\",\"zone_max\":\"4.00000000\",\"of\":300}";

const GENESIS_HASH: &str = "242d76e90a6fd81cec2509ab3e417b8c2ee8a350a95442fe6b3438d244349cda";

fn two_block_chain() -> Vec<TradeBlock> {
    let mut chain = TradeBlockchain::new();
    assert!(chain.add_block_at(sample_trade(Some(TradeStatus::InZone7)), 1_700_000_000));
    assert!(chain.add_block_at(sample_trade(None), 1_700_000_050));
    chain.all().to_vec()
}

#[test]
fn canonical_json_is_pinned() {
    let json = to_canonical_json(&sample_trade(Some(TradeStatus::InZone7)));
    assert_eq!(json, SAMPLE_JSON);
}

#[test]
fn canonical_json_writes_an_absent_status_as_null() {
    let json = to_canonical_json(&sample_trade(None));
    assert!(json.contains(",\"status\":null,"));
}

#[test]
fn canonical_json_writes_the_neutral_bias_as_none() {
    let mut trade = sample_trade(None);
    trade.bias = Bias::Neutral;
    assert!(to_canonical_json(&trade).contains(",\"bias\":\"None\","));
    trade.bias = Bias::Bearish;
    assert!(to_canonical_json(&trade).contains(",\"bias\":\"Bearish\","));
}

#[test]
fn canonical_json_escapes_inside_strings() {
    let mut trade = sample_trade(Some(TradeStatus::InZone7));
    trade.symbol = "A\"B\\C\n\u{1}é".to_string();
    let json = to_canonical_json(&trade);
    assert!(json.starts_with("{\"symbol\":\"A\\\"B\\\\C\\n\\u0001é\",\"current_price\""));
    trade.symbol = "\u{8}\t\u{c}\r\u{1f}\u{7f}".to_string();
    let json = to_canonical_json(&trade);
    assert!(json.starts_with("{\"symbol\":\"\\b\\t\\f\\r\\u001f\u{7f}\","));
}

#[test]
fn canonical_json_reads_back_as_json() {
    let mut trade = sample_trade(Some(TradeStatus::PrepareZone1Long));
    trade.symbol = "we\"ird\\sym\tbol\u{0}".to_string();
    let value: serde_json::Value = serde_json::from_str(&to_canonical_json(&trade)).unwrap();
    let object = value.as_object().unwrap();
    assert_eq!(object.len(), 16);
    assert_eq!(object["symbol"].as_str(), Some("we\"ird\\sym\tbol\u{0}"));
    assert_eq!(object["current_price"].as_str(), Some("2000.50000000"));
    assert_eq!(object["bias"].as_str(), Some("Bullish"));
    assert_eq!(object["status"].as_str(), Some("PrepareZone1Long"));
    assert_eq!(object["zone_7"].as_str(), Some("3.36358566"));
    assert_eq!(object["of"].as_u64(), Some(300));
    let keys: Vec<&str> = object.keys().map(|k| k.as_str()).collect();
    assert!(keys.contains(&"zone_min") && keys.contains(&"zone_max") && keys.contains(&"oma"));
}

#[test]
fn canonical_json_names_every_status() {
    let names = [
        (TradeStatus::InZone7, "InZone7"),
        (TradeStatus::OutZone5, "OutZone5"),
        (TradeStatus::PrepareZone1, "PrepareZone1"),
        (TradeStatus::InZone3, "InZone3"),
        (TradeStatus::PrepareZone1Long, "PrepareZone1Long"),
        (TradeStatus::LongZone3, "LongZone3"),
        (TradeStatus::TargetLongZone7, "TargetLongZone7"),
        (TradeStatus::InZone1, "InZone1"),
        (TradeStatus::OutZone3, "OutZone3"),
        (TradeStatus::PrepareZone7, "PrepareZone7"),
        (TradeStatus::InZone5, "InZone5"),
        (TradeStatus::PrepareZone7Short, "PrepareZone7Short"),
        (TradeStatus::ShortZone5, "ShortZone5"),
        (TradeStatus::TargetShortZone1, "TargetShortZone1"),
    ];
    for (status, name) in names {
        let json = to_canonical_json(&sample_trade(Some(status)));
        assert!(json.contains(&format!(",\"status\":\"{}\",", name)));
    }
}

#[test]
fn hash_input_is_index_time_json_and_previous_hash() {
    let trade = sample_trade(Some(TradeStatus::InZone7));
    let data = hash_input(0x0102030405060708, 258, &trade, "0");
    assert_eq!(&data[..8], &[1, 2, 3, 4, 5, 6, 7, 8]);
    assert_eq!(&data[8..16], &[0, 0, 0, 0, 0, 0, 1, 2]);
    assert_eq!(&data[16..16 + SAMPLE_JSON.len()], SAMPLE_JSON.as_bytes());
    assert_eq!(&data[16 + SAMPLE_JSON.len()..], b"0");
}

#[test]
fn hash_has_the_known_value() {
    let trade = sample_trade(Some(TradeStatus::InZone7));
    assert_eq!(TradeBlock::calculate_hash(0, 1_700_000_000, &trade, "0"), GENESIS_HASH);
    assert_eq!(
        TradeBlock::calculate_hash(1, 1_700_000_050, &sample_trade(None), GENESIS_HASH),
        "9f839dfc9243a42a1d150e295e6147eb5ab4dec3544f62804a9c5d8db156b59c"
    );
    let mut odd = sample_trade(Some(TradeStatus::InZone7));
    odd.symbol = "A\"B\\C\n\u{1}é".to_string();
    assert_eq!(
        TradeBlock::calculate_hash(7, 258, &odd, "0"),
        "f1ebf19cfc663af5552b8d1bc6da2117f69263b3f656c92833971658f2af671b"
    );
}

#[test]
fn hash_is_the_sha256_of_the_hash_input() {
    let trade = sample_trade(Some(TradeStatus::OutZone5));
    let data = hash_input(3, 99, &trade, "abc");
    let expected = hex::encode(sha2::Sha256::digest(&data));
    assert_eq!(TradeBlock::calculate_hash(3, 99, &trade, "abc"), expected);
    assert_ne!(expected.as_bytes(), &data[..]);
}

#[test]
fn digest_text_is_lower_case_hexadecimal() {
    assert_eq!(digest_text(&vec![]), "");
    assert_eq!(digest_text(&vec![0x00, 0x0a, 0xab, 0xff, 0x10]), "000aabff10");
}

#[test]
fn hash_changes_with_every_part() {
    let trade = sample_trade(Some(TradeStatus::InZone7));
    let base = TradeBlock::calculate_hash(0, 1_700_000_000, &trade, "0");
    assert_ne!(TradeBlock::calculate_hash(1, 1_700_000_000, &trade, "0"), base);
    assert_ne!(TradeBlock::calculate_hash(0, 1_700_000_001, &trade, "0"), base);
    assert_ne!(TradeBlock::calculate_hash(0, 1_700_000_000, &trade, "1"), base);
    let mut other = sample_trade(Some(TradeStatus::InZone7));
    other.of = 301;
    assert_ne!(TradeBlock::calculate_hash(0, 1_700_000_000, &other, "0"), base);
}

#[test]
fn block_with_timestamp_is_sealed() {
    let block = TradeBlock::with_timestamp(
        0,
        1_700_000_000,
        sample_trade(Some(TradeStatus::InZone7)),
        "0".to_string(),
    );
    assert_eq!(block.index, 0);
    assert_eq!(block.timestamp, 1_700_000_000);
    assert_eq!(block.previous_hash, "0");
    assert_eq!(block.hash, GENESIS_HASH);
    assert!(block.is_sealed());
}

#[test]
fn new_block_is_stamped_and_sealed() {
    let block = TradeBlock::new(4, sample_trade(None), "feed".to_string());
    assert_eq!(block.index, 4);
    assert_eq!(block.previous_hash, "feed");
    assert!(block.timestamp > 1_600_000_000);
    assert!(block.is_sealed());
    assert_eq!(
        block.hash,
        TradeBlock::calculate_hash(4, block.timestamp, &block.trade, "feed")
    );
}

#[test]
fn chain_starts_empty() {
    let chain = TradeBlockchain::new();
    assert_eq!(chain.len(), 0);
    assert!(chain.get_last_trade().is_none());
    assert!(chain.is_valid());
    assert!(chain.all().is_empty());
    assert!(chain.last_two_statuses().is_none());
}

#[test]
fn first_block_has_index_zero_and_names_zero() {
    let mut chain = TradeBlockchain::new();
    assert!(chain.add_block(sample_trade(Some(TradeStatus::InZone7))));
    assert_eq!(chain.len(), 1);
    let block = &chain.all()[0];
    assert_eq!(block.index, 0);
    assert_eq!(block.previous_hash, "0");
    assert!(block.is_sealed());
    assert!(chain.is_valid());
    assert_eq!(chain.get_last_trade().unwrap().status, Some(TradeStatus::InZone7));
}

#[test]
fn same_status_is_not_added_twice() {
    let mut chain = TradeBlockchain::new();
    assert!(chain.add_block(sample_trade(Some(TradeStatus::InZone7))));
    assert!(!chain.add_block(sample_trade(Some(TradeStatus::InZone7))));
    assert_eq!(chain.len(), 1);
    assert!(chain.add_block(sample_trade(None)));
    assert!(!chain.add_block(sample_trade(None)));
    assert_eq!(chain.len(), 2);
}

#[test]
fn absent_status_opens_a_chain_once() {
    let mut chain = TradeBlockchain::new();
    assert!(chain.admits(&sample_trade(None)));
    assert!(chain.add_block(sample_trade(None)));
    assert!(!chain.admits(&sample_trade(None)));
    assert!(!chain.add_block(sample_trade(None)));
    assert_eq!(chain.len(), 1);
}

#[test]
fn blocks_are_linked_by_their_hashes() {
    let blocks = two_block_chain();
    assert_eq!(blocks[0].hash, GENESIS_HASH);
    assert_eq!(blocks[1].index, 1);
    assert_eq!(blocks[1].timestamp, 1_700_000_050);
    assert_eq!(blocks[1].previous_hash, GENESIS_HASH);
    assert_eq!(blocks[1].hash, "9f839dfc9243a42a1d150e295e6147eb5ab4dec3544f62804a9c5d8db156b59c");
    let chain = TradeBlockchain::from_blocks(blocks);
    assert!(chain.is_valid());
    assert_eq!(
        chain.last_two_statuses(),
        Some((Some(TradeStatus::InZone7), None))
    );
}

#[test]
fn changed_price_in_a_later_block_fails_validation() {
    let mut blocks = two_block_chain();
    blocks[1].trade.current_price = "2000.50000001".to_string();
    assert!(!TradeBlockchain::from_blocks(blocks).is_valid());
}

#[test]
fn changed_index_or_time_in_a_later_block_fails_validation() {
    let mut blocks = two_block_chain();
    blocks[1].index = 2;
    assert!(!TradeBlockchain::from_blocks(blocks).is_valid());
    let mut blocks = two_block_chain();
    blocks[1].timestamp += 1;
    assert!(!TradeBlockchain::from_blocks(blocks).is_valid());
}

#[test]
fn changed_hashes_fail_validation() {
    let mut blocks = two_block_chain();
    blocks[1].hash = GENESIS_HASH.to_string();
    assert!(!TradeBlockchain::from_blocks(blocks).is_valid());
    let mut blocks = two_block_chain();
    blocks[1].previous_hash = "0".to_string();
    assert!(!TradeBlockchain::from_blocks(blocks).is_valid());
    let mut blocks = two_block_chain();
    blocks[0].hash = "0".repeat(64);
    assert!(!TradeBlockchain::from_blocks(blocks).is_valid());
}

#[test]
fn every_changed_trade_field_of_a_later_block_fails_validation() {
    let edits: Vec<fn(&mut Trade)> = vec![
        |t| t.symbol.push('X'),
        |t| t.cma = "2.00000001".to_string(),
        |t| t.oma = "1.00000001".to_string(),
        |t| t.bias = Bias::Bearish,
        |t| t.status = Some(TradeStatus::OutZone5),
        |t| t.zone_min.push('0'),
        |t| t.zone_1.push('0'),
        |t| t.zone_2.push('0'),
        |t| t.zone_3.push('0'),
        |t| t.zone_4.push('0'),
        |t| t.zone_5.push('0'),
        |t| t.zone_6.push('0'),
        |t| t.zone_7.push('0'),
        |t| t.zone_max.push('0'),
        |t| t.of += 1,
    ];
    for edit in edits {
        let mut blocks = two_block_chain();
        edit(&mut blocks[1].trade);
        assert!(!TradeBlockchain::from_blocks(blocks).is_valid());
    }
}

#[test]
fn first_block_is_not_rehashed() {
    let mut blocks = two_block_chain();
    blocks[0].trade.current_price = "1.0".to_string();
    assert!(!blocks[0].is_sealed());
    assert!(TradeBlockchain::from_blocks(blocks).is_valid());
    let mut single = two_block_chain();
    single.truncate(1);
    single[0].trade.current_price = "1.0".to_string();
    assert!(TradeBlockchain::from_blocks(single).is_valid());
}

#[test]
fn trimming_keeps_the_latest_blocks() {
    let mut chain = TradeBlockchain::from_blocks(two_block_chain());
    assert!(chain.add_block_at(sample_trade(Some(TradeStatus::OutZone5)), 1_700_000_100));
    chain.trim_front(5);
    assert_eq!(chain.len(), 3);
    chain.trim_front(2);
    assert_eq!(chain.len(), 2);
    assert_eq!(chain.all()[0].index, 1);
    assert_eq!(chain.all()[1].index, 2);
    assert!(chain.is_valid());
    chain.trim_front(0);
    assert_eq!(chain.len(), 0);
}

#[test]
fn hashes_have_sixty_four_characters() {
    for (index, previous) in [(0u64, "0"), (1, GENESIS_HASH), (u64::MAX, "")] {
        let hash = TradeBlock::calculate_hash(index, 5, &sample_trade(None), previous);
        assert_eq!(hash.len(), 64);
        assert!(hash.bytes().all(|b| b.is_ascii_digit() || (b'a'..=b'f').contains(&b)));
    }
    let block = TradeBlock::new(0, sample_trade(None), "0".to_string());
    assert_eq!(block.hash.len(), 64);
}
