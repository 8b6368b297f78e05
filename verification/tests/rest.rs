use arbitrage::binance_rest::{
    CacheFile, CacheStep, DepthLevelError, JsonFileCache, SnapshotError, cache_step,
    depth_snapshot_url, is_within_ttl, level_texts, parse_depth_levels, read_depth_snapshot,
    wants_cache,
};
use arbitrage::config::{
    AppConfig, AutoTriangleGenerationConfig, ConfigNumber, ExchangeRulesConfig,
};
use arbitrage::decimal::Decimal;
use arbitrage::float_key::FloatKey;
use arbitrage::service;
use arbitrage::text_map::TextMap;
use std::time::{Duration, SystemTime};

fn num(text: &str) -> Decimal {
    Decimal::parse(text).unwrap()
}

fn pair(price: &str, qty: &str) -> [String; 2] {
    [price.to_string(), qty.to_string()]
}

fn age_nanos(modified_at: SystemTime) -> Option<u128> {
    SystemTime::now()
        .duration_since(modified_at)
        .ok()
        .map(|age| age.as_nanos())
}

#[test]
fn ttl_freshness_check_works() {
    let now = SystemTime::now();
    assert!(is_within_ttl(age_nanos(now), Duration::from_secs(1).as_nanos()));
    let old = now - Duration::from_secs(10);
    assert!(!is_within_ttl(age_nanos(old), Duration::from_secs(1).as_nanos()));
}

#[test]
fn parses_depth_levels_from_string_pairs() {
    let parsed = parse_depth_levels(vec![
        ["100.1".to_string(), "2.5".to_string()],
        ["99.9".to_string(), "0".to_string()],
    ])
    .expect("parse");
    assert_eq!(parsed.len(), 2);
    assert_eq!(parsed[0].price, num("100.1"));
    assert_eq!(parsed[0].qty, num("2.5"));
    assert_eq!(parsed[1].qty, Decimal::zero());
}

#[test]
fn the_first_text_that_is_no_number_is_named() {
    assert_eq!(
        parse_depth_levels(vec![pair("1", "2"), pair("x", "y")]),
        Err(DepthLevelError::Price { level: 1 })
    );
    assert_eq!(
        parse_depth_levels(vec![pair("1", "y"), pair("x", "y")]),
        Err(DepthLevelError::Qty { level: 0 })
    );
}

#[test]
fn levels_survive_their_texts() {
    let texts = level_texts(&num("100.10"), &num("0.000"));
    assert_eq!(texts, pair("100.10", "0.000"));
    let again = parse_depth_levels(vec![texts]).unwrap();
    assert_eq!((again[0].price.mantissa(), again[0].price.scale()), (10010, 2));
    assert_eq!((again[0].qty.mantissa(), again[0].qty.scale()), (0, 3));
}

#[test]
fn snapshots_are_asked_for_within_bounds() {
    assert_eq!(
        depth_snapshot_url("btcusdt", 0),
        "https://api.binance.com/api/v3/depth?symbol=BTCUSDT&limit=1"
    );
    assert_eq!(
        depth_snapshot_url("BtcUsdt", 9999),
        "https://api.binance.com/api/v3/depth?symbol=BTCUSDT&limit=5000"
    );
    assert_eq!(
        depth_snapshot_url("ethbtc", 20),
        "https://api.binance.com/api/v3/depth?symbol=ETHBTC&limit=20"
    );
}

#[test]
fn snapshots_are_read_or_refused_by_side() {
    let read = read_depth_snapshot("BTCUSDT", 7, vec![pair("1", "2")], vec![pair("3", "4")], 99)
        .expect("reads");
    assert_eq!(read.symbol, "btcusdt");
    assert_eq!(read.last_update_id, 7);
    assert_eq!(read.bids[0].price, num("1"));
    assert_eq!(read.asks[0].qty, num("4"));
    assert_eq!(read.fetched_at_ms, 99);
    assert_eq!(
        read_depth_snapshot("x", 7, vec![pair("", "2")], vec![pair("3", "")], 99),
        Err(SnapshotError::Bids(DepthLevelError::Price { level: 0 }))
    );
    assert_eq!(
        read_depth_snapshot("x", 7, vec![], vec![pair("3", "")], 99),
        Err(SnapshotError::Asks(DepthLevelError::Qty { level: 0 }))
    );
}

#[test]
fn caches_are_read_while_they_are_fresh() {
    let cache = JsonFileCache::new("cache.json".to_string(), 5);
    assert_eq!(cache.path, "cache.json");
    assert_eq!(cache.ttl_nanos, 5);
    assert!(!wants_cache(0));
    let dated = |age| CacheFile::Dated { age_nanos: age };
    assert_eq!(cache_step(5, dated(Some(5))), CacheStep::Read);
    assert_eq!(cache_step(5, dated(Some(6))), CacheStep::Skip);
    assert_eq!(cache_step(5, dated(None)), CacheStep::Read);
    assert_eq!(cache_step(5, CacheFile::Missing), CacheStep::Skip);
    assert_eq!(cache_step(5, CacheFile::Undated), CacheStep::Skip);
    assert_eq!(cache_step(5, CacheFile::Failed), CacheStep::Fail);
    assert_eq!(cache_step(0, CacheFile::Failed), CacheStep::Skip);
}

fn app_config() -> AppConfig {
    AppConfig {
        update_interval: 100,
        results_limit: 20,
        depth_streams: vec!["btcusdt".to_string(), "ethbtc".to_string()],
        triangles: Vec::new(),
        bind_addr: "127.0.0.1".to_string(),
        bind_port: 8000,
        reconnect_delay_ms: 100,
        signal_log_enabled: true,
        signal_log_path: "signals.jsonl".to_string(),
        signal_log_channel_capacity: 10,
        signal_min_profit_bps: FloatKey::one(),
        signal_min_hit_rate: FloatKey::one(),
        exchange_rules: ExchangeRulesConfig {
            enabled: false,
            default_fee_bps: ConfigNumber { float: FloatKey::zero(), decimal: num("0") },
            latency_penalty_bps: FloatKey::zero(),
            default_assumed_start_amount: ConfigNumber {
                float: FloatKey::one(),
                decimal: num("1"),
            },
            assumed_start_amounts: TextMap::new(),
            pair_rules: TextMap::new(),
        },
        auto_triangle_generation: AutoTriangleGenerationConfig::default(),
    }
}

#[test]
fn the_service_starts_from_its_configuration() {
    let mut config = app_config();
    assert_eq!(
        service::get_binance_streams_url(&config.depth_streams, 100, 20),
        "wss://stream.binance.com:9443/stream?streams=btcusdt@depth20@100ms/ethbtc@depth20@100ms"
    );
    assert_eq!(service::server_address(&config), "127.0.0.1:8000");
    assert_eq!(service::signal_log_capacity(&config), 64);
    assert_eq!(service::reconnect_delay_ms(&config), 250);
    config.signal_log_channel_capacity = 2048;
    config.reconnect_delay_ms = 1_500;
    assert_eq!(service::signal_log_capacity(&config), 2048);
    assert_eq!(service::reconnect_delay_ms(&config), 1_500);
}
