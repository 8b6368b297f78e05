use arbitrage::auto_triangles::{
    BinanceSymbol, SymbolFilter, assets_to_use, generate_from_exchange_info, non_empty_universe,
    normalize_and_dedupe_assets, pair_rule_from_filters, rotate3, triangle_key, unordered_key,
};
use arbitrage::config::{AutoTriangleGenerationConfig, TriangleConfig};
use arbitrage::decimal::Decimal;
use arbitrage::generate_config::{
    GenerateConfigArgs, check_asset_count, generated_config,
};
use arbitrage::text_map::TextMap;

fn three(a: &str, b: &str, c: &str) -> [String; 3] {
    [a.to_string(), b.to_string(), c.to_string()]
}

fn filter(fields: &[(&str, &str)]) -> SymbolFilter {
    let mut map = TextMap::new();
    for (name, value) in fields {
        map.insert(name.to_string(), value.to_string());
    }
    SymbolFilter { fields: map }
}

fn sym(symbol: &str, base: &str, quote: &str) -> BinanceSymbol {
    BinanceSymbol {
        symbol: symbol.to_string(),
        status: "TRADING".to_string(),
        base_asset: base.to_string(),
        quote_asset: quote.to_string(),
        is_spot_trading_allowed: true,
        filters: Vec::new(),
    }
}

fn symbols() -> Vec<BinanceSymbol> {
    vec![
        sym("ETHBTC", "ETH", "BTC"),
        sym("BNBETH", "BNB", "ETH"),
        sym("BNBBTC", "BNB", "BTC"),
    ]
}

fn config(reverse: bool, all_starts: bool, max_triangles: usize) -> AutoTriangleGenerationConfig {
    AutoTriangleGenerationConfig {
        enabled: true,
        assets: vec!["btc".to_string(), "eth".to_string(), "bnb".to_string()],
        include_reverse_cycles: reverse,
        include_all_starts: all_starts,
        max_triangles,
        ..AutoTriangleGenerationConfig::default()
    }
}

#[test]
fn generates_triangle_from_assets() {
    let assets = vec!["btc".to_string(), "eth".to_string(), "bnb".to_string()];
    let cfg = AutoTriangleGenerationConfig {
        enabled: true,
        assets: assets.clone(),
        include_reverse_cycles: true,
        include_all_starts: false,
        ..AutoTriangleGenerationConfig::default()
    };
    let out = generate_from_exchange_info(
        &assets,
        &cfg,
        vec![
            sym("ETHBTC", "ETH", "BTC"),
            sym("BNBETH", "BNB", "ETH"),
            sym("BNBBTC", "BNB", "BTC"),
        ],
    );

    assert_eq!(out.depth_streams.len(), 3);
    assert!(out
        .triangles
        .iter()
        .any(|t| t.parts == ["bnb".to_string(), "btc".to_string(), "eth".to_string()]));
}

#[test]
fn extracts_pair_rule_filters() {
    let filters = vec![
        filter(&[("filterType", "LOT_SIZE"), ("minQty", "0.001"), ("stepSize", "0.001")]),
        filter(&[("filterType", "MIN_NOTIONAL"), ("minNotional", "10.0")]),
    ];
    let rule = pair_rule_from_filters(&filters);
    assert_eq!(rule.min_qty, Some(Decimal::new(1, 3)));
    assert_eq!(rule.qty_step, Some(Decimal::new(1, 3)));
    assert_eq!(rule.min_notional, Some(Decimal::new(100, 1)));
}

#[test]
fn later_filters_add_to_earlier_ones() {
    let rule = pair_rule_from_filters(&[
        filter(&[("filterType", "NOTIONAL"), ("minNotional", "5")]),
        filter(&[("filterType", "NOTIONAL"), ("minNotional", "6")]),
        filter(&[("minQty", "9")]),
        filter(&[("filterType", "PRICE_FILTER"), ("minQty", "9")]),
        filter(&[("filterType", "LOT_SIZE"), ("minQty", "x")]),
    ]);
    assert_eq!(rule.min_notional, Some(Decimal::new(5, 0)));
    assert_eq!(rule.min_qty, None);
    assert_eq!(rule.qty_step, None);
    assert_eq!(rule.fee_bps, None);
}

#[test]
fn triangles_are_closed_differ_and_are_in_order() {
    let cfg = config(true, true, 0);
    let out = generate_from_exchange_info(&cfg.assets, &cfg, symbols());
    let keys: Vec<String> = out.triangles.iter().map(triangle_key).collect();
    assert_eq!(
        keys,
        vec![
            "bnb|btc|eth::bnbbtc|ethbtc|bnbeth",
            "bnb|eth|btc::bnbeth|ethbtc|bnbbtc",
            "btc|bnb|eth::bnbbtc|bnbeth|ethbtc",
            "btc|eth|bnb::ethbtc|bnbeth|bnbbtc",
            "eth|bnb|btc::bnbeth|bnbbtc|ethbtc",
            "eth|btc|bnb::ethbtc|bnbbtc|bnbeth",
        ]
    );
    assert_eq!(out.depth_streams, vec!["bnbbtc", "bnbeth", "ethbtc"]);
    assert_eq!(out.used_assets, vec!["bnb", "btc", "eth"]);
    assert_eq!(out.pair_rules.len(), 3);
    assert!(out.depth_streams.iter().all(|pair| out.pair_rules.contains_key(pair)));
}

#[test]
fn a_limit_keeps_the_first_triangles() {
    let cfg = config(true, true, 2);
    let out = generate_from_exchange_info(&cfg.assets, &cfg, symbols());
    assert_eq!(out.triangles.len(), 2);
    assert_eq!(out.triangles[1].parts, three("bnb", "eth", "btc"));
    let one = config(false, false, 0);
    let out = generate_from_exchange_info(&one.assets, &one, symbols());
    assert_eq!(out.triangles.len(), 1);
    assert_eq!(out.triangles[0].parts, three("bnb", "btc", "eth"));
}

#[test]
fn only_usable_symbols_join_assets() {
    let cfg = config(false, false, 0);
    let mut halted = symbols();
    halted[0].status = "BREAK".to_string();
    assert!(generate_from_exchange_info(&cfg.assets, &cfg, halted).triangles.is_empty());
    let mut no_spot = symbols();
    no_spot[1].is_spot_trading_allowed = false;
    assert!(generate_from_exchange_info(&cfg.assets, &cfg, no_spot).triangles.is_empty());
    let mut twice = symbols();
    twice.push(sym("BTCETH", "BTC", "ETH"));
    let out = generate_from_exchange_info(&cfg.assets, &cfg, twice);
    assert_eq!(out.depth_streams, vec!["bnbbtc", "bnbeth", "ethbtc"]);
    let mut ruled = symbols();
    ruled[2].filters.push(filter(&[("filterType", "NOTIONAL"), ("minNotional", "5")]));
    let out = generate_from_exchange_info(&cfg.assets, &cfg, ruled);
    assert_eq!(
        out.pair_rules.get("bnbbtc").and_then(|r| r.min_notional),
        Some(Decimal::new(5, 0))
    );
    assert_eq!(out.pair_rules.get("ethbtc").and_then(|r| r.min_notional), None);
}

#[test]
fn assets_are_cleaned_before_use() {
    let raw: Vec<String> = [" BTC", "btc", "", "Eth "].iter().map(|a| a.to_string()).collect();
    assert_eq!(normalize_and_dedupe_assets(&raw), vec!["btc", "eth"]);
    let clean = normalize_and_dedupe_assets(&raw);
    assert_eq!(normalize_and_dedupe_assets(&clean), clean);
    let few = AutoTriangleGenerationConfig { assets: raw, ..config(true, true, 0) };
    assert_eq!(
        assets_to_use(&few).unwrap_err(),
        "auto_triangle_generation.assets must contain at least 3 unique assets"
    );
    assert_eq!(assets_to_use(&config(true, true, 0)).unwrap(), vec!["btc", "eth", "bnb"]);
    assert_eq!(check_asset_count(&few), Ok(()));
    let two = AutoTriangleGenerationConfig {
        assets: vec!["a".to_string(), "b".to_string()],
        ..AutoTriangleGenerationConfig::default()
    };
    assert_eq!(
        check_asset_count(&two).unwrap_err(),
        "config.yaml auto_triangle_generation.assets must contain at least 3 assets"
    );
}

#[test]
fn a_universe_without_triangles_is_refused() {
    let cfg = config(true, true, 0);
    let none = generate_from_exchange_info(&cfg.assets, &cfg, Vec::new());
    assert_eq!(
        non_empty_universe(none).unwrap_err(),
        "no valid triangles generated from asset list and exchange symbols"
    );
    let some = generate_from_exchange_info(&cfg.assets, &cfg, symbols());
    assert_eq!(non_empty_universe(some).unwrap().triangles.len(), 6);
}

#[test]
fn small_parts_of_the_making() {
    assert_eq!(unordered_key("eth", "btc"), ("btc".to_string(), "eth".to_string()));
    assert_eq!(unordered_key("btc", "eth"), ("btc".to_string(), "eth".to_string()));
    let order = three("a", "b", "c");
    assert_eq!(rotate3(&order, 0), three("a", "b", "c"));
    assert_eq!(rotate3(&order, 4), three("b", "c", "a"));
    assert_eq!(rotate3(&order, 2), three("c", "a", "b"));
    let triangle = TriangleConfig { parts: order, pairs: three("p", "q", "r") };
    assert_eq!(triangle_key(&triangle), "a|b|c::p|q|r");
}

#[test]
fn a_generated_configuration_counts_what_it_holds() {
    let cfg = config(true, false, 0);
    let universe = generate_from_exchange_info(&cfg.assets, &cfg, symbols());
    let args = GenerateConfigArgs { output_path: "o.yaml".to_string(), include_pair_rules: true };
    let file = generated_config(&args, &cfg, universe, 77);
    assert_eq!(file.generated_at_ms, 77);
    assert_eq!(file.exchange_info_url, cfg.exchange_info_url);
    assert_eq!(file.asset_count_requested, 3);
    assert_eq!(file.used_asset_count, 3);
    assert_eq!(file.triangle_count, 2);
    assert_eq!(file.depth_stream_count, 3);
    assert_eq!(file.pair_rules.map(|rules| rules.len()), Some(3));
    let universe = generate_from_exchange_info(&cfg.assets, &cfg, symbols());
    let args = GenerateConfigArgs { include_pair_rules: false, ..args };
    assert!(generated_config(&args, &cfg, universe, 77).pair_rules.is_none());
}
