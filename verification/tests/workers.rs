use arbitrage::config::{
    AppConfig, AutoTriangleGenerationConfig, ConfigNumber, ExchangeRulesConfig, PairRuleConfig,
    TriangleConfig,
};
use arbitrage::decimal::Decimal;
use arbitrage::float_key::FloatKey;
use arbitrage::models::{
    DepthStreamData, DepthStreamWrapper, OfferData, TriangleOpportunitySignal,
};
use arbitrage::text_map::TextMap;
use arbitrage::workers::{
    SendResult, SignalFloats, TradeError, WorkerAction, WorkerEvent, apply_qty_rounding,
    assumed_start_amount_for_asset, build_opportunity_signal, build_triangle_outputs,
    calc_triangle_step,
    calculate_triangle_profits, evaluate_execution_filters, fee_bps_for_pair, floor_to_step,
    has_audience, is_worthy, note_send, pair_rule_for_pair, profit_to_bps, simulate_leg,
    simulate_triangle_path_amount, take_event, trade_side, validate_base_qty_rules,
    validate_min_notional, TradeSide,
};
use rust_decimal::prelude::{FromPrimitive, ToPrimitive};

fn num(text: &str) -> Decimal {
    Decimal::parse(text).unwrap()
}

fn key(value: f64) -> FloatKey {
    let bits = value.to_bits() as i64;
    FloatKey { key: if bits < 0 { bits ^ i64::MAX } else { bits } }
}

fn float(key: FloatKey) -> f64 {
    let bits = if key.key < 0 { key.key ^ i64::MAX } else { key.key };
    f64::from_bits(bits as u64)
}

fn configured(value: f64) -> ConfigNumber {
    let decimal = rust_decimal::Decimal::from_f64(value).unwrap_or(rust_decimal::Decimal::ZERO);
    ConfigNumber {
        float: key(value),
        decimal: Decimal::from_parts(decimal.mantissa(), decimal.scale()).unwrap(),
    }
}

fn offer(price: &str, size: &str) -> OfferData {
    OfferData { price: num(price), size: num(size) }
}

fn depth(stream: &str, asks: &[(&str, &str)], bids: &[(&str, &str)]) -> DepthStreamWrapper {
    DepthStreamWrapper {
        stream: stream.to_string(),
        data: DepthStreamData {
            last_update_id: 1,
            bids: bids.iter().map(|(p, s)| offer(p, s)).collect(),
            asks: asks.iter().map(|(p, s)| offer(p, s)).collect(),
        },
    }
}

fn no_rule() -> PairRuleConfig {
    PairRuleConfig::default()
}

fn rules(enabled: bool) -> ExchangeRulesConfig {
    ExchangeRulesConfig {
        enabled,
        default_fee_bps: configured(0.0),
        latency_penalty_bps: key(0.0),
        default_assumed_start_amount: configured(1.0),
        assumed_start_amounts: TextMap::new(),
        pair_rules: TextMap::new(),
    }
}

fn three(a: &str, b: &str, c: &str) -> [String; 3] {
    [a.to_string(), b.to_string(), c.to_string()]
}

fn triangle() -> TriangleConfig {
    TriangleConfig {
        parts: three("usdt", "btc", "eth"),
        pairs: three("btcusdt", "ethbtc", "ethusdt"),
    }
}

fn config(exchange_rules: ExchangeRulesConfig) -> AppConfig {
    AppConfig {
        update_interval: 100,
        results_limit: 20,
        depth_streams: Vec::new(),
        triangles: vec![triangle()],
        bind_addr: "127.0.0.1".to_string(),
        bind_port: 8000,
        reconnect_delay_ms: 1_500,
        signal_log_enabled: true,
        signal_log_path: "signals.jsonl".to_string(),
        signal_log_channel_capacity: 2048,
        signal_min_profit_bps: key(8.0),
        signal_min_hit_rate: key(0.2),
        exchange_rules,
        auto_triangle_generation: AutoTriangleGenerationConfig::default(),
    }
}

// One dollar buys 1/100 btc, that buys 1/10 eth, which sells for 1.1 dollars on
// the first level and for 0.9 on the second.
fn market() -> TextMap<DepthStreamWrapper> {
    let mut data = TextMap::new();
    data.insert(
        "btcusdt".to_string(),
        depth("btcusdt@depth", &[("100", "5"), ("100", "5")], &[("99", "5"), ("98", "5")]),
    );
    data.insert(
        "ethbtc".to_string(),
        depth("ethbtc@depth", &[("0.1", "5"), ("0.1", "5")], &[("0.09", "5"), ("0.08", "5")]),
    );
    data.insert(
        "ethusdt".to_string(),
        depth("ethusdt@depth", &[("12", "5"), ("12", "5")], &[("11", "5"), ("9", "5")]),
    );
    data
}

#[test]
fn sell_side_uses_bid() {
    let amount = calc_triangle_step(
        Decimal::from_i64(2),
        Decimal::from_i64(10),
        Decimal::from_i64(9),
        "bnbbtc",
        "bnb",
        Decimal::zero(),
    );
    assert_eq!(amount, Some(Decimal::from_i64(18)));
}

#[test]
fn buy_side_uses_ask() {
    let amount = calc_triangle_step(
        Decimal::one(),
        Decimal::from_i64(2),
        num("1.9"),
        "ethbtc",
        "btc",
        Decimal::zero(),
    );
    assert_eq!(amount, Some(num("0.5")));
}

#[test]
fn the_other_price_does_not_count() {
    for other in ["0", "1", "123"] {
        let sold = calc_triangle_step(num("2"), num(other), num("9"), "bnbbtc", "bnb", num("0"));
        assert_eq!(sold, Some(num("18")));
        let bought = calc_triangle_step(num("1"), num("2"), num(other), "ethbtc", "btc", num("0"));
        assert_eq!(bought, Some(num("0.5")));
    }
    assert_eq!(trade_side("bnbbtc", "bnb"), TradeSide::SellBase);
    assert_eq!(trade_side("ethbtc", "btc"), TradeSide::BuyBase);
}

#[test]
fn fees_come_off_first_and_are_never_negative() {
    let sold = calc_triangle_step(num("2"), num("1"), num("10"), "bnbbtc", "bnb", num("10"));
    assert_eq!(sold, Some(num("19.98")));
    let negative = calc_triangle_step(num("2"), num("1"), num("10"), "bnbbtc", "bnb", num("-10"));
    assert_eq!(negative, Some(num("20")));
    assert_eq!(calc_triangle_step(num("1"), num("0"), num("1"), "ethbtc", "btc", num("0")), None);
}

#[test]
fn rules_are_found_by_name_or_in_small_letters() {
    let mut r = rules(true);
    r.default_fee_bps = configured(7.5);
    r.pair_rules.insert(
        "btcusdt".to_string(),
        PairRuleConfig { fee_bps: Some(configured(2.0)), ..no_rule() },
    );
    r.pair_rules.insert("ethbtc".to_string(), no_rule());
    r.pair_rules.insert(
        "bnbbtc".to_string(),
        PairRuleConfig { fee_bps: Some(configured(-1.0)), ..no_rule() },
    );
    assert!(pair_rule_for_pair(&r, "BTCUSDT").is_some());
    assert!(pair_rule_for_pair(&r, "btceur").is_none());
    assert_eq!(fee_bps_for_pair(&r, "btcusdt"), configured(2.0));
    assert_eq!(fee_bps_for_pair(&r, "ethbtc"), configured(7.5));
    assert_eq!(fee_bps_for_pair(&r, "btceur"), configured(7.5));
    assert_eq!(fee_bps_for_pair(&r, "bnbbtc"), configured(0.0));
    r.assumed_start_amounts.insert("usdt".to_string(), configured(250.0));
    assert_eq!(assumed_start_amount_for_asset(&r, "USDT"), configured(250.0));
    assert_eq!(assumed_start_amount_for_asset(&r, "eth"), configured(1.0));
    assert_eq!(configured(f64::MIN_POSITIVE).decimal, num("0"));
    for amount in [0.0, -1.0, f64::NAN, f64::NEG_INFINITY] {
        r.assumed_start_amounts.insert("btc".to_string(), configured(amount));
        assert_eq!(assumed_start_amount_for_asset(&r, "btc"), configured(f64::MIN_POSITIVE));
        r.default_fee_bps = configured(amount);
        assert_eq!(fee_bps_for_pair(&r, "btceur"), configured(0.0));
    }
}

#[test]
fn quantities_are_rounded_down_to_steps() {
    assert_eq!(floor_to_step(num("1.2399"), num("0.01")), Some(num("1.23")));
    assert_eq!(floor_to_step(num("1.2399"), num("0")), Some(num("1.2399")));
    let rule = PairRuleConfig { qty_step: Some(num("0.5")), ..no_rule() };
    assert_eq!(apply_qty_rounding(num("1.9"), Some(rule)), Some(num("1.5")));
    assert_eq!(apply_qty_rounding(num("1.9"), Some(no_rule())), Some(num("1.9")));
    assert_eq!(apply_qty_rounding(num("1.9"), None), Some(num("1.9")));
    assert_eq!(profit_to_bps(num("0.0015")), Some(num("15")));
}

#[test]
fn quantities_and_notionals_are_checked() {
    let rule = PairRuleConfig {
        min_qty: Some(num("0.10")),
        min_notional: Some(num("10")),
        ..no_rule()
    };
    assert_eq!(validate_base_qty_rules("ethbtc", num("0.1"), Some(rule)), Ok(()));
    assert_eq!(
        validate_base_qty_rules("ethbtc", num("0.05"), Some(rule)).unwrap_err(),
        "quantity below min_qty on ethbtc (0.05 < 0.10)"
    );
    assert_eq!(
        validate_base_qty_rules("ethbtc", num("0"), None).unwrap_err(),
        "non-positive rounded quantity on ethbtc"
    );
    assert_eq!(validate_min_notional("ethbtc", num("10"), Some(rule)), Ok(()));
    assert_eq!(
        validate_min_notional("ethbtc", num("9.99"), Some(rule)).unwrap_err(),
        "notional below min_notional on ethbtc (9.99 < 10)"
    );
    assert_eq!(validate_min_notional("ethbtc", num("0"), None), Ok(()));
}

fn leg(amount: &str, pair: &str, part: &str, enforce: bool, rule: PairRuleConfig) -> Result<Decimal, String> {
    let mut r = rules(true);
    r.pair_rules.insert(pair.to_string(), rule);
    simulate_leg(
        num(amount),
        pair,
        part,
        &offer("2", "4"),
        &offer("1.5", "3"),
        num("0"),
        enforce,
        &r,
    )
    .map_err(|error| match error {
        TradeError::Rejected(reason) => reason,
        TradeError::OutOfRange => "out of range".to_string(),
    })
}

#[test]
fn legs_are_traded_or_refused() {
    let step = PairRuleConfig { qty_step: Some(num("1")), ..no_rule() };
    assert_eq!(leg("2.5", "ethbtc", "eth", false, step), Ok(num("3.75")));
    assert_eq!(leg("2.5", "ethbtc", "eth", true, step), Ok(num("3")));
    assert_eq!(leg("5", "ethbtc", "btc", false, step), Ok(num("2.5")));
    assert_eq!(leg("5", "ethbtc", "btc", true, step), Ok(num("2")));
    assert_eq!(
        leg("0", "ethbtc", "btc", true, step),
        Err("invalid input amount for ethbtc".to_string())
    );
    assert_eq!(
        leg("0.5", "ethbtc", "eth", true, step),
        Err("non-positive rounded quantity on ethbtc".to_string())
    );
    assert_eq!(
        leg("4", "ethbtc", "eth", true, step),
        Err("insufficient bid depth on ethbtc".to_string())
    );
    assert_eq!(
        leg("10", "ethbtc", "btc", true, step),
        Err("insufficient ask depth on ethbtc".to_string())
    );
    let notional = PairRuleConfig { min_notional: Some(num("4")), ..no_rule() };
    assert_eq!(
        leg("2", "ethbtc", "eth", true, notional),
        Err("notional below min_notional on ethbtc (3.0 < 4)".to_string())
    );
    assert_eq!(
        leg("3.5", "ethbtc", "btc", true, notional),
        Err("notional below min_notional on ethbtc (3.5 < 4)".to_string())
    );
    let smallest = PairRuleConfig { min_qty: Some(num("3")), ..no_rule() };
    assert_eq!(
        leg("5", "ethbtc", "btc", true, smallest),
        Err("quantity below min_qty on ethbtc (2.50 < 3)".to_string())
    );
}

#[test]
fn asks_that_are_not_above_zero_are_refused() {
    let r = rules(false);
    let negative = simulate_leg(
        num("1"),
        "ethbtc",
        "btc",
        &offer("-2", "4"),
        &offer("1", "1"),
        num("0"),
        false,
        &r,
    );
    assert!(matches!(
        negative,
        Err(TradeError::Rejected(reason)) if reason == "invalid ask price on ethbtc"
    ));
    let zero = simulate_leg(
        num("1"),
        "ethbtc",
        "btc",
        &offer("0", "4"),
        &offer("1", "1"),
        num("0"),
        false,
        &r,
    );
    assert!(matches!(zero, Err(TradeError::OutOfRange)));
}

#[test]
fn profits_are_those_of_the_common_levels() {
    let data = market();
    let r = rules(false);
    let points = calculate_triangle_profits(
        data.get("btcusdt").unwrap(),
        data.get("ethbtc").unwrap(),
        data.get("ethusdt").unwrap(),
        "btcusdt",
        "ethbtc",
        "ethusdt",
        ["usdt", "btc", "eth"],
        &r,
    )
    .unwrap();
    assert_eq!(points.len(), 2);
    assert_eq!((points[0].level_index, points[0].profit), (0, num("0.1")));
    assert_eq!((points[1].level_index, points[1].profit), (1, num("-0.1")));
    let short = depth("ethbtc@depth", &[("0", "5"), ("0.1", "5")], &[("0.09", "5"), ("1", "1"), ("1", "1")]);
    let points = calculate_triangle_profits(
        data.get("btcusdt").unwrap(),
        &short,
        data.get("ethusdt").unwrap(),
        "btcusdt",
        "ethbtc",
        "ethusdt",
        ["usdt", "btc", "eth"],
        &r,
    )
    .unwrap();
    assert_eq!(points.len(), 1);
    assert_eq!(points[0].level_index, 1);
}

#[test]
fn a_walk_over_all_legs() {
    let data = market();
    let r = rules(true);
    let amount = simulate_triangle_path_amount(
        &triangle(),
        data.get("btcusdt").unwrap(),
        data.get("ethbtc").unwrap(),
        data.get("ethusdt").unwrap(),
        0,
        num("20"),
        &[num("0"), num("0"), num("0")],
        true,
        &r,
    );
    assert_eq!(amount.ok(), Some(num("22")));
    let too_much = simulate_triangle_path_amount(
        &triangle(),
        data.get("btcusdt").unwrap(),
        data.get("ethbtc").unwrap(),
        data.get("ethusdt").unwrap(),
        0,
        num("200"),
        &[num("0"), num("0"), num("0")],
        true,
        &r,
    );
    assert!(matches!(
        too_much,
        Err(TradeError::Rejected(reason)) if reason == "insufficient ask depth on ethbtc"
    ));
}

#[test]
fn filters_pass_refuse_and_take_latency_off() {
    let data = market();
    let evaluate = |r: &ExchangeRulesConfig| {
        evaluate_execution_filters(
            &triangle(),
            data.get("btcusdt").unwrap(),
            data.get("ethbtc").unwrap(),
            data.get("ethusdt").unwrap(),
            0,
            r,
        )
        .unwrap()
    };
    let mut r = rules(false);
    r.latency_penalty_bps = key(3.0);
    r.default_assumed_start_amount = configured(200.0);
    let free = evaluate(&r);
    assert!(free.execution_filter_passed);
    assert_eq!(free.executable_profit_bps, num("1000"));
    assert_eq!(free.latency_penalty_bps, key(0.0));
    r.enabled = true;
    let refused = evaluate(&r);
    assert!(!refused.execution_filter_passed);
    assert_eq!(refused.rejection_reasons, vec!["insufficient ask depth on ethbtc"]);
    assert_eq!(refused.executable_profit_bps, num("0"));
    assert_eq!(refused.latency_penalty_bps, key(3.0));
    r.default_assumed_start_amount = configured(20.0);
    let passed = evaluate(&r);
    assert!(passed.execution_filter_passed);
    assert_eq!(passed.assumed_start_amount, key(20.0));
    assert_eq!(passed.executable_profit_bps, num("1000"));
    assert_eq!(passed.latency_penalty_bps, key(3.0));
    assert_eq!(passed.fee_bps_by_leg, [key(0.0), key(0.0), key(0.0)]);
    r.latency_penalty_bps = key(-3.0);
    assert_eq!(evaluate(&r).latency_penalty_bps, key(0.0));
    r.latency_penalty_bps = key(f64::NAN);
    assert_eq!(evaluate(&r).latency_penalty_bps, key(0.0));
}

#[test]
fn without_an_amount_a_triangle_is_walked_with_a_tiny_one() {
    let data = market();
    let mut r = rules(true);
    r.default_assumed_start_amount = configured(0.0);
    let outcome = evaluate_execution_filters(
        &triangle(),
        data.get("btcusdt").unwrap(),
        data.get("ethbtc").unwrap(),
        data.get("ethusdt").unwrap(),
        0,
        &r,
    )
    .unwrap();
    assert_eq!(outcome.assumed_start_amount, key(f64::MIN_POSITIVE));
    assert!(outcome.execution_filter_passed);
    assert_eq!(outcome.executable_profit_bps, num("1000"));
    let tiny = 1e-30;
    r.default_assumed_start_amount = configured(tiny);
    let outcome = evaluate_execution_filters(
        &triangle(),
        data.get("btcusdt").unwrap(),
        data.get("ethbtc").unwrap(),
        data.get("ethusdt").unwrap(),
        0,
        &r,
    )
    .unwrap();
    assert_eq!(outcome.assumed_start_amount, key(tiny));
    assert_eq!(outcome.executable_profit_bps, num("1000"));
}

fn signal_on(
    data: &TextMap<DepthStreamWrapper>,
    triangle: &TriangleConfig,
    cfg: &AppConfig,
    timestamp_ms: u64,
) -> TriangleOpportunitySignal {
    let outputs = build_triangle_outputs(data, triangle, cfg).unwrap().unwrap();
    let executable = outputs.execution.executable_profit_bps;
    let executable =
        rust_decimal::Decimal::from_i128_with_scale(executable.mantissa(), executable.scale());
    let floats = SignalFloats {
        hit_rate: key(
            outputs.summary.profitable_levels as f64
                / outputs.summary.depth_levels_considered as f64,
        ),
        adjusted_profit_bps: key(
            executable.to_f64().unwrap() - float(outputs.execution.latency_penalty_bps),
        ),
    };
    build_opportunity_signal(
        triangle,
        outputs.payload.start_pair_data,
        outputs.payload.mid_pair_data,
        outputs.payload.end_pair_data,
        outputs.summary,
        outputs.execution,
        floats,
        cfg.signal_min_profit_bps,
        cfg.signal_min_hit_rate,
        timestamp_ms,
    )
}

#[test]
fn a_triangle_gives_a_signal() {
    let data = market();
    let cfg = config(rules(true));
    let triangle = triangle();
    let outputs = build_triangle_outputs(&data, &triangle, &cfg).unwrap().unwrap();
    assert_eq!(outputs.payload.profits, vec![num("0.1"), num("-0.1")]);
    assert_eq!(outputs.payload.triangle, &triangle.parts);
    assert_eq!(outputs.payload.mid_pair_data.stream, "ethbtc@depth");
    assert_eq!(outputs.summary.best_profit, num("0.1"));
    let signal = signal_on(&data, &triangle, &cfg, 4242);
    assert_eq!(signal.timestamp_ms, 4242);
    assert_eq!(signal.exchange, "binance");
    assert_eq!(signal.triangle_parts, triangle.parts);
    assert_eq!(signal.triangle_pairs, triangle.pairs);
    assert_eq!(signal.depth_levels_considered, 2);
    assert_eq!(signal.profitable_levels, 1);
    assert_eq!(signal.hit_rate, key(0.5));
    assert_eq!(signal.adjusted_profit_bps, key(1000.0));
    assert_eq!(signal.assumed_start_amount, key(1.0));
    assert_eq!(signal.min_profit_bps_threshold, key(8.0));
    assert_eq!(signal.min_hit_rate_threshold, key(0.2));
    assert_eq!(signal.top_profit_bps, num("1000"));
    assert_eq!(signal.best_profit_bps, num("1000"));
    assert_eq!(signal.avg_profit_bps, num("0"));
    assert_eq!(signal.best_level_index, 0);
    assert!(signal.execution_filter_passed);
    assert!(signal.worthy);
    assert_eq!(signal.best_level_quotes[1].pair, "ethbtc");
    assert_eq!(signal.best_level_quotes[1].ask_price, num("0.1"));
    assert_eq!(signal.best_level_quotes[2].bid_price, num("11"));
    assert_eq!(signal.best_level_quotes[2].bid_size, num("5"));
}

#[test]
fn a_signal_is_worthy_only_within_both_thresholds() {
    let data = market();
    let triangle = triangle();
    let mut cfg = config(rules(true));
    cfg.signal_min_profit_bps = key(1000.0);
    cfg.signal_min_hit_rate = key(0.5);
    assert!(signal_on(&data, &triangle, &cfg, 1).worthy);
    cfg.signal_min_profit_bps = key(1000.01);
    assert!(!signal_on(&data, &triangle, &cfg, 1).worthy);
    cfg.signal_min_profit_bps = key(f64::NAN);
    assert!(!signal_on(&data, &triangle, &cfg, 1).worthy);
    cfg.signal_min_profit_bps = key(8.0);
    cfg.signal_min_hit_rate = key(0.51);
    assert!(!signal_on(&data, &triangle, &cfg, 1).worthy);
    cfg.signal_min_hit_rate = key(0.2);
    cfg.exchange_rules.default_assumed_start_amount = configured(200.0);
    let refused = signal_on(&data, &triangle, &cfg, 1);
    assert!(!refused.worthy);
    assert_eq!(refused.rejection_reasons, vec!["insufficient ask depth on ethbtc"]);
    let floats = |hit_rate: f64, profit: f64| SignalFloats {
        hit_rate: key(hit_rate),
        adjusted_profit_bps: key(profit),
    };
    let rate = 5.0 / 9.0;
    assert!(is_worthy(true, floats(rate, 8.0), key(8.0), key(0.5555555555555556)));
    assert!(!is_worthy(true, floats(rate, 8.0), key(8.0), key(0.5555555555555557)));
    assert!(!is_worthy(true, floats(f64::NAN, 8.0), key(8.0), key(0.2)));
    assert!(is_worthy(true, floats(0.0, -0.0), key(0.0), key(-0.0)));
    assert!(!is_worthy(false, floats(1.0, 9.0), key(8.0), key(0.2)));
}

#[test]
fn of_equal_levels_the_last_is_the_best() {
    let mut data = market();
    data.insert(
        "ethusdt".to_string(),
        depth("ethusdt@depth", &[("12", "5"), ("12", "5")], &[("11", "5"), ("11.0", "5")]),
    );
    let cfg = config(rules(false));
    let triangle = triangle();
    let outputs = build_triangle_outputs(&data, &triangle, &cfg).unwrap().unwrap();
    assert_eq!(outputs.summary.best_level_index, 1);
    assert_eq!(outputs.summary.profitable_levels, 2);
}

#[test]
fn there_is_nothing_to_tell_without_data() {
    let cfg = config(rules(false));
    let triangle = triangle();
    let mut data = market();
    data.remove("ethbtc");
    assert!(build_triangle_outputs(&data, &triangle, &cfg).unwrap().is_none());
    data.insert("ethbtc".to_string(), depth("ethbtc@depth", &[], &[]));
    assert!(build_triangle_outputs(&data, &triangle, &cfg).unwrap().is_none());
}

#[test]
fn numbers_that_get_too_large_are_reported() {
    let cfg = config(rules(false));
    let triangle = triangle();
    let mut data = market();
    let tiny = "0.0000000000000000000000000001";
    data.insert("btcusdt".to_string(), depth("btcusdt@depth", &[(tiny, "1")], &[(tiny, "1")]));
    data.insert("ethbtc".to_string(), depth("ethbtc@depth", &[(tiny, "1")], &[(tiny, "1")]));
    assert!(build_triangle_outputs(&data, &triangle, &cfg).is_err());
}

#[test]
fn events_of_the_socket_lead_to_actions() {
    let mut data: TextMap<DepthStreamWrapper> = TextMap::new();
    let depth_event = || WorkerEvent::Depth(depth("btcusdt@depth20@100ms", &[], &[]));
    assert_eq!(take_event(&mut data, depth_event(), 99_999_999, 100), WorkerAction::Wait);
    assert!(data.contains_key("btcusdt"));
    assert_eq!(take_event(&mut data, depth_event(), 100_000_000, 100), WorkerAction::Publish);
    assert_eq!(data.len(), 1);
    assert_eq!(take_event(&mut data, depth_event(), 999_999, 0), WorkerAction::Wait);
    assert_eq!(take_event(&mut data, depth_event(), 1_000_000, 0), WorkerAction::Publish);
    let late = u128::MAX;
    assert_eq!(take_event(&mut data, WorkerEvent::Unreadable, late, 100), WorkerAction::Wait);
    assert_eq!(take_event(&mut data, WorkerEvent::Pong, late, 100), WorkerAction::Wait);
    assert_eq!(take_event(&mut data, WorkerEvent::Other, late, 100), WorkerAction::Wait);
    assert_eq!(take_event(&mut data, WorkerEvent::Ping, late, 100), WorkerAction::AnswerPing);
    assert_eq!(take_event(&mut data, WorkerEvent::End, late, 100), WorkerAction::Stop);
    assert_eq!(take_event(&mut data, WorkerEvent::Failed, late, 100), WorkerAction::Stop);
    assert_eq!(take_event(&mut data, WorkerEvent::Close, late, 100), WorkerAction::Stop);
}

#[test]
fn clients_that_take_no_more_are_noted_once() {
    assert!(has_audience(1, false));
    assert!(has_audience(0, true));
    assert!(!has_audience(0, false));
    let mut stale = Vec::new();
    let a = "a".to_string();
    let b = "b".to_string();
    note_send(&mut stale, &a, SendResult::Closed);
    note_send(&mut stale, &b, SendResult::Full);
    note_send(&mut stale, &b, SendResult::Sent);
    note_send(&mut stale, &a, SendResult::Closed);
    assert_eq!(stale, vec!["a"]);
}

#[test]
fn a_refusal_shows_the_minus_sign_of_a_zero() {
    let mut r = rules(true);
    r.pair_rules.insert(
        "ethbtc".to_string(),
        PairRuleConfig { min_notional: Some(num("1")), ..no_rule() },
    );
    let refused = simulate_leg(
        num("0.00000000012345678901"),
        "ethbtc",
        "eth",
        &offer("2", "4"),
        &offer("-0.0000000000000000000000000001", "3"),
        num("0"),
        true,
        &r,
    );
    assert!(matches!(
        refused,
        Err(TradeError::Rejected(reason)) if reason
            == "notional below min_notional on ethbtc (-0.0000000000000000000000000000 < 1)"
    ));
}

#[test]
fn rounded_quantities_are_in_whole_steps() {
    for (value, step, rounded) in [
        ("1.2399", "0.01", "1.23"),
        ("1.24", "0.01", "1.24"),
        ("10", "3", "9"),
        ("0.5", "1", "0"),
        ("0.9999999999", "0.0000000003", "0.9999999999"),
    ] {
        assert_eq!(floor_to_step(num(value), num(step)), Some(num(rounded)));
    }
}
