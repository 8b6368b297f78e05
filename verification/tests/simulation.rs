use arbitrage::analyzer::{Analysis, LoggedSignal, SignalLine, avg_decimal, name_of_triangle};
use arbitrage::cli::CliToken;
use arbitrage::decimal::Decimal;
use arbitrage::float_key::FloatKey;
use arbitrage::pnl_report::{
    CsvNumbers, PnlLine, PnlReport, PnlReportConfig, PnlSample, csv_escape, csv_header, csv_row,
};
use arbitrage::simulator::{
    AssetStats, SimConfig, SimSignal, Simulation, Verdict, normalize_asset_key, parse_balance_arg,
};

fn num(text: &str) -> Decimal {
    Decimal::parse(text).unwrap()
}

fn key(value: f64) -> FloatKey {
    let bits = value.to_bits() as i64;
    FloatKey { key: if bits < 0 { bits ^ i64::MAX } else { bits } }
}

fn three(a: &str, b: &str, c: &str) -> [String; 3] {
    [a.to_string(), b.to_string(), c.to_string()]
}

fn sim_signal(timestamp_ms: u64, bps: f64) -> SimSignal {
    SimSignal {
        start_asset: "USDT".to_string(),
        triangle_pairs: three("btcusdt", "ethbtc", "ethusdt"),
        timestamp_ms,
        execution_filter_passed: true,
        worthy: true,
        adjusted_profit_bps: key(bps),
    }
}

const NAME: &str = "btcusdt -> ethbtc -> ethusdt";

fn trade(sim: &mut Simulation, config: &SimConfig, signal: &SimSignal, balance: f64) {
    sim.count_line(true);
    assert_eq!(sim.consider(config, signal), Verdict::Ready);
    let available = sim.fund(config, signal, key(100.0));
    let size = sim.size(signal, available, key(1000.0), available).unwrap();
    assert_eq!(size, available);
    sim.settle(signal, key(balance));
}

#[test]
fn signals_are_traded_or_skipped_for_a_reason() {
    let config = SimConfig { min_adjusted_profit_bps: key(2.0), ..SimConfig::default() };
    let mut sim = Simulation::new(&config);
    sim.count_line(false);
    let refused = SimSignal { execution_filter_passed: false, ..sim_signal(0, 5.0) };
    sim.count_line(true);
    assert_eq!(sim.consider(&config, &refused), Verdict::NotExecutable);
    assert!(!sim.is_active(NAME));
    let unworthy = SimSignal { worthy: false, ..sim_signal(0, 5.0) };
    sim.count_line(true);
    assert_eq!(sim.consider(&config, &unworthy), Verdict::NotWorthy);
    sim.count_line(true);
    assert_eq!(sim.consider(&config, &sim_signal(0, 1.9)), Verdict::BelowThreshold);
    trade(&mut sim, &config, &sim_signal(1_000, 5.0), 101.0);
    assert!(sim.is_active(NAME));
    sim.count_line(true);
    assert_eq!(sim.consider(&config, &sim_signal(2_499, 5.0)), Verdict::CoolingDown);
    assert!(sim.is_active(NAME));
    trade(&mut sim, &config, &sim_signal(2_500, 7.0), 102.0);
    let counts = sim.counts();
    assert_eq!(counts.total_lines, 7);
    assert_eq!(counts.parsed_lines, 6);
    assert_eq!(counts.executable_signals, 5);
    assert_eq!(counts.worthy_signals, 5);
    assert_eq!(counts.skipped_not_executable, 1);
    assert_eq!(counts.skipped_not_worthy, 1);
    assert_eq!(counts.skipped_profit_threshold, 1);
    assert_eq!(counts.skipped_cooldown, 1);
    assert_eq!(counts.executed_trades, 2);
    assert_eq!((counts.wins, counts.losses_or_flat), (2, 0));
}

#[test]
fn a_signal_from_before_the_last_trade_is_not_ready() {
    let config = SimConfig::default();
    let mut sim = Simulation::new(&config);
    trade(&mut sim, &config, &sim_signal(10_000, 5.0), 101.0);
    sim.count_line(true);
    assert_eq!(sim.consider(&config, &sim_signal(1, 5.0)), Verdict::CoolingDown);
    let other = SimSignal { triangle_pairs: three("a", "b", "c"), ..sim_signal(1, 5.0) };
    sim.count_line(true);
    assert_eq!(sim.consider(&config, &other), Verdict::Ready);
}

#[test]
fn unworthy_signals_are_traded_where_asked_for() {
    let config = SimConfig { include_unworthy: true, ..SimConfig::default() };
    let mut sim = Simulation::new(&config);
    sim.count_line(true);
    let unworthy = SimSignal { worthy: false, ..sim_signal(0, 5.0) };
    assert_eq!(sim.consider(&config, &unworthy), Verdict::Ready);
}

#[test]
fn assets_are_seeded_once_and_only_where_asked_for() {
    let config = SimConfig::default();
    let mut sim = Simulation::new(&config);
    assert_eq!(sim.fund(&config, &sim_signal(0, 1.0), key(50.0)), key(50.0));
    assert_eq!(sim.fund(&config, &sim_signal(0, 1.0), key(70.0)), key(50.0));
    assert_eq!(sim.balance_rows(), vec![("usdt".to_string(), key(50.0))]);
    let no_seed = SimConfig { auto_seed_assets: false, ..SimConfig::default() };
    let mut sim = Simulation::new(&no_seed);
    assert_eq!(sim.fund(&no_seed, &sim_signal(0, 1.0), key(50.0)), key(0.0));
    assert!(sim.balance_rows().is_empty());
    sim.count_line(true);
    assert_eq!(sim.consider(&no_seed, &sim_signal(0, 1.0)), Verdict::Ready);
    assert_eq!(sim.size(&sim_signal(0, 1.0), key(0.0), key(10.0), key(0.0)), None);
    assert_eq!(sim.counts().skipped_no_balance, 1);
    assert!(!sim.is_active(NAME));
}

#[test]
fn positions_are_covered_by_cap_and_balance() {
    let config = SimConfig::default();
    let mut sim = Simulation::new(&config);
    let signal = sim_signal(0, 1.0);
    sim.count_line(true);
    assert_eq!(sim.size(&signal, key(5.0), key(3.0), key(9.0)), Some(key(3.0)));
    assert_eq!(sim.size(&signal, key(5.0), key(30.0), key(4.0)), Some(key(4.0)));
    assert_eq!(sim.size(&signal, key(5.0), key(30.0), key(9.0)), Some(key(5.0)));
    assert_eq!(sim.size(&signal, key(f64::NAN), key(30.0), key(9.0)), Some(key(9.0)));
    sim.count_line(true);
    assert_eq!(sim.size(&signal, key(f64::INFINITY), key(f64::INFINITY), key(f64::INFINITY)), None);
}

#[test]
fn trades_are_counted_by_asset_and_triangle() {
    let mut config = SimConfig {
        retrigger_cooldown_ms: 0,
        min_adjusted_profit_bps: key(-10.0),
        ..SimConfig::default()
    };
    config.initial_balances.insert("usdt".to_string(), key(10.0));
    config.initial_balances.insert("btc".to_string(), key(1.0));
    let mut sim = Simulation::new(&config);
    trade(&mut sim, &config, &sim_signal(1, 5.0), 11.0);
    trade(&mut sim, &config, &sim_signal(1, -3.0), 10.5);
    let asset = sim.asset_stats("USDT").unwrap();
    assert_eq!((asset.trades, asset.wins, asset.losses_or_flat), (2, 1, 1));
    assert_eq!(asset.max_adjusted_bps, key(5.0));
    assert_eq!(asset.min_adjusted_bps, key(-3.0));
    assert!(sim.asset_stats("usdt").is_none());
    let triangle = sim.triangle_stats(NAME).unwrap();
    assert_eq!((triangle.trades, triangle.wins), (2, 1));
    assert_eq!(triangle.start_asset, "USDT");
    assert_eq!(triangle.max_adjusted_bps, key(5.0));
    assert_eq!(
        sim.balance_rows(),
        vec![("btc".to_string(), key(1.0)), ("usdt".to_string(), key(10.5))]
    );
}

#[test]
fn the_largest_of_losses_starts_at_zero_for_assets_only() {
    let config = SimConfig { min_adjusted_profit_bps: key(-10.0), ..SimConfig::default() };
    let mut sim = Simulation::new(&config);
    trade(&mut sim, &config, &sim_signal(1, -3.0), 99.0);
    assert_eq!(sim.asset_stats("USDT").unwrap().max_adjusted_bps, key(0.0));
    assert_eq!(sim.triangle_stats(NAME).unwrap().max_adjusted_bps, key(-3.0));
}

#[test]
fn balances_are_read_from_arguments() {
    assert_eq!(normalize_asset_key(" BtC "), "btc");
    let token = CliToken {
        text: "BTC=0.25".to_string(),
        number: None,
        amount: Some(key(0.25)),
    };
    assert_eq!(parse_balance_arg(&token), Ok(("btc".to_string(), key(0.25))));
}

fn pnl_line(passed: bool, worthy: bool, bps: f64) -> PnlLine {
    PnlLine::Signal { execution_filter_passed: passed, worthy, adjusted_bps: key(bps) }
}

#[test]
fn a_report_takes_the_signals_that_it_is_asked_for() {
    let config = PnlReportConfig { min_adjusted_bps: key(1.0), ..PnlReportConfig::default() };
    let mut report = PnlReport::new();
    assert!(!report.consider(&config, PnlLine::Blank));
    assert!(!report.consider(&config, PnlLine::Unreadable));
    assert!(!report.consider(&config, pnl_line(false, true, 5.0)));
    assert!(!report.consider(&config, pnl_line(true, false, 5.0)));
    assert!(!report.consider(&config, pnl_line(true, true, 0.5)));
    assert!(report.consider(&config, pnl_line(true, true, 1.0)));
    assert_eq!(report.lines(), (6, 4, 1));
    let lenient = PnlReportConfig {
        require_worthy: false,
        require_execution_passed: false,
        ..config
    };
    assert!(report.consider(&lenient, pnl_line(false, false, 5.0)));
    assert!(report.consider(&lenient, pnl_line(false, false, f64::NAN)));
}

#[test]
fn a_report_sums_up_by_triangle() {
    let config = PnlReportConfig { min_adjusted_bps: key(-10.0), ..PnlReportConfig::default() };
    let mut report = PnlReport::new();
    let sample = |bps: f64, pnl: f64, timestamp_ms: u64| PnlSample {
        adjusted_bps: key(bps),
        adjusted_pnl: key(pnl),
        timestamp_ms,
    };
    for bps in [-2.0, 3.0, 1.0] {
        assert!(report.consider(&config, pnl_line(true, true, bps)));
    }
    assert_eq!(report.record("t1", "usdt", sample(-2.0, -0.2, 30)), 0);
    assert_eq!(report.record("t2", "btc", sample(3.0, 0.3, 10)), 1);
    assert_eq!(report.record("t1", "usdt", sample(1.0, 0.1, 20)), 0);
    assert_eq!(report.len(), 2);
    let (name, stats) = report.row(0);
    assert_eq!(name, "t1");
    assert_eq!(stats.start_asset, "usdt");
    assert_eq!((stats.samples, stats.positive_adjusted_samples), (2, 1));
    assert_eq!(stats.max_adjusted_bps, key(1.0));
    assert_eq!(stats.max_adjusted_pnl, key(0.1));
    assert_eq!(stats.last_timestamp_ms, 30);
    let numbers = CsvNumbers {
        sum_adjusted_pnl: "-0.10000000".to_string(),
        sum_raw_pnl: "0.00000000".to_string(),
        avg_adjusted_bps: "-0.50000000".to_string(),
        max_adjusted_bps: "1.00000000".to_string(),
    };
    assert_eq!(
        csv_row("a \"b\"", stats, &numbers),
        "\"a \"\"b\"\"\",usdt,2,1,-0.10000000,0.00000000,-0.50000000,1.00000000,30"
    );
    assert_eq!(csv_escape("\""), "\"\"");
    assert!(csv_header().starts_with("triangle,asset,samples,positive_samples,"));
}

fn signal(pairs: [String; 3], bps: &str, hit_rate: &str, worthy: bool) -> SignalLine {
    SignalLine::Signal(LoggedSignal {
        triangle_pairs: pairs,
        worthy,
        best_profit_bps: num(bps),
        hit_rate: num(hit_rate),
    })
}

#[test]
fn an_analysis_ranks_triangles_by_their_average() {
    let mut analysis = Analysis::new();
    analysis.take(SignalLine::Blank).unwrap();
    analysis.take(signal(three("a", "b", "c"), "1", "0.5", true)).unwrap();
    analysis.take(signal(three("a", "b", "c"), "4", "1", false)).unwrap();
    analysis.take(SignalLine::Unreadable).unwrap();
    analysis.take(signal(three("d", "e", "f"), "-7", "0", false)).unwrap();
    analysis.take(signal(three("g", "h", "i"), "3", "0.1", true)).unwrap();
    assert_eq!(analysis.lines(), (6, 4));
    let (rows, order) = analysis.rows().unwrap();
    assert_eq!(order, vec![2, 0, 1]);
    assert_eq!(rows.iter().map(|row| row.samples).sum::<usize>(), analysis.lines().1);
    assert_eq!(rows[0].triangle, "g -> h -> i");
    assert_eq!(rows[1].triangle, "a -> b -> c");
    assert_eq!((rows[1].samples, rows[1].worthy_samples), (2, 1));
    assert_eq!(rows[1].avg_best_profit_bps, num("2.5"));
    assert_eq!(rows[1].max_best_profit_bps, num("4"));
    assert_eq!(rows[1].avg_hit_rate, num("0.75"));
    assert_eq!(rows[2].max_best_profit_bps, num("-7"));
    assert_eq!(avg_decimal(num("5"), 0), Some(num("0")));
    assert_eq!(name_of_triangle(&three("x", "y", "z")), "x -> y -> z");
}

#[test]
fn an_analysis_reports_sums_that_get_too_large() {
    let mut analysis = Analysis::new();
    let big = "79228162514264337593543950335";
    analysis.take(signal(three("a", "b", "c"), big, "0", true)).unwrap();
    assert!(analysis.take(signal(three("a", "b", "c"), big, "0", true)).is_err());
    assert_eq!(analysis.lines(), (1, 1));
}

#[test]
fn smallest_profit_is_zero_until_there_is_one() {
    let none = AssetStats {
        trades: 0,
        wins: 0,
        losses_or_flat: 0,
        max_adjusted_bps: FloatKey::zero(),
        min_adjusted_bps: FloatKey::infinity(),
    };
    assert_eq!(none.shown_min(), FloatKey::zero());
    let one = AssetStats { trades: 1, wins: 1, min_adjusted_bps: FloatKey::one(), ..none };
    assert_eq!(one.shown_min(), FloatKey::one());
    let unbounded = AssetStats { trades: 1, ..none };
    assert_eq!(unbounded.shown_min(), FloatKey::zero());
}
