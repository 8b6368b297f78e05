use arbitrage::analyzer;
use arbitrage::capture_replay;
use arbitrage::cli::{CliRequest, CliToken};
use arbitrage::float_key::FloatKey;
use arbitrage::generate_config;
use arbitrage::pnl_report;
use arbitrage::replay_check;
use arbitrage::simulator;

fn key(value: f64) -> FloatKey {
    let bits = value.to_bits() as i64;
    FloatKey { key: if bits < 0 { bits ^ i64::MAX } else { bits } }
}

fn token(text: &str) -> CliToken {
    CliToken {
        text: text.to_string(),
        number: text.parse::<f64>().ok().map(key),
        amount: text
            .split_once('=')
            .and_then(|(_, amount)| amount.parse::<f64>().ok())
            .map(key),
    }
}

fn tokens(texts: &[&str]) -> Vec<CliToken> {
    texts.iter().map(|t| token(t)).collect()
}

fn strings(texts: &[&str]) -> Vec<String> {
    texts.iter().map(|t| t.to_string()).collect()
}

#[test]
fn capture_replay_parse_args_defaults() {
    let cfg = capture_replay::parse_args(&Vec::new()).expect("parse");
    assert_eq!(cfg.output_path, "data/replay_market.jsonl");
    assert!(!cfg.append);
    assert!(cfg.startup_snapshots);
    assert!(cfg.duration_secs.is_none());
    assert!(cfg.max_diffs.is_none());
}

#[test]
fn capture_replay_parse_args_custom() {
    let cfg = capture_replay::parse_args(&vec![
        "out.jsonl".to_string(),
        "--append".to_string(),
        "--seconds".to_string(),
        "30".to_string(),
        "--max-diffs".to_string(),
        "100".to_string(),
        "--no-startup-snapshots".to_string(),
    ])
    .expect("parse");
    assert_eq!(cfg.output_path, "out.jsonl");
    assert!(cfg.append);
    assert_eq!(cfg.duration_secs, Some(30));
    assert_eq!(cfg.max_diffs, Some(100));
    assert!(!cfg.startup_snapshots);
}

#[test]
fn generate_config_parse_defaults() {
    let args = generate_config::parse_args(&Vec::new()).expect("parse");
    assert_eq!(args.output_path, "generated_triangles.yaml");
    assert!(args.include_pair_rules);
}

#[test]
fn parse_custom() {
    let args = generate_config::parse_args(&vec![
        "out.yaml".to_string(),
        "--no-pair-rules".to_string(),
    ])
    .expect("parse");
    assert_eq!(args.output_path, "out.yaml");
    assert!(!args.include_pair_rules);
}

#[test]
fn pnl_report_parse_defaults() {
    let cfg = pnl_report::parse_args(&Vec::new()).expect("parse");
    assert_eq!(cfg.top_n, 20);
    assert!(cfg.require_worthy);
    assert!(cfg.require_execution_passed);
    assert!(cfg.csv_output_path.is_none());
}

#[test]
fn parse_custom_flags() {
    let cfg = pnl_report::parse_args(&vec![
        token("signals.jsonl"),
        token("--top"),
        token("5"),
        token("--min-adjusted-bps"),
        token("3.5"),
        token("--include-unworthy"),
        token("--include-nonexecutable"),
        token("--csv"),
        token("out.csv"),
    ])
    .expect("parse");

    assert_eq!(cfg.path, "signals.jsonl");
    assert_eq!(cfg.top_n, 5);
    assert_eq!(cfg.min_adjusted_bps, key(3.5));
    assert!(!cfg.require_worthy);
    assert!(!cfg.require_execution_passed);
    assert_eq!(cfg.csv_output_path.as_deref(), Some("out.csv"));
}

#[test]
fn replay_check_parse_args_defaults() {
    let cfg = replay_check::parse_args(&Vec::new()).expect("parse");
    assert_eq!(cfg.path, "data/replay_market.jsonl");
    assert!(!cfg.strict);
}

#[test]
fn replay_check_parse_args_custom() {
    let cfg = replay_check::parse_args(&vec!["tmp.jsonl".to_string(), "--strict".to_string()])
        .expect("parse");
    assert_eq!(cfg.path, "tmp.jsonl");
    assert!(cfg.strict);
}

#[test]
fn simulator_parse_args_defaults() {
    let cfg = simulator::parse_args(&Vec::new()).expect("parse");
    assert_eq!(cfg.retrigger_cooldown_ms, 1_500);
    assert!(!cfg.include_unworthy);
    assert_eq!(cfg.position_size_pct, key(1.0));
    assert!(cfg.auto_seed_assets);
}

#[test]
fn simulator_parse_args_custom() {
    let args = vec![
        token("signals.jsonl"),
        token("--cooldown-ms"),
        token("5000"),
        token("--min-adjusted-bps"),
        token("12.5"),
        token("--include-unworthy"),
        token("--position-size-pct"),
        token("0.25"),
        token("--max-position-vs-signal"),
        token("2.0"),
        token("--seed-multiplier"),
        token("5"),
        token("--balance"),
        token("usdt=1000"),
    ];
    let cfg = simulator::parse_args(&args).expect("parse");
    assert_eq!(cfg.path, "signals.jsonl");
    assert_eq!(cfg.retrigger_cooldown_ms, 5_000);
    assert_eq!(cfg.min_adjusted_profit_bps, key(12.5));
    assert!(cfg.include_unworthy);
    assert_eq!(cfg.position_size_pct, key(0.25));
    assert_eq!(cfg.max_position_vs_signal, key(2.0));
    assert_eq!(cfg.seed_multiplier, key(5.0));
    assert_eq!(cfg.initial_balances.get("usdt").copied(), Some(key(1000.0)));
}

fn sim_error(texts: &[&str]) -> String {
    simulator::parse_args(&tokens(texts)).expect_err("refused")
}

#[test]
fn simulator_refuses_what_it_cannot_use() {
    assert_eq!(sim_error(&["--cooldown-ms"]), "missing value for --cooldown-ms");
    assert_eq!(sim_error(&["--cooldown-ms", "x"]), "invalid integer for --cooldown-ms");
    assert_eq!(sim_error(&["--seed-multiplier"]), "missing value for --seed-multiplier");
    assert_eq!(
        sim_error(&["--min-adjusted-bps", "x"]),
        "invalid number for --min-adjusted-bps"
    );
    assert_eq!(sim_error(&["--balance"]), "missing value for --balance");
    assert_eq!(sim_error(&["--balance", "usdt"]), "--balance expects asset=amount");
    assert_eq!(
        sim_error(&["--balance", " =5"]),
        "asset in --balance asset=amount cannot be empty"
    );
    assert_eq!(
        sim_error(&["--balance", "usdt=x"]),
        "invalid number in --balance asset=amount"
    );
    assert_eq!(sim_error(&["--balance", "usdt=-1"]), "balance amount must be >= 0");
    for pct in ["0", "-0", "1.5", "-0.1", "NaN"] {
        assert_eq!(
            sim_error(&["--position-size-pct", pct]),
            "--position-size-pct must be > 0 and <= 1"
        );
    }
    assert_eq!(
        sim_error(&["--max-position-vs-signal", "0"]),
        "--max-position-vs-signal must be > 0"
    );
    assert_eq!(sim_error(&["--seed-multiplier", "-2"]), "--seed-multiplier must be > 0");
    assert_eq!(sim_error(&["--what"]), "unknown option --what");
    assert_eq!(sim_error(&["a", "b"]), "unexpected positional argument b");
}

#[test]
fn simulator_takes_balances_and_no_seeding() {
    let cfg = simulator::parse_args(&tokens(&[
        "--balance",
        " USDT =10",
        "--balance",
        "usdt=-0",
        "--no-auto-seed",
        "--max-position-vs-signal",
        "NaN",
    ]))
    .expect("parse");
    assert!(!cfg.auto_seed_assets);
    assert_eq!(cfg.initial_balances.len(), 1);
    assert_eq!(cfg.initial_balances.get("usdt").copied(), Some(key(-0.0)));
    assert!(cfg.max_position_vs_signal.is_nan());
}

#[test]
fn pnl_report_refuses_what_it_cannot_use() {
    let refused = |texts: &[&str]| pnl_report::parse_args(&tokens(texts)).expect_err("refused");
    assert_eq!(refused(&["--top"]), "missing value for --top");
    assert_eq!(refused(&["--top", "-1"]), "invalid integer for --top");
    assert_eq!(refused(&["--top", "0"]), "--top must be > 0");
    assert_eq!(refused(&["--csv"]), "missing value for --csv");
    assert_eq!(refused(&["--min-adjusted-bps"]), "missing value for --min-adjusted-bps");
    assert_eq!(
        refused(&["--min-adjusted-bps", "1,5"]),
        "invalid number for --min-adjusted-bps"
    );
    assert_eq!(refused(&["--strict"]), "unknown option --strict");
    assert_eq!(refused(&["a", "b"]), "unexpected positional argument b");
    // A later value counts, also for the check at the end.
    assert_eq!(pnl_report::parse_args(&tokens(&["--top", "0", "--top", "+3"])).unwrap().top_n, 3);
}

#[test]
fn capture_replay_refuses_what_it_cannot_use() {
    let refused = |texts: &[&str]| capture_replay::parse_args(&strings(texts)).expect_err("refused");
    assert_eq!(refused(&["--seconds"]), "missing value for --seconds");
    assert_eq!(refused(&["--seconds", "1.5"]), "invalid integer for --seconds");
    assert_eq!(refused(&["--seconds", "0"]), "--seconds must be > 0");
    assert_eq!(refused(&["--max-diffs"]), "missing value for --max-diffs");
    assert_eq!(refused(&["--max-diffs", ""]), "invalid integer for --max-diffs");
    assert_eq!(refused(&["--max-diffs", "0"]), "--max-diffs must be > 0");
    assert_eq!(refused(&["--x"]), "unknown option --x");
    assert_eq!(refused(&["a", "b"]), "unexpected positional argument b");
}

#[test]
fn other_subcommands_refuse_unknown_arguments() {
    assert_eq!(
        replay_check::parse_args(&strings(&["--lenient"])).expect_err("refused"),
        "unknown option --lenient"
    );
    assert_eq!(
        replay_check::parse_args(&strings(&["a", "b"])).expect_err("refused"),
        "unexpected positional argument b"
    );
    assert_eq!(
        generate_config::parse_args(&strings(&["--pair-rules"])).expect_err("refused"),
        "unknown option --pair-rules"
    );
    assert_eq!(
        generate_config::parse_args(&strings(&["a", "b"])).expect_err("refused"),
        "unexpected positional argument b"
    );
}

#[test]
fn a_subcommand_takes_only_its_own_arguments() {
    assert!(matches!(
        replay_check::request_from_cli_args(strings(&["simulate"])),
        CliRequest::Other
    ));
    assert!(matches!(replay_check::request_from_cli_args(Vec::new()), CliRequest::Other));
    assert!(matches!(
        replay_check::request_from_cli_args(strings(&["replay-check", "--strict"])),
        CliRequest::Run(cfg) if cfg.strict && cfg.path == "data/replay_market.jsonl"
    ));
    assert!(matches!(
        capture_replay::request_from_cli_args(strings(&["capture-replay", "--seconds"])),
        CliRequest::Refused(message) if message == "missing value for --seconds"
    ));
    assert!(matches!(
        generate_config::request_from_cli_args(strings(&["generate-config", "o.yaml"])),
        CliRequest::Run(args) if args.output_path == "o.yaml"
    ));
    assert!(matches!(
        simulator::request_from_cli_args(tokens(&["simulate", "s.jsonl"])),
        CliRequest::Run(cfg) if cfg.path == "s.jsonl"
    ));
    assert!(matches!(
        simulator::request_from_cli_args(tokens(&["analyze", "s.jsonl"])),
        CliRequest::Other
    ));
    assert!(matches!(
        pnl_report::request_from_cli_args(tokens(&["pnl-report", "--top", "7"])),
        CliRequest::Run(cfg) if cfg.top_n == 7
    ));
    assert_eq!(
        analyzer::path_from_cli_args(strings(&["analyze"])).as_deref(),
        Some("data/triangle_signals.jsonl")
    );
    assert_eq!(
        analyzer::path_from_cli_args(strings(&["analyze", "x", "y"])).as_deref(),
        Some("x")
    );
    assert_eq!(analyzer::path_from_cli_args(strings(&["simulate"])), None);
}
