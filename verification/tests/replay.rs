use arbitrage::binance_rest::{BinanceDepthSnapshot, DepthSnapshotLevel};
use arbitrage::capture_replay::{
    CaptureAction, CaptureEvent, CaptureReplayConfig, CaptureStats, check_streams, diff_record,
    diff_stream_name, get_binance_streams_url, is_complete, snapshot_limit, snapshot_record,
};
use arbitrage::decimal::Decimal;
use arbitrage::market_state::MarketState;
use arbitrage::models::{DiffDepthStreamData, DiffDepthStreamWrapper, OfferData};
use arbitrage::orderbook::{OrderBookDiff, OrderBookError, PriceLevel};
use arbitrage::replay_check::{
    BufferedReplayDiff, DiffNumbers, ReplayCheckConfig, ReplayLine, ReplayRecord, ReplayState,
    apply_buffered_diffs_after_snapshot_local, diff_line, price_levels_from_pairs, snapshot_line,
};

fn num(text: &str) -> Decimal {
    Decimal::parse(text).unwrap()
}

fn pair(price: &str, qty: &str) -> [String; 2] {
    [price.to_string(), qty.to_string()]
}

fn snapshot(pair_name: &str, last_update_id: u64) -> ReplayLine {
    snapshot_line(
        pair_name.to_string(),
        None,
        last_update_id,
        5,
        vec![pair("100", "1")],
        vec![pair("101", "1")],
    )
}

fn changes(stream: &str, first: u64, last: u64, prev: Option<u64>) -> ReplayLine {
    diff_line(
        stream.to_string(),
        DiffNumbers {
            first_update_id: first,
            final_update_id: last,
            prev_final_update_id: prev,
            event_time_ms: None,
            receive_time_ms: Some(9),
        },
        vec![pair("100", "2")],
        vec![],
    )
}

#[test]
fn builds_combined_stream_url() {
    let url = get_binance_streams_url(&["btcusdt".to_string(), "ethusdt".to_string()], 100);
    assert!(url.contains("btcusdt@depth@100ms/ethusdt@depth@100ms"));
    assert_eq!(
        url,
        "wss://stream.binance.com:9443/stream?streams=btcusdt@depth@100ms/ethusdt@depth@100ms"
    );
}

#[test]
fn a_recording_in_step_passes() {
    let mut state = ReplayState::new();
    state.step(ReplayLine::Blank);
    state.step(snapshot("BTCUSDT", 100));
    state.step(changes("btcusdt@depth@100ms", 101, 101, Some(100)));
    state.step(changes("btcusdt@depth@100ms", 102, 103, None));
    state.step(changes("btcusdt@depth@100ms", 102, 103, None));
    state.step(ReplayLine::Unreadable);
    let summary = state.summary();
    assert_eq!(summary.stats.total_lines, 6);
    assert_eq!(summary.stats.parsed_lines, 4);
    assert_eq!(summary.stats.ignored_lines, 1);
    assert_eq!(summary.stats.snapshot_lines, 1);
    assert_eq!(summary.stats.diff_lines, 3);
    assert_eq!(summary.stats.diffs_applied, 2);
    assert_eq!(summary.stats.diffs_ignored_stale, 1);
    assert_eq!(summary.pending_pairs, 0);
    assert_eq!(summary.pending_updates, 0);
    assert!(!summary.strict_fail());
    let strict = ReplayCheckConfig { strict: true, ..ReplayCheckConfig::default() };
    assert_eq!(summary.verdict(&strict), Ok(()));
}

#[test]
fn changes_before_a_snapshot_wait_and_catch_up() {
    let mut state = ReplayState::new();
    state.step(changes("btcusdt@depth", 98, 99, None));
    state.step(changes("btcusdt@depth", 100, 102, None));
    state.step(changes("btcusdt@depth", 103, 104, None));
    assert_eq!(state.summary().pending_updates, 3);
    assert_eq!(state.summary().pending_pairs, 1);
    assert_eq!(state.summary().final_synced_pairs, 0);
    state.step(snapshot("btcusdt", 101));
    let summary = state.summary();
    assert_eq!(summary.stats.buffered_diff_lines, 3);
    assert_eq!(summary.stats.buffered_replay_successes, 1);
    assert_eq!(summary.pending_updates, 0);
    assert_eq!(summary.pending_pairs, 0);
    assert_eq!(summary.final_synced_pairs, 1);
}

#[test]
fn changes_that_do_not_reach_the_snapshot_go_on_waiting() {
    let mut state = ReplayState::new();
    state.step(changes("btcusdt@depth", 110, 111, None));
    state.step(snapshot("btcusdt", 101));
    let summary = state.summary();
    assert_eq!(summary.stats.buffered_replay_waiting_snapshot, 1);
    assert_eq!(summary.pending_updates, 1);
    // The book is in step, and the changes still wait.
    assert_eq!(summary.final_synced_pairs, 1);
    let strict = ReplayCheckConfig { strict: true, ..ReplayCheckConfig::default() };
    assert_eq!(
        summary.verdict(&strict).unwrap_err(),
        "strict replay-check failed (errors or pending buffered diffs remain)"
    );
    assert_eq!(summary.verdict(&ReplayCheckConfig::default()), Ok(()));
}

#[test]
fn a_gap_among_waiting_changes_fails_the_catch_up() {
    let mut state = ReplayState::new();
    state.step(changes("btcusdt@depth", 101, 102, None));
    state.step(changes("btcusdt@depth", 110, 111, None));
    state.step(snapshot("btcusdt", 100));
    let summary = state.summary();
    assert_eq!(summary.stats.buffered_replay_failures, 1);
    assert_eq!(summary.pending_updates, 0);
    assert_eq!(summary.final_synced_pairs, 0);
    assert!(summary.strict_fail());
}

#[test]
fn a_gap_drops_the_book_and_keeps_the_changes() {
    let mut state = ReplayState::new();
    state.step(snapshot("btcusdt", 100));
    state.step(changes("btcusdt@depth", 105, 106, None));
    state.step(changes("btcusdt@depth", 107, 107, None));
    let summary = state.summary();
    assert_eq!(summary.stats.diff_apply_errors, 1);
    assert_eq!(summary.stats.buffered_diff_lines, 2);
    assert_eq!(summary.pending_updates, 2);
    assert_eq!(summary.pending_pairs, 1);
    // Another pair is not touched by that.
    state.step(snapshot("ethbtc", 7));
    state.step(changes("ethbtc@depth", 8, 8, Some(7)));
    assert_eq!(state.summary().stats.diffs_applied, 1);
    assert_eq!(state.summary().pending_updates, 2);
}

fn waiting(first: u64, last: u64, prev: Option<u64>) -> BufferedReplayDiff {
    BufferedReplayDiff {
        stream_name: "btcusdt@depth".to_string(),
        diff: OrderBookDiff {
            first_update_id: first,
            final_update_id: last,
            prev_final_update_id: prev,
            bids: vec![],
            asks: vec![],
            event_time_ms: None,
            receive_time_ms: None,
        },
    }
}

#[test]
fn catching_up_starts_at_the_changes_that_carry_on() {
    let mut market = MarketState::with_capacity(1);
    let mut none = vec![waiting(1, 2, None)];
    assert_eq!(apply_buffered_diffs_after_snapshot_local(&mut market, "btcusdt", &mut none), Ok(false));
    assert_eq!(none.len(), 1);
    market.apply_orderbook_snapshot(
        "btcusdt",
        "btcusdt@depth".to_string(),
        10,
        vec![PriceLevel { price: num("1"), qty: num("1") }],
        vec![],
        1,
    );
    // Covered by the snapshot, not carrying on, carrying on.
    let mut buffer = vec![waiting(5, 9, None), waiting(5, 12, Some(4)), waiting(11, 13, Some(10))];
    assert_eq!(apply_buffered_diffs_after_snapshot_local(&mut market, "btcusdt", &mut buffer), Ok(true));
    assert!(buffer.is_empty());
    let view = market.export_depth_view("btcusdt", 1).unwrap();
    assert_eq!(view.depth.data.last_update_id, 13);
    let mut stale = vec![waiting(5, 9, None), waiting(1, 20, Some(4))];
    assert_eq!(apply_buffered_diffs_after_snapshot_local(&mut market, "btcusdt", &mut stale), Ok(false));
    assert_eq!(stale.len(), 1);
    let mut broken = vec![waiting(14, 14, None), waiting(20, 21, None)];
    assert_eq!(
        apply_buffered_diffs_after_snapshot_local(&mut market, "btcusdt", &mut broken),
        Err(OrderBookError::SequenceGap {
            expected_next: 15,
            got_first: 20,
            got_final: 21,
            got_prev_final: None,
        })
    );
    assert!(broken.is_empty());
}

#[test]
fn lines_with_texts_that_are_no_numbers_are_unreadable() {
    assert!(price_levels_from_pairs(vec![pair("1", "2"), pair("1", "")]).is_none());
    assert_eq!(
        price_levels_from_pairs(vec![pair("1", "2")]).unwrap(),
        vec![PriceLevel { price: num("1"), qty: num("2") }]
    );
    assert!(matches!(
        snapshot_line("a".to_string(), None, 1, 1, vec![pair("x", "1")], vec![]),
        ReplayLine::Unreadable
    ));
    assert!(matches!(
        snapshot_line("a".to_string(), Some("s".to_string()), 1, 2, vec![], vec![]),
        ReplayLine::Record(ReplayRecord::Snapshot(record))
            if record.pair == "a" && record.stream.as_deref() == Some("s") && record.timestamp_ms == 2
    ));
    let numbers = DiffNumbers {
        first_update_id: 1,
        final_update_id: 2,
        prev_final_update_id: None,
        event_time_ms: None,
        receive_time_ms: None,
    };
    assert!(matches!(
        diff_line("a".to_string(), numbers, vec![], vec![pair("1", "y")]),
        ReplayLine::Unreadable
    ));
}

fn stream_diff() -> DiffDepthStreamWrapper {
    DiffDepthStreamWrapper {
        stream: "btcusdt@depth@100ms".to_string(),
        data: DiffDepthStreamData {
            event_time_ms: 40,
            first_update_id: 11,
            final_update_id: 12,
            prev_final_update_id: Some(10),
            bids: vec![OfferData { price: num("1.50"), size: num("0.0") }],
            asks: vec![],
        },
    }
}

#[test]
fn what_is_recorded_is_read_back() {
    let record = diff_record(stream_diff(), 77);
    assert_eq!(record.bids, vec![pair("1.50", "0.0")]);
    assert_eq!(record.event_time_ms, Some(40));
    assert_eq!(record.receive_time_ms, Some(77));
    let line = diff_line(
        record.stream,
        DiffNumbers {
            first_update_id: record.first_update_id,
            final_update_id: record.final_update_id,
            prev_final_update_id: record.prev_final_update_id,
            event_time_ms: record.event_time_ms,
            receive_time_ms: record.receive_time_ms,
        },
        record.bids,
        record.asks,
    );
    let ReplayLine::Record(ReplayRecord::Diff(read)) = line else {
        panic!("changes");
    };
    assert_eq!(read.stream, "btcusdt@depth@100ms");
    assert_eq!((read.first_update_id, read.final_update_id), (11, 12));
    assert_eq!((read.bids[0].price.mantissa(), read.bids[0].price.scale()), (150, 2));
    assert_eq!((read.bids[0].qty.mantissa(), read.bids[0].qty.scale()), (0, 1));
}

#[test]
fn snapshots_are_recorded_with_their_stream() {
    let record = snapshot_record(
        BinanceDepthSnapshot {
            symbol: "btcusdt".to_string(),
            last_update_id: 3,
            bids: vec![DepthSnapshotLevel { price: num("1.0"), qty: num("2") }],
            asks: vec![],
            fetched_at_ms: 8,
        },
        250,
    );
    assert_eq!(record.pair, "btcusdt");
    assert_eq!(record.stream, "btcusdt@depth@250ms");
    assert_eq!(record.last_update_id, 3);
    assert_eq!(record.timestamp_ms, 8);
    assert_eq!(record.bids, vec![pair("1.0", "2")]);
    assert_eq!(diff_stream_name("a", 1000), "a@depth@1000ms");
    assert_eq!(snapshot_limit(0), 1);
    assert_eq!(snapshot_limit(20), 20);
    assert_eq!(snapshot_limit(70_000), 5_000);
    assert_eq!(check_streams(&["a".to_string()]), Ok(()));
    assert_eq!(
        check_streams(&[]).unwrap_err(),
        "config.yaml has no depth_streams to subscribe to"
    );
}

#[test]
fn a_recording_stops_when_it_has_what_it_was_asked_for() {
    let config = CaptureReplayConfig {
        duration_secs: Some(30),
        max_diffs: Some(2),
        ..CaptureReplayConfig::default()
    };
    let mut stats = CaptureStats::at_start(&config, 4);
    assert_eq!(stats.snapshots_written, 4);
    assert!(!is_complete(&config, 29, &stats));
    assert!(is_complete(&config, 30, &stats));
    let event = CaptureEvent::Diff { diff: stream_diff(), receive_time_ms: 5 };
    assert!(matches!(stats.take(event), CaptureAction::Write(r) if r.receive_time_ms == Some(5)));
    assert!(matches!(stats.take(CaptureEvent::Unreadable), CaptureAction::Nothing));
    assert!(matches!(stats.take(CaptureEvent::Other), CaptureAction::Nothing));
    assert!(matches!(stats.take(CaptureEvent::Ping), CaptureAction::AnswerPing));
    assert!(matches!(stats.take(CaptureEvent::Pong), CaptureAction::Nothing));
    assert!(matches!(stats.take(CaptureEvent::Close), CaptureAction::Stop));
    assert!(matches!(stats.take(CaptureEvent::End), CaptureAction::Stop));
    assert_eq!((stats.diffs_written, stats.parse_errors, stats.non_text_messages), (1, 1, 1));
    assert!(!is_complete(&config, 0, &stats));
    stats.diffs_written = 2;
    assert!(is_complete(&config, 0, &stats));
    assert!(!is_complete(&CaptureReplayConfig::default(), u64::MAX, &stats));
    let none = CaptureReplayConfig { startup_snapshots: false, ..CaptureReplayConfig::default() };
    assert_eq!(CaptureStats::at_start(&none, 4).snapshots_written, 0);
}
