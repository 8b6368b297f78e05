use arbitrage::decimal::Decimal;
use arbitrage::orderbook::{
    ApplyOutcome, BookSide, OrderBook, OrderBookDiff, OrderBookError, OrderBookSnapshot,
    PriceLevel, apply_side_updates,
};

fn d(value: i64) -> Decimal {
    Decimal::from_i64(value)
}

fn dec(mantissa: i64, scale: u32) -> Decimal {
    Decimal::new(mantissa, scale)
}

fn lvl(price: Decimal, qty: Decimal) -> PriceLevel {
    PriceLevel { price, qty }
}

fn snapshot(last_update_id: u64) -> OrderBookSnapshot {
    OrderBookSnapshot {
        last_update_id,
        bids: vec![lvl(d(100), d(2)), lvl(d(99), d(3))],
        asks: vec![lvl(d(101), d(4)), lvl(d(102), d(5))],
        snapshot_time_ms: Some(1_000),
    }
}

fn diff(first: u64, last: u64, prev: Option<u64>) -> OrderBookDiff {
    OrderBookDiff {
        first_update_id: first,
        final_update_id: last,
        prev_final_update_id: prev,
        bids: vec![],
        asks: vec![],
        event_time_ms: None,
        receive_time_ms: None,
    }
}

#[test]
fn applies_snapshot_and_exposes_best_levels() {
    let mut book = OrderBook::new("btcusdt".to_string());
    book.apply_snapshot(snapshot(10));

    assert!(book.is_synced());
    assert_eq!(book.last_update_id(), Some(10));
    assert_eq!(book.bid_depth_len(), 2);
    assert_eq!(book.ask_depth_len(), 2);
    assert_eq!(book.best_bid(), Some(lvl(d(100), d(2))));
    assert_eq!(book.best_ask(), Some(lvl(d(101), d(4))));
    assert_eq!(book.top_bids(2), vec![lvl(d(100), d(2)), lvl(d(99), d(3))]);
    assert_eq!(book.top_asks(2), vec![lvl(d(101), d(4)), lvl(d(102), d(5))]);
    assert!(!book.is_crossed());
}

#[test]
fn diff_updates_and_removes_levels() {
    let mut book = OrderBook::new("btcusdt".to_string());
    book.apply_snapshot(snapshot(10));

    let outcome = book
        .apply_diff(OrderBookDiff {
            first_update_id: 11,
            final_update_id: 12,
            prev_final_update_id: Some(10),
            bids: vec![lvl(d(100), Decimal::zero()), lvl(dec(985, 1), d(7))],
            asks: vec![lvl(d(101), d(8)), lvl(dec(1035, 1), d(1))],
            event_time_ms: Some(1_100),
            receive_time_ms: Some(1_101),
        })
        .expect("diff applies");

    assert_eq!(outcome, ApplyOutcome::Applied);
    assert_eq!(book.last_update_id(), Some(12));
    assert_eq!(book.last_event_time_ms(), Some(1_100));
    assert_eq!(book.last_receive_time_ms(), Some(1_101));
    assert_eq!(book.best_bid(), Some(lvl(d(99), d(3))));
    assert_eq!(book.best_ask(), Some(lvl(d(101), d(8))));
    assert_eq!(
        book.top_asks(3),
        vec![
            lvl(d(101), d(8)),
            lvl(d(102), d(5)),
            lvl(dec(1035, 1), d(1))
        ]
    );
}

#[test]
fn ignores_stale_diff_events() {
    let mut book = OrderBook::new("btcusdt".to_string());
    book.apply_snapshot(snapshot(10));
    let before = book.top_of_book();

    let outcome = book
        .apply_diff(OrderBookDiff {
            first_update_id: 9,
            final_update_id: 10,
            prev_final_update_id: Some(8),
            bids: vec![lvl(d(100), d(999))],
            asks: vec![],
            event_time_ms: Some(2_000),
            receive_time_ms: Some(2_001),
        })
        .expect("stale diffs are ignored");

    assert_eq!(outcome, ApplyOutcome::IgnoredStale);
    assert_eq!(book.top_of_book(), before);
    assert_eq!(book.last_update_id(), Some(10));
}

#[test]
fn accepts_overlapping_buffered_diff_after_snapshot() {
    let mut book = OrderBook::new("ethbtc".to_string());
    book.apply_snapshot(snapshot(100));

    let outcome = book
        .apply_diff(OrderBookDiff {
            first_update_id: 98,
            final_update_id: 101,
            prev_final_update_id: None,
            bids: vec![lvl(d(100), d(6))],
            asks: vec![],
            event_time_ms: None,
            receive_time_ms: None,
        })
        .expect("overlapping post-snapshot diff applies");

    assert_eq!(outcome, ApplyOutcome::Applied);
    assert_eq!(book.last_update_id(), Some(101));
    assert_eq!(book.best_bid(), Some(lvl(d(100), d(6))));
}

#[test]
fn detects_sequence_gap_without_prev_final_id() {
    let mut book = OrderBook::new("bnbbtc".to_string());
    book.apply_snapshot(snapshot(10));

    let err = book
        .apply_diff(OrderBookDiff {
            first_update_id: 12,
            final_update_id: 13,
            prev_final_update_id: None,
            bids: vec![],
            asks: vec![],
            event_time_ms: None,
            receive_time_ms: None,
        })
        .expect_err("gap should be rejected");

    assert_eq!(
        err,
        OrderBookError::SequenceGap {
            expected_next: 11,
            got_first: 12,
            got_final: 13,
            got_prev_final: None,
        }
    );
    assert!(!book.is_synced());
}

#[test]
fn detects_prev_final_mismatch() {
    let mut book = OrderBook::new("bnbbtc".to_string());
    book.apply_snapshot(snapshot(10));

    let err = book
        .apply_diff(OrderBookDiff {
            first_update_id: 11,
            final_update_id: 11,
            prev_final_update_id: Some(9),
            bids: vec![],
            asks: vec![],
            event_time_ms: None,
            receive_time_ms: None,
        })
        .expect_err("prev_final mismatch should be rejected");

    assert_eq!(
        err,
        OrderBookError::SequenceGap {
            expected_next: 11,
            got_first: 11,
            got_final: 11,
            got_prev_final: Some(9),
        }
    );
    assert!(!book.is_synced());
}

#[test]
fn a_book_without_snapshot_is_not_synced() {
    let mut book = OrderBook::new("btcusdt".to_string());
    assert_eq!(book.symbol(), "btcusdt");
    assert!(!book.is_synced());
    assert_eq!(book.apply_diff(diff(1, 1, None)), Err(OrderBookError::NotSynced));
    assert_eq!(book.best_bid(), None);
    assert_eq!(book.best_ask(), None);
    assert!(!book.is_crossed());
}

#[test]
fn a_range_that_is_none_is_refused_and_changes_nothing() {
    let mut book = OrderBook::new("btcusdt".to_string());
    book.apply_snapshot(snapshot(10));
    assert_eq!(
        book.apply_diff(diff(0, 12, None)),
        Err(OrderBookError::InvalidUpdateRange { first_update_id: 0, final_update_id: 12 })
    );
    assert_eq!(
        book.apply_diff(diff(13, 12, None)),
        Err(OrderBookError::InvalidUpdateRange { first_update_id: 13, final_update_id: 12 })
    );
    assert!(book.is_synced());
    assert_eq!(book.last_update_id(), Some(10));
}

#[test]
fn changes_are_stale_the_second_time() {
    let mut book = OrderBook::new("btcusdt".to_string());
    book.apply_snapshot(snapshot(10));
    assert_eq!(book.apply_diff(diff(11, 11, Some(10))), Ok(ApplyOutcome::Applied));
    assert_eq!(book.apply_diff(diff(11, 11, Some(10))), Ok(ApplyOutcome::IgnoredStale));
    assert_eq!(book.last_update_id(), Some(11));
}

#[test]
fn after_a_gap_only_a_snapshot_helps() {
    let mut book = OrderBook::new("btcusdt".to_string());
    book.apply_snapshot(snapshot(10));
    assert!(book.apply_diff(diff(20, 21, None)).is_err());
    assert_eq!(book.bid_depth_len(), 2);
    assert_eq!(book.apply_diff(diff(11, 11, Some(10))), Err(OrderBookError::NotSynced));
    book.apply_snapshot(snapshot(30));
    assert!(book.is_synced());
    assert_eq!(book.last_update_id(), Some(30));
    assert_eq!(book.last_snapshot_time_ms(), Some(1_000));
    assert_eq!(book.last_receive_time_ms(), Some(1_000));
    book.clear_and_mark_unsynced();
    assert!(!book.is_synced());
    assert_eq!(book.last_update_id(), None);
    assert_eq!(book.bid_depth_len(), 0);
    assert_eq!(book.ask_depth_len(), 0);
}

#[test]
fn the_last_entry_for_a_price_counts_and_others_stay() {
    let mut side = BookSide::new();
    apply_side_updates(
        &mut side,
        vec![
            lvl(dec(1000, 1), d(1)),
            lvl(d(101), d(5)),
            lvl(d(100), d(2)),
            lvl(d(102), d(-1)),
        ],
    );
    assert_eq!(side.len(), 2);
    assert_eq!(side.lowest(), Some(lvl(d(100), d(2))));
    assert_eq!(side.highest(), Some(lvl(d(101), d(5))));
    // The price keeps the digits that it was first written with.
    assert_eq!(side.lowest().map(|l| l.price.scale()), Some(1));
    apply_side_updates(&mut side, vec![lvl(d(100), d(0))]);
    assert_eq!(side.lowest_first(5), vec![lvl(d(101), d(5))]);
    assert_eq!(side.highest_first(0), vec![]);
}

#[test]
fn a_bid_at_the_ask_crosses_the_book() {
    let mut book = OrderBook::new("btcusdt".to_string());
    book.apply_snapshot(OrderBookSnapshot {
        last_update_id: 1,
        bids: vec![lvl(d(101), d(1))],
        asks: vec![lvl(dec(1010, 1), d(1))],
        snapshot_time_ms: None,
    });
    assert!(book.is_crossed());
}

#[test]
fn clone_of_a_book_goes_its_own_way() {
    let mut book = OrderBook::new("btcusdt".to_string());
    book.apply_snapshot(snapshot(10));
    let copy = book.clone();
    assert_eq!(book.apply_diff(diff(11, 11, None)), Ok(ApplyOutcome::Applied));
    assert_eq!(book.last_update_id(), Some(11));
    assert_eq!(copy.last_update_id(), Some(10));
    assert_eq!(copy.top_bids(2), vec![lvl(d(100), d(2)), lvl(d(99), d(3))]);
    assert_eq!(copy.top_asks(2), vec![lvl(d(101), d(4)), lvl(d(102), d(5))]);
}
